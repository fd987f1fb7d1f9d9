//! Output filter. Tracks escape-sequence state in the command's output so
//! keylock can safely insert its own sequences, and prefixes window titles
//! with a lock while the session is locked.

use crate::text::{push_all, BEL, ESC};
use vstd::prelude::*;

verus! {

/// The longest operating-system command that is held back in search of a title.
pub const MAX_OSC: usize = 8192;

/// What a window title starts with while the session is locked.
pub const LOCK_PREFIX: &'static str = "🔒 ";

/// Where the filter stands in the command's output.
#[derive(Debug, Clone, Copy, PartialEq, Eq, Structural)]
pub enum State {
    Ground,
    Esc,
    Csi,
    Osc,
    OscEsc,
    /// DCS, APC, PM or SOS string, passed through until ST.
    Str,
    StrEsc,
    /// Continuation bytes still expected for a UTF-8 character.
    Utf8(u8),
}

/// The mathematical content of a [`TitleFilter`].
#[verifier::ext_equal]
pub struct FilterState {
    pub state: State,
    /// The body of the operating-system command read so far.
    pub osc: Seq<u8>,
    /// The title that the command set last, as the command wrote it.
    pub last_title: Option<Seq<u8>>,
}

/// The filter before any output.
pub open spec fn fresh_filter() -> FilterState {
    FilterState { state: State::Ground, osc: Seq::empty(), last_title: None }
}

/// How many continuation bytes a UTF-8 lead byte announces; 0 for other bytes.
pub open spec fn continuation_count(byte: u8) -> u8 {
    if 0xc0 <= byte <= 0xdf {
        1
    } else if 0xe0 <= byte <= 0xef {
        2
    } else if 0xf0 <= byte <= 0xf7 {
        3
    } else {
        0
    }
}

/// The opening of an operating-system command.
pub open spec fn osc_intro() -> Seq<u8> {
    seq![ESC, 0x5d]
}

/// The end of an operating-system command: a bell or the string terminator.
pub open spec fn osc_terminator(by_bell: bool) -> Seq<u8> {
    if by_bell {
        seq![BEL]
    } else {
        seq![ESC, 0x5c]
    }
}

/// The title that an operating-system command sets, if it sets one.
pub open spec fn title_of(osc: Seq<u8>) -> Option<Seq<u8>> {
    if osc.len() >= 2 && (osc[0] == 0x30 || osc[0] == 0x32) && osc[1] == 0x3b {
        Some(osc.skip(2))
    } else {
        None
    }
}

/// The bytes of [`LOCK_PREFIX`].
pub open spec fn lock_prefix() -> Seq<u8> {
    vstd::utf8::encode_utf8(LOCK_PREFIX@)
}

/// The body of an operating-system command as the user's terminal gets it.
pub open spec fn shown_osc(osc: Seq<u8>, locked: bool) -> Seq<u8> {
    match title_of(osc) {
        Some(title) if locked => osc.take(2) + lock_prefix() + title,
        _ => osc,
    }
}

/// One output byte outside any sequence.
pub open spec fn ground_next(s: FilterState, byte: u8) -> (FilterState, Seq<u8>) {
    if byte == ESC {
        (FilterState { state: State::Esc, ..s }, Seq::empty())
    } else {
        let count = continuation_count(byte);
        let state = if count == 0 { State::Ground } else { State::Utf8(count) };
        (FilterState { state, ..s }, seq![byte])
    }
}

/// One output byte right after an escape.
pub open spec fn esc_next(s: FilterState, byte: u8) -> (FilterState, Seq<u8>) {
    if byte == 0x5d {
        (FilterState { state: State::Osc, osc: Seq::empty(), ..s }, Seq::empty())
    } else if byte == ESC {
        (FilterState { state: State::Esc, ..s }, seq![ESC])
    } else {
        let state = if byte == 0x5b {
            State::Csi
        } else if byte == 0x50 || byte == 0x5f || byte == 0x5e || byte == 0x58 {
            State::Str
        } else {
            State::Ground
        };
        (FilterState { state, ..s }, seq![ESC, byte])
    }
}

/// The operating-system command has ended with `terminator`.
pub open spec fn osc_finished(s: FilterState, terminator: Seq<u8>, locked: bool) -> (
    FilterState,
    Seq<u8>,
) {
    let last_title = match title_of(s.osc) {
        Some(title) => Some(title),
        None => s.last_title,
    };
    (
        FilterState { state: State::Ground, osc: Seq::empty(), last_title },
        osc_intro() + shown_osc(s.osc, locked) + terminator,
    )
}

/// The filter with the operating-system command given up, standing at `state`.
pub open spec fn osc_abandoned(s: FilterState, state: State) -> FilterState {
    FilterState { state, osc: Seq::empty(), ..s }
}

/// One output byte: the filter afterwards, and the bytes that go to the user.
pub open spec fn filter_next(s: FilterState, byte: u8, locked: bool) -> (FilterState, Seq<u8>) {
    match s.state {
        State::Ground => ground_next(s, byte),
        State::Utf8(remaining) => if 0x80 <= byte <= 0xbf {
            let state = if remaining <= 1 {
                State::Ground
            } else {
                State::Utf8((remaining - 1) as u8)
            };
            (FilterState { state, ..s }, seq![byte])
        } else {
            ground_next(s, byte)
        },
        State::Esc => esc_next(s, byte),
        State::Csi => {
            let state = if 0x40 <= byte <= 0x7e { State::Ground } else { State::Csi };
            (FilterState { state, ..s }, seq![byte])
        },
        State::Osc => if byte == BEL {
            osc_finished(s, seq![BEL], locked)
        } else if byte == ESC {
            (FilterState { state: State::OscEsc, ..s }, Seq::empty())
        } else if s.osc.len() >= MAX_OSC {
            let (after, out) = ground_next(osc_abandoned(s, State::Ground), byte);
            (after, osc_intro() + s.osc + out)
        } else {
            (FilterState { osc: s.osc.push(byte), ..s }, Seq::empty())
        },
        State::OscEsc => if byte == 0x5c {
            osc_finished(s, seq![ESC, 0x5c], locked)
        } else {
            let (after, out) = esc_next(osc_abandoned(s, State::Esc), byte);
            (after, osc_intro() + s.osc + out)
        },
        State::Str => {
            let state = if byte == ESC { State::StrEsc } else { State::Str };
            (FilterState { state, ..s }, seq![byte])
        },
        State::StrEsc => {
            let state = if byte == 0x5c {
                State::Ground
            } else if byte == ESC {
                State::StrEsc
            } else {
                State::Str
            };
            (FilterState { state, ..s }, seq![byte])
        },
    }
}

/// A run of output bytes: the filter afterwards, and the bytes that go to the
/// user.
pub open spec fn filtered(s: FilterState, chunk: Seq<u8>, locked: bool) -> (FilterState, Seq<u8>)
    decreases chunk.len(),
{
    if chunk.len() == 0 {
        (s, Seq::empty())
    } else {
        let (before, out) = filtered(s, chunk.drop_last(), locked);
        let (after, more) = filter_next(before, chunk.last(), locked);
        (after, out + more)
    }
}

/// The escape sequence that sets the window title.
pub open spec fn title_sequence(title: Seq<u8>) -> Seq<u8> {
    seq![ESC, 0x5d, 0x32, 0x3b] + title + seq![BEL]
}

/// Follows the command's output.
#[derive(Debug)]
pub struct TitleFilter {
    state: State,
    osc: Vec<u8>,
    last_title: Option<Vec<u8>>,
}

impl View for TitleFilter {
    type V = FilterState;

    closed spec fn view(&self) -> FilterState {
        FilterState {
            state: self.state,
            osc: self.osc@,
            last_title: match self.last_title {
                Some(title) => Some(title@),
                None => None,
            },
        }
    }
}

impl Default for TitleFilter {
    fn default() -> (filter: Self)
        ensures
            filter@ == fresh_filter(),
            filter_invariant(filter@),
    {
        TitleFilter { state: State::Ground, osc: Vec::new(), last_title: None }
    }
}

impl TitleFilter {
    /// Passes `chunk` through and returns what the user's terminal gets.
    pub fn filter(&mut self, chunk: &[u8], locked: bool) -> (out: Vec<u8>)
        ensures
            (final(self)@, out@) == filtered(old(self)@, chunk@, locked),
            filter_invariant(old(self)@) ==> filter_invariant(final(self)@),
    {
        let mut out: Vec<u8> = Vec::new();
        let mut i: usize = 0;
        assert(chunk@.take(0) =~= Seq::empty());
        while i < chunk.len()
            invariant
                i <= chunk@.len(),
                (self@, out@) == filtered(old(self)@, chunk@.take(i as int), locked),
            decreases chunk@.len() - i,
        {
            self.step(chunk[i], locked, &mut out);
            i = i + 1;
            assert(chunk@.take(i as int).drop_last() =~= chunk@.take(i - 1));
        }
        assert(chunk@.take(i as int) =~= chunk@);
        proof {
            if filter_invariant(old(self)@) {
                law_filter_invariant(old(self)@, chunk@, locked);
            }
        }
        out
    }

    /// Whether the output so far ends inside a sequence or a character.
    pub fn in_sequence(&self) -> (inside: bool)
        ensures
            inside == (self@.state != State::Ground),
    {
        self.state != State::Ground
    }

    /// The title that the command set last, without any lock.
    pub fn last_title(&self) -> (title: Option<&[u8]>)
        ensures
            match title {
                Some(bytes) => self@.last_title == Some(bytes@),
                None => self@.last_title is None,
            },
    {
        match &self.last_title {
            Some(title) => Some(title.as_slice()),
            None => None,
        }
    }

    fn step(&mut self, byte: u8, locked: bool, out: &mut Vec<u8>)
        ensures
            final(self)@ == filter_next(old(self)@, byte, locked).0,
            final(out)@ == old(out)@ + filter_next(old(self)@, byte, locked).1,
    {
        match self.state {
            State::Ground => self.ground(byte, out),
            State::Utf8(remaining) => {
                if 0x80 <= byte && byte <= 0xbf {
                    out.push(byte);
                    self.state = if remaining <= 1 {
                        State::Ground
                    } else {
                        State::Utf8(remaining - 1)
                    };
                } else {
                    self.ground(byte, out);
                }
            },
            State::Esc => self.escaped(byte, out),
            State::Csi => {
                out.push(byte);
                if 0x40 <= byte && byte <= 0x7e {
                    self.state = State::Ground;
                }
            },
            State::Osc => {
                if byte == BEL {
                    self.finish_osc(&[BEL], locked, out);
                } else if byte == ESC {
                    self.state = State::OscEsc;
                } else if self.osc.len() >= MAX_OSC {
                    self.abandon_osc(out);
                    self.state = State::Ground;
                    self.ground(byte, out);
                } else {
                    self.osc.push(byte);
                }
            },
            State::OscEsc => {
                if byte == 0x5c {
                    self.finish_osc(&[ESC, 0x5c], locked, out);
                } else {
                    self.abandon_osc(out);
                    self.state = State::Esc;
                    self.escaped(byte, out);
                }
            },
            State::Str => {
                out.push(byte);
                if byte == ESC {
                    self.state = State::StrEsc;
                }
            },
            State::StrEsc => {
                out.push(byte);
                self.state = if byte == 0x5c {
                    State::Ground
                } else if byte == ESC {
                    State::StrEsc
                } else {
                    State::Str
                };
            },
        }
        assert(out@ =~= old(out)@ + filter_next(old(self)@, byte, locked).1);
    }

    fn ground(&mut self, byte: u8, out: &mut Vec<u8>)
        ensures
            final(self)@ == ground_next(old(self)@, byte).0,
            final(out)@ == old(out)@ + ground_next(old(self)@, byte).1,
    {
        if byte == ESC {
            self.state = State::Esc;
        } else if 0xc0 <= byte && byte <= 0xdf {
            self.utf8_lead(byte, 1, out);
        } else if 0xe0 <= byte && byte <= 0xef {
            self.utf8_lead(byte, 2, out);
        } else if 0xf0 <= byte && byte <= 0xf7 {
            self.utf8_lead(byte, 3, out);
        } else {
            out.push(byte);
            self.state = State::Ground;
        }
        assert(out@ =~= old(out)@ + ground_next(old(self)@, byte).1);
    }

    fn escaped(&mut self, byte: u8, out: &mut Vec<u8>)
        ensures
            final(self)@ == esc_next(old(self)@, byte).0,
            final(out)@ == old(out)@ + esc_next(old(self)@, byte).1,
    {
        if byte == 0x5d {
            self.osc.clear();
            self.state = State::Osc;
        } else if byte == ESC {
            out.push(ESC);
            self.state = State::Esc;
        } else {
            push_all(out, &[ESC, byte]);
            self.state = if byte == 0x5b {
                State::Csi
            } else if byte == 0x50 || byte == 0x5f || byte == 0x5e || byte == 0x58 {
                State::Str
            } else {
                State::Ground
            };
        }
        assert(out@ =~= old(out)@ + esc_next(old(self)@, byte).1);
    }

    fn utf8_lead(&mut self, byte: u8, continuation: u8, out: &mut Vec<u8>)
        ensures
            final(self)@ == (FilterState { state: State::Utf8(continuation), ..old(self)@ }),
            final(out)@ == old(out)@.push(byte),
    {
        out.push(byte);
        self.state = State::Utf8(continuation);
    }

    /// Writes the buffered OSC unchanged, without a terminator.
    fn abandon_osc(&mut self, out: &mut Vec<u8>)
        ensures
            final(self)@ == osc_abandoned(old(self)@, old(self)@.state),
            final(out)@ == old(out)@ + osc_intro() + old(self)@.osc,
    {
        push_all(out, &[ESC, 0x5d]);
        out.append(&mut self.osc);
        assert(out@ =~= old(out)@ + osc_intro() + old(self)@.osc);
    }

    fn finish_osc(&mut self, terminator: &[u8], locked: bool, out: &mut Vec<u8>)
        ensures
            final(self)@ == osc_finished(old(self)@, terminator@, locked).0,
            final(out)@ == old(out)@ + osc_finished(old(self)@, terminator@, locked).1,
    {
        let mut osc: Vec<u8> = Vec::new();
        std::mem::swap(&mut osc, &mut self.osc);
        self.state = State::Ground;
        push_all(out, &[ESC, 0x5d]);
        if osc.len() >= 2 && (osc[0] == 0x30 || osc[0] == 0x32) && osc[1] == 0x3b {
            let title: Vec<u8> = osc.split_off(2);
            push_all(out, osc.as_slice());
            if locked {
                push_all(out, LOCK_PREFIX.as_bytes());
            }
            push_all(out, title.as_slice());
            assert(osc@ =~= old(self)@.osc.take(2));
            assert(title@ =~= old(self)@.osc.skip(2));
            assert(old(self)@.osc =~= osc@ + title@);
            self.last_title = Some(title);
        } else {
            push_all(out, osc.as_slice());
        }
        push_all(out, terminator);
        assert(out@ =~= old(out)@ + osc_finished(old(self)@, terminator@, locked).1);
    }
}

/// The escape sequence that sets the window title to `title`.
pub fn set_title(title: &[u8]) -> (seq: Vec<u8>)
    ensures
        seq@ == title_sequence(title@),
{
    let mut seq: Vec<u8> = Vec::new();
    push_all(&mut seq, &[ESC, 0x5d, 0x32, 0x3b]);
    push_all(&mut seq, title);
    seq.push(BEL);
    assert(seq@ =~= title_sequence(title@));
    seq
}

/// The bytes of a started sequence that the filter holds back.
pub open spec fn held_back(s: FilterState) -> Seq<u8> {
    match s.state {
        State::Esc => seq![ESC],
        State::Osc => osc_intro() + s.osc,
        State::OscEsc => osc_intro() + s.osc + seq![ESC],
        _ => Seq::empty(),
    }
}

/// What holds of a filter at all times: it buffers only inside an
/// operating-system command, and never more than the limit.
pub open spec fn filter_invariant(s: FilterState) -> bool {
    &&& s.osc.len() <= MAX_OSC
    &&& (s.state is Osc || s.state is OscEsc || s.osc.len() == 0)
    &&& (s.state matches State::Utf8(remaining) ==> 1 <= remaining <= 3)
}

/// How many titles the command sets in `chunk`.
pub open spec fn titles_set(s: FilterState, chunk: Seq<u8>) -> nat
    decreases chunk.len(),
{
    if chunk.len() == 0 {
        0
    } else {
        let before = filtered(s, chunk.drop_last(), false).0;
        let ends_osc = (before.state is Osc && chunk.last() == BEL) || (before.state is OscEsc
            && chunk.last() == 0x5c);
        titles_set(s, chunk.drop_last()) + if ends_osc && title_of(before.osc) is Some {
            1nat
        } else {
            0nat
        }
    }
}

/// `head` ends where a title begins: with the opening of either of the two
/// title commands.
pub open spec fn opens_title(head: Seq<u8>) -> bool {
    ||| crate::text::ends_with(head, osc_intro() + seq![0x30u8, 0x3b])
    ||| crate::text::ends_with(head, osc_intro() + seq![0x32u8, 0x3b])
}

/// `plain` is `head` and `tail`, and `marked` is `marked_head` and `tail` with
/// the lock prefix between them, where a title begins.
pub open spec fn lock_between(
    plain: Seq<u8>,
    marked: Seq<u8>,
    head: Seq<u8>,
    marked_head: Seq<u8>,
    tail: Seq<u8>,
) -> bool {
    &&& opens_title(head)
    &&& opens_title(marked_head)
    &&& plain == head + tail
    &&& marked == marked_head + lock_prefix() + tail
}

/// `marked` is `plain` with the lock prefix put in at `count` places, each
/// where a title begins.
pub open spec fn marked_with_locks(plain: Seq<u8>, marked: Seq<u8>, count: nat) -> bool
    decreases count,
{
    if count == 0 {
        plain == marked
    } else {
        exists|head: Seq<u8>, marked_head: Seq<u8>, tail: Seq<u8>|
            {
                &&& #[trigger] lock_between(plain, marked, head, marked_head, tail)
                &&& marked_with_locks(head, marked_head, (count - 1) as nat)
            }
    }
}

/// Output comes out the same however it is split into chunks.
pub proof fn law_chunks(s: FilterState, first: Seq<u8>, second: Seq<u8>, locked: bool)
    ensures
        filtered(s, first + second, locked) == ({
            let (between, out) = filtered(s, first, locked);
            let (after, more) = filtered(between, second, locked);
            (after, out + more)
        }),
    decreases second.len(),
{
    if second.len() == 0 {
        assert(first + second =~= first);
        assert(filtered(s, first, locked).1 + Seq::<u8>::empty() =~= filtered(s, first, locked).1);
    } else {
        law_chunks(s, first, second.drop_last(), locked);
        assert((first + second).drop_last() =~= first + second.drop_last());
        let (between, out) = filtered(s, first, locked);
        let (before, more) = filtered(between, second.drop_last(), locked);
        let last = filter_next(before, second.last(), locked).1;
        assert(out + more + last =~= out + (more + last));
    }
}

/// Output always passes through: while the session is unlocked, what has been
/// shown together with what is held back is exactly what the command wrote.
pub proof fn law_unlocked_output_is_unchanged(s: FilterState, chunk: Seq<u8>)
    ensures
        filtered(s, chunk, false).1 + held_back(filtered(s, chunk, false).0) == held_back(s)
            + chunk,
    decreases chunk.len(),
{
    if chunk.len() == 0 {
        assert(Seq::<u8>::empty() + held_back(s) =~= held_back(s) + chunk);
    } else {
        law_unlocked_output_is_unchanged(s, chunk.drop_last());
        let (before, out) = filtered(s, chunk.drop_last(), false);
        let (after, more) = filter_next(before, chunk.last(), false);
        lemma_unlocked_byte_is_unchanged(before, chunk.last());
        assert((out + more) + held_back(after) =~= out + (more + held_back(after)));
        assert(out + (held_back(before) + seq![chunk.last()]) =~= (out + held_back(before))
            + seq![chunk.last()]);
        assert((held_back(s) + chunk.drop_last()) + seq![chunk.last()] =~= held_back(s) + chunk);
    }
}

proof fn lemma_unlocked_byte_is_unchanged(s: FilterState, byte: u8)
    ensures
        ({
            let (after, out) = filter_next(s, byte, false);
            out + held_back(after) == held_back(s) + seq![byte]
        }),
{
    let (after, out) = filter_next(s, byte, false);
    let kept = out + held_back(after);
    let written = held_back(s) + seq![byte];
    assert(kept =~= written);
}

/// What the filter remembers, the last title included, does not depend on the
/// lock.
pub proof fn law_memory_ignores_the_lock(s: FilterState, chunk: Seq<u8>)
    ensures
        filtered(s, chunk, true).0 == filtered(s, chunk, false).0,
    decreases chunk.len(),
{
    if chunk.len() > 0 {
        law_memory_ignores_the_lock(s, chunk.drop_last());
    }
}

/// While the session is locked, the output differs from the unlocked output
/// only by one lock prefix for each title that the command sets, in front of
/// a title.
pub proof fn law_locked_output_marks_titles(s: FilterState, chunk: Seq<u8>)
    ensures
        marked_with_locks(
            filtered(s, chunk, false).1,
            filtered(s, chunk, true).1,
            titles_set(s, chunk),
        ),
    decreases chunk.len(),
{
    if chunk.len() > 0 {
        law_locked_output_marks_titles(s, chunk.drop_last());
        law_memory_ignores_the_lock(s, chunk.drop_last());
        let (before, plain) = filtered(s, chunk.drop_last(), false);
        let marked = filtered(s, chunk.drop_last(), true).1;
        let count = titles_set(s, chunk.drop_last());
        let more = filter_next(before, chunk.last(), false).1;
        let marked_more = filter_next(before, chunk.last(), true).1;
        if titles_set(s, chunk) == count {
            assert(more == marked_more);
            lemma_marked_extends(plain, marked, count, more);
        } else {
            let terminator = osc_terminator(before.state is Osc);
            let title = title_of(before.osc)->0;
            let opening = osc_intro() + before.osc.take(2);
            assert(before.osc =~= before.osc.take(2) + title);
            assert(before.osc.take(2) =~= seq![before.osc[0], 0x3b]);
            lemma_ends_with(plain, opening);
            lemma_ends_with(marked, opening);
            lemma_marked_extends(plain, marked, count, opening);
            let tail = title + terminator;
            assert(plain + more =~= (plain + opening) + tail);
            assert(marked + marked_more =~= (marked + opening) + lock_prefix() + tail);
            assert(lock_between(
                plain + more,
                marked + marked_more,
                plain + opening,
                marked + opening,
                tail,
            ));
        }
    }
}

proof fn lemma_ends_with(text: Seq<u8>, ending: Seq<u8>)
    ensures
        crate::text::ends_with(text + ending, ending),
{
    assert((text + ending).skip(text.len() as int) =~= ending);
}

proof fn lemma_marked_extends(plain: Seq<u8>, marked: Seq<u8>, count: nat, more: Seq<u8>)
    requires
        marked_with_locks(plain, marked, count),
    ensures
        marked_with_locks(plain + more, marked + more, count),
{
    if count > 0 {
        let (head, marked_head, tail) = choose|head: Seq<u8>, marked_head: Seq<u8>, tail: Seq<u8>|
            {
                &&& #[trigger] lock_between(plain, marked, head, marked_head, tail)
                &&& marked_with_locks(head, marked_head, (count - 1) as nat)
            };
        assert(plain + more =~= head + (tail + more));
        assert(marked + more =~= marked_head + lock_prefix() + (tail + more));
        assert(lock_between(plain + more, marked + more, head, marked_head, tail + more));
    }
}

/// One output byte: the title that is remembered changes only on a bell or a
/// backslash. Outside any sequence, every byte but an escape is passed on as it
/// is, and only an escape and the bytes that can start a longer character lead
/// into a sequence; nothing else changes there.
pub proof fn law_one_output_byte(s: FilterState, byte: u8, locked: bool)
    ensures
        ({
            let (after, out) = filter_next(s, byte, locked);
            &&& after.last_title != s.last_title ==> byte == BEL || byte == 0x5c
            &&& s.state == State::Ground ==> {
                &&& out == if byte == ESC {
                    Seq::empty()
                } else {
                    seq![byte]
                }
                &&& after.state != State::Ground <==> byte == ESC || 0xc0 <= byte <= 0xf7
                &&& after == (FilterState { state: after.state, ..s })
            }
        }),
{
}

/// A new filter has its invariant.
pub proof fn law_new_filter_invariant()
    ensures
        filter_invariant(fresh_filter()),
{
}

/// The filter keeps its invariant.
pub proof fn law_filter_invariant(s: FilterState, chunk: Seq<u8>, locked: bool)
    requires
        filter_invariant(s),
    ensures
        filter_invariant(filtered(s, chunk, locked).0),
    decreases chunk.len(),
{
    if chunk.len() > 0 {
        law_filter_invariant(s, chunk.drop_last(), locked);
    }
}

/// Outside any sequence nothing is held back, so bytes inserted there split no
/// sequence of the command.
pub proof fn law_ground_holds_nothing_back(s: FilterState)
    ensures
        s.state == State::Ground ==> held_back(s).len() == 0,
{
}

/// A title that the command sets with either of the two title commands is
/// remembered as it was written, and is shown with the lock in front of it
/// exactly while the session is locked.
#[verifier::spinoff_prover]
#[verifier::rlimit(40)]
pub proof fn law_title_is_shown_and_remembered(
    s: FilterState,
    command: u8,
    title: Seq<u8>,
    by_bell: bool,
    locked: bool,
)
    requires
        s.state == State::Ground,
        command == 0x30 || command == 0x32,
        title.len() + 2 <= MAX_OSC,
        forall|i: int| 0 <= i < title.len() ==> title[i] != BEL && title[i] != ESC,
    ensures
        ({
            let intro = osc_intro() + seq![command, 0x3b];
            let terminator = osc_terminator(by_bell);
            let (after, out) = filtered(s, intro + title + terminator, locked);
            &&& out == intro + (if locked {
                lock_prefix()
            } else {
                Seq::empty()
            }) + title + terminator
            &&& after == (FilterState {
                state: State::Ground,
                osc: Seq::empty(),
                last_title: Some(title),
            })
        }),
{
    let intro = osc_intro() + seq![command, 0x3b];
    let terminator = osc_terminator(by_bell);
    lemma_osc_opens(s, command, locked);
    lemma_osc_collects(s, intro, title, locked);
    let (inside, out) = filtered(s, intro + title, locked);
    assert(inside.osc =~= seq![command, 0x3b] + title);
    assert(inside.osc.skip(2) =~= title);
    assert(inside.osc.take(2) =~= seq![command, 0x3b]);
    law_chunks(s, intro + title, terminator, locked);
    lemma_osc_ends(inside, by_bell, locked);
    assert(filtered(s, intro + title + terminator, locked).1 =~= intro + (if locked {
        lock_prefix()
    } else {
        Seq::empty()
    }) + title + terminator);
}

proof fn lemma_osc_ends(s: FilterState, by_bell: bool, locked: bool)
    requires
        s.state == State::Osc,
    ensures
        ({
            let terminator = osc_terminator(by_bell);
            filtered(s, terminator, locked) == osc_finished(s, terminator, locked)
        }),
{
    let none = Seq::<u8>::empty();
    assert(filtered(s, none, locked) == (s, none));
    if by_bell {
        let terminator = seq![BEL];
        assert(terminator.drop_last() =~= none);
        assert(filtered(s, terminator, locked).1 =~= osc_finished(s, terminator, locked).1);
    } else {
        let terminator = seq![ESC, 0x5cu8];
        let escape = seq![ESC];
        assert(escape.drop_last() =~= none);
        assert(terminator.drop_last() =~= escape);
        let (between, out) = filtered(s, escape, locked);
        assert(between == (FilterState { state: State::OscEsc, ..s }));
        assert(out =~= none);
        assert(filtered(s, terminator, locked).1 =~= osc_finished(s, terminator, locked).1);
    }
}

proof fn lemma_osc_opens(s: FilterState, command: u8, locked: bool)
    requires
        s.state == State::Ground,
        command == 0x30 || command == 0x32,
    ensures
        filtered(s, osc_intro() + seq![command, 0x3b], locked) == (
            FilterState { state: State::Osc, osc: seq![command, 0x3b], ..s },
            Seq::<u8>::empty(),
        ),
{
    let intro = osc_intro() + seq![command, 0x3b];
    let three = intro.drop_last();
    let two = three.drop_last();
    let one = two.drop_last();
    let none = one.drop_last();
    assert(none =~= Seq::empty());
    assert(filtered(s, none, locked) == (s, Seq::<u8>::empty()));
    assert(filtered(s, one, locked).0.state == State::Esc);
    assert(filtered(s, two, locked).0.osc =~= Seq::empty());
    assert(filtered(s, three, locked).0.osc =~= seq![command]);
    assert(filtered(s, intro, locked).0.osc =~= seq![command, 0x3b]);
    assert(filtered(s, intro, locked).1 =~= Seq::empty());
}

proof fn lemma_osc_collects(s: FilterState, intro: Seq<u8>, body: Seq<u8>, locked: bool)
    requires
        filtered(s, intro, locked).0.state == State::Osc,
        filtered(s, intro, locked).1.len() == 0,
        filtered(s, intro, locked).0.osc.len() + body.len() <= MAX_OSC,
        forall|i: int| 0 <= i < body.len() ==> body[i] != BEL && body[i] != ESC,
    ensures
        ({
            let opened = filtered(s, intro, locked).0;
            filtered(s, intro + body, locked) == (
                FilterState { osc: opened.osc + body, ..opened },
                Seq::<u8>::empty(),
            )
        }),
    decreases body.len(),
{
    let opened = filtered(s, intro, locked).0;
    if body.len() == 0 {
        assert(intro + body =~= intro);
        assert(opened.osc + body =~= opened.osc);
        assert(filtered(s, intro, locked).1 =~= Seq::empty());
    } else {
        lemma_osc_collects(s, intro, body.drop_last(), locked);
        assert((intro + body).drop_last() =~= intro + body.drop_last());
        assert((opened.osc + body.drop_last()).push(body.last()) =~= opened.osc + body);
    }
}

} // verus!
