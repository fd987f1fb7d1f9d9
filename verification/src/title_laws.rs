//! What the output filter does with each thing that a command can write,
//! stated by the bytes that stand for it.

use crate::text::{BEL, ESC};
use crate::title::{FilterState, State, MAX_OSC};
use vstd::prelude::*;

verus! {

/// A byte that can stand in the middle of a UTF-8 character.
pub open spec fn continuation(byte: u8) -> bool {
    0x80 <= byte <= 0xbf
}

/// How long the UTF-8 character is that starts with `byte`; 1 for a byte that
/// starts no longer one.
pub open spec fn character_len(byte: u8) -> int {
    if 0xc0 <= byte <= 0xdf {
        2
    } else if 0xe0 <= byte <= 0xef {
        3
    } else if 0xf0 <= byte <= 0xf7 {
        4
    } else {
        1
    }
}

/// A character in one to four bytes, or a byte that belongs to none.
pub open spec fn whole_character(bytes: Seq<u8>) -> bool {
    &&& bytes.len() > 0
    &&& bytes[0] != ESC
    &&& bytes.len() == character_len(bytes[0])
    &&& forall|i: int| 1 <= i < bytes.len() ==> continuation(#[trigger] bytes[i])
}

/// A control sequence: `ESC [`, and then it goes on to the first byte from `@`
/// to `~`.
pub open spec fn whole_control_sequence(bytes: Seq<u8>) -> bool {
    &&& bytes.len() >= 3
    &&& bytes[0] == ESC
    &&& bytes[1] == 0x5b
    &&& 0x40 <= bytes.last() <= 0x7e
    &&& forall|i: int| 2 <= i < bytes.len() - 1 ==> !(0x40 <= #[trigger] bytes[i] <= 0x7e)
}

/// A DCS, APC, PM or SOS string: it goes on to the first string terminator.
pub open spec fn whole_string(bytes: Seq<u8>) -> bool {
    &&& bytes.len() >= 4
    &&& bytes[0] == ESC
    &&& bytes[1] == 0x50 || bytes[1] == 0x5f || bytes[1] == 0x5e || bytes[1] == 0x58
    &&& bytes[bytes.len() - 2] == ESC
    &&& bytes.last() == 0x5c
    &&& forall|i: int|
        3 <= i < bytes.len() - 1 ==> !(#[trigger] bytes[i] == 0x5c && bytes[i - 1] == ESC)
}

/// An escape and one byte that opens nothing longer.
pub open spec fn whole_pair(bytes: Seq<u8>) -> bool {
    &&& bytes.len() == 2
    &&& bytes[0] == ESC
    &&& bytes[1] != ESC
    &&& bytes[1] != 0x5b && bytes[1] != 0x5d
    &&& bytes[1] != 0x50 && bytes[1] != 0x5f && bytes[1] != 0x5e && bytes[1] != 0x58
}

/// The body of an operating-system command.
pub open spec fn osc_body(body: Seq<u8>) -> bool {
    &&& body.len() <= MAX_OSC
    &&& forall|i: int| 0 <= i < body.len() ==> #[trigger] body[i] != BEL && body[i] != ESC
}

/// The body sets a title: it starts with `0;` or `2;`.
pub open spec fn sets_title(body: Seq<u8>) -> bool {
    body.len() >= 2 && (body[0] == 0x30 || body[0] == 0x32) && body[1] == 0x3b
}

/// An operating-system command with the given body, ended by a bell or by the
/// string terminator.
pub open spec fn whole_osc(body: Seq<u8>, by_bell: bool) -> Seq<u8> {
    seq![ESC, 0x5d] + body + (if by_bell {
        seq![BEL]
    } else {
        seq![ESC, 0x5c]
    })
}

/// Inside `bytes` the filter is in a sequence, locked or not.
pub open spec fn inside_throughout(s: FilterState, bytes: Seq<u8>, locked: bool) -> bool {
    forall|n: int|
        0 < n < bytes.len() ==> crate::title::filtered(
            s,
            #[trigger] bytes.take(n),
            locked,
        ).0.state != State::Ground
}

/// A new filter is outside any sequence and remembers no title.
pub proof fn law_new_filter()
    ensures
        crate::title::fresh_filter().state == State::Ground,
        crate::title::fresh_filter().osc.len() == 0,
        crate::title::fresh_filter().last_title is None,
{
}

/// Outside any sequence, a character, a control sequence, a string or a pair
/// comes out as it was written and leaves the filter as it was; in the middle
/// of it the filter is in a sequence. So what follows is treated as it is after
/// plain text.
pub proof fn law_whole_sequence_passes(s: FilterState, bytes: Seq<u8>, locked: bool)
    requires
        s.state == State::Ground,
        whole_character(bytes) || whole_control_sequence(bytes) || whole_string(bytes)
            || whole_pair(bytes),
    ensures
        crate::title::filtered(s, bytes, locked) == (s, bytes),
        inside_throughout(s, bytes, locked),
{
    if whole_character(bytes) {
        lemma_character(s, bytes, locked, bytes.len() as int);
        assert(bytes.take(bytes.len() as int) =~= bytes);
        assert forall|n: int| 0 < n < bytes.len() implies crate::title::filtered(
            s,
            #[trigger] bytes.take(n),
            locked,
        ).0.state != State::Ground by {
            lemma_character(s, bytes, locked, n);
        }
    } else if whole_control_sequence(bytes) {
        lemma_control_sequence(s, bytes, locked, bytes.len() - 1);
        lemma_last_byte(s, bytes, locked);
        assert forall|n: int| 0 < n < bytes.len() implies crate::title::filtered(
            s,
            #[trigger] bytes.take(n),
            locked,
        ).0.state != State::Ground by {
            lemma_control_sequence(s, bytes, locked, n);
        }
    } else if whole_string(bytes) {
        lemma_string(s, bytes, locked, bytes.len() - 1);
        lemma_last_byte(s, bytes, locked);
        assert forall|n: int| 0 < n < bytes.len() implies crate::title::filtered(
            s,
            #[trigger] bytes.take(n),
            locked,
        ).0.state != State::Ground by {
            lemma_string(s, bytes, locked, n);
        }
    } else {
        lemma_escape(s, bytes, locked);
        lemma_last_byte(s, bytes, locked);
    }
    let (after, out) = crate::title::filtered(s, bytes, locked);
    assert(after =~= s);
    assert(out =~= bytes);
}

proof fn lemma_last_byte(s: FilterState, bytes: Seq<u8>, locked: bool)
    requires
        bytes.len() > 0,
    ensures
        crate::title::filtered(s, bytes, locked) == ({
            let (before, out) = crate::title::filtered(s, bytes.take(bytes.len() - 1), locked);
            let (after, more) = crate::title::filter_next(before, bytes.last(), locked);
            (after, out + more)
        }),
{
    assert(bytes.drop_last() =~= bytes.take(bytes.len() - 1));
}

proof fn lemma_prefix(s: FilterState, bytes: Seq<u8>, locked: bool, n: int)
    requires
        0 < n <= bytes.len(),
    ensures
        crate::title::filtered(s, bytes.take(n), locked) == ({
            let (before, out) = crate::title::filtered(s, bytes.take(n - 1), locked);
            let (after, more) = crate::title::filter_next(before, bytes[n - 1], locked);
            (after, out + more)
        }),
{
    assert(bytes.take(n).drop_last() =~= bytes.take(n - 1));
    assert(bytes.take(n).last() == bytes[n - 1]);
}

proof fn lemma_escape(s: FilterState, bytes: Seq<u8>, locked: bool)
    requires
        s.state == State::Ground,
        bytes.len() >= 1,
        bytes[0] == ESC,
    ensures
        crate::title::filtered(s, bytes.take(1), locked) == (
            FilterState { state: State::Esc, ..s },
            Seq::<u8>::empty(),
        ),
{
    lemma_prefix(s, bytes, locked, 1);
    assert(bytes.take(0) =~= Seq::empty());
    assert(crate::title::filtered(s, Seq::empty(), locked) == (s, Seq::<u8>::empty()));
    assert(Seq::<u8>::empty() + Seq::<u8>::empty() =~= Seq::<u8>::empty());
}

proof fn lemma_character(s: FilterState, bytes: Seq<u8>, locked: bool, n: int)
    requires
        s.state == State::Ground,
        whole_character(bytes),
        0 < n <= bytes.len(),
    ensures
        crate::title::filtered(s, bytes.take(n), locked) == (
            FilterState {
                state: if n == bytes.len() {
                    State::Ground
                } else {
                    State::Utf8((bytes.len() - n) as u8)
                },
                ..s
            },
            bytes.take(n),
        ),
    decreases n,
{
    lemma_prefix(s, bytes, locked, n);
    if n == 1 {
        assert(bytes.take(0) =~= Seq::empty());
        assert(crate::title::filtered(s, Seq::empty(), locked) == (s, Seq::<u8>::empty()));
    } else {
        lemma_character(s, bytes, locked, n - 1);
        assert(continuation(bytes[n - 1]));
    }
    assert(bytes.take(n - 1) + seq![bytes[n - 1]] =~= bytes.take(n));
}

proof fn lemma_control_sequence(s: FilterState, bytes: Seq<u8>, locked: bool, n: int)
    requires
        s.state == State::Ground,
        whole_control_sequence(bytes),
        0 < n < bytes.len(),
    ensures
        crate::title::filtered(s, bytes.take(n), locked) == (
            FilterState {
                state: if n == 1 {
                    State::Esc
                } else {
                    State::Csi
                },
                ..s
            },
            if n == 1 {
                Seq::empty()
            } else {
                bytes.take(n)
            },
        ),
    decreases n,
{
    if n == 1 {
        lemma_escape(s, bytes, locked);
    } else {
        lemma_control_sequence(s, bytes, locked, n - 1);
        lemma_prefix(s, bytes, locked, n);
        if n == 2 {
            assert(Seq::<u8>::empty() + seq![ESC, 0x5b] =~= bytes.take(2));
        } else {
            assert(bytes.take(n - 1) + seq![bytes[n - 1]] =~= bytes.take(n));
        }
    }
}

proof fn lemma_string(s: FilterState, bytes: Seq<u8>, locked: bool, n: int)
    requires
        s.state == State::Ground,
        whole_string(bytes),
        0 < n < bytes.len(),
    ensures
        crate::title::filtered(s, bytes.take(n), locked) == (
            FilterState {
                state: if n == 1 {
                    State::Esc
                } else if n > 2 && bytes[n - 1] == ESC {
                    State::StrEsc
                } else {
                    State::Str
                },
                ..s
            },
            if n == 1 {
                Seq::empty()
            } else {
                bytes.take(n)
            },
        ),
    decreases n,
{
    if n == 1 {
        lemma_escape(s, bytes, locked);
    } else {
        lemma_string(s, bytes, locked, n - 1);
        lemma_prefix(s, bytes, locked, n);
        if n == 2 {
            assert(Seq::<u8>::empty() + seq![ESC, bytes[1]] =~= bytes.take(2));
        } else {
            assert(bytes.take(n - 1) + seq![bytes[n - 1]] =~= bytes.take(n));
        }
    }
}

/// Outside any sequence, an operating-system command is held back until it is
/// whole. One that sets a title comes out with the lock in front of the title
/// exactly while the session is locked, and the title is remembered as it was
/// written; any other comes out as it was written and nothing is remembered.
pub proof fn law_operating_system_command(
    s: FilterState,
    body: Seq<u8>,
    by_bell: bool,
    locked: bool,
)
    requires
        s.state == State::Ground,
        osc_body(body),
    ensures
        ({
            let written = whole_osc(body, by_bell);
            let (after, out) = crate::title::filtered(s, written, locked);
            &&& after.state == State::Ground
            &&& after.osc.len() == 0
            &&& after.last_title == if sets_title(body) {
                Some(body.skip(2))
            } else {
                s.last_title
            }
            &&& out == if sets_title(body) && locked {
                written.take(4) + crate::title::lock_prefix() + written.skip(4)
            } else {
                written
            }
            &&& inside_throughout(s, written, locked)
        }),
{
    let written = whole_osc(body, by_bell);
    let len = written.len() as int;
    let (after, out) = crate::title::filtered(s, written, locked);
    lemma_osc_is_held(s, body, by_bell, locked, len - 1);
    lemma_last_byte(s, written, locked);
    assert(body.take(body.len() as int) =~= body);
    if sets_title(body) && locked {
        assert(out =~= written.take(4) + crate::title::lock_prefix() + written.skip(4));
    } else {
        assert(out =~= written);
    }
    assert forall|n: int| 0 < n < len implies crate::title::filtered(
        s,
        #[trigger] written.take(n),
        locked,
    ).0.state != State::Ground by {
        lemma_osc_is_held(s, body, by_bell, locked, n);
    }
}

proof fn lemma_osc_is_held(s: FilterState, body: Seq<u8>, by_bell: bool, locked: bool, n: int)
    requires
        s.state == State::Ground,
        osc_body(body),
        0 < n < whole_osc(body, by_bell).len(),
    ensures
        ({
            let (after, out) = crate::title::filtered(
                s,
                whole_osc(body, by_bell).take(n),
                locked,
            );
            &&& out.len() == 0
            &&& after.last_title == s.last_title
            &&& n == 1 ==> after.state == State::Esc && after.osc == s.osc
            &&& 2 <= n <= body.len() + 2 ==> after.state == State::Osc && after.osc == body.take(
                n - 2,
            )
            &&& n == body.len() + 3 ==> after.state == State::OscEsc && after.osc == body
        }),
    decreases n,
{
    let written = whole_osc(body, by_bell);
    if n == 1 {
        lemma_escape(s, written, locked);
    } else {
        lemma_osc_is_held(s, body, by_bell, locked, n - 1);
        lemma_prefix(s, written, locked, n);
        if n == 2 {
            assert(body.take(0) =~= Seq::empty());
        } else if n <= body.len() + 2 {
            assert(written[n - 1] == body[n - 3]);
            assert(body.take(n - 3).push(body[n - 3]) =~= body.take(n - 2));
        } else {
            assert(body.take(body.len() as int) =~= body);
        }
    }
}

/// An operating-system command broken off by another escape comes out as it
/// was written and nothing is remembered of it; what follows is treated as it
/// would be without it.
pub proof fn law_broken_command_passes(s: FilterState, body: Seq<u8>, next: u8, locked: bool)
    requires
        s.state == State::Ground,
        s.osc.len() == 0,
        osc_body(body),
        next != 0x5c,
    ensures
        ({
            let (after, out) = crate::title::filtered(s, seq![ESC, next], locked);
            crate::title::filtered(s, seq![ESC, 0x5d] + body + seq![ESC, next], locked) == (
                after,
                seq![ESC, 0x5d] + body + out,
            )
        }),
{
    let opened = seq![ESC, 0x5d] + body + seq![ESC];
    let written = seq![ESC, 0x5d] + body + seq![ESC, next];
    let whole = whole_osc(body, false);
    assert(whole.take(whole.len() - 1) =~= opened);
    lemma_osc_is_held(s, body, false, locked, whole.len() - 1);
    assert(written.take(written.len() - 1) =~= opened);
    lemma_last_byte(s, written, locked);
    let pair = seq![ESC, next];
    lemma_escape(s, pair, locked);
    lemma_last_byte(s, pair, locked);
    let (after, out) = crate::title::filtered(s, pair, locked);
    let (after_whole, out_whole) = crate::title::filtered(s, written, locked);
    assert(after_whole =~= after) by {
        assert(s.osc =~= Seq::empty());
    }
    assert(out_whole =~= seq![ESC, 0x5d] + body + out);
}

/// An operating-system command that grows past the limit comes out as it was
/// written and nothing is remembered of it; the byte past the limit and what
/// follows are treated as they would be without it.
pub proof fn law_endless_command_passes(s: FilterState, body: Seq<u8>, next: u8, locked: bool)
    requires
        s.state == State::Ground,
        s.osc.len() == 0,
        osc_body(body),
        body.len() == MAX_OSC,
        next != BEL && next != ESC,
    ensures
        ({
            let (after, out) = crate::title::filtered(s, seq![next], locked);
            crate::title::filtered(s, seq![ESC, 0x5d] + body + seq![next], locked) == (
                after,
                seq![ESC, 0x5d] + body + out,
            )
        }),
{
    let opened = seq![ESC, 0x5d] + body;
    let written = opened + seq![next];
    let whole = whole_osc(body, true);
    assert(whole.take(whole.len() - 1) =~= opened);
    lemma_osc_is_held(s, body, true, locked, whole.len() - 1);
    assert(body.take(body.len() as int) =~= body);
    assert(written.take(written.len() - 1) =~= opened);
    lemma_last_byte(s, written, locked);
    let single = seq![next];
    lemma_last_byte(s, single, locked);
    assert(single.take(0) =~= Seq::empty());
    let (after, out) = crate::title::filtered(s, single, locked);
    let (after_whole, out_whole) = crate::title::filtered(s, written, locked);
    assert(after_whole =~= after) by {
        assert(s.osc =~= Seq::empty());
    }
    assert(out_whole =~= opened + out);
}

/// A character that breaks off comes out as it was written, and the byte that
/// breaks it off is treated as it would be without it.
pub proof fn law_broken_character_passes(
    s: FilterState,
    bytes: Seq<u8>,
    n: int,
    next: u8,
    locked: bool,
)
    requires
        s.state == State::Ground,
        whole_character(bytes),
        0 < n < bytes.len(),
        !continuation(next),
    ensures
        ({
            let (after, out) = crate::title::filtered(s, seq![next], locked);
            crate::title::filtered(s, bytes.take(n) + seq![next], locked) == (
                after,
                bytes.take(n) + out,
            )
        }),
{
    let written = bytes.take(n) + seq![next];
    lemma_character(s, bytes, locked, n);
    assert(written.take(written.len() - 1) =~= bytes.take(n));
    lemma_last_byte(s, written, locked);
    let single = seq![next];
    lemma_last_byte(s, single, locked);
    assert(single.take(0) =~= Seq::empty());
    let (after, out) = crate::title::filtered(s, single, locked);
    let (after_whole, out_whole) = crate::title::filtered(s, written, locked);
    assert(after_whole =~= after);
    assert(out_whole =~= bytes.take(n) + out);
}

/// Of two escapes the first comes out at once, and the second is treated as it
/// would be without it.
pub proof fn law_escape_before_an_escape_passes(s: FilterState, rest: Seq<u8>, locked: bool)
    requires
        s.state == State::Ground,
    ensures
        ({
            let (after, out) = crate::title::filtered(s, seq![ESC] + rest, locked);
            crate::title::filtered(s, seq![ESC, ESC] + rest, locked) == (after, seq![ESC] + out)
        }),
{
    let one = seq![ESC];
    let two = seq![ESC, ESC];
    assert(one.take(1) =~= one);
    lemma_escape(s, one, locked);
    lemma_escape(s, two, locked);
    lemma_last_byte(s, two, locked);
    let none = Seq::<u8>::empty();
    assert(crate::title::filtered(s, two, locked).1 =~= one);
    assert(crate::title::filtered(s, two, locked).0 =~= crate::title::filtered(s, one, locked).0);
    crate::title::law_chunks(s, one, rest, locked);
    crate::title::law_chunks(s, two, rest, locked);
    let more = crate::title::filtered(
        crate::title::filtered(s, one, locked).0,
        rest,
        locked,
    ).1;
    assert(one + (none + more) =~= one + more);
}

} // verus!
