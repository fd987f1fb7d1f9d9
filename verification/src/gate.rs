//! Input gate: decides which bytes from the user's terminal reach the command.
//!
//! Input is tokenized into single bytes and complete escape sequences, so a
//! sequence split across reads is handled exactly like one read in one go.

use crate::text::{push_all, same_bytes, ESC};
use vstd::prelude::*;
use vstd::slice::slice_to_vec;

verus! {

/// Ctrl+], the key that starts the lock hotkey.
pub const CTRL_BRACKET: u8 = 0x1d;

/// The key that completes the lock hotkey.
pub const LOCK_KEY: u8 = 0x6c;

/// Ctrl+] as terminals with the kitty keyboard protocol send it.
pub const KITTY_CTRL_BRACKET: [u8; 7] = [0x1b, 0x5b, 0x39, 0x33, 0x3b, 0x35, 0x75];

/// The letter `l` as terminals with the kitty keyboard protocol send it.
pub const KITTY_L: [u8; 6] = [0x1b, 0x5b, 0x31, 0x30, 0x38, 0x75];

/// What a terminal sends before pasted text.
pub const PASTE_START: [u8; 6] = [0x1b, 0x5b, 0x32, 0x30, 0x30, 0x7e];

/// What a terminal sends after pasted text.
pub const PASTE_END: [u8; 6] = [0x1b, 0x5b, 0x32, 0x30, 0x31, 0x7e];

/// The longest line that is compared with the phrase.
pub const PHRASE_CAP: usize = 256;

/// The length at which an escape sequence is taken as it is.
pub const MAX_SEQUENCE: usize = 4096;

/// What a `Gate` reports besides the bytes that it forwards.
#[derive(Debug, Clone, Copy, PartialEq, Eq, Structural)]
pub enum Event {
    Lock,
    Unlock,
    DroppedInput,
}

/// What one call of a `Gate` gives.
#[derive(Debug, PartialEq, Eq)]
pub struct Output {
    pub forward: Vec<u8>,
    pub events: Vec<Event>,
}

/// The mathematical content of an [`Output`].
#[verifier::ext_equal]
pub struct Effect {
    pub forward: Seq<u8>,
    pub events: Seq<Event>,
}

/// The output that forwards and reports nothing.
pub open spec fn no_effect() -> Effect {
    Effect { forward: Seq::empty(), events: Seq::empty() }
}

impl View for Output {
    type V = Effect;

    open spec fn view(&self) -> Effect {
        Effect { forward: self.forward@, events: self.events@ }
    }
}

impl Default for Output {
    fn default() -> (out: Self)
        ensures
            out@ == no_effect(),
    {
        Output { forward: Vec::new(), events: Vec::new() }
    }
}

/// What a `Gate` does about one token: a single byte or a whole escape
/// sequence.
#[verifier::ext_equal]
pub struct Reaction {
    pub forward: Seq<u8>,
    /// The token was dropped because input is locked.
    pub dropped: bool,
    pub change: Option<Event>,
}

impl Effect {
    /// This effect followed by a reaction. Dropped input is reported once.
    pub open spec fn followed_by(self, reaction: Reaction) -> Effect {
        let reported = if reaction.dropped && !self.events.contains(Event::DroppedInput) {
            self.events.push(Event::DroppedInput)
        } else {
            self.events
        };
        Effect {
            forward: self.forward + reaction.forward,
            events: match reaction.change {
                Some(event) => reported.push(event),
                None => reported,
            },
        }
    }
}

/// The mathematical content of a [`Gate`].
#[verifier::ext_equal]
pub struct GateState {
    pub locked: bool,
    pub hotkey: bool,
    /// The phrase that unlocks; `None` when no phrase does.
    pub phrase: Option<Seq<u8>>,
    /// The start of an escape sequence that is not complete yet.
    pub partial: Seq<u8>,
    /// A Ctrl+] that waits for the next key.
    pub prefix: Option<Seq<u8>>,
    /// The line typed so far while locked.
    pub typed: Seq<u8>,
    /// The line has grown past [`PHRASE_CAP`].
    pub overflow: bool,
    pub in_paste: bool,
}

/// A gate before any input.
pub open spec fn new_gate(locked: bool, hotkey: bool, phrase: Option<Seq<u8>>) -> GateState {
    GateState {
        locked,
        hotkey,
        phrase,
        partial: Seq::empty(),
        prefix: None,
        typed: Seq::empty(),
        overflow: false,
        in_paste: false,
    }
}

/// Printable ASCII, which is all that a phrase can hold.
pub open spec fn printable(byte: u8) -> bool {
    0x20 <= byte <= 0x7e
}

/// Carriage return or line feed.
pub open spec fn is_enter(byte: u8) -> bool {
    byte == 0x0d || byte == 0x0a
}

/// The token is the given key, in plain or in kitty encoding.
pub open spec fn is_key(token: Seq<u8>, byte: u8, kitty: Seq<u8>) -> bool {
    token == seq![byte] || token == kitty
}

/// The token is Ctrl+].
pub open spec fn is_ctrl_bracket(token: Seq<u8>) -> bool {
    is_key(token, CTRL_BRACKET, KITTY_CTRL_BRACKET@)
}

/// The token is the letter `l`.
pub open spec fn is_lock_key(token: Seq<u8>) -> bool {
    is_key(token, LOCK_KEY, KITTY_L@)
}

/// Whether a paste begins or ends with this token.
pub open spec fn paste_marker(token: Seq<u8>) -> Option<bool> {
    if token == PASTE_START@ {
        Some(true)
    } else if token == PASTE_END@ {
        Some(false)
    } else {
        None
    }
}

/// `seq` starts with an escape and has at least two bytes: whether it is a
/// complete sequence.
pub open spec fn sequence_ends(seq: Seq<u8>) -> bool {
    let last = seq.last();
    if seq.len() >= MAX_SEQUENCE {
        true
    } else if seq[1] == 0x5b {
        if seq.len() == 2 {
            false
        } else if seq[2] == 0x4d {
            // X10 mouse report: three raw bytes follow.
            seq.len() == 6
        } else {
            0x40 <= last <= 0x7e
        }
    } else if seq[1] == 0x4f {
        seq.len() == 3
    } else if seq[1] == 0x5d || seq[1] == 0x50 || seq[1] == 0x5f || seq[1] == 0x5e {
        ||| seq[1] == 0x5d && last == 0x07
        ||| seq.len() >= 4 && seq[seq.len() - 2] == ESC && last == 0x5c
    } else {
        true
    }
}

/// The token that `byte` completes after `partial`, if it completes one.
pub open spec fn token_ended_by(partial: Seq<u8>, byte: u8) -> Option<Seq<u8>> {
    if partial.len() == 0 {
        if byte == ESC {
            None
        } else {
            Some(seq![byte])
        }
    } else if sequence_ends(partial.push(byte)) {
        Some(partial.push(byte))
    } else {
        None
    }
}

/// What holds of a gate at all times. An incomplete escape sequence starts
/// with an escape and stays short, a line is collected only while locked and
/// by a gate with a phrase, and a Ctrl+] waits only while unlocked.
pub open spec fn gate_invariant(s: GateState) -> bool {
    &&& s.partial.len() < MAX_SEQUENCE
    &&& s.partial.len() > 0 ==> s.partial[0] == ESC
    &&& s.partial.len() >= 2 ==> !sequence_ends(s.partial)
    &&& s.typed.len() <= PHRASE_CAP
    &&& s.overflow ==> s.typed.len() == PHRASE_CAP
    &&& forall|i: int| 0 <= i < s.typed.len() ==> printable(#[trigger] s.typed[i])
    &&& (!s.locked || s.phrase is None) ==> s.typed.len() == 0
    &&& s.prefix matches Some(token) ==> !s.locked && s.hotkey && is_ctrl_bracket(token)
}

impl GateState {
    /// This gate with the typed line forgotten.
    pub open spec fn line_cleared(self) -> GateState {
        GateState { typed: Seq::empty(), overflow: false, ..self }
    }

    /// This gate after [`Gate::set_locked`].
    pub open spec fn with_lock(self, locked: bool) -> GateState {
        if self.locked == locked {
            self
        } else {
            GateState { locked, partial: Seq::empty(), prefix: None, ..self.line_cleared() }
        }
    }

    /// One token while unlocked.
    pub open spec fn unlocked_next(self, token: Seq<u8>, pasting: bool) -> (GateState, Reaction) {
        let quiet = Reaction { forward: Seq::empty(), dropped: false, change: None };
        match self.prefix {
            Some(prefix) => {
                let released = GateState { prefix: None, ..self };
                if is_ctrl_bracket(token) {
                    (released, Reaction { forward: prefix, ..quiet })
                } else if is_lock_key(token) {
                    (
                        GateState { locked: true, ..released.line_cleared() },
                        Reaction { change: Some(Event::Lock), ..quiet },
                    )
                } else {
                    (released, Reaction { forward: prefix + token, ..quiet })
                }
            },
            None => if self.hotkey && !pasting && is_ctrl_bracket(token) {
                (GateState { prefix: Some(token), ..self }, quiet)
            } else {
                (self, Reaction { forward: token, ..quiet })
            },
        }
    }

    /// One token while locked: it is dropped, and collected if it can belong
    /// to the phrase.
    pub open spec fn locked_next(self, token: Seq<u8>, pasting: bool) -> (GateState, Reaction) {
        let drop = Reaction { forward: Seq::empty(), dropped: true, change: None };
        if self.phrase is None {
            (self, drop)
        } else if pasting || token.len() != 1 {
            (self.line_cleared(), drop)
        } else if is_enter(token[0]) {
            if !self.overflow && self.phrase == Some(self.typed) {
                (
                    GateState { locked: false, ..self.line_cleared() },
                    Reaction { change: Some(Event::Unlock), ..drop },
                )
            } else {
                (self.line_cleared(), drop)
            }
        } else if printable(token[0]) {
            if self.typed.len() < PHRASE_CAP {
                (GateState { typed: self.typed.push(token[0]), ..self }, drop)
            } else {
                (GateState { overflow: true, ..self }, drop)
            }
        } else {
            (self.line_cleared(), drop)
        }
    }

    /// One token.
    pub open spec fn token_next(self, token: Seq<u8>) -> (GateState, Reaction) {
        let marker = paste_marker(token);
        let pasting = self.in_paste || marker is Some;
        let marked = match marker {
            Some(in_paste) => GateState { in_paste, ..self },
            None => self,
        };
        if self.locked {
            marked.locked_next(token, pasting)
        } else {
            marked.unlocked_next(token, pasting)
        }
    }

    /// The token that `byte` completes, if it completes one.
    pub open spec fn completed_token(self, byte: u8) -> Option<Seq<u8>> {
        token_ended_by(self.partial, byte)
    }

    /// This gate once `byte` has been tokenized.
    pub open spec fn tokenized(self, byte: u8) -> GateState {
        match self.completed_token(byte) {
            Some(_) => GateState { partial: Seq::empty(), ..self },
            None => GateState { partial: self.partial.push(byte), ..self },
        }
    }

    /// This gate and the output so far after one more input byte.
    pub open spec fn byte_next(self, so_far: Effect, byte: u8) -> (GateState, Effect) {
        match self.completed_token(byte) {
            Some(token) => {
                let (after, reaction) = self.tokenized(byte).token_next(token);
                (after, so_far.followed_by(reaction))
            },
            None => (self.tokenized(byte), so_far),
        }
    }

    /// This gate and the output so far after a run of input bytes.
    pub open spec fn bytes_next(self, so_far: Effect, input: Seq<u8>) -> (GateState, Effect)
        decreases input.len(),
    {
        if input.len() == 0 {
            (self, so_far)
        } else {
            let (before, effect) = self.bytes_next(so_far, input.drop_last());
            before.byte_next(effect, input.last())
        }
    }

    /// This gate after [`Gate::feed`], and its output.
    pub open spec fn fed(self, input: Seq<u8>) -> (GateState, Effect) {
        self.bytes_next(no_effect(), input)
    }

    /// This gate after [`Gate::flush`], and its output.
    pub open spec fn flushed(self) -> (GateState, Effect) {
        if self.partial.len() == 0 {
            (self, no_effect())
        } else {
            let (after, reaction) = GateState { partial: Seq::empty(), ..self }.token_next(
                self.partial,
            );
            (after, no_effect().followed_by(reaction))
        }
    }
}

/// A single byte or a complete escape sequence.
#[derive(Debug)]
struct Token {
    bytes: Vec<u8>,
}

impl Token {
    fn bytes(&self) -> (bytes: &[u8])
        ensures
            bytes@ == self.bytes@,
    {
        self.bytes.as_slice()
    }

    fn is(&self, byte: u8, kitty: &[u8]) -> (same: bool)
        ensures
            same == is_key(self.bytes@, byte, kitty@),
    {
        let plain: [u8; 1] = [byte];
        assert(plain@ =~= seq![byte]);
        same_bytes(self.bytes(), &plain) || same_bytes(self.bytes(), kitty)
    }
}

/// Stands between the user's terminal and the command.
pub struct Gate {
    locked: bool,
    hotkey: bool,
    phrase: Option<Vec<u8>>,
    partial: Vec<u8>,
    prefix: Option<Token>,
    typed: Vec<u8>,
    overflow: bool,
    in_paste: bool,
}

impl View for Gate {
    type V = GateState;

    closed spec fn view(&self) -> GateState {
        GateState {
            locked: self.locked,
            hotkey: self.hotkey,
            phrase: match self.phrase {
                Some(phrase) => Some(phrase@),
                None => None,
            },
            partial: self.partial@,
            prefix: match self.prefix {
                Some(prefix) => Some(prefix.bytes@),
                None => None,
            },
            typed: self.typed@,
            overflow: self.overflow,
            in_paste: self.in_paste,
        }
    }
}

impl Gate {
    /// A gate before any input. Without a phrase, typing cannot unlock it.
    pub fn new(locked: bool, hotkey: bool, phrase: Option<String>) -> (gate: Gate)
        ensures
            gate@ == new_gate(
                locked,
                hotkey,
                match phrase {
                    Some(text) => Some(vstd::utf8::encode_utf8(text@)),
                    None => None,
                },
            ),
            gate_invariant(gate@),
    {
        Gate {
            locked,
            hotkey,
            phrase: match phrase {
                Some(text) => Some(slice_to_vec(text.as_str().as_bytes())),
                None => None,
            },
            partial: Vec::new(),
            prefix: None,
            typed: Vec::new(),
            overflow: false,
            in_paste: false,
        }
    }

    pub fn is_locked(&self) -> (locked: bool)
        ensures
            locked == self@.locked,
    {
        self.locked
    }

    /// Whether an escape sequence has begun and is not complete.
    pub fn has_partial(&self) -> (partial: bool)
        ensures
            partial == (self@.partial.len() > 0),
    {
        self.partial.len() > 0
    }

    /// Locks or unlocks, and says whether that changed anything.
    pub fn set_locked(&mut self, locked: bool) -> (changed: bool)
        ensures
            changed == (old(self)@.locked != locked),
            final(self)@ == old(self)@.with_lock(locked),
            gate_invariant(old(self)@) ==> gate_invariant(final(self)@),
    {
        if self.locked == locked {
            return false;
        }
        self.locked = locked;
        // A half-read escape belongs to the old state; flushing it later would
        // leak a key typed while locked.
        self.partial.clear();
        self.prefix = None;
        self.clear_typed();
        true
    }

    /// Takes input from the user's terminal.
    pub fn feed(&mut self, input: &[u8]) -> (out: Output)
        ensures
            (final(self)@, out@) == old(self)@.fed(input@),
            gate_invariant(old(self)@) ==> gate_invariant(final(self)@),
    {
        let mut out: Output = Output::default();
        let mut i: usize = 0;
        assert(input@.take(0) =~= Seq::empty());
        while i < input.len()
            invariant
                i <= input@.len(),
                (self@, out@) == old(self)@.fed(input@.take(i as int)),
            decreases input@.len() - i,
        {
            match self.tokenize(input[i]) {
                Some(token) => self.handle(token, &mut out),
                None => {},
            }
            i = i + 1;
            assert(input@.take(i as int).drop_last() =~= input@.take(i - 1));
        }
        assert(input@.take(i as int) =~= input@);
        proof {
            if gate_invariant(old(self)@) {
                crate::gate_laws::law_gate_invariant(old(self)@, input@, false);
            }
        }
        out
    }

    /// Handles an incomplete escape sequence as it is.
    pub fn flush(&mut self) -> (out: Output)
        ensures
            (final(self)@, out@) == old(self)@.flushed(),
            gate_invariant(old(self)@) ==> gate_invariant(final(self)@),
    {
        let mut out: Output = Output::default();
        let mut partial: Vec<u8> = Vec::new();
        std::mem::swap(&mut partial, &mut self.partial);
        if partial.len() > 0 {
            self.handle(Token { bytes: partial }, &mut out);
        } else {
            assert(self@ =~= old(self)@);
        }
        out
    }

    fn tokenize(&mut self, byte: u8) -> (token: Option<Token>)
        ensures
            final(self)@ == old(self)@.tokenized(byte),
            match token {
                Some(token) => old(self)@.completed_token(byte) == Some(token.bytes@),
                None => old(self)@.completed_token(byte) is None,
            },
    {
        if self.partial.len() == 0 {
            if byte == ESC {
                self.partial.push(byte);
                return None;
            }
            let mut bytes: Vec<u8> = Vec::new();
            bytes.push(byte);
            assert(bytes@ =~= seq![byte]);
            assert(self@ =~= old(self)@.tokenized(byte));
            return Some(Token { bytes });
        }
        self.partial.push(byte);
        if sequence_complete(self.partial.as_slice()) {
            let mut bytes: Vec<u8> = Vec::new();
            std::mem::swap(&mut bytes, &mut self.partial);
            Some(Token { bytes })
        } else {
            None
        }
    }

    fn handle(&mut self, token: Token, out: &mut Output)
        ensures
            final(self)@ == old(self)@.token_next(token.bytes@).0,
            final(out)@ == old(out)@.followed_by(old(self)@.token_next(token.bytes@).1),
    {
        let starts: bool = same_bytes(token.bytes(), &PASTE_START);
        let ends: bool = same_bytes(token.bytes(), &PASTE_END);
        let pasting: bool = self.in_paste || starts || ends;
        if starts {
            self.in_paste = true;
        } else if ends {
            self.in_paste = false;
        }
        if self.locked {
            self.handle_locked(token, pasting, out);
        } else {
            self.handle_unlocked(token, pasting, out);
        }
    }

    fn handle_unlocked(&mut self, token: Token, pasting: bool, out: &mut Output)
        ensures
            final(self)@ == old(self)@.unlocked_next(token.bytes@, pasting).0,
            final(out)@ == old(out)@.followed_by(
                old(self)@.unlocked_next(token.bytes@, pasting).1,
            ),
    {
        let ghost reaction = self@.unlocked_next(token.bytes@, pasting).1;
        match self.prefix.take() {
            Some(prefix) => {
                if token.is(CTRL_BRACKET, &KITTY_CTRL_BRACKET) {
                    push_all(&mut out.forward, prefix.bytes());
                } else if token.is(LOCK_KEY, &KITTY_L) {
                    self.locked = true;
                    self.clear_typed();
                    out.events.push(Event::Lock);
                } else {
                    push_all(&mut out.forward, prefix.bytes());
                    push_all(&mut out.forward, token.bytes());
                }
            },
            None => {
                if self.hotkey && !pasting && token.is(CTRL_BRACKET, &KITTY_CTRL_BRACKET) {
                    self.prefix = Some(token);
                } else {
                    push_all(&mut out.forward, token.bytes());
                }
            },
        }
        assert(out@ =~= old(out)@.followed_by(reaction));
    }

    fn handle_locked(&mut self, token: Token, pasting: bool, out: &mut Output)
        ensures
            final(self)@ == old(self)@.locked_next(token.bytes@, pasting).0,
            final(out)@ == old(out)@.followed_by(old(self)@.locked_next(token.bytes@, pasting).1),
    {
        let ghost reaction = self@.locked_next(token.bytes@, pasting).1;
        if !reports_drop(out.events.as_slice()) {
            out.events.push(Event::DroppedInput);
        }
        let matched: bool = match &self.phrase {
            None => {
                assert(out@ =~= old(out)@.followed_by(reaction));
                return ;
            },
            Some(phrase) => !self.overflow && same_bytes(phrase.as_slice(), self.typed.as_slice()),
        };
        if pasting || token.bytes.len() != 1 {
            self.clear_typed();
        } else {
            let byte: u8 = token.bytes[0];
            if byte == 0x0d || byte == 0x0a {
                self.clear_typed();
                if matched {
                    self.locked = false;
                    out.events.push(Event::Unlock);
                }
            } else if 0x20 <= byte && byte <= 0x7e {
                if self.typed.len() < PHRASE_CAP {
                    self.typed.push(byte);
                } else {
                    self.overflow = true;
                }
            } else {
                self.clear_typed();
            }
        }
        assert(out@ =~= old(out)@.followed_by(reaction));
    }

    fn clear_typed(&mut self)
        ensures
            final(self)@ == old(self)@.line_cleared(),
    {
        self.typed.clear();
        self.overflow = false;
    }
}

/// Whether dropped input has been reported already.
fn reports_drop(events: &[Event]) -> (found: bool)
    ensures
        found == events@.contains(Event::DroppedInput),
{
    let mut i: usize = 0;
    while i < events.len()
        invariant
            i <= events@.len(),
            forall|j: int| 0 <= j < i ==> events@[j] != Event::DroppedInput,
        decreases events@.len() - i,
    {
        if events[i] == Event::DroppedInput {
            assert(events@[i as int] == Event::DroppedInput);
            return true;
        }
        i = i + 1;
    }
    false
}

/// `seq` starts with ESC and has at least two bytes.
fn sequence_complete(seq: &[u8]) -> (complete: bool)
    requires
        seq@.len() >= 2,
    ensures
        complete == sequence_ends(seq@),
{
    let len: usize = seq.len();
    let last: u8 = seq[len - 1];
    if len >= MAX_SEQUENCE {
        return true;
    }
    let kind: u8 = seq[1];
    if kind == 0x5b {
        if len == 2 {
            false
        } else if seq[2] == 0x4d {
            // X10 mouse report: ESC [ M followed by three raw bytes.
            len == 6
        } else {
            0x40 <= last && last <= 0x7e
        }
    } else if kind == 0x4f {
        len == 3
    } else if kind == 0x5d || kind == 0x50 || kind == 0x5f || kind == 0x5e {
        (kind == 0x5d && last == 0x07) || (len >= 4 && seq[len - 2] == ESC && last == 0x5c)
    } else {
        true
    }
}

} // verus!
