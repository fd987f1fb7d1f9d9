//! What the input gate promises of all inputs.

use crate::gate::{
    Effect, Event, GateState, CTRL_BRACKET, LOCK_KEY, MAX_SEQUENCE, PASTE_END, PASTE_START,
    PHRASE_CAP,
};
use crate::text::ESC;
use vstd::prelude::*;

verus! {

/// The events that do not depend on how input is split into reads.
pub open spec fn lock_changes(events: Seq<Event>) -> Seq<Event> {
    events.filter(|event: Event| event != Event::DroppedInput)
}

/// Input has the same result however it is split into reads: a `Gate` ends up
/// the same, forwards the same bytes and reports the same changes. Dropped
/// input is reported for the whole exactly when it is for one of the parts.
pub proof fn law_reads(s: GateState, first: Seq<u8>, second: Seq<u8>)
    ensures
        ({
            let (between, a) = s.fed(first);
            let (after, b) = between.fed(second);
            let (whole, c) = s.fed(first + second);
            &&& whole == after
            &&& c.forward == a.forward + b.forward
            &&& lock_changes(c.events) == lock_changes(a.events) + lock_changes(b.events)
            &&& c.events.contains(Event::DroppedInput) == (a.events.contains(Event::DroppedInput)
                || b.events.contains(Event::DroppedInput))
        }),
    decreases second.len(),
{
    let (between, a) = s.fed(first);
    if second.len() == 0 {
        assert(first + second =~= first);
        assert(a.forward + Seq::<u8>::empty() =~= a.forward);
        assert(lock_changes(Seq::<Event>::empty()) =~= Seq::empty()) by {
            reveal(Seq::filter);
        }
        assert(lock_changes(a.events) + Seq::<Event>::empty() =~= lock_changes(a.events));
    } else {
        law_reads(s, first, second.drop_last());
        assert((first + second).drop_last() =~= first + second.drop_last());
        let (before, b) = between.fed(second.drop_last());
        let (_, c) = s.fed(first + second.drop_last());
        match before.completed_token(second.last()) {
            Some(token) => {
                let reaction = before.tokenized(second.last()).token_next(token).1;
                lemma_followed_by(b, reaction);
                lemma_followed_by(c, reaction);
                assert(a.forward + b.forward + reaction.forward =~= a.forward + (b.forward
                    + reaction.forward));
                let change = match reaction.change {
                    Some(event) => lock_changes(seq![event]),
                    None => Seq::empty(),
                };
                assert(lock_changes(a.events) + lock_changes(b.events) + change =~= lock_changes(
                    a.events,
                ) + (lock_changes(b.events) + change));
            },
            None => {},
        }
    }
}

proof fn lemma_followed_by(so_far: Effect, reaction: crate::gate::Reaction)
    requires
        reaction.change != Some(Event::DroppedInput),
    ensures
        ({
            let after = so_far.followed_by(reaction);
            &&& lock_changes(after.events) == lock_changes(so_far.events) + match reaction.change {
                Some(event) => lock_changes(seq![event]),
                None => Seq::empty(),
            }
            &&& after.events.contains(Event::DroppedInput) == (so_far.events.contains(
                Event::DroppedInput,
            ) || reaction.dropped)
        }),
{
    reveal(Seq::filter);
    let reported = if reaction.dropped && !so_far.events.contains(Event::DroppedInput) {
        so_far.events.push(Event::DroppedInput)
    } else {
        so_far.events
    };
    assert(so_far.events.push(Event::DroppedInput).drop_last() =~= so_far.events);
    assert(lock_changes(reported) =~= lock_changes(so_far.events));
    assert(so_far.events.push(Event::DroppedInput).last() == Event::DroppedInput);
    assert(reported.contains(Event::DroppedInput) == (so_far.events.contains(Event::DroppedInput)
        || reaction.dropped)) by {
        if reaction.dropped && !so_far.events.contains(Event::DroppedInput) {
            assert(reported[reported.len() - 1] == Event::DroppedInput);
        }
    }
    match reaction.change {
        Some(event) => {
            let changed = reported.push(event);
            assert(changed.drop_last() =~= reported);
            assert(seq![event].drop_last() =~= Seq::empty());
            assert(seq![event].last() == event);
            assert(lock_changes(seq![event]) =~= seq![event]);
            assert(lock_changes(changed) =~= lock_changes(reported).push(event));
            assert(lock_changes(changed) =~= lock_changes(so_far.events) + lock_changes(
                seq![event],
            ));
            assert(changed.contains(Event::DroppedInput) == reported.contains(
                Event::DroppedInput,
            )) by {
                if reported.contains(Event::DroppedInput) {
                    let i = choose|i: int|
                        0 <= i < reported.len() && reported[i] == Event::DroppedInput;
                    assert(changed[i] == Event::DroppedInput);
                }
                if changed.contains(Event::DroppedInput) {
                    let i = choose|i: int|
                        0 <= i < changed.len() && changed[i] == Event::DroppedInput;
                    assert(i < reported.len());
                    assert(reported[i] == Event::DroppedInput);
                }
            }
        },
        None => {
            assert(lock_changes(so_far.events) + Seq::<Event>::empty() =~= lock_changes(
                so_far.events,
            ));
        },
    }
}

/// A locked gate forwards nothing and stays locked, unless it reports that it
/// was unlocked.
pub proof fn law_locked_drops_everything(s: GateState, input: Seq<u8>)
    requires
        s.locked,
    ensures
        ({
            let (after, out) = s.fed(input);
            out.events.contains(Event::Unlock) || (after.locked && out.forward.len() == 0)
        }),
        ({
            let (after, out) = s.flushed();
            after.locked && out.forward.len() == 0 || out.events.contains(Event::Unlock)
        }),
    decreases input.len(),
{
    if input.len() > 0 {
        law_locked_drops_everything(s, input.drop_last());
        let (before, so_far) = s.fed(input.drop_last());
        lemma_unlock_stays_reported(before, so_far, input.last());
    }
    if s.partial.len() > 0 {
        let reaction = GateState { partial: Seq::empty(), ..s }.token_next(s.partial).1;
        lemma_change_is_reported(crate::gate::no_effect(), reaction);
    }
}

proof fn lemma_change_is_reported(so_far: Effect, reaction: crate::gate::Reaction)
    ensures
        reaction.change matches Some(event) ==> so_far.followed_by(reaction).events.contains(event),
        so_far.events.contains(Event::Unlock) ==> so_far.followed_by(reaction).events.contains(
            Event::Unlock,
        ),
{
    let after = so_far.followed_by(reaction).events;
    match reaction.change {
        Some(event) => {
            assert(after[after.len() - 1] == event);
        },
        None => {},
    }
    if so_far.events.contains(Event::Unlock) {
        let i = choose|i: int| 0 <= i < so_far.events.len() && so_far.events[i] == Event::Unlock;
        assert(after[i] == Event::Unlock);
    }
}

proof fn lemma_unlock_stays_reported(s: GateState, so_far: Effect, byte: u8)
    ensures
        so_far.events.contains(Event::Unlock) ==> s.byte_next(so_far, byte).1.events.contains(
            Event::Unlock,
        ),
        s.locked && so_far.forward.len() == 0 ==> ({
            let (after, out) = s.byte_next(so_far, byte);
            out.events.contains(Event::Unlock) || (after.locked && out.forward.len() == 0)
        }),
{
    match s.completed_token(byte) {
        Some(token) => {
            let reaction = s.tokenized(byte).token_next(token).1;
            lemma_change_is_reported(so_far, reaction);
        },
        None => {},
    }
}

/// Without a phrase no input unlocks a locked gate.
pub proof fn law_no_phrase_stays_locked(s: GateState, input: Seq<u8>)
    requires
        s.locked,
        s.phrase is None,
    ensures
        ({
            let (after, out) = s.fed(input);
            &&& after.locked
            &&& after.phrase is None
            &&& out.forward.len() == 0
            &&& !out.events.contains(Event::Unlock)
        }),
        s.flushed().0.locked,
        s.flushed().1.forward.len() == 0,
    decreases input.len(),
{
    if input.len() > 0 {
        law_no_phrase_stays_locked(s, input.drop_last());
        let (before, so_far) = s.fed(input.drop_last());
        let out = before.byte_next(so_far, input.last()).1;
        if out.events.contains(Event::Unlock) {
            let i = choose|i: int| 0 <= i < out.events.len() && out.events[i] == Event::Unlock;
            assert(i < so_far.events.len() ==> so_far.events[i] == Event::Unlock);
        }
    }
}

/// One call of a `Gate` reports dropped input at most once.
pub proof fn law_drop_is_reported_once(s: GateState, input: Seq<u8>, i: int, j: int)
    requires
        0 <= i < j < s.fed(input).1.events.len(),
        s.fed(input).1.events[i] == Event::DroppedInput,
    ensures
        s.fed(input).1.events[j] != Event::DroppedInput,
    decreases input.len(),
{
    if input.len() > 0 {
        let (before, so_far) = s.fed(input.drop_last());
        let out = s.fed(input).1;
        if j < so_far.events.len() {
            assert(out.events[i] == so_far.events[i]);
            assert(out.events[j] == so_far.events[j]);
            law_drop_is_reported_once(s, input.drop_last(), i, j);
        } else if i < so_far.events.len() {
            assert(out.events[i] == so_far.events[i]);
            assert(so_far.events.contains(Event::DroppedInput));
        }
    }
}

/// One token while locked, after the output `so_far`: nothing is forwarded, the
/// drop is reported unless it has been, and an unlock is reported exactly when
/// there is one. Only an Enter that was typed and not pasted unlocks, and only
/// on a gate with a phrase, which is the line typed before it.
pub proof fn law_one_token_while_locked(
    s: GateState,
    token: Seq<u8>,
    pasting: bool,
    so_far: Effect,
)
    requires
        s.locked,
    ensures
        ({
            let (after, reaction) = s.locked_next(token, pasting);
            let out = so_far.followed_by(reaction);
            &&& out.forward == so_far.forward
            &&& out.events == so_far.events + (if so_far.events.contains(Event::DroppedInput) {
                Seq::empty()
            } else {
                seq![Event::DroppedInput]
            }) + (if after.locked {
                Seq::empty()
            } else {
                seq![Event::Unlock]
            })
            &&& !after.locked ==> {
                &&& !pasting
                &&& token.len() == 1 && crate::gate::is_enter(token[0])
                &&& s.phrase == Some(s.typed)
                &&& !s.overflow
            }
        }),
{
    let (after, reaction) = s.locked_next(token, pasting);
    let out = so_far.followed_by(reaction);
    assert(out.forward =~= so_far.forward);
    assert(out.events =~= so_far.events + (if so_far.events.contains(Event::DroppedInput) {
        Seq::empty()
    } else {
        seq![Event::DroppedInput]
    }) + (if after.locked {
        Seq::empty()
    } else {
        seq![Event::Unlock]
    }));
}

/// The event that says that a gate is now locked, or unlocked.
pub open spec fn change_to(locked: bool) -> Event {
    if locked {
        Event::Lock
    } else {
        Event::Unlock
    }
}

/// The changes lead from one state of the lock to the other: they alternate,
/// the first leaves the state before and the last gives the state after;
/// without a change the two are the same.
pub open spec fn changes_lead(before: bool, changes: Seq<Event>, after: bool) -> bool {
    &&& changes.len() == 0 ==> before == after
    &&& changes.len() > 0 ==> changes[0] == change_to(!before)
    &&& changes.len() > 0 ==> changes.last() == change_to(after)
    &&& forall|i: int|
        0 <= i < changes.len() ==> #[trigger] changes[i] == change_to(if i % 2 == 0 {
            !before
        } else {
            before
        })
}

/// The changes that a `Gate` reports are the changes of its lock: they
/// alternate, begin opposite to the state before and end at the state after.
pub proof fn law_changes_alternate(s: GateState, input: Seq<u8>)
    ensures
        changes_lead(s.locked, lock_changes(s.fed(input).1.events), s.fed(input).0.locked),
        changes_lead(s.locked, lock_changes(s.flushed().1.events), s.flushed().0.locked),
    decreases input.len(),
{
    reveal(Seq::filter);
    let none = crate::gate::no_effect();
    assert(lock_changes(none.events) =~= Seq::empty());
    if input.len() > 0 {
        law_changes_alternate(s, input.drop_last());
        let (before, so_far) = s.fed(input.drop_last());
        match before.completed_token(input.last()) {
            Some(token) => {
                lemma_change_leads(s.locked, before.tokenized(input.last()), so_far, token);
            },
            None => {},
        }
    }
    if s.partial.len() > 0 {
        lemma_change_leads(s.locked, GateState { partial: Seq::empty(), ..s }, none, s.partial);
    }
}

proof fn lemma_change_leads(first: bool, s: GateState, so_far: Effect, token: Seq<u8>)
    requires
        changes_lead(first, lock_changes(so_far.events), s.locked),
    ensures
        ({
            let (after, reaction) = s.token_next(token);
            changes_lead(
                first,
                lock_changes(so_far.followed_by(reaction).events),
                after.locked,
            )
        }),
{
    reveal(Seq::filter);
    let (after, reaction) = s.token_next(token);
    lemma_followed_by(so_far, reaction);
    let changes = lock_changes(so_far.events);
    match reaction.change {
        Some(event) => {
            assert(seq![event].drop_last() =~= Seq::empty());
            assert(lock_changes(seq![event]) =~= seq![event]);
            assert(event == change_to(!s.locked) && after.locked == !s.locked);
            assert(changes + seq![event] =~= changes.push(event));
            if changes.len() > 0 {
                assert(changes[changes.len() - 1] == change_to(s.locked));
            }
        },
        None => {
            assert(changes + Seq::<Event>::empty() =~= changes);
        },
    }
}

/// A new `Gate` has its invariant.
pub proof fn law_new_gate_invariant(locked: bool, hotkey: bool, phrase: Option<Seq<u8>>)
    ensures
        crate::gate::gate_invariant(crate::gate::new_gate(locked, hotkey, phrase)),
{
}

/// A `Gate` keeps its invariant through every operation.
pub proof fn law_gate_invariant(s: GateState, input: Seq<u8>, locked: bool)
    requires
        crate::gate::gate_invariant(s),
    ensures
        crate::gate::gate_invariant(s.fed(input).0),
        crate::gate::gate_invariant(s.flushed().0),
        crate::gate::gate_invariant(s.with_lock(locked)),
    decreases input.len(),
{
    if input.len() > 0 {
        law_gate_invariant(s, input.drop_last(), locked);
    }
}

/// Changing the lock from outside discards what was half typed: a waiting
/// Ctrl+], an incomplete escape sequence, a line. A flush then has nothing to
/// forward or report.
pub proof fn law_set_locked_discards_half_typed_input(s: GateState, locked: bool)
    requires
        s.locked != locked,
    ensures
        ({
            let after = s.with_lock(locked);
            &&& after.locked == locked
            &&& after.prefix is None
            &&& after.typed.len() == 0
            &&& after.flushed() == (after, crate::gate::no_effect())
        }),
{
}

proof fn lemma_bytes_join(s: GateState, so_far: Effect, first: Seq<u8>, second: Seq<u8>)
    ensures
        s.bytes_next(so_far, first + second) == ({
            let (between, effect) = s.bytes_next(so_far, first);
            between.bytes_next(effect, second)
        }),
    decreases second.len(),
{
    if second.len() == 0 {
        assert(first + second =~= first);
    } else {
        lemma_bytes_join(s, so_far, first, second.drop_last());
        assert((first + second).drop_last() =~= first + second.drop_last());
    }
}

proof fn lemma_single_byte(s: GateState, so_far: Effect, byte: u8)
    requires
        s.partial.len() == 0,
        byte != ESC,
    ensures
        crate::gate::paste_marker(seq![byte]) is None,
        s.byte_next(so_far, byte) == ({
            let (after, reaction) = s.token_next(seq![byte]);
            (after, so_far.followed_by(reaction))
        }),
        s.bytes_next(so_far, seq![byte]) == s.byte_next(so_far, byte),
{
    assert(PASTE_START@.len() == 6);
    assert(PASTE_END@.len() == 6);
    assert(s.tokenized(byte) =~= s);
    assert(seq![byte].drop_last() =~= Seq::empty());
    assert(s.bytes_next(so_far, Seq::empty()) == (s, so_far));
}

/// A line typed into a locked gate and ended with Enter unlocks it if and only
/// if it is the phrase and no longer than the longest line that is compared.
/// Nothing of the line reaches the command.
pub proof fn law_line_unlocks_iff_phrase(s: GateState, line: Seq<u8>, enter: u8)
    requires
        s.locked,
        s.phrase is Some,
        s.partial.len() == 0,
        s.typed.len() == 0,
        !s.overflow,
        !s.in_paste,
        forall|i: int| 0 <= i < line.len() ==> crate::gate::printable(#[trigger] line[i]),
        crate::gate::is_enter(enter),
    ensures
        ({
            let unlocks = s.phrase == Some(line) && line.len() <= PHRASE_CAP;
            let (after, out) = s.fed(line.push(enter));
            &&& after == (GateState { locked: !unlocks, ..s })
            &&& out.forward.len() == 0
            &&& out.events == if unlocks {
                seq![Event::DroppedInput, Event::Unlock]
            } else {
                seq![Event::DroppedInput]
            }
        }),
{
    lemma_line_is_collected(s, line);
    assert(line.push(enter).drop_last() =~= line);
    let (before, so_far) = s.fed(line);
    lemma_single_byte(before, so_far, enter);
    let unlocks = s.phrase == Some(line) && line.len() <= PHRASE_CAP;
    if line.len() <= PHRASE_CAP {
        assert(before.typed =~= line);
    }
    let (after, out) = s.fed(line.push(enter));
    assert(after =~= (GateState { locked: !unlocks, ..s }));
    assert(!Seq::<Event>::empty().contains(Event::DroppedInput));
    assert(seq![Event::DroppedInput][0] == Event::DroppedInput);
    assert(out.events =~= if unlocks {
        seq![Event::DroppedInput, Event::Unlock]
    } else {
        seq![Event::DroppedInput]
    });
}

proof fn lemma_line_is_collected(s: GateState, line: Seq<u8>)
    requires
        s.locked,
        s.phrase is Some,
        s.partial.len() == 0,
        s.typed.len() == 0,
        !s.overflow,
        !s.in_paste,
        forall|i: int| 0 <= i < line.len() ==> crate::gate::printable(#[trigger] line[i]),
    ensures
        ({
            let kept = if line.len() <= PHRASE_CAP {
                line
            } else {
                line.take(PHRASE_CAP as int)
            };
            s.fed(line) == (
                GateState { typed: kept, overflow: line.len() > PHRASE_CAP, ..s },
                Effect {
                    forward: Seq::empty(),
                    events: if line.len() == 0 {
                        Seq::empty()
                    } else {
                        seq![Event::DroppedInput]
                    },
                },
            )
        }),
    decreases line.len(),
{
    if line.len() == 0 {
        assert(s.typed =~= line);
    } else {
        let shorter = line.drop_last();
        assert forall|i: int| 0 <= i < shorter.len() implies crate::gate::printable(
            #[trigger] shorter[i],
        ) by {
            assert(crate::gate::printable(line[i]));
        }
        lemma_line_is_collected(s, shorter);
        let (before, so_far) = s.fed(shorter);
        assert(crate::gate::printable(line[line.len() - 1]));
        lemma_single_byte(before, so_far, line.last());
        assert(shorter.push(line.last()) =~= line);
        if line.len() > PHRASE_CAP {
            assert(line.take(PHRASE_CAP as int) =~= if shorter.len() <= PHRASE_CAP {
                shorter
            } else {
                shorter.take(PHRASE_CAP as int)
            });
        }
        let (after, out) = s.fed(line);
        assert(!Seq::<Event>::empty().contains(Event::DroppedInput));
        assert(seq![Event::DroppedInput][0] == Event::DroppedInput);
        assert(out.events =~= seq![Event::DroppedInput]);
        assert(out.forward =~= Seq::empty());
    }
}

/// `part` stands somewhere in `whole`.
pub open spec fn occurs_in(part: Seq<u8>, whole: Seq<u8>) -> bool {
    exists|i: int|
        0 <= i <= whole.len() - part.len() && #[trigger] whole.subrange(i, i + part.len()) == part
}

/// Input without the hotkey passes an unlocked gate untouched, and with the
/// hotkey off all input does: what has been forwarded together with the escape
/// sequence that is still incomplete is exactly what was typed, and a flush
/// forwards the rest.
pub proof fn law_unlocked_input_is_forwarded(s: GateState, input: Seq<u8>)
    requires
        !s.locked,
        s.prefix is None,
        s.hotkey ==> forall|bracket: Seq<u8>|
            #[trigger] crate::gate::is_ctrl_bracket(bracket) ==> !occurs_in(
                bracket,
                s.partial + input,
            ),
    ensures
        ({
            let (after, out) = s.fed(input);
            &&& !after.locked
            &&& after.hotkey == s.hotkey
            &&& after.prefix is None
            &&& out.forward + after.partial == s.partial + input
            &&& out.events.len() == 0
            &&& after.flushed().1 == (Effect { forward: after.partial, events: Seq::empty() })
        }),
    decreases input.len(),
{
    let typed = s.partial + input;
    let (after, out) = s.fed(input);
    if input.len() == 0 {
        assert(Seq::<u8>::empty() + s.partial =~= typed);
    } else {
        let shorter = s.partial + input.drop_last();
        assert(typed =~= shorter + seq![input.last()]);
        if s.hotkey {
            assert forall|bracket: Seq<u8>| #[trigger]
                crate::gate::is_ctrl_bracket(bracket) implies !occurs_in(bracket, shorter) by {
                if occurs_in(bracket, shorter) {
                    let i = choose|i: int|
                        0 <= i <= shorter.len() - bracket.len() && #[trigger] shorter.subrange(
                            i,
                            i + bracket.len(),
                        ) == bracket;
                    assert(typed.subrange(i, i + bracket.len()) =~= bracket);
                }
            }
        }
        law_unlocked_input_is_forwarded(s, input.drop_last());
        let (before, so_far) = s.fed(input.drop_last());
        match before.completed_token(input.last()) {
            Some(token) => {
                let i = so_far.forward.len() as int;
                assert(token =~= before.partial + seq![input.last()]);
                assert(typed =~= so_far.forward + token);
                assert(typed.subrange(i, i + token.len()) =~= token);
                assert(occurs_in(token, typed));
            },
            None => {},
        }
        assert(out.forward + after.partial =~= so_far.forward + before.partial
            + seq![input.last()]);
    }
    if after.partial.len() > 0 {
        assert(s.hotkey ==> !crate::gate::is_ctrl_bracket(after.partial)) by {
            let i = out.forward.len() as int;
            assert(typed.subrange(i, i + after.partial.len()) =~= after.partial);
            assert(occurs_in(after.partial, typed));
        }
    }
    assert(after.flushed().1.forward =~= after.partial);
    assert(after.flushed().1.events =~= Seq::empty());
}

/// The tokens of `text`, read from its start, and the incomplete escape
/// sequence at its end.
pub open spec fn tokens_of(text: Seq<u8>) -> (Seq<Seq<u8>>, Seq<u8>)
    decreases text.len(),
{
    if text.len() == 0 {
        (Seq::empty(), Seq::empty())
    } else {
        let (tokens, partial) = tokens_of(text.drop_last());
        match crate::gate::token_ended_by(partial, text.last()) {
            Some(token) => (tokens.push(token), Seq::empty()),
            None => (tokens, partial.push(text.last())),
        }
    }
}

/// `token` is read as one token: a single byte or a complete escape sequence.
pub open spec fn one_token(token: Seq<u8>) -> bool {
    tokens_of(token) == (seq![token], Seq::<u8>::empty())
}

/// A gate and the output so far after a run of tokens.
pub open spec fn tokens_next(s: GateState, so_far: Effect, tokens: Seq<Seq<u8>>) -> (
    GateState,
    Effect,
)
    decreases tokens.len(),
{
    if tokens.len() == 0 {
        (s, so_far)
    } else {
        let (before, effect) = tokens_next(s, so_far, tokens.drop_last());
        let (after, reaction) = before.token_next(tokens.last());
        (after, effect.followed_by(reaction))
    }
}

/// A `Gate` takes input token by token: what it does depends only on the
/// tokens, and the incomplete escape sequence at the end waits.
pub proof fn law_input_is_read_as_tokens(s: GateState, so_far: Effect, input: Seq<u8>)
    requires
        s.partial.len() == 0,
    ensures
        ({
            let (tokens, partial) = tokens_of(input);
            let (after, out) = tokens_next(s, so_far, tokens);
            &&& after.partial.len() == 0
            &&& s.bytes_next(so_far, input) == (GateState { partial, ..after }, out)
        }),
    decreases input.len(),
{
    if input.len() == 0 {
        assert(s.partial =~= Seq::empty());
    } else {
        law_input_is_read_as_tokens(s, so_far, input.drop_last());
        let (tokens, partial) = tokens_of(input.drop_last());
        let between = tokens_next(s, so_far, tokens).0;
        let before = GateState { partial, ..between };
        match before.completed_token(input.last()) {
            Some(token) => {
                assert(before.tokenized(input.last()) =~= between);
                assert(tokens.push(token).drop_last() =~= tokens);
                let after = between.token_next(token).0;
                assert(after.partial =~= Seq::empty());
            },
            None => {},
        }
    }
}

proof fn lemma_one_token(s: GateState, so_far: Effect, token: Seq<u8>)
    requires
        s.partial.len() == 0,
        one_token(token),
    ensures
        s.bytes_next(so_far, token) == ({
            let (after, reaction) = s.token_next(token);
            (after, so_far.followed_by(reaction))
        }),
{
    law_input_is_read_as_tokens(s, so_far, token);
    assert(seq![token].drop_last() =~= Seq::empty());
    assert(tokens_next(s, so_far, Seq::empty()) == (s, so_far));
    let after = s.token_next(token).0;
    assert(after.partial =~= Seq::empty());
}

/// A control sequence that ends with its last byte, and not before.
pub open spec fn control_sequence(seq: Seq<u8>) -> bool {
    &&& 3 <= seq.len() < MAX_SEQUENCE
    &&& seq[0] == ESC
    &&& seq[1] == 0x5b
    &&& seq[2] != 0x4d
    &&& 0x40 <= seq.last() <= 0x7e
    &&& forall|i: int| 2 <= i < seq.len() - 1 ==> !(0x40 <= #[trigger] seq[i] <= 0x7e)
}

/// A control sequence is one token.
pub proof fn law_control_sequence_is_one_token(seq: Seq<u8>)
    requires
        control_sequence(seq),
    ensures
        one_token(seq),
{
    let open = seq.drop_last();
    lemma_control_sequence_opens(seq, open.len() as int);
    assert(seq.take(open.len() as int) =~= open);
    assert(open.push(seq.last()) =~= seq);
    assert(Seq::<Seq<u8>>::empty().push(seq) =~= seq![seq]);
}

proof fn lemma_control_sequence_opens(seq: Seq<u8>, n: int)
    requires
        control_sequence(seq),
        0 <= n < seq.len(),
    ensures
        tokens_of(seq.take(n)) == (Seq::<Seq<u8>>::empty(), seq.take(n)),
    decreases n,
{
    if n == 0 {
        assert(seq.take(0) =~= Seq::empty());
    } else {
        lemma_control_sequence_opens(seq, n - 1);
        assert(seq.take(n).drop_last() =~= seq.take(n - 1));
        assert(seq.take(n).last() == seq[n - 1]);
        assert(seq.take(n - 1).push(seq[n - 1]) =~= seq.take(n));
        if n >= 2 {
            assert(seq.take(n)[1] == seq[1]);
            if n >= 3 {
                assert(seq.take(n)[2] == seq[2]);
            }
            assert(!crate::gate::sequence_ends(seq.take(n)));
        }
    }
}

proof fn lemma_key_is_one_token(s: GateState, so_far: Effect, key: Seq<u8>)
    requires
        s.partial.len() == 0,
        crate::gate::is_ctrl_bracket(key) || crate::gate::is_lock_key(key),
    ensures
        s.bytes_next(so_far, key) == ({
            let (after, reaction) = s.token_next(key);
            (after, so_far.followed_by(reaction))
        }),
        crate::gate::paste_marker(key) is None,
        !(crate::gate::is_ctrl_bracket(key) && crate::gate::is_lock_key(key)),
{
    let bracket = crate::gate::KITTY_CTRL_BRACKET@;
    let letter = crate::gate::KITTY_L@;
    assert(bracket.len() == 7 && letter.len() == 6);
    assert(PASTE_START@.len() == 6 && PASTE_END@.len() == 6);
    assert(letter[5] == 0x75 && PASTE_START@[5] == 0x7e && PASTE_END@[5] == 0x7e);
    assert(seq![CTRL_BRACKET][0] != seq![LOCK_KEY][0]);
    if key == bracket || key == letter {
        law_control_sequence_is_one_token(key);
        lemma_one_token(s, so_far, key);
    } else {
        lemma_single_byte(s, so_far, key[0]);
    }
}

/// Ctrl+] and `l`, in plain or in kitty encoding, lock an unlocked gate with a
/// hotkey; neither reaches the command.
pub proof fn law_hotkey_locks(s: GateState, bracket: Seq<u8>, letter: Seq<u8>)
    requires
        !s.locked,
        s.hotkey,
        s.partial.len() == 0,
        s.prefix is None,
        !s.in_paste,
        crate::gate::is_ctrl_bracket(bracket),
        crate::gate::is_lock_key(letter),
    ensures
        s.fed(bracket + letter) == (
            GateState { locked: true, ..s.line_cleared() },
            Effect { forward: Seq::empty(), events: seq![Event::Lock] },
        ),
{
    let none = crate::gate::no_effect();
    lemma_bytes_join(s, none, bracket, letter);
    lemma_key_is_one_token(s, none, bracket);
    let (waiting, so_far) = s.fed(bracket);
    lemma_key_is_one_token(waiting, so_far, letter);
    let out = s.fed(bracket + letter).1;
    assert(out.forward =~= Seq::empty());
    assert(out.events =~= seq![Event::Lock]);
}

/// Ctrl+] pressed twice reaches the command once, as it was sent.
pub proof fn law_doubled_hotkey_sends_one(s: GateState, bracket: Seq<u8>, again: Seq<u8>)
    requires
        !s.locked,
        s.hotkey,
        s.partial.len() == 0,
        s.prefix is None,
        !s.in_paste,
        crate::gate::is_ctrl_bracket(bracket),
        crate::gate::is_ctrl_bracket(again),
    ensures
        s.fed(bracket + again) == (s, Effect { forward: bracket, events: Seq::empty() }),
{
    let none = crate::gate::no_effect();
    lemma_bytes_join(s, none, bracket, again);
    lemma_key_is_one_token(s, none, bracket);
    let (waiting, so_far) = s.fed(bracket);
    lemma_key_is_one_token(waiting, so_far, again);
    let (after, out) = s.fed(bracket + again);
    assert(after =~= s);
    assert(out.forward =~= bracket);
    assert(out.events =~= Seq::empty());
}

/// Ctrl+] and then any other key both reach the command, whatever the terminal
/// sends for that key.
pub proof fn law_hotkey_with_another_key_is_forwarded(
    s: GateState,
    bracket: Seq<u8>,
    key: Seq<u8>,
)
    requires
        !s.locked,
        s.hotkey,
        s.partial.len() == 0,
        s.prefix is None,
        !s.in_paste,
        crate::gate::is_ctrl_bracket(bracket),
        one_token(key),
        !crate::gate::is_ctrl_bracket(key),
        !crate::gate::is_lock_key(key),
    ensures
        s.fed(bracket + key) == (
            GateState { in_paste: crate::gate::paste_marker(key) == Some(true), ..s },
            Effect { forward: bracket + key, events: Seq::empty() },
        ),
{
    let none = crate::gate::no_effect();
    lemma_bytes_join(s, none, bracket, key);
    lemma_key_is_one_token(s, none, bracket);
    let (waiting, so_far) = s.fed(bracket);
    lemma_one_token(waiting, so_far, key);
    let (after, out) = s.fed(bracket + key);
    assert(after =~= (GateState {
        in_paste: crate::gate::paste_marker(key) == Some(true),
        ..s
    }));
    assert(out.forward =~= bracket + key);
    assert(out.events =~= Seq::empty());
}

/// Typing unlocks only with the phrase: the byte that unlocks is an Enter, and
/// what was typed just before it, without a break, is the phrase.
pub proof fn law_only_the_phrase_unlocks(s: GateState, input: Seq<u8>, enter: u8)
    requires
        s.locked,
        !s.fed(input).1.events.contains(Event::Unlock),
        s.fed(input.push(enter)).1.events.contains(Event::Unlock),
    ensures
        crate::gate::is_enter(enter),
        s.phrase matches Some(phrase) && crate::text::ends_with(s.typed + s.partial + input, phrase),
{
    lemma_line_is_what_was_typed(s, input);
    let (before, so_far) = s.fed(input);
    assert(input.push(enter).drop_last() =~= input);
    let out = before.byte_next(so_far, enter).1;
    let i = choose|i: int| 0 <= i < out.events.len() && out.events[i] == Event::Unlock;
    assert(i < so_far.events.len() ==> so_far.events[i] == Event::Unlock);
    assert(before.typed + Seq::<u8>::empty() =~= before.typed);
    assert(before.partial =~= Seq::empty());
}

/// While a gate stays locked, the line that it collects and an incomplete
/// escape sequence are the last bytes typed.
proof fn lemma_line_is_what_was_typed(s: GateState, input: Seq<u8>)
    requires
        s.locked,
        !s.fed(input).1.events.contains(Event::Unlock),
    ensures
        ({
            let after = s.fed(input).0;
            &&& after.locked
            &&& after.phrase == s.phrase
            &&& s.phrase is None || after.overflow || crate::text::ends_with(
                s.typed + s.partial + input,
                after.typed + after.partial,
            )
        }),
    decreases input.len(),
{
    let whole = s.typed + s.partial + input;
    let (after, out) = s.fed(input);
    if input.len() == 0 {
        assert(whole.skip(0) =~= s.typed + s.partial);
    } else {
        let (before, so_far) = s.fed(input.drop_last());
        lemma_unlock_stays_reported(before, so_far, input.last());
        lemma_line_is_what_was_typed(s, input.drop_last());
        let shorter = s.typed + s.partial + input.drop_last();
        assert(whole =~= shorter.push(input.last()));
        match before.completed_token(input.last()) {
            Some(token) => {
                lemma_change_is_reported(
                    so_far,
                    before.tokenized(input.last()).token_next(token).1,
                );
            },
            None => {},
        }
        if s.phrase is Some && !after.overflow && (after.typed + after.partial).len() > 0 {
            assert(after.typed + after.partial =~= (before.typed + before.partial).push(
                input.last(),
            ));
            let kept = (before.typed + before.partial).len();
            assert(whole.skip(whole.len() - kept - 1) =~= shorter.skip(shorter.len() - kept).push(
                input.last(),
            ));
        } else if s.phrase is Some && !after.overflow {
            assert(whole.skip(whole.len() as int) =~= after.typed + after.partial);
        }
    }
}

/// Taking an incomplete escape sequence as it is neither locks nor unlocks.
pub proof fn law_flush_keeps_the_lock(s: GateState)
    requires
        crate::gate::gate_invariant(s),
    ensures
        s.flushed().0.locked == s.locked,
        lock_changes(s.flushed().1.events) == Seq::<Event>::empty(),
{
    let letter = crate::gate::KITTY_L@;
    assert(letter.len() == 6 && letter[1] == 0x5b && letter[2] == 0x31 && letter[5] == 0x75);
    assert(seq![LOCK_KEY][0] == LOCK_KEY);
    reveal(Seq::filter);
    let events = s.flushed().1.events;
    assert(!Seq::<Event>::empty().contains(Event::DroppedInput));
    assert(events =~= Seq::empty() || events =~= seq![Event::DroppedInput]);
    assert(seq![Event::DroppedInput].drop_last() =~= Seq::empty());
    assert(lock_changes(Seq::empty()) =~= Seq::empty());
    assert(lock_changes(seq![Event::DroppedInput]) =~= Seq::empty());
}

/// Text that is pasted whole: read from its start it does not hold what a
/// terminal sends after pasted text, and leaves no escape sequence incomplete.
pub open spec fn pasted_whole(text: Seq<u8>) -> bool {
    let (tokens, partial) = tokens_of(text);
    &&& partial.len() == 0
    &&& forall|i: int| 0 <= i < tokens.len() ==> #[trigger] tokens[i] != PASTE_END@
}

/// Text without an escape is pasted whole.
pub proof fn law_plain_text_is_pasted_whole(text: Seq<u8>)
    requires
        forall|i: int| 0 <= i < text.len() ==> text[i] != ESC,
    ensures
        pasted_whole(text),
    decreases text.len(),
{
    if text.len() > 0 {
        law_plain_text_is_pasted_whole(text.drop_last());
        assert(PASTE_END@.len() == 6);
        assert(seq![text.last()].len() == 1);
    }
}

/// A gate into which something was pasted.
pub open spec fn pasted_into(s: GateState, in_paste: bool) -> GateState {
    if !s.locked {
        GateState { in_paste, prefix: None, ..s }
    } else if s.phrase is Some {
        GateState { in_paste, ..s.line_cleared() }
    } else {
        GateState { in_paste, ..s }
    }
}

/// The Ctrl+] that waits, if one does.
pub open spec fn waiting_prefix(s: GateState) -> Seq<u8> {
    match s.prefix {
        Some(prefix) => prefix,
        None => Seq::empty(),
    }
}

/// What comes out when `text`, with what marks a paste, is pasted into a gate.
pub open spec fn paste_effect(s: GateState, text: Seq<u8>) -> Effect {
    if s.locked {
        Effect { forward: Seq::empty(), events: seq![Event::DroppedInput] }
    } else {
        Effect { forward: waiting_prefix(s) + text, events: Seq::empty() }
    }
}

/// A paste neither locks nor unlocks. It passes an unlocked gate untouched,
/// hotkey or not, behind a Ctrl+] that waited; a locked gate drops it and
/// forgets the line typed so far.
pub proof fn law_paste_changes_nothing(s: GateState, text: Seq<u8>)
    requires
        s.partial.len() == 0,
        pasted_whole(text),
    ensures
        ({
            let paste = PASTE_START@ + text + PASTE_END@;
            s.fed(paste) == (pasted_into(s, false), paste_effect(s, paste))
        }),
{
    let none = crate::gate::no_effect();
    let start = PASTE_START@;
    let end = PASTE_END@;
    let paste = start + text + end;
    assert(start.len() == 6 && end.len() == 6);
    assert(start[4] == 0x30 && end[4] == 0x31);
    assert(control_sequence(end));
    law_control_sequence_is_one_token(end);
    lemma_bytes_join(s, none, start + text, end);
    lemma_paste_goes_on(s, text);
    let (pasting, so_far) = s.fed(start + text);
    assert(pasting.partial =~= Seq::empty());
    assert(so_far.forward + pasting.partial =~= so_far.forward);
    lemma_one_token(pasting, so_far, end);
    let (after, out) = s.fed(paste);
    assert(seq![Event::DroppedInput][0] == Event::DroppedInput);
    assert(after =~= pasted_into(s, false));
    assert(out.forward =~= paste_effect(s, paste).forward);
    assert(out.events =~= paste_effect(s, paste).events);
}

/// While a paste is under way an unlocked gate forwards what is pasted so far,
/// but for an escape sequence that is incomplete, and a locked gate drops it.
pub proof fn law_paste_goes_on(s: GateState, text: Seq<u8>)
    requires
        s.partial.len() == 0,
        forall|i: int|
            0 <= i < tokens_of(text).0.len() ==> #[trigger] tokens_of(text).0[i] != PASTE_END@,
    ensures
        ({
            let partial = tokens_of(text).1;
            let (after, out) = s.fed(PASTE_START@ + text);
            let whole = paste_effect(s, PASTE_START@ + text);
            &&& after == (GateState { partial, ..pasted_into(s, true) })
            &&& out.events == whole.events
            &&& if s.locked {
                out.forward == whole.forward
            } else {
                out.forward + partial == whole.forward
            }
        }),
{
    lemma_paste_goes_on(s, text);
}

proof fn lemma_paste_goes_on(s: GateState, text: Seq<u8>)
    requires
        s.partial.len() == 0,
        forall|i: int|
            0 <= i < tokens_of(text).0.len() ==> #[trigger] tokens_of(text).0[i] != PASTE_END@,
    ensures
        ({
            let partial = tokens_of(text).1;
            let (after, out) = s.fed(PASTE_START@ + text);
            let whole = paste_effect(s, PASTE_START@ + text);
            &&& after == (GateState { partial, ..pasted_into(s, true) })
            &&& out.events == whole.events
            &&& if s.locked {
                out.forward == whole.forward
            } else {
                out.forward + partial == whole.forward
            }
        }),
    decreases text.len(),
{
    let none = crate::gate::no_effect();
    let start = PASTE_START@;
    let (after, out) = s.fed(start + text);
    let whole = paste_effect(s, start + text);
    assert(start.len() == 6 && crate::gate::KITTY_CTRL_BRACKET@.len() == 7);
    let letter = crate::gate::KITTY_L@;
    assert(letter.len() == 6 && letter[2] == 0x31 && start[2] == 0x32);
    assert(!Seq::<Event>::empty().contains(Event::DroppedInput));
    assert(seq![Event::DroppedInput][0] == Event::DroppedInput);
    if text.len() == 0 {
        assert(start + text =~= start);
        assert(control_sequence(start));
        law_control_sequence_is_one_token(start);
        lemma_one_token(s, none, start);
        assert(seq![CTRL_BRACKET].len() == 1 && seq![LOCK_KEY].len() == 1);
        assert(after =~= pasted_into(s, true));
        assert(out.events =~= whole.events);
        assert(out.forward + Seq::<u8>::empty() =~= out.forward);
        assert(out.forward =~= whole.forward);
    } else {
        let shorter = text.drop_last();
        let (tokens, partial) = tokens_of(shorter);
        assert forall|i: int| 0 <= i < tokens.len() implies #[trigger] tokens[i] != PASTE_END@ by {
            assert(tokens_of(text).0[i] == tokens[i]);
        }
        lemma_paste_goes_on(s, shorter);
        assert((start + text).drop_last() =~= start + shorter);
        let (before, so_far) = s.fed(start + shorter);
        assert((start + shorter).push(text.last()) =~= start + text);
        assert(waiting_prefix(s) + (start + text) =~= (waiting_prefix(s) + (start
            + shorter)).push(text.last()));
        match before.completed_token(text.last()) {
            Some(token) => {
                assert(tokens_of(text).0[tokens.len() as int] == token);
                assert(token =~= partial.push(text.last()));
                assert(after =~= pasted_into(s, true));
                assert(out.events =~= whole.events);
                assert(s.locked ==> out.forward =~= whole.forward);
                assert(!s.locked ==> out.forward + Seq::<u8>::empty() =~= whole.forward);
            },
            None => {
                assert(out.forward + partial.push(text.last()) =~= (out.forward + partial).push(
                    text.last(),
                ));
            },
        }
    }
}

/// A new gate is as it was asked for, with nothing typed.
pub proof fn law_new_gate(locked: bool, hotkey: bool, phrase: Option<Seq<u8>>)
    ensures
        ({
            let s = crate::gate::new_gate(locked, hotkey, phrase);
            &&& s.locked == locked
            &&& s.hotkey == hotkey
            &&& s.phrase == phrase
            &&& s.partial.len() == 0
            &&& s.prefix is None
            &&& s.typed.len() == 0
            &&& !s.overflow
            &&& !s.in_paste
        }),
{
}

/// The keys by the bytes that terminals send for them.
pub proof fn law_keys_by_their_bytes(token: Seq<u8>, byte: u8)
    ensures
        crate::gate::is_enter(byte) <==> byte == 0x0d || byte == 0x0a,
        crate::gate::printable(byte) <==> 0x20 <= byte <= 0x7e,
        crate::gate::is_ctrl_bracket(token) <==> token == seq![0x1du8] || token
            == seq![0x1bu8, 0x5b, 0x39, 0x33, 0x3b, 0x35, 0x75],
        crate::gate::is_lock_key(token) <==> token == seq![0x6cu8] || token
            == seq![0x1bu8, 0x5b, 0x31, 0x30, 0x38, 0x75],
        crate::gate::paste_marker(token) == Some(true) <==> token
            == seq![0x1bu8, 0x5b, 0x32, 0x30, 0x30, 0x7e],
        crate::gate::paste_marker(token) == Some(false) <==> token
            == seq![0x1bu8, 0x5b, 0x32, 0x30, 0x31, 0x7e],
{
    assert(crate::gate::KITTY_CTRL_BRACKET@ =~= seq![0x1bu8, 0x5b, 0x39, 0x33, 0x3b, 0x35, 0x75]);
    assert(crate::gate::KITTY_L@ =~= seq![0x1bu8, 0x5b, 0x31, 0x30, 0x38, 0x75]);
    assert(PASTE_START@ =~= seq![0x1bu8, 0x5b, 0x32, 0x30, 0x30, 0x7e]);
    assert(PASTE_END@ =~= seq![0x1bu8, 0x5b, 0x32, 0x30, 0x31, 0x7e]);
    assert(PASTE_START@[4] != PASTE_END@[4]);
}

/// Changing the lock from outside sets the lock and keeps the phrase, whether
/// the hotkey is on, and whether a paste is under way. Where the lock is so
/// already, nothing changes at all.
pub proof fn law_lock_from_outside_keeps_the_rest(s: GateState, locked: bool)
    ensures
        s.with_lock(locked).locked == locked,
        s.with_lock(locked).phrase == s.phrase,
        s.with_lock(locked).hotkey == s.hotkey,
        s.with_lock(locked).in_paste == s.in_paste,
        s.locked == locked ==> s.with_lock(locked) == s,
{
}

/// No input changes the phrase, or whether the hotkey is on.
pub proof fn law_settings_never_change(s: GateState, input: Seq<u8>)
    ensures
        s.fed(input).0.phrase == s.phrase,
        s.fed(input).0.hotkey == s.hotkey,
        s.flushed().0.phrase == s.phrase,
        s.flushed().0.hotkey == s.hotkey,
    decreases input.len(),
{
    if input.len() > 0 {
        law_settings_never_change(s, input.drop_last());
    }
}

/// However a gate was locked, from outside or with the hotkey, the phrase and
/// Enter unlock it, and it is as it was before but for half-typed input.
pub proof fn law_phrase_unlocks_however_locked(
    s: GateState,
    bracket: Seq<u8>,
    letter: Seq<u8>,
    phrase: Seq<u8>,
    enter: u8,
)
    requires
        !s.locked,
        !s.in_paste,
        s.phrase == Some(phrase),
        phrase.len() <= PHRASE_CAP,
        forall|i: int| 0 <= i < phrase.len() ==> crate::gate::printable(#[trigger] phrase[i]),
        crate::gate::is_enter(enter),
        crate::gate::is_ctrl_bracket(bracket),
        crate::gate::is_lock_key(letter),
    ensures
        ({
            let (after, out) = s.with_lock(true).fed(phrase.push(enter));
            &&& !after.locked
            &&& after.phrase == s.phrase
            &&& after.hotkey == s.hotkey
            &&& !after.in_paste
            &&& after.partial.len() == 0
            &&& after.prefix is None
            &&& after.typed.len() == 0
            &&& out.forward.len() == 0
            &&& out.events == seq![Event::DroppedInput, Event::Unlock]
        }),
        s.hotkey && s.partial.len() == 0 && s.prefix is None ==> ({
            let (after, out) = s.fed(bracket + letter).0.fed(phrase.push(enter));
            &&& after == s.line_cleared()
            &&& out.forward.len() == 0
            &&& out.events == seq![Event::DroppedInput, Event::Unlock]
        }),
{
    law_line_unlocks_iff_phrase(s.with_lock(true), phrase, enter);
    if s.hotkey && s.partial.len() == 0 && s.prefix is None {
        law_hotkey_locks(s, bracket, letter);
        let locked = s.fed(bracket + letter).0;
        law_line_unlocks_iff_phrase(locked, phrase, enter);
        assert(locked.fed(phrase.push(enter)).0 =~= s.line_cleared());
    }
}

proof fn lemma_sequence_is_one_token(seq: Seq<u8>)
    requires
        seq.len() >= 2,
        seq[0] == ESC,
        crate::gate::sequence_ends(seq),
        forall|n: int|
            2 <= n < seq.len() ==> !crate::gate::sequence_ends(#[trigger] seq.take(n)),
    ensures
        one_token(seq),
{
    let open = seq.len() - 1;
    lemma_sequence_stays_open(seq, open);
    assert(seq.drop_last() =~= seq.take(open));
    assert(seq.take(open).push(seq.last()) =~= seq);
    assert(Seq::<Seq<u8>>::empty().push(seq) =~= seq![seq]);
}

proof fn lemma_sequence_stays_open(seq: Seq<u8>, n: int)
    requires
        0 <= n < seq.len(),
        seq[0] == ESC,
        forall|m: int|
            2 <= m < seq.len() ==> !crate::gate::sequence_ends(#[trigger] seq.take(m)),
    ensures
        tokens_of(seq.take(n)) == (Seq::<Seq<u8>>::empty(), seq.take(n)),
    decreases n,
{
    if n == 0 {
        assert(seq.take(0) =~= Seq::empty());
    } else {
        lemma_sequence_stays_open(seq, n - 1);
        assert(seq.take(n).drop_last() =~= seq.take(n - 1));
        assert(seq.take(n).last() == seq[n - 1]);
        assert(seq.take(n - 1).push(seq[n - 1]) =~= seq.take(n));
        if n >= 2 {
            assert(!crate::gate::sequence_ends(seq.take(n)));
        }
    }
}

/// A mouse report: `ESC [ M` and three bytes of any kind.
pub open spec fn mouse_report(seq: Seq<u8>) -> bool {
    seq.len() == 6 && seq[0] == ESC && seq[1] == 0x5b && seq[2] == 0x4d
}

/// A function key: `ESC O` and one byte.
pub open spec fn function_key(seq: Seq<u8>) -> bool {
    seq.len() == 3 && seq[0] == ESC && seq[1] == 0x4f
}

/// A key with Alt: an escape and one byte that opens nothing longer.
pub open spec fn alt_key(seq: Seq<u8>) -> bool {
    &&& seq.len() == 2
    &&& seq[0] == ESC
    &&& seq[1] != 0x5b && seq[1] != 0x4f && seq[1] != 0x5d
    &&& seq[1] != 0x50 && seq[1] != 0x5f && seq[1] != 0x5e
}

/// `ESC` and `]`, `P`, `_` or `^`, which open a string.
pub open spec fn string_opens(seq: Seq<u8>) -> bool {
    &&& seq.len() >= 2
    &&& seq[0] == ESC
    &&& seq[1] == 0x5d || seq[1] == 0x50 || seq[1] == 0x5f || seq[1] == 0x5e
}

/// The byte at `i` ends a string that has been opened: a bell does for `ESC ]`,
/// the string terminator for all.
pub open spec fn string_ends_at(seq: Seq<u8>, i: int) -> bool {
    ||| i >= 2 && seq[1] == 0x5d && seq[i] == 0x07
    ||| i >= 3 && seq[i - 1] == ESC && seq[i] == 0x5c
}

/// A string that ends with its last byte, and not before.
pub open spec fn string_sequence(seq: Seq<u8>) -> bool {
    &&& string_opens(seq)
    &&& 3 <= seq.len() <= MAX_SEQUENCE
    &&& string_ends_at(seq, seq.len() - 1)
    &&& forall|i: int| 2 <= i < seq.len() - 1 ==> !#[trigger] string_ends_at(seq, i)
}

/// A sequence that has grown to the limit without an end.
pub open spec fn endless_sequence(seq: Seq<u8>) -> bool {
    &&& seq.len() == MAX_SEQUENCE
    &&& ({
        ||| string_opens(seq) && forall|i: int|
            2 <= i < seq.len() - 1 ==> !#[trigger] string_ends_at(seq, i)
        ||| seq[0] == ESC && seq[1] == 0x5b && seq[2] != 0x4d && forall|i: int|
            2 <= i < seq.len() - 1 ==> !(0x40 <= #[trigger] seq[i] <= 0x7e)
    })
}

/// What a terminal sends for one key, report or reply is one token: a byte, a
/// key with Alt, a function key, a mouse report, a control sequence or a
/// string. A sequence without an end is cut at the limit.
pub proof fn law_keys_and_reports_are_one_token(seq: Seq<u8>)
    requires
        (seq.len() == 1 && seq[0] != ESC) || alt_key(seq) || function_key(seq)
            || mouse_report(seq) || control_sequence(seq) || string_sequence(seq)
            || endless_sequence(seq),
    ensures
        one_token(seq),
{
    if seq.len() == 1 {
        assert(seq.drop_last() =~= Seq::empty());
        assert(tokens_of(Seq::empty()) == (Seq::<Seq<u8>>::empty(), Seq::<u8>::empty()));
        assert(seq![seq[0]] =~= seq);
        assert(Seq::<Seq<u8>>::empty().push(seq) =~= seq![seq]);
    } else {
        assert forall|n: int| 2 <= n < seq.len() implies !crate::gate::sequence_ends(
            #[trigger] seq.take(n),
        ) by {
            let open = seq.take(n);
            assert(open[1] == seq[1]);
            assert(open.last() == seq[n - 1]);
            assert(!string_ends_at(seq, n - 1) || n == 2 || !(string_sequence(seq)
                || endless_sequence(seq) && string_opens(seq)));
            if n >= 3 {
                assert(open[2] == seq[2]);
                assert(open[open.len() - 2] == seq[n - 2]);
            }
        }
        assert(crate::gate::sequence_ends(seq));
        lemma_sequence_is_one_token(seq);
    }
}

/// An escape alone is not a token yet.
pub proof fn law_lone_escape_waits()
    ensures
        tokens_of(seq![ESC]) == (Seq::<Seq<u8>>::empty(), seq![ESC]),
{
    assert(seq![ESC].drop_last() =~= Seq::empty());
    assert(tokens_of(Seq::empty()) == (Seq::<Seq<u8>>::empty(), Seq::<u8>::empty()));
    assert(Seq::<u8>::empty().push(ESC) =~= seq![ESC]);
}

/// A key that cannot belong to a phrase: anything but printable ASCII, Enter
/// and what marks a paste.
pub open spec fn breaks_the_line(key: Seq<u8>) -> bool {
    &&& one_token(key)
    &&& crate::gate::paste_marker(key) is None
    &&& key.len() == 1 ==> !(0x20 <= key[0] <= 0x7e) && key[0] != 0x0d && key[0] != 0x0a
}

/// However much of a wrong line has been typed into a locked gate, any key that
/// cannot belong to a phrase starts the line again: the phrase and Enter unlock
/// after it.
pub proof fn law_line_can_be_started_again(
    s: GateState,
    key: Seq<u8>,
    phrase: Seq<u8>,
    enter: u8,
)
    requires
        s.locked,
        s.partial.len() == 0,
        !s.in_paste,
        s.phrase == Some(phrase),
        phrase.len() <= PHRASE_CAP,
        forall|i: int| 0 <= i < phrase.len() ==> crate::gate::printable(#[trigger] phrase[i]),
        breaks_the_line(key),
        crate::gate::is_enter(enter),
    ensures
        ({
            let (between, dropped) = s.fed(key);
            let (after, out) = between.fed(phrase.push(enter));
            &&& between.locked
            &&& dropped.forward.len() == 0
            &&& dropped.events == seq![Event::DroppedInput]
            &&& !after.locked
            &&& out.forward.len() == 0
            &&& out.events == seq![Event::DroppedInput, Event::Unlock]
        }),
{
    let none = crate::gate::no_effect();
    lemma_one_token(s, none, key);
    let (between, dropped) = s.fed(key);
    assert(!Seq::<Event>::empty().contains(Event::DroppedInput));
    assert(dropped.events =~= seq![Event::DroppedInput]);
    law_line_unlocks_iff_phrase(between, phrase, enter);
}

/// Enter ends the line, right or wrong: a locked gate is unlocked if and only
/// if the line is the phrase and was not too long, and starts a new one.
pub proof fn law_enter_ends_the_line(s: GateState, enter: u8)
    requires
        s.locked,
        s.partial.len() == 0,
        !s.in_paste,
        s.phrase is Some,
        crate::gate::is_enter(enter),
    ensures
        ({
            let (after, out) = s.fed(seq![enter]);
            &&& after.locked <==> !(s.phrase == Some(s.typed) && !s.overflow)
            &&& after.typed.len() == 0
            &&& !after.overflow
            &&& after.phrase == s.phrase
            &&& out.forward.len() == 0
        }),
{
    lemma_single_byte(s, crate::gate::no_effect(), enter);
}

/// A flush takes an incomplete escape sequence as a key. An unlocked gate
/// forwards it behind a Ctrl+] that waited; a locked one drops it, and the line
/// starts again. Without one, a flush does nothing at all.
pub proof fn law_flush_takes_what_is_incomplete(s: GateState)
    requires
        crate::gate::gate_invariant(s),
    ensures
        s.partial.len() == 0 ==> s.flushed() == (s, crate::gate::no_effect()),
        s.partial.len() > 0 && !s.locked ==> s.flushed() == (
            GateState { partial: Seq::empty(), prefix: None, ..s },
            Effect { forward: waiting_prefix(s) + s.partial, events: Seq::empty() },
        ),
        s.partial.len() > 0 && s.locked ==> s.flushed() == (
            GateState { partial: Seq::empty(), typed: Seq::empty(), overflow: false, ..s },
            Effect { forward: Seq::empty(), events: seq![Event::DroppedInput] },
        ),
{
    if s.partial.len() > 0 {
        let letter = crate::gate::KITTY_L@;
        let bracket = crate::gate::KITTY_CTRL_BRACKET@;
        let start = PASTE_START@;
        let end = PASTE_END@;
        assert(letter.len() == 6 && letter[1] == 0x5b && letter[2] == 0x31 && letter[5] == 0x75);
        assert(bracket.len() == 7 && bracket[1] == 0x5b && bracket[2] == 0x39 && bracket[6]
            == 0x75);
        assert(start.len() == 6 && start[1] == 0x5b && start[2] == 0x32 && start[5] == 0x7e);
        assert(end.len() == 6 && end[1] == 0x5b && end[2] == 0x32 && end[5] == 0x7e);
        assert(seq![LOCK_KEY][0] == LOCK_KEY && seq![CTRL_BRACKET][0] == CTRL_BRACKET);
        let (after, out) = s.flushed();
        assert(!Seq::<Event>::empty().contains(Event::DroppedInput));
        if s.locked {
            assert(s.typed.len() == 0 ==> s.typed =~= Seq::empty());
            assert(after =~= (GateState {
                partial: Seq::empty(),
                typed: Seq::empty(),
                overflow: false,
                ..s
            }));
            assert(out.events =~= seq![Event::DroppedInput]);
            assert(out.forward =~= Seq::empty());
        } else {
            assert(after =~= (GateState { partial: Seq::empty(), prefix: None, ..s }));
            assert(out.forward =~= waiting_prefix(s) + s.partial);
            assert(out.events =~= Seq::empty());
        }
    }
}

/// A locked gate reports dropped input whenever a key is complete; an unlocked
/// one reports none unless it has been locked.
pub proof fn law_dropped_keys_are_reported(s: GateState, input: Seq<u8>)
    requires
        s.partial.len() == 0,
    ensures
        s.locked && tokens_of(input).0.len() > 0 ==> s.fed(input).1.events.contains(
            Event::DroppedInput,
        ),
        !s.locked && !s.fed(input).1.events.contains(Event::Lock) ==> {
            &&& !s.fed(input).1.events.contains(Event::DroppedInput)
            &&& !s.fed(input).0.locked
        },
{
    let none = crate::gate::no_effect();
    law_input_is_read_as_tokens(s, none, input);
    lemma_dropped_tokens_are_reported(s, tokens_of(input).0);
}

proof fn lemma_dropped_tokens_are_reported(s: GateState, tokens: Seq<Seq<u8>>)
    ensures
        ({
            let (after, out) = tokens_next(s, crate::gate::no_effect(), tokens);
            &&& s.locked && tokens.len() > 0 ==> out.events.contains(Event::DroppedInput)
            &&& !s.locked && !out.events.contains(Event::Lock) ==> {
                &&& !out.events.contains(Event::DroppedInput)
                &&& !after.locked
            }
        }),
    decreases tokens.len(),
{
    if tokens.len() > 0 {
        lemma_dropped_tokens_are_reported(s, tokens.drop_last());
        let (before, so_far) = tokens_next(s, crate::gate::no_effect(), tokens.drop_last());
        let reaction = before.token_next(tokens.last()).1;
        lemma_followed_by(so_far, reaction);
        lemma_change_is_reported(so_far, reaction);
        let after = so_far.followed_by(reaction).events;
        if so_far.events.contains(Event::Lock) {
            let i = choose|i: int| 0 <= i < so_far.events.len() && so_far.events[i] == Event::Lock;
            assert(after[i] == Event::Lock);
        }
        if tokens.len() == 1 {
            assert(tokens.drop_last() =~= Seq::empty());
            assert(before == s);
        }
    }
}

/// Whether a paste is under way depends only on what marks pastes: it stays so
/// through input without a mark, and a mark decides it.
pub proof fn law_marks_tell_of_a_paste(s: GateState, input: Seq<u8>, mark: Seq<u8>)
    requires
        s.partial.len() == 0,
        forall|i: int|
            0 <= i < tokens_of(input).0.len() ==> crate::gate::paste_marker(
                #[trigger] tokens_of(input).0[i],
            ) is None,
    ensures
        s.fed(input).0.in_paste == s.in_paste,
        mark == PASTE_START@ ==> s.fed(mark).0.in_paste,
        mark == PASTE_END@ ==> !s.fed(mark).0.in_paste,
{
    let none = crate::gate::no_effect();
    law_input_is_read_as_tokens(s, none, input);
    lemma_unmarked_tokens(s, tokens_of(input).0);
    if mark == PASTE_START@ || mark == PASTE_END@ {
        assert(mark.len() == 6);
        assert(PASTE_START@[4] == 0x30 && PASTE_END@[4] == 0x31);
        assert(control_sequence(mark));
        law_control_sequence_is_one_token(mark);
        lemma_one_token(s, none, mark);
    }
}

proof fn lemma_unmarked_tokens(s: GateState, tokens: Seq<Seq<u8>>)
    requires
        forall|i: int|
            0 <= i < tokens.len() ==> crate::gate::paste_marker(#[trigger] tokens[i]) is None,
    ensures
        tokens_next(s, crate::gate::no_effect(), tokens).0.in_paste == s.in_paste,
    decreases tokens.len(),
{
    if tokens.len() > 0 {
        assert forall|i: int| 0 <= i < tokens.drop_last().len() implies crate::gate::paste_marker(
            #[trigger] tokens.drop_last()[i],
        ) is None by {
            assert(crate::gate::paste_marker(tokens[i]) is None);
        }
        lemma_unmarked_tokens(s, tokens.drop_last());
        assert(crate::gate::paste_marker(tokens[tokens.len() - 1]) is None);
    }
}

/// The output of a `Gate` stands for the bytes and events that it holds.
pub proof fn law_output_by_its_fields(out: crate::gate::Output)
    ensures
        out@.forward == out.forward@,
        out@.events == out.events@,
        crate::gate::no_effect().forward.len() == 0,
        crate::gate::no_effect().events.len() == 0,
{
}

} // verus!
