//! What a session promises.

use crate::control::Request;
use crate::fault::Fault;
use crate::gate::{Effect, Event};
use crate::relay::{
    Config, RelayState, Signal, SignalStep, Step, ESCAPE_TIMEOUT, FLASH, MAX_PENDING_INPUT,
    MILLISECOND,
};
use crate::text::{BEL, ESC};
use crate::title::{FilterState, State, MAX_OSC};
use vstd::prelude::*;

verus! {

proof fn lemma_reported(s: RelayState, events: Seq<Event>, now: u64)
    ensures
        ({
            let after = s.reported(events, now);
            &&& after.gate == s.gate
            &&& after.title == s.title
            &&& after.to_child == s.to_child
        }),
    decreases events.len(),
{
    if events.len() > 0 {
        lemma_reported(s, events.drop_last(), now);
    }
}

/// While a session is locked, nothing that is typed gets to the command: its
/// queue stays as it is, unless the phrase has unlocked the session. An escape
/// sequence that was never completed does not get there either.
pub proof fn law_locked_input_is_dropped(s: RelayState, input: Seq<u8>, now: u64)
    requires
        s.gate.locked,
        crate::gate::gate_invariant(s.gate),
    ensures
        s.gate.fed(input).1.events.contains(Event::Unlock) || (s.typed(input, now).to_child
            == s.to_child && s.typed(input, now).gate.locked),
        s.escape_settled(now).to_child == s.to_child,
        s.escape_settled(now).gate.locked,
{
    crate::gate_laws::law_locked_drops_everything(s.gate, input);
    crate::gate_laws::law_flush_keeps_the_lock(s.gate);
    let (gate, effect) = s.gate.fed(input);
    let fed = RelayState { gate, last_input: now, ..s };
    law_input_is_queued_whole(fed, effect, now);
    assert(effect.forward.len() == 0 ==> s.to_child + effect.forward =~= s.to_child);
    let (flushed_gate, flushed_effect) = s.gate.flushed();
    let flushed = RelayState { gate: flushed_gate, ..s };
    law_input_is_queued_whole(flushed, flushed_effect, now);
    assert(flushed_effect.forward.len() == 0 ==> s.to_child + flushed_effect.forward
        =~= s.to_child);
}

/// What a `Gate` forwards is queued for the command whole or lost whole, and
/// only what would overfill the queue is lost: a queue within its limit stays
/// within it. Without an event nothing is queued for the user.
pub proof fn law_input_is_queued_whole(s: RelayState, effect: Effect, now: u64)
    ensures
        ({
            let after = s.applied(effect, now);
            &&& after.to_child == if s.to_child.len() + effect.forward.len() <= MAX_PENDING_INPUT {
                s.to_child + effect.forward
            } else {
                s.to_child
            }
            &&& s.to_child.len() <= MAX_PENDING_INPUT ==> after.to_child.len()
                <= MAX_PENDING_INPUT
            &&& effect.events.len() == 0 ==> after.to_user == s.to_user
            &&& after.gate == s.gate
            &&& after.title == s.title
        }),
{
    lemma_reported(s.queued(effect.forward), effect.events, now);
}

/// Input without the hotkey gets to the command of an unlocked session as it
/// was typed, if there is room for it; an incomplete escape sequence waits.
pub proof fn law_unlocked_input_is_queued(s: RelayState, input: Seq<u8>, now: u64)
    requires
        !s.gate.locked,
        s.gate.prefix is None,
        s.gate.hotkey ==> forall|bracket: Seq<u8>|
            #[trigger] crate::gate::is_ctrl_bracket(bracket) ==> !crate::gate_laws::occurs_in(
                bracket,
                s.gate.partial + input,
            ),
        s.to_child.len() + s.gate.partial.len() + input.len() <= MAX_PENDING_INPUT,
    ensures
        s.typed(input, now).to_child + s.typed(input, now).gate.partial == s.to_child
            + s.gate.partial + input,
{
    crate::gate_laws::law_unlocked_input_is_forwarded(s.gate, input);
    let (gate, effect) = s.gate.fed(input);
    law_input_is_queued_whole(RelayState { gate, last_input: now, ..s }, effect, now);
    assert((effect.forward + gate.partial).len() == (s.gate.partial + input).len());
    assert(s.to_child + effect.forward + gate.partial =~= s.to_child + (effect.forward
        + gate.partial));
    assert(s.to_child + (s.gate.partial + input) =~= s.to_child + s.gate.partial + input);
}

/// A new session has its invariant.
pub proof fn law_new_session_invariant(config: Config, name: Seq<char>, pid: u32, now: u64)
    ensures
        crate::relay::session_invariant(crate::relay::new_relay(config, name, pid, now)),
{
}

/// A session keeps its invariant whatever is typed.
pub proof fn law_typing_keeps_the_invariant(s: RelayState, input: Seq<u8>, now: u64)
    requires
        crate::relay::session_invariant(s),
    ensures
        crate::relay::session_invariant(s.typed(input, now)),
{
    crate::gate_laws::law_gate_invariant(s.gate, input, true);
    let (gate, effect) = s.gate.fed(input);
    law_input_is_queued_whole(RelayState { gate, last_input: now, ..s }, effect, now);
}

/// A session keeps its invariant whatever time it is.
pub proof fn law_time_keeps_the_invariant(s: RelayState, now: u64)
    requires
        crate::relay::session_invariant(s),
    ensures
        crate::relay::session_invariant(s.escape_settled(now).flash_settled(now)),
{
    crate::gate_laws::law_gate_invariant(s.gate, Seq::empty(), true);
    let (gate, effect) = s.gate.flushed();
    law_input_is_queued_whole(RelayState { gate, ..s }, effect, now);
}

/// A session keeps its invariant in everything else that it does: when it
/// begins, when input is written to the command, when the command writes or
/// closes its side, when requests come and when its own output goes out.
pub proof fn law_session_invariant(
    s: RelayState,
    written: Result<usize, Fault>,
    chunk: Seq<u8>,
    request: Request,
    changed: bool,
)
    requires
        crate::relay::session_invariant(s),
        written matches Ok(count) ==> count <= s.to_child.len(),
    ensures
        crate::relay::session_invariant(s.started()),
        crate::relay::session_invariant(s.input_settled()),
        crate::relay::session_invariant(s.input_written(written)),
        crate::relay::session_invariant(s.chunk_shown(chunk).0),
        crate::relay::session_invariant(s.pty_closed()),
        crate::relay::session_invariant(s.asked(request)),
        crate::relay::session_invariant(s.served(changed)),
        crate::relay::session_invariant(s.emitted()),
{
    crate::gate_laws::law_gate_invariant(s.gate, Seq::empty(), true);
    crate::gate_laws::law_gate_invariant(s.gate, Seq::empty(), false);
    crate::title::law_filter_invariant(s.title, chunk, s.gate.locked);
}

/// The title that a session shows starts with the lock exactly while it is
/// locked; the rest is the title without a lock.
pub proof fn law_title_shows_the_lock(s: RelayState)
    ensures
        s.shown_title() == (if s.gate.locked {
            crate::title::lock_prefix()
        } else {
            Seq::empty()
        }) + s.base_title(),
        crate::text::ends_with(
            s.title_queued().to_user,
            crate::title::title_sequence(s.shown_title()),
        ),
{
    assert(Seq::<u8>::empty() + s.base_title() =~= s.base_title());
    let title = crate::title::title_sequence(s.shown_title());
    assert((s.to_user + title).skip(s.to_user.len() as int) =~= title);
}

/// When typing has locked or unlocked the session, the last thing queued for
/// the user is the title of the new state.
pub proof fn law_typed_change_shows_in_the_title(s: RelayState, input: Seq<u8>, now: u64)
    requires
        s.gate.fed(input).1.events.len() > 0,
        s.gate.fed(input).1.events.last() != Event::DroppedInput,
    ensures
        crate::text::ends_with(
            s.typed(input, now).to_user,
            crate::title::title_sequence(s.typed(input, now).shown_title()),
        ),
        s.typed(input, now).flash_until is None,
{
    let (gate, effect) = s.gate.fed(input);
    let fed = RelayState { gate, last_input: now, ..s };
    let queued = fed.queued(effect.forward);
    let before = queued.reported(effect.events.drop_last(), now);
    let settled = RelayState { flash_until: None, ..before };
    law_title_shows_the_lock(settled);
    assert(s.typed(input, now) == settled.title_queued());
}

/// When requests have locked or unlocked the session, the last thing queued for
/// the user is the title of the new state; other requests queue nothing.
pub proof fn law_change_from_outside_shows_in_the_title(s: RelayState, request: Request)
    ensures
        crate::text::ends_with(
            s.served(true).to_user,
            crate::title::title_sequence(s.served(true).shown_title()),
        ),
        ({
            let changed = s.asked(request).gate.locked != s.gate.locked;
            let after = s.asked(request).served(changed);
            &&& changed ==> crate::text::ends_with(
                after.to_user,
                crate::title::title_sequence(after.shown_title()),
            ) && after.flash_until is None
            &&& !changed ==> after.to_user == s.to_user
        }),
{
    law_title_shows_the_lock(RelayState { flash_until: None, ..s });
    law_title_shows_the_lock(RelayState { flash_until: None, ..s.asked(request) });
}

/// When input is dropped, the bell rings and the hint about unlocking is
/// shown, unless that happened a short while ago.
pub proof fn law_dropped_input_is_noticed(s: RelayState, input: Seq<u8>, now: u64)
    requires
        s.gate.fed(input).1.events == seq![Event::DroppedInput],
        now >= s.next_flash,
    ensures
        s.typed(input, now).to_user == s.to_user + seq![BEL] + crate::title::title_sequence(
            vstd::utf8::encode_utf8(crate::relay::hint(s.name)),
        ),
{
    let (gate, effect) = s.gate.fed(input);
    let fed = RelayState { gate, last_input: now, ..s };
    let queued = fed.queued(effect.forward);
    assert(effect.events.drop_last() =~= Seq::empty());
    assert(queued.reported(Seq::empty(), now) == queued);
    assert(effect.events.last() == Event::DroppedInput);
}

/// The hint is not repeated before it has been shown for its time.
pub proof fn law_hint_is_not_repeated(s: RelayState, now: u64, next: u64)
    requires
        now >= s.next_flash,
        next < crate::relay::later(now, FLASH),
    ensures
        s.flashed(now).flashed(next) == s.flashed(now),
{
}

/// The hint is shown briefly: once its time is over, and not before, the title
/// of a session that is still locked is shown again.
pub proof fn law_hint_is_brief(s: RelayState, now: u64, next: u64)
    requires
        now >= s.next_flash,
    ensures
        ({
            let hinted = s.flashed(now);
            let after = hinted.flash_settled(next);
            if next < crate::relay::later(now, FLASH) {
                after == hinted
            } else {
                &&& after.flash_until is None
                &&& s.gate.locked ==> crate::text::ends_with(
                    after.to_user,
                    crate::title::title_sequence(after.shown_title()),
                )
            }
        }),
{
    let hinted = s.flashed(now);
    law_title_shows_the_lock(RelayState { flash_until: None, ..hinted });
}

/// A request to lock or unlock leaves the session so, whatever it was; asked
/// again, it changes nothing. Asking for the state never changes anything.
pub proof fn law_requests_set_the_lock(s: RelayState, request: Request)
    ensures
        s.asked(Request::Lock).gate.locked,
        !s.asked(Request::Unlock).gate.locked,
        s.asked(Request::Status) == s,
        s.asked(request).asked(request) == s.asked(request),
        s.asked(request).to_child == s.to_child,
{
}

/// A session unlocked from outside lets through nothing that was typed while
/// it was locked: no key waits in its `Gate`.
pub proof fn law_unlocking_from_outside_leaks_nothing(s: RelayState, now: u64)
    requires
        s.gate.locked,
    ensures
        s.asked(Request::Unlock).gate.partial.len() == 0,
        s.asked(Request::Unlock).gate.prefix is None,
        s.asked(Request::Unlock).escape_settled(now).to_child == s.to_child,
{
}

/// The poll timeout is neither too short nor much too long: when it is over
/// something is due, and a millisecond before it was not over.
pub proof fn law_timeout_reaches_the_next_timer(s: RelayState, now: u64, wait: u64)
    requires
        s.next_timer(now) == Some(wait),
        wait / MILLISECOND < i32::MAX,
        s.last_input + ESCAPE_TIMEOUT <= u64::MAX,
    ensures
        ({
            let timeout = crate::relay::timeout_for(Some(wait));
            &&& timeout >= 1
            &&& (timeout - 1) * MILLISECOND <= wait < timeout * MILLISECOND
        }),
        forall|at: u64|
            at >= now + wait ==> #[trigger] s.escape_due(at) || (s.flash_until matches Some(
                until,
            ) && until <= at),
{
    let timeout = crate::relay::timeout_for(Some(wait));
    assert(wait / MILLISECOND == wait / 1_000_000);
    assert((timeout - 1) * MILLISECOND <= wait < timeout * MILLISECOND) by (nonlinear_arith)
        requires
            timeout == wait / 1_000_000 + 1,
            MILLISECOND == 1_000_000,
    ;
}

/// Every round ends with the timers and with what keylock has to show, and
/// signals come before everything else.
pub proof fn law_order_of_a_round(ready: crate::relay::Ready)
    ensures
        ({
            let steps = crate::relay::steps_for(ready);
            &&& steps.len() >= 2
            &&& steps[steps.len() - 2] == Step::Timers
            &&& steps[steps.len() - 1] == Step::Emit
            &&& ready.signals ==> steps[0] == Step::Signals
        }),
{
}

/// A new session is as it was asked for: nothing waits, and the hint can be
/// shown at once.
pub proof fn law_new_session(config: Config, name: Seq<char>, pid: u32, now: u64)
    ensures
        ({
            let s = crate::relay::new_relay(config, name, pid, now);
            &&& s.gate.locked == config.locked
            &&& s.gate.hotkey == config.hotkey
            &&& s.gate.phrase == match config.phrase {
                Some(phrase) => Some(vstd::utf8::encode_utf8(phrase@)),
                None => None,
            }
            &&& s.gate.partial.len() == 0 && s.gate.prefix is None && !s.gate.in_paste
            &&& s.gate.typed.len() == 0 && !s.gate.overflow
            &&& s.command_line == crate::text::joined(crate::text::texts(config.command@), " "@)
            &&& s.last_input == now
            &&& s.title == crate::title::fresh_filter()
            &&& s.pty_open
            &&& s.name == name
            &&& s.pid == pid
            &&& s.to_child.len() == 0
            &&& s.to_user.len() == 0
            &&& s.flash_until is None
            &&& s.next_flash == now
        }),
{
}

/// The session has the same name, process and command line.
pub open spec fn same_identity(before: RelayState, after: RelayState) -> bool {
    &&& after.name == before.name
    &&& after.pid == before.pid
    &&& after.command_line == before.command_line
}

/// Typing concerns the lock, the command's input and what is shown of it: the
/// command's output and the session itself stay as they are.
pub proof fn law_typing_keeps_the_rest(s: RelayState, input: Seq<u8>, now: u64)
    ensures
        ({
            let after = s.typed(input, now);
            let (gate, effect) = s.gate.fed(input);
            let fits = s.to_child.len() + effect.forward.len() <= MAX_PENDING_INPUT;
            &&& after.gate == gate
            &&& after.title == s.title
            &&& after.pty_open == s.pty_open
            &&& after.last_input == now
            &&& after.to_child == if fits {
                s.to_child + effect.forward
            } else {
                s.to_child
            }
            &&& after.to_user == RelayState { gate, ..s }.reported(effect.events, now).to_user
            &&& same_identity(s, after)
        }),
        ({
            let after = s.escape_settled(now).flash_settled(now);
            &&& after.gate == if s.gate.partial.len() > 0 && now >= s.last_input + ESCAPE_TIMEOUT {
                s.gate.flushed().0
            } else {
                s.gate
            }
            &&& after.title == s.title
            &&& after.pty_open == s.pty_open
            &&& after.last_input == s.last_input
            &&& same_identity(s, after)
        }),
{
    let (gate, effect) = s.gate.fed(input);
    let fed = RelayState { gate, last_input: now, ..s }.queued(effect.forward);
    lemma_reported_keeps_the_rest(fed, effect.events, now);
    lemma_reported_alike(fed, RelayState { gate, ..s }, effect.events, now);
    let (flushed_gate, flushed_effect) = s.gate.flushed();
    let flushed = RelayState { gate: flushed_gate, ..s }.queued(flushed_effect.forward);
    lemma_reported_keeps_the_rest(flushed, flushed_effect.events, now);
}

proof fn lemma_reported_alike(s: RelayState, t: RelayState, events: Seq<Event>, now: u64)
    requires
        s.gate == t.gate,
        s.title == t.title,
        s.name == t.name,
        s.to_user == t.to_user,
        s.flash_until == t.flash_until,
        s.next_flash == t.next_flash,
    ensures
        ({
            let left = s.reported(events, now);
            let right = t.reported(events, now);
            &&& left.gate == right.gate
            &&& left.title == right.title
            &&& left.name == right.name
            &&& left.to_user == right.to_user
            &&& left.flash_until == right.flash_until
            &&& left.next_flash == right.next_flash
        }),
    decreases events.len(),
{
    if events.len() > 0 {
        lemma_reported_alike(s, t, events.drop_last(), now);
    }
}

proof fn lemma_reported_keeps_the_rest(s: RelayState, events: Seq<Event>, now: u64)
    ensures
        ({
            let after = s.reported(events, now);
            &&& after.gate == s.gate
            &&& after.title == s.title
            &&& after.pty_open == s.pty_open
            &&& after.to_child == s.to_child
            &&& after.last_input == s.last_input
            &&& same_identity(s, after)
        }),
    decreases events.len(),
{
    if events.len() > 0 {
        lemma_reported_keeps_the_rest(s, events.drop_last(), now);
    }
}

/// Writing input to the command takes away exactly what was written: the queue
/// before is what was written followed by the queue after, so each byte gets to
/// the command once and in order. A write that can be made again takes away
/// nothing, and one to a closed terminal everything. Nothing else changes.
pub proof fn law_written_input_leaves_the_queue(s: RelayState, count: usize, fault: Fault)
    requires
        count <= s.to_child.len(),
    ensures
        ({
            let after = s.input_written(Ok(count));
            &&& s.to_child == s.to_child.take(count as int) + after.to_child
            &&& after.to_child.len() == s.to_child.len() - count
            &&& count == s.to_child.len() ==> after.to_child.len() == 0
            &&& after == (RelayState { to_child: after.to_child, ..s })
        }),
        fault == Fault::HungUp ==> s.input_written(Err(fault)).to_child.len() == 0,
        fault != Fault::HungUp ==> s.input_written(Err(fault)).to_child == s.to_child,
        s.input_written(Err(fault)) == (RelayState {
            to_child: s.input_written(Err(fault)).to_child,
            ..s
        }),
        s.pty_open ==> s.input_settled() == s,
        !s.pty_open ==> s.input_settled().to_child.len() == 0,
        s.input_settled() == (RelayState { to_child: s.input_settled().to_child, ..s }),
{
    let after = s.input_written(Ok(count));
    assert(s.to_child =~= s.to_child.take(count as int) + after.to_child);
}

/// What the command writes gets to the user: as it was written while the
/// session is unlocked, but for what is held back, and with a lock in front of
/// each title while it is locked. Nothing but the filter changes, and closing
/// the terminal changes only that.
pub proof fn law_output_passes_through(s: RelayState, chunk: Seq<u8>)
    ensures
        ({
            let (after, shown) = s.chunk_shown(chunk);
            &&& after == (RelayState { title: after.title, ..s })
            &&& !s.gate.locked ==> shown + crate::title::held_back(after.title)
                == crate::title::held_back(s.title) + chunk
            &&& s.gate.locked ==> crate::title::marked_with_locks(
                crate::title::filtered(s.title, chunk, false).1,
                shown,
                crate::title::titles_set(s.title, chunk),
            )
            &&& after.title == crate::title::filtered(s.title, chunk, false).0
        }),
        !s.pty_closed().pty_open,
        s.pty_closed() == (RelayState { pty_open: false, ..s }),
{
    crate::title::law_unlocked_output_is_unchanged(s.title, chunk);
    crate::title::law_locked_output_marks_titles(s.title, chunk);
    crate::title::law_memory_ignores_the_lock(s.title, chunk);
}

/// A request concerns the lock alone; what waits for the command and for the
/// user, the hint and the session itself stay as they are. Only a change of the
/// lock is shown, by exactly one title, and it leaves alone how long the hint is
/// held back.
pub proof fn law_requests_keep_the_rest(s: RelayState, request: Request)
    ensures
        s.asked(request) == (RelayState { gate: s.asked(request).gate, ..s }),
        s.asked(request).gate.phrase == s.gate.phrase,
        s.asked(request).gate.hotkey == s.gate.hotkey,
        s.asked(request).gate.in_paste == s.gate.in_paste,
        s.served(false) == s,
        s.served(true) == (RelayState {
            flash_until: None,
            to_user: s.to_user + crate::title::title_sequence(s.shown_title()),
            ..s
        }),
{
}

/// A session that starts locked shows its title at once, one that does not
/// shows nothing; what goes out is taken from the queue. Nothing else changes.
pub proof fn law_start_and_emission_keep_the_rest(s: RelayState)
    ensures
        s.gate.locked ==> s.started().to_user == s.to_user + crate::title::title_sequence(
            crate::title::lock_prefix() + s.base_title(),
        ),
        !s.gate.locked ==> s.started().to_user == s.to_user,
        s.started() == (RelayState { to_user: s.started().to_user, ..s }),
        s.emitted().to_user.len() == 0,
        s.emitted() == (RelayState { to_user: s.emitted().to_user, ..s }),
{
}

/// The line that a session answers with tells its own state, process and
/// command.
pub proof fn law_session_tells_its_state(s: RelayState)
    ensures
        s.state_text() == crate::control::state_text(s.gate.locked, s.pid, s.command_line),
{
}

/// The title without a lock is the one that the command set last, or else the
/// session's name.
pub proof fn law_base_title(s: RelayState)
    ensures
        s.title.last_title matches Some(title) ==> s.base_title() == title,
        s.title.last_title is None ==> s.base_title() == vstd::utf8::encode_utf8(s.name),
{
}

/// A terminal takes keylock's own titles for titles: what sets the title would,
/// as output of a command, be a title command with that very title, and nothing
/// around it.
pub proof fn law_own_titles_are_titles(f: FilterState, title: Seq<u8>)
    requires
        f.state == State::Ground,
        title.len() + 2 <= MAX_OSC,
        forall|i: int| 0 <= i < title.len() ==> title[i] != BEL && title[i] != ESC,
    ensures
        ({
            let written = crate::title::title_sequence(title);
            let (after, out) = crate::title::filtered(f, written, false);
            &&& after.state == State::Ground
            &&& after.last_title == Some(title)
            &&& out == written
            &&& crate::title_laws::inside_throughout(f, written, false)
        }),
{
    let body = seq![0x32u8, 0x3b] + title;
    assert forall|i: int| 0 <= i < body.len() implies #[trigger] body[i] != BEL && body[i]
        != ESC by {
        if i >= 2 {
            assert(body[i] == title[i - 2]);
        }
    }
    crate::title_laws::law_operating_system_command(f, body, true, false);
    assert(crate::title_laws::whole_osc(body, true) =~= crate::title::title_sequence(title));
    assert(body.skip(2) =~= title);
}

/// The hint ends with the session's name, and is otherwise the same for all.
pub proof fn law_hint_names_the_session(name: Seq<char>)
    ensures
        crate::relay::hint(name) == crate::relay::hint(Seq::empty()) + name,
{
    assert(crate::relay::hint(name) =~= crate::relay::hint(Seq::empty()) + name);
}

/// Events are shown one after the other: a change by the title, dropped input
/// by the hint.
pub proof fn law_events_are_shown_in_order(
    s: RelayState,
    first: Seq<Event>,
    second: Seq<Event>,
    now: u64,
)
    ensures
        s.reported(first + second, now) == s.reported(first, now).reported(second, now),
        s.reported(Seq::empty(), now) == s,
        s.reported(seq![Event::Lock], now) == s.served(true),
        s.reported(seq![Event::Unlock], now) == s.served(true),
        s.reported(seq![Event::DroppedInput], now) == s.flashed(now),
    decreases second.len(),
{
    assert(s.reported(Seq::empty(), now) == s);
    assert(seq![Event::Lock].drop_last() =~= Seq::empty());
    assert(seq![Event::Unlock].drop_last() =~= Seq::empty());
    assert(seq![Event::DroppedInput].drop_last() =~= Seq::empty());
    if second.len() == 0 {
        assert(first + second =~= first);
    } else {
        law_events_are_shown_in_order(s, first, second.drop_last(), now);
        assert((first + second).drop_last() =~= first + second.drop_last());
    }
}

/// What rings the bell and shows the hint.
pub open spec fn hint_bytes(name: Seq<char>) -> Seq<u8> {
    seq![BEL] + crate::title::title_sequence(vstd::utf8::encode_utf8(crate::relay::hint(name)))
}

/// What was queued for the user stays queued, in front.
pub open spec fn only_adds(before: RelayState, after: RelayState) -> bool {
    &&& before.to_user.len() <= after.to_user.len()
    &&& after.to_user.take(before.to_user.len() as int) == before.to_user
}

/// The bell and the hint are in what was added for the user.
pub open spec fn shows_hint(before: RelayState, after: RelayState) -> bool {
    crate::gate_laws::occurs_in(
        hint_bytes(before.name),
        after.to_user.skip(before.to_user.len() as int),
    )
}

/// The hint at a given time: dropped input shows it unless it is held back, and
/// only showing it holds it back, for its length from that time on. Nothing
/// that was queued for the user is lost.
pub open spec fn hint_is_due_or_held_back(
    before: RelayState,
    after: RelayState,
    dropped: bool,
    now: u64,
) -> bool {
    &&& only_adds(before, after)
    &&& after.next_flash == before.next_flash || {
        &&& now >= before.next_flash
        &&& after.next_flash == crate::relay::later(now, FLASH)
        &&& shows_hint(before, after)
    }
    &&& dropped && now >= before.next_flash ==> {
        &&& after.next_flash == crate::relay::later(now, FLASH)
        &&& shows_hint(before, after)
    }
}

/// Input dropped at a time at which the hint is not held back always rings the
/// bell and shows the hint, whatever else happens at that time; locking,
/// unlocking and time hold nothing back.
pub proof fn law_dropped_input_shows_the_hint(s: RelayState, input: Seq<u8>, now: u64)
    ensures
        hint_is_due_or_held_back(
            s,
            s.typed(input, now),
            s.gate.fed(input).1.events.contains(Event::DroppedInput),
            now,
        ),
        hint_is_due_or_held_back(
            s,
            s.escape_settled(now).flash_settled(now),
            s.escape_due(now) && s.gate.flushed().1.events.contains(Event::DroppedInput),
            now,
        ),
        s.gate.locked && s.gate.partial.len() == 0 && crate::gate_laws::tokens_of(input).0.len()
            > 0 && now >= s.next_flash ==> shows_hint(s, s.typed(input, now)),
{
    let (gate, effect) = s.gate.fed(input);
    let fed = RelayState { gate, last_input: now, ..s }.queued(effect.forward);
    lemma_events_and_the_hint(fed, effect.events, now);
    let (flushed_gate, flushed_effect) = s.gate.flushed();
    let flushed = RelayState { gate: flushed_gate, ..s }.queued(flushed_effect.forward);
    lemma_events_and_the_hint(flushed, flushed_effect.events, now);
    let settled = s.escape_settled(now);
    assert(s.to_user.take(s.to_user.len() as int) =~= s.to_user);
    let shown = settled.flash_settled(now).to_user;
    assert(shown.take(settled.to_user.len() as int) =~= settled.to_user);
    lemma_more_for_the_user(s, settled, settled.flash_settled(now));
    if s.gate.partial.len() == 0 {
        crate::gate_laws::law_dropped_keys_are_reported(s.gate, input);
    }
}

proof fn lemma_more_for_the_user(before: RelayState, between: RelayState, after: RelayState)
    requires
        only_adds(before, between),
        between.to_user.len() <= after.to_user.len(),
        after.to_user.take(between.to_user.len() as int) == between.to_user,
    ensures
        only_adds(before, after),
        shows_hint(before, between) ==> shows_hint(before, after),
{
    let n = before.to_user.len() as int;
    assert(after.to_user.take(n) =~= between.to_user.take(n)) by {
        assert forall|i: int| 0 <= i < n implies after.to_user[i] == between.to_user[i] by {
            assert(after.to_user.take(between.to_user.len() as int)[i] == after.to_user[i]);
        }
    }
    let part = hint_bytes(before.name);
    let less = between.to_user.skip(n);
    let more = after.to_user.skip(n);
    if shows_hint(before, between) {
        let i = choose|i: int|
            0 <= i <= less.len() - part.len() && #[trigger] less.subrange(i, i + part.len())
                == part;
        assert forall|j: int| 0 <= j < less.len() implies more[j] == less[j] by {
            assert(after.to_user.take(between.to_user.len() as int)[n + j] == after.to_user[n
                + j]);
        }
        assert(more.subrange(i, i + part.len()) =~= less.subrange(i, i + part.len()));
    }
}

proof fn lemma_events_and_the_hint(s: RelayState, events: Seq<Event>, now: u64)
    ensures
        hint_is_due_or_held_back(
            s,
            s.reported(events, now),
            events.contains(Event::DroppedInput),
            now,
        ),
        s.reported(events, now).name == s.name,
    decreases events.len(),
{
    let after = s.reported(events, now);
    if events.len() == 0 {
        assert(s.to_user.take(s.to_user.len() as int) =~= s.to_user);
    } else {
        lemma_events_and_the_hint(s, events.drop_last(), now);
        let before = s.reported(events.drop_last(), now);
        assert(after.to_user.take(before.to_user.len() as int) =~= before.to_user);
        lemma_more_for_the_user(s, before, after);
        if events.contains(Event::DroppedInput) && events.last() != Event::DroppedInput {
            let i = choose|i: int| 0 <= i < events.len() && events[i] == Event::DroppedInput;
            assert(events.drop_last()[i] == Event::DroppedInput);
        }
        if events.last() == Event::DroppedInput && now >= before.next_flash {
            let part = hint_bytes(s.name);
            let n = s.to_user.len() as int;
            let added = after.to_user.skip(n);
            let i = before.to_user.len() - n;
            assert(added.subrange(i, i + part.len()) =~= part);
        }
    }
}

/// Something that happens in a session.
pub enum Happening {
    Begun,
    Typed { input: Seq<u8>, at: u64 },
    Time { at: u64 },
    Settled,
    Written(Result<usize, Fault>),
    Output(Seq<u8>),
    Closed,
    Asked(Request),
    Served(bool),
    Emitted,
}

/// A session after one thing has happened.
pub open spec fn happened(s: RelayState, happening: Happening) -> RelayState {
    match happening {
        Happening::Begun => s.started(),
        Happening::Typed { input, at } => s.typed(input, at),
        Happening::Time { at } => s.escape_settled(at).flash_settled(at),
        Happening::Settled => s.input_settled(),
        Happening::Written(written) => s.input_written(written),
        Happening::Output(chunk) => s.chunk_shown(chunk).0,
        Happening::Closed => s.pty_closed(),
        Happening::Asked(request) => s.asked(request),
        Happening::Served(changed) => s.served(changed),
        Happening::Emitted => s.emitted(),
    }
}

/// A session after all that has happened.
pub open spec fn lived(s: RelayState, happenings: Seq<Happening>) -> RelayState
    decreases happenings.len(),
{
    if happenings.len() == 0 {
        s
    } else {
        happened(lived(s, happenings.drop_last()), happenings.last())
    }
}

/// When something happened, if that counts.
pub open spec fn time_of(happening: Happening) -> Option<u64> {
    match happening {
        Happening::Typed { input, at } => Some(at),
        Happening::Time { at } => Some(at),
        _ => None,
    }
}

/// The latest time that has come up.
pub open spec fn clock(start: u64, happenings: Seq<Happening>) -> u64
    decreases happenings.len(),
{
    if happenings.len() == 0 {
        start
    } else {
        match time_of(happenings.last()) {
            Some(at) => at,
            None => clock(start, happenings.drop_last()),
        }
    }
}

/// Time does not run backwards.
pub open spec fn in_time(start: u64, happenings: Seq<Happening>) -> bool
    decreases happenings.len(),
{
    happenings.len() > 0 ==> {
        &&& in_time(start, happenings.drop_last())
        &&& time_of(happenings.last()) matches Some(at) ==> at >= clock(
            start,
            happenings.drop_last(),
        )
    }
}

/// When the hint was shown last, or the start if it never was.
pub open spec fn last_hint(s: RelayState, start: u64, happenings: Seq<Happening>) -> u64
    decreases happenings.len(),
{
    if happenings.len() == 0 {
        start
    } else {
        let before = lived(s, happenings.drop_last());
        match time_of(happenings.last()) {
            Some(at) if shows_hint(before, happened(before, happenings.last())) => at,
            _ => last_hint(s, start, happenings.drop_last()),
        }
    }
}

/// Whatever has happened in a session, however it was locked, the hint is held
/// back for no longer than its length after it was shown last. So a key dropped
/// that long after the last hint always rings the bell and shows the hint.
pub proof fn law_hint_comes_back(
    config: Config,
    name: Seq<char>,
    pid: u32,
    start: u64,
    happenings: Seq<Happening>,
    input: Seq<u8>,
    now: u64,
)
    requires
        in_time(start, happenings),
    ensures
        ({
            let new = crate::relay::new_relay(config, name, pid, start);
            let s = lived(new, happenings);
            let free = crate::relay::later(last_hint(new, start, happenings), FLASH);
            &&& s.next_flash <= free
            &&& s.gate.locked && s.gate.partial.len() == 0
                && crate::gate_laws::tokens_of(input).0.len() > 0 && now >= free ==> shows_hint(
                s,
                s.typed(input, now),
            )
        }),
{
    let new = crate::relay::new_relay(config, name, pid, start);
    lemma_hint_comes_back(new, start, happenings);
    law_dropped_input_shows_the_hint(lived(new, happenings), input, now);
}

proof fn lemma_hint_comes_back(s: RelayState, start: u64, happenings: Seq<Happening>)
    requires
        in_time(start, happenings),
        s.next_flash == start,
    ensures
        last_hint(s, start, happenings) <= clock(start, happenings),
        lived(s, happenings).next_flash <= crate::relay::later(
            last_hint(s, start, happenings),
            FLASH,
        ),
    decreases happenings.len(),
{
    if happenings.len() > 0 {
        lemma_hint_comes_back(s, start, happenings.drop_last());
        let before = lived(s, happenings.drop_last());
        match happenings.last() {
            Happening::Typed { input, at } => law_dropped_input_shows_the_hint(before, input, at),
            Happening::Time { at } => law_dropped_input_shows_the_hint(before, Seq::empty(), at),
            _ => {},
        }
    }
}

/// A hint that is shown goes at its time and not before: the title is shown
/// again if the session is locked, and nothing is shown if it is not. Without a
/// hint nothing happens.
pub proof fn law_hint_goes_at_its_time(s: RelayState, until: u64, now: u64)
    ensures
        s.flash_until is None ==> s.flash_settled(now) == s,
        s.flash_until == Some(until) && now < until ==> s.flash_settled(now) == s,
        s.flash_until == Some(until) && now >= until ==> s.flash_settled(now) == (RelayState {
            flash_until: None,
            to_user: if s.gate.locked {
                s.to_user + crate::title::title_sequence(
                    crate::title::lock_prefix() + s.base_title(),
                )
            } else {
                s.to_user
            },
            ..s
        }),
{
}

/// An incomplete escape sequence waits for its time and no longer: before that
/// nothing happens, and once it is over none waits. An unlocked session hands it
/// to the command then, behind a Ctrl+] that waited, if there is room for it.
pub proof fn law_escape_goes_at_its_time(s: RelayState, now: u64)
    requires
        crate::gate::gate_invariant(s.gate),
    ensures
        s.gate.partial.len() == 0 || now < s.last_input + ESCAPE_TIMEOUT ==> s.escape_settled(now)
            == s && !s.escape_due(now),
        s.gate.partial.len() > 0 && now >= s.last_input + ESCAPE_TIMEOUT ==> {
            let sent = crate::gate_laws::waiting_prefix(s.gate) + s.gate.partial;
            &&& s.escape_due(now)
            &&& s.escape_settled(now).gate.partial.len() == 0
            &&& s.escape_settled(now).gate.locked == s.gate.locked
            &&& !s.gate.locked && s.to_child.len() + sent.len() <= MAX_PENDING_INPUT
                ==> s.escape_settled(now).to_child == s.to_child + sent
            &&& s.gate.locked ==> s.escape_settled(now).to_child == s.to_child
        },
{
    crate::gate_laws::law_flush_takes_what_is_incomplete(s.gate);
    let (gate, effect) = s.gate.flushed();
    law_input_is_queued_whole(RelayState { gate, ..s }, effect, now);
    assert(s.gate.locked ==> s.to_child + Seq::<u8>::empty() =~= s.to_child);
}

/// A session waits exactly until the first thing is due: nothing is due before,
/// and without an incomplete escape sequence and without a hint it waits for
/// ever.
pub proof fn law_wait_ends_with_the_first_timer(s: RelayState, now: u64, at: u64)
    requires
        s.last_input + ESCAPE_TIMEOUT <= u64::MAX,
    ensures
        s.next_timer(now) is None <==> s.gate.partial.len() == 0 && s.flash_until is None,
        s.next_timer(now) is None ==> crate::relay::timeout_for(s.next_timer(now)) == -1,
        s.next_timer(now) matches Some(wait) ==> (now <= at < now + wait ==> !s.escape_due(at)
            && (s.flash_until matches Some(until) ==> at < until)),
        s.next_timer(now) matches Some(wait) ==> crate::relay::timeout_for(Some(wait)) >= 1,
{
}

/// Times as far as the clock goes.
pub proof fn law_times(now: u64, delay: u64)
    ensures
        now + delay <= u64::MAX ==> crate::relay::later(now, delay) == now + delay,
        now + delay > u64::MAX ==> crate::relay::later(now, delay) == u64::MAX,
{
}

/// Signals are handled in order and each for itself, up to one that hangs up:
/// a change of size is copied, the end of the command needs nothing, and any
/// other signal is passed on with its own number.
pub proof fn law_signals_are_handled_in_order(
    first: Seq<Signal>,
    second: Seq<Signal>,
    number: i32,
)
    ensures
        !first.contains(Signal::HangUp) ==> {
            let (steps, hang_up) = crate::relay::plan_for(first);
            let (more, then_hang_up) = crate::relay::plan_for(second);
            &&& !hang_up
            &&& crate::relay::plan_for(first + second) == (steps + more, then_hang_up)
            &&& crate::relay::plan_for(first + seq![Signal::HangUp] + second) == (steps, true)
        },
        crate::relay::plan_for(seq![Signal::Child]) == (Seq::<SignalStep>::empty(), false),
        crate::relay::plan_for(seq![Signal::Resize]) == (seq![SignalStep::CopySize], false),
        crate::relay::plan_for(seq![Signal::Other(number)]) == (
            seq![SignalStep::Forward(number)],
            false,
        ),
    decreases first.len(),
{
    let none = Seq::<SignalStep>::empty();
    assert(crate::relay::plan_for(Seq::empty()) == (none, false));
    assert(seq![Signal::Child].skip(1) =~= Seq::empty());
    assert(seq![Signal::Resize].skip(1) =~= Seq::empty());
    assert(seq![Signal::Other(number)].skip(1) =~= Seq::empty());
    assert(seq![SignalStep::CopySize] + none =~= seq![SignalStep::CopySize]);
    assert(seq![SignalStep::Forward(number)] + none =~= seq![SignalStep::Forward(number)]);
    if !first.contains(Signal::HangUp) {
        let more = crate::relay::plan_for(second).0;
        let cut = seq![Signal::HangUp] + second;
        assert(cut[0] == Signal::HangUp);
        assert(first + seq![Signal::HangUp] + second =~= first + cut);
        if first.len() == 0 {
            assert(first + second =~= second);
            assert(first + cut =~= cut);
            assert(none + more =~= more);
        } else {
            let rest = first.skip(1);
            assert(first[0] != Signal::HangUp) by {
                assert(first.contains(first[0]));
            }
            if rest.contains(Signal::HangUp) {
                let i = choose|i: int| 0 <= i < rest.len() && rest[i] == Signal::HangUp;
                assert(first[i + 1] == Signal::HangUp);
            }
            law_signals_are_handled_in_order(rest, second, number);
            assert((first + second).skip(1) =~= rest + second);
            assert((first + cut).skip(1) =~= rest + cut);
            assert(rest + seq![Signal::HangUp] + second =~= rest + cut);
            let tail = crate::relay::plan_for(rest).0;
            match first[0] {
                Signal::Resize => {
                    let step = seq![SignalStep::CopySize];
                    assert(step + (tail + more) =~= step + tail + more);
                },
                Signal::Other(other) => {
                    let step = seq![SignalStep::Forward(other)];
                    assert(step + (tail + more) =~= step + tail + more);
                },
                _ => {},
            }
        }
    }
}

/// What to do is due in a round.
pub open spec fn is_due(ready: crate::relay::Ready, step: Step) -> bool {
    match step {
        Step::Signals => ready.signals,
        Step::ReadStdin => ready.input,
        Step::WriteChild => ready.writable,
        Step::ReadChild => ready.output,
        Step::ServeControl => ready.control,
        Step::Timers => true,
        Step::Emit => true,
    }
}

/// A round does exactly what is due, each thing once, and always in the same
/// order.
pub proof fn law_round_does_what_is_due(ready: crate::relay::Ready)
    ensures
        crate::relay::steps_for(ready) == seq![
            Step::Signals,
            Step::ReadStdin,
            Step::WriteChild,
            Step::ReadChild,
            Step::ServeControl,
            Step::Timers,
            Step::Emit,
        ].filter(|step: Step| is_due(ready, step)),
{
    reveal(Seq::filter);
    let due = |step: Step| is_due(ready, step);
    let all = seq![
        Step::Signals,
        Step::ReadStdin,
        Step::WriteChild,
        Step::ReadChild,
        Step::ServeControl,
        Step::Timers,
        Step::Emit,
    ];
    let six = all.drop_last();
    let five = six.drop_last();
    let four = five.drop_last();
    let three = four.drop_last();
    let two = three.drop_last();
    let one = two.drop_last();
    assert(one.drop_last() =~= Seq::empty());
    assert(one.drop_last().filter(due) =~= Seq::empty());
    assert(one.filter(due) =~= crate::relay::step_if(ready.signals, Step::Signals));
    assert(two.filter(due) =~= one.filter(due) + crate::relay::step_if(
        ready.input,
        Step::ReadStdin,
    ));
    assert(three.filter(due) =~= two.filter(due) + crate::relay::step_if(
        ready.writable,
        Step::WriteChild,
    ));
    assert(four.filter(due) =~= three.filter(due) + crate::relay::step_if(
        ready.output,
        Step::ReadChild,
    ));
    assert(five.filter(due) =~= four.filter(due) + crate::relay::step_if(
        ready.control,
        Step::ServeControl,
    ));
    assert(six.filter(due) =~= five.filter(due).push(Step::Timers));
    assert(all.filter(due) =~= six.filter(due).push(Step::Emit));
    assert(all.filter(due) =~= crate::relay::steps_for(ready));
}

} // verus!
