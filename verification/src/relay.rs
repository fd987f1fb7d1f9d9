//! The session: what happens to the bytes that move between the user's
//! terminal and the command, what keylock itself shows, and what it answers.
//!
//! Descriptors, the clock and the process are elsewhere. Times are nanoseconds
//! of a clock that does not run backwards.

use crate::control::{incoming, state_line, Incoming, Request};
use crate::fault::{retryable, Fault};
use crate::gate::{Event, Gate, Output};
use crate::text::{join, push_all, BEL};
use crate::title::{set_title, State, TitleFilter, LOCK_PREFIX};
use vstd::prelude::*;
use vstd::string::*;

verus! {

/// How long an incomplete escape sequence waits for more.
pub const ESCAPE_TIMEOUT: u64 = 25_000_000;

/// How long the hint about unlocking is shown, and how often at most.
pub const FLASH: u64 = 2_000_000_000;

/// How long to keep copying output after the command exits.
pub const DRAIN: u64 = 100_000_000;

/// One millisecond.
pub const MILLISECOND: u64 = 1_000_000;

/// How much input waits for the command at most.
pub const MAX_PENDING_INPUT: usize = 65536;

/// What the exit code adds to the number of a signal.
pub const SIGNAL_EXIT: i32 = 128;

/// The exit code when the user's terminal went away.
pub const HANG_UP_EXIT: i32 = 129;

/// How to run a session.
pub struct Config {
    pub command: Vec<String>,
    pub locked: bool,
    pub hotkey: bool,
    pub phrase: Option<String>,
}

/// Why a session could not be run to its end.
#[derive(Debug, Clone, Copy, PartialEq, Eq, Structural)]
pub enum Failure {
    /// The command could not be started.
    Spawn(Fault),
    Io(Fault),
}

/// The mathematical content of a [`Relay`].
#[verifier::ext_equal]
pub struct RelayState {
    pub gate: crate::gate::GateState,
    pub title: crate::title::FilterState,
    /// False once no process has the command's side of the pty open.
    pub pty_open: bool,
    pub name: Seq<char>,
    pub pid: u32,
    pub command_line: Seq<char>,
    /// Input waiting for the command to read it.
    pub to_child: Seq<u8>,
    /// keylock's own output (titles, bell) waiting for a safe point.
    pub to_user: Seq<u8>,
    pub last_input: u64,
    pub flash_until: Option<u64>,
    pub next_flash: u64,
}

/// `delay` after `now`, as far as the clock goes.
pub open spec fn later(now: u64, delay: u64) -> u64 {
    if now + delay <= u64::MAX {
        (now + delay) as u64
    } else {
        u64::MAX
    }
}

/// How long it is from `now` to `deadline`; nothing if that is past.
pub open spec fn wait_until(deadline: u64, now: u64) -> u64 {
    if deadline <= now {
        0
    } else {
        (deadline - now) as u64
    }
}

/// A session before anything happened.
pub open spec fn new_relay(config: Config, name: Seq<char>, pid: u32, now: u64) -> RelayState {
    RelayState {
        gate: crate::gate::new_gate(
            config.locked,
            config.hotkey,
            match config.phrase {
                Some(phrase) => Some(vstd::utf8::encode_utf8(phrase@)),
                None => None,
            },
        ),
        title: crate::title::fresh_filter(),
        pty_open: true,
        name,
        pid,
        command_line: crate::text::joined(crate::text::texts(config.command@), " "@),
        to_child: Seq::empty(),
        to_user: Seq::empty(),
        last_input: now,
        flash_until: None,
        next_flash: now,
    }
}

/// The hint that is shown when input is dropped.
pub open spec fn hint(name: Seq<char>) -> Seq<char> {
    LOCK_PREFIX@ + "locked — keylock off "@ + name
}

impl RelayState {
    /// The title without a lock: the command's, or else the session's name.
    pub open spec fn base_title(self) -> Seq<u8> {
        match self.title.last_title {
            Some(title) => title,
            None => vstd::utf8::encode_utf8(self.name),
        }
    }

    /// The title that keylock shows.
    pub open spec fn shown_title(self) -> Seq<u8> {
        if self.gate.locked {
            crate::title::lock_prefix() + self.base_title()
        } else {
            self.base_title()
        }
    }

    /// This session with its title queued for the user.
    pub open spec fn title_queued(self) -> RelayState {
        RelayState {
            to_user: self.to_user + crate::title::title_sequence(self.shown_title()),
            ..self
        }
    }

    /// This session after it was locked or unlocked.
    pub open spec fn lock_changed(self) -> RelayState {
        RelayState { flash_until: None, ..self }.title_queued()
    }

    /// This session after it dropped input: it rings the bell and shows the
    /// hint, but not too often.
    pub open spec fn flashed(self, now: u64) -> RelayState {
        if now < self.next_flash {
            self
        } else {
            RelayState {
                next_flash: later(now, FLASH),
                flash_until: Some(later(now, FLASH)),
                to_user: self.to_user + seq![BEL] + crate::title::title_sequence(
                    vstd::utf8::encode_utf8(hint(self.name)),
                ),
                ..self
            }
        }
    }

    /// This session after its `Gate` reported the given events.
    pub open spec fn reported(self, events: Seq<Event>, now: u64) -> RelayState
        decreases events.len(),
    {
        if events.len() == 0 {
            self
        } else {
            let before = self.reported(events.drop_last(), now);
            match events.last() {
                Event::Lock | Event::Unlock => before.lock_changed(),
                Event::DroppedInput => before.flashed(now),
            }
        }
    }

    /// This session with `input` queued for the command. Input that would
    /// overfill the queue is lost.
    pub open spec fn queued(self, input: Seq<u8>) -> RelayState {
        if self.to_child.len() + input.len() <= MAX_PENDING_INPUT {
            RelayState { to_child: self.to_child + input, ..self }
        } else {
            self
        }
    }

    /// This session after its `Gate` gave the given output.
    pub open spec fn applied(self, effect: crate::gate::Effect, now: u64) -> RelayState {
        self.queued(effect.forward).reported(effect.events, now)
    }

    /// This session after the user typed `input`.
    pub open spec fn typed(self, input: Seq<u8>, now: u64) -> RelayState {
        let (gate, effect) = self.gate.fed(input);
        RelayState { gate, last_input: now, ..self }.applied(effect, now)
    }

    /// An incomplete escape sequence has waited long enough.
    pub open spec fn escape_due(self, now: u64) -> bool {
        self.gate.partial.len() > 0 && now >= self.last_input + ESCAPE_TIMEOUT
    }

    /// This session once the incomplete escape sequence has waited.
    pub open spec fn escape_settled(self, now: u64) -> RelayState {
        if self.escape_due(now) {
            let (gate, effect) = self.gate.flushed();
            RelayState { gate, ..self }.applied(effect, now)
        } else {
            self
        }
    }

    /// This session once the hint has been shown long enough.
    pub open spec fn flash_settled(self, now: u64) -> RelayState {
        match self.flash_until {
            Some(until) if now >= until => {
                let over = RelayState { flash_until: None, ..self };
                if self.gate.locked {
                    over.title_queued()
                } else {
                    over
                }
            },
            _ => self,
        }
    }

    /// How long to wait for something to happen, if not forever.
    pub open spec fn next_timer(self, now: u64) -> Option<u64> {
        let escape = wait_until(later(self.last_input, ESCAPE_TIMEOUT), now);
        match self.flash_until {
            Some(until) => {
                let flash = wait_until(until, now);
                if self.gate.partial.len() > 0 && escape < flash {
                    Some(escape)
                } else {
                    Some(flash)
                }
            },
            None => if self.gate.partial.len() > 0 {
                Some(escape)
            } else {
                None
            },
        }
    }

    /// This session once it has begun: one that starts locked shows it.
    pub open spec fn started(self) -> RelayState {
        if self.gate.locked {
            self.title_queued()
        } else {
            self
        }
    }

    /// This session ready to write to the command. Once the command's side is
    /// closed nothing is left to read its input.
    pub open spec fn input_settled(self) -> RelayState {
        if self.pty_open {
            self
        } else {
            RelayState { to_child: Seq::empty(), ..self }
        }
    }

    /// This session after an attempt to write its pending input.
    pub open spec fn input_written(self, written: Result<usize, Fault>) -> RelayState {
        RelayState {
            to_child: match written {
                Ok(count) => self.to_child.skip(count as int),
                Err(Fault::HungUp) => Seq::empty(),
                Err(_) => self.to_child,
            },
            ..self
        }
    }

    /// This session after the command wrote `chunk`, and what the user gets of
    /// it.
    pub open spec fn chunk_shown(self, chunk: Seq<u8>) -> (RelayState, Seq<u8>) {
        let (title, shown) = crate::title::filtered(self.title, chunk, self.gate.locked);
        (RelayState { title, ..self }, shown)
    }

    /// This session once the command's side of the pty has closed.
    pub open spec fn pty_closed(self) -> RelayState {
        RelayState { pty_open: false, ..self }
    }

    /// This session after control connections were answered, which `changed`
    /// its lock or not.
    pub open spec fn served(self, changed: bool) -> RelayState {
        if changed {
            self.lock_changed()
        } else {
            self
        }
    }

    /// This session once what it had queued for the user is out.
    pub open spec fn emitted(self) -> RelayState {
        RelayState { to_user: Seq::empty(), ..self }
    }

    /// This session after a request.
    pub open spec fn asked(self, request: Request) -> RelayState {
        match request {
            Request::Lock => RelayState { gate: self.gate.with_lock(true), ..self },
            Request::Unlock => RelayState { gate: self.gate.with_lock(false), ..self },
            Request::Status => self,
        }
    }

    /// The line that tells this session's state.
    pub open spec fn state_text(self) -> Seq<char> {
        crate::control::state_text(self.gate.locked, self.pid, self.command_line)
    }
}

/// What holds of a session at all times: its parts are in order, and the queue
/// of input for the command is within its limit.
pub open spec fn session_invariant(s: RelayState) -> bool {
    &&& crate::gate::gate_invariant(s.gate)
    &&& crate::title::filter_invariant(s.title)
    &&& s.to_child.len() <= MAX_PENDING_INPUT
}

/// A wait in whole milliseconds, never too short; -1 stands for ever.
pub open spec fn timeout_for(wait: Option<u64>) -> int {
    match wait {
        Some(wait) => if wait / MILLISECOND < i32::MAX {
            wait / MILLISECOND + 1
        } else {
            i32::MAX as int
        },
        None => -1,
    }
}

/// What a session waits for.
#[derive(Debug, Clone, Copy, PartialEq, Eq, Structural)]
pub struct Watch {
    /// Output of the command. Without it the command's side is closed.
    pub child: bool,
    /// Room for the command's input.
    pub writable: bool,
    /// How long to wait, in milliseconds; -1 for ever.
    pub timeout: i32,
}

/// What has come up while waiting.
#[derive(Debug, Clone, Copy, PartialEq, Eq, Structural)]
pub struct Ready {
    pub signals: bool,
    pub input: bool,
    pub writable: bool,
    pub output: bool,
    pub control: bool,
}

/// Something to do after waiting.
#[derive(Debug, Clone, Copy, PartialEq, Eq, Structural)]
pub enum Step {
    Signals,
    ReadStdin,
    WriteChild,
    ReadChild,
    ServeControl,
    Timers,
    Emit,
}

/// `step` if it is due.
pub open spec fn step_if(due: bool, step: Step) -> Seq<Step> {
    if due {
        seq![step]
    } else {
        Seq::empty()
    }
}

/// What to do after waiting, in order.
pub open spec fn steps_for(ready: Ready) -> Seq<Step> {
    step_if(ready.signals, Step::Signals) + step_if(ready.input, Step::ReadStdin) + step_if(
        ready.writable,
        Step::WriteChild,
    ) + step_if(ready.output, Step::ReadChild) + step_if(ready.control, Step::ServeControl) + seq![
        Step::Timers,
        Step::Emit,
    ]
}

fn push_step_if(steps: &mut Vec<Step>, due: bool, step: Step)
    ensures
        final(steps)@ == old(steps)@ + step_if(due, step),
{
    if due {
        steps.push(step);
    }
    assert(steps@ =~= old(steps)@ + step_if(due, step));
}

/// What to do after waiting, in order: what came up, then what the time asks
/// for, then what keylock has to show.
pub fn due_steps(ready: Ready) -> (steps: Vec<Step>)
    ensures
        steps@ == steps_for(ready),
{
    let mut steps: Vec<Step> = Vec::new();
    push_step_if(&mut steps, ready.signals, Step::Signals);
    push_step_if(&mut steps, ready.input, Step::ReadStdin);
    push_step_if(&mut steps, ready.writable, Step::WriteChild);
    push_step_if(&mut steps, ready.output, Step::ReadChild);
    push_step_if(&mut steps, ready.control, Step::ServeControl);
    steps.push(Step::Timers);
    steps.push(Step::Emit);
    assert(steps@ =~= steps_for(ready));
    steps
}

/// A signal, as far as keylock tells signals apart.
#[derive(Debug, Clone, Copy, PartialEq, Eq, Structural)]
pub enum Signal {
    /// A child process changed.
    Child,
    /// The user's terminal has another size.
    Resize,
    /// The user's terminal goes away.
    HangUp,
    /// Any other signal, by its number.
    Other(i32),
}

/// What to do about a signal.
#[derive(Debug, Clone, Copy, PartialEq, Eq, Structural)]
pub enum SignalStep {
    /// Give the command's terminal the size of the user's.
    CopySize,
    /// Send the signal with this number on to the command.
    Forward(i32),
}

/// What to do about signals.
#[derive(Debug)]
pub struct SignalPlan {
    pub steps: Vec<SignalStep>,
    /// The session ends after the steps.
    pub hang_up: bool,
}

/// What to do about the signals before the first hang-up, and whether there is
/// one.
pub open spec fn plan_for(signals: Seq<Signal>) -> (Seq<SignalStep>, bool)
    decreases signals.len(),
{
    if signals.len() == 0 {
        (Seq::empty(), false)
    } else {
        let (steps, hang_up) = plan_for(signals.skip(1));
        match signals[0] {
            Signal::Child => (steps, hang_up),
            Signal::Resize => (seq![SignalStep::CopySize] + steps, hang_up),
            Signal::HangUp => (Seq::empty(), true),
            Signal::Other(number) => (seq![SignalStep::Forward(number)] + steps, hang_up),
        }
    }
}

/// What to do about the given signals, in the order in which they came. A
/// child that changed needs no step: after any signals the command is asked
/// whether it has exited.
pub fn handle_signals(signals: &[Signal]) -> (plan: SignalPlan)
    ensures
        (plan.steps@, plan.hang_up) == plan_for(signals@),
{
    let mut steps: Vec<SignalStep> = Vec::new();
    let mut i: usize = 0;
    assert(signals@.skip(0) =~= signals@);
    assert(steps@ + plan_for(signals@).0 =~= plan_for(signals@).0);
    while i < signals.len()
        invariant
            i <= signals@.len(),
            plan_for(signals@).0 == steps@ + plan_for(signals@.skip(i as int)).0,
            plan_for(signals@).1 == plan_for(signals@.skip(i as int)).1,
        decreases signals@.len() - i,
    {
        let ghost rest = plan_for(signals@.skip(i + 1)).0;
        let ghost before = steps@;
        assert(signals@.skip(i as int).skip(1) =~= signals@.skip(i + 1));
        match signals[i] {
            Signal::Child => {},
            Signal::Resize => {
                steps.push(SignalStep::CopySize);
                assert(before + (seq![SignalStep::CopySize] + rest) =~= steps@ + rest);
            },
            Signal::HangUp => {
                assert(steps@ + Seq::<SignalStep>::empty() =~= steps@);
                return SignalPlan { steps, hang_up: true };
            },
            Signal::Other(number) => {
                steps.push(SignalStep::Forward(number));
                assert(before + (seq![SignalStep::Forward(number)] + rest) =~= steps@ + rest);
            },
        }
        i = i + 1;
    }
    assert(steps@ + plan_for(signals@.skip(i as int)).0 =~= steps@);
    SignalPlan { steps, hang_up: false }
}

/// How a session ended.
#[derive(Debug, Clone, Copy, PartialEq, Eq, Structural)]
pub enum End {
    /// The command exited, with the given code or by the given signal.
    ChildDone { code: Option<i32>, signal: Option<u8> },
    /// The user's terminal went away.
    HangUp,
}

/// What follows a step of a session.
#[derive(Debug, Clone, Copy, PartialEq, Eq, Structural)]
pub enum Follow {
    Nothing,
    /// Write the pending input to the command.
    WriteChild,
    /// The session is over.
    End(End),
}

/// Whether a session that has ended so still copies what the command wrote
/// last and takes the lock off the title. When the user's terminal is gone
/// there is nobody to do that for.
pub fn winds_down(end: End) -> (due: bool)
    ensures
        due == (end is ChildDone),
{
    match end {
        End::ChildDone { .. } => true,
        End::HangUp => false,
    }
}

/// The exit code of a session: the command's, or 128 and the number of the
/// signal that ended it.
pub fn exit_code(end: End) -> (code: i32)
    ensures
        code == match end {
            End::ChildDone { code: Some(code), signal: _ } => code as int,
            End::ChildDone { code: None, signal: Some(signal) } => SIGNAL_EXIT + signal,
            End::ChildDone { code: None, signal: None } => SIGNAL_EXIT as int,
            End::HangUp => HANG_UP_EXIT as int,
        },
{
    match end {
        End::ChildDone { code: Some(code), signal: _ } => code,
        End::ChildDone { code: None, signal: Some(signal) } => SIGNAL_EXIT + signal as i32,
        End::ChildDone { code: None, signal: None } => SIGNAL_EXIT,
        End::HangUp => HANG_UP_EXIT,
    }
}

/// What to do after a write that has to be complete.
#[derive(Debug, Clone, Copy, PartialEq, Eq, Structural)]
pub enum WriteStep {
    /// This many bytes are written; go on with the rest.
    Advance(usize),
    Again,
    /// Wait until there is room, then try again.
    AwaitRoom,
    Fail(Fault),
}

/// Decides what to do after a write that has to be complete.
pub fn write_step(written: Result<usize, Fault>) -> (step: WriteStep)
    ensures
        step == match written {
            Ok(count) => WriteStep::Advance(count),
            Err(Fault::Interrupted) => WriteStep::Again,
            Err(Fault::WouldBlock) => WriteStep::AwaitRoom,
            Err(fault) => WriteStep::Fail(fault),
        },
{
    match written {
        Ok(count) => WriteStep::Advance(count),
        Err(Fault::Interrupted) => WriteStep::Again,
        Err(Fault::WouldBlock) => WriteStep::AwaitRoom,
        Err(fault) => WriteStep::Fail(fault),
    }
}

/// What to send back over a control connection.
pub struct Answer {
    /// `None` if nothing is sent.
    pub reply: Option<String>,
    /// The request locked or unlocked the session.
    pub changed: bool,
}

/// A session.
pub struct Relay {
    gate: Gate,
    title: TitleFilter,
    pty_open: bool,
    name: String,
    pid: u32,
    command_line: String,
    to_child: Vec<u8>,
    to_user: Vec<u8>,
    last_input: u64,
    flash_until: Option<u64>,
    next_flash: u64,
}

impl View for Relay {
    type V = RelayState;

    closed spec fn view(&self) -> RelayState {
        RelayState {
            gate: self.gate@,
            title: self.title@,
            pty_open: self.pty_open,
            name: self.name@,
            pid: self.pid,
            command_line: self.command_line@,
            to_child: self.to_child@,
            to_user: self.to_user@,
            last_input: self.last_input,
            flash_until: self.flash_until,
            next_flash: self.next_flash,
        }
    }
}

impl Relay {
    /// A session named `name` whose command runs as process `pid`.
    pub fn new(config: Config, name: String, pid: u32, now: u64) -> (relay: Relay)
        ensures
            relay@ == new_relay(config, name@, pid, now),
            session_invariant(relay@),
    {
        Relay {
            command_line: join(config.command.as_slice(), " "),
            gate: Gate::new(config.locked, config.hotkey, config.phrase),
            title: TitleFilter::default(),
            pty_open: true,
            name,
            pid,
            to_child: Vec::new(),
            to_user: Vec::new(),
            last_input: now,
            flash_until: None,
            next_flash: now,
        }
    }

    /// Shows the lock of a session that starts locked.
    pub fn start(&mut self)
        ensures
            final(self)@ == old(self)@.started(),
            session_invariant(old(self)@) ==> session_invariant(final(self)@),
    {
        if self.gate.is_locked() {
            self.queue_title();
        }
    }

    pub fn is_locked(&self) -> (locked: bool)
        ensures
            locked == self@.gate.locked,
    {
        self.gate.is_locked()
    }

    /// Whether the command's side of the pty is open as far as is known.
    pub fn pty_open(&self) -> (open: bool)
        ensures
            open == self@.pty_open,
    {
        self.pty_open
    }

    /// The input that waits for the command.
    pub fn pending_input(&self) -> (pending: &[u8])
        ensures
            pending@ == self@.to_child,
    {
        self.to_child.as_slice()
    }

    /// What to wait for.
    pub fn watch(&self, now: u64) -> (watch: Watch)
        ensures
            watch.child == self@.pty_open,
            watch.writable == (self@.to_child.len() > 0),
            watch.timeout == timeout_for(self@.next_timer(now)),
    {
        Watch {
            child: self.pty_open,
            writable: self.to_child.len() > 0,
            timeout: self.poll_timeout(now),
        }
    }

    /// How long to wait for descriptors, in milliseconds rounded up; -1 for
    /// ever.
    pub fn poll_timeout(&self, now: u64) -> (timeout: i32)
        ensures
            timeout == timeout_for(self@.next_timer(now)),
    {
        let mut wait: Option<u64> = match self.flash_until {
            Some(until) => Some(until.saturating_sub(now)),
            None => None,
        };
        if self.gate.has_partial() {
            let escape: u64 = self.last_input.saturating_add(ESCAPE_TIMEOUT).saturating_sub(now);
            wait = match wait {
                Some(flash) if flash <= escape => Some(flash),
                _ => Some(escape),
            };
        }
        match wait {
            Some(wait) => {
                let millis: u64 = wait / MILLISECOND;
                if millis < i32::MAX as u64 {
                    millis as i32 + 1
                } else {
                    i32::MAX
                }
            },
            None => -1,
        }
    }

    /// Takes what was read from the user's terminal. The session is over once
    /// that terminal has gone away; what was typed has to be written.
    pub fn read_stdin(&mut self, read: Result<&[u8], Fault>, now: u64) -> (follow: Result<
        Follow,
        Fault,
    >)
        ensures
            match read {
                Ok(input) => if input@.len() == 0 {
                    &&& follow == Ok::<Follow, Fault>(Follow::End(End::HangUp))
                    &&& final(self)@ == old(self)@
                } else {
                    &&& follow == Ok::<Follow, Fault>(Follow::WriteChild)
                    &&& final(self)@ == old(self)@.typed(input@, now)
                },
                Err(fault) => {
                    &&& final(self)@ == old(self)@
                    &&& follow == if crate::fault::transient(fault) {
                        Ok(Follow::Nothing)
                    } else if fault == Fault::HungUp {
                        Ok(Follow::End(End::HangUp))
                    } else {
                        Err(fault)
                    }
                },
            },
            session_invariant(old(self)@) ==> session_invariant(final(self)@),
    {
        match read {
            Ok(input) => {
                if input.len() == 0 {
                    return Ok(Follow::End(End::HangUp));
                }
                self.last_input = now;
                let out: Output = self.gate.feed(input);
                self.apply(out, now);
                proof {
                    if session_invariant(old(self)@) {
                        crate::relay_laws::law_typing_keeps_the_invariant(
                            old(self)@,
                            input@,
                            now,
                        );
                    }
                }
                Ok(Follow::WriteChild)
            },
            Err(fault) => {
                if retryable(fault) {
                    Ok(Follow::Nothing)
                } else if fault == Fault::HungUp {
                    Ok(Follow::End(End::HangUp))
                } else {
                    Err(fault)
                }
            },
        }
    }

    fn apply(&mut self, out: Output, now: u64)
        ensures
            final(self)@ == old(self)@.applied(out@, now),
    {
        if self.to_child.len() <= MAX_PENDING_INPUT && out.forward.len() <= MAX_PENDING_INPUT
            - self.to_child.len() {
            push_all(&mut self.to_child, out.forward.as_slice());
        }
        let ghost queued = self@;
        let mut i: usize = 0;
        assert(out.events@.take(0) =~= Seq::empty());
        while i < out.events.len()
            invariant
                i <= out.events@.len(),
                self@ == queued.reported(out.events@.take(i as int), now),
            decreases out.events@.len() - i,
        {
            match out.events[i] {
                Event::Lock | Event::Unlock => self.state_changed(),
                Event::DroppedInput => self.flash(now),
            }
            i = i + 1;
            assert(out.events@.take(i as int).drop_last() =~= out.events@.take(i - 1));
        }
        assert(out.events@.take(i as int) =~= out.events@);
    }

    /// Prepares to write to the command, and says whether there is anything to
    /// write.
    pub fn settle_input(&mut self) -> (ready: bool)
        ensures
            final(self)@ == old(self)@.input_settled(),
            session_invariant(old(self)@) ==> session_invariant(final(self)@),
            ready == (final(self)@.to_child.len() > 0),
    {
        if !self.pty_open {
            // Nothing is left to read it.
            self.to_child.clear();
        }
        self.to_child.len() > 0
    }

    /// Takes what became of writing the pending input to the command.
    pub fn wrote(&mut self, written: Result<usize, Fault>) -> (outcome: Result<(), Fault>)
        requires
            written matches Ok(count) ==> count <= old(self)@.to_child.len(),
        ensures
            final(self)@ == old(self)@.input_written(written),
            session_invariant(old(self)@) ==> session_invariant(final(self)@),
            outcome == match written {
                Err(fault) if !crate::fault::transient(fault) && fault != Fault::HungUp => Err(
                    fault,
                ),
                _ => Ok(()),
            },
    {
        match written {
            Ok(count) => {
                let rest: Vec<u8> = self.to_child.split_off(count);
                self.to_child = rest;
                assert(self.to_child@ =~= old(self)@.to_child.skip(count as int));
                Ok(())
            },
            Err(fault) => {
                if retryable(fault) {
                    Ok(())
                } else if fault == Fault::HungUp {
                    // The command's side is gone; the read path will notice.
                    self.to_child.clear();
                    Ok(())
                } else {
                    Err(fault)
                }
            },
        }
    }

    /// Takes what was read from the command and returns what the user gets of
    /// it. Notes when the command's side of the pty has closed.
    pub fn read_child(&mut self, read: Result<&[u8], Fault>) -> (out: Result<
        Option<Vec<u8>>,
        Fault,
    >)
        ensures
            match read {
                Ok(chunk) if chunk@.len() > 0 => {
                    &&& final(self)@ == old(self)@.chunk_shown(chunk@).0
                    &&& out matches Ok(Some(bytes)) && bytes@ == old(self)@.chunk_shown(chunk@).1
                },
                Ok(_) | Err(Fault::HungUp) => {
                    &&& final(self)@ == old(self)@.pty_closed()
                    &&& out == Ok::<Option<Vec<u8>>, Fault>(None)
                },
                Err(fault) => {
                    &&& final(self)@ == old(self)@
                    &&& match out {
                        Ok(bytes) => bytes is None && crate::fault::transient(fault),
                        Err(error) => error == fault && !crate::fault::transient(fault),
                    }
                },
            },
            session_invariant(old(self)@) ==> session_invariant(final(self)@),
    {
        match read {
            Ok(chunk) => {
                if chunk.len() == 0 {
                    self.pty_open = false;
                    return Ok(None);
                }
                let locked: bool = self.gate.is_locked();
                let out: Vec<u8> = self.title.filter(chunk, locked);
                Ok(Some(out))
            },
            Err(fault) => {
                if fault == Fault::HungUp {
                    self.pty_open = false;
                    Ok(None)
                } else if retryable(fault) {
                    Ok(None)
                } else {
                    Err(fault)
                }
            },
        }
    }

    /// Whether to go on copying the output of a command that has exited at
    /// `exited`.
    pub fn drains(&self, exited: u64, now: u64) -> (more: bool)
        ensures
            more == (self@.pty_open && now < later(exited, DRAIN)),
    {
        self.pty_open && now < exited.saturating_add(DRAIN)
    }

    /// Answers a line from a control connection.
    pub fn answer(&mut self, line: &str) -> (answer: Answer)
        ensures
            match crate::control::meaning(line@) {
                Incoming::Probe => {
                    &&& final(self)@ == old(self)@
                    &&& answer.reply is None
                    &&& !answer.changed
                },
                Incoming::Unknown => {
                    &&& final(self)@ == old(self)@
                    &&& answer.reply matches Some(reply) && reply@ == crate::control::terminated(
                        "error unknown request"@,
                    )
                    &&& !answer.changed
                },
                Incoming::Ask(request) => {
                    &&& final(self)@ == old(self)@.asked(request)
                    &&& answer.reply matches Some(reply) && reply@ == crate::control::terminated(
                        final(self)@.state_text(),
                    )
                    &&& answer.changed == (final(self)@.gate.locked != old(self)@.gate.locked)
                },
            },
            session_invariant(old(self)@) ==> session_invariant(final(self)@),
    {
        let mut changed: bool = false;
        let mut reply: String = match incoming(line) {
            Incoming::Probe => {
                return Answer { reply: None, changed };
            },
            Incoming::Unknown => "error unknown request".to_owned(),
            Incoming::Ask(request) => {
                match request {
                    Request::Lock => {
                        changed = self.gate.set_locked(true);
                    },
                    Request::Unlock => {
                        changed = self.gate.set_locked(false);
                    },
                    Request::Status => {},
                }
                state_line(self.gate.is_locked(), self.pid, self.command_line.as_str())
            },
        };
        reply.append("\n");
        Answer { reply: Some(reply), changed }
    }

    /// Does what the time asks for. An escape sequence that has waited long
    /// enough has to be written.
    pub fn on_timers(&mut self, now: u64) -> (follow: Follow)
        ensures
            follow == if old(self)@.escape_due(now) {
                Follow::WriteChild
            } else {
                Follow::Nothing
            },
            final(self)@ == old(self)@.escape_settled(now).flash_settled(now),
            session_invariant(old(self)@) ==> session_invariant(final(self)@),
    {
        let mut follow: Follow = Follow::Nothing;
        if self.gate.has_partial() && now >= self.last_input && now - self.last_input
            >= ESCAPE_TIMEOUT {
            let out: Output = self.gate.flush();
            self.apply(out, now);
            follow = Follow::WriteChild;
        }
        match self.flash_until {
            Some(until) => {
                if now >= until {
                    self.flash_until = None;
                    if self.gate.is_locked() {
                        self.queue_title();
                    }
                }
            },
            None => {},
        }
        proof {
            if session_invariant(old(self)@) {
                crate::relay_laws::law_time_keeps_the_invariant(old(self)@, now);
            }
        }
        follow
    }

    /// Shows the lock after control connections were answered, if that
    /// `changed` it.
    pub fn served(&mut self, changed: bool)
        ensures
            final(self)@ == old(self)@.served(changed),
            session_invariant(old(self)@) ==> session_invariant(final(self)@),
    {
        if changed {
            self.state_changed();
        }
    }

    /// Shows that the session was locked or unlocked.
    fn state_changed(&mut self)
        ensures
            final(self)@ == old(self)@.lock_changed(),
    {
        self.flash_until = None;
        self.queue_title();
    }

    fn flash(&mut self, now: u64)
        ensures
            final(self)@ == old(self)@.flashed(now),
    {
        if now < self.next_flash {
            return ;
        }
        let until: u64 = now.saturating_add(FLASH);
        self.next_flash = until;
        self.flash_until = Some(until);
        self.to_user.push(BEL);
        let mut text: String = LOCK_PREFIX.to_owned();
        text.append("locked — keylock off ");
        text.append(self.name.as_str());
        let title: Vec<u8> = set_title(text.as_str().as_bytes());
        push_all(&mut self.to_user, title.as_slice());
        assert(self@ =~= old(self)@.flashed(now));
    }

    fn queue_title(&mut self)
        ensures
            final(self)@ == old(self)@.title_queued(),
    {
        let mut text: Vec<u8> = Vec::new();
        if self.gate.is_locked() {
            push_all(&mut text, LOCK_PREFIX.as_bytes());
        }
        push_all(&mut text, self.base_title());
        assert(text@ =~= self@.shown_title());
        let title: Vec<u8> = set_title(text.as_slice());
        push_all(&mut self.to_user, title.as_slice());
    }

    fn base_title(&self) -> (title: &[u8])
        ensures
            title@ == self@.base_title(),
    {
        match self.title.last_title() {
            Some(title) => title,
            None => self.name.as_str().as_bytes(),
        }
    }

    /// The bytes that take the lock off the title when the session ends, if
    /// there is a lock on it and this is a safe point.
    pub fn reset_title(&self) -> (bytes: Option<Vec<u8>>)
        ensures
            match bytes {
                Some(bytes) => self@.gate.locked && self@.title.state == State::Ground && bytes@
                    == crate::title::title_sequence(self@.base_title()),
                None => !(self@.gate.locked && self@.title.state == State::Ground),
            },
    {
        if self.gate.is_locked() && !self.title.in_sequence() {
            Some(set_title(self.base_title()))
        } else {
            None
        }
    }

    /// Takes what keylock has queued for the user, if this is a safe point.
    pub fn emit_queued(&mut self) -> (bytes: Option<Vec<u8>>)
        ensures
            match bytes {
                Some(bytes) => {
                    &&& old(self)@.to_user.len() > 0
                    &&& old(self)@.title.state == State::Ground
                    &&& bytes@ == old(self)@.to_user
                    &&& final(self)@ == old(self)@.emitted()
                },
                None => {
                    &&& old(self)@.to_user.len() == 0 || old(self)@.title.state != State::Ground
                    &&& final(self)@ == old(self)@
                },
            },
            session_invariant(old(self)@) ==> session_invariant(final(self)@),
    {
        if self.to_user.len() == 0 || self.title.in_sequence() {
            return None;
        }
        let mut bytes: Vec<u8> = Vec::new();
        std::mem::swap(&mut bytes, &mut self.to_user);
        Some(bytes)
    }
}

} // verus!
