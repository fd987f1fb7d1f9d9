use keylock::fault::Fault;
use keylock::relay::{
    due_steps, exit_code, handle_signals, winds_down, write_step, Config, End, Follow, Ready,
    Relay, Signal, SignalStep, Step, Watch, WriteStep,
};

const MS: u64 = 1_000_000;

fn session(locked: bool, command: &[&str]) -> Relay {
    let config = Config {
        command: command.iter().map(|a| a.to_string()).collect(),
        locked,
        hotkey: true,
        phrase: Some("unlock".to_string()),
    };
    Relay::new(config, "sh".to_string(), 7, 0)
}

fn type_at(relay: &mut Relay, bytes: &[u8], now: u64) {
    assert_eq!(relay.read_stdin(Ok(bytes), now), Ok(Follow::WriteChild));
}

fn shown(relay: &mut Relay) -> String {
    String::from_utf8(relay.emit_queued().unwrap_or_default()).unwrap()
}

fn asked(relay: &mut Relay, line: &str) -> Option<String> {
    let answer = relay.answer(line);
    relay.served(answer.changed);
    answer.reply
}

#[test]
fn forwards_input_and_passes_the_exit_code_through() {
    let mut s = session(false, &["sh", "-c", "exit 7"]);
    s.start();
    assert_eq!(shown(&mut s), "");
    type_at(&mut s, b"hi!", 1);
    assert_eq!(s.pending_input(), b"hi!");
    let end = End::ChildDone {
        code: Some(7),
        signal: None,
    };
    assert_eq!(exit_code(end), 7);
}

#[test]
fn locked_session_drops_everything_until_unlocked_from_outside() {
    let mut s = session(true, &["sh"]);
    type_at(
        &mut s,
        b"abc \x03\x1a\x1c\x04\x1b[A\x1b[<0;3;4M\x1b[200~paste\x1b[201~\r",
        1,
    );
    assert_eq!(s.pending_input(), b"");
    assert_eq!(
        asked(&mut s, "status\n").unwrap(),
        "locked pid=7 cmd=sh\n"
    );
    assert_eq!(asked(&mut s, "unlock\n").unwrap(), "unlocked pid=7 cmd=sh\n");
    type_at(&mut s, b"XYZ12", 2);
    assert_eq!(s.pending_input(), b"XYZ12");
}

#[test]
fn hotkey_locks_and_phrase_unlocks() {
    let mut s = session(false, &["sh"]);
    type_at(&mut s, b"\x1dl", 1);
    assert!(s.is_locked());
    type_at(&mut s, b"abc\x03", 2);
    type_at(&mut s, b"unlock\r", 3);
    assert!(!s.is_locked());
    type_at(&mut s, b"XYZ12", 4);
    assert_eq!(s.pending_input(), b"XYZ12");
}

#[test]
fn on_from_another_shell_locks() {
    let mut s = session(false, &["sh"]);
    assert_eq!(asked(&mut s, "lock\n").unwrap(), "locked pid=7 cmd=sh\n");
    type_at(&mut s, b"abc", 1);
    assert_eq!(s.pending_input(), b"");
    asked(&mut s, "unlock\n");
    type_at(&mut s, b"XYZ12", 2);
    assert_eq!(s.pending_input(), b"XYZ12");
}

#[test]
fn lock_shows_in_the_title_and_typing_rings_the_bell() {
    let mut s = session(true, &["sh", "-c", "echo READY; sleep 30"]);
    s.start();
    assert_eq!(shown(&mut s), "\x1b]2;🔒 sh\x07");
    type_at(&mut s, b"a", 1);
    assert_eq!(shown(&mut s), "\x07\x1b]2;🔒 locked — keylock off sh\x07");
    asked(&mut s, "unlock\n");
    assert_eq!(shown(&mut s), "\x1b]2;sh\x07");
    type_at(&mut s, b"\x03", 2);
    assert_eq!(s.pending_input(), b"\x03");
    let end = End::ChildDone {
        code: None,
        signal: Some(2),
    };
    assert_eq!(exit_code(end), 130);
}

#[test]
fn hint_is_brief_and_not_repeated() {
    let mut s = session(true, &["sh"]);
    type_at(&mut s, b"a", 10);
    assert!(shown(&mut s).starts_with('\x07'));
    type_at(&mut s, b"b", 10 + 2000 * MS - 1);
    assert_eq!(shown(&mut s), "");
    assert_eq!(s.on_timers(10 + 2000 * MS - 1), Follow::Nothing);
    assert_eq!(shown(&mut s), "");
    assert_eq!(s.on_timers(10 + 2000 * MS), Follow::Nothing);
    assert_eq!(shown(&mut s), "\x1b]2;🔒 sh\x07");
    type_at(&mut s, b"c", 10 + 2000 * MS);
    assert!(shown(&mut s).starts_with('\x07'));
}

#[test]
fn own_output_waits_for_a_safe_point() {
    let mut s = session(false, &["sh"]);
    asked(&mut s, "lock\n");
    assert_eq!(s.read_child(Ok(b"x\x1b[3")), Ok(Some(b"x\x1b[3".to_vec())));
    assert_eq!(s.emit_queued(), None);
    assert_eq!(s.reset_title(), None);
    assert_eq!(s.read_child(Ok(b"1m")), Ok(Some(b"1m".to_vec())));
    assert_eq!(shown(&mut s), "\x1b]2;🔒 sh\x07");
    assert_eq!(s.emit_queued(), None);
    assert_eq!(s.reset_title(), Some(b"\x1b]2;sh\x07".to_vec()));
}

#[test]
fn titles_of_the_command_are_kept() {
    let mut s = session(true, &["sh"]);
    assert_eq!(
        s.read_child(Ok(b"\x1b]2;build\x07")),
        Ok(Some("\x1b]2;🔒 build\x07".as_bytes().to_vec()))
    );
    asked(&mut s, "unlock\n");
    assert_eq!(shown(&mut s), "\x1b]2;build\x07");
    assert_eq!(s.reset_title(), None);
}

#[test]
fn lone_escape_is_sent_after_its_timeout() {
    let mut s = session(false, &["sh"]);
    type_at(&mut s, b"\x1b", 5);
    assert_eq!(s.pending_input(), b"");
    assert_eq!(s.poll_timeout(5), 26);
    assert_eq!(s.poll_timeout(5 + 24 * MS + 1), 1);
    assert_eq!(s.on_timers(5 + 25 * MS - 1), Follow::Nothing);
    assert_eq!(s.on_timers(5 + 25 * MS), Follow::WriteChild);
    assert_eq!(s.pending_input(), b"\x1b");
    assert_eq!(s.poll_timeout(5 + 25 * MS), -1);
}

#[test]
fn waits_for_the_nearest_timer() {
    let mut s = session(true, &["sh"]);
    assert_eq!(
        s.watch(0),
        Watch {
            child: true,
            writable: false,
            timeout: -1
        }
    );
    type_at(&mut s, b"a", 0);
    assert_eq!(s.poll_timeout(0), 2001);
    type_at(&mut s, b"\x1b", 1990 * MS);
    assert_eq!(s.poll_timeout(1990 * MS), 11);
    assert_eq!(s.poll_timeout(5000 * MS), 1);
    let mut s = session(true, &["sh"]);
    type_at(&mut s, b"a\x1b", 0);
    assert_eq!(s.poll_timeout(0), 26);
}

#[test]
fn writes_are_followed_up() {
    let mut s = session(false, &["sh"]);
    assert!(!s.settle_input());
    type_at(&mut s, b"hello", 1);
    assert!(s.watch(1).writable);
    assert!(s.settle_input());
    assert_eq!(s.wrote(Ok(2)), Ok(()));
    assert_eq!(s.pending_input(), b"llo");
    assert_eq!(s.wrote(Err(Fault::WouldBlock)), Ok(()));
    assert_eq!(s.wrote(Err(Fault::Other)), Err(Fault::Other));
    assert_eq!(s.pending_input(), b"llo");
    assert_eq!(s.wrote(Err(Fault::HungUp)), Ok(()));
    assert_eq!(s.pending_input(), b"");
}

#[test]
fn a_closed_pty_takes_no_more_input() {
    let mut s = session(false, &["sh"]);
    type_at(&mut s, b"hello", 1);
    assert_eq!(s.read_child(Err(Fault::WouldBlock)), Ok(None));
    assert_eq!(s.read_child(Err(Fault::Other)), Err(Fault::Other));
    assert!(s.pty_open());
    assert!(s.drains(10, 10 + 100 * MS - 1));
    assert!(!s.drains(10, 10 + 100 * MS));
    assert_eq!(s.read_child(Err(Fault::HungUp)), Ok(None));
    assert!(!s.pty_open());
    assert!(!s.watch(1).child);
    assert!(!s.drains(10, 10));
    assert!(!s.settle_input());
    assert_eq!(s.pending_input(), b"");
    let mut s = session(false, &["sh"]);
    assert_eq!(s.read_child(Ok(b"")), Ok(None));
    assert!(!s.pty_open());
}

#[test]
fn the_users_terminal_can_go_away() {
    let mut s = session(false, &["sh"]);
    let gone = Follow::End(End::HangUp);
    assert_eq!(s.read_stdin(Ok(b""), 1), Ok(gone));
    assert_eq!(s.read_stdin(Err(Fault::HungUp), 1), Ok(gone));
    assert_eq!(s.read_stdin(Err(Fault::Interrupted), 1), Ok(Follow::Nothing));
    assert_eq!(s.read_stdin(Err(Fault::WouldBlock), 1), Ok(Follow::Nothing));
    assert_eq!(s.read_stdin(Err(Fault::Other), 1), Err(Fault::Other));
}

#[test]
fn overfull_input_is_lost_whole() {
    let mut s = session(false, &["sh"]);
    type_at(&mut s, &vec![b'x'; 65536], 1);
    assert_eq!(s.pending_input().len(), 65536);
    type_at(&mut s, b"y", 2);
    assert_eq!(s.pending_input().len(), 65536);
    assert_eq!(s.wrote(Ok(1)), Ok(()));
    type_at(&mut s, b"yz", 3);
    assert_eq!(s.pending_input().len(), 65535);
    type_at(&mut s, b"y", 4);
    assert_eq!(s.pending_input().len(), 65536);
    assert!(s.pending_input().ends_with(b"xy"));
}

#[test]
fn control_connections_are_answered() {
    let mut s = session(false, &["./m.sh", "a"]);
    assert_eq!(asked(&mut s, ""), None);
    assert_eq!(asked(&mut s, "reboot\n").unwrap(), "error unknown request\n");
    assert!(s.answer("lock\n").changed);
    assert!(!s.answer("lock\n").changed);
    assert!(!s.answer("status\n").changed);
    assert_eq!(asked(&mut s, "status").unwrap(), "locked pid=7 cmd=./m.sh a\n");
}

#[test]
fn unlocking_from_outside_leaks_nothing() {
    let mut s = session(true, &["sh"]);
    type_at(&mut s, b"\x1b", 0);
    asked(&mut s, "unlock\n");
    assert_eq!(s.on_timers(1000 * MS), Follow::Nothing);
    assert_eq!(s.pending_input(), b"");
}

#[test]
fn signals() {
    let killed = End::ChildDone {
        code: None,
        signal: Some(15),
    };
    assert_eq!(exit_code(killed), 143);
    let trapped = End::ChildDone {
        code: Some(3),
        signal: None,
    };
    assert_eq!(exit_code(trapped), 3);
    let unknown = End::ChildDone {
        code: None,
        signal: None,
    };
    assert_eq!(exit_code(unknown), 128);
    let plan = handle_signals(&[Signal::Other(15), Signal::Child, Signal::Resize]);
    assert_eq!(
        plan.steps,
        vec![SignalStep::Forward(15), SignalStep::CopySize]
    );
    assert!(!plan.hang_up);
}

#[test]
fn hangup_ends_the_session_and_removes_the_socket() {
    assert_eq!(exit_code(End::HangUp), 129);
    let plan = handle_signals(&[Signal::Resize, Signal::HangUp, Signal::Other(2)]);
    assert_eq!(plan.steps, vec![SignalStep::CopySize]);
    assert!(plan.hang_up);
    let plan = handle_signals(&[]);
    assert!(plan.steps.is_empty() && !plan.hang_up);
}

#[test]
fn rounds_have_an_order() {
    let idle = Ready {
        signals: false,
        input: false,
        writable: false,
        output: false,
        control: false,
    };
    assert_eq!(due_steps(idle), vec![Step::Timers, Step::Emit]);
    let busy = Ready {
        signals: true,
        input: true,
        writable: true,
        output: true,
        control: true,
    };
    assert_eq!(
        due_steps(busy),
        vec![
            Step::Signals,
            Step::ReadStdin,
            Step::WriteChild,
            Step::ReadChild,
            Step::ServeControl,
            Step::Timers,
            Step::Emit,
        ]
    );
    let some = Ready {
        input: true,
        control: true,
        ..idle
    };
    assert_eq!(
        due_steps(some),
        vec![Step::ReadStdin, Step::ServeControl, Step::Timers, Step::Emit]
    );
}

#[test]
fn complete_writes_go_on() {
    assert_eq!(write_step(Ok(3)), WriteStep::Advance(3));
    assert_eq!(write_step(Err(Fault::Interrupted)), WriteStep::Again);
    assert_eq!(write_step(Err(Fault::WouldBlock)), WriteStep::AwaitRoom);
    assert_eq!(
        write_step(Err(Fault::HungUp)),
        WriteStep::Fail(Fault::HungUp)
    );
}

/// The command's side of the pty closes while the command runs on: the session
/// stops watching it, goes on, and ends only with the command.
#[test]
fn runs_until_the_command_exits_even_after_it_lets_go_of_the_terminal() {
    let mut s = session(false, &["sh", "-c", "exec sleep 1"]);
    assert_eq!(s.read_child(Ok(b"READY\r\n")), Ok(Some(b"READY\r\n".to_vec())));
    assert_eq!(s.read_child(Err(Fault::HungUp)), Ok(None));
    assert_eq!(
        s.watch(500 * MS),
        Watch {
            child: false,
            writable: false,
            timeout: -1
        }
    );
    assert_eq!(s.on_timers(500 * MS), Follow::Nothing);
    type_at(&mut s, b"x", 600 * MS);
    assert!(!s.settle_input());
    assert_eq!(asked(&mut s, "status\n").unwrap(), "unlocked pid=7 cmd=sh -c exec sleep 1\n");
    let end = End::ChildDone {
        code: Some(0),
        signal: None,
    };
    assert!(winds_down(end));
    assert!(!s.drains(1000 * MS, 1000 * MS));
    assert_eq!(exit_code(end), 0);
}

/// What the command wrote just before it exited is copied, chunk by chunk, as
/// long as there is any.
#[test]
fn output_written_just_before_exit_is_not_lost() {
    let mut s = session(false, &["sh"]);
    let mut output = Vec::new();
    for i in 0..3000 {
        output.extend_from_slice(format!("line{i}\r\n").as_bytes());
    }
    output.extend_from_slice(b"END\r\n");
    let end = End::ChildDone {
        code: Some(4),
        signal: None,
    };
    assert!(winds_down(end));
    let exited = 5 * MS;
    let mut shown = Vec::new();
    for (i, chunk) in output.chunks(4096).enumerate() {
        assert!(s.drains(exited, exited + i as u64 * MS));
        shown.extend(s.read_child(Ok(chunk)).unwrap().unwrap());
    }
    assert!(s.drains(exited, exited + 20 * MS));
    assert_eq!(s.read_child(Err(Fault::HungUp)), Ok(None));
    assert!(!s.drains(exited, exited + 20 * MS));
    assert_eq!(shown, output);
    assert!(shown.ends_with(b"line2999\r\nEND\r\n"));
    assert_eq!(exit_code(end), 4);
}

#[test]
fn nothing_is_copied_for_a_terminal_that_is_gone() {
    assert!(!winds_down(End::HangUp));
}

#[test]
fn change_from_outside_is_the_last_title() {
    let mut s = session(false, &["sh"]);
    let locked = s.answer("lock\n");
    let unlocked = s.answer("unlock\n");
    assert!(locked.changed && unlocked.changed);
    s.served(true);
    assert_eq!(shown(&mut s), "\x1b]2;sh\x07");
    s.served(false);
    assert_eq!(s.emit_queued(), None);
}
