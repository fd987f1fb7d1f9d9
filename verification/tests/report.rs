use keylock::fault::Fault;
use keylock::relay::Failure;
use keylock::report::{failure_exit, ls_line, no_session_message, session_base};

#[test]
fn ls_suffixes_duplicate_names_and_unknown_names_fail() {
    assert_eq!(
        ls_line("mig", "unlocked pid=7 cmd=sh -c x"),
        "mig  unlocked  pid=7 cmd=sh -c x"
    );
    assert_eq!(
        ls_line("mig-2", "unlocked pid=8 cmd=sh"),
        "mig-2  unlocked  pid=8 cmd=sh"
    );
    let live = vec!["mig".to_string(), "mig-2".to_string()];
    let unknown = no_session_message("nope", &live);
    assert!(unknown.contains("no session named nope"), "{unknown}");
    assert!(unknown.contains("  mig-2"), "{unknown}");
    assert_eq!(unknown, "no session named nope\nlive sessions:\n  mig\n  mig-2");
    assert_eq!(no_session_message("nope", &[]), "no session named nope");
}

#[test]
fn a_state_without_a_space_is_listed_as_it_is() {
    assert_eq!(ls_line("a", "odd"), "a  odd");
    assert_eq!(ls_line("a", ""), "a  ");
    assert_eq!(ls_line("a", " x y"), "a    x y");
}

#[test]
fn startup_errors() {
    assert_eq!(
        session_base(Some("../x".into()), "true"),
        Err("invalid session name `../x`".to_string())
    );
    assert_eq!(session_base(Some("mig".into()), "true"), Ok("mig".to_string()));
    assert_eq!(session_base(None, "/bin/sh"), Ok("sh".to_string()));
    assert_eq!(failure_exit(Failure::Spawn(Fault::NotFound)), 127);
    assert_eq!(failure_exit(Failure::Spawn(Fault::Other)), 126);
    assert_eq!(failure_exit(Failure::Io(Fault::NotFound)), 1);
}
