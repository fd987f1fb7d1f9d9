use keylock::control::{
    bind_step, connect_error, default_name, ensure_dir, incoming, next_attempt, reply_in,
    request_line, resolve_dir, send_target, session_name, session_names, session_of_file,
    socket_file, state_line, valid_name, BindStep, DirState, Incoming, Listing, Request,
    SendError,
};
use keylock::fault::{retryable, Fault};

#[test]
fn requests_and_state_lines() {
    assert_eq!(Request::parse("lock\n"), Some(Request::Lock));
    assert_eq!(Request::parse("unlock"), Some(Request::Unlock));
    assert_eq!(Request::parse("status\r\n"), Some(Request::Status));
    assert_eq!(Request::parse("reboot"), None);
    assert_eq!(Request::Unlock.as_str(), "unlock");
    assert_eq!(
        state_line(true, 42, "./m.sh a"),
        "locked pid=42 cmd=./m.sh a"
    );
    assert_eq!(state_line(false, 1, "x"), "unlocked pid=1 cmd=x");
}

#[test]
fn directory_resolution() {
    let os = |s: &str| Some(s.as_bytes().to_vec());
    assert_eq!(
        resolve_dir(os("/run/user/501"), os("/tmp/x"), 501),
        b"/run/user/501/keylock"
    );
    assert_eq!(
        resolve_dir(None, os("/var/folders/T/"), 501),
        b"/var/folders/T/keylock"
    );
    assert_eq!(resolve_dir(os(""), None, 501), b"/tmp/keylock-501");
}

#[test]
fn directory_safety() {
    let found = |is_dir, owner, mode| DirState::Found {
        is_dir,
        owner,
        mode,
    };
    assert_eq!(ensure_dir("/r/keylock", DirState::Created, 501), Ok(()));
    assert_eq!(ensure_dir("/r/keylock", found(true, 501, 0o40700), 501), Ok(()));

    let err = ensure_dir("/r/keylock", found(true, 501, 0o40755), 501).unwrap_err();
    assert!(err.starts_with("refusing to use"), "{err}");
    assert!(err.contains("accessible by other users"), "{err}");
    assert_eq!(err, "refusing to use /r/keylock: accessible by other users");

    let err = ensure_dir("/r/file", found(false, 501, 0o100600), 501).unwrap_err();
    assert!(err.contains("not a directory"));
    let err = ensure_dir("/r/keylock", found(true, 0, 0o40700), 501).unwrap_err();
    assert_eq!(err, "refusing to use /r/keylock: owned by another user");
    let err = ensure_dir("/r", DirState::Failed("no space".into()), 501).unwrap_err();
    assert_eq!(err, "refusing to use /r: no space");
    for bit in [0o001, 0o002, 0o004, 0o010, 0o020, 0o040] {
        assert!(ensure_dir("/r", found(true, 501, 0o40700 | bit), 501).is_err());
    }
    assert!(ensure_dir("/r", found(true, 501, 0o41700), 501).is_ok());
}

#[test]
fn names() {
    assert!(valid_name("migrate.sh"));
    assert!(valid_name("a-2_b"));
    assert!(!valid_name(""));
    assert!(!valid_name(".hidden"));
    assert!(!valid_name("../etc"));
    assert!(!valid_name("a b"));
    assert!(!valid_name(&"x".repeat(65)));
    assert_eq!(default_name("./scripts/migrate.sh"), "migrate.sh");
    assert_eq!(default_name("my tool"), "my_tool");
    assert_eq!(default_name(".env"), "env");
    assert_eq!(default_name("/"), "session");
    assert_eq!(default_name(&"y".repeat(100)).len(), 60);
}

#[test]
fn longest_and_foreign_names() {
    assert!(valid_name(&"x".repeat(64)));
    assert!(!valid_name("é"));
    assert!(!valid_name("a/b"));
    assert!(!valid_name("a\n"));
    assert_eq!(default_name("é"), "_");
    assert_eq!(default_name("/usr/bin/ls -l"), "ls_-l");
    assert_eq!(default_name("..."), "session");
    assert_eq!(default_name("a/.."), "session");
    assert_eq!(default_name(""), "session");
    assert_eq!(default_name("a/./"), "a");
    assert_eq!(default_name("a//"), "a");
}

/// The file name that a command's name comes from is what the standard
/// library takes for it, on all short paths over a small alphabet.
#[test]
fn default_name_takes_the_file_name() {
    let letters = ['a', '.', '/', 'B'];
    let mut paths = vec![String::new()];
    let mut from = 0;
    for _ in 0..6 {
        let to = paths.len();
        for i in from..to {
            for letter in letters {
                let mut path = paths[i].clone();
                path.push(letter);
                paths.push(path);
            }
        }
        from = to;
    }
    assert_eq!(paths.len(), 5461);
    for path in &paths {
        let base = std::path::Path::new(path)
            .file_name()
            .and_then(|n| n.to_str())
            .unwrap_or("");
        let expected = match base.trim_start_matches('.') {
            "" => "session",
            name => name,
        };
        assert_eq!(default_name(path), expected, "{path:?}");
        assert!(valid_name(&default_name(path)));
    }
}

/// Exactly the white space that the standard library trims is trimmed.
#[test]
fn white_space_around_requests() {
    for code in 0..=0x10ffff_u32 {
        let Some(c) = char::from_u32(code) else {
            continue;
        };
        let line = format!("{c}lock{c}");
        assert_eq!(
            Request::parse(&line).is_some(),
            line.trim() == "lock",
            "{line:?}"
        );
        assert_eq!(
            reply_in(&line),
            Ok(line.trim_end().to_string()),
            "{line:?}"
        );
    }
    assert_eq!(Request::parse(" \t status \r\n"), Some(Request::Status));
    assert_eq!(Request::parse("un lock"), None);
    assert_eq!(Request::parse(""), None);
    assert_eq!(Request::parse("LOCK"), None);
}

#[test]
fn send_round_trip() {
    for request in [Request::Lock, Request::Unlock, Request::Status] {
        assert_eq!(incoming(&request_line(request)), Incoming::Ask(request));
        assert_eq!(request_line(request), format!("{}\n", request.as_str()));
    }
    assert_eq!(send_target("mig"), Ok("mig.sock".to_string()));
    assert_eq!(
        reply_in("locked pid=7 cmd=sh\n"),
        Ok("locked pid=7 cmd=sh".to_string())
    );
    assert_eq!(incoming(""), Incoming::Probe);
    assert_eq!(incoming("\n"), Incoming::Unknown);
    assert_eq!(incoming("reboot\n"), Incoming::Unknown);
    assert_eq!(
        reply_in(""),
        Err(SendError::Io(Fault::UnexpectedEof))
    );
}

#[test]
fn unknown_session() {
    assert_eq!(send_target("nope"), Ok("nope.sock".to_string()));
    assert_eq!(connect_error(Fault::NotFound), SendError::NoSession);
    assert_eq!(connect_error(Fault::ConnectionRefused), SendError::NoSession);
    assert_eq!(connect_error(Fault::Other), SendError::Io(Fault::Other));
    assert_eq!(send_target("../x"), Err(SendError::NoSession));
}

#[test]
fn live_names_get_a_suffix_and_stale_sockets_are_reused() {
    assert_eq!(session_name("mig", 1), "mig");
    assert_eq!(session_name("mig", 2), "mig-2");
    assert_eq!(session_name("mig", 10), "mig-10");
    assert_eq!(session_name("mig", u32::MAX), "mig-4294967295");
    assert_eq!(bind_step(true, true), BindStep::NextName);
    assert_eq!(bind_step(true, false), BindStep::ReplaceStale);
    assert_eq!(bind_step(false, false), BindStep::Listen);
    assert_eq!(bind_step(false, true), BindStep::Listen);
}

#[test]
fn default_names_leave_room_for_a_suffix() {
    let name = default_name(&"y".repeat(100));
    assert!(valid_name(&session_name(&name, 999)));
    assert!(!valid_name(&session_name(&name, 1000)));
}

#[test]
fn list_reports_live_sessions_and_removes_stale_ones() {
    let files: Vec<String> = ["live.sock", "notes.txt", "dead.sock", ".sock", "a.sock.sock"]
        .iter()
        .map(|f| f.to_string())
        .collect();
    assert_eq!(session_names(&files), vec!["", "a.sock", "dead", "live"]);
    let mut listing = Listing::new();
    assert!(listing.live().is_empty() && listing.stale().is_empty());
    let state = || Ok("unlocked pid=7 cmd=sh".to_string());
    assert!(!listing.note("live".to_string(), state()));
    assert!(listing.note("dead".to_string(), Err(SendError::NoSession)));
    assert!(!listing.note("stuck".to_string(), Err(SendError::Io(Fault::Other))));
    assert!(!listing.note("more".to_string(), state()));
    let pair = |name: &str| (name.to_string(), "unlocked pid=7 cmd=sh".to_string());
    assert_eq!(listing.live(), [pair("live"), pair("more")]);
    assert_eq!(listing.stale(), ["dead".to_string()]);
}

#[test]
fn first_free_name_is_taken() {
    let live = ["mig", "mig-2", "mig-3", "mig-5"];
    let stale = ["mig-4"];
    let mut attempt = 1;
    let step = loop {
        let name = session_name("mig", attempt);
        let answers = live.contains(&name.as_str());
        let present = answers || stale.contains(&name.as_str());
        let step = bind_step(present, answers);
        match next_attempt(step, attempt) {
            Some(next) => attempt = next,
            None => break step,
        }
    };
    assert_eq!((attempt, step), (4, BindStep::ReplaceStale));
    assert_eq!(next_attempt(BindStep::NextName, 1), Some(2));
    assert_eq!(next_attempt(BindStep::NextName, u32::MAX), None);
    assert_eq!(next_attempt(BindStep::Listen, 1), None);
}

#[test]
fn names_are_listed_in_the_order_of_the_standard_library() {
    let mut names = vec!["b", "a", "ab", "", "é", "z", "\u{10ffff}", "\u{ffff}", "a", "B", "aa"];
    let files: Vec<String> = names.iter().map(|n| socket_file(n)).collect();
    names.sort();
    assert_eq!(session_names(&files), names);
}

#[test]
fn socket_names_round_trip() {
    for name in ["mig", "", "a.sock", "é"] {
        assert_eq!(session_of_file(&socket_file(name)).as_deref(), Some(name));
    }
    assert_eq!(session_of_file("mig.sock2"), None);
    assert_eq!(session_of_file("sock"), None);
}

#[test]
fn process_ids_are_decimal() {
    for pid in [0, 9, 10, 99, 100, 1234567890, u32::MAX] {
        assert_eq!(
            state_line(false, pid, ""),
            format!("unlocked pid={pid} cmd=")
        );
    }
}

#[test]
fn faults_that_pass() {
    assert!(retryable(Fault::Interrupted));
    assert!(retryable(Fault::WouldBlock));
    for fault in [
        Fault::HungUp,
        Fault::NotFound,
        Fault::ConnectionRefused,
        Fault::UnexpectedEof,
        Fault::Other,
    ] {
        assert!(!retryable(fault));
    }
}
