use keylock::cli::{parse, Command, RunOptions, DEFAULT_PHRASE, USAGE};
use keylock::gate::{Event, Gate};

fn args(s: &[&str]) -> Vec<String> {
    s.iter().map(|a| a.to_string()).collect()
}

fn run(s: &[&str]) -> Result<RunOptions, String> {
    match parse(&args(s), None)? {
        Command::Run(opts) => Ok(opts),
        other => panic!("expected Run, got {other:?}"),
    }
}

#[test]
fn run_defaults() {
    assert_eq!(
        run(&["run", "--", "./migrate.sh", "--fast"]).unwrap(),
        RunOptions {
            locked: false,
            name: None,
            phrase: Some("unlock".into()),
            hotkey: true,
            command: args(&["./migrate.sh", "--fast"]),
        }
    );
}

#[test]
fn run_all_flags() {
    let opts = run(&[
        "run",
        "--locked",
        "--name",
        "mig",
        "--phrase",
        "open sesame",
        "--no-hotkey",
        "--",
        "sh",
        "-c",
        "true",
    ])
    .unwrap();
    assert!(opts.locked);
    assert_eq!(opts.name.as_deref(), Some("mig"));
    assert_eq!(opts.phrase.as_deref(), Some("open sesame"));
    assert!(!opts.hotkey);
    assert_eq!(opts.command, args(&["sh", "-c", "true"]));
}

#[test]
fn flags_after_double_dash_belong_to_the_command() {
    let opts = run(&["run", "--", "cmd", "--locked"]).unwrap();
    assert!(!opts.locked);
    assert_eq!(opts.command, args(&["cmd", "--locked"]));
}

#[test]
fn phrase_precedence() {
    let with_env = |s: &[&str]| match parse(&args(s), Some("env phrase".into())).unwrap() {
        Command::Run(o) => o.phrase,
        _ => unreachable!(),
    };
    assert_eq!(with_env(&["run", "--", "x"]).as_deref(), Some("env phrase"));
    assert_eq!(
        with_env(&["run", "--phrase", "flag", "--", "x"]).as_deref(),
        Some("flag")
    );
    assert_eq!(with_env(&["run", "--no-phrase", "--", "x"]), None);
}

#[test]
fn run_errors() {
    assert!(run(&["run", "./migrate.sh"])
        .unwrap_err()
        .contains("unknown option"));
    assert!(run(&["run", "--"]).unwrap_err().contains("missing command"));
    assert!(run(&["run", "--name"])
        .unwrap_err()
        .contains("--name needs a value"));
    assert!(run(&["run", "--phrase", "a", "--no-phrase", "--", "x"])
        .unwrap_err()
        .contains("conflict"));
    assert!(run(&["run", "--phrase", "", "--", "x"])
        .unwrap_err()
        .contains("empty"));
    assert!(run(&["run", "--phrase", "é", "--", "x"])
        .unwrap_err()
        .contains("printable ASCII"));
}

#[test]
fn control_subcommands() {
    assert_eq!(
        parse(&args(&["on", "mig"]), None),
        Ok(Command::On("mig".into()))
    );
    assert_eq!(
        parse(&args(&["off", "mig"]), None),
        Ok(Command::Off("mig".into()))
    );
    assert_eq!(
        parse(&args(&["status", "mig"]), None),
        Ok(Command::Status("mig".into()))
    );
    assert_eq!(parse(&args(&["ls"]), None), Ok(Command::Ls));
    assert!(parse(&args(&["on"]), None)
        .unwrap_err()
        .contains("missing session name"));
    assert!(parse(&args(&["on", "a", "b"]), None).is_err());
    assert!(parse(&args(&["ls", "x"]), None).is_err());
}

#[test]
fn help_and_unknown() {
    assert_eq!(parse(&args(&["--help"]), None), Ok(Command::Help));
    assert_eq!(parse(&args(&["-h"]), None), Ok(Command::Help));
    assert!(parse(&args(&[]), None)
        .unwrap_err()
        .contains("missing subcommand"));
    assert!(parse(&args(&["frobnicate"]), None)
        .unwrap_err()
        .contains("unknown subcommand"));
}

#[test]
fn messages_are_exact() {
    let message = |s: &[&str]| parse(&args(s), None).unwrap_err();
    assert_eq!(message(&[]), "missing subcommand");
    assert_eq!(message(&["frob"]), "unknown subcommand `frob`");
    assert_eq!(message(&["off"]), "missing session name");
    assert_eq!(message(&["off", "a", "b"]), "expected exactly one session name");
    assert_eq!(message(&["ls", "x"]), "ls takes no arguments");
    assert_eq!(
        message(&["run", "x"]),
        "unknown option `x` (put the command after `--`)"
    );
    assert_eq!(message(&["run"]), "missing command after `--`");
    assert_eq!(message(&["run", "--locked"]), "missing command after `--`");
    assert_eq!(message(&["run", "--name"]), "--name needs a value");
    assert_eq!(message(&["run", "--phrase"]), "--phrase needs a value");
    assert_eq!(
        message(&["run", "--no-phrase", "--phrase", "p", "--", "x"]),
        "--phrase and --no-phrase conflict"
    );
    assert_eq!(
        message(&["run", "--phrase", "", "--", "x"]),
        "phrase must not be empty"
    );
    assert_eq!(
        message(&["run", "--phrase", "a\tb", "--", "x"]),
        "phrase must be printable ASCII"
    );
}

#[test]
fn option_values_may_look_like_options() {
    let opts = run(&["run", "--name", "--", "--phrase", "--locked", "--", "x"]).unwrap();
    assert_eq!(opts.name.as_deref(), Some("--"));
    assert_eq!(opts.phrase.as_deref(), Some("--locked"));
    assert!(!opts.locked);
    let opts = run(&["run", "--name", "a", "--name", "b", "--", "x"]).unwrap();
    assert_eq!(opts.name.as_deref(), Some("b"));
}

#[test]
fn environment_phrase_is_held_to_the_same_rules() {
    assert_eq!(
        parse(&args(&["run", "--", "x"]), Some("".into())),
        Err("phrase must not be empty".to_string())
    );
    assert_eq!(
        parse(&args(&["run", "--", "x"]), Some("é".into())),
        Err("phrase must be printable ASCII".to_string())
    );
    assert!(parse(&args(&["run", "--no-phrase", "--", "x"]), Some("".into())).is_ok());
    assert_eq!(DEFAULT_PHRASE, "unlock");
}

#[test]
fn help_comes_first() {
    assert_eq!(parse(&args(&["help", "x", "y"]), None), Ok(Command::Help));
    assert!(USAGE.starts_with("usage:\n  keylock run "));
    assert!(USAGE.ends_with("type the phrase (default: unlock) and Enter."));
}

#[test]
fn accepted_phrase_unlocks() {
    let opts = run(&["run", "--locked", "--phrase", "open ~ sesame!", "--", "x"]).unwrap();
    let mut gate = Gate::new(opts.locked, opts.hotkey, opts.phrase);
    assert_eq!(
        gate.feed(b"open ~ sesame!\r").events,
        vec![Event::DroppedInput, Event::Unlock]
    );
}

#[test]
fn environment_phrase_is_a_fallback() {
    let cases: &[&[&str]] = &[
        &["run", "--phrase", "flag", "--", "x"],
        &["run", "--no-phrase", "--", "x"],
        &["run", "--wrong"],
        &["on", "mig"],
        &["ls"],
        &["frob"],
        &[],
    ];
    for case in cases {
        for env in ["other", "", "é"] {
            assert_eq!(
                parse(&args(case), Some(env.to_string())),
                parse(&args(case), None),
                "{case:?} {env:?}"
            );
        }
    }
}
