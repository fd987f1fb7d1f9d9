//! Command-line parsing. Hand-rolled: the surface is five subcommands.

use crate::text::{concat3, is_printable_ascii, same_text};
use vstd::prelude::*;
use vstd::slice::slice_subrange;

verus! {

pub const USAGE: &'static str = "\
usage:
  keylock run [--locked] [--name NAME] [--phrase PHRASE | --no-phrase] [--no-hotkey] -- COMMAND [ARGS...]
  keylock on NAME        lock a session
  keylock off NAME       unlock a session
  keylock status NAME    print a session's state
  keylock ls             list live sessions

While a session is locked, all input to the command is dropped.
Lock from inside the terminal with Ctrl+] then l.
Unlock with `keylock off NAME`, or type the phrase (default: unlock) and Enter.";

pub const DEFAULT_PHRASE: &'static str = "unlock";

/// What the user asks for.
#[derive(Debug, PartialEq, Eq)]
pub enum Command {
    Run(RunOptions),
    On(String),
    Off(String),
    Status(String),
    Ls,
    Help,
}

/// How to run a command.
#[derive(Debug, PartialEq, Eq)]
pub struct RunOptions {
    pub locked: bool,
    pub name: Option<String>,
    /// `None` when unlocking by phrase is disabled.
    pub phrase: Option<String>,
    pub hotkey: bool,
    pub command: Vec<String>,
}

/// The mathematical content of [`RunOptions`].
#[verifier::ext_equal]
pub struct RunView {
    pub locked: bool,
    pub name: Option<Seq<char>>,
    pub phrase: Option<Seq<char>>,
    pub hotkey: bool,
    pub command: Seq<Seq<char>>,
}

/// The mathematical content of a [`Command`].
pub enum CommandView {
    Run(RunView),
    On(Seq<char>),
    Off(Seq<char>),
    Status(Seq<char>),
    Ls,
    Help,
}

impl View for RunOptions {
    type V = RunView;

    open spec fn view(&self) -> RunView {
        RunView {
            locked: self.locked,
            name: crate::text::optional_text(self.name),
            phrase: crate::text::optional_text(self.phrase),
            hotkey: self.hotkey,
            command: crate::text::texts(self.command@),
        }
    }
}

impl View for Command {
    type V = CommandView;

    open spec fn view(&self) -> CommandView {
        match self {
            Command::Run(options) => CommandView::Run(options@),
            Command::On(name) => CommandView::On(name@),
            Command::Off(name) => CommandView::Off(name@),
            Command::Status(name) => CommandView::Status(name@),
            Command::Ls => CommandView::Ls,
            Command::Help => CommandView::Help,
        }
    }
}

/// The options given before the command.
#[verifier::ext_equal]
pub struct Flags {
    pub locked: bool,
    pub name: Option<Seq<char>>,
    pub phrase: Option<Seq<char>>,
    pub no_phrase: bool,
    pub hotkey: bool,
}

/// No option given.
pub open spec fn no_flags() -> Flags {
    Flags { locked: false, name: None, phrase: None, no_phrase: false, hotkey: true }
}

/// The options at the front of `args`, added to `flags`, and the command that
/// follows the first `--`; or what is wrong with them.
pub open spec fn flags_and_command(args: Seq<Seq<char>>, flags: Flags) -> Result<
    (Flags, Seq<Seq<char>>),
    Seq<char>,
>
    decreases args.len(),
{
    if args.len() == 0 {
        Ok((flags, Seq::empty()))
    } else {
        let arg = args[0];
        let rest = args.skip(1);
        if arg == "--"@ {
            Ok((flags, rest))
        } else if arg == "--locked"@ {
            flags_and_command(rest, Flags { locked: true, ..flags })
        } else if arg == "--no-hotkey"@ {
            flags_and_command(rest, Flags { hotkey: false, ..flags })
        } else if arg == "--no-phrase"@ {
            flags_and_command(rest, Flags { no_phrase: true, ..flags })
        } else if arg == "--name"@ {
            if rest.len() == 0 {
                Err("--name needs a value"@)
            } else {
                flags_and_command(rest.skip(1), Flags { name: Some(rest[0]), ..flags })
            }
        } else if arg == "--phrase"@ {
            if rest.len() == 0 {
                Err("--phrase needs a value"@)
            } else {
                flags_and_command(rest.skip(1), Flags { phrase: Some(rest[0]), ..flags })
            }
        } else {
            Err("unknown option `"@ + arg + "` (put the command after `--`)"@)
        }
    }
}

/// The phrase asked for: the option's, else the environment's, else the
/// default.
pub open spec fn chosen_phrase(flag: Option<Seq<char>>, env: Option<Seq<char>>) -> Seq<char> {
    match (flag, env) {
        (Some(phrase), _) => phrase,
        (None, Some(phrase)) => phrase,
        (None, None) => DEFAULT_PHRASE@,
    }
}

/// What the arguments of `run` ask for, or what is wrong with them.
pub open spec fn run_parsed(args: Seq<Seq<char>>, env: Option<Seq<char>>) -> Result<
    RunView,
    Seq<char>,
> {
    match flags_and_command(args, no_flags()) {
        Err(message) => Err(message),
        Ok((flags, command)) => {
            let phrase = chosen_phrase(flags.phrase, env);
            if command.len() == 0 {
                Err("missing command after `--`"@)
            } else if flags.no_phrase && flags.phrase is Some {
                Err("--phrase and --no-phrase conflict"@)
            } else if !flags.no_phrase && phrase.len() == 0 {
                Err("phrase must not be empty"@)
            } else if !flags.no_phrase && !crate::text::printable_ascii(phrase) {
                Err("phrase must be printable ASCII"@)
            } else {
                Ok(
                    RunView {
                        locked: flags.locked,
                        name: flags.name,
                        phrase: if flags.no_phrase {
                            None
                        } else {
                            Some(phrase)
                        },
                        hotkey: flags.hotkey,
                        command,
                    },
                )
            }
        },
    }
}

/// The one session name that `args` hold, or what is wrong with them.
pub open spec fn name_parsed(args: Seq<Seq<char>>) -> Result<Seq<char>, Seq<char>> {
    if args.len() == 1 {
        Ok(args[0])
    } else if args.len() == 0 {
        Err("missing session name"@)
    } else {
        Err("expected exactly one session name"@)
    }
}

/// What the arguments ask for, or what is wrong with them.
pub open spec fn parsed(args: Seq<Seq<char>>, env: Option<Seq<char>>) -> Result<
    CommandView,
    Seq<char>,
> {
    if args.len() == 0 {
        Err("missing subcommand"@)
    } else {
        let sub = args[0];
        let rest = args.skip(1);
        if sub == "-h"@ || sub == "--help"@ || sub == "help"@ {
            Ok(CommandView::Help)
        } else if sub == "run"@ {
            match run_parsed(rest, env) {
                Ok(options) => Ok(CommandView::Run(options)),
                Err(message) => Err(message),
            }
        } else if sub == "on"@ {
            match name_parsed(rest) {
                Ok(name) => Ok(CommandView::On(name)),
                Err(message) => Err(message),
            }
        } else if sub == "off"@ {
            match name_parsed(rest) {
                Ok(name) => Ok(CommandView::Off(name)),
                Err(message) => Err(message),
            }
        } else if sub == "status"@ {
            match name_parsed(rest) {
                Ok(name) => Ok(CommandView::Status(name)),
                Err(message) => Err(message),
            }
        } else if sub == "ls"@ {
            if rest.len() == 0 {
                Ok(CommandView::Ls)
            } else {
                Err("ls takes no arguments"@)
            }
        } else {
            Err("unknown subcommand `"@ + sub + "`"@)
        }
    }
}

/// A result and its message by their views.
pub open spec fn result_view<T: View>(result: Result<T, String>) -> Result<T::V, Seq<char>> {
    match result {
        Ok(value) => Ok(value@),
        Err(message) => Err(message@),
    }
}

/// Reads the arguments after the program's name. `env_phrase` is the phrase
/// that the environment sets.
pub fn parse(args: &[String], env_phrase: Option<String>) -> (command: Result<Command, String>)
    ensures
        result_view(command) == parsed(
            crate::text::texts(args@),
            crate::text::optional_text(env_phrase),
        ),
{
    if args.len() == 0 {
        return Err("missing subcommand".to_owned());
    }
    let sub: &str = args[0].as_str();
    let rest: &[String] = slice_subrange(args, 1, args.len());
    assert(crate::text::texts(rest@) =~= crate::text::texts(args@).skip(1));
    if same_text(sub, "-h") || same_text(sub, "--help") || same_text(sub, "help") {
        Ok(Command::Help)
    } else if same_text(sub, "run") {
        match parse_run(rest, env_phrase) {
            Ok(options) => Ok(Command::Run(options)),
            Err(message) => Err(message),
        }
    } else if same_text(sub, "on") {
        match one_name(rest) {
            Ok(name) => Ok(Command::On(name)),
            Err(message) => Err(message),
        }
    } else if same_text(sub, "off") {
        match one_name(rest) {
            Ok(name) => Ok(Command::Off(name)),
            Err(message) => Err(message),
        }
    } else if same_text(sub, "status") {
        match one_name(rest) {
            Ok(name) => Ok(Command::Status(name)),
            Err(message) => Err(message),
        }
    } else if same_text(sub, "ls") {
        if rest.len() == 0 {
            Ok(Command::Ls)
        } else {
            Err("ls takes no arguments".to_owned())
        }
    } else {
        Err(concat3("unknown subcommand `", sub, "`"))
    }
}

fn one_name(rest: &[String]) -> (name: Result<String, String>)
    ensures
        result_view(name) == name_parsed(crate::text::texts(rest@)),
{
    if rest.len() == 1 {
        Ok(rest[0].clone())
    } else if rest.len() == 0 {
        Err("missing session name".to_owned())
    } else {
        Err("expected exactly one session name".to_owned())
    }
}

fn parse_run(rest: &[String], env_phrase: Option<String>) -> (options: Result<RunOptions, String>)
    ensures
        result_view(options) == run_parsed(
            crate::text::texts(rest@),
            crate::text::optional_text(env_phrase),
        ),
{
    let mut locked: bool = false;
    let mut name: Option<String> = None;
    let mut phrase_flag: Option<String> = None;
    let mut no_phrase: bool = false;
    let mut hotkey: bool = true;
    let ghost args = crate::text::texts(rest@);
    let mut i: usize = 0;
    let mut options_left: bool = true;
    assert(args.skip(0) =~= args);
    while options_left && i < rest.len()
        invariant
            i <= rest@.len(),
            args == crate::text::texts(rest@),
            options_left ==> flags_and_command(args, no_flags()) == flags_and_command(
                args.skip(i as int),
                Flags {
                    locked,
                    name: crate::text::optional_text(name),
                    phrase: crate::text::optional_text(phrase_flag),
                    no_phrase,
                    hotkey,
                },
            ),
            !options_left ==> flags_and_command(args, no_flags()) == Ok::<
                (Flags, Seq<Seq<char>>),
                Seq<char>,
            >(
                (
                    Flags {
                        locked,
                        name: crate::text::optional_text(name),
                        phrase: crate::text::optional_text(phrase_flag),
                        no_phrase,
                        hotkey,
                    },
                    args.skip(i as int),
                ),
            ),
        decreases rest@.len() - i,
    {
        let arg: &str = rest[i].as_str();
        let ghost here = args.skip(i as int);
        assert(here[0] == arg@);
        assert(here.skip(1) =~= args.skip(i + 1));
        i = i + 1;
        if same_text(arg, "--") {
            options_left = false;
        } else if same_text(arg, "--locked") {
            locked = true;
        } else if same_text(arg, "--no-hotkey") {
            hotkey = false;
        } else if same_text(arg, "--no-phrase") {
            no_phrase = true;
        } else if same_text(arg, "--name") {
            if i == rest.len() {
                return Err("--name needs a value".to_owned());
            }
            name = Some(rest[i].clone());
            assert(args.skip(i as int).skip(1) =~= args.skip(i + 1));
            i = i + 1;
        } else if same_text(arg, "--phrase") {
            if i == rest.len() {
                return Err("--phrase needs a value".to_owned());
            }
            phrase_flag = Some(rest[i].clone());
            assert(args.skip(i as int).skip(1) =~= args.skip(i + 1));
            i = i + 1;
        } else {
            return Err(concat3("unknown option `", arg, "` (put the command after `--`)"));
        }
    }
    let ghost flags = Flags {
        locked,
        name: crate::text::optional_text(name),
        phrase: crate::text::optional_text(phrase_flag),
        no_phrase,
        hotkey,
    };
    let ghost given = args.skip(i as int);
    assert(given.len() == 0 ==> given =~= Seq::empty());
    assert(flags_and_command(args, no_flags()) == Ok::<(Flags, Seq<Seq<char>>), Seq<char>>(
        (flags, given),
    ));
    if i == rest.len() {
        return Err("missing command after `--`".to_owned());
    }
    let command: Vec<String> = strings_from(rest, i);
    assert(crate::text::texts(command@) =~= given);
    if no_phrase && phrase_flag.is_some() {
        return Err("--phrase and --no-phrase conflict".to_owned());
    }
    let phrase: Option<String> = if no_phrase {
        None
    } else {
        let phrase: String = match (phrase_flag, env_phrase) {
            (Some(phrase), _) => phrase,
            (None, Some(phrase)) => phrase,
            (None, None) => DEFAULT_PHRASE.to_owned(),
        };
        if phrase.as_str().is_empty() {
            return Err("phrase must not be empty".to_owned());
        }
        // A `Gate` only collects printable ASCII while locked.
        if !is_printable_ascii(phrase.as_str()) {
            return Err("phrase must be printable ASCII".to_owned());
        }
        Some(phrase)
    };
    Ok(RunOptions { locked, name, phrase, hotkey, command })
}

/// Copies of the strings from position `start` on.
fn strings_from(strings: &[String], start: usize) -> (copies: Vec<String>)
    requires
        start <= strings@.len(),
    ensures
        copies@ == strings@.skip(start as int),
{
    let mut copies: Vec<String> = Vec::new();
    let mut i: usize = start;
    while i < strings.len()
        invariant
            start <= i <= strings@.len(),
            copies@ == strings@.subrange(start as int, i as int),
        decreases strings@.len() - i,
    {
        copies.push(strings[i].clone());
        i = i + 1;
        assert(copies@ =~= strings@.subrange(start as int, i as int));
    }
    assert(copies@ =~= strings@.skip(start as int));
    copies
}

/// What `run` accepts can be run: there is a command, and a phrase, if there
/// is one, is printable ASCII and not empty.
pub proof fn law_run_options_are_usable(args: Seq<Seq<char>>, env: Option<Seq<char>>)
    ensures
        parsed(args, env) matches Ok(CommandView::Run(options)) ==> {
            &&& options.command.len() > 0
            &&& options.phrase matches Some(phrase) ==> phrase.len() > 0
                && crate::text::printable_ascii(phrase)
        },
{
}

/// A list of options, each with its value if it takes one.
pub open spec fn complete_options(args: Seq<Seq<char>>) -> bool
    decreases args.len(),
{
    if args.len() == 0 {
        true
    } else if args[0] == "--locked"@ || args[0] == "--no-hotkey"@ || args[0] == "--no-phrase"@ {
        complete_options(args.skip(1))
    } else if args[0] == "--name"@ || args[0] == "--phrase"@ {
        args.len() >= 2 && complete_options(args.skip(2))
    } else {
        false
    }
}

/// Everything after the `--` that ends the options belongs to the command,
/// whatever it looks like, and only what stands before it counts as an option.
pub proof fn law_command_is_taken_verbatim(
    options: Seq<Seq<char>>,
    command: Seq<Seq<char>>,
    env: Option<Seq<char>>,
)
    requires
        complete_options(options),
    ensures
        ({
            let args = options + seq!["--"@] + command;
            &&& flags_and_command(options, no_flags()) matches Ok((flags, _))
            &&& flags_and_command(args, no_flags()) == Ok::<(Flags, Seq<Seq<char>>), Seq<char>>(
                (flags, command),
            )
            &&& run_parsed(args, env) matches Ok(run) ==> {
                &&& run.command == command
                &&& run.locked == flags.locked
                &&& run.name == flags.name
                &&& run.hotkey == flags.hotkey
            }
        }),
{
    lemma_options_end_at_double_dash(options, command, no_flags());
}

proof fn lemma_options_end_at_double_dash(
    options: Seq<Seq<char>>,
    command: Seq<Seq<char>>,
    flags: Flags,
)
    requires
        complete_options(options),
    ensures
        flags_and_command(options, flags) is Ok,
        flags_and_command(options + seq!["--"@] + command, flags) == Ok::<
            (Flags, Seq<Seq<char>>),
            Seq<char>,
        >((flags_and_command(options, flags)->Ok_0.0, command)),
    decreases options.len(),
{
    let args = options + seq!["--"@] + command;
    if options.len() == 0 {
        assert(args[0] == "--"@);
        assert(args.skip(1) =~= command);
    } else {
        lemma_options_are_not_double_dash();
        assert(args[0] == options[0]);
        assert(args.skip(1) =~= options.skip(1) + seq!["--"@] + command);
        if options[0] == "--locked"@ {
            let next = Flags { locked: true, ..flags };
            lemma_options_end_at_double_dash(options.skip(1), command, next);
        } else if options[0] == "--no-hotkey"@ {
            let next = Flags { hotkey: false, ..flags };
            lemma_options_end_at_double_dash(options.skip(1), command, next);
        } else if options[0] == "--no-phrase"@ {
            let next = Flags { no_phrase: true, ..flags };
            lemma_options_end_at_double_dash(options.skip(1), command, next);
        } else {
            let next = if options[0] == "--name"@ {
                Flags { name: Some(options[1]), ..flags }
            } else {
                Flags { phrase: Some(options[1]), ..flags }
            };
            assert(options.skip(1).skip(1) =~= options.skip(2));
            assert(args.skip(1).skip(1) =~= options.skip(2) + seq!["--"@] + command);
            lemma_options_end_at_double_dash(options.skip(2), command, next);
        }
    }
}

proof fn lemma_options_are_not_double_dash()
    ensures
        "--locked"@ != "--"@,
        "--no-hotkey"@ != "--"@,
        "--no-phrase"@ != "--"@,
        "--name"@ != "--"@,
        "--phrase"@ != "--"@,
{
    reveal_strlit("--");
    reveal_strlit("--locked");
    reveal_strlit("--no-hotkey");
    reveal_strlit("--no-phrase");
    reveal_strlit("--name");
    reveal_strlit("--phrase");
    assert("--"@.len() == 2 && "--locked"@.len() == 8 && "--no-hotkey"@.len() == 11);
    assert("--no-phrase"@.len() == 11 && "--name"@.len() == 6 && "--phrase"@.len() == 8);
}

/// The phrase option goes before the environment's phrase, which goes before
/// the default; without a phrase neither counts.
pub proof fn law_phrase_precedence(
    args: Seq<Seq<char>>,
    flags: Flags,
    command: Seq<Seq<char>>,
    env: Option<Seq<char>>,
)
    requires
        flags_and_command(args, no_flags()) == Ok::<(Flags, Seq<Seq<char>>), Seq<char>>(
            (flags, command),
        ),
    ensures
        run_parsed(args, env) matches Ok(run) ==> {
            &&& flags.no_phrase ==> run.phrase is None
            &&& !flags.no_phrase && flags.phrase is Some ==> run.phrase == flags.phrase
            &&& !flags.no_phrase && flags.phrase is None && env is Some ==> run.phrase == env
            &&& !flags.no_phrase && flags.phrase is None && env is None ==> run.phrase == Some(
                DEFAULT_PHRASE@,
            )
        },
{
}

/// The environment's phrase has no effect where the arguments of `run` give a
/// phrase or ask for none, nor where they are wrong, nor outside `run`.
pub proof fn law_environment_phrase_is_a_fallback(
    args: Seq<Seq<char>>,
    env: Option<Seq<char>>,
    other: Option<Seq<char>>,
)
    ensures
        (flags_and_command(args, no_flags()) matches Ok((flags, _)) ==> flags.phrase is Some
            || flags.no_phrase) ==> run_parsed(args, env) == run_parsed(args, other),
        args.len() == 0 || args[0] != "run"@ ==> parsed(args, env) == parsed(args, other),
        args.len() > 0 && run_parsed(args.skip(1), env) == run_parsed(args.skip(1), other)
            ==> parsed(args, env) == parsed(args, other),
{
}

/// A phrase that `run` accepts can be typed: on a locked `Gate`, the phrase and
/// Enter unlock, unless the phrase is longer than the longest line that is
/// compared.
pub proof fn law_accepted_phrase_unlocks(
    args: Seq<Seq<char>>,
    env: Option<Seq<char>>,
    run: RunView,
    phrase: Seq<char>,
    enter: u8,
)
    requires
        run_parsed(args, env) == Ok::<RunView, Seq<char>>(run),
        run.phrase == Some(phrase),
        phrase.len() <= crate::gate::PHRASE_CAP,
        crate::gate::is_enter(enter),
    ensures
        ({
            let keys = vstd::utf8::encode_utf8(phrase);
            let gate = crate::gate::new_gate(true, run.hotkey, Some(keys));
            let (after, out) = gate.fed(keys.push(enter));
            &&& !after.locked
            &&& out.forward.len() == 0
            &&& out.events.contains(crate::gate::Event::Unlock)
        }),
{
    let keys = vstd::utf8::encode_utf8(phrase);
    let gate = crate::gate::new_gate(true, run.hotkey, Some(keys));
    assert(vstd::utf8::is_ascii_chars(phrase)) by {
        assert forall|i: int| 0 <= i < phrase.len() implies 0 <= #[trigger] phrase[i] as nat
            <= 127 by {
            assert(' ' <= phrase[i] <= '~');
        }
    }
    vstd::utf8::is_ascii_chars_encode_utf8(phrase);
    assert forall|i: int| 0 <= i < keys.len() implies crate::gate::printable(
        #[trigger] keys[i],
    ) by {
        assert(' ' <= phrase[i] <= '~');
    }
    crate::gate_laws::law_line_unlocks_iff_phrase(gate, keys, enter);
    assert(gate.fed(keys.push(enter)).1.events[1] == crate::gate::Event::Unlock);
}

} // verus!
