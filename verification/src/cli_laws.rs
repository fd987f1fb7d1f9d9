//! What the command line means, stated by the options and words it holds.

use crate::cli::{Command, CommandView, Flags, RunOptions, RunView};
use vstd::prelude::*;

verus! {

/// An option of `run`.
pub enum Opt {
    Locked,
    NoHotkey,
    NoPhrase,
    Name(Seq<char>),
    Phrase(Seq<char>),
}

/// The arguments that give an option.
pub open spec fn words_of(option: Opt) -> Seq<Seq<char>> {
    match option {
        Opt::Locked => seq!["--locked"@],
        Opt::NoHotkey => seq!["--no-hotkey"@],
        Opt::NoPhrase => seq!["--no-phrase"@],
        Opt::Name(name) => seq!["--name"@, name],
        Opt::Phrase(phrase) => seq!["--phrase"@, phrase],
    }
}

/// The arguments that give the options, in order.
pub open spec fn written(options: Seq<Opt>) -> Seq<Seq<char>>
    decreases options.len(),
{
    if options.len() == 0 {
        Seq::empty()
    } else {
        words_of(options[0]) + written(options.skip(1))
    }
}

/// The name that is given last.
pub open spec fn last_name(options: Seq<Opt>) -> Option<Seq<char>>
    decreases options.len(),
{
    if options.len() == 0 {
        None
    } else {
        match options.last() {
            Opt::Name(name) => Some(name),
            _ => last_name(options.drop_last()),
        }
    }
}

/// The phrase that is given last.
pub open spec fn last_phrase(options: Seq<Opt>) -> Option<Seq<char>>
    decreases options.len(),
{
    if options.len() == 0 {
        None
    } else {
        match options.last() {
            Opt::Phrase(phrase) => Some(phrase),
            _ => last_phrase(options.drop_last()),
        }
    }
}

/// The first that there is.
pub open spec fn first_given(
    first: Option<Seq<char>>,
    second: Option<Seq<char>>,
    third: Seq<char>,
) -> Seq<char> {
    match first {
        Some(text) => text,
        None => match second {
            Some(text) => text,
            None => third,
        },
    }
}

/// What `run` makes of its options: the session starts locked exactly if
/// `--locked` is among them, has the hotkey exactly if `--no-hotkey` is not, and
/// has the name given last, whatever else is given and in whatever order. The
/// phrase is the one given last, or else the environment's, or else `unlock`;
/// there is none exactly if `--no-phrase` is given. Each mistake has its
/// message, and without a mistake the options are accepted.
pub proof fn law_run_means_its_options(
    options: Seq<Opt>,
    command: Seq<Seq<char>>,
    env: Option<Seq<char>>,
)
    ensures
        ({
            let result = crate::cli::run_parsed(
                written(options) + seq!["--"@] + command,
                env,
            );
            let without = options.contains(Opt::NoPhrase);
            let phrase = first_given(last_phrase(options), env, "unlock"@);
            if command.len() == 0 {
                result == Err::<RunView, Seq<char>>("missing command after `--`"@)
            } else if without && last_phrase(options) is Some {
                result == Err::<RunView, Seq<char>>("--phrase and --no-phrase conflict"@)
            } else if !without && phrase.len() == 0 {
                result == Err::<RunView, Seq<char>>("phrase must not be empty"@)
            } else if !without && exists|i: int|
                0 <= i < phrase.len() && !(' ' <= #[trigger] phrase[i] <= '~') {
                result == Err::<RunView, Seq<char>>("phrase must be printable ASCII"@)
            } else {
                &&& result matches Ok(run)
                &&& run.locked == options.contains(Opt::Locked)
                &&& run.hotkey == !options.contains(Opt::NoHotkey)
                &&& run.name == last_name(options)
                &&& run.phrase == if without {
                    None
                } else {
                    Some(phrase)
                }
                &&& run.command == command
            }
        }),
{
    let tail = seq!["--"@] + command;
    assert(written(options) + seq!["--"@] + command =~= written(options) + tail);
    lemma_options_are_collected(options, tail, crate::cli::no_flags());
    assert(tail[0] == "--"@);
    assert(tail.skip(1) =~= command);
}

/// What is wrong with the arguments of `run`: no command, an option without its
/// value, or an argument before the `--` that is no option. Nothing that stands
/// before changes that.
pub proof fn law_run_tells_what_is_wrong(
    options: Seq<Opt>,
    other: Seq<char>,
    rest: Seq<Seq<char>>,
    env: Option<Seq<char>>,
)
    ensures
        crate::cli::run_parsed(written(options), env) == Err::<RunView, Seq<char>>(
            "missing command after `--`"@,
        ),
        crate::cli::run_parsed(written(options) + seq!["--name"@], env) == Err::<
            RunView,
            Seq<char>,
        >("--name needs a value"@),
        crate::cli::run_parsed(written(options) + seq!["--phrase"@], env) == Err::<
            RunView,
            Seq<char>,
        >("--phrase needs a value"@),
        other != "--"@ && other != "--locked"@ && other != "--no-hotkey"@ && other
            != "--no-phrase"@ && other != "--name"@ && other != "--phrase"@
            ==> crate::cli::run_parsed(written(options) + seq![other] + rest, env) == Err::<
            RunView,
            Seq<char>,
        >("unknown option `"@ + other + "` (put the command after `--`)"@),
{
    let flags = crate::cli::no_flags();
    lemma_words_differ();
    let none = Seq::<Seq<char>>::empty();
    assert(written(options) + none =~= written(options));
    lemma_options_are_collected(options, none, flags);
    lemma_options_are_collected(options, seq!["--name"@], flags);
    lemma_options_are_collected(options, seq!["--phrase"@], flags);
    assert(seq!["--name"@].skip(1) =~= none);
    assert(seq!["--phrase"@].skip(1) =~= none);
    let tail = seq![other] + rest;
    assert(written(options) + seq![other] + rest =~= written(options) + tail);
    lemma_options_are_collected(options, tail, flags);
    assert(tail[0] == other);
}

/// The options added to those collected so far.
spec fn collected(flags: Flags, options: Seq<Opt>) -> Flags {
    Flags {
        locked: flags.locked || options.contains(Opt::Locked),
        name: match last_name(options) {
            Some(name) => Some(name),
            None => flags.name,
        },
        phrase: match last_phrase(options) {
            Some(phrase) => Some(phrase),
            None => flags.phrase,
        },
        no_phrase: flags.no_phrase || options.contains(Opt::NoPhrase),
        hotkey: flags.hotkey && !options.contains(Opt::NoHotkey),
    }
}

proof fn lemma_options_are_collected(options: Seq<Opt>, tail: Seq<Seq<char>>, flags: Flags)
    ensures
        crate::cli::flags_and_command(written(options) + tail, flags)
            == crate::cli::flags_and_command(tail, collected(flags, options)),
    decreases options.len(),
{
    if options.len() == 0 {
        assert(written(options) + tail =~= tail);
        assert(collected(flags, options) =~= flags);
    } else {
        lemma_words_differ();
        let rest = options.skip(1);
        let args = written(options) + tail;
        let words = words_of(options[0]);
        let after = written(rest) + tail;
        assert(args =~= words + after);
        assert(args[0] == words[0]);
        if words.len() == 1 {
            assert(args.skip(1) =~= after);
        } else {
            assert(args.skip(1)[0] == words[1]);
            assert(args.skip(1).skip(1) =~= after);
        }
        let next = match options[0] {
            Opt::Locked => Flags { locked: true, ..flags },
            Opt::NoHotkey => Flags { hotkey: false, ..flags },
            Opt::NoPhrase => Flags { no_phrase: true, ..flags },
            Opt::Name(name) => Flags { name: Some(name), ..flags },
            Opt::Phrase(phrase) => Flags { phrase: Some(phrase), ..flags },
        };
        lemma_options_are_collected(rest, tail, next);
        assert(seq![options[0]] + rest =~= options);
        lemma_first_option(options[0], rest);
        assert(collected(next, rest) =~= collected(flags, options));
    }
}

proof fn lemma_first_option(first: Opt, rest: Seq<Opt>)
    ensures
        ({
            let options = seq![first] + rest;
            &&& forall|option: Opt| #[trigger]
                options.contains(option) <==> option == first || rest.contains(option)
            &&& last_name(options) == match last_name(rest) {
                Some(name) => Some(name),
                None => match first {
                    Opt::Name(name) => Some(name),
                    _ => None,
                },
            }
            &&& last_phrase(options) == match last_phrase(rest) {
                Some(phrase) => Some(phrase),
                None => match first {
                    Opt::Phrase(phrase) => Some(phrase),
                    _ => None,
                },
            }
        }),
    decreases rest.len(),
{
    let options = seq![first] + rest;
    assert forall|option: Opt| #[trigger] options.contains(option) <==> option == first
        || rest.contains(option) by {
        assert(options[0] == first);
        if rest.contains(option) {
            let i = choose|i: int| 0 <= i < rest.len() && rest[i] == option;
            assert(options[i + 1] == option);
        }
        if options.contains(option) && option != first {
            let i = choose|i: int| 0 <= i < options.len() && options[i] == option;
            assert(rest[i - 1] == option);
        }
    }
    if rest.len() == 0 {
        assert(options.drop_last() =~= Seq::empty());
        assert(last_name(Seq::empty()) is None);
        assert(last_phrase(Seq::empty()) is None);
        assert(options.last() == first);
    } else {
        lemma_first_option(first, rest.drop_last());
        assert(options.drop_last() =~= seq![first] + rest.drop_last());
        assert(options.last() == rest.last());
    }
}

proof fn lemma_words_differ()
    ensures
        "--locked"@ != "--"@,
        "--no-hotkey"@ != "--"@ && "--no-hotkey"@ != "--locked"@,
        "--no-phrase"@ != "--"@ && "--no-phrase"@ != "--locked"@ && "--no-phrase"@
            != "--no-hotkey"@,
        "--name"@ != "--"@ && "--name"@ != "--locked"@ && "--name"@ != "--no-hotkey"@
            && "--name"@ != "--no-phrase"@,
        "--phrase"@ != "--"@ && "--phrase"@ != "--locked"@ && "--phrase"@ != "--no-hotkey"@
            && "--phrase"@ != "--no-phrase"@ && "--phrase"@ != "--name"@,
{
    reveal_strlit("--");
    reveal_strlit("--locked");
    reveal_strlit("--no-hotkey");
    reveal_strlit("--no-phrase");
    reveal_strlit("--name");
    reveal_strlit("--phrase");
    assert("--"@.len() == 2 && "--name"@.len() == 6);
    assert("--locked"@.len() == 8 && "--locked"@[2] == 'l');
    assert("--phrase"@.len() == 8 && "--phrase"@[2] == 'p');
    assert("--no-hotkey"@.len() == 11 && "--no-hotkey"@[5] == 'h');
    assert("--no-phrase"@.len() == 11 && "--no-phrase"@[5] == 'p');
}

/// What each subcommand means: `on`, `off` and `status` take exactly one
/// session name, whatever it is, and `ls` nothing; `run` is what its arguments
/// mean, and help is given whatever follows. Anything else is refused by name.
pub proof fn law_subcommands(
    name: Seq<char>,
    second: Seq<char>,
    rest: Seq<Seq<char>>,
    env: Option<Seq<char>>,
)
    ensures
        crate::cli::parsed(seq!["on"@, name], env) == Ok::<CommandView, Seq<char>>(
            CommandView::On(name),
        ),
        crate::cli::parsed(seq!["off"@, name], env) == Ok::<CommandView, Seq<char>>(
            CommandView::Off(name),
        ),
        crate::cli::parsed(seq!["status"@, name], env) == Ok::<CommandView, Seq<char>>(
            CommandView::Status(name),
        ),
        crate::cli::parsed(seq!["ls"@], env) == Ok::<CommandView, Seq<char>>(CommandView::Ls),
        crate::cli::parsed(seq!["ls"@, name] + rest, env) == Err::<CommandView, Seq<char>>(
            "ls takes no arguments"@,
        ),
        forall|word: Seq<char>|
            word == "on"@ || word == "off"@ || word == "status"@ ==> {
                &&& #[trigger] crate::cli::parsed(seq![word], env) == Err::<
                    CommandView,
                    Seq<char>,
                >("missing session name"@)
                &&& crate::cli::parsed(seq![word, name, second] + rest, env) == Err::<
                    CommandView,
                    Seq<char>,
                >("expected exactly one session name"@)
            },
        forall|word: Seq<char>|
            word == "-h"@ || word == "--help"@ || word == "help"@
                ==> #[trigger] crate::cli::parsed(seq![word] + rest, env) == Ok::<
                CommandView,
                Seq<char>,
            >(CommandView::Help),
        crate::cli::run_parsed(rest, env) matches Ok(run) ==> crate::cli::parsed(
            seq!["run"@] + rest,
            env,
        ) == Ok::<CommandView, Seq<char>>(CommandView::Run(run)),
        crate::cli::run_parsed(rest, env) matches Err(message) ==> crate::cli::parsed(
            seq!["run"@] + rest,
            env,
        ) == Err::<CommandView, Seq<char>>(message),
        crate::cli::parsed(Seq::empty(), env) == Err::<CommandView, Seq<char>>(
            "missing subcommand"@,
        ),
        name != "-h"@ && name != "--help"@ && name != "help"@ && name != "run"@ && name != "on"@
            && name != "off"@ && name != "status"@ && name != "ls"@ ==> crate::cli::parsed(
            seq![name] + rest,
            env,
        ) == Err::<CommandView, Seq<char>>("unknown subcommand `"@ + name + "`"@),
{
    lemma_subcommands_differ();
    let none = Seq::<Seq<char>>::empty();
    assert(seq!["on"@, name].skip(1) =~= seq![name]);
    assert(seq!["off"@, name].skip(1) =~= seq![name]);
    assert(seq!["status"@, name].skip(1) =~= seq![name]);
    assert(seq!["ls"@].skip(1) =~= none);
    assert((seq!["ls"@, name] + rest)[0] == "ls"@);
    assert((seq!["ls"@, name] + rest).skip(1).len() > 0);
    assert((seq!["run"@] + rest)[0] == "run"@);
    assert((seq!["run"@] + rest).skip(1) =~= rest);
    assert((seq![name] + rest)[0] == name);
    assert forall|word: Seq<char>|
        word == "on"@ || word == "off"@ || word == "status"@ implies #[trigger] crate::cli::parsed(
        seq![word],
        env,
    ) == Err::<CommandView, Seq<char>>("missing session name"@) && crate::cli::parsed(
        seq![word, name, second] + rest,
        env,
    ) == Err::<CommandView, Seq<char>>("expected exactly one session name"@) by {
        assert(seq![word][0] == word);
        assert(seq![word].skip(1).len() == 0);
        let many = seq![word, name, second] + rest;
        assert(many[0] == word);
        assert(many.skip(1).len() >= 2);
    }
    assert forall|word: Seq<char>|
        word == "-h"@ || word == "--help"@ || word
            == "help"@ implies #[trigger] crate::cli::parsed(seq![word] + rest, env) == Ok::<
        CommandView,
        Seq<char>,
    >(CommandView::Help) by {
        assert((seq![word] + rest)[0] == word);
    }
}

proof fn lemma_subcommands_differ()
    ensures
        "run"@ != "-h"@ && "run"@ != "--help"@ && "run"@ != "help"@,
        "on"@ != "-h"@ && "on"@ != "--help"@ && "on"@ != "help"@,
        "off"@ != "-h"@ && "off"@ != "--help"@ && "off"@ != "help"@,
        "status"@ != "-h"@ && "status"@ != "--help"@ && "status"@ != "help"@,
        "ls"@ != "-h"@ && "ls"@ != "--help"@ && "ls"@ != "help"@,
        "run"@ != "on"@ && "run"@ != "off"@ && "run"@ != "status"@ && "run"@ != "ls"@,
        "on"@ != "off"@ && "on"@ != "status"@ && "on"@ != "ls"@,
        "off"@ != "status"@ && "off"@ != "ls"@,
        "status"@ != "ls"@,
{
    reveal_strlit("-h");
    reveal_strlit("--help");
    reveal_strlit("help");
    reveal_strlit("run");
    reveal_strlit("on");
    reveal_strlit("off");
    reveal_strlit("status");
    reveal_strlit("ls");
    assert("-h"@.len() == 2 && "-h"@[0] == '-');
    assert("--help"@.len() == 6 && "--help"@[0] == '-');
    assert("help"@.len() == 4);
    assert("run"@.len() == 3 && "run"@[0] == 'r');
    assert("on"@.len() == 2 && "on"@[0] == 'o');
    assert("off"@.len() == 3 && "off"@[0] == 'o');
    assert("status"@.len() == 6 && "status"@[0] == 's');
    assert("ls"@.len() == 2 && "ls"@[0] == 'l');
}

/// What the parser returns stands for what it holds, field by field.
pub proof fn law_results_by_their_fields(options: RunOptions, name: String, message: String)
    ensures
        options@.locked == options.locked,
        options@.hotkey == options.hotkey,
        options@.name == crate::text::optional_text(options.name),
        options@.phrase == crate::text::optional_text(options.phrase),
        options@.command == crate::text::texts(options.command@),
        Command::Run(options)@ == CommandView::Run(options@),
        Command::On(name)@ == CommandView::On(name@),
        Command::Off(name)@ == CommandView::Off(name@),
        Command::Status(name)@ == CommandView::Status(name@),
        Command::Ls@ == CommandView::Ls,
        Command::Help@ == CommandView::Help,
        crate::cli::result_view(Ok::<Command, String>(Command::On(name))) == Ok::<
            CommandView,
            Seq<char>,
        >(CommandView::On(name@)),
        crate::cli::result_view(Ok::<RunOptions, String>(options)) == Ok::<RunView, Seq<char>>(
            options@,
        ),
        crate::cli::result_view(Err::<Command, String>(message)) == Err::<CommandView, Seq<char>>(
            message@,
        ),
{
}

} // verus!
