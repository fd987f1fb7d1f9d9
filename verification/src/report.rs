//! What keylock says outside a session: how a session is named when it starts,
//! what a client prints, and the exit codes.

use crate::control::{default_name, valid_name};
use crate::fault::Fault;
use crate::relay::Failure;
use crate::text::{chars_of, concat3};
use vstd::prelude::*;
use vstd::string::*;

verus! {

/// The exit code of a client whose request failed.
pub const FAILURE_EXIT: i32 = 1;

/// The exit code for arguments that make no sense here.
pub const USAGE_EXIT: i32 = 2;

/// The exit code for a command that cannot be run.
pub const NOT_RUNNABLE_EXIT: i32 = 126;

/// The exit code for a command that is not there.
pub const NOT_FOUND_EXIT: i32 = 127;

/// The exit code of a session that could not be run to its end.
pub fn failure_exit(failure: Failure) -> (code: i32)
    ensures
        code == match failure {
            Failure::Spawn(Fault::NotFound) => NOT_FOUND_EXIT,
            Failure::Spawn(_) => NOT_RUNNABLE_EXIT,
            Failure::Io(_) => FAILURE_EXIT,
        },
{
    match failure {
        Failure::Spawn(Fault::NotFound) => NOT_FOUND_EXIT,
        Failure::Spawn(_) => NOT_RUNNABLE_EXIT,
        Failure::Io(_) => FAILURE_EXIT,
    }
}

/// The name that a new session asks for: the one given, if it can name a
/// session, or else one made up from the program.
pub fn session_base(name: Option<String>, program: &str) -> (base: Result<String, String>)
    ensures
        match (name, base) {
            (Some(name), Ok(base)) => crate::control::is_name(name@) && base@ == name@,
            (Some(name), Err(message)) => !crate::control::is_name(name@) && message@
                == "invalid session name `"@ + name@ + "`"@,
            (None, Ok(base)) => base@ == crate::control::name_from(program@),
            (None, Err(_)) => false,
        },
{
    match name {
        Some(name) => {
            if valid_name(name.as_str()) {
                Ok(name)
            } else {
                Err(concat3("invalid session name `", name.as_str(), "`"))
            }
        },
        None => Ok(default_name(program)),
    }
}

/// `text` with its first space doubled.
pub open spec fn first_space_doubled(text: Seq<char>) -> Seq<char>
    decreases text.len(),
{
    if text.len() == 0 {
        text
    } else if text[0] == ' ' {
        "  "@ + text.skip(1)
    } else {
        seq![text[0]] + first_space_doubled(text.skip(1))
    }
}

/// The line of a listing about one session: its name, its state and the rest,
/// set apart.
pub fn ls_line(name: &str, state: &str) -> (line: String)
    ensures
        line@ == name@ + "  "@ + first_space_doubled(state@),
{
    let chars: Vec<char> = chars_of(state);
    let mut i: usize = 0;
    assert(state@.skip(0) =~= state@);
    assert(state@.take(0) + first_space_doubled(state@) =~= first_space_doubled(state@));
    while i < chars.len() && chars[i] != ' '
        invariant
            chars@ == state@,
            i <= chars@.len(),
            first_space_doubled(state@) == state@.take(i as int) + first_space_doubled(
                state@.skip(i as int),
            ),
        decreases chars@.len() - i,
    {
        let ghost rest = first_space_doubled(state@.skip(i + 1));
        assert(state@.skip(i as int).skip(1) =~= state@.skip(i + 1));
        assert(state@.take(i as int) + (seq![state@[i as int]] + rest) =~= state@.take(i + 1)
            + rest);
        i = i + 1;
    }
    let mut line: String = concat3(name, "  ", state.substring_char(0, i));
    assert(state@.subrange(0, i as int) =~= state@.take(i as int));
    if i < chars.len() {
        line.append("  ");
        line.append(state.substring_char(i + 1, chars.len()));
        assert(state@.subrange(i + 1, chars@.len() as int) =~= state@.skip(i as int).skip(1));
    }
    assert(line@ =~= name@ + "  "@ + first_space_doubled(state@));
    line
}

/// Each name on a line of its own, indented.
pub open spec fn indented(names: Seq<Seq<char>>) -> Seq<char>
    decreases names.len(),
{
    if names.len() == 0 {
        Seq::empty()
    } else {
        indented(names.drop_last()) + "\n  "@ + names.last()
    }
}

/// The message that there is no session `name`, with the sessions there are.
pub fn no_session_message(name: &str, live: &[String]) -> (message: String)
    ensures
        message@ == "no session named "@ + name@ + if live@.len() == 0 {
            Seq::empty()
        } else {
            "\nlive sessions:"@ + indented(crate::text::texts(live@))
        },
{
    let mut message: String = "no session named ".to_owned();
    message.append(name);
    if live.len() == 0 {
        assert("no session named "@ + name@ + Seq::<char>::empty() =~= "no session named "@
            + name@);
        return message;
    }
    message.append("\nlive sessions:");
    let ghost opening = message@;
    let ghost all = crate::text::texts(live@);
    let mut i: usize = 0;
    assert(all.take(0) =~= Seq::empty());
    assert(opening + Seq::<char>::empty() =~= opening);
    while i < live.len()
        invariant
            all == crate::text::texts(live@),
            i <= live@.len(),
            message@ == opening + indented(all.take(i as int)),
        decreases live@.len() - i,
    {
        message.append("\n  ");
        message.append(live[i].as_str());
        i = i + 1;
        assert(all.take(i as int).drop_last() =~= all.take(i - 1));
        assert(message@ =~= opening + indented(all.take(i as int)));
    }
    assert(all.take(i as int) =~= all);
    assert(message@ =~= "no session named "@ + name@ + ("\nlive sessions:"@ + indented(all)));
    message
}

/// A listing sets the first word of a state apart from the rest, and leaves
/// everything else as it is.
pub proof fn law_first_word_is_set_apart(word: Seq<char>, rest: Seq<char>)
    requires
        forall|i: int| 0 <= i < word.len() ==> #[trigger] word[i] != ' ',
    ensures
        first_space_doubled(word) == word,
        first_space_doubled(word.push(' ') + rest) == word + seq![' ', ' '] + rest,
    decreases word.len(),
{
    let whole = word.push(' ') + rest;
    reveal_strlit("  ");
    assert("  "@ =~= seq![' ', ' ']);
    if word.len() == 0 {
        assert(whole[0] == ' ');
        assert(whole.skip(1) =~= rest);
        assert(first_space_doubled(whole) =~= word + seq![' ', ' '] + rest);
    } else {
        let tail = word.skip(1);
        assert forall|i: int| 0 <= i < tail.len() implies #[trigger] tail[i] != ' ' by {
            assert(word[i + 1] != ' ');
        }
        law_first_word_is_set_apart(tail, rest);
        assert(word[0] != ' ');
        assert(seq![word[0]] + tail =~= word);
        assert(whole.skip(1) =~= tail.push(' ') + rest);
        assert(seq![word[0]] + (tail + seq![' ', ' '] + rest) =~= word + seq![' ', ' '] + rest);
    }
}

/// Names are listed in order, each on a line of its own behind two spaces.
pub proof fn law_names_stand_on_their_lines(first: Seq<Seq<char>>, second: Seq<Seq<char>>)
    ensures
        indented(Seq::empty()).len() == 0,
        first.len() == 1 ==> indented(first) == seq!['\n', ' ', ' '] + first[0],
        indented(first + second) == indented(first) + indented(second),
    decreases second.len(),
{
    reveal_strlit("\n  ");
    assert("\n  "@ =~= seq!['\n', ' ', ' ']);
    if first.len() == 1 {
        assert(first.drop_last() =~= Seq::empty());
        assert(indented(Seq::empty()) =~= Seq::empty());
        assert(indented(first) =~= seq!['\n', ' ', ' '] + first[0]);
    }
    if second.len() == 0 {
        assert(first + second =~= first);
        assert(indented(first) + Seq::<char>::empty() =~= indented(first));
    } else {
        law_names_stand_on_their_lines(first, second.drop_last());
        assert((first + second).drop_last() =~= first + second.drop_last());
        let left = indented(first);
        let right = indented(second.drop_last());
        assert(left + right + "\n  "@ + second.last() =~= left + (right + "\n  "@
            + second.last()));
    }
}

} // verus!
