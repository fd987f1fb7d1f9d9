//! What session names, sockets and the control protocol promise.

use crate::control::{BindStep, DirState, Incoming, Request, SendError, MAX_DEFAULT_NAME};
use crate::fault::Fault;
use crate::text::DIGITS;
use vstd::prelude::*;

verus! {

/// A request is understood however much white space surrounds its word, so
/// the line that a client sends is understood as the request it stands for.
pub proof fn law_request_round_trip(request: Request, before: Seq<char>, after: Seq<char>)
    requires
        forall|i: int| 0 <= i < before.len() ==> crate::text::white_space(#[trigger] before[i]),
        forall|i: int| 0 <= i < after.len() ==> crate::text::white_space(#[trigger] after[i]),
    ensures
        crate::control::request_in(before + crate::control::request_word(request) + after) == Some(
            request,
        ),
        crate::control::meaning(
            crate::control::terminated(crate::control::request_word(request)),
        ) == Incoming::Ask(request),
{
    let word = crate::control::request_word(request);
    lemma_words(request);
    crate::text::lemma_trimmed(before, word, after);
    let line = crate::control::terminated(word);
    reveal_strlit("\n");
    assert("\n"@.len() == 1 && "\n"@[0] == '\n');
    crate::text::lemma_trimmed(Seq::empty(), word, "\n"@);
    assert(Seq::<char>::empty() + word + "\n"@ =~= line);
}

proof fn lemma_words(request: Request)
    ensures
        ({
            let word = crate::control::request_word(request);
            &&& word.len() > 0
            &&& !crate::text::white_space(word[0])
            &&& !crate::text::white_space(word.last())
        }),
        "lock"@ != "unlock"@,
        "lock"@ != "status"@,
        "unlock"@ != "status"@,
{
    reveal_strlit("lock");
    reveal_strlit("unlock");
    reveal_strlit("status");
    assert("lock"@.len() == 4 && "unlock"@.len() == 6 && "status"@.len() == 6);
    assert("unlock"@[0] == 'u' && "status"@[0] == 's');
}

/// The client gets back the reply that the session sent, unless that ends in
/// white space.
pub proof fn law_reply_round_trip(reply: Seq<char>)
    requires
        reply.len() > 0,
        !crate::text::white_space(reply.last()),
    ensures
        crate::control::terminated(reply).len() > 0,
        crate::text::trimmed_end(crate::control::terminated(reply)) == reply,
{
    reveal_strlit("\n");
    assert("\n"@.len() == 1 && "\n"@[0] == '\n');
    crate::text::lemma_trimmed_end(reply, "\n"@);
}

/// The line about a session tells whether it is locked.
pub proof fn law_state_line_tells_the_lock(
    locked: bool,
    pid: u32,
    command: Seq<char>,
    other: bool,
    other_pid: u32,
    other_command: Seq<char>,
)
    requires
        crate::control::state_text(locked, pid, command) == crate::control::state_text(
            other,
            other_pid,
            other_command,
        ),
    ensures
        locked == other,
{
    reveal_strlit("locked");
    reveal_strlit("unlocked");
    assert("locked"@.len() == 6 && "locked"@[0] == 'l');
    assert("unlocked"@.len() == 8 && "unlocked"@[0] == 'u');
    assert(crate::control::state_text(locked, pid, command)[0] == if locked {
        'l'
    } else {
        'u'
    });
    assert(crate::control::state_text(other, other_pid, other_command)[0] == if other {
        'l'
    } else {
        'u'
    });
}

/// A socket's file name gives back the session's name.
pub proof fn law_socket_round_trip(name: Seq<char>)
    ensures
        crate::control::session_of(crate::control::socket_of(name)) == Some(name),
{
    reveal_strlit(".sock");
    let file = crate::control::socket_of(name);
    let stem = file.len() - ".sock"@.len();
    assert(file.skip(stem) =~= ".sock"@);
    assert(file.take(stem) =~= name);
}

/// The socket of a session lies in the directory for the sockets itself, and
/// is not hidden.
pub proof fn law_socket_stays_in_its_directory(name: Seq<char>)
    requires
        crate::control::is_name(name),
    ensures
        ({
            let file = crate::control::socket_of(name);
            &&& file[0] != '.'
            &&& forall|i: int| 0 <= i < file.len() ==> #[trigger] file[i] != '/' && file[i] != '\0'
        }),
{
    reveal_strlit(".sock");
    let file = crate::control::socket_of(name);
    assert(".sock"@.len() == 5);
    assert forall|i: int| 0 <= i < file.len() implies #[trigger] file[i] != '/' && file[i]
        != '\0' by {
        if i < name.len() {
            assert(crate::control::name_char(name[i]));
        } else {
            assert(file[i] == ".sock"@[i - name.len()]);
        }
    }
}

proof fn lemma_digits()
    ensures
        DIGITS@.len() == 10,
        forall|d: int| 0 <= d < 10 ==> '0' <= #[trigger] DIGITS@[d] <= '9',
        forall|d: int, e: int|
            0 <= d < 10 && 0 <= e < 10 && #[trigger] DIGITS@[d] == #[trigger] DIGITS@[e] ==> d == e,
{
    reveal_strlit("0123456789");
    assert(DIGITS@.len() == 10);
    assert(DIGITS@[0] == '0' && DIGITS@[1] == '1' && DIGITS@[2] == '2' && DIGITS@[3] == '3'
        && DIGITS@[4] == '4' && DIGITS@[5] == '5' && DIGITS@[6] == '6' && DIGITS@[7] == '7'
        && DIGITS@[8] == '8' && DIGITS@[9] == '9');
}

proof fn lemma_decimal(n: nat)
    ensures
        crate::text::decimal(n).len() > 0,
        n < 1000 ==> crate::text::decimal(n).len() <= 3,
        forall|i: int|
            0 <= i < crate::text::decimal(n).len() ==> crate::control::name_char(
                #[trigger] crate::text::decimal(n)[i],
            ),
    decreases n,
{
    lemma_digits();
    if n >= 10 {
        lemma_decimal(n / 10);
        if n < 1000 {
            assert(n / 10 < 100);
            lemma_two_digits(n / 10);
        }
    }
}

proof fn lemma_two_digits(n: nat)
    requires
        n < 100,
    ensures
        crate::text::decimal(n).len() <= 2,
{
    if n >= 10 {
        assert(n / 10 < 10);
        assert(crate::text::decimal(n / 10).len() == 1);
    }
}

proof fn lemma_decimal_injective(n: nat, m: nat)
    requires
        crate::text::decimal(n) == crate::text::decimal(m),
    ensures
        n == m,
    decreases n,
{
    lemma_digits();
    let left = crate::text::decimal(n);
    let right = crate::text::decimal(m);
    lemma_decimal(n / 10);
    lemma_decimal(m / 10);
    if n < 10 {
        assert(left.len() == 1);
        assert(m < 10);
        assert(left[0] == DIGITS@[n as int] && right[0] == DIGITS@[m as int]);
    } else {
        assert(left.len() >= 2);
        assert(m >= 10);
        assert(left.last() == DIGITS@[(n % 10) as int]);
        assert(right.last() == DIGITS@[(m % 10) as int]);
        assert(left.drop_last() =~= crate::text::decimal(n / 10));
        assert(right.drop_last() =~= crate::text::decimal(m / 10));
        lemma_decimal_injective(n / 10, m / 10);
    }
}

/// No two attempts try the same name.
pub proof fn law_attempts_differ(base: Seq<char>, attempt: u32, other: u32)
    requires
        attempt != other,
    ensures
        crate::control::attempted_name(base, attempt) != crate::control::attempted_name(
            base,
            other,
        ),
{
    reveal_strlit("-");
    let left = crate::control::attempted_name(base, attempt);
    let right = crate::control::attempted_name(base, other);
    if left == right {
        let skipped = base.len() + 1;
        if attempt != 1 && other != 1 {
            assert(left.skip(skipped as int) =~= crate::text::decimal(attempt as nat));
            assert(right.skip(skipped as int) =~= crate::text::decimal(other as nat));
            lemma_decimal_injective(attempt as nat, other as nat);
        }
    }
}

/// The attempt at which a session that tries names from `attempt` on stops,
/// where something is there at the names in `present`, and answers at those in
/// `answering`.
pub open spec fn settled_attempt(
    base: Seq<char>,
    present: Set<Seq<char>>,
    answering: Set<Seq<char>>,
    attempt: u32,
) -> u32
    decreases u32::MAX - attempt,
{
    let name = crate::control::attempted_name(base, attempt);
    let step = crate::control::step_for(present.contains(name), answering.contains(name));
    match crate::control::attempt_after(step, attempt) {
        Some(next) => settled_attempt(base, present, answering, next),
        None => attempt,
    }
}

/// A session gets the first one of `base`, `base-2`, `base-3` and so on that no
/// live session has, unless live sessions have all of them.
pub proof fn law_first_free_name_is_taken(
    base: Seq<char>,
    present: Set<Seq<char>>,
    answering: Set<Seq<char>>,
)
    ensures
        ({
            let live = present.intersect(answering);
            let settled = settled_attempt(base, present, answering, 1);
            &&& settled >= 1
            &&& forall|earlier: u32|
                1 <= earlier < settled ==> live.contains(
                    #[trigger] crate::control::attempted_name(base, earlier),
                )
            &&& live.contains(crate::control::attempted_name(base, settled)) ==> settled
                == u32::MAX
        }),
{
    lemma_settled(base, present, answering, 1);
}

proof fn lemma_settled(
    base: Seq<char>,
    present: Set<Seq<char>>,
    answering: Set<Seq<char>>,
    attempt: u32,
)
    ensures
        ({
            let live = present.intersect(answering);
            let settled = settled_attempt(base, present, answering, attempt);
            &&& settled >= attempt
            &&& forall|earlier: u32|
                attempt <= earlier < settled ==> live.contains(
                    #[trigger] crate::control::attempted_name(base, earlier),
                )
            &&& live.contains(crate::control::attempted_name(base, settled)) ==> settled
                == u32::MAX
        }),
    decreases u32::MAX - attempt,
{
    let name = crate::control::attempted_name(base, attempt);
    let step = crate::control::step_for(present.contains(name), answering.contains(name));
    match crate::control::attempt_after(step, attempt) {
        Some(next) => lemma_settled(base, present, answering, next),
        None => {},
    }
}

/// Asked one after the other, the sessions give the listing of all of them.
pub proof fn law_listing_grows(
    asked: Seq<crate::control::Asked>,
    next: crate::control::Asked,
)
    ensures
        crate::control::listing_of(asked.push(next)) == crate::control::listing_of(asked).noted(
            next,
        ),
{
    assert(asked.push(next).drop_last() =~= asked);
}

/// A listing shows exactly the sessions that answered, with what they answered,
/// and takes exactly those at which nobody was there for stale.
pub proof fn law_listing_is_exact(
    asked: Seq<crate::control::Asked>,
    name: Seq<char>,
    state: Seq<char>,
)
    ensures
        crate::control::listing_of(asked).live.contains((name, state)) <==> asked.contains(
            (name, Ok::<Seq<char>, SendError>(state)),
        ),
        crate::control::listing_of(asked).stale.contains(name) <==> asked.contains(
            (name, Err::<Seq<char>, SendError>(SendError::NoSession)),
        ),
    decreases asked.len(),
{
    if asked.len() > 0 {
        let before = asked.drop_last();
        let last = asked.last();
        law_listing_is_exact(before, name, state);
        assert(asked =~= before.push(last));
        lemma_push_contains(before, last, (name, Ok::<Seq<char>, SendError>(state)));
        lemma_push_contains(
            before,
            last,
            (name, Err::<Seq<char>, SendError>(SendError::NoSession)),
        );
        match last.1 {
            Ok(shown) => lemma_push_contains(
                crate::control::answered(before),
                (last.0, shown),
                (name, state),
            ),
            Err(SendError::NoSession) => lemma_push_contains(
                crate::control::not_there(before),
                last.0,
                name,
            ),
            Err(SendError::Io(_)) => {},
        }
    }
}

proof fn lemma_push_contains<T>(items: Seq<T>, last: T, item: T)
    ensures
        items.push(last).contains(item) <==> items.contains(item) || item == last,
{
    let longer = items.push(last);
    if items.contains(item) {
        let i = choose|i: int| 0 <= i < items.len() && items[i] == item;
        assert(longer[i] == item);
    }
    if item == last {
        assert(longer[items.len() as int] == item);
    }
    if longer.contains(item) && item != last {
        let i = choose|i: int| 0 <= i < longer.len() && longer[i] == item;
        assert(items[i] == item);
    }
}

/// The name made up from any command can name a session, and still can with
/// the suffix of any of the first 999 attempts.
pub proof fn law_default_name_is_valid(command: Seq<char>, attempt: u32)
    requires
        1 <= attempt < 1000,
    ensures
        crate::control::is_name(crate::control::name_from(command)),
        crate::control::is_name(
            crate::control::attempted_name(crate::control::name_from(command), attempt),
        ),
{
    let base = match crate::control::file_name_of(command) {
        Some(name) => name,
        None => Seq::empty(),
    };
    let safe = crate::control::sanitized(base);
    assert forall|i: int| 0 <= i < safe.len() implies crate::control::name_char(
        #[trigger] safe[i],
    ) by {}
    lemma_without_dots(safe);
    let name = crate::control::name_from(command);
    reveal_strlit("session");
    assert("session"@.len() == 7);
    assert(crate::control::is_name(name));
    let suffix = crate::text::decimal(attempt as nat);
    lemma_decimal(attempt as nat);
    reveal_strlit("-");
    let tried = crate::control::attempted_name(name, attempt);
    assert forall|i: int| 0 <= i < tried.len() implies crate::control::name_char(
        #[trigger] tried[i],
    ) by {
        if i < name.len() {
            assert(crate::control::name_char(name[i]));
        } else if i == name.len() {
            assert(tried[i] == '-');
        } else {
            assert(tried[i] == suffix[i - name.len() - 1]);
        }
    }
}

proof fn lemma_without_dots(text: Seq<char>)
    requires
        forall|i: int| 0 <= i < text.len() ==> crate::control::name_char(#[trigger] text[i]),
    ensures
        ({
            let rest = crate::control::without_leading_dots(text);
            &&& rest.len() > 0 ==> rest[0] != '.'
            &&& forall|i: int| 0 <= i < rest.len() ==> crate::control::name_char(#[trigger] rest[i])
        }),
    decreases text.len(),
{
    if text.len() > 0 && text[0] == '.' {
        assert forall|i: int| 0 <= i < text.skip(1).len() implies crate::control::name_char(
            #[trigger] text.skip(1)[i],
        ) by {
            assert(crate::control::name_char(text[i + 1]));
        }
        lemma_without_dots(text.skip(1));
    }
}

/// A command whose file name can name a session is named by it, if that
/// leaves room for a suffix.
pub proof fn law_default_name_keeps_the_file_name(command: Seq<char>, name: Seq<char>)
    requires
        crate::control::file_name_of(command) == Some(name),
        crate::control::is_name(name),
        name.len() <= MAX_DEFAULT_NAME,
    ensures
        crate::control::name_from(command) == name,
{
    assert forall|i: int| 0 <= i < name.len() implies crate::control::sanitized(name)[i]
        == name[i] by {
        assert(crate::control::name_char(name[i]));
    }
    assert(crate::control::sanitized(name) =~= name);
}

/// A path that ends in a slash and a name has that name.
pub proof fn law_file_name_follows_the_last_slash(dir: Seq<char>, name: Seq<char>)
    requires
        name.len() > 0,
        name != "."@,
        name != ".."@,
        forall|i: int| 0 <= i < name.len() ==> #[trigger] name[i] != '/',
    ensures
        crate::control::file_name_of(name) == Some(name),
        crate::control::file_name_of(dir.push('/') + name) == Some(name),
{
    let path = dir.push('/') + name;
    lemma_last_slash(Seq::empty(), name);
    lemma_last_slash(dir.push('/'), name);
    assert(Seq::<char>::empty() + name =~= name);
    assert(name.skip(0) =~= name);
    assert(path.skip((dir.len() + 1) as int) =~= name);
}

proof fn lemma_last_slash(dir: Seq<char>, name: Seq<char>)
    requires
        dir.len() == 0 || dir.last() == '/',
        forall|i: int| 0 <= i < name.len() ==> #[trigger] name[i] != '/',
    ensures
        crate::control::after_last_slash(dir + name) == dir.len(),
    decreases name.len(),
{
    let path = dir + name;
    if name.len() == 0 {
        assert(path =~= dir);
    } else {
        assert(path.last() == name[name.len() - 1]);
        assert(path.drop_last() =~= dir + name.drop_last());
        lemma_last_slash(dir, name.drop_last());
    }
}

/// Only the word of a request, with nothing but white space around it, is
/// understood as that request; and the words are the three that they are.
pub proof fn law_request_is_its_word(line: Seq<char>, request: Request)
    ensures
        crate::control::request_in(line) == Some(request) ==> exists|
            before: Seq<char>,
            after: Seq<char>,
        | #[trigger]
            crate::text_laws::surrounded(
                line,
                before,
                crate::control::request_word(request),
                after,
            ),
        crate::control::request_word(Request::Lock) == "lock"@,
        crate::control::request_word(Request::Unlock) == "unlock"@,
        crate::control::request_word(Request::Status) == "status"@,
{
    crate::text_laws::law_trimming_takes_white_space(line);
    lemma_words(request);
}

/// A connection over which nothing came is a probe; a line that holds a request
/// asks for it, and any other line is not understood.
pub proof fn law_meaning_of_a_line(line: Seq<char>, request: Request)
    ensures
        crate::control::meaning(line) == Incoming::Probe <==> line.len() == 0,
        line.len() > 0 ==> (crate::control::meaning(line) == Incoming::Ask(request)
            <==> crate::control::request_in(line) == Some(request)),
        line.len() > 0 ==> (crate::control::meaning(line) == Incoming::Unknown
            <==> crate::control::request_in(line) is None),
{
}

/// The line about a session starts with its state and ends with its command,
/// whatever that is, and tells the state, the process and the command apart.
pub proof fn law_state_line_tells_everything(
    locked: bool,
    pid: u32,
    command: Seq<char>,
    other: bool,
    other_pid: u32,
    other_command: Seq<char>,
)
    ensures
        ({
            let line = crate::control::state_text(locked, pid, command);
            let word = if locked {
                "locked pid="@
            } else {
                "unlocked pid="@
            };
            &&& line.take(word.len() as int) == word
            &&& line == crate::control::state_text(locked, pid, Seq::empty()) + command
        }),
        crate::control::state_text(locked, pid, command) == crate::control::state_text(
            other,
            other_pid,
            other_command,
        ) ==> locked == other && pid == other_pid && command == other_command,
{
    let line = crate::control::state_text(locked, pid, command);
    reveal_strlit("locked");
    reveal_strlit("unlocked");
    reveal_strlit(" pid=");
    reveal_strlit(" cmd=");
    reveal_strlit("locked pid=");
    reveal_strlit("unlocked pid=");
    assert("locked pid="@ =~= "locked"@ + " pid="@);
    assert("unlocked pid="@ =~= "unlocked"@ + " pid="@);
    let word = if locked {
        "locked pid="@
    } else {
        "unlocked pid="@
    };
    assert(line.take(word.len() as int) =~= word);
    assert(line =~= crate::control::state_text(locked, pid, Seq::empty()) + command);
    let other_line = crate::control::state_text(other, other_pid, other_command);
    if line == other_line {
        law_state_line_tells_the_lock(
            locked,
            pid,
            command,
            other,
            other_pid,
            other_command,
        );
        let digits = crate::text::decimal(pid as nat);
        let other_digits = crate::text::decimal(other_pid as nat);
        let n = word.len() as int;
        let tail = " cmd="@ + command;
        let other_tail = " cmd="@ + other_command;
        assert(line.skip(n) =~= digits + tail);
        assert(other_line.skip(n) =~= other_digits + other_tail);
        crate::text_laws::law_decimal_reads_as_the_number(pid as nat);
        crate::text_laws::law_decimal_reads_as_the_number(other_pid as nat);
        let both = digits + tail;
        assert(both == other_digits + other_tail);
        assert(both[digits.len() as int] == tail[0]);
        assert(both[other_digits.len() as int] == other_tail[0]);
        assert(tail[0] == ' ' && other_tail[0] == ' ');
        if digits.len() < other_digits.len() {
            assert(both[digits.len() as int] == other_digits[digits.len() as int]);
        }
        if other_digits.len() < digits.len() {
            assert(both[other_digits.len() as int] == digits[other_digits.len() as int]);
        }
        assert(both.take(digits.len() as int) =~= digits);
        assert(both.take(digits.len() as int) =~= other_digits);
        assert(both.skip((digits.len() + 5) as int) =~= command);
        assert(both.skip((digits.len() + 5) as int) =~= other_command);
    }
}

/// The directory for the sockets is the entry `keylock` of the first usable
/// base, with exactly one slash before it, whatever the other arguments are;
/// without a base it is the user's own under `/tmp`.
pub proof fn law_directory_of_the_sockets(
    xdg_runtime_dir: Option<Seq<u8>>,
    tmpdir: Option<Seq<u8>>,
    uid: u32,
    base: Seq<u8>,
)
    ensures
        xdg_runtime_dir == Some(base) || (xdg_runtime_dir is None && tmpdir == Some(base)) ==> {
            let path = crate::control::dir_path(xdg_runtime_dir, tmpdir, uid);
            let name = vstd::utf8::encode_utf8("keylock"@);
            &&& base.len() > 0 && base.last() != 0x2f ==> path == base.push(0x2f) + name
            &&& base.len() > 0 && base.last() == 0x2f ==> path == base + name
        },
        xdg_runtime_dir is None && tmpdir is None ==> crate::control::dir_path(
            xdg_runtime_dir,
            tmpdir,
            uid,
        ) == vstd::utf8::encode_utf8("/tmp/keylock-"@ + crate::text::decimal(uid as nat)),
{
    let name = vstd::utf8::encode_utf8("keylock"@);
    assert(base.push(0x2f) + name =~= base + seq![0x2fu8] + name);
}

/// What the environment sets counts exactly if it is not empty.
pub proof fn law_usable_base(base: Option<Vec<u8>>)
    ensures
        base is None ==> crate::control::usable(base) is None,
        base matches Some(path) ==> crate::control::usable(base) == if path@.len() == 0 {
            None
        } else {
            Some(path@)
        },
{
}

/// A directory that was there already is used exactly if it is a directory, is
/// the user's own, and gives no right at all to anybody else; otherwise the
/// first of these that fails is the reason.
pub proof fn law_directory_is_safe(is_dir: bool, owner: u32, mode: u32, uid: u32, why: String)
    ensures
        ({
            let problem = crate::control::dir_problem(DirState::Found { is_dir, owner, mode }, uid);
            &&& problem is None <==> is_dir && owner == uid && mode % 64 == 0
            &&& !is_dir ==> problem == Some("not a directory"@)
            &&& is_dir && owner != uid ==> problem == Some("owned by another user"@)
            &&& is_dir && owner == uid && mode % 64 != 0 ==> problem == Some(
                "accessible by other users"@,
            )
        }),
        crate::control::dir_problem(DirState::Created, uid) is None,
        crate::control::dir_problem(DirState::Failed(why), uid) == Some(why@),
{
    assert((mode & 0o077 == 0) == (mode % 64 == 0)) by (bit_vector);
}

/// A refusal names the directory and the reason.
pub proof fn law_refusal(dir: Seq<char>, why: Seq<char>)
    ensures
        crate::control::refusal(dir, why) == "refusing to use "@ + dir + ": "@ + why,
{
}

/// An ASCII letter or digit, a dot, an underscore or a hyphen.
pub open spec fn harmless(c: char) -> bool {
    let code = c as int;
    ||| 0x61 <= code <= 0x7a
    ||| 0x41 <= code <= 0x5a
    ||| 0x30 <= code <= 0x39
    ||| code == 0x2e || code == 0x5f || code == 0x2d
}

/// A session name has 1 to 64 characters, all of them harmless, and does not
/// start with a dot; and everything of that kind is one.
pub proof fn law_session_names(name: Seq<char>)
    ensures
        crate::control::is_name(name) <==> {
            &&& 1 <= name.len() <= 64
            &&& name[0] as int != 0x2e
            &&& forall|i: int| 0 <= i < name.len() ==> harmless(#[trigger] name[i])
        },
{
    assert forall|i: int| 0 <= i < name.len() implies harmless(#[trigger] name[i])
        == crate::control::name_char(name[i]) by {}
    if forall|i: int| 0 <= i < name.len() ==> harmless(#[trigger] name[i]) {
        assert forall|i: int| 0 <= i < name.len() implies crate::control::name_char(
            #[trigger] name[i],
        ) by {
            assert(harmless(name[i]));
        }
    }
}

/// The first attempt tries the name itself, each later one adds its number.
pub proof fn law_attempted_names(base: Seq<char>, attempt: u32)
    ensures
        crate::control::attempted_name(base, 1) == base,
        attempt != 1 ==> crate::control::attempted_name(base, attempt) == base + "-"@
            + crate::text::decimal(attempt as nat),
{
}

/// A socket is replaced only if nobody answers at it, and a name is passed over
/// only if somebody does; the attempts go up one by one.
pub proof fn law_steps_of_an_attempt(present: bool, answers: bool, attempt: u32)
    ensures
        ({
            let step = crate::control::step_for(present, answers);
            &&& step == BindStep::NextName <==> present && answers
            &&& step == BindStep::ReplaceStale <==> present && !answers
            &&& step == BindStep::Listen <==> !present
            &&& present && answers && attempt < u32::MAX ==> crate::control::attempt_after(
                step,
                attempt,
            ) == Some((attempt + 1) as u32)
            &&& !(present && answers) || attempt == u32::MAX ==> crate::control::attempt_after(
                step,
                attempt,
            ) is None
        }),
{
}

/// A file is the socket of a session exactly if its name is the session's with
/// `.sock` behind it.
pub proof fn law_socket_names(file: Seq<char>, name: Seq<char>)
    ensures
        crate::control::session_of(file) == Some(name) <==> file == name + ".sock"@,
{
    reveal_strlit(".sock");
    law_socket_round_trip(name);
    if crate::control::session_of(file) == Some(name) {
        let stem = file.len() - ".sock"@.len();
        assert(file =~= file.take(stem) + file.skip(stem));
    }
}

/// Each session is found as often as its socket is among the files.
pub proof fn law_sessions_are_found(files: Seq<Seq<char>>, name: Seq<char>)
    ensures
        crate::control::sessions_of(files).to_multiset().count(name)
            == files.to_multiset().count(name + ".sock"@),
    decreases files.len(),
{
    files.to_multiset_ensures();
    crate::control::sessions_of(files).to_multiset_ensures();
    if files.len() > 0 {
        let before = files.drop_last();
        let last = files.last();
        law_sessions_are_found(before, name);
        law_socket_names(last, name);
        assert(files =~= before.push(last));
        before.to_multiset_ensures();
        let sessions = crate::control::sessions_of(before);
        sessions.to_multiset_ensures();
        assert(before.push(last).to_multiset() =~= before.to_multiset().insert(last));
        match crate::control::session_of(last) {
            Some(found) => {
                law_socket_names(last, found);
                assert(sessions.push(found).to_multiset() =~= sessions.to_multiset().insert(
                    found,
                ));
            },
            None => {},
        }
    }
}

/// The name made up from a command, character by character: the file name
/// without the dots in front, at most 60 characters of it, with an underscore
/// for each character that is not harmless.
pub proof fn law_default_name_by_its_characters(command: Seq<char>, file: Seq<char>, dots: int)
    requires
        crate::control::file_name_of(command) == Some(file),
        0 <= dots <= file.len(),
        forall|i: int| 0 <= i < dots ==> #[trigger] file[i] == '.',
        dots < file.len() ==> file[dots] != '.',
    ensures
        ({
            let name = crate::control::name_from(command);
            let rest = file.skip(dots);
            if rest.len() == 0 {
                name == "session"@
            } else {
                &&& name.len() == if rest.len() <= 60 {
                    rest.len()
                } else {
                    60
                }
                &&& forall|i: int|
                    0 <= i < name.len() ==> #[trigger] name[i] == if harmless(rest[i]) {
                        rest[i]
                    } else {
                        '_'
                    }
            }
        }),
{
    lemma_dots_are_dropped(file, dots);
}

proof fn lemma_dots_are_dropped(file: Seq<char>, dots: int)
    requires
        0 <= dots <= file.len(),
        forall|i: int| 0 <= i < dots ==> #[trigger] file[i] == '.',
        dots < file.len() ==> file[dots] != '.',
    ensures
        crate::control::without_leading_dots(crate::control::sanitized(file))
            == crate::control::sanitized(file.skip(dots)),
    decreases dots,
{
    let safe = crate::control::sanitized(file);
    if dots == 0 {
        assert(file.skip(0) =~= file);
        if file.len() > 0 {
            assert(safe[0] != '.');
        }
    } else {
        assert(file[0] == '.');
        assert(safe[0] == '.');
        let rest = file.skip(1);
        assert forall|i: int| 0 <= i < dots - 1 implies #[trigger] rest[i] == '.' by {
            assert(file[i + 1] == '.');
        }
        lemma_dots_are_dropped(rest, dots - 1);
        assert(safe.skip(1) =~= crate::control::sanitized(rest));
        assert(rest.skip(dots - 1) =~= file.skip(dots));
    }
}

/// A command without a file name gives the name `session`. Slashes at the end
/// of a path and `.` do not count, and a path that ends in `..`, or in nothing,
/// has no file name.
pub proof fn law_paths_and_their_file_names(path: Seq<char>)
    ensures
        crate::control::file_name_of(path) is None ==> crate::control::name_from(path)
            == "session"@,
        crate::control::file_name_of(path.push('/')) == crate::control::file_name_of(path),
        crate::control::file_name_of(path.push('/').push('.')) == crate::control::file_name_of(
            path,
        ),
        crate::control::file_name_of(path.push('/').push('.').push('.')) is None,
        crate::control::file_name_of(Seq::empty()) is None,
        crate::control::file_name_of(seq!['.']) is None,
        crate::control::file_name_of(seq!['.', '.']) is None,
{
    reveal_strlit(".");
    reveal_strlit("..");
    let none = Seq::<char>::empty();
    let slash = path.push('/');
    let start = slash.len() as int;
    lemma_last_slash(slash, none);
    assert(slash + none =~= slash);
    assert(slash.skip(start) =~= none);
    assert(slash.take(start - 1) =~= path);
    lemma_last_slash(slash, seq!['.']);
    let dot = slash.push('.');
    assert(slash + seq!['.'] =~= dot);
    assert(dot.skip(start) =~= "."@);
    assert(dot.take(start - 1) =~= path);
    lemma_last_slash(slash, seq!['.', '.']);
    let dots = dot.push('.');
    assert(slash + seq!['.', '.'] =~= dots);
    assert(dots.skip(start) =~= ".."@);
    assert(".."@.len() == 2 && "."@.len() == 1);
    lemma_last_slash(none, none);
    assert(none + none =~= none);
    assert(none.skip(0) =~= none);
    lemma_last_slash(none, seq!['.']);
    assert(none + seq!['.'] =~= seq!['.']);
    assert(seq!['.'].skip(0) =~= "."@);
    lemma_last_slash(none, seq!['.', '.']);
    assert(none + seq!['.', '.'] =~= seq!['.', '.']);
    assert(seq!['.', '.'].skip(0) =~= ".."@);
    if crate::control::file_name_of(path) is None {
        assert(crate::control::sanitized(none) =~= none);
    }
}

/// A line is sent with a line feed behind it.
pub proof fn law_lines_end_with_a_line_feed(line: Seq<char>)
    ensures
        crate::control::terminated(line) == line.push('\n'),
{
    reveal_strlit("\n");
    assert(crate::control::terminated(line) =~= line.push('\n'));
}

/// A listing keeps the order in which the sessions were asked: that of all of
/// them is that of the first ones followed by that of the others, and each one
/// is shown, stale, or left out.
pub proof fn law_listing_keeps_the_order(
    first: Seq<crate::control::Asked>,
    second: Seq<crate::control::Asked>,
    name: Seq<char>,
    state: Seq<char>,
    fault: Fault,
)
    ensures
        crate::control::answered(first + second) == crate::control::answered(first)
            + crate::control::answered(second),
        crate::control::not_there(first + second) == crate::control::not_there(first)
            + crate::control::not_there(second),
        crate::control::answered(seq![(name, Ok::<Seq<char>, SendError>(state))])
            == seq![(name, state)],
        crate::control::not_there(
            seq![(name, Err::<Seq<char>, SendError>(SendError::NoSession))],
        ) == seq![name],
        crate::control::listing_of(
            seq![(name, Err::<Seq<char>, SendError>(SendError::Io(fault)))],
        ) == crate::control::listing_of(Seq::empty()),
    decreases second.len(),
{
    let none = Seq::<crate::control::Asked>::empty();
    let shown = seq![(name, Ok::<Seq<char>, SendError>(state))];
    let stale = seq![(name, Err::<Seq<char>, SendError>(SendError::NoSession))];
    let failed = seq![(name, Err::<Seq<char>, SendError>(SendError::Io(fault)))];
    assert(shown.drop_last() =~= none);
    assert(stale.drop_last() =~= none);
    assert(failed.drop_last() =~= none);
    assert(crate::control::answered(none) =~= Seq::empty());
    assert(crate::control::not_there(none) =~= Seq::empty());
    assert(crate::control::answered(shown) =~= seq![(name, state)]);
    assert(crate::control::not_there(stale) =~= seq![name]);
    if second.len() == 0 {
        assert(first + second =~= first);
        assert(crate::control::answered(first) + Seq::<(Seq<char>, Seq<char>)>::empty()
            =~= crate::control::answered(first));
        assert(crate::control::not_there(first) + Seq::<Seq<char>>::empty()
            =~= crate::control::not_there(first));
    } else {
        law_listing_keeps_the_order(first, second.drop_last(), name, state, fault);
        assert((first + second).drop_last() =~= first + second.drop_last());
        assert((first + second).last() == second.last());
        assert(crate::control::answered(first + second) =~= crate::control::answered(first)
            + crate::control::answered(second));
        assert(crate::control::not_there(first + second) =~= crate::control::not_there(first)
            + crate::control::not_there(second));
    }
}

/// Pairs and replies stand for their characters.
pub proof fn law_pairs_and_replies(pairs: Seq<(String, String)>, state: String, error: SendError)
    ensures
        crate::control::text_pairs(pairs).len() == pairs.len(),
        forall|i: int|
            0 <= i < pairs.len() ==> #[trigger] crate::control::text_pairs(pairs)[i] == (
                pairs[i].0@,
                pairs[i].1@,
            ),
        crate::control::reply_text(Ok(state)) == Ok::<Seq<char>, SendError>(state@),
        crate::control::reply_text(Err(error)) == Err::<Seq<char>, SendError>(error),
{
}

} // verus!
