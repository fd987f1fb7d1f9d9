//! Per-session control sockets: where they live, how sessions are named, the
//! one-line protocol, and the client side used by `on`, `off`, `status`, `ls`.

use crate::fault::Fault;
use crate::text::{chars_of, concat3, decimal_text, push_all, same_text, trim, trim_end};
use vstd::prelude::*;
use vstd::slice::slice_to_vec;
use vstd::string::*;

verus! {

/// The longest session name.
pub const MAX_NAME: usize = 64;

/// How many bytes of a line are read from a control connection at most.
pub const MAX_LINE: u64 = 256;

/// The longest name that is made up from a command. It leaves room for a
/// collision suffix such as `-2`.
pub const MAX_DEFAULT_NAME: usize = 60;

/// What a client asks of a session.
#[derive(Debug, Clone, Copy, PartialEq, Eq, Structural)]
pub enum Request {
    Lock,
    Unlock,
    Status,
}

/// The word that stands for a request.
pub open spec fn request_word(request: Request) -> Seq<char> {
    match request {
        Request::Lock => "lock"@,
        Request::Unlock => "unlock"@,
        Request::Status => "status"@,
    }
}

/// The request that a line holds, white space around it aside.
pub open spec fn request_in(line: Seq<char>) -> Option<Request> {
    let word = crate::text::trimmed_end(crate::text::trimmed_start(line));
    if word == "lock"@ {
        Some(Request::Lock)
    } else if word == "unlock"@ {
        Some(Request::Unlock)
    } else if word == "status"@ {
        Some(Request::Status)
    } else {
        None
    }
}

impl Request {
    /// The request that `line` holds, if it holds one.
    pub fn parse(line: &str) -> (request: Option<Request>)
        ensures
            request == request_in(line@),
    {
        let word: &str = trim(line);
        if same_text(word, "lock") {
            Some(Request::Lock)
        } else if same_text(word, "unlock") {
            Some(Request::Unlock)
        } else if same_text(word, "status") {
            Some(Request::Status)
        } else {
            None
        }
    }

    /// The word that stands for this request.
    pub fn as_str(self) -> (word: &'static str)
        ensures
            word@ == request_word(self),
    {
        match self {
            Request::Lock => "lock",
            Request::Unlock => "unlock",
            Request::Status => "status",
        }
    }
}

/// A line followed by a line feed.
pub open spec fn terminated(line: Seq<char>) -> Seq<char> {
    line + "\n"@
}

/// The line that a client sends for `request`.
pub fn request_line(request: Request) -> (line: String)
    ensures
        line@ == terminated(request_word(request)),
{
    let mut line: String = request.as_str().to_owned();
    line.append("\n");
    line
}

/// One line about a session.
pub open spec fn state_text(locked: bool, pid: u32, command: Seq<char>) -> Seq<char> {
    (if locked {
        "locked"@
    } else {
        "unlocked"@
    }) + " pid="@ + crate::text::decimal(pid as nat) + " cmd="@ + command
}

/// One line about a session: its state, the process and the command.
pub fn state_line(locked: bool, pid: u32, command: &str) -> (line: String)
    ensures
        line@ == state_text(locked, pid, command@),
{
    let mut line: String = if locked {
        "locked".to_owned()
    } else {
        "unlocked".to_owned()
    };
    line.append(" pid=");
    line.append(decimal_text(pid).as_str());
    line.append(" cmd=");
    line.append(command);
    line
}

/// `base` if the environment sets it to something.
pub open spec fn usable(base: Option<Vec<u8>>) -> Option<Seq<u8>> {
    match base {
        Some(path) if path@.len() > 0 => Some(path@),
        _ => None,
    }
}

/// The path of the entry `name` of the directory `base`.
pub open spec fn path_joined(base: Seq<u8>, name: Seq<u8>) -> Seq<u8> {
    if base.len() > 0 && base.last() != 0x2f {
        base + seq![0x2fu8] + name
    } else {
        base + name
    }
}

/// The path of the directory that holds the sockets.
pub open spec fn dir_path(
    xdg_runtime_dir: Option<Seq<u8>>,
    tmpdir: Option<Seq<u8>>,
    uid: u32,
) -> Seq<u8> {
    match (xdg_runtime_dir, tmpdir) {
        (Some(base), _) => path_joined(base, vstd::utf8::encode_utf8("keylock"@)),
        (None, Some(base)) => path_joined(base, vstd::utf8::encode_utf8("keylock"@)),
        (None, None) => vstd::utf8::encode_utf8(
            "/tmp/keylock-"@ + crate::text::decimal(uid as nat),
        ),
    }
}

fn join_path(base: &[u8], name: &[u8]) -> (path: Vec<u8>)
    ensures
        path@ == path_joined(base@, name@),
{
    let mut path: Vec<u8> = slice_to_vec(base);
    if base.len() > 0 && base[base.len() - 1] != 0x2f {
        path.push(0x2f);
    }
    push_all(&mut path, name);
    assert(path@ =~= path_joined(base@, name@));
    path
}

/// The path of the directory that holds the sockets, as bytes. The arguments
/// are the values of `XDG_RUNTIME_DIR` and `TMPDIR`, and the user's id.
pub fn resolve_dir(
    xdg_runtime_dir: Option<Vec<u8>>,
    tmpdir: Option<Vec<u8>>,
    uid: u32,
) -> (path: Vec<u8>)
    ensures
        path@ == dir_path(usable(xdg_runtime_dir), usable(tmpdir), uid),
{
    match xdg_runtime_dir {
        Some(base) => {
            if base.len() > 0 {
                return join_path(base.as_slice(), "keylock".as_bytes());
            }
        },
        None => {},
    }
    match tmpdir {
        Some(base) => {
            if base.len() > 0 {
                return join_path(base.as_slice(), "keylock".as_bytes());
            }
        },
        None => {},
    }
    let mut path: String = "/tmp/keylock-".to_owned();
    path.append(decimal_text(uid).as_str());
    slice_to_vec(path.as_str().as_bytes())
}

/// What was found out about the directory for the sockets.
#[derive(Debug)]
pub enum DirState {
    /// It was not there and was created for the user alone.
    Created,
    /// Something with its name was there already.
    Found { is_dir: bool, owner: u32, mode: u32 },
    /// It could not be created or looked at, and why.
    Failed(String),
}

/// The message that refuses a directory.
pub open spec fn refusal(dir: Seq<char>, why: Seq<char>) -> Seq<char> {
    "refusing to use "@ + dir + ": "@ + why
}

/// Why the directory must not be used, if it must not: it has to be a
/// directory of the user's own that nobody else can access.
pub open spec fn dir_problem(state: DirState, uid: u32) -> Option<Seq<char>> {
    match state {
        DirState::Created => None,
        DirState::Failed(why) => Some(why@),
        DirState::Found { is_dir, owner, mode } => if !is_dir {
            Some("not a directory"@)
        } else if owner != uid {
            Some("owned by another user"@)
        } else if mode & 0o077 != 0 {
            Some("accessible by other users"@)
        } else {
            None
        },
    }
}

/// Decides whether the directory `dir` can hold the sockets of user `uid`.
pub fn ensure_dir(dir: &str, state: DirState, uid: u32) -> (verdict: Result<(), String>)
    ensures
        match verdict {
            Ok(()) => dir_problem(state, uid) is None,
            Err(message) => dir_problem(state, uid) matches Some(why) && message@ == refusal(
                dir@,
                why,
            ),
        },
{
    let why: String = match state {
        DirState::Created => {
            return Ok(());
        },
        DirState::Failed(why) => why,
        DirState::Found { is_dir, owner, mode } => {
            if !is_dir {
                "not a directory".to_owned()
            } else if owner != uid {
                "owned by another user".to_owned()
            } else if mode & 0o077 != 0 {
                "accessible by other users".to_owned()
            } else {
                return Ok(());
            }
        },
    };
    let mut message: String = concat3("refusing to use ", dir, ": ");
    message.append(why.as_str());
    Err(message)
}

/// A character that a session name can hold.
pub open spec fn name_char(c: char) -> bool {
    ||| 'a' <= c <= 'z'
    ||| 'A' <= c <= 'Z'
    ||| '0' <= c <= '9'
    ||| c == '.'
    ||| c == '_'
    ||| c == '-'
}

/// A session name: short, not hidden, and harmless in a file name.
pub open spec fn is_name(name: Seq<char>) -> bool {
    &&& 1 <= name.len() <= MAX_NAME
    &&& name[0] != '.'
    &&& forall|i: int| 0 <= i < name.len() ==> name_char(#[trigger] name[i])
}

fn is_name_char(c: char) -> (allowed: bool)
    ensures
        allowed == name_char(c),
{
    ('a' <= c && c <= 'z') || ('A' <= c && c <= 'Z') || ('0' <= c && c <= '9') || c == '.' || c
        == '_' || c == '-'
}

/// Whether `name` can name a session.
pub fn valid_name(name: &str) -> (valid: bool)
    ensures
        valid == is_name(name@),
{
    let chars: Vec<char> = chars_of(name);
    if chars.len() == 0 || chars.len() > MAX_NAME || chars[0] == '.' {
        return false;
    }
    let mut i: usize = 0;
    while i < chars.len()
        invariant
            chars@ == name@,
            i <= chars@.len(),
            forall|j: int| 0 <= j < i ==> name_char(#[trigger] name@[j]),
        decreases chars@.len() - i,
    {
        if !is_name_char(chars[i]) {
            assert(!name_char(name@[i as int]));
            return false;
        }
        i = i + 1;
    }
    true
}

/// The position after the last slash of `path`; 0 without a slash.
pub open spec fn after_last_slash(path: Seq<char>) -> int
    decreases path.len(),
{
    if path.len() == 0 {
        0
    } else if path.last() == '/' {
        path.len() as int
    } else {
        after_last_slash(path.drop_last())
    }
}

/// The last component of a path, if that is a name: trailing slashes and `.`
/// do not count, and `..` is no name.
pub open spec fn file_name_of(path: Seq<char>) -> Option<Seq<char>>
    decreases path.len(),
{
    let start = after_last_slash(path);
    if 0 <= start <= path.len() {
        let last = path.skip(start);
        if last.len() == 0 || last == "."@ {
            if start == 0 {
                None
            } else {
                file_name_of(path.take(start - 1))
            }
        } else if last == ".."@ {
            None
        } else {
            Some(last)
        }
    } else {
        None
    }
}

proof fn lemma_after_last_slash(path: Seq<char>, start: int)
    requires
        0 <= start <= path.len(),
        start == 0 || path[start - 1] == '/',
        forall|i: int| start <= i < path.len() ==> path[i] != '/',
    ensures
        after_last_slash(path) == start,
    decreases path.len(),
{
    if start < path.len() {
        lemma_after_last_slash(path.drop_last(), start);
    }
}

fn file_name(path: &str) -> (name: Option<&str>)
    ensures
        match name {
            Some(name) => file_name_of(path@) == Some(name@),
            None => file_name_of(path@) is None,
        },
{
    let chars: Vec<char> = chars_of(path);
    let mut end: usize = chars.len();
    assert(path@.take(end as int) =~= path@);
    loop
        invariant
            chars@ == path@,
            end <= chars@.len(),
            file_name_of(path@) == file_name_of(path@.take(end as int)),
        decreases end,
    {
        let ghost here = path@.take(end as int);
        let mut start: usize = end;
        while start > 0 && chars[start - 1] != '/'
            invariant
                chars@ == path@,
                here == path@.take(end as int),
                start <= end <= chars@.len(),
                forall|i: int| start <= i < here.len() ==> here[i] != '/',
            decreases start,
        {
            start = start - 1;
        }
        proof {
            lemma_after_last_slash(here, start as int);
        }
        let last: &str = path.substring_char(start, end);
        assert(last@ =~= here.skip(start as int));
        if last.is_empty() || same_text(last, ".") {
            if start == 0 {
                return None;
            }
            end = start - 1;
            assert(path@.take(end as int) =~= here.take(start - 1));
        } else if same_text(last, "..") {
            return None;
        } else {
            return Some(last);
        }
    }
}

/// `text` with an underscore for each character that a name cannot hold.
pub open spec fn sanitized(text: Seq<char>) -> Seq<char> {
    text.map_values(
        |c: char|
            if name_char(c) {
                c
            } else {
                '_'
            },
    )
}

/// `text` without the dots in front.
pub open spec fn without_leading_dots(text: Seq<char>) -> Seq<char>
    decreases text.len(),
{
    if text.len() > 0 && text[0] == '.' {
        without_leading_dots(text.skip(1))
    } else {
        text
    }
}

/// At most the first `max` characters of `text`.
pub open spec fn at_most(text: Seq<char>, max: int) -> Seq<char> {
    if text.len() <= max {
        text
    } else {
        text.take(max)
    }
}

/// The session name made up from a command.
pub open spec fn name_from(command: Seq<char>) -> Seq<char> {
    let base = match file_name_of(command) {
        Some(name) => name,
        None => Seq::empty(),
    };
    let name = at_most(without_leading_dots(sanitized(base)), MAX_DEFAULT_NAME as int);
    if name.len() == 0 {
        "session"@
    } else {
        name
    }
}

/// The session name made up from a command: its file name, made harmless.
pub fn default_name(command: &str) -> (name: String)
    ensures
        name@ == name_from(command@),
{
    let base: &str = match file_name(command) {
        Some(name) => name,
        None => "",
    };
    proof {
        reveal_strlit("");
    }
    let ghost from = match file_name_of(command@) {
        Some(name) => name,
        None => Seq::empty(),
    };
    assert(base@ =~= from);
    let chars: Vec<char> = chars_of(base);
    let ghost safe = sanitized(from);
    let mut start: usize = 0;
    assert(safe.skip(0) =~= safe);
    while start < chars.len() && chars[start] == '.'
        invariant
            chars@ == base@,
            base@ == from,
            safe == sanitized(from),
            start <= chars@.len(),
            without_leading_dots(safe) == without_leading_dots(safe.skip(start as int)),
        decreases chars@.len() - start,
    {
        assert(safe.skip(start as int)[0] == '.');
        assert(safe.skip(start as int).skip(1) =~= safe.skip(start + 1));
        start = start + 1;
    }
    assert(without_leading_dots(safe) == safe.skip(start as int)) by {
        if start < chars@.len() {
            assert(safe.skip(start as int)[0] == safe[start as int]);
            assert(safe[start as int] != '.');
        }
    }
    let mut name: String = String::new();
    let mut i: usize = start;
    while i < chars.len() && i - start < MAX_DEFAULT_NAME
        invariant
            chars@ == base@,
            base@ == from,
            safe == sanitized(from),
            start <= i <= chars@.len(),
            i - start <= MAX_DEFAULT_NAME,
            name@ == safe.subrange(start as int, i as int),
        decreases chars@.len() - i,
    {
        if is_name_char(chars[i]) {
            let kept: &str = base.substring_char(i, i + 1);
            assert(kept@ =~= seq![safe[i as int]]);
            name.append(kept);
        } else {
            proof {
                reveal_strlit("_");
            }
            assert("_"@ =~= seq![safe[i as int]]);
            name.append("_");
        }
        i = i + 1;
        assert(name@ =~= safe.subrange(start as int, i as int));
    }
    assert(name@ =~= at_most(safe.skip(start as int), MAX_DEFAULT_NAME as int));
    if name.as_str().is_empty() {
        "session".to_owned()
    } else {
        name
    }
}

/// The name that is tried at the given attempt, counted from one.
pub open spec fn attempted_name(base: Seq<char>, attempt: u32) -> Seq<char> {
    if attempt == 1 {
        base
    } else {
        base + "-"@ + crate::text::decimal(attempt as nat)
    }
}

/// The name that is tried at the given attempt: `base`, then `base-2`,
/// `base-3` and so on.
pub fn session_name(base: &str, attempt: u32) -> (name: String)
    ensures
        name@ == attempted_name(base@, attempt),
{
    if attempt == 1 {
        base.to_owned()
    } else {
        concat3(base, "-", decimal_text(attempt).as_str())
    }
}

/// The file name of a session's socket.
pub open spec fn socket_of(name: Seq<char>) -> Seq<char> {
    name + ".sock"@
}

/// The file name of a session's socket.
pub fn socket_file(name: &str) -> (file: String)
    ensures
        file@ == socket_of(name@),
{
    let mut file: String = name.to_owned();
    file.append(".sock");
    file
}

/// The session whose socket has the given file name.
pub open spec fn session_of(file: Seq<char>) -> Option<Seq<char>> {
    let stem = file.len() - ".sock"@.len();
    if stem >= 0 && file.skip(stem) == ".sock"@ {
        Some(file.take(stem))
    } else {
        None
    }
}

/// The session whose socket has the given file name, if that is a socket's.
pub fn session_of_file(file: &str) -> (name: Option<String>)
    ensures
        crate::text::optional_text(name) == session_of(file@),
{
    proof {
        reveal_strlit(".sock");
    }
    let len: usize = file.unicode_len();
    if len < 5 {
        return None;
    }
    let suffix: &str = file.substring_char(len - 5, len);
    assert(suffix@ =~= file@.skip(len - 5));
    if same_text(suffix, ".sock") {
        let stem: &str = file.substring_char(0, len - 5);
        assert(stem@ =~= file@.take(len - 5));
        Some(stem.to_owned())
    } else {
        None
    }
}

/// What to do about the socket path of a name that is tried.
#[derive(Debug, Clone, Copy, PartialEq, Eq, Structural)]
pub enum BindStep {
    /// Nothing has the path: listen on it.
    Listen,
    /// Its owner died without cleaning up: remove it, then listen.
    ReplaceStale,
    /// A live session has it: try the next name.
    NextName,
}

/// What to do about the socket path of a name, given whether something is
/// `present` there and whether it `answers`.
pub open spec fn step_for(present: bool, answers: bool) -> BindStep {
    if present && answers {
        BindStep::NextName
    } else if present {
        BindStep::ReplaceStale
    } else {
        BindStep::Listen
    }
}

/// Decides about the socket path of a name: whether something is `present` there,
/// and whether it `answers`.
pub fn bind_step(present: bool, answers: bool) -> (step: BindStep)
    ensures
        step == step_for(present, answers),
{
    if !present {
        BindStep::Listen
    } else if answers {
        BindStep::NextName
    } else {
        BindStep::ReplaceStale
    }
}

/// The attempt that follows, if one does.
pub open spec fn attempt_after(step: BindStep, attempt: u32) -> Option<u32> {
    if step == BindStep::NextName && attempt < u32::MAX {
        Some((attempt + 1) as u32)
    } else {
        None
    }
}

/// The attempt that follows the one that came to `step`, if one does: none does
/// once a name can be had, and none after the largest number.
pub fn next_attempt(step: BindStep, attempt: u32) -> (next: Option<u32>)
    ensures
        next == attempt_after(step, attempt),
{
    match step {
        BindStep::NextName => if attempt < u32::MAX {
            Some(attempt + 1)
        } else {
            None
        },
        _ => None,
    }
}

/// What came over a control connection.
#[derive(Debug, Clone, Copy, PartialEq, Eq, Structural)]
pub enum Incoming {
    /// Nothing: someone connected to see whether the session is alive.
    Probe,
    Ask(Request),
    Unknown,
}

/// What a line from a control connection means.
pub open spec fn meaning(line: Seq<char>) -> Incoming {
    if line.len() == 0 {
        Incoming::Probe
    } else {
        match request_in(line) {
            Some(request) => Incoming::Ask(request),
            None => Incoming::Unknown,
        }
    }
}

/// What a line from a control connection means. `line` is empty if the
/// connection was closed before anything came.
pub fn incoming(line: &str) -> (incoming: Incoming)
    ensures
        incoming == meaning(line@),
{
    if line.is_empty() {
        return Incoming::Probe;
    }
    match Request::parse(line) {
        Some(request) => Incoming::Ask(request),
        None => Incoming::Unknown,
    }
}

/// Why a request got no reply.
#[derive(Debug, Clone, Copy, PartialEq, Eq, Structural)]
pub enum SendError {
    NoSession,
    Io(Fault),
}

/// Where to send a request for the session `name`: the file name of its
/// socket. A text that cannot name a session reaches no file.
pub fn send_target(name: &str) -> (target: Result<String, SendError>)
    ensures
        match target {
            Ok(file) => is_name(name@) && file@ == socket_of(name@),
            Err(error) => !is_name(name@) && error == SendError::NoSession,
        },
{
    if valid_name(name) {
        Ok(socket_file(name))
    } else {
        Err(SendError::NoSession)
    }
}

/// What a failure to connect means.
pub fn connect_error(fault: Fault) -> (error: SendError)
    ensures
        error == if fault == Fault::NotFound || fault == Fault::ConnectionRefused {
            SendError::NoSession
        } else {
            SendError::Io(fault)
        },
{
    match fault {
        Fault::NotFound | Fault::ConnectionRefused => SendError::NoSession,
        _ => SendError::Io(fault),
    }
}

/// The reply that a line holds. `line` is empty if the connection was closed
/// before anything came.
pub fn reply_in(line: &str) -> (reply: Result<String, SendError>)
    ensures
        match reply {
            Ok(text) => line@.len() > 0 && text@ == crate::text::trimmed_end(line@),
            Err(error) => line@.len() == 0 && error == SendError::Io(Fault::UnexpectedEof),
        },
{
    if line.is_empty() {
        Err(SendError::Io(Fault::UnexpectedEof))
    } else {
        Ok(trim_end(line).to_owned())
    }
}

/// The live sessions and their states, and the sessions whose sockets are left
/// over, as they are asked one after the other.
#[derive(Debug)]
pub struct Listing {
    live: Vec<(String, String)>,
    stale: Vec<String>,
}

/// The mathematical content of a [`Listing`].
#[verifier::ext_equal]
pub struct ListingView {
    pub live: Seq<(Seq<char>, Seq<char>)>,
    pub stale: Seq<Seq<char>>,
}

/// A session's name and what became of asking it for its state.
pub type Asked = (Seq<char>, Result<Seq<char>, SendError>);

/// The names and states of the sessions that answered, in the order in which
/// they were asked.
pub open spec fn answered(asked: Seq<Asked>) -> Seq<(Seq<char>, Seq<char>)>
    decreases asked.len(),
{
    if asked.len() == 0 {
        Seq::empty()
    } else {
        match asked.last().1 {
            Ok(state) => answered(asked.drop_last()).push((asked.last().0, state)),
            Err(_) => answered(asked.drop_last()),
        }
    }
}

/// The names at which nobody was there, in the order in which they were asked.
pub open spec fn not_there(asked: Seq<Asked>) -> Seq<Seq<char>>
    decreases asked.len(),
{
    if asked.len() == 0 {
        Seq::empty()
    } else {
        match asked.last().1 {
            Err(SendError::NoSession) => not_there(asked.drop_last()).push(asked.last().0),
            _ => not_there(asked.drop_last()),
        }
    }
}

/// The listing of the sessions that were asked: exactly those that answered are
/// shown, and exactly those at which nobody was there are stale.
pub open spec fn listing_of(asked: Seq<Asked>) -> ListingView {
    ListingView { live: answered(asked), stale: not_there(asked) }
}

/// The names and states by their characters.
pub open spec fn text_pairs(pairs: Seq<(String, String)>) -> Seq<(Seq<char>, Seq<char>)> {
    pairs.map_values(|pair: (String, String)| (pair.0@, pair.1@))
}

/// What became of asking a session, by its characters.
pub open spec fn reply_text(asked: Result<String, SendError>) -> Result<Seq<char>, SendError> {
    match asked {
        Ok(state) => Ok(state@),
        Err(error) => Err(error),
    }
}

impl ListingView {
    /// This listing after one more session was asked.
    pub open spec fn noted(self, asked: Asked) -> ListingView {
        match asked.1 {
            Ok(state) => ListingView { live: self.live.push((asked.0, state)), ..self },
            Err(SendError::NoSession) => ListingView { stale: self.stale.push(asked.0), ..self },
            Err(SendError::Io(_)) => self,
        }
    }
}

impl View for Listing {
    type V = ListingView;

    closed spec fn view(&self) -> ListingView {
        ListingView { live: text_pairs(self.live@), stale: crate::text::texts(self.stale@) }
    }
}

impl Listing {
    /// The listing before any session was asked.
    pub fn new() -> (listing: Listing)
        ensures
            listing@ == listing_of(Seq::empty()),
    {
        let listing: Listing = Listing { live: Vec::new(), stale: Vec::new() };
        assert(listing@ =~= listing_of(Seq::empty()));
        listing
    }

    /// Takes what became of asking the session `name` for its state. Says
    /// whether its socket is left over and has to be removed.
    pub fn note(&mut self, name: String, asked: Result<String, SendError>) -> (stale: bool)
        ensures
            final(self)@ == old(self)@.noted((name@, reply_text(asked))),
            stale == (asked == Err::<String, SendError>(SendError::NoSession)),
    {
        let ghost noted = old(self)@.noted((name@, reply_text(asked)));
        let stale: bool = match asked {
            Ok(state) => {
                self.live.push((name, state));
                false
            },
            Err(SendError::NoSession) => {
                self.stale.push(name);
                true
            },
            Err(SendError::Io(_)) => false,
        };
        assert(self@ =~= noted);
        stale
    }

    /// The live sessions and their states, in the order in which they were
    /// asked.
    pub fn live(&self) -> (live: &[(String, String)])
        ensures
            text_pairs(live@) == self@.live,
    {
        self.live.as_slice()
    }

    /// The sessions at which nobody was there, in the order in which they were
    /// asked.
    pub fn stale(&self) -> (stale: &[String])
        ensures
            crate::text::texts(stale@) == self@.stale,
    {
        self.stale.as_slice()
    }
}

/// The sessions whose sockets are among `files`, in the order of the files.
pub open spec fn sessions_of(files: Seq<Seq<char>>) -> Seq<Seq<char>>
    decreases files.len(),
{
    if files.len() == 0 {
        Seq::empty()
    } else {
        let sessions = sessions_of(files.drop_last());
        match session_of(files.last()) {
            Some(name) => sessions.push(name),
            None => sessions,
        }
    }
}

/// The sessions whose sockets are among the given file names, in order.
pub fn session_names(files: &[String]) -> (names: Vec<String>)
    ensures
        crate::order::ascending(crate::text::texts(names@)),
        crate::text::texts(names@).to_multiset() == sessions_of(
            crate::text::texts(files@),
        ).to_multiset(),
{
    let mut names: Vec<String> = Vec::new();
    let ghost all = crate::text::texts(files@);
    let mut i: usize = 0;
    assert(all.take(0) =~= Seq::empty());
    assert(crate::text::texts(names@) =~= Seq::empty());
    while i < files.len()
        invariant
            all == crate::text::texts(files@),
            i <= files@.len(),
            crate::order::ascending(crate::text::texts(names@)),
            crate::text::texts(names@).to_multiset() == sessions_of(
                all.take(i as int),
            ).to_multiset(),
        decreases files@.len() - i,
    {
        let found: Option<String> = session_of_file(files[i].as_str());
        let ghost before = sessions_of(all.take(i as int));
        i = i + 1;
        assert(all.take(i as int).drop_last() =~= all.take(i - 1));
        assert(all.take(i as int).last() == files@[i - 1]@);
        match found {
            Some(name) => {
                proof {
                    before.to_multiset_ensures();
                    assert(before.push(name@).to_multiset() =~= before.to_multiset().insert(name@));
                }
                crate::order::insert_name(&mut names, name);
            },
            None => {},
        }
    }
    assert(all.take(i as int) =~= all);
    names
}

} // verus!
