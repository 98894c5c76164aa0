//! The line protocol between client, router and server.
//!
//! A connection to the server opens with one line, `REGISTER <id>`,
//! `CONNECT <id>` or `WORKER <id>`. The server answers `OK` or `ERROR ...`,
//! and tells a registered client of each new public connection with
//! `CONNECT` on its control connection.
use vstd::prelude::*;
use crate::text::{
    chars_of, first_two_words, is_white_space, lemma_words_shape, no_white_space, push_range, push_str, range_equals,
    skip_white, skip_word, string_of_range, trim, trim_bounds, word_or_empty, words, words_from,
};

verus! {

broadcast use vstd::string::group_string_axioms;

// ---------------------------------------------------------------------------
// Requests
// ---------------------------------------------------------------------------

/// The first line of a connection to the server, as the server reads it.
pub enum Request {
    /// `REGISTER <id>`: the connection is the control connection of tunnel `id`.
    Register(String),
    /// `CONNECT <id>`: a public connection for tunnel `id`.
    Connect(String),
    /// `WORKER <id>`: a worker connection for tunnel `id`.
    Worker(String),
    /// The line has no second word.
    MissingTunnelId,
    /// The line's first word is no command.
    UnknownCommand(String),
}

/// A request with its strings taken by their characters.
pub enum RequestSpec {
    Register(Seq<char>),
    Connect(Seq<char>),
    Worker(Seq<char>),
    MissingTunnelId,
    UnknownCommand(Seq<char>),
}

impl Request {
    pub open spec fn view(&self) -> RequestSpec {
        match self {
            Request::Register(id) => RequestSpec::Register(id@),
            Request::Connect(id) => RequestSpec::Connect(id@),
            Request::Worker(id) => RequestSpec::Worker(id@),
            Request::MissingTunnelId => RequestSpec::MissingTunnelId,
            Request::UnknownCommand(c) => RequestSpec::UnknownCommand(c@),
        }
    }
}

/// What the server makes of the line `line`: its first word is the command,
/// its second the tunnel id (further words are ignored); a missing tunnel id
/// is reported before an unknown command.
pub open spec fn parse_request_spec(line: Seq<char>) -> RequestSpec {
    let command = word_or_empty(line, 0);
    let id = word_or_empty(line, 1);
    if id.len() == 0 {
        RequestSpec::MissingTunnelId
    } else if command == "REGISTER"@ {
        RequestSpec::Register(id)
    } else if command == "CONNECT"@ {
        RequestSpec::Connect(id)
    } else if command == "WORKER"@ {
        RequestSpec::Worker(id)
    } else {
        RequestSpec::UnknownCommand(command)
    }
}

/// Reads the first line of a connection.
pub fn parse_request(line: &str) -> (r: Request)
    ensures
        r@ == parse_request_spec(line@),
{
    let v = chars_of(line);
    let (a, b, c, d) = first_two_words(&v);
    if c == d {
        return Request::MissingTunnelId;
    }
    let id = string_of_range(&v, c, d);
    if range_equals(&v, a, b, "REGISTER") {
        Request::Register(id)
    } else if range_equals(&v, a, b, "CONNECT") {
        Request::Connect(id)
    } else if range_equals(&v, a, b, "WORKER") {
        Request::Worker(id)
    } else {
        Request::UnknownCommand(string_of_range(&v, a, b))
    }
}

/// How the server reads a line, by its whitespace-separated words: a line
/// with fewer than two words lacks a tunnel id; otherwise the first word
/// chooses the request and the second, a non-empty word without whitespace,
/// is the tunnel id; any other first word is reported as unknown.
pub proof fn lemma_parse_request_words(line: Seq<char>)
    ensures
        (parse_request_spec(line) is MissingTunnelId) <==> words(line).len() < 2,
        match parse_request_spec(line) {
            RequestSpec::Register(id) => words(line).len() >= 2 && words(line)[0] == "REGISTER"@
                && id == words(line)[1] && id.len() > 0 && no_white_space(id),
            RequestSpec::Connect(id) => words(line).len() >= 2 && words(line)[0] == "CONNECT"@
                && id == words(line)[1] && id.len() > 0 && no_white_space(id),
            RequestSpec::Worker(id) => words(line).len() >= 2 && words(line)[0] == "WORKER"@
                && id == words(line)[1] && id.len() > 0 && no_white_space(id),
            RequestSpec::MissingTunnelId => true,
            RequestSpec::UnknownCommand(c) => words(line).len() >= 2 && c == words(line)[0]
                && c != "REGISTER"@ && c != "CONNECT"@ && c != "WORKER"@,
        },
{
    lemma_words_shape(line);
}

/// The line `<command> <id>` with its newline.
pub open spec fn request_line_spec(command: Seq<char>, id: Seq<char>) -> Seq<char> {
    command + " "@ + id + "\n"@
}

fn request_line(command: &str, id: &str) -> (r: String)
    ensures
        r@ == request_line_spec(command@, id@),
{
    let mut r = String::new();
    push_str(&mut r, command);
    push_str(&mut r, " ");
    push_str(&mut r, id);
    push_str(&mut r, "\n");
    r
}

/// The client's first line on its control connection: `REGISTER <id>`.
pub fn register_line(id: &str) -> (r: String)
    ensures
        r@ == request_line_spec("REGISTER"@, id@),
{
    request_line("REGISTER", id)
}

/// The router's first line for a public connection: `CONNECT <id>`.
pub fn connect_line(id: &str) -> (r: String)
    ensures
        r@ == request_line_spec("CONNECT"@, id@),
{
    request_line("CONNECT", id)
}

/// The client's first line on a worker connection: `WORKER <id>`.
pub fn worker_line(id: &str) -> (r: String)
    ensures
        r@ == request_line_spec("WORKER"@, id@),
{
    request_line("WORKER", id)
}

/// A request line is the command, one space, the tunnel id and a newline,
/// in that order; where neither the command nor the id holds a newline, the
/// line's only newline is its last character, so the server's line read
/// ends exactly there.
pub proof fn lemma_request_line_shape(command: Seq<char>, id: Seq<char>)
    ensures
        ({
            let s = request_line_spec(command, id);
            let c = command.len() as int;
            &&& s.len() == c + id.len() + 2
            &&& s.subrange(0, c) == command
            &&& s[c] == ' '
            &&& s.subrange(c + 1, c + 1 + id.len()) == id
            &&& s.last() == '\n'
            &&& (forall|i: int| 0 <= i < command.len() ==> #[trigger] command[i] != '\n')
                && (forall|i: int| 0 <= i < id.len() ==> #[trigger] id[i] != '\n') ==> forall|
                i: int,
            | 0 <= i < s.len() - 1 ==> #[trigger] s[i] != '\n'
        }),
{
    reveal_strlit(" ");
    reveal_strlit("\n");
    let s = request_line_spec(command, id);
    let c = command.len() as int;
    assert(s.subrange(0, c) =~= command);
    assert(s.subrange(c + 1, c + 1 + id.len()) =~= id);
    if (forall|i: int| 0 <= i < command.len() ==> #[trigger] command[i] != '\n') && (forall|
        i: int,
    | 0 <= i < id.len() ==> #[trigger] id[i] != '\n') {
        assert forall|i: int| 0 <= i < s.len() - 1 implies #[trigger] s[i] != '\n' by {
            if i < c {
                assert(s[i] == command[i]);
            } else if i > c {
                assert(s[i] == id[i - c - 1]);
            }
        }
    }
}

proof fn lemma_skip_word_run(s: Seq<char>, i: int, j: int)
    requires
        0 <= i <= j <= s.len(),
        forall|k: int| i <= k < j ==> !is_white_space(#[trigger] s[k]),
        j == s.len() || is_white_space(s[j]),
    ensures
        skip_word(s, i) == j,
    decreases j - i,
{
    if i < j {
        lemma_skip_word_run(s, i + 1, j);
    }
}

proof fn lemma_skip_white_run(s: Seq<char>, i: int, j: int)
    requires
        0 <= i <= j <= s.len(),
        forall|k: int| i <= k < j ==> is_white_space(#[trigger] s[k]),
        j == s.len() || !is_white_space(s[j]),
    ensures
        skip_white(s, i) == j,
    decreases j - i,
{
    if i < j {
        lemma_skip_white_run(s, i + 1, j);
    }
}

/// A request line reads back as its two words where neither is empty or
/// holds whitespace.
pub proof fn lemma_request_line_words(command: Seq<char>, id: Seq<char>)
    requires
        command.len() > 0,
        id.len() > 0,
        no_white_space(command),
        no_white_space(id),
    ensures
        words(request_line_spec(command, id)) == seq![command, id],
{
    reveal_strlit(" ");
    reveal_strlit("\n");
    let s = request_line_spec(command, id);
    let c = command.len() as int;
    let n = id.len() as int;
    assert(s.len() == c + n + 2);
    assert forall|k: int| 0 <= k < c implies s[k] == command[k] by {}
    assert forall|k: int| 0 <= k < n implies s[c + 1 + k] == id[k] by {}
    assert(s[c] == ' ');
    assert(s[c + n + 1] == '\n');
    assert(is_white_space(s[c]));
    assert(!is_white_space(s[0]));
    lemma_skip_white_run(s, 0, 0);
    assert forall|k: int| 0 <= k < c implies !is_white_space(#[trigger] s[k]) by {
        assert(s[k] == command[k]);
    }
    lemma_skip_word_run(s, 0, c);
    assert(!is_white_space(s[c + 1])) by {
        assert(s[c + 1 + 0] == id[0]);
    }
    lemma_skip_white_run(s, c, c + 1);
    assert forall|k: int| c + 1 <= k < c + 1 + n implies !is_white_space(#[trigger] s[k]) by {
        assert(s[c + 1 + (k - c - 1)] == id[k - c - 1]);
    }
    lemma_skip_word_run(s, c + 1, c + 1 + n);
    lemma_skip_white_run(s, c + 1 + n, c + 2 + n);
    assert(words_from(s, c + 1 + n) =~= Seq::<Seq<char>>::empty());
    assert(s.subrange(0, c) =~= command);
    assert(s.subrange(c + 1, c + 1 + n) =~= id);
    assert(words_from(s, c) =~= seq![id]);
    assert(words(s) =~= seq![command, id]);
}

/// What a client or router sends is what the server reads: a `REGISTER`,
/// `CONNECT` or `WORKER` line for a tunnel id that is not empty and holds no
/// whitespace reads back as that request for that id.
pub proof fn lemma_request_line_roundtrip(id: Seq<char>)
    requires
        id.len() > 0,
        no_white_space(id),
    ensures
        parse_request_spec(request_line_spec("REGISTER"@, id)) == RequestSpec::Register(id),
        parse_request_spec(request_line_spec("CONNECT"@, id)) == RequestSpec::Connect(id),
        parse_request_spec(request_line_spec("WORKER"@, id)) == RequestSpec::Worker(id),
{
    reveal_strlit("REGISTER");
    reveal_strlit("CONNECT");
    reveal_strlit("WORKER");
    assert(no_white_space("REGISTER"@));
    assert(no_white_space("CONNECT"@));
    assert(no_white_space("WORKER"@));
    lemma_request_line_words("REGISTER"@, id);
    lemma_request_line_words("CONNECT"@, id);
    lemma_request_line_words("WORKER"@, id);
    assert("CONNECT"@ != "REGISTER"@);
    assert("WORKER"@ != "REGISTER"@);
    assert("WORKER"@ != "CONNECT"@);
}

// ---------------------------------------------------------------------------
// Replies
// ---------------------------------------------------------------------------

/// A line the server sends.
pub enum Reply {
    /// `OK`: registration or worker accepted.
    Accepted,
    /// `ERROR missing tunnel id`.
    MissingTunnelId,
    /// `ERROR unknown command <command>`.
    UnknownCommand(String),
    /// `ERROR tunnel already exists`.
    TunnelExists,
    /// `ERROR unknown tunnel`.
    UnknownTunnel,
    /// `CONNECT`, on a control connection: open a worker.
    Connect,
}

/// The text of a reply, newline included.
pub open spec fn reply_text_spec(r: Reply) -> Seq<char> {
    match r {
        Reply::Accepted => "OK\n"@,
        Reply::MissingTunnelId => "ERROR missing tunnel id\n"@,
        Reply::UnknownCommand(c) => "ERROR unknown command "@ + c@ + "\n"@,
        Reply::TunnelExists => "ERROR tunnel already exists\n"@,
        Reply::UnknownTunnel => "ERROR unknown tunnel\n"@,
        Reply::Connect => "CONNECT\n"@,
    }
}

/// Every reply is one line: it ends with a newline, and it holds no other
/// newline where the reported command holds none. The refusals start with
/// `ERROR `; `OK` and `CONNECT` do not.
pub proof fn lemma_reply_is_one_line(r: Reply)
    ensures
        reply_text_spec(r).len() > 0,
        reply_text_spec(r).last() == '\n',
        (r matches Reply::UnknownCommand(c) ==> forall|i: int|
            0 <= i < c@.len() ==> #[trigger] c@[i] != '\n') ==> forall|i: int|
            0 <= i < reply_text_spec(r).len() - 1 ==> #[trigger] reply_text_spec(r)[i] != '\n',
        match r {
            Reply::Accepted => reply_text_spec(r)[0] != 'E',
            Reply::Connect => reply_text_spec(r)[0] != 'E',
            _ => reply_text_spec(r).len() > 6 && reply_text_spec(r).subrange(0, 6) == "ERROR "@,
        },
{
    reveal_strlit("OK\n");
    reveal_strlit("ERROR missing tunnel id\n");
    reveal_strlit("ERROR unknown command ");
    reveal_strlit("\n");
    reveal_strlit("ERROR tunnel already exists\n");
    reveal_strlit("ERROR unknown tunnel\n");
    reveal_strlit("CONNECT\n");
    reveal_strlit("ERROR ");
    let t = reply_text_spec(r);
    match r {
        Reply::UnknownCommand(c) => {
            let p = "ERROR unknown command "@;
            assert(t.subrange(0, 6) =~= "ERROR "@);
            if forall|i: int| 0 <= i < c@.len() ==> #[trigger] c@[i] != '\n' {
                assert forall|i: int| 0 <= i < t.len() - 1 implies #[trigger] t[i] != '\n' by {
                    if i >= p.len() {
                        assert(t[i] == c@[i - p.len()]);
                    }
                }
            }
        },
        Reply::Accepted => {},
        Reply::Connect => {},
        _ => {
            assert(t.subrange(0, 6) =~= "ERROR "@);
        },
    }
}

/// The text of a reply, newline included.
pub fn reply_text(r: &Reply) -> (t: String)
    ensures
        t@ == reply_text_spec(*r),
{
    let mut t = String::new();
    match r {
        Reply::Accepted => push_str(&mut t, "OK\n"),
        Reply::MissingTunnelId => push_str(&mut t, "ERROR missing tunnel id\n"),
        Reply::UnknownCommand(c) => {
            push_str(&mut t, "ERROR unknown command ");
            push_str(&mut t, c.as_str());
            push_str(&mut t, "\n");
        },
        Reply::TunnelExists => push_str(&mut t, "ERROR tunnel already exists\n"),
        Reply::UnknownTunnel => push_str(&mut t, "ERROR unknown tunnel\n"),
        Reply::Connect => push_str(&mut t, "CONNECT\n"),
    }
    t
}

// ---------------------------------------------------------------------------
// The client's reading of the server's lines
// ---------------------------------------------------------------------------

/// Whether the server's answer to `REGISTER` accepts the tunnel: it reads
/// `OK` once trimmed.
pub fn registration_accepted(response: &str) -> (b: bool)
    ensures
        b == (trim(response@) == "OK"@),
{
    let v = chars_of(response);
    let (a, b) = trim_bounds(&v);
    range_equals(&v, a, b, "OK")
}

/// The message with which a worker fails when the server refuses it.
pub open spec fn worker_rejected_message(response: Seq<char>) -> Seq<char> {
    "server rejected worker: "@ + trim(response)
}

/// The server's answer to `WORKER`: accepted where it reads `OK` once
/// trimmed, else refused with `server rejected worker: <trimmed answer>`.
pub fn worker_response(response: &str) -> (r: Result<(), String>)
    ensures
        match r {
            Ok(()) => trim(response@) == "OK"@,
            Err(m) => trim(response@) != "OK"@ && m@ == worker_rejected_message(response@),
        },
{
    let v = chars_of(response);
    let (a, b) = trim_bounds(&v);
    if range_equals(&v, a, b, "OK") {
        Ok(())
    } else {
        let mut m = String::new();
        push_str(&mut m, "server rejected worker: ");
        push_range(&mut m, &v, a, b);
        Err(m)
    }
}

/// What the client does with a line on its control connection.
pub enum ControlEvent {
    /// `CONNECT`: open a worker connection.
    OpenWorker,
    /// A blank line: nothing.
    Ignore,
    /// Anything else, trimmed: report it.
    Unknown(String),
}

/// Classifies a line the client reads on its control connection, by its
/// trimmed text.
pub fn control_event(line: &str) -> (e: ControlEvent)
    ensures
        match e {
            ControlEvent::OpenWorker => trim(line@) == "CONNECT"@,
            ControlEvent::Ignore => trim(line@).len() == 0,
            ControlEvent::Unknown(m) => trim(line@) != "CONNECT"@ && trim(line@).len() != 0
                && m@ == trim(line@),
        },
{
    let v = chars_of(line);
    let (a, b) = trim_bounds(&v);
    if range_equals(&v, a, b, "CONNECT") {
        ControlEvent::OpenWorker
    } else if a == b {
        ControlEvent::Ignore
    } else {
        ControlEvent::Unknown(string_of_range(&v, a, b))
    }
}

/// The client understands the server: the `OK` reply reads as accepted,
/// both for a registration and for a worker, and the `CONNECT` signal on a
/// control connection reads as a request to open a worker.
pub proof fn lemma_client_reads_replies()
    ensures
        trim(reply_text_spec(Reply::Accepted)) == "OK"@,
        trim(reply_text_spec(Reply::Connect)) == "CONNECT"@,
{
    reveal_strlit("OK\n");
    reveal_strlit("OK");
    reveal_strlit("CONNECT\n");
    reveal_strlit("CONNECT");
    let ok = "OK\n"@;
    assert(crate::text::trim_start(ok) == ok);
    assert(ok.drop_last() =~= "OK"@);
    assert(crate::text::trim_end("OK"@) == "OK"@);
    let c = "CONNECT\n"@;
    assert(crate::text::trim_start(c) == c);
    assert(c.drop_last() =~= "CONNECT"@);
    assert(crate::text::trim_end("CONNECT"@) == "CONNECT"@);
}

} // verus!
