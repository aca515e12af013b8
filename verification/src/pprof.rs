//! The profiling endpoint: what it reads of a request, and what it answers.
//!
//! A deliberately small HTTP/1.1 responder: one request per connection, a bounded request head and
//! two routes. Only the CPU profile is served.
use vstd::prelude::*;
use vstd::slice::{slice_subrange, slice_to_vec};
use vstd::string::*;
use vstd::utf8::{
    decode_utf8, encode_utf8, encode_utf8_decode_utf8, encode_utf8_valid_utf8, valid_utf8,
};

use crate::text::{
    chars_of, decimal, every_way_to_write_an_integer, find_char, integer_value, lemma_split_first,
    lemma_split_whole, parse_int, position_of, push_decimal, split, split_at_char, str_eq, substring,
    text_of_utf8, texts, zeros,
};

verus! {

/// The address of the profiling server: every interface, port 6060.
pub const ADDR: &'static str = ":6060";

/// Port of [`ADDR`].
pub const PORT: u16 = 6060;

/// The only path that is answered with a profile.
pub const PROFILE_PATH: &'static str = "/debug/pprof/profile";

/// What a build without the profiler logs.
pub const NOT_AVAILABLE: &'static str = "pprof: not available in this build";

/// Samples per second.
pub const FREQUENCY: i32 = 100;

/// How long a profile takes unless the request says otherwise, in seconds.
pub const DEFAULT_SECONDS: i64 = 30;

/// The longest profile, in seconds.
pub const MAX_SECONDS: i64 = 3600;

/// The largest request head that is accepted, after which the connection is dropped.
pub const MAX_HEAD: usize = 8192;

// ---------------------------------------------------------------------------------------
// Accepting
// ---------------------------------------------------------------------------------------
/// How accepting a connection failed.
#[derive(Debug, Clone, Copy, PartialEq, Eq, Structural)]
pub enum AcceptFailure {
    Interrupted,
    WouldBlock,
    TimedOut,
    ConnectionAborted,
    /// Another error, with its number where it has one.
    Other(Option<i32>),
}

/// The number of the error that the process is out of descriptors.
pub const EMFILE: i32 = 24;

/// The number of the error that the system is out of descriptors.
pub const ENFILE: i32 = 23;

/// Whether accepting is tried again after a failure.
pub fn is_temporary(failure: AcceptFailure) -> (r: bool)
    ensures
        r == (match failure {
            AcceptFailure::Other(Some(n)) => n == EMFILE || n == ENFILE,
            AcceptFailure::Other(None) => false,
            _ => true,
        }),
{
    match failure {
        AcceptFailure::Other(Some(n)) => n == EMFILE || n == ENFILE,
        AcceptFailure::Other(None) => false,
        _ => true,
    }
}

/// The delay before the next try, in milliseconds: 5 at first, then twice the last one, up to a
/// second.
pub fn next_delay(last: u64) -> (ms: u64)
    ensures
        ms == (if last == 0 {
            5
        } else if 2 * last > 1000 {
            1000
        } else {
            2 * last
        }),
{
    if last == 0 {
        5
    } else if last > 500 {
        1000
    } else {
        2 * last
    }
}

/// A delay as it is shown.
pub open spec fn duration_text(ms: nat) -> Seq<char> {
    if ms >= 1000 {
        decimal(ms / 1000) + "s"@
    } else {
        decimal(ms) + "ms"@
    }
}

/// A delay as it is shown: in whole seconds from one second on, in milliseconds below.
pub fn go_duration(ms: u64) -> (s: String)
    ensures
        s@ == duration_text(ms as nat),
{
    let mut s = String::new();
    if ms >= 1000 {
        push_decimal(&mut s, ms / 1000);
        s.append("s");
    } else {
        push_decimal(&mut s, ms);
        s.append("ms");
    }
    assert(s@ =~= duration_text(ms as nat));
    s
}

/// The line that is logged before accepting is tried again.
pub fn retry_message(err: &str, delay: u64) -> (s: String)
    ensures
        s@ == "http: Accept error: "@ + err@ + "; retrying in "@ + duration_text(delay as nat),
{
    let mut s = "http: Accept error: ".to_owned();
    s.append(err);
    s.append("; retrying in ");
    let d = go_duration(delay);
    s.append(d.as_str());
    s
}

// ---------------------------------------------------------------------------------------
// The request
// ---------------------------------------------------------------------------------------
/// The first position of a byte from `from` on; the length when it does not occur.
pub open spec fn find_byte(s: Seq<u8>, b: u8, from: int) -> int
    decreases s.len() - from,
{
    if from >= s.len() || s[from] == b {
        from
    } else {
        find_byte(s, b, from + 1)
    }
}

/// Where the first line ends, without its line ending.
pub open spec fn line_end(s: Seq<u8>) -> Option<int> {
    let nl = find_byte(s, 10, 0);
    if nl >= s.len() {
        None
    } else if nl > 0 && s[nl - 1] == 13 {
        Some(nl - 1)
    } else {
        Some(nl)
    }
}

/// Index of the first `\r\n` or `\n`, i.e. the end of the request line.
pub fn find_line_end(buf: &[u8]) -> (r: Option<usize>)
    ensures
        r is Some <==> line_end(buf@) is Some,
        r is Some ==> r->0 == line_end(buf@)->0 && r->0 < buf@.len(),
{
    let mut i: usize = 0;
    while i < buf.len() && buf[i] != 10
        invariant
            i <= buf.len(),
            find_byte(buf@, 10, i as int) == find_byte(buf@, 10, 0),
        decreases buf.len() - i,
    {
        i = i + 1;
    }
    if i >= buf.len() {
        return None;
    }
    if i > 0 && buf[i - 1] == 13 {
        Some(i - 1)
    } else {
        Some(i)
    }
}

/// What a request head holds so far.
#[derive(Debug, PartialEq, Eq)]
pub enum Head {
    /// Its first line is not complete.
    More,
    /// It is too large, or its first line is not text: the connection is dropped.
    Drop,
    /// Its first line.
    Line(String),
}

/// Looks for the request line in what has been read of a request.
pub fn request_line(head: &[u8]) -> (r: Head)
    ensures
        ({
            let line = head@.take(line_end(head@)->0);
            if head@.len() > MAX_HEAD || (line_end(head@) is Some && !valid_utf8(line)) {
                r is Drop
            } else if line_end(head@) is None {
                r is More
            } else {
                r matches Head::Line(s) && s@ == decode_utf8(line)
            }
        }),
{
    if head.len() > MAX_HEAD {
        return Head::Drop;
    }
    match find_line_end(head) {
        None => Head::More,
        Some(n) => {
            let line = slice_to_vec(slice_subrange(head, 0, n));
            assert(line@ =~= head@.take(n as int));
            match text_of_utf8(line) {
                Some(s) => Head::Line(s),
                None => Head::Drop,
            }
        },
    }
}

/// The first of some `name=value` pairs that is named `seconds`.
pub open spec fn seconds_value(pairs: Seq<Seq<char>>) -> Option<Seq<char>>
    decreases pairs.len(),
{
    if pairs.len() == 0 {
        None
    } else if "seconds="@.is_prefix_of(pairs[0]) {
        Some(pairs[0].skip(8))
    } else {
        seconds_value(pairs.skip(1))
    }
}

/// The number of seconds that a query asks for: 30 where it asks for none, or for something that
/// is not a positive integer.
pub open spec fn seconds_of(query: Seq<char>) -> int {
    match seconds_value(split(query, '&')) {
        Some(text) => match integer_value(text) {
            Some(n) => if n > 0 {
                n
            } else {
                DEFAULT_SECONDS as int
            },
            None => DEFAULT_SECONDS as int,
        },
        None => DEFAULT_SECONDS as int,
    }
}

/// Whether a pair is named `seconds`.
fn is_seconds(pair: &Vec<char>) -> (r: bool)
    ensures
        r == "seconds="@.is_prefix_of(pair@),
        r ==> pair@.len() >= 8,
{
    proof {
        reveal_strlit("seconds=");
    }
    let name = chars_of("seconds=");
    if pair.len() < name.len() {
        return false;
    }
    let mut i: usize = 0;
    while i < name.len()
        invariant
            i <= name.len() <= pair.len(),
            name@ == "seconds="@,
            forall|k: int| 0 <= k < i ==> pair@[k] == name@[k],
        decreases name.len() - i,
    {
        if pair[i] != name[i] {
            assert(name@[i as int] != pair@.subrange(0, name@.len() as int)[i as int]);
            return false;
        }
        i = i + 1;
    }
    assert(name@ =~= pair@.subrange(0, name@.len() as int));
    true
}

/// `seconds=N` in a query, always a positive number of seconds.
pub fn parse_seconds(query: &str) -> (sec: i64)
    ensures
        sec == seconds_of(query@),
        sec > 0,
{
    let chars = chars_of(query);
    let pairs = split_at_char(chars.as_slice(), '&');
    let mut i: usize = 0;
    assert(texts(pairs@).skip(0) =~= texts(pairs@));
    while i < pairs.len()
        invariant
            i <= pairs.len(),
            texts(pairs@) == split(query@, '&'),
            seconds_value(texts(pairs@)) == seconds_value(texts(pairs@).skip(i as int)),
        decreases pairs.len() - i,
    {
        proof {
            assert(texts(pairs@).skip(i as int)[0] == pairs@[i as int]@);
            assert(texts(pairs@).skip(i as int).skip(1) =~= texts(pairs@).skip(i + 1));
        }
        if is_seconds(&pairs[i]) {
            let value = slice_subrange(pairs[i].as_slice(), 8, pairs[i].len());
            assert(value@ =~= pairs@[i as int]@.skip(8));
            return match parse_int(value) {
                Some(n) => if n > 0 {
                    n
                } else {
                    DEFAULT_SECONDS
                },
                None => DEFAULT_SECONDS,
            };
        }
        i = i + 1;
    }
    DEFAULT_SECONDS
}

/// What a request asks for.
#[derive(Debug, Clone, Copy, PartialEq, Eq, Structural)]
pub enum Route {
    /// A CPU profile over so many seconds.
    Profile(i64),
    /// The list of what there is.
    Index,
    /// Anything else.
    NotFound,
}

/// The target of a request line: what stands between its first and its second space.
pub open spec fn target_of(line: Seq<char>) -> Seq<char> {
    let words = split(line, ' ');
    if words.len() > 1 {
        words[1]
    } else {
        "/"@
    }
}

/// The path of a target.
pub open spec fn path_of(target: Seq<char>) -> Seq<char> {
    target.take(find_char(target, '?', 0))
}

/// The query of a target.
pub open spec fn query_of(target: Seq<char>) -> Seq<char> {
    if find_char(target, '?', 0) < target.len() {
        target.skip(find_char(target, '?', 0) + 1)
    } else {
        Seq::empty()
    }
}

/// What a request line asks for. The method is ignored, and a profile never takes longer than an
/// hour.
pub open spec fn route_of(line: Seq<char>) -> Route {
    let target = target_of(line);
    let path = path_of(target);
    if path == PROFILE_PATH@ {
        let sec = seconds_of(query_of(target));
        Route::Profile((if sec > MAX_SECONDS { MAX_SECONDS as int } else { sec }) as i64)
    } else if path == "/"@ || path == "/debug/pprof"@ || path == "/debug/pprof/"@ {
        Route::Index
    } else {
        Route::NotFound
    }
}

/// What a request line asks for.
pub fn route(line: &str) -> (r: Route)
    ensures
        r == route_of(line@),
{
    let words = split_at_char(chars_of(line).as_slice(), ' ');
    assert(words@.len() == texts(words@).len());
    let target: Vec<char> = if words.len() > 1 {
        assert(words@[1]@ == texts(words@)[1]);
        slice_to_vec(words[1].as_slice())
    } else {
        chars_of("/")
    };
    assert(target@ == target_of(line@));
    let q = position_of(target.as_slice(), '?', 0);
    let path = substring(target.as_slice(), 0, q);
    assert(path@ =~= path_of(target@));
    if str_eq(path.as_str(), PROFILE_PATH) {
        let query = if q < target.len() {
            substring(target.as_slice(), q + 1, target.len())
        } else {
            String::new()
        };
        proof {
            reveal_strlit("");
            assert(query@ =~= query_of(target@));
        }
        let sec = parse_seconds(query.as_str());
        return Route::Profile(
            if sec > MAX_SECONDS {
                MAX_SECONDS
            } else {
                sec
            },
        );
    }
    if str_eq(path.as_str(), "/") || str_eq(path.as_str(), "/debug/pprof") || str_eq(
        path.as_str(),
        "/debug/pprof/",
    ) {
        return Route::Index;
    }
    Route::NotFound
}

// ---------------------------------------------------------------------------------------
// The answer
// ---------------------------------------------------------------------------------------
/// What the index says.
pub const INDEX_BODY: &'static str = "kcptun profiling endpoint\n\n/debug/pprof/profile?seconds=N  CPU profile (default 30s)\n\ngo tool pprof http://<host>:6060/debug/pprof/profile?seconds=30\n";

/// What is said where there is nothing.
pub const NOT_FOUND_BODY: &'static str = "404 page not found\n";

/// What is said when the profile could not be taken.
pub fn profile_error_body(err: &str) -> (s: String)
    ensures
        s@ == "Could not enable CPU profiling: "@ + err@ + "\n"@,
{
    let mut s = "Could not enable CPU profiling: ".to_owned();
    s.append(err);
    s.append("\n");
    s
}

/// A header of an answer.
#[derive(Debug, Clone, PartialEq, Eq)]
pub struct Header {
    pub name: &'static str,
    pub value: &'static str,
}

/// Some headers, as they are sent.
pub open spec fn headers_text(headers: Seq<Header>) -> Seq<char>
    decreases headers.len(),
{
    if headers.len() == 0 {
        Seq::empty()
    } else {
        headers_text(headers.drop_last()) + (headers.last().name@ + ": "@ + headers.last().value@
            + "\r\n"@)
    }
}

/// Whether a header says what the body is.
pub open spec fn has_content_type(headers: Seq<Header>) -> bool {
    exists|i: int| 0 <= i < headers.len() && (#[trigger] headers[i]).name@ == "Content-Type"@
}

/// The head of an answer.
pub open spec fn head_text(status: Seq<char>, headers: Seq<Header>, body_len: nat) -> Seq<char> {
    "HTTP/1.1 "@ + status + "\r\nContent-Length: "@ + decimal(body_len)
        + "\r\nConnection: close\r\nX-Content-Type-Options: nosniff\r\n"@ + headers_text(headers)
        + (if has_content_type(headers) {
        Seq::empty()
    } else {
        "Content-Type: text/plain; charset=utf-8\r\n"@
    }) + "\r\n"@
}

/// The head of an answer. A body that no header describes is plain text.
pub fn response_head(status: &str, headers: &Vec<Header>, body_len: usize) -> (s: String)
    ensures
        s@ == head_text(status@, headers@, body_len as nat),
{
    let mut s = "HTTP/1.1 ".to_owned();
    s.append(status);
    s.append("\r\nContent-Length: ");
    push_decimal(&mut s, body_len as u64);
    s.append("\r\nConnection: close\r\nX-Content-Type-Options: nosniff\r\n");
    let ghost start = s@;
    let mut described = false;
    let mut i: usize = 0;
    assert(headers@.take(0) =~= Seq::<Header>::empty());
    assert(s@ =~= start + headers_text(headers@.take(0)));
    while i < headers.len()
        invariant
            i <= headers.len(),
            s@ == start + headers_text(headers@.take(i as int)),
            described == has_content_type(headers@.take(i as int)),
        decreases headers.len() - i,
    {
        let ghost done = headers@.take(i as int);
        let ghost more = headers@.take(i + 1);
        s.append(headers[i].name);
        s.append(": ");
        s.append(headers[i].value);
        s.append("\r\n");
        let here = str_eq(headers[i].name, "Content-Type");
        proof {
            assert(more.drop_last() =~= done);
            assert(s@ =~= start + headers_text(more));
            if has_content_type(done) {
                let k = choose|k: int|
                    0 <= k < done.len() && (#[trigger] done[k]).name@ == "Content-Type"@;
                assert(more[k].name@ == "Content-Type"@);
            }
            if here {
                assert(more[i as int].name@ == "Content-Type"@);
            }
            if has_content_type(more) && !here {
                let k = choose|k: int|
                    0 <= k < more.len() && (#[trigger] more[k]).name@ == "Content-Type"@;
                assert(done[k].name@ == "Content-Type"@);
            }
        }
        described = described || here;
        i = i + 1;
    }
    assert(headers@.take(i as int) =~= headers@);
    if !described {
        s.append("Content-Type: text/plain; charset=utf-8\r\n");
    }
    s.append("\r\n");
    assert(s@ =~= head_text(status@, headers@, body_len as nat));
    s
}

/// The headers of a profile.
pub fn profile_headers() -> (v: Vec<Header>)
    ensures
        v@ == seq![
            (Header { name: "Content-Type", value: "application/octet-stream" }),
            (Header { name: "Content-Disposition", value: "attachment; filename=\"profile\"" }),
        ],
{
    let mut v: Vec<Header> = Vec::new();
    v.push(Header { name: "Content-Type", value: "application/octet-stream" });
    v.push(Header { name: "Content-Disposition", value: "attachment; filename=\"profile\"" });
    v
}

/// The headers of a profile that could not be taken.
pub fn error_headers() -> (v: Vec<Header>)
    ensures
        v@ == seq![
            (Header { name: "Content-Type", value: "text/plain; charset=utf-8" }),
            (Header { name: "X-Go-Pprof", value: "1" }),
        ],
{
    let mut v: Vec<Header> = Vec::new();
    v.push(Header { name: "Content-Type", value: "text/plain; charset=utf-8" });
    v.push(Header { name: "X-Go-Pprof", value: "1" });
    v
}

// ---------------------------------------------------------------------------------------
// Laws
// ---------------------------------------------------------------------------------------
/// A profile is always asked for over at least a second and at most an hour.
pub proof fn a_profile_is_bounded(line: Seq<char>)
    ensures
        route_of(line) matches Route::Profile(sec) ==> 1 <= sec <= MAX_SECONDS,
{
}

/// The first `seconds` of a query counts.
pub proof fn the_first_seconds_counts(value: Seq<char>, rest: Seq<Seq<char>>)
    ensures
        seconds_value(seq!["seconds="@ + value] + rest) == Some(value),
{
    reveal_strlit("seconds=");
    let pairs = seq!["seconds="@ + value] + rest;
    assert(pairs[0].subrange(0, 8) =~= "seconds="@);
    assert(pairs[0].skip(8) =~= value);
}

/// The position of a character that comes nowhere before it.
proof fn lemma_found(s: Seq<char>, c: char, from: int, at: int)
    requires
        0 <= from <= at <= s.len(),
        at < s.len() ==> s[at] == c,
        forall|k: int| from <= k < at ==> #[trigger] s[k] != c,
    ensures
        find_char(s, c, from) == at,
    decreases at - from,
{
    if from < at {
        assert(s[from] != c);
        lemma_found(s, c, from + 1, at);
    }
}

/// Where the parts of a request line are.
proof fn lemma_target(method: Seq<char>, path: Seq<char>, query: Option<Seq<char>>, rest: Seq<char>)
    requires
        !method.contains(' '),
        !path.contains(' ') && !path.contains('?'),
        query matches Some(q) ==> !q.contains(' '),
    ensures
        ({
            let target = match query {
                Some(q) => path.push('?') + q,
                None => path,
            };
            let line = method.push(' ') + (target.push(' ') + rest);
            &&& target_of(line) == target
            &&& path_of(target) == path
            &&& query_of(target) == (match query {
                Some(q) => q,
                None => Seq::empty(),
            })
        }),
{
    let target = match query {
        Some(q) => path.push('?') + q,
        None => path,
    };
    assert(!target.contains(' ')) by {
        assert forall|k: int| 0 <= k < target.len() implies target[k] != ' ' by {
            if k < path.len() {
                assert(path.contains(path[k]));
            } else if k > path.len() {
                assert(query->0.contains(query->0[k - path.len() - 1]));
            }
        }
    }
    lemma_split_first(target, rest, ' ');
    lemma_split_first(method, target.push(' ') + rest, ' ');
    let words = split(method.push(' ') + (target.push(' ') + rest), ' ');
    assert(words[1] == target);
    assert forall|k: int| 0 <= k < path.len() implies #[trigger] target[k] != '?' by {
        assert(path.contains(path[k]));
    }
    lemma_found(target, '?', 0, path.len() as int);
    assert(target.take(path.len() as int) =~= path);
    if let Some(q) = query {
        assert(target.skip(path.len() as int + 1) =~= q);
    }
}

/// A request for a profile over so many seconds is a profile over so many seconds, whatever the method
/// and whatever follows the target, up to 3600; one that asks for none, or for zero, is one over 30.
pub proof fn a_profile_takes_as_long_as_it_is_asked_to(
    line: &str,
    method: Seq<char>,
    n: nat,
    rest: Seq<char>,
    r: Route,
)
    requires
        !method.contains(' '),
        n <= i64::MAX,
        line@ == method.push(' ') + (("/debug/pprof/profile"@.push('?') + ("seconds="@ + decimal(
            n,
        ))).push(' ') + rest),
        call_ensures(route, (line,), r),
    ensures
        r == Route::Profile(
            (if n == 0 {
                30
            } else if n > 3600 {
                3600
            } else {
                n as int
            }) as i64,
        ),
{
    let path = "/debug/pprof/profile"@;
    let query = "seconds="@ + decimal(n);
    lemma_profile_path();
    every_way_to_write_an_integer(n, 0);
    lemma_plain_digits(n);
    assert(zeros(0) + decimal(n) =~= decimal(n));
    assert(!query.contains(' ') && !query.contains('&')) by {
        reveal_strlit("seconds=");
        assert forall|k: int| 0 <= k < query.len() implies query[k] != ' ' && query[k] != '&' by {
            if k >= 8 {
                assert(query[k] == decimal(n)[k - 8]);
            }
        }
    }
    lemma_target(method, path, Some(query), rest);
    lemma_split_whole(query, '&');
    the_first_seconds_counts(decimal(n), Seq::empty());
    assert(seq![query] + Seq::<Seq<char>>::empty() =~= seq![query]);
}

/// Any other path is the index, or nothing: the root and `/debug/pprof` with or without a slash are
/// the index.
pub proof fn only_one_path_is_a_profile(
    line: &str,
    method: Seq<char>,
    path: Seq<char>,
    rest: Seq<char>,
    r: Route,
)
    requires
        !method.contains(' '),
        !path.contains(' ') && !path.contains('?'),
        line@ == method.push(' ') + (path.push(' ') + rest),
        call_ensures(route, (line,), r),
    ensures
        path == "/debug/pprof/profile"@ ==> r == Route::Profile(30),
        path == "/"@ || path == "/debug/pprof"@ || path == "/debug/pprof/"@ ==> r == Route::Index,
        path != "/debug/pprof/profile"@ && path != "/"@ && path != "/debug/pprof"@ && path
            != "/debug/pprof/"@ ==> r == Route::NotFound,
{
    lemma_target(method, path, None, rest);
    lemma_split_whole(Seq::empty(), '&');
    assert(seconds_value(split(Seq::<char>::empty(), '&')) is None) by {
        reveal_strlit("seconds=");
        reveal_with_fuel(seconds_value, 2);
        assert(split(Seq::<char>::empty(), '&')[0].len() == 0);
        assert(split(Seq::<char>::empty(), '&').skip(1).len() == 0);
    }
    reveal_strlit("/debug/pprof/profile");
    reveal_strlit("/");
    reveal_strlit("/debug/pprof");
    reveal_strlit("/debug/pprof/");
}

proof fn lemma_profile_path()
    ensures
        !"/debug/pprof/profile"@.contains(' '),
        !"/debug/pprof/profile"@.contains('?'),
{
    reveal_strlit("/debug/pprof/profile");
}

proof fn lemma_plain_digits(n: nat)
    ensures
        forall|k: int| 0 <= k < decimal(n).len() ==> '0' <= #[trigger] decimal(n)[k] <= '9',
    decreases n,
{
    if n >= 10 {
        lemma_plain_digits(n / 10);
        assert forall|k: int| 0 <= k < decimal(n).len() implies '0' <= #[trigger] decimal(n)[k]
            <= '9' by {
            if k < decimal(n / 10).len() {
                assert(decimal(n)[k] == decimal(n / 10)[k]);
            }
        }
    }
}

/// A request line is read as it was sent, whatever follows it, when it ends with a line feed or with a
/// carriage return and a line feed, and what has arrived is at most 8192 bytes.
pub proof fn a_request_line_is_read_as_it_was_sent(
    head: &[u8],
    line: Seq<char>,
    returned: bool,
    rest: Seq<u8>,
    r: Head,
)
    requires
        !encode_utf8(line).contains(10),
        line.len() > 0 && !returned ==> encode_utf8(line).last() != 13,
        head@ == encode_utf8(line) + (if returned {
            seq![13u8, 10u8]
        } else {
            seq![10u8]
        }) + rest,
        call_ensures(request_line, (head,), r),
    ensures
        head@.len() <= 8192 ==> (r matches Head::Line(s) && s@ == line),
        head@.len() > 8192 ==> r is Drop,
{
    let bytes = encode_utf8(line);
    let h = head@;
    let n = bytes.len() as int;
    let nl = if returned {
        n + 1
    } else {
        n
    };
    encode_utf8_valid_utf8(line);
    encode_utf8_decode_utf8(line);
    assert forall|k: int| 0 <= k < nl implies #[trigger] h[k] != 10 by {
        if k < n {
            assert(h[k] == bytes[k]);
            assert(bytes.contains(bytes[k]));
        }
    }
    assert(h[nl] == 10);
    lemma_byte_found(h, 10, 0, nl);
    if n > 0 {
        assert(h[n - 1] == bytes.last());
    }
    if n == 0 {
        assert(returned || nl == 0);
    } else {
        assert(line.len() > 0) by {
            if line.len() == 0 {
                assert(bytes.len() == 0);
            }
        }
    }
    assert(h.take(n) =~= bytes);
}

proof fn lemma_byte_found(s: Seq<u8>, b: u8, from: int, at: int)
    requires
        0 <= from <= at < s.len(),
        s[at] == b,
        forall|k: int| from <= k < at ==> #[trigger] s[k] != b,
    ensures
        find_byte(s, b, from) == at,
    decreases at - from,
{
    if from < at {
        assert(s[from] != b);
        lemma_byte_found(s, b, from + 1, at);
    }
}

/// A connection that cannot be accepted is tried for again only if waiting may help, and then later
/// and later: after 5 milliseconds at first, twice as late each time, and never later than a second.
pub proof fn accepting_backs_off(failure: AcceptFailure, retry: bool, last: u64, ms: u64)
    requires
        call_ensures(is_temporary, (failure,), retry),
        call_ensures(next_delay, (last,), ms),
    ensures
        !retry <==> (failure matches AcceptFailure::Other(n) && n != Some(23i32) && n != Some(
            24i32,
        )),
        last == 0 ==> ms == 5,
        0 < last <= 500 ==> ms == last + last,
        500 < last ==> ms == 1000,
{
}

/// A delay is shown as a number and its unit: milliseconds below a second, and from there on the whole
/// seconds that have passed.
pub proof fn a_shown_delay_reads_back(ms: u64, s: String)
    requires
        call_ensures(go_duration, (ms,), s),
    ensures
        ms < 1000 ==> s@.len() > 2 && s@.skip(s@.len() - 2) == seq!['m', 's'] && integer_value(
            s@.take(s@.len() - 2),
        ) == Some(ms as int),
        ms >= 1000 ==> s@.len() > 1 && s@.last() == 's' && (integer_value(s@.take(s@.len() - 1))
            matches Some(n) && 1000 * n <= ms < 1000 * (n + 1)),
{
    reveal_strlit("s");
    reveal_strlit("ms");
    let n: nat = if ms < 1000 {
        ms as nat
    } else {
        ms as nat / 1000
    };
    every_way_to_write_an_integer(n, 0);
    assert(zeros(0) + decimal(n) =~= decimal(n));
    lemma_plain_digits(n);
    if ms < 1000 {
        assert(s@.skip(s@.len() - 2) =~= seq!['m', 's']);
        assert(s@.take(s@.len() - 2) =~= decimal(n));
    } else {
        assert(s@.take(s@.len() - 1) =~= decimal(n));
    }
}

/// The head of an answer begins with its status, says how long the body is, and ends with an empty
/// line.
pub proof fn an_answer_says_how_long_it_is(
    status: &str,
    headers: &Vec<Header>,
    body_len: usize,
    s: String,
)
    requires
        call_ensures(response_head, (status, headers, body_len), s),
        body_len <= i64::MAX,
    ensures
        exists|digits: Seq<char>, rest: Seq<char>|
            s@ == #[trigger] (("HTTP/1.1 "@ + status@ + "\r\nContent-Length: "@ + digits
                + "\r\n"@) + rest) && integer_value(digits) == Some(body_len as int),
        s@.len() >= 4,
        s@.skip(s@.len() - 4) == seq!['\r', '\n', '\r', '\n'],
{
    let digits = decimal(body_len as nat);
    every_way_to_write_an_integer(body_len as nat, 0);
    assert(zeros(0) + digits =~= digits);
    let all = "HTTP/1.1 "@ + status@ + "\r\nContent-Length: "@ + digits + "\r\n"@;
    reveal_strlit("\r\n");
    reveal_strlit("\r\nConnection: close\r\nX-Content-Type-Options: nosniff\r\n");
    reveal_strlit("Content-Type: text/plain; charset=utf-8\r\n");
    let rest = s@.skip(all.len() as int);
    assert(s@ =~= all + rest);
    lemma_headers_end(headers@);
    let plain = if has_content_type(headers@) {
        Seq::empty()
    } else {
        "Content-Type: text/plain; charset=utf-8\r\n"@
    };
    let start = "HTTP/1.1 "@ + status@ + "\r\nContent-Length: "@ + digits
        + "\r\nConnection: close\r\nX-Content-Type-Options: nosniff\r\n"@;
    let before = start + headers_text(headers@) + plain;
    assert(s@ == before + "\r\n"@);
    assert(before[before.len() - 2] == '\r' && before[before.len() - 1] == '\n');
    assert(s@.skip(s@.len() - 4) =~= seq!['\r', '\n', '\r', '\n']);
}

/// Headers end with a line ending.
proof fn lemma_headers_end(headers: Seq<Header>)
    ensures
        headers.len() > 0 ==> {
            let t = headers_text(headers);
            t.len() >= 2 && t[t.len() - 2] == '\r' && t[t.len() - 1] == '\n'
        },
        headers.len() == 0 ==> headers_text(headers).len() == 0,
{
    reveal_strlit("\r\n");
}

} // verus!
