//! Splitting of `host:port` addresses, which tells an address from the path of a unix socket.
use vstd::prelude::*;
use vstd::string::*;

use crate::text::{chars_of, position_of};

verus! {

/// Why an address could not be split.
#[derive(Debug, PartialEq, Eq)]
pub struct AddrError {
    /// The address that could not be split.
    pub addr: String,
    /// The reason.
    pub err: &'static str,
}

impl AddrError {
    /// The text of the error: `address <addr>: <err>`, or just `<err>` when the address is empty.
    pub fn message(&self) -> (s: String)
        ensures
            s@ == (if self.addr@.len() == 0 {
                self.err@
            } else {
                "address "@ + self.addr@ + ": "@ + self.err@
            }),
    {
        if self.addr.as_str().is_empty() {
            self.err.to_owned()
        } else {
            let mut s = "address ".to_owned();
            s.append(self.addr.as_str());
            s.append(": ");
            s.append(self.err);
            s
        }
    }
}

/// The position of the last `c` in `s`; -1 when there is none.
pub open spec fn last_index(s: Seq<char>, c: char) -> int
    decreases s.len(),
{
    if s.len() == 0 {
        -1
    } else if s.last() == c {
        s.len() - 1
    } else {
        last_index(s.drop_last(), c)
    }
}

/// The position of the first `c` in `s`; the length when there is none.
pub open spec fn first_index(s: Seq<char>, c: char) -> int {
    crate::text::find_char(s, c, 0)
}

/// What is wrong with the shape of an address, apart from stray brackets: where its host begins
/// and ends, or the reason why it has none. The port begins after the last colon.
pub open spec fn host_range(s: Seq<char>) -> Result<(int, int), Seq<char>> {
    let i = last_index(s, ':');
    let end = first_index(s, ']');
    if i < 0 {
        Err("missing port in address"@)
    } else if s[0] == '[' {
        if end >= s.len() {
            Err("missing ']' in address"@)
        } else if end + 1 == i {
            // The first ']' stands just before the last ':'.
            Ok((1, end))
        } else if end + 1 < s.len() && s[end + 1] == ':' {
            Err("too many colons in address"@)
        } else {
            Err("missing port in address"@)
        }
    } else if s.take(i).contains(':') {
        Err("too many colons in address"@)
    } else {
        Ok((0, i))
    }
}

/// The host and the port of an address, or the reason why it cannot be split. A literal IPv6
/// address must be bracketed; the brackets are removed from the host. Neither part is validated.
pub open spec fn host_and_port(s: Seq<char>) -> Result<(Seq<char>, Seq<char>), Seq<char>> {
    match host_range(s) {
        Err(why) => Err(why),
        Ok((from, to)) => {
            let after = if from == 1 {
                s.skip(to + 1)
            } else {
                s
            };
            if s.skip(from).contains('[') {
                Err("unexpected '[' in address"@)
            } else if after.contains(']') {
                Err("unexpected ']' in address"@)
            } else {
                Ok((s.subrange(from, to), s.skip(last_index(s, ':') + 1)))
            }
        },
    }
}

/// The index of the last `c` in `s`.
fn last_index_of(s: &[char], c: char) -> (r: Option<usize>)
    ensures
        match r {
            Some(i) => i == last_index(s@, c) && i < s.len() && s@[i as int] == c,
            None => last_index(s@, c) == -1,
        },
{
    let mut i: usize = s.len();
    assert(s@.take(i as int) =~= s@);
    while i > 0
        invariant
            i <= s.len(),
            last_index(s@.take(i as int), c) == last_index(s@, c),
        decreases i,
    {
        assert(s@.take(i as int).drop_last() =~= s@.take(i - 1));
        i = i - 1;
        if s[i] == c {
            return Some(i);
        }
    }
    None
}

/// Whether `c` stands in `s` from position `from` on.
fn holds_from(s: &[char], c: char, from: usize) -> (r: bool)
    requires
        from <= s.len(),
    ensures
        r == s@.skip(from as int).contains(c),
{
    let i = position_of(s, c, from);
    if i < s.len() {
        assert(s@.skip(from as int)[i - from] == c);
    } else {
        assert forall|k: int| 0 <= k < s@.skip(from as int).len() implies s@.skip(from as int)[k]
            != c by {
            assert(s@[from + k] != c);
        }
    }
    i < s.len()
}

/// An error about an address.
fn addr_err(hostport: &str, why: &'static str) -> (e: AddrError)
    ensures
        e.addr@ == hostport@,
        e.err == why,
{
    AddrError { addr: hostport.to_owned(), err: why }
}

/// Splits a network address of the form `host:port`, `host%zone:port`, `[host]:port` or
/// `[host%zone]:port` into host and port.
pub fn split_host_port(hostport: &str) -> (r: Result<(&str, &str), AddrError>)
    ensures
        match r {
            Ok(p) => host_and_port(hostport@) == Ok::<(Seq<char>, Seq<char>), Seq<char>>(
                (p.0@, p.1@),
            ),
            Err(e) => e.addr@ == hostport@ && host_and_port(hostport@) == Err::<
                (Seq<char>, Seq<char>),
                Seq<char>,
            >(e.err@),
        },
{
    let s = chars_of(hostport);
    // The port starts after the last colon.
    let i = match last_index_of(s.as_slice(), ':') {
        Some(i) => i,
        None => {
            return Err(addr_err(hostport, "missing port in address"));
        },
    };
    let (from, to, after) = if s[0] == '[' {
        let end = position_of(s.as_slice(), ']', 0);
        if end >= s.len() {
            return Err(addr_err(hostport, "missing ']' in address"));
        }
        if end + 1 != i {
            // Either the ']' isn't followed by a colon, or by one that is not the last.
            if end + 1 < s.len() && s[end + 1] == ':' {
                return Err(addr_err(hostport, "too many colons in address"));
            }
            return Err(addr_err(hostport, "missing port in address"));
        }
        (1usize, end, end + 1)
    } else {
        let first = position_of(s.as_slice(), ':', 0);
        proof {
            let host = s@.take(i as int);
            if first < i {
                assert(host[first as int] == ':');
            } else {
                assert forall|k: int| 0 <= k < host.len() implies host[k] != ':' by {
                    assert(s@[k] != ':');
                }
            }
        }
        if first < i {
            return Err(addr_err(hostport, "too many colons in address"));
        }
        (0usize, i, 0usize)
    };
    assert(s@.skip(0) =~= s@);
    if holds_from(s.as_slice(), '[', from) {
        return Err(addr_err(hostport, "unexpected '[' in address"));
    }
    if holds_from(s.as_slice(), ']', after) {
        return Err(addr_err(hostport, "unexpected ']' in address"));
    }
    assert(hostport@.subrange(i + 1, hostport@.len() as int) =~= hostport@.skip(i + 1));
    Ok((hostport.substring_char(from, to), hostport.substring_char(i + 1, s.len())))
}

/// Whether `addr` is an address that can be split, rather than the path of a unix socket.
pub fn is_host_port(addr: &str) -> (r: bool)
    ensures
        r == (host_and_port(addr@) is Ok),
{
    split_host_port(addr).is_ok()
}

/// A split address is the host and the port with a colon between them, the host bracketed if it
/// was; and an unbracketed host and the port hold no colon.
pub proof fn a_split_address_joins_again(s: Seq<char>)
    requires
        host_and_port(s) is Ok,
    ensures
        ({
            let (host, port) = host_and_port(s)->Ok_0;
            &&& s == host + seq![':'] + port || s == seq!['['] + host + seq![']', ':'] + port
            &&& !port.contains(':')
            &&& s[0] != '[' ==> !host.contains(':')
        }),
{
    lemma_last_index(s, ':');
    lemma_first_index(s, ']', 0);
    let i = last_index(s, ':');
    let (from, to) = host_range(s)->Ok_0;
    let (host, port) = host_and_port(s)->Ok_0;
    assert(!port.contains(':')) by {
        if port.contains(':') {
            let k = choose|k: int| 0 <= k < port.len() && port[k] == ':';
            assert(s[i + 1 + k] == ':');
        }
    }
    if from == 1 {
        assert(s =~= seq!['['] + host + seq![']', ':'] + port);
    } else {
        assert(host =~= s.take(i));
        assert(s =~= host + seq![':'] + port);
    }
}

proof fn lemma_last_index(s: Seq<char>, c: char)
    ensures
        -1 <= last_index(s, c) < s.len(),
        last_index(s, c) >= 0 ==> s[last_index(s, c)] == c,
        forall|k: int| last_index(s, c) < k < s.len() ==> s[k] != c,
    decreases s.len(),
{
    if s.len() > 0 && s.last() != c {
        lemma_last_index(s.drop_last(), c);
        let l = last_index(s.drop_last(), c);
        assert forall|k: int| l < k < s.len() implies s[k] != c by {
            if k < s.len() - 1 {
                assert(s.drop_last()[k] != c);
            }
        }
    }
}

proof fn lemma_first_index(s: Seq<char>, c: char, from: int)
    requires
        0 <= from <= s.len(),
    ensures
        from <= crate::text::find_char(s, c, from) <= s.len(),
        crate::text::find_char(s, c, from) < s.len() ==> s[crate::text::find_char(s, c, from)]
            == c,
    decreases s.len() - from,
{
    if from < s.len() && s[from] != c {
        lemma_first_index(s, c, from + 1);
    }
}

proof fn lemma_last_index_is(s: Seq<char>, c: char, at: int)
    requires
        0 <= at < s.len(),
        s[at] == c,
        forall|k: int| at < k < s.len() ==> s[k] != c,
    ensures
        last_index(s, c) == at,
{
    lemma_last_index(s, c);
    let l = last_index(s, c);
    if l < at {
        assert(s[at] != c);
    }
}

proof fn lemma_first_index_is(s: Seq<char>, c: char, from: int, at: int)
    requires
        0 <= from <= at < s.len(),
        s[at] == c,
        forall|k: int| from <= k < at ==> s[k] != c,
    ensures
        crate::text::find_char(s, c, from) == at,
    decreases at - from,
{
    if from < at {
        lemma_first_index_is(s, c, from + 1, at);
    }
}

/// A text without colons and without brackets.
pub open spec fn is_plain(s: Seq<char>) -> bool {
    !s.contains(':') && !s.contains('[') && !s.contains(']')
}

/// A host and a port that are joined by a colon are split again as they were, whatever they are, as
/// long as neither holds a colon or a bracket.
pub proof fn a_joined_address_is_split_again(
    s: &str,
    host: Seq<char>,
    port: Seq<char>,
    r: Result<(&str, &str), AddrError>,
)
    requires
        is_plain(host),
        is_plain(port),
        s@ == host + seq![':'] + port,
        call_ensures(split_host_port, (s,), r),
    ensures
        r matches Ok(p) && p.0@ == host && p.1@ == port,
{
    let t = s@;
    let i = host.len() as int;
    assert(t[i] == ':');
    assert forall|k: int| 0 <= k < t.len() && k != i implies t[k] != ':' && t[k] != '[' && t[k]
        != ']' by {
        if k < i {
            assert(host.contains(host[k]));
            assert(t[k] == host[k]);
        } else {
            assert(port.contains(port[k - i - 1]));
            assert(t[k] == port[k - i - 1]);
        }
    }
    lemma_last_index_is(t, ':', i);
    assert(t[0] != '[');
    assert(!t.take(i).contains(':'));
    assert(t.skip(0) =~= t);
    assert(!t.contains('[') && !t.contains(']'));
    assert(t.subrange(0, i) =~= host);
    assert(t.skip(i + 1) =~= port);
}

/// The same of a host in brackets, which may hold colons: the brackets are taken away.
pub proof fn a_bracketed_address_is_split_again(
    s: &str,
    host: Seq<char>,
    port: Seq<char>,
    r: Result<(&str, &str), AddrError>,
)
    requires
        !host.contains('[') && !host.contains(']'),
        is_plain(port),
        s@ == seq!['['] + host + seq![']', ':'] + port,
        call_ensures(split_host_port, (s,), r),
    ensures
        r matches Ok(p) && p.0@ == host && p.1@ == port,
{
    let t = s@;
    let e = host.len() as int + 1;
    assert(t[0] == '[' && t[e] == ']' && t[e + 1] == ':');
    assert forall|k: int| 1 <= k < e implies t[k] != '[' && t[k] != ']' by {
        assert(host.contains(host[k - 1]));
        assert(t[k] == host[k - 1]);
    }
    assert forall|k: int| e + 1 < k < t.len() implies t[k] != ':' && t[k] != '[' && t[k] != ']' by {
        assert(port.contains(port[k - e - 2]));
        assert(t[k] == port[k - e - 2]);
    }
    lemma_last_index_is(t, ':', e + 1);
    lemma_first_index_is(t, ']', 0, e);
    assert(!t.skip(1).contains('['));
    assert(!t.skip(e + 1).contains(']'));
    assert(t.subrange(1, e) =~= host);
    assert(t.skip(e + 2) =~= port);
}

/// What has no colon has no port, and what has two and does not begin with a bracket has too many: a
/// path without a colon is never taken for an address.
pub proof fn an_address_has_one_colon(s: &str, r: Result<(&str, &str), AddrError>, is: bool)
    requires
        call_ensures(split_host_port, (s,), r),
        call_ensures(is_host_port, (s,), is),
    ensures
        is <==> r is Ok,
        !s@.contains(':') ==> (r matches Err(e) && e.addr@ == s@ && e.err@
            == "missing port in address"@),
        s@.len() > 0 && s@[0] != '[' ==> forall|i: int, j: int|
            0 <= i < j < s@.len() && #[trigger] s@[i] == ':' && #[trigger] s@[j] == ':' ==> (
            r matches Err(e) && e.addr@ == s@ && e.err@ == "too many colons in address"@),
{
    let t = s@;
    lemma_last_index(t, ':');
    let l = last_index(t, ':');
    if l >= 0 {
        assert(t.contains(t[l]));
    }
    assert forall|i: int, j: int|
        t.len() > 0 && t[0] != '[' && 0 <= i < j < t.len() && #[trigger] t[i] == ':'
            && #[trigger] t[j] == ':' implies (r matches Err(e) && e.addr@ == t && e.err@
        == "too many colons in address"@) by {
        assert(j <= l);
        assert(t.take(l)[i] == ':');
    }
}

} // verus!
