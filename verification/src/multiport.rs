//! Multi-port addresses: a host and a range of ports (`IP:minport-maxport`) to spread connections
//! over.
//!
//! The address is searched, not matched as a whole: trailing text after the ports is ignored, at
//! most five digits are taken per port (so `host:123456` has the ports 12345 and 6, and is refused
//! for its order), and a dash may follow a single port.
use vstd::prelude::*;
use vstd::string::*;

use crate::text::{chars_of, decimal, signed_decimal};

verus! {

/// A parsed multi-port address: the host and an inclusive range of ports.
#[derive(Debug, Clone, PartialEq, Eq)]
pub struct MultiPort {
    /// Everything before the last colon of the match, verbatim (brackets included).
    pub host: String,
    /// The first port of the range.
    pub min_port: u64,
    /// The last port of the range; equal to `min_port` for a single port.
    pub max_port: u64,
}

/// Why an address is not a usable multi-port address.
#[derive(Debug, Clone, PartialEq, Eq)]
pub enum MultiPortError {
    /// The ports are out of order, zero, or above 65535.
    InvalidPortRange {
        /// The first port, as parsed (may be out of range).
        min_port: i64,
        /// The last port, as parsed (may be out of range).
        max_port: i64,
    },
    /// The address does not contain `:` followed by digits at all.
    MalformedAddress {
        /// The address as it was given.
        addr: String,
    },
}

impl MultiPortError {
    /// The text of the error.
    pub fn message(&self) -> (s: String)
        ensures
            s@ == (match *self {
                MultiPortError::InvalidPortRange { min_port, max_port } => {
                    "invalid port range specified: minport:"@ + signed_decimal(min_port as int)
                        + " -> maxport "@ + signed_decimal(max_port as int)
                },
                MultiPortError::MalformedAddress { addr } => "malformed address:"@ + addr@,
            }),
    {
        match self {
            MultiPortError::InvalidPortRange { min_port, max_port } => {
                let mut s = "invalid port range specified: minport:".to_owned();
                crate::text::push_signed(&mut s, *min_port);
                s.append(" -> maxport ");
                crate::text::push_signed(&mut s, *max_port);
                s
            },
            MultiPortError::MalformedAddress { addr } => "malformed address:".to_owned().concat(
                addr.as_str(),
            ),
        }
    }
}

/// Whether `c` is a decimal digit.
pub open spec fn is_digit(c: char) -> bool {
    '0' <= c <= '9'
}

/// Whether a colon with a digit behind it stands at position `c`.
pub open spec fn port_colon(s: Seq<char>, c: int) -> bool {
    0 <= c && c + 1 < s.len() && s[c] == ':' && is_digit(s[c + 1])
}

/// Whether no newline stands in `s` from `a` up to `b`.
pub open spec fn one_line(s: Seq<char>, a: int, b: int) -> bool {
    forall|k: int| a <= k < b ==> s[k] != '\n'
}

/// The place of an address in `s`: the host begins with the first line that has a port, at `p`,
/// and ends at the last colon of that line that a digit follows, at `c`.
pub open spec fn address_at(s: Seq<char>, p: int, c: int) -> bool {
    &&& port_colon(s, c)
    &&& 0 <= p <= c
    &&& p == 0 || s[p - 1] == '\n'
    &&& one_line(s, p, c)
    &&& forall|k: int| 0 <= k < p ==> !port_colon(s, k)
    &&& forall|k: int| c < k && one_line(s, c, k) ==> !port_colon(s, k)
}

/// The end of the run of at most `n` digits that begins at `i`.
pub open spec fn digits_end(s: Seq<char>, i: int, n: nat) -> int
    decreases n,
{
    if n > 0 && 0 <= i < s.len() && is_digit(s[i]) {
        digits_end(s, i + 1, (n - 1) as nat)
    } else {
        i
    }
}

/// The digits of the first port, after the colon at `c`.
pub open spec fn first_digits(s: Seq<char>, c: int) -> Seq<char> {
    s.subrange(c + 1, digits_end(s, c + 1, 5))
}

/// The digits of the second port, behind a dash if there is one; empty when there is none.
pub open spec fn second_digits(s: Seq<char>, c: int) -> Seq<char> {
    let e = digits_end(s, c + 1, 5);
    let b = if e < s.len() && s[e] == '-' {
        e + 1
    } else {
        e
    };
    s.subrange(b, digits_end(s, b, 5))
}

/// A host, a colon, and one port or two.
pub const ADDRESS_PATTERN: &'static str = "(.*)\\:([0-9]{1,5})-?([0-9]{1,5})?";

/// `regex::Regex::captures` with [`ADDRESS_PATTERN`]: the three groups of the leftmost match, a group
/// that takes no part being empty. The match is the one that a search from the left with greedy
/// repetitions finds first, and the dot stops at a newline.
#[verifier::external_body]
fn captures(pattern: &str, addr: &str) -> (r: Option<(String, String, String)>)
    requires
        pattern@ == ADDRESS_PATTERN@,
    ensures
        r is None ==> forall|c: int| !port_colon(addr@, c),
        r matches Some(m) ==> exists|p: int, c: int| #[trigger]
            address_at(addr@, p, c) && m.0@ == addr@.subrange(p, c) && m.1@ == first_digits(addr@, c)
                && m.2@ == second_digits(addr@, c),
{
    let matcher = regex::Regex::new(pattern).expect("a valid pattern");
    let m = matcher.captures(addr)?;
    let group = |i: usize| m.get(i).map_or("", |g| g.as_str()).to_string();
    Some((group(1), group(2), group(3)))
}

/// The number that decimal digits spell.
pub open spec fn digits_value(s: Seq<char>) -> int
    decreases s.len(),
{
    if s.len() == 0 {
        0
    } else {
        digits_value(s.drop_last()) * 10 + (s.last() as int - 48)
    }
}

/// The number that one to five decimal digits spell.
fn atoi(digits: &str) -> (n: i64)
    requires
        digits@.len() <= 5,
        forall|i: int| 0 <= i < digits@.len() ==> is_digit(#[trigger] digits@[i]),
    ensures
        n == digits_value(digits@),
        0 <= n <= 99999,
{
    let v = chars_of(digits);
    let mut n: i64 = 0;
    let mut i: usize = 0;
    assert(v@.take(0) =~= Seq::<char>::empty());
    while i < v.len()
        invariant
            i <= v.len() <= 5,
            v@ == digits@,
            forall|k: int| 0 <= k < digits@.len() ==> is_digit(#[trigger] digits@[k]),
            n == digits_value(v@.take(i as int)),
            0 <= n,
            i == 0 ==> n == 0,
            i == 1 ==> n <= 9,
            i == 2 ==> n <= 99,
            i == 3 ==> n <= 999,
            i == 4 ==> n <= 9999,
            i == 5 ==> n <= 99999,
        decreases v.len() - i,
    {
        assert(is_digit(digits@[i as int]));
        assert(v@.take(i + 1).drop_last() =~= v@.take(i as int));
        n = n * 10 + (v[i] as u32 - 48) as i64;
        i = i + 1;
    }
    assert(v@.take(i as int) =~= v@);
    n
}

/// Whether two ports make a range.
pub open spec fn is_range(min_port: int, max_port: int) -> bool {
    1 <= min_port <= max_port <= 65535
}

/// The last port of an address with the given digits.
pub open spec fn last_port(first: Seq<char>, second: Seq<char>) -> int {
    if second.len() > 0 {
        digits_value(second)
    } else {
        digits_value(first)
    }
}

/// What an address with the given parts is parsed as.
pub open spec fn is_parsed(
    r: Result<MultiPort, MultiPortError>,
    host: Seq<char>,
    first: Seq<char>,
    second: Seq<char>,
) -> bool {
    let min = digits_value(first);
    let max = last_port(first, second);
    match r {
        Ok(m) => is_range(min, max) && m.host@ == host && m.min_port == min && m.max_port == max,
        Err(e) => !is_range(min, max) && e == (MultiPortError::InvalidPortRange {
            min_port: min as i64,
            max_port: max as i64,
        }),
    }
}

/// Checks the ports of an address that has been taken apart.
fn check_ports(host: String, first: &str, second: &str) -> (r: Result<MultiPort, MultiPortError>)
    requires
        first@.len() <= 5,
        second@.len() <= 5,
        forall|i: int| 0 <= i < first@.len() ==> is_digit(#[trigger] first@[i]),
        forall|i: int| 0 <= i < second@.len() ==> is_digit(#[trigger] second@[i]),
    ensures
        is_parsed(r, host@, first@, second@),
{
    let min_port = atoi(first);
    let max_port = if second.is_empty() {
        min_port
    } else {
        atoi(second)
    };
    if min_port > max_port || min_port > 65535 || max_port > 65535 || min_port == 0 || max_port
        == 0 {
        return Err(MultiPortError::InvalidPortRange { min_port, max_port });
    }
    Ok(MultiPort { host, min_port: min_port as u64, max_port: max_port as u64 })
}

proof fn lemma_digits_end(s: Seq<char>, i: int, n: nat)
    requires
        0 <= i <= s.len(),
    ensures
        i <= digits_end(s, i, n) <= s.len(),
        digits_end(s, i, n) - i <= n,
        forall|k: int| i <= k < digits_end(s, i, n) ==> is_digit(s[k]),
    decreases n,
{
    if n > 0 && i < s.len() && is_digit(s[i]) {
        lemma_digits_end(s, i + 1, (n - 1) as nat);
    }
}

/// The groups of a match are at most five digits each.
proof fn lemma_groups(s: Seq<char>, p: int, c: int)
    requires
        address_at(s, p, c),
    ensures
        first_digits(s, c).len() <= 5,
        second_digits(s, c).len() <= 5,
        forall|i: int| 0 <= i < first_digits(s, c).len() ==> is_digit(#[trigger] first_digits(s, c)[i]),
        forall|i: int|
            0 <= i < second_digits(s, c).len() ==> is_digit(#[trigger] second_digits(s, c)[i]),
{
    lemma_digits_end(s, c + 1, 5);
    let e = digits_end(s, c + 1, 5);
    let b = if e < s.len() && s[e] == '-' {
        e + 1
    } else {
        e
    };
    lemma_digits_end(s, b, 5);
}

/// Parses a multiport listener or dialer address.
pub fn parse(addr: &str) -> (r: Result<MultiPort, MultiPortError>)
    ensures
        (forall|c: int| !port_colon(addr@, c)) ==> (r matches Err(
            MultiPortError::MalformedAddress { addr: a },
        ) && a@ == addr@),
        (exists|c: int| port_colon(addr@, c)) ==> exists|p: int, c: int| #[trigger]
            address_at(addr@, p, c) && is_parsed(
                r,
                addr@.subrange(p, c),
                first_digits(addr@, c),
                second_digits(addr@, c),
            ),
{
    match captures(ADDRESS_PATTERN, addr) {
        Some(m) => {
            let (host, first, second) = m;
            proof {
                let (p, c) = choose|p: int, c: int| #[trigger]
                    address_at(addr@, p, c) && host@ == addr@.subrange(p, c) && first@
                        == first_digits(addr@, c) && second@ == second_digits(addr@, c);
                lemma_groups(addr@, p, c);
                assert(port_colon(addr@, c));
            }
            check_ports(host, first.as_str(), second.as_str())
        },
        None => Err(MultiPortError::MalformedAddress { addr: addr.to_owned() }),
    }
}

/// An address has one place for its host and ports: what [`parse`] returns is determined by the
/// address.
pub proof fn the_place_of_an_address_is_unique(s: Seq<char>, p: int, c: int, q: int, d: int)
    requires
        address_at(s, p, c),
        address_at(s, q, d),
    ensures
        p == q,
        c == d,
{
    if p < q {
        assert(s[q - 1] == '\n');
        if q - 1 < c {
            assert(s[q - 1] != '\n');
        }
        assert(!port_colon(s, c));
    }
    if q < p {
        assert(s[p - 1] == '\n');
        if p - 1 < d {
            assert(s[p - 1] != '\n');
        }
        assert(!port_colon(s, d));
    }
    if c < d {
        assert(one_line(s, c, d));
    }
    if d < c {
        assert(one_line(s, d, c));
    }
}

/// A run of digits ends where the digits do.
proof fn lemma_run(s: Seq<char>, i: int, len: nat, n: nat)
    requires
        0 <= i,
        i + len <= s.len(),
        len <= n,
        forall|k: int| i <= k < i + len ==> is_digit(#[trigger] s[k]),
        len == n || i + len == s.len() || !is_digit(s[i + len]),
    ensures
        digits_end(s, i, n) == i + len,
    decreases n,
{
    if len > 0 {
        assert(is_digit(s[i]));
        lemma_run(s, i + 1, (len - 1) as nat, (n - 1) as nat);
    }
}

/// What a number looks like in decimal.
proof fn lemma_port_digits(n: nat)
    ensures
        decimal(n).len() >= 1,
        n < 10 ==> decimal(n).len() == 1,
        n < 100 ==> decimal(n).len() <= 2,
        n < 1000 ==> decimal(n).len() <= 3,
        n < 10000 ==> decimal(n).len() <= 4,
        n < 100000 ==> decimal(n).len() <= 5,
        digits_value(decimal(n)) == n,
        forall|k: int| 0 <= k < decimal(n).len() ==> is_digit(#[trigger] decimal(n)[k]),
    decreases n,
{
    if n >= 10 {
        lemma_port_digits(n / 10);
        let d = decimal(n);
        assert(d.drop_last() =~= decimal(n / 10));
        assert forall|k: int| 0 <= k < d.len() implies is_digit(#[trigger] d[k]) by {
            if k < d.len() - 1 {
                assert(d[k] == decimal(n / 10)[k]);
            }
        }
    } else {
        assert(decimal(n).drop_last() =~= Seq::<char>::empty());
        reveal_with_fuel(digits_value, 2);
    }
}

/// Where the parts of a printed address stand.
proof fn lemma_printed(host: Seq<char>, a: nat, tail: Seq<char>)
    requires
        !host.contains('\n'),
        a <= 99999,
        tail.len() == 0 || tail[0] == '-',
        forall|k: int| 0 <= k < tail.len() ==> #[trigger] tail[k] == '-' || is_digit(tail[k]),
    ensures
        ({
            let s = host + seq![':'] + decimal(a) + tail;
            let c = host.len() as int;
            &&& address_at(s, 0, c)
            &&& s.subrange(0, c) == host
            &&& first_digits(s, c) == decimal(a)
            &&& digits_end(s, c + 1, 5) == c + 1 + decimal(a).len()
        }),
{
    lemma_port_digits(a);
    let d = decimal(a);
    let s = host + seq![':'] + d + tail;
    let c = host.len() as int;
    assert(s.subrange(0, c) =~= host);
    assert(s[c] == ':');
    assert forall|k: int| c + 1 <= k < c + 1 + d.len() implies is_digit(#[trigger] s[k]) by {
        assert(s[k] == d[k - c - 1]);
    }
    assert forall|k: int| c + 1 + d.len() <= k < s.len() implies #[trigger] s[k] == '-' || is_digit(
        s[k],
    ) by {
        assert(s[k] == tail[k - c - 1 - d.len()]);
    }
    assert(is_digit(s[c + 1]));
    assert(one_line(s, 0, c)) by {
        assert forall|k: int| 0 <= k < c implies s[k] != '\n' by {
            assert(s[k] == host[k]);
        }
    }
    assert forall|k: int| c < k && one_line(s, c, k) implies !port_colon(s, k) by {
        if k < s.len() {
            assert(s[k] != ':');
        }
    }
    if tail.len() > 0 {
        assert(s[c + 1 + d.len()] == tail[0]);
    }
    lemma_run(s, c + 1, d.len(), 5);
    assert(first_digits(s, c) =~= d);
}

/// What [`parse`] makes of an address whose parts stand at a known place.
proof fn lemma_parsed_at(addr: &str, r: Result<MultiPort, MultiPortError>, p: int, c: int)
    requires
        call_ensures(parse, (addr,), r),
        address_at(addr@, p, c),
    ensures
        is_parsed(r, addr@.subrange(p, c), first_digits(addr@, c), second_digits(addr@, c)),
{
    assert(port_colon(addr@, c));
    let (q, d) = choose|q: int, d: int| #[trigger]
        address_at(addr@, q, d) && is_parsed(
            r,
            addr@.subrange(q, d),
            first_digits(addr@, d),
            second_digits(addr@, d),
        );
    the_place_of_an_address_is_unique(addr@, p, c, q, d);
}

/// A printed range reads back, for every two port numbers in order from 1 to 65535 and every host on
/// one line; two numbers of up to five digits that are not such a range are refused, and named.
pub proof fn a_printed_range_reads_back(
    addr: &str,
    host: Seq<char>,
    a: nat,
    b: nat,
    r: Result<MultiPort, MultiPortError>,
)
    requires
        !host.contains('\n'),
        a <= 99999,
        b <= 99999,
        addr@ == host + seq![':'] + decimal(a) + seq!['-'] + decimal(b),
        call_ensures(parse, (addr,), r),
    ensures
        1 <= a && a <= b && b <= 65535 ==> {
            &&& r matches Ok(m) && m.host@ == host && m.min_port == a && m.max_port == b
        },
        a == 0 || a > b || b > 65535 ==> {
            &&& r matches Err(MultiPortError::InvalidPortRange { min_port, max_port }) && min_port
                == a && max_port == b
        },
{
    let tail = seq!['-'] + decimal(b);
    let s = host + seq![':'] + decimal(a) + tail;
    let c = host.len() as int;
    assert(addr@ =~= s);
    lemma_port_digits(a);
    lemma_port_digits(b);
    assert forall|k: int| 0 <= k < tail.len() implies #[trigger] tail[k] == '-' || is_digit(
        tail[k],
    ) by {
        if k > 0 {
            assert(tail[k] == decimal(b)[k - 1]);
        }
    }
    lemma_printed(host, a, tail);
    let e = c + 1 + decimal(a).len();
    assert(s[e] == '-');
    assert forall|k: int| e + 1 <= k < e + 1 + decimal(b).len() implies is_digit(
        #[trigger] s[k],
    ) by {
        assert(s[k] == decimal(b)[k - e - 1]);
    }
    lemma_run(s, e + 1, decimal(b).len(), 5);
    assert(second_digits(s, c) =~= decimal(b));
    lemma_parsed_at(addr, r, 0, c);
}

/// A printed single port reads back as both ends of its range, for every number from 1 to 65535; zero
/// and a larger number of five digits are refused, and named.
pub proof fn a_printed_port_reads_back(
    addr: &str,
    host: Seq<char>,
    a: nat,
    r: Result<MultiPort, MultiPortError>,
)
    requires
        !host.contains('\n'),
        a <= 99999,
        addr@ == host + seq![':'] + decimal(a),
        call_ensures(parse, (addr,), r),
    ensures
        1 <= a && a <= 65535 ==> {
            &&& r matches Ok(m) && m.host@ == host && m.min_port == a && m.max_port == a
        },
        a == 0 || a > 65535 ==> {
            &&& r matches Err(MultiPortError::InvalidPortRange { min_port, max_port }) && min_port
                == a && max_port == a
        },
{
    let tail = Seq::<char>::empty();
    let s = host + seq![':'] + decimal(a) + tail;
    let c = host.len() as int;
    assert(addr@ =~= s);
    lemma_port_digits(a);
    lemma_printed(host, a, tail);
    lemma_run(s, s.len() as int, 0, 5);
    assert(second_digits(s, c).len() == 0);
    lemma_parsed_at(addr, r, 0, c);
}

/// An address without a colon that a digit follows is refused as it is.
pub proof fn an_address_without_a_port_is_malformed(
    addr: &str,
    r: Result<MultiPort, MultiPortError>,
)
    requires
        forall|i: int|
            0 <= i < addr@.len() - 1 && #[trigger] addr@[i] == ':' ==> addr@[i + 1] < '0' || addr@[i
                + 1] > '9',
        call_ensures(parse, (addr,), r),
    ensures
        r matches Err(MultiPortError::MalformedAddress { addr: a }) && a@ == addr@,
{
    assert forall|c: int| !port_colon(addr@, c) by {}
}

} // verus!
