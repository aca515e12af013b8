//! What the client and the server do alike at startup and when a socket operation fails.
use vstd::prelude::*;
use vstd::string::*;
use vstd::utf8::encode_utf8;

use crate::config::BaseConfig;
use crate::qpp::{qpp_warnings, validate_qpp_params};
use crate::text::{decimal, push_decimal, push_signed, signed_decimal, strings};

verus! {

// ---------------------------------------------------------------------------------------
// QPP
// ---------------------------------------------------------------------------------------
/// What a build without QPP says when it is asked for.
pub const QPP_NOT_AVAILABLE: &'static str = "QPP: not available in this build";

/// Validates the QPP settings in a build that has QPP or has not: the configured pad count, or none
/// when `-QPP` is off, and the warnings to be shown; or the error that ends the program. The count is
/// handed on as it is: whether it fits is decided where the pad is built, in [`qpp_pad`].
pub fn check_qpp_in(base: &BaseConfig, available: bool) -> (r: Result<
    (Option<i64>, Vec<String>),
    String,
>)
    ensures
        r is Err <==> base.qpp && (!available || base.qpp_count <= 0),
        r matches Err(s) ==> s@ == (if available {
            "QPPCount must be greater than 0 when QPP is enabled"@
        } else {
            QPP_NOT_AVAILABLE@
        }),
        r matches Ok(p) ==> {
            &&& p.0 == (if base.qpp { Some(base.qpp_count) } else { None })
            &&& strings(p.1@) == (if base.qpp {
                qpp_warnings(base.qpp_count as int, encode_utf8(base.key@).len() as int)
            } else {
                Seq::empty()
            })
        },
{
    if !base.qpp {
        return Ok((None, Vec::new()));
    }
    if !available {
        return Err(QPP_NOT_AVAILABLE.to_owned());
    }
    match validate_qpp_params(base.qpp_count, base.key.as_str()) {
        Err(e) => Err(e),
        Ok(warnings) => Ok((Some(base.qpp_count), warnings)),
    }
}

/// Validates the QPP settings in a build that has QPP.
pub fn check_qpp(base: &BaseConfig) -> (r: Result<(Option<i64>, Vec<String>), String>)
    ensures
        r is Err <==> base.qpp && base.qpp_count <= 0,
        r matches Err(s) ==> s@ == "QPPCount must be greater than 0 when QPP is enabled"@,
        r matches Ok(p) ==> {
            &&& p.0 == (if base.qpp { Some(base.qpp_count) } else { None })
            &&& strings(p.1@) == (if base.qpp {
                qpp_warnings(base.qpp_count as int, encode_utf8(base.key@).len() as int)
            } else {
                Seq::empty()
            })
        },
{
    check_qpp_in(base, true)
}

/// A count as a 16-bit number, refusing every one that does not fit: truncated to zero it would
/// divide by zero later, and truncated to anything else it would run with fewer pads than asked
/// for.
pub fn qpp_count_u16(count: i64) -> (r: Result<u16, String>)
    ensures
        r is Ok <==> 0 <= count <= 65535,
        r matches Ok(n) ==> n == count,
        r matches Err(s) ==> s@ == "QPPCount "@ + signed_decimal(count as int)
            + " does not fit in uint16: kcptun would truncate it to "@ + decimal(
            (count as int % 65536) as nat,
        ),
{
    if 0 <= count && count <= 65535 {
        return Ok(count as u16);
    }
    let n: u64 = if count >= 0 {
        (count % 65536) as u64
    } else {
        // The low 16 bits of a negative number.
        let m: i64 = -(count + 1);
        (65535 - m % 65536) as u64
    };
    let mut s = "QPPCount ".to_owned();
    push_signed(&mut s, count);
    s.append(" does not fit in uint16: kcptun would truncate it to ");
    push_decimal(&mut s, n);
    Err(s)
}

/// The pad that every stream of the process shares: what it is built from.
#[derive(Debug, PartialEq, Eq)]
pub struct QppPad {
    /// The raw key.
    pub seed: Vec<u8>,
    /// The number of pads.
    pub count: u16,
}

/// The pad of the process in a build that has QPP, or none when it is off; or the error that ends the program.
pub fn qpp_pad(base: &BaseConfig, count: Option<i64>) -> (r: Result<Option<QppPad>, String>)
    ensures
        count is None ==> r == Ok::<Option<QppPad>, String>(None),
        count matches Some(n) ==> {
            &&& r is Ok <==> 0 <= n <= 65535
            &&& r matches Ok(p) ==> (p matches Some(pad) && pad.seed@ == encode_utf8(base.key@)
                && pad.count == n)
            &&& r matches Err(s) ==> s@ == "QPPCount "@ + signed_decimal(n as int)
                + " does not fit in uint16: kcptun would truncate it to "@ + decimal(
                (n as int % 65536) as nat,
            )
        },
{
    match count {
        None => Ok(None),
        Some(n) => match qpp_count_u16(n) {
            Ok(n) => Ok(Some(QppPad { seed: base.key.as_str().as_bytes_vec(), count: n })),
            Err(e) => Err(e),
        },
    }
}

/// The same in a build that has QPP or has not: one without it builds no pad.
pub fn qpp_pad_in(base: &BaseConfig, count: Option<i64>, available: bool) -> (r: Result<
    Option<QppPad>,
    String,
>)
    ensures
        count is None || !available ==> r == Ok::<Option<QppPad>, String>(None),
        available ==> (count matches Some(n) ==> {
            &&& r is Ok <==> 0 <= n <= 65535
            &&& r matches Ok(p) ==> (p matches Some(pad) && pad.seed@ == encode_utf8(base.key@)
                && pad.count == n)
            &&& r matches Err(s) ==> s@ == "QPPCount "@ + signed_decimal(n as int)
                + " does not fit in uint16: kcptun would truncate it to "@ + decimal(
                (n as int % 65536) as nat,
            )
        }),
{
    if available {
        qpp_pad(base, count)
    } else {
        Ok(None)
    }
}

// ---------------------------------------------------------------------------------------
// Socket errors
// ---------------------------------------------------------------------------------------
/// The text of a failed socket operation: `<op> <net> <addr>: <syscall>: <error>`, without the
/// parts that are missing.
pub open spec fn op_error_text(
    op: Seq<char>,
    network: Seq<char>,
    addr: Option<Seq<char>>,
    syscall: Seq<char>,
    err: Seq<char>,
) -> Seq<char> {
    op + (if network.len() > 0 {
        " "@ + network
    } else {
        Seq::empty()
    }) + (match addr {
        Some(a) => " "@ + a,
        None => Seq::empty(),
    }) + ": "@ + (if syscall.len() > 0 {
        syscall + ": "@
    } else {
        Seq::empty()
    }) + err
}

/// The contents of an optional text.
pub open spec fn optional_text(s: Option<&str>) -> Option<Seq<char>> {
    match s {
        Some(t) => Some(t@),
        None => None,
    }
}

/// The text of a failed socket operation, `err` being the text of the error itself.
pub fn op_error(op: &str, network: &str, addr: Option<&str>, syscall: &str, err: &str) -> (s: String)
    ensures
        s@ == op_error_text(op@, network@, optional_text(addr), syscall@, err@),
{
    let mut s = op.to_owned();
    if !network.is_empty() {
        s.append(" ");
        s.append(network);
    }
    if let Some(a) = addr {
        s.append(" ");
        s.append(a);
    }
    s.append(": ");
    if !syscall.is_empty() {
        s.append(syscall);
        s.append(": ");
    }
    s.append(err);
    assert(s@ =~= op_error_text(op@, network@, optional_text(addr), syscall@, err@));
    s
}

/// The text of a failed socket option. An error that is not one of the system is shown as it is.
pub fn setsockopt_error(network: &str, local: Option<&str>, err: &str, is_os_error: bool) -> (s:
    String)
    ensures
        s@ == (if is_os_error {
            op_error_text("set"@, network@, optional_text(local), "setsockopt"@, err@)
        } else {
            err@
        }),
{
    if !is_os_error {
        return err.to_owned();
    }
    op_error("set", network, local, "setsockopt", err)
}

/// An address, or none, as it is shown: `<nil>` for a connection that has none.
#[derive(Debug, PartialEq, Eq)]
pub struct GoAddr(pub Option<String>);

impl GoAddr {
    /// The text that is shown.
    pub fn text(&self) -> (s: String)
        ensures
            s@ == (match self.0 {
                Some(a) => a@,
                None => "<nil>"@,
            }),
    {
        match &self.0 {
            Some(a) => a.clone(),
            None => "<nil>".to_owned(),
        }
    }
}

/// A number of pads is handed on as it is where it fits in 16 bits, and refused otherwise: none is ever
/// cut down to fewer.
pub proof fn a_pad_count_is_never_cut_down(
    base: &BaseConfig,
    n: i64,
    r: Result<u16, String>,
    p: Result<Option<QppPad>, String>,
)
    requires
        call_ensures(qpp_count_u16, (n,), r),
        call_ensures(qpp_pad, (base, Some(n)), p),
    ensures
        r is Ok <==> 0 <= n <= 65535,
        r matches Ok(m) ==> m == n,
        p is Ok <==> 0 <= n <= 65535,
        p matches Ok(q) ==> (q matches Some(pad) && pad.count == n && pad.seed@ == encode_utf8(
            base.key@,
        )),
{
}

/// A failed socket operation names its parts in order: the operation, the network and the address
/// behind blanks, then the call and the error behind colons. What is missing leaves nothing behind.
pub proof fn a_socket_error_names_its_parts(
    op: &str,
    network: &str,
    addr: Option<&str>,
    syscall: &str,
    err: &str,
    s: String,
)
    requires
        call_ensures(op_error, (op, network, addr, syscall, err), s),
    ensures
        ({
            let none = Seq::<char>::empty();
            let net = if network@.len() == 0 {
                none
            } else {
                seq![' '] + network@
            };
            let at = match addr {
                Some(a) => seq![' '] + a@,
                None => none,
            };
            let call = if syscall@.len() == 0 {
                none
            } else {
                syscall@ + seq![':', ' ']
            };
            s@ == op@ + net + at + seq![':', ' '] + call + err@
        }),
{
    reveal_strlit(" ");
    reveal_strlit(": ");
    assert(" "@ =~= seq![' ']);
    assert(": "@ =~= seq![':', ' ']);
}

} // verus!
