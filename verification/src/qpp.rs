//! Quantum Permutation Pad parameters, and the staging of the ciphertext of one stream.
//!
//! The byte at a given position of a stream is masked with the same pad on both ends, however the
//! network chops the data up. So ciphertext, once made, must be written exactly once and in order.
use vstd::prelude::*;
use vstd::slice::slice_subrange;
use vstd::string::*;
use vstd::utf8::encode_utf8;

use crate::text::{decimal, push_decimal, push_signed, signed_decimal, strings};

verus! {

/// The permutation dimension used everywhere: 8 qubits, i.e. permutations of 256 bytes.
pub const QPP_POWER: u8 = 8;

/// The shortest seed for 8 qubits, in bytes.
pub const MIN_SEED_LENGTH: usize = 211;

/// The fewest pads for 8 qubits.
pub const MIN_PADS: i64 = 7;

/// Whether `d` divides `n`.
pub open spec fn divides(d: int, n: int) -> bool {
    d != 0 && n % d == 0
}

/// Whether `g` is the greatest common divisor of `a` and `b`.
pub open spec fn is_gcd(g: int, a: int, b: int) -> bool {
    &&& g > 0
    &&& divides(g, a)
    &&& divides(g, b)
    &&& forall|d: int| d > 0 && divides(d, a) && #[trigger] divides(d, b) ==> divides(d, g)
}

/// A remainder has the same common divisors.
proof fn lemma_remainder(d: int, a: int, b: int)
    requires
        d > 0,
        a >= 0,
        b > 0,
        b % d == 0,
    ensures
        (a % b) % d == 0 <==> a % d == 0,
{
    let q = a / b;
    vstd::arithmetic::div_mod::lemma_fundamental_div_mod(a, b);
    vstd::arithmetic::div_mod::lemma_fundamental_div_mod(b, d);
    let k = b / d;
    // a == b * q + a % b, and b == d * k
    assert(b * q == d * (k * q)) by (nonlinear_arith)
        requires
            b == d * k,
    ;
    vstd::arithmetic::div_mod::lemma_mod_multiples_vanish(k * q, a % b, d);
    assert((d * (k * q) + a % b) % d == (a % b) % d);
}

/// Euclid's greatest common divisor.
fn gcd(a: u64, b: u64) -> (g: u64)
    requires
        a > 0,
        b > 0,
    ensures
        is_gcd(g as int, a as int, b as int),
{
    let mut x: u64 = a;
    let mut y: u64 = b;
    while y != 0
        invariant
            a > 0,
            b > 0,
            x > 0,
            forall|d: int|
                d > 0 ==> ((#[trigger] divides(d, x as int) && divides(d, y as int)) <==> (divides(
                    d,
                    a as int,
                ) && divides(d, b as int))),
        decreases y,
    {
        let t: u64 = x % y;
        proof {
            assert forall|d: int| d > 0 implies ((#[trigger] divides(d, y as int) && divides(
                d,
                t as int,
            )) <==> (divides(d, a as int) && divides(d, b as int))) by {
                assert(divides(d, x as int) && divides(d, y as int) <==> divides(d, a as int)
                    && divides(d, b as int));
                if divides(d, y as int) {
                    lemma_remainder(d, x as int, y as int);
                }
            }
        }
        x = y;
        y = t;
    }
    proof {
        let g = x as int;
        assert(divides(g, g)) by {
            vstd::arithmetic::div_mod::lemma_mod_self_0(g);
        }
        assert(divides(g, 0));
        assert(divides(g, x as int) && divides(g, y as int));
        assert forall|d: int| d > 0 && divides(d, a as int) && #[trigger] divides(
            d,
            b as int,
        ) implies divides(d, g) by {
            assert(divides(d, x as int) && divides(d, y as int) <==> divides(d, a as int)
                && divides(d, b as int));
        }
    }
    x
}

/// The common divisor of a count and 8 is 1 exactly when the count is odd.
proof fn lemma_coprime_with_eight(g: int, count: int)
    requires
        count > 0,
        is_gcd(g, count, 8),
    ensures
        g == 1 <==> count % 2 == 1,
{
    if count % 2 == 0 {
        assert(divides(2, count) && divides(2, 8));
        assert(divides(2, g));
        assert(g % 2 == 0);
    } else {
        assert(8int % g == 0);
        assert(g <= 8) by (nonlinear_arith)
            requires
                g > 0,
                8int % g == 0,
        ;
        assert(8int % 3 == 2 && 8int % 5 == 3 && 8int % 6 == 2 && 8int % 7 == 1);
        assert(g == 1 || g == 2 || g == 3 || g == 4 || g == 5 || g == 6 || g == 7 || g == 8);
        assert(count % g == 0);
        assert(g == 2 ==> count % 2 == 0);
        assert(g == 4 ==> count % 4 == 0);
        assert(g == 8 ==> count % 8 == 0);
    }
}

/// The warnings about a pair of parameters.
pub open spec fn qpp_warnings(count: int, key_len: int) -> Seq<Seq<char>> {
    (if key_len < MIN_SEED_LENGTH {
        seq![
            "QPP Warning: 'key' has size of "@ + decimal(key_len as nat)
                + " bytes, required 211 bytes at least"@,
        ]
    } else {
        Seq::empty()
    }) + (if count < MIN_PADS {
        seq!["QPP Warning: QPPCount "@ + signed_decimal(count) + ", required 7 at least"@]
    } else {
        Seq::empty()
    }) + (if count % 2 == 0 {
        seq![
            "QPP Warning: QPPCount "@ + signed_decimal(count)
                + ", choose a prime number for security"@,
        ]
    } else {
        Seq::empty()
    })
}

/// Checks the `-QPPCount` / `-key` pair, returning warnings or the one fatal error. The key's
/// bytes are counted, not its characters.
pub fn validate_qpp_params(count: i64, key: &str) -> (r: Result<Vec<String>, String>)
    ensures
        r is Err <==> count <= 0,
        r matches Err(s) ==> s@ == "QPPCount must be greater than 0 when QPP is enabled"@,
        r matches Ok(v) ==> strings(v@) == qpp_warnings(
            count as int,
            encode_utf8(key@).len() as int,
        ),
{
    if count <= 0 {
        return Err("QPPCount must be greater than 0 when QPP is enabled".to_owned());
    }
    let mut warnings: Vec<String> = Vec::new();
    let ghost mut done: Seq<Seq<char>> = Seq::empty();
    assert(strings(warnings@) =~= done);
    let len = key.as_bytes().len();
    if len < MIN_SEED_LENGTH {
        let mut s = "QPP Warning: 'key' has size of ".to_owned();
        push_decimal(&mut s, len as u64);
        s.append(" bytes, required 211 bytes at least");
        warnings.push(s);
        proof {
            done = done.push(s@);
            assert(strings(warnings@) =~= done);
        }
    }
    if count < MIN_PADS {
        let mut s = "QPP Warning: QPPCount ".to_owned();
        push_signed(&mut s, count);
        s.append(", required 7 at least");
        warnings.push(s);
        proof {
            done = done.push(s@);
            assert(strings(warnings@) =~= done);
        }
    }
    let g = gcd(count as u64, 8);
    proof {
        lemma_coprime_with_eight(g as int, count as int);
    }
    if g != 1 {
        let mut s = "QPP Warning: QPPCount ".to_owned();
        push_signed(&mut s, count);
        s.append(", choose a prime number for security");
        warnings.push(s);
        proof {
            done = done.push(s@);
            assert(strings(warnings@) =~= done);
        }
    }
    assert(strings(warnings@) =~= qpp_warnings(count as int, len as int));
    Ok(warnings)
}

// ---------------------------------------------------------------------------------------
// Staging
// ---------------------------------------------------------------------------------------
/// What a write has to do next.
#[derive(Clone, Copy, Debug, PartialEq, Eq)]
pub enum WriteStep {
    /// Offer the staged ciphertext from this position on to the connection.
    Drain(usize),
    /// Encrypt the caller's bytes and stage the ciphertext.
    Encrypt,
    /// Report so many bytes as written.
    Report(usize),
}

/// The ciphertext of a stream on its way to the connection.
///
/// A write is reported only once the connection has taken all of its ciphertext; until then the
/// caller tries again with the same bytes, and nothing is encrypted twice.
pub struct Staging {
    /// Ciphertext that the connection has not taken all of yet.
    obuf: Vec<u8>,
    /// How much of `obuf` has reached the connection.
    opos: usize,
    /// How many bytes of the caller `obuf` holds the ciphertext for; zero when none wait.
    staged: usize,
    /// All the ciphertext that was ever staged.
    made: Ghost<Seq<u8>>,
    /// All the ciphertext that has reached the connection.
    sent: Ghost<Seq<u8>>,
}

impl Staging {
    /// All the ciphertext that was ever staged.
    pub closed spec fn made(self) -> Seq<u8> {
        self.made@
    }

    /// All the ciphertext that has reached the connection.
    pub closed spec fn sent(self) -> Seq<u8> {
        self.sent@
    }

    /// The ciphertext that has not reached it yet.
    pub closed spec fn left(self) -> Seq<u8> {
        self.obuf@.skip(self.opos as int)
    }

    /// How many bytes of the caller wait to be reported.
    pub closed spec fn waiting(self) -> usize {
        self.staged
    }

    /// The ciphertext of the staged write, from which positions are counted.
    pub closed spec fn buffer(self) -> Seq<u8> {
        self.obuf@
    }

    /// Every byte of ciphertext is sent once, in order.
    pub closed spec fn wf(self) -> bool {
        &&& self.opos <= self.obuf@.len()
        &&& self.made@ == self.sent@ + self.left()
    }

    /// Nothing has been staged yet.
    pub fn new() -> (s: Staging)
        ensures
            s.wf(),
            s.made().len() == 0,
            s.sent().len() == 0,
            s.left().len() == 0,
            s.waiting() == 0,
    {
        let s = Staging {
            obuf: Vec::new(),
            opos: 0,
            staged: 0,
            made: Ghost(Seq::empty()),
            sent: Ghost(Seq::empty()),
        };
        assert(s.left() =~= Seq::<u8>::empty());
        assert(s.made@ =~= s.sent@ + s.left());
        s
    }

    /// What a write of `len` bytes has to do next. Ciphertext that is left over comes first, and
    /// an empty write is accepted without encrypting anything.
    pub fn write_step(&self, len: usize) -> (step: WriteStep)
        requires
            self.wf(),
        ensures
            match step {
                WriteStep::Drain(from) => {
                    &&& self.left().len() > 0
                    &&& from < self.buffer().len()
                    &&& self.left() == self.buffer().skip(from as int)
                },
                WriteStep::Encrypt => self.left().len() == 0 && self.waiting() == 0 && len > 0,
                WriteStep::Report(n) => {
                    &&& self.left().len() == 0
                    &&& self.sent() == self.made()
                    &&& n == self.waiting()
                    &&& n == 0 ==> len == 0
                },
            },
    {
        proof {
            if self.left().len() == 0 {
                assert(self.made@ =~= self.sent@);
            }
        }
        if self.opos < self.obuf.len() {
            WriteStep::Drain(self.opos)
        } else if self.staged == 0 && len > 0 {
            WriteStep::Encrypt
        } else {
            WriteStep::Report(self.staged)
        }
    }

    /// The staged ciphertext, for the connection.
    pub fn pending(&self) -> (b: &[u8])
        requires
            self.wf(),
        ensures
            b@ == self.left(),
    {
        let b = slice_subrange(self.obuf.as_slice(), self.opos, self.obuf.len());
        assert(b@ =~= self.left());
        b
    }

    /// Stages the ciphertext of a write.
    pub fn stage(&mut self, ciphertext: Vec<u8>)
        requires
            old(self).wf(),
            old(self).left().len() == 0,
            old(self).waiting() == 0,
        ensures
            final(self).wf(),
            final(self).made() == old(self).made() + ciphertext@,
            final(self).sent() == old(self).sent(),
            final(self).left() == ciphertext@,
            final(self).waiting() == ciphertext@.len(),
    {
        let ghost before = self.made@;
        assert(before =~= self.sent@);
        self.staged = ciphertext.len();
        self.opos = 0;
        self.obuf = ciphertext;
        proof {
            self.made@ = before + ciphertext@;
            assert(self.left() =~= ciphertext@);
        }
    }

    /// The connection has taken `n` bytes. A connection that takes none has failed.
    pub fn on_written(&mut self, n: usize) -> (ok: bool)
        requires
            old(self).wf(),
            n <= old(self).left().len(),
        ensures
            final(self).wf(),
            ok == (n > 0),
            final(self).made() == old(self).made(),
            final(self).sent() == old(self).sent() + old(self).left().take(n as int),
            final(self).left() == old(self).left().skip(n as int),
            final(self).waiting() == old(self).waiting(),
    {
        assert(self.left().len() == self.obuf.len() - self.opos);
        self.opos = self.opos + n;
        proof {
            self.sent@ = self.sent@ + old(self).left().take(n as int);
            assert(self.left() =~= old(self).left().skip(n as int));
            assert(self.made@ =~= self.sent@ + self.left());
        }
        n > 0
    }

    /// The write has been reported.
    pub fn on_reported(&mut self)
        requires
            old(self).wf(),
            old(self).left().len() == 0,
        ensures
            final(self).wf(),
            final(self).made() == old(self).made(),
            final(self).sent() == old(self).sent(),
            final(self).left().len() == 0,
            final(self).waiting() == 0,
    {
        self.staged = 0;
        self.obuf.clear();
        self.opos = 0;
        assert(self.left() =~= Seq::<u8>::empty());
        assert(old(self).left() =~= Seq::<u8>::empty());
    }
}

/// What ends, or pushes out, a stream.
#[derive(Clone, Copy, Debug, PartialEq, Eq, Structural)]
pub enum Finish {
    Flush,
    Shutdown,
    CloseWrite,
    Close,
}

/// Whether the staged ciphertext is pushed out first: a close drops it, everything else must not
/// strand it.
pub fn drains_first(op: Finish) -> (r: bool)
    ensures
        r == (op != Finish::Close),
{
    op != Finish::Close
}

/// Whether the connection is told even though the staged ciphertext could not be pushed out: a
/// stream that fails to drain still has to end.
pub fn goes_on_after_failed_drain(op: Finish) -> (r: bool)
    ensures
        r == (op == Finish::Shutdown || op == Finish::CloseWrite),
{
    op == Finish::Shutdown || op == Finish::CloseWrite
}

/// What is reported: the connection's own failure, or else the one of the drain before it.
pub fn finish_result<E>(drained: Result<(), E>, finished: Result<(), E>) -> (r: Result<(), E>)
    ensures
        r == (if finished is Err { finished } else { drained }),
{
    match finished {
        Err(e) => Err(e),
        Ok(()) => drained,
    }
}

/// What has reached the connection is always the beginning of what was encrypted: nothing is sent
/// twice, out of order or re-encrypted.
pub proof fn sent_is_a_prefix_of_made(s: Staging)
    requires
        s.wf(),
    ensures
        s.sent().is_prefix_of(s.made()),
        s.made() == s.sent() + s.left(),
{
    assert(s.made().take(s.sent().len() as int) =~= s.sent());
}

/// There is no warning exactly for an odd count of at least 7 with a key of at least 211 bytes.
pub proof fn sound_parameters_have_no_warning(count: int, key_len: int)
    ensures
        qpp_warnings(count, key_len).len() == 0 <==> count % 2 != 0 && count >= MIN_PADS && key_len
            >= MIN_SEED_LENGTH,
{
}

/// A pad count is refused unless it is positive. Otherwise there is one warning for a key of fewer
/// than 211 bytes, one for fewer than 7 pads and one for an even number of them, and no other.
pub proof fn every_weakness_has_a_warning(count: i64, key: &str, r: Result<Vec<String>, String>)
    requires
        call_ensures(validate_qpp_params, (count, key), r),
    ensures
        r is Ok <==> count >= 1,
        r matches Ok(v) ==> v@.len() == (if encode_utf8(key@).len() <= 210 {
            1int
        } else {
            0int
        }) + (if count <= 6 {
            1int
        } else {
            0int
        }) + (if count % 2 == 0 {
            1int
        } else {
            0int
        }),
{
    if let Ok(v) = r {
        assert(v@.len() == strings(v@).len());
    }
}

/// How a stream ends: everything but a close pushes the staged ciphertext out first; a shutdown and a
/// half-close go on where that fails, and a flush does not. A failure of the ending itself is reported
/// before one of the push.
pub proof fn how_a_stream_ends<E>(
    op: Finish,
    first: bool,
    on: bool,
    drained: Result<(), E>,
    finished: Result<(), E>,
    r: Result<(), E>,
)
    requires
        call_ensures(drains_first, (op,), first),
        call_ensures(goes_on_after_failed_drain, (op,), on),
        call_ensures(finish_result::<E>, (drained, finished), r),
    ensures
        op == Finish::Close ==> !first && !on,
        op == Finish::Flush ==> first && !on,
        op == Finish::Shutdown || op == Finish::CloseWrite ==> first && on,
        r is Ok <==> drained is Ok && finished is Ok,
        finished is Err ==> r == finished,
        finished is Ok ==> r == drained,
{
}

} // verus!
