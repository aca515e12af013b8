//! The framed snappy stream that wraps a session below the multiplexer.
//!
//! ```text
//! stream identifier (once, first): ff 06 00 00 73 4e 61 50 70 59      ("sNaPpY")
//! chunk: type u8 | length u24 LE | body
//!   0x00 compressed   : masked_crc32c(uncompressed) u32 LE | snappy block
//!   0x01 uncompressed : masked_crc32c(data) u32 LE | data
//!   0x80-0xfe         : skippable
//!   0x02-0x7f         : reserved, unskippable
//! ```
//!
//! Every write becomes one chunk (more for a write longer than 64 KiB), so nothing stays behind
//! in a buffer. [`Writer`] turns writes into frames and [`Reader`] turns the bytes that arrive
//! back into data; neither of them does any I/O itself.
use vstd::prelude::*;
use vstd::slice::{slice_subrange, slice_to_vec};

verus! {

/// Largest amount of uncompressed data in one chunk.
pub const MAX_BLOCK_SIZE: usize = 65536;

/// Size of the masked CRC-32C that precedes a chunk body.
pub const CHECKSUM_SIZE: usize = 4;

/// Size of the per-chunk header (type byte plus 24-bit length).
pub const CHUNK_HEADER_SIZE: usize = 4;

/// The largest chunk length that the reader accepts: the longest block that 64 KiB can compress
/// to, plus a checksum.
pub const RBUF_LEN: usize = 76494;

/// Chunk type 0x00: the body is a snappy block.
pub const CHUNK_TYPE_COMPRESSED_DATA: u8 = 0x00;

/// Chunk type 0x01: the body is stored as it is.
pub const CHUNK_TYPE_UNCOMPRESSED_DATA: u8 = 0x01;

/// Chunk type 0xff: the stream identifier.
pub const CHUNK_TYPE_STREAM_IDENTIFIER: u8 = 0xff;

/// Chunk types up to this one are reserved and must not be skipped.
pub const CHUNK_TYPE_MAX_UNSKIPPABLE: u8 = 0x7f;

/// The body of the stream identifier chunk: `sNaPpY`.
pub open spec fn magic_body() -> Seq<u8> {
    seq![0x73u8, 0x4e, 0x61, 0x50, 0x70, 0x59]
}

/// The stream identifier chunk.
pub open spec fn magic_chunk() -> Seq<u8> {
    seq![0xffu8, 0x06, 0x00, 0x00, 0x73, 0x4e, 0x61, 0x50, 0x70, 0x59]
}

/// The stream identifier chunk, written once before the first data chunk.
pub fn magic() -> (v: Vec<u8>)
    ensures
        v@ == magic_chunk(),
{
    let v: Vec<u8> = vec![0xff, 0x06, 0x00, 0x00, 0x73, 0x4e, 0x61, 0x50, 0x70, 0x59];
    assert(v@ =~= magic_chunk());
    v
}

/// The errors of a framed stream.
#[derive(Clone, Copy, Debug, PartialEq, Eq)]
pub enum Error {
    /// The input is not a valid framed stream.
    Corrupt,
    /// A block claims to decode to more than a machine word can address.
    TooLarge,
    /// A reserved unskippable chunk type, or a chunk longer than the reader's buffer.
    Unsupported,
    /// A literal whose length does not fit in a machine word. Kept so that the error set is
    /// complete: the block decoder reports every malformed block as corrupt input.
    UnsupportedLiteralLength,
}

impl Error {
    /// The text of the error.
    pub fn message(&self) -> (s: &'static str)
        ensures
            s@ == (match *self {
                Error::Corrupt => "snappy: corrupt input"@,
                Error::TooLarge => "snappy: decoded block is too large"@,
                Error::Unsupported => "snappy: unsupported input"@,
                Error::UnsupportedLiteralLength => "snappy: unsupported literal length"@,
            }),
    {
        match self {
            Error::Corrupt => "snappy: corrupt input",
            Error::TooLarge => "snappy: decoded block is too large",
            Error::Unsupported => "snappy: unsupported input",
            Error::UnsupportedLiteralLength => "snappy: unsupported literal length",
        }
    }
}

/// `std::io::ErrorKind`, carried through unread.
#[verifier::external_type_specification]
#[verifier::external_body]
pub struct ExErrorKind(std::io::ErrorKind);

/// `snap::raw::Encoder`, whose tables are reused from block to block.
#[verifier::external_type_specification]
#[verifier::external_body]
pub struct ExEncoder(snap::raw::Encoder);

/// `snap::raw::Decoder`.
#[verifier::external_type_specification]
#[verifier::external_body]
pub struct ExDecoder(snap::raw::Decoder);

/// What a reader or writer remembers after it has failed or ended.
#[derive(Debug)]
pub enum Sticky {
    /// The stream ended cleanly at a chunk boundary.
    Eof,
    /// A fault of the framed stream itself.
    Snappy(Error),
    /// The connection below failed: the kind and the text of its error.
    Io(std::io::ErrorKind, String),
}

impl Sticky {
    /// The same value again.
    pub fn copied(&self) -> (s: Sticky)
        ensures
            s == *self,
    {
        match self {
            Sticky::Eof => Sticky::Eof,
            Sticky::Snappy(e) => Sticky::Snappy(*e),
            Sticky::Io(kind, text) => Sticky::Io(*kind, text.clone()),
        }
    }
}

// ---------------------------------------------------------------------------------------
// Outside calls
// ---------------------------------------------------------------------------------------
/// The CRC-32C (Castagnoli) of some bytes.
pub uninterp spec fn crc32c_of(data: Seq<u8>) -> u32;

/// `crc32c::crc32c`: a function of the bytes alone.
#[verifier::external_body]
fn crc32c(data: &[u8]) -> (c: u32)
    ensures
        c == crc32c_of(data@),
{
    crc32c::crc32c(data)
}

/// The snappy block that some bytes compress to.
pub uninterp spec fn snappy_block(data: Seq<u8>) -> Seq<u8>;

/// What a snappy block decompresses to; nothing when it is malformed.
pub uninterp spec fn snappy_unblock(block: Seq<u8>) -> Option<Seq<u8>>;

/// `snap::raw::Encoder::new`.
#[verifier::external_body]
fn new_encoder() -> snap::raw::Encoder {
    snap::raw::Encoder::new()
}

/// `snap::raw::Decoder::new`.
#[verifier::external_body]
fn new_decoder() -> snap::raw::Decoder {
    snap::raw::Decoder::new()
}

/// `snap::raw::Encoder::compress_vec`: the block of some bytes, whatever the encoder has
/// compressed before. It succeeds on everything that one chunk can hold, the block begins with
/// the number of bytes as a varint, and it decompresses to those bytes.
#[verifier::external_body]
fn compress(encoder: &mut snap::raw::Encoder, data: &[u8]) -> (r: Option<Vec<u8>>)
    requires
        data.len() <= MAX_BLOCK_SIZE,
    ensures
        r is Some,
        r->0@ == snappy_block(data@),
        r->0@.len() <= 32 + data.len() + data.len() / 6,
        varint(data@.len() as nat).is_prefix_of(r->0@),
        snappy_unblock(r->0@) == Some(data@),
{
    encoder.compress_vec(data).ok()
}

/// `snap::raw::Decoder::decompress_vec`: the bytes of a block, as many as the varint at its start
/// says, or nothing when the block is malformed.
#[verifier::external_body]
fn decompress(decoder: &mut snap::raw::Decoder, block: &[u8]) -> (r: Option<Vec<u8>>)
    requires
        uvarint_of(block@).1 > 0,
        uvarint_of(block@).0 <= MAX_BLOCK_SIZE,
    ensures
        r matches Some(v) ==> snappy_unblock(block@) == Some(v@),
        r matches Some(v) ==> uvarint_of(block@).0 == v@.len(),
        r is None ==> snappy_unblock(block@) is None,
{
    decoder.decompress_vec(block).ok()
}

// ---------------------------------------------------------------------------------------
// Numbers on the wire
// ---------------------------------------------------------------------------------------
/// `v` as a varint: seven bits to a byte, low bits first, the top bit set on all but the last.
pub open spec fn varint(v: nat) -> Seq<u8>
    decreases v,
{
    if v < 128 {
        seq![v as u8]
    } else {
        seq![(v % 128 + 128) as u8] + varint(v / 128)
    }
}

/// The position of the first byte from `i` on that ends a varint; the length if none does.
pub open spec fn varint_end(s: Seq<u8>, i: int) -> int
    decreases s.len() - i,
{
    if i >= s.len() || s[i] < 128 {
        i
    } else {
        varint_end(s, i + 1)
    }
}

/// The number that the bytes up to and with the one at `end` spell.
pub open spec fn varint_value(s: Seq<u8>, i: int, end: int) -> int
    decreases end - i,
{
    if i >= end {
        s[end] as int
    } else {
        s[i] % 128 + 128 * varint_value(s, i + 1, end)
    }
}

/// The number at the start of `s` and how many bytes it takes: zero bytes when `s` is too short,
/// and a negative count when the number overflows 64 bits.
pub open spec fn uvarint_of(s: Seq<u8>) -> (int, int) {
    let end = varint_end(s, 0);
    if end >= 10 && s.len() > 10 {
        (0, -11)
    } else if end >= s.len() {
        (0, 0)
    } else if end == 9 && s[9] > 1 {
        (0, -10)
    } else {
        (varint_value(s, 0, end), end + 1)
    }
}

/// The number `n` in `k` bytes, low byte first.
pub open spec fn le_bytes(n: int, k: nat) -> Seq<u8>
    decreases k,
{
    if k == 0 {
        Seq::empty()
    } else {
        seq![(n % 256) as u8] + le_bytes(n / 256, (k - 1) as nat)
    }
}

/// The number whose bytes, low byte first, are `s`.
pub open spec fn le_value(s: Seq<u8>) -> int
    decreases s.len(),
{
    if s.len() == 0 {
        0
    } else {
        s[0] + 256 * le_value(s.skip(1))
    }
}

/// The mask of section 3 of the framing format: a rotation by 15 bits plus a constant.
pub open spec fn mask(c: u32) -> u32 {
    let sum = ((c >> 15u32) | (c << 17u32)) + 0xa282_ead8u32;
    (if sum > u32::MAX {
        sum - 0x1_0000_0000
    } else {
        sum
    }) as u32
}

/// The masked CRC-32C of some bytes.
pub open spec fn masked_crc(data: Seq<u8>) -> u32 {
    mask(crc32c_of(data))
}

/// Masks a checksum.
pub fn masked(c: u32) -> (m: u32)
    ensures
        m == mask(c),
{
    let r: u32 = (c >> 15u32) | (c << 17u32);
    r.wrapping_add(0xa282_ead8)
}

/// Masked CRC-32C of `b`.
pub fn crc(b: &[u8]) -> (c: u32)
    ensures
        c == masked_crc(b@),
{
    masked(crc32c(b))
}

/// `n` in `k` bytes, low byte first, appended to `out`.
pub(crate) fn push_le(out: &mut Vec<u8>, n: u32, k: usize)
    ensures
        final(out)@ == old(out)@ + le_bytes(n as int, k as nat),
    decreases k,
{
    if k > 0 {
        out.push((n % 256) as u8);
        push_le(out, n / 256, k - 1);
    }
    assert(out@ =~= old(out)@ + le_bytes(n as int, k as nat));
}

/// The number whose bytes, low byte first, are `s`.
fn le_number(s: &[u8]) -> (n: u32)
    requires
        s.len() <= 4,
    ensures
        n == le_value(s@),
{
    proof {
        reveal_with_fuel(le_value, 5);
    }
    let a: u32 = if s.len() > 0 {
        s[0] as u32
    } else {
        0
    };
    let b: u32 = if s.len() > 1 {
        s[1] as u32
    } else {
        0
    };
    let c: u32 = if s.len() > 2 {
        s[2] as u32
    } else {
        0
    };
    let d: u32 = if s.len() > 3 {
        s[3] as u32
    } else {
        0
    };
    a + 256 * b + 65536 * c + 16777216 * d
}

/// Writes `v` as a varint.
pub fn put_uvarint(v: u64) -> (out: Vec<u8>)
    ensures
        out@ == varint(v as nat),
{
    let mut out: Vec<u8> = Vec::new();
    let mut rest: u64 = v;
    assert(out@ + varint(rest as nat) =~= varint(v as nat));
    while rest >= 128
        invariant
            out@ + varint(rest as nat) == varint(v as nat),
        decreases rest,
    {
        let ghost before = out@;
        out.push((rest % 128) as u8 + 128);
        assert(out@ + varint((rest / 128) as nat) =~= before + varint(rest as nat));
        rest = rest / 128;
    }
    out.push(rest as u8);
    assert(out@ =~= varint(v as nat));
    out
}

/// The powers of 128.
spec fn pow128(k: nat) -> int
    decreases k,
{
    if k == 0 {
        1
    } else {
        128 * pow128((k - 1) as nat)
    }
}

/// What the bytes of an unfinished varint contribute.
spec fn partial_value(s: Seq<u8>, i: nat) -> int
    decreases i,
{
    if i == 0 {
        0
    } else {
        partial_value(s, (i - 1) as nat) + (s[i - 1] % 128) * pow128((i - 1) as nat)
    }
}

proof fn lemma_pow128(k: nat)
    ensures
        pow128(k) > 0,
    decreases k,
{
    if k > 0 {
        lemma_pow128((k - 1) as nat);
    }
}

proof fn lemma_partial_bound(s: Seq<u8>, i: nat)
    requires
        i <= s.len(),
    ensures
        0 <= partial_value(s, i) < pow128(i),
    decreases i,
{
    if i > 0 {
        lemma_partial_bound(s, (i - 1) as nat);
        lemma_pow128((i - 1) as nat);
        let p = pow128((i - 1) as nat);
        let d = (s[i - 1] % 128) as int;
        assert(0 <= d * p <= 127 * p) by (nonlinear_arith)
            requires
                0 <= d <= 127,
                p > 0,
        ;
    }
}

/// The value read from the low end is the value read from the high end.
proof fn lemma_partial_value(s: Seq<u8>, i: nat, end: int)
    requires
        i <= end < s.len(),
    ensures
        varint_value(s, 0, end) == partial_value(s, i) + pow128(i) * varint_value(
            s,
            i as int,
            end,
        ),
    decreases i,
{
    if i > 0 {
        let j = (i - 1) as nat;
        lemma_partial_value(s, j, end);
        let p = pow128(j);
        let v = varint_value(s, i as int, end);
        let d = (s[j as int] % 128) as int;
        assert(p * (d + 128 * v) == d * p + (128 * p) * v) by (nonlinear_arith);
    }
}

proof fn lemma_varint_end(s: Seq<u8>, i: int)
    requires
        0 <= i <= s.len(),
    ensures
        i <= varint_end(s, i) <= s.len(),
        varint_end(s, i) < s.len() ==> s[varint_end(s, i)] < 128,
        forall|j: int| i <= j < varint_end(s, i) ==> s[j] >= 128,
    decreases s.len() - i,
{
    if i < s.len() && s[i] >= 128 {
        lemma_varint_end(s, i + 1);
    }
}

/// The number at the start of `src` and how many bytes it takes: zero bytes when `src` is too
/// short, and a negative count when the number overflows 64 bits.
pub fn uvarint(src: &[u8]) -> (r: (u64, isize))
    ensures
        (r.0 as int, r.1 as int) == uvarint_of(src@),
{
    let mut x: u64 = 0;
    let mut unit: u64 = 1;
    let mut i: usize = 0;
    proof {
        lemma_varint_end(src@, 0);
    }
    while i < src.len()
        invariant
            i <= src.len(),
            i <= 10,
            varint_end(src@, i as int) == varint_end(src@, 0),
            varint_end(src@, 0) >= i,
            i <= 9 ==> x == partial_value(src@, i as nat),
            i <= 9 ==> unit == pow128(i as nat),
        decreases src.len() - i,
    {
        if i == 10 {
            return (0, -11);
        }
        let b: u8 = src[i];
        proof {
            lemma_partial_bound(src@, i as nat);
        }
        if b < 128 {
            if i == 9 && b > 1 {
                return (0, -10);
            }
            proof {
                reveal_with_fuel(pow128, 11);
                lemma_partial_value(src@, i as nat, i as int);
                assert(unit * b <= u64::MAX - x) by (nonlinear_arith)
                    requires
                        unit == pow128(i as nat),
                        0 <= x < unit,
                        i <= 9,
                        b <= 127,
                        i == 9 ==> b <= 1,
                        i == 9 ==> unit == 9223372036854775808,
                        i < 9 ==> unit <= 72057594037927936,
                ;
                assert(unit * b == pow128(i as nat) * varint_value(src@, i as int, i as int));
            }
            return (x + unit * (b as u64), (i as isize) + 1);
        }
        if i < 9 {
            proof {
                reveal_with_fuel(pow128, 11);
                assert((b % 128) * unit <= 127 * unit) by (nonlinear_arith)
                    requires
                        b % 128 <= 127,
                ;
            }
            x = x + (b % 128) as u64 * unit;
            if i < 8 {
                unit = unit * 128;
            } else {
                unit = 9223372036854775808;
            }
        }
        proof {
            lemma_varint_end(src@, i + 1);
        }
        i = i + 1;
    }
    (0, 0)
}

/// A varint has at most as many bytes as base-128 digits are needed, and its last byte is the
/// highest digit.
proof fn lemma_varint_len(v: nat, k: nat)
    requires
        v < pow128(k),
        k >= 1,
    ensures
        1 <= varint(v).len() <= k,
        varint(v).len() == k ==> varint(v).last() * pow128((k - 1) as nat) <= v,
    decreases v,
{
    if v >= 128 {
        if k == 1 {
            reveal_with_fuel(pow128, 2);
        }
        lemma_varint_len(v / 128, (k - 1) as nat);
        assert(varint(v).last() == varint(v / 128).last());
        if varint(v).len() == k {
            let l = varint(v).last() as int;
            let p = pow128((k - 2) as nat);
            assert(pow128((k - 1) as nat) == 128 * p);
            assert(l * (128 * p) == 128 * (l * p)) by (nonlinear_arith);
            assert(l * p <= v / 128);
        }
    } else {
        reveal_with_fuel(pow128, 2);
        assert(varint(v).last() == v);
        assert(v * 1 == v);
    }
}

/// Where a varint stands in `s`, reading it gives its number.
proof fn lemma_varint_read(v: nat, s: Seq<u8>, i: int)
    requires
        0 <= i,
        i + varint(v).len() <= s.len(),
        s.subrange(i, i + varint(v).len()) == varint(v),
    ensures
        varint_end(s, i) == i + varint(v).len() - 1,
        varint_value(s, i, i + varint(v).len() - 1) == v,
        s[i + varint(v).len() - 1] == varint(v).last(),
    decreases v,
{
    let w = s.subrange(i, i + varint(v).len());
    assert(w[0] == s[i]);
    if v >= 128 {
        assert(s.subrange(i + 1, i + 1 + varint(v / 128).len()) =~= w.skip(1));
        assert(varint(v).skip(1) =~= varint(v / 128));
        lemma_varint_read(v / 128, s, i + 1);
        assert((v % 128 + 128) as u8 % 128 == v % 128);
    }
}

/// Reading a varint gives back the number that was written, whatever follows it.
pub proof fn varint_round_trip(v: u64, tail: Seq<u8>)
    ensures
        uvarint_of(varint(v as nat) + tail) == (v as int, varint(v as nat).len() as int),
        1 <= varint(v as nat).len() <= 10,
{
    let s = varint(v as nat) + tail;
    reveal_with_fuel(pow128, 11);
    lemma_varint_len(v as nat, 10);
    assert(s.subrange(0, varint(v as nat).len() as int) =~= varint(v as nat));
    lemma_varint_read(v as nat, s, 0);
    if varint(v as nat).len() == 10 {
        let l = varint(v as nat).last() as int;
        assert(l <= 1) by (nonlinear_arith)
            requires
                l * 9223372036854775808 <= v,
        ;
    }
}

/// Reading a little-endian number gives back the number that was written.
proof fn lemma_le_round_trip(n: int, k: nat)
    requires
        0 <= n,
    ensures
        le_bytes(n, k).len() == k,
        k == 3 && n < 0x100_0000 ==> le_value(le_bytes(n, k)) == n,
        k == 4 && n < 0x1_0000_0000 ==> le_value(le_bytes(n, k)) == n,
{
    lemma_le_value(n, k);
    reveal_with_fuel(pow256, 5);
}

spec fn pow256(k: nat) -> int
    decreases k,
{
    if k == 0 {
        1
    } else {
        256 * pow256((k - 1) as nat)
    }
}

proof fn lemma_le_value(n: int, k: nat)
    requires
        0 <= n,
    ensures
        le_bytes(n, k).len() == k,
        n < pow256(k) ==> le_value(le_bytes(n, k)) == n,
    decreases k,
{
    if k > 0 {
        lemma_le_value(n / 256, (k - 1) as nat);
        assert(le_bytes(n, k).skip(1) =~= le_bytes(n / 256, (k - 1) as nat));
        assert((n % 256) as u8 == n % 256);
    }
}

// ---------------------------------------------------------------------------------------
// The framed stream
// ---------------------------------------------------------------------------------------
/// What a snappy block decodes to, or the fault that is reported for it: the length at its start
/// is read with any number of bytes, and must not promise more than a chunk may hold.
pub open spec fn block_data(b: Seq<u8>) -> Result<Seq<u8>, Error> {
    let (v, n) = uvarint_of(b);
    if n <= 0 || v > 0xffff_ffff {
        Err(Error::Corrupt)
    } else if usize::BITS == 32 && v > 0x7fff_ffff {
        Err(Error::TooLarge)
    } else if v > MAX_BLOCK_SIZE {
        Err(Error::Corrupt)
    } else {
        match snappy_unblock(varint(v as nat) + b.skip(n)) {
            Some(d) => Ok(d),
            None => Err(Error::Corrupt),
        }
    }
}

/// The data of a chunk with the given checksum.
pub open spec fn checked_data(sum: int, data: Result<Seq<u8>, Error>) -> Result<Seq<u8>, Error> {
    match data {
        Ok(d) => if masked_crc(d) == sum {
            Ok(d)
        } else {
            Err(Error::Corrupt)
        },
        Err(e) => Err(e),
    }
}

/// The data of a data chunk: a checksum, then a block or the data as they are.
pub open spec fn chunk_data(chunk_type: u8, body: Seq<u8>) -> Result<Seq<u8>, Error> {
    let rest = body.skip(4);
    checked_data(
        le_value(body.take(4)),
        if chunk_type == CHUNK_TYPE_UNCOMPRESSED_DATA {
            Ok(rest)
        } else {
            block_data(rest)
        },
    )
}

/// What is delivered when `data` comes first.
pub open spec fn after_data(data: Seq<u8>, more: (Seq<u8>, Sticky)) -> (Seq<u8>, Sticky) {
    (data + more.0, more.1)
}

/// A stream that ends at once with a fault.
pub open spec fn fault(e: Error) -> (Seq<u8>, Sticky) {
    (Seq::empty(), Sticky::Snappy(e))
}

/// What a reader delivers of the framed stream `s`, and how it ends. `seen` says whether the
/// stream identifier has been read already; it must come first.
pub open spec fn decoded(s: Seq<u8>, seen: bool) -> (Seq<u8>, Sticky)
    decreases s.len(), 0int,
{
    if s.len() == 0 {
        (Seq::empty(), Sticky::Eof)
    } else if s.len() < 4 {
        fault(Error::Corrupt)
    } else if !seen && s[0] != CHUNK_TYPE_STREAM_IDENTIFIER {
        fault(Error::Corrupt)
    } else {
        after_header(s[0], le_value(s.subrange(1, 4)), s.skip(4))
    }
}

/// The same for what follows the header of a chunk.
pub open spec fn after_header(chunk_type: u8, len: int, s: Seq<u8>) -> (Seq<u8>, Sticky)
    decreases s.len(), 1int,
{
    if len > RBUF_LEN {
        fault(Error::Unsupported)
    } else if chunk_type == CHUNK_TYPE_COMPRESSED_DATA || chunk_type
        == CHUNK_TYPE_UNCOMPRESSED_DATA {
        if len < 4 || s.len() < len {
            fault(Error::Corrupt)
        } else if chunk_type == CHUNK_TYPE_UNCOMPRESSED_DATA && len - 4 > MAX_BLOCK_SIZE {
            fault(Error::Corrupt)
        } else {
            match chunk_data(chunk_type, s.take(len)) {
                Ok(d) => after_data(d, decoded(s.skip(len), true)),
                Err(e) => fault(e),
            }
        }
    } else if chunk_type == CHUNK_TYPE_STREAM_IDENTIFIER {
        if len != 6 || s.len() < 6 || s.take(6) != magic_body() {
            fault(Error::Corrupt)
        } else {
            decoded(s.skip(6), true)
        }
    } else if chunk_type <= CHUNK_TYPE_MAX_UNSKIPPABLE {
        fault(Error::Unsupported)
    } else if len < 0 || s.len() < len {
        fault(Error::Corrupt)
    } else {
        decoded(s.skip(len), true)
    }
}

/// One chunk: type, 24-bit little-endian length, body.
pub open spec fn chunk(chunk_type: u8, body: Seq<u8>) -> Seq<u8> {
    seq![chunk_type] + le_bytes(body.len() as int, 3) + body
}

/// The chunk that carries `data`, given their block and their checksum: compressed when that saves
/// at least an eighth.
pub open spec fn chunk_of(data: Seq<u8>, block: Seq<u8>, checksum: u32) -> Seq<u8> {
    let n = data.len() as int;
    let sum = le_bytes(checksum as int, 4);
    if block.len() >= n - n / 8 {
        chunk(CHUNK_TYPE_UNCOMPRESSED_DATA, sum + data)
    } else {
        chunk(CHUNK_TYPE_COMPRESSED_DATA, sum + block)
    }
}

/// The chunk that carries `data`.
pub open spec fn data_chunk(data: Seq<u8>) -> Seq<u8> {
    chunk_of(data, snappy_block(data), masked_crc(data))
}

/// The chunk that carries `data`, given their block and their checksum.
pub fn build_chunk(data: &[u8], block: &[u8], checksum: u32) -> (c: Vec<u8>)
    requires
        data.len() <= MAX_BLOCK_SIZE,
    ensures
        c@ == chunk_of(data@, block@, checksum),
{
    let n: usize = data.len();
    let mut c: Vec<u8> = Vec::new();
    if block.len() >= n - n / 8 {
        c.push(CHUNK_TYPE_UNCOMPRESSED_DATA);
        push_le(&mut c, (4 + n) as u32, 3);
        push_le(&mut c, checksum, 4);
        c.extend_from_slice(data);
    } else {
        c.push(CHUNK_TYPE_COMPRESSED_DATA);
        push_le(&mut c, (4 + block.len()) as u32, 3);
        push_le(&mut c, checksum, 4);
        c.extend_from_slice(block);
    }
    proof {
        lemma_le_round_trip(checksum as int, 4);
    }
    assert(c@ =~= chunk_of(data@, block@, checksum));
    c
}

/// The data of a chunk, if the checksum that was computed of them is the one that it states.
pub fn checked(data: Vec<u8>, computed: u32, stated: u32) -> (r: Result<Vec<u8>, Error>)
    ensures
        r == (if computed == stated {
            Ok::<Vec<u8>, Error>(data)
        } else {
            Err(Error::Corrupt)
        }),
{
    if computed == stated {
        Ok(data)
    } else {
        Err(Error::Corrupt)
    }
}

/// The frames that one write becomes: a chunk for every 64 KiB, the first of a stream behind the
/// stream identifier.
pub open spec fn frames_of(p: Seq<u8>, seen: bool) -> Seq<Seq<u8>>
    decreases p.len(),
{
    if p.len() == 0 {
        Seq::empty()
    } else {
        let n = if p.len() < MAX_BLOCK_SIZE {
            p.len() as int
        } else {
            MAX_BLOCK_SIZE as int
        };
        let first = (if seen {
            Seq::empty()
        } else {
            magic_chunk()
        }) + data_chunk(p.take(n));
        seq![first] + frames_of(p.skip(n), true)
    }
}

/// The sequences of `parts`, one after the other.
pub open spec fn joined(parts: Seq<Seq<u8>>) -> Seq<u8>
    decreases parts.len(),
{
    if parts.len() == 0 {
        Seq::empty()
    } else {
        parts[0] + joined(parts.skip(1))
    }
}

/// The contents of some byte vectors.
pub open spec fn contents(v: Seq<Vec<u8>>) -> Seq<Seq<u8>> {
    Seq::new(v.len(), |i: int| v[i]@)
}

/// Reading `bytes` delivers exactly `data`, and then whatever follows them.
pub open spec fn carries(bytes: Seq<u8>, seen: bool, data: Seq<u8>) -> bool {
    forall|rest: Seq<u8>| #[trigger]
        decoded(bytes + rest, seen) == after_data(data, decoded(rest, seen || data.len() > 0))
}

/// The inverse of [`le_value`].
proof fn lemma_le_bytes(s: Seq<u8>)
    ensures
        le_bytes(le_value(s), s.len()) == s,
        0 <= le_value(s),
    decreases s.len(),
{
    if s.len() > 0 {
        let t = s.skip(1);
        lemma_le_bytes(t);
        assert(le_value(s) % 256 == s[0]);
        assert(le_value(s) / 256 == le_value(t));
        assert(le_bytes(le_value(s), s.len()) =~= seq![s[0]] + t);
        assert(seq![s[0]] + t =~= s);
    }
}

/// The stream identifier carries nothing.
proof fn lemma_magic_carries(rest: Seq<u8>, seen: bool)
    ensures
        decoded(magic_chunk() + rest, seen) == decoded(rest, true),
{
    let s = magic_chunk() + rest;
    assert(s.skip(4).take(6) =~= magic_body());
    assert(s.skip(4).skip(6) =~= rest);
    assert(le_value(s.subrange(1, 4)) == 6) by {
        reveal_with_fuel(le_value, 4);
    }
}

/// A chunk header is read back.
proof fn lemma_header(chunk_type: u8, body: Seq<u8>, rest: Seq<u8>)
    requires
        body.len() < 0x100_0000,
    ensures
        ({
            let s = chunk(chunk_type, body) + rest;
            &&& s.len() >= 4
            &&& s[0] == chunk_type
            &&& le_value(s.subrange(1, 4)) == body.len()
            &&& s.skip(4) == body + rest
        }),
{
    let s = chunk(chunk_type, body) + rest;
    lemma_le_round_trip(body.len() as int, 3);
    assert(s.subrange(1, 4) =~= le_bytes(body.len() as int, 3));
    assert(s.skip(4) =~= body + rest);
}

/// A data chunk carries its data.
proof fn lemma_data_chunk_carries(data: Seq<u8>, rest: Seq<u8>)
    requires
        data.len() <= MAX_BLOCK_SIZE,
        snappy_block(data).len() <= 32 + data.len() + data.len() / 6,
        varint(data.len()).is_prefix_of(snappy_block(data)),
        snappy_unblock(snappy_block(data)) == Some(data),
    ensures
        decoded(data_chunk(data) + rest, true) == after_data(data, decoded(rest, true)),
{
    let sum = le_bytes(masked_crc(data) as int, 4);
    let block = snappy_block(data);
    let n = data.len() as int;
    lemma_le_round_trip(masked_crc(data) as int, 4);
    if block.len() >= n - n / 8 {
        let body = sum + data;
        lemma_header(CHUNK_TYPE_UNCOMPRESSED_DATA, body, rest);
        assert((body + rest).take(body.len() as int) =~= body);
        assert((body + rest).skip(body.len() as int) =~= rest);
        assert(body.take(4) =~= sum);
        assert(body.skip(4) =~= data);
    } else {
        let body = sum + block;
        lemma_header(CHUNK_TYPE_COMPRESSED_DATA, body, rest);
        assert((body + rest).take(body.len() as int) =~= body);
        assert((body + rest).skip(body.len() as int) =~= rest);
        assert(body.take(4) =~= sum);
        assert(body.skip(4) =~= block);
        let head = varint(data.len());
        let tail = block.skip(head.len() as int);
        assert(block =~= head + tail);
        varint_round_trip(data.len() as u64, tail);
    }
}

/// Two carriers, one after the other, carry the data of both.
pub proof fn carriers_join(a: Seq<u8>, b: Seq<u8>, seen: bool, p: Seq<u8>, q: Seq<u8>)
    requires
        carries(a, seen, p),
        carries(b, seen || p.len() > 0, q),
    ensures
        carries(a + b, seen, p + q),
{
    assert forall|rest: Seq<u8>| #[trigger]
        decoded((a + b) + rest, seen) == after_data(
            p + q,
            decoded(rest, seen || (p + q).len() > 0),
        ) by {
        assert((a + b) + rest =~= a + (b + rest));
        let last = decoded(rest, seen || p.len() > 0 || q.len() > 0);
        assert(p + (q + last.0) =~= (p + q) + last.0);
    }
}

/// What a stream of writes reads back as: all the data, then a clean end.
pub proof fn a_stream_reads_back(bytes: Seq<u8>, data: Seq<u8>)
    requires
        carries(bytes, false, data),
    ensures
        decoded(bytes, false) == (data, Sticky::Eof),
{
    assert(bytes + Seq::<u8>::empty() =~= bytes);
    assert(data + Seq::<u8>::empty() =~= data);
    assert(decoded(bytes + Seq::<u8>::empty(), false) == after_data(
        data,
        decoded(Seq::<u8>::empty(), data.len() > 0),
    ));
}

// ---------------------------------------------------------------------------------------
// Writing
// ---------------------------------------------------------------------------------------
/// The write half: turns every write into frames.
pub struct Writer {
    /// Whether the stream identifier has been written.
    wrote_stream_header: bool,
    /// The block compressor.
    encoder: snap::raw::Encoder,
    /// Set once a write has failed; every later write reports it again.
    err: Option<Sticky>,
}

impl Writer {
    /// Whether the stream identifier has been written.
    pub closed spec fn started(self) -> bool {
        self.wrote_stream_header
    }

    /// What the writer failed with.
    pub closed spec fn failed(self) -> Option<Sticky> {
        self.err
    }

    /// A writer for a new stream. The stream identifier is written together with the first chunk.
    pub fn new() -> (w: Writer)
        ensures
            !w.started(),
            w.failed() is None,
    {
        Writer { wrote_stream_header: false, encoder: new_encoder(), err: None }
    }

    /// The chunk that carries `data`.
    fn encode_chunk(&mut self, data: &[u8], out: &mut Vec<u8>)
        requires
            data.len() <= MAX_BLOCK_SIZE,
        ensures
            final(out)@ == old(out)@ + data_chunk(data@),
            final(self).started() == old(self).started(),
            final(self).failed() == old(self).failed(),
            forall|rest: Seq<u8>| #[trigger]
                decoded(data_chunk(data@) + rest, true) == after_data(data@, decoded(rest, true)),
    {
        let checksum = crc(data);
        let block = match compress(&mut self.encoder, data) {
            Some(block) => block,
            None => Vec::new(),
        };
        proof {
            assert forall|rest: Seq<u8>| #[trigger]
                decoded(data_chunk(data@) + rest, true) == after_data(
                    data@,
                    decoded(rest, true),
                ) by {
                lemma_data_chunk_carries(data@, rest);
            }
        }
        let c = build_chunk(data, block.as_slice(), checksum);
        out.extend_from_slice(c.as_slice());
        assert(out@ =~= old(out)@ + data_chunk(data@));
    }

    /// Splits `p` into chunks of at most 64 KiB: the frames to be written to the connection, in
    /// order. A writer that has failed reports its failure again, even for an empty write.
    pub fn write_chunks(&mut self, p: &[u8]) -> (r: Result<Vec<Vec<u8>>, Sticky>)
        ensures
            final(self).failed() == old(self).failed(),
            match old(self).failed() {
                Some(e) => r == Err::<Vec<Vec<u8>>, Sticky>(e) && final(self).started() == old(
                    self,
                ).started(),
                None => {
                    &&& r is Ok
                    &&& contents(r->Ok_0@) == frames_of(p@, old(self).started())
                    &&& final(self).started() == (old(self).started() || p.len() > 0)
                    &&& carries(joined(contents(r->Ok_0@)), old(self).started(), p@)
                },
            },
    {
        if let Some(e) = &self.err {
            return Err(e.copied());
        }
        let mut frames: Vec<Vec<u8>> = Vec::new();
        let mut pos: usize = 0;
        let ghost seen = self.started();
        proof {
            assert(p@.skip(0) =~= p@);
            assert(contents(frames@) + frames_of(p@, seen) =~= frames_of(p@, seen));
            assert forall|rest: Seq<u8>| #[trigger]
                decoded(joined(contents(frames@)) + rest, seen) == after_data(
                    p@.take(0),
                    decoded(rest, seen || p@.take(0).len() > 0),
                ) by {
                assert(joined(contents(frames@)) + rest =~= rest);
                assert(p@.take(0) + decoded(rest, seen).0 =~= decoded(rest, seen).0);
            }
        }
        while pos < p.len()
            invariant
                pos <= p.len(),
                old(self).failed() is None,
                self.failed() is None,
                seen == old(self).started(),
                self.started() == (seen || pos > 0),
                contents(frames@) + frames_of(p@.skip(pos as int), self.started()) == frames_of(
                    p@,
                    seen,
                ),
                carries(joined(contents(frames@)), seen, p@.take(pos as int)),
            decreases p.len() - pos,
        {
            let n: usize = if p.len() - pos < MAX_BLOCK_SIZE {
                p.len() - pos
            } else {
                MAX_BLOCK_SIZE
            };
            let data = slice_subrange(p, pos, pos + n);
            let ghost before = contents(frames@);
            let ghost was = self.started();
            let ghost left = p@.skip(pos as int);
            let mut frame: Vec<u8> = Vec::new();
            if !self.wrote_stream_header {
                // The stream identifier goes out with the first chunk.
                self.wrote_stream_header = true;
                frame = magic();
            }
            let ghost head = frame@;
            self.encode_chunk(data, &mut frame);
            proof {
                assert(data@ =~= left.take(n as int));
                assert(left.skip(n as int) =~= p@.skip(pos + n));
                assert forall|rest: Seq<u8>| #[trigger]
                    decoded(frame@ + rest, was) == after_data(
                        data@,
                        decoded(rest, was || data@.len() > 0),
                    ) by {
                    if was {
                        assert(frame@ + rest =~= data_chunk(data@) + rest);
                    } else {
                        assert(frame@ + rest =~= magic_chunk() + (data_chunk(data@) + rest));
                        lemma_magic_carries(data_chunk(data@) + rest, was);
                    }
                }
                carriers_join(joined(before), frame@, seen, p@.take(pos as int), data@);
                lemma_joined_push(before, frame@);
                assert(p@.take(pos + n) =~= p@.take(pos as int) + data@);
            }
            frames.push(frame);
            proof {
                assert(contents(frames@) =~= before.push(frame@));
                assert(contents(frames@) + frames_of(p@.skip(pos + n), true) =~= before
                    + frames_of(left, was));
            }
            pos = pos + n;
        }
        proof {
            assert(p@.take(pos as int) =~= p@);
            assert(contents(frames@) + frames_of(p@.skip(pos as int), self.started())
                =~= contents(frames@));
        }
        Ok(frames)
    }

    /// Gathers the slices and writes them as one write, so that a header and its payload always
    /// end up in the same chunk. The number is that of the bytes gathered.
    pub fn write_vectored(&mut self, bufs: &[&[u8]]) -> (r: (Result<Vec<Vec<u8>>, Sticky>, usize))
        ensures
            final(self).failed() == old(self).failed(),
            r.1 == joined(slices(bufs@)).len(),
            match old(self).failed() {
                Some(e) => r.0 == Err::<Vec<Vec<u8>>, Sticky>(e) && final(self).started() == old(
                    self,
                ).started(),
                None => {
                    let p = joined(slices(bufs@));
                    &&& r.0 is Ok
                    &&& contents(r.0->Ok_0@) == frames_of(p, old(self).started())
                    &&& final(self).started() == (old(self).started() || p.len() > 0)
                    &&& carries(joined(contents(r.0->Ok_0@)), old(self).started(), p)
                },
            },
    {
        let ibuf = gather(bufs);
        let total: usize = ibuf.len();
        (self.write_chunks(ibuf.as_slice()), total)
    }

    /// Remembers that the connection refused a frame: every later write reports the same.
    pub fn fail(&mut self, e: Sticky)
        ensures
            final(self).failed() == Some(e),
            final(self).started() == old(self).started(),
    {
        self.err = Some(e);
    }
}

/// The contents of some slices.
pub open spec fn slices(v: Seq<&[u8]>) -> Seq<Seq<u8>> {
    Seq::new(v.len(), |i: int| v[i]@)
}

proof fn lemma_joined_push(parts: Seq<Seq<u8>>, last: Seq<u8>)
    ensures
        joined(parts.push(last)) == joined(parts) + last,
    decreases parts.len(),
{
    let all = parts.push(last);
    if parts.len() == 0 {
        assert(joined(all.skip(1)) =~= Seq::<u8>::empty());
        assert(joined(all) =~= joined(parts) + last);
    } else {
        assert(all.skip(1) =~= parts.skip(1).push(last));
        lemma_joined_push(parts.skip(1), last);
        assert(joined(all) =~= joined(parts) + last);
    }
}

/// The slices, one after the other.
fn gather(bufs: &[&[u8]]) -> (out: Vec<u8>)
    ensures
        out@ == joined(slices(bufs@)),
{
    let mut out: Vec<u8> = Vec::new();
    let mut i: usize = 0;
    assert(slices(bufs@).take(0) =~= Seq::<Seq<u8>>::empty());
    while i < bufs.len()
        invariant
            i <= bufs.len(),
            out@ == joined(slices(bufs@).take(i as int)),
        decreases bufs.len() - i,
    {
        out.extend_from_slice(bufs[i]);
        proof {
            lemma_joined_push(slices(bufs@).take(i as int), bufs@[i as int]@);
            assert(slices(bufs@).take(i + 1) =~= slices(bufs@).take(i as int).push(
                bufs@[i as int]@,
            ));
        }
        i = i + 1;
    }
    assert(slices(bufs@).take(i as int) =~= slices(bufs@));
    out
}

// ---------------------------------------------------------------------------------------
// Reading
// ---------------------------------------------------------------------------------------
/// The part of a chunk that the reader waits for.
#[derive(Clone, Copy, Debug, PartialEq, Eq)]
pub enum Phase {
    /// The header of the next chunk.
    Header,
    /// The body of a compressed chunk.
    Compressed { len: usize },
    /// The checksum of an uncompressed chunk.
    Sum { len: usize },
    /// The data of an uncompressed chunk.
    Stored { sum: u32, n: usize },
    /// The body of the stream identifier.
    Identifier,
    /// The body of a chunk that is skipped.
    Skip { len: usize },
}

impl Phase {
    /// How many bytes the part has.
    pub open spec fn need(self) -> int {
        match self {
            Phase::Header => 4,
            Phase::Compressed { len } => len as int,
            Phase::Sum { .. } => 4,
            Phase::Stored { n, .. } => n as int,
            Phase::Identifier => 6,
            Phase::Skip { len } => len as int,
        }
    }

    /// The lengths that a header may lead to.
    pub open spec fn valid(self) -> bool {
        match self {
            Phase::Compressed { len } => 4 <= len <= RBUF_LEN,
            Phase::Sum { len } => 4 <= len <= RBUF_LEN,
            Phase::Stored { n, .. } => n <= MAX_BLOCK_SIZE,
            Phase::Skip { len } => len <= RBUF_LEN,
            _ => true,
        }
    }

    /// What a reader in this phase delivers of `s`.
    pub open spec fn delivers(self, seen: bool, s: Seq<u8>) -> (Seq<u8>, Sticky) {
        match self {
            Phase::Header => decoded(s, seen),
            Phase::Compressed { len } => after_header(CHUNK_TYPE_COMPRESSED_DATA, len as int, s),
            Phase::Sum { len } => after_header(CHUNK_TYPE_UNCOMPRESSED_DATA, len as int, s),
            Phase::Stored { sum, n } => after_header(
                CHUNK_TYPE_UNCOMPRESSED_DATA,
                n + 4,
                le_bytes(sum as int, 4) + s,
            ),
            Phase::Identifier => after_header(CHUNK_TYPE_STREAM_IDENTIFIER, 6, s),
            Phase::Skip { len } => after_header(0x80, len as int, s),
        }
    }

    fn needed(self) -> (n: usize)
        ensures
            n == self.need(),
    {
        match self {
            Phase::Header => 4,
            Phase::Compressed { len } => len,
            Phase::Sum { .. } => 4,
            Phase::Stored { n, .. } => n,
            Phase::Identifier => 6,
            Phase::Skip { len } => len,
        }
    }
}

/// What a read finds.
#[derive(Debug)]
pub enum ReadStep {
    /// Some data.
    Data(Vec<u8>),
    /// The end of the stream.
    End,
    /// The failure that ended the stream.
    Failed(Sticky),
    /// Nothing yet: at most so many bytes are to be read from the connection and fed to the
    /// reader.
    Need(usize),
}

/// The read half: a chunk state machine that is fed with the bytes of the connection.
pub struct Reader {
    /// Bytes decoded from the current chunk; those from `i` on have not been handed out yet.
    decoded: Vec<u8>,
    /// Start of the undelivered bytes in `decoded`.
    i: usize,
    /// The part of a chunk that is being collected.
    phase: Phase,
    /// What has arrived of it.
    buf: Vec<u8>,
    /// Whether the stream identifier chunk has been seen (it must come first).
    read_header: bool,
    /// Set once the stream has failed or ended; every later read reports it again.
    err: Option<Sticky>,
    /// The block decompressor.
    decoder: snap::raw::Decoder,
}

impl Reader {
    /// The decoded bytes that have not been handed out yet.
    pub closed spec fn pending(self) -> Seq<u8> {
        self.decoded@.skip(self.i as int)
    }

    /// How the stream ended, once it has.
    pub closed spec fn ended(self) -> Option<Sticky> {
        self.err
    }

    /// How many bytes are missing before the reader can go on.
    pub closed spec fn missing(self) -> int {
        self.phase.need() - self.buf@.len()
    }

    /// Whether the reader stands at a chunk boundary, where a stream may end.
    pub closed spec fn at_boundary(self) -> bool {
        self.phase == Phase::Header && self.buf@.len() == 0
    }

    /// Everything the reader will deliver when `rest` is all that still arrives, and how the
    /// stream will end.
    pub closed spec fn upcoming(self, rest: Seq<u8>) -> (Seq<u8>, Sticky) {
        match self.err {
            Some(e) => (Seq::empty(), e),
            None => after_data(
                self.pending(),
                self.phase.delivers(self.read_header, self.buf@ + rest),
            ),
        }
    }

    spec fn wf_open(self) -> bool {
        &&& self.i <= self.decoded@.len()
        &&& self.phase.valid()
        &&& self.phase !is Header ==> self.read_header
        &&& self.buf@.len() <= self.phase.need()
        &&& self.phase is Header ==> self.buf@.len() < 4
        &&& self.pending().len() > 0 ==> self.at_boundary()
        &&& self.err is Some ==> self.pending().len() == 0
    }

    /// The reader's invariant: it always waits for at least one byte, and data that have not been
    /// handed out yet stop it from reading ahead.
    pub closed spec fn wf(self) -> bool {
        &&& self.wf_open()
        &&& self.err is None ==> self.buf@.len() < self.phase.need()
    }

    /// A stream that has ended or failed delivers nothing more, and stays as it ended.
    pub proof fn ended_delivers_nothing(self, rest: Seq<u8>)
        requires
            self.ended() is Some,
        ensures
            self.upcoming(rest) == (Seq::<u8>::empty(), self.ended()->0),
    {
    }

    /// A reader for a new stream.
    pub fn new() -> (r: Reader)
        ensures
            r.wf(),
            r.ended() is None,
            r.pending().len() == 0,
            r.at_boundary(),
            forall|rest: Seq<u8>| #[trigger] r.upcoming(rest) == decoded(rest, false),
    {
        let r = Reader {
            decoded: Vec::new(),
            i: 0,
            phase: Phase::Header,
            buf: Vec::new(),
            read_header: false,
            err: None,
            decoder: new_decoder(),
        };
        assert forall|rest: Seq<u8>| #[trigger] r.upcoming(rest) == decoded(rest, false) by {
            assert(r.buf@ + rest =~= rest);
            assert(r.pending() + decoded(rest, false).0 =~= decoded(rest, false).0);
        }
        r
    }

    /// Hands out at most `max` bytes of decoded data, reports the end, or asks for more bytes.
    pub fn read(&mut self, max: usize) -> (step: ReadStep)
        requires
            old(self).wf(),
        ensures
            final(self).wf(),
            final(self).ended() == old(self).ended(),
            match step {
                ReadStep::End => old(self).ended() == Some(Sticky::Eof) && *final(self) == *old(
                    self,
                ),
                ReadStep::Failed(e) => old(self).ended() == Some(e) && e !is Eof && *final(self)
                    == *old(self),
                ReadStep::Need(n) => {
                    &&& old(self).ended() is None
                    &&& old(self).pending().len() == 0
                    &&& n == old(self).missing()
                    &&& 0 < n
                    &&& *final(self) == *old(self)
                },
                ReadStep::Data(d) => {
                    let have = old(self).pending();
                    let n = if max < have.len() {
                        max as int
                    } else {
                        have.len() as int
                    };
                    &&& old(self).ended() is None
                    &&& have.len() > 0
                    &&& d@ == have.take(n)
                    &&& final(self).pending() == have.skip(n)
                    &&& forall|rest: Seq<u8>|
                        old(self).upcoming(rest) == after_data(
                            d@,
                            #[trigger] final(self).upcoming(rest),
                        )
                },
            },
    {
        if let Some(e) = &self.err {
            return match e {
                Sticky::Eof => ReadStep::End,
                other => ReadStep::Failed(other.copied()),
            };
        }
        if self.i >= self.decoded.len() {
            return ReadStep::Need(self.phase.needed() - self.buf.len());
        }
        let have: usize = self.decoded.len() - self.i;
        let n: usize = if max < have {
            max
        } else {
            have
        };
        let d = slice_to_vec(slice_subrange(self.decoded.as_slice(), self.i, self.i + n));
        self.i = self.i + n;
        proof {
            assert(d@ =~= old(self).pending().take(n as int));
            assert(self.pending() =~= old(self).pending().skip(n as int));
            assert forall|rest: Seq<u8>|
                old(self).upcoming(rest) == after_data(d@, #[trigger] self.upcoming(rest)) by {
                let more = self.phase.delivers(self.read_header, self.buf@ + rest).0;
                assert(old(self).pending() + more =~= d@ + (self.pending() + more));
            }
        }
        ReadStep::Data(d)
    }

    /// Takes bytes that have arrived, at most as many as the reader asked for.
    pub fn feed(&mut self, bytes: &[u8])
        requires
            old(self).wf(),
            old(self).ended() is None,
            old(self).pending().len() == 0,
            bytes.len() <= old(self).missing(),
        ensures
            final(self).wf(),
            forall|rest: Seq<u8>| #[trigger]
                final(self).upcoming(rest) == old(self).upcoming(bytes@ + rest),
            final(self).ended() matches Some(e) ==> e is Snappy,
    {
        self.buf.extend_from_slice(bytes);
        assert forall|rest: Seq<u8>| #[trigger]
            self.upcoming(rest) == old(self).upcoming(bytes@ + rest) by {
            assert(self.buf@ + rest =~= old(self).buf@ + (bytes@ + rest));
        }
        if self.buf.len() == self.phase.needed() {
            self.complete();
            // An empty part is complete as soon as it is reached.
            if self.err.is_none() && self.buf.len() == self.phase.needed() {
                self.complete();
            }
        }
    }

    /// The connection has ended: cleanly at a chunk boundary, and as corrupt input anywhere else.
    pub fn feed_end(&mut self)
        requires
            old(self).wf(),
            old(self).ended() is None,
            old(self).pending().len() == 0,
        ensures
            final(self).wf(),
            final(self).ended() == Some(
                if old(self).at_boundary() {
                    Sticky::Eof
                } else {
                    Sticky::Snappy(Error::Corrupt)
                },
            ),
            final(self).pending().len() == 0,
            forall|rest: Seq<u8>| #[trigger]
                final(self).upcoming(rest) == old(self).upcoming(Seq::empty()),
    {
        proof {
            assert(self.buf@ + Seq::<u8>::empty() =~= self.buf@);
            let end = self.phase.delivers(self.read_header, self.buf@);
            assert(self.pending() + end.0 =~= end.0);
            if let Phase::Stored { sum, n } = self.phase {
                lemma_le_round_trip(sum as int, 4);
            }
        }
        let e = match self.phase {
            Phase::Header => if self.buf.len() == 0 {
                Sticky::Eof
            } else {
                Sticky::Snappy(Error::Corrupt)
            },
            _ => Sticky::Snappy(Error::Corrupt),
        };
        self.err = Some(e);
    }

    /// The connection has failed.
    pub fn feed_error(&mut self, kind: std::io::ErrorKind, text: String)
        requires
            old(self).wf(),
            old(self).ended() is None,
            old(self).pending().len() == 0,
        ensures
            final(self).wf(),
            final(self).ended() == Some(Sticky::Io(kind, text)),
            final(self).pending().len() == 0,
    {
        self.err = Some(Sticky::Io(kind, text));
    }

    /// The stream is at fault.
    fn reject(&mut self, e: Error)
        requires
            old(self).i <= old(self).decoded@.len(),
            old(self).pending().len() == 0,
            old(self).phase.valid(),
            old(self).phase !is Header ==> old(self).read_header,
        ensures
            final(self).wf(),
            final(self).ended() == Some(Sticky::Snappy(e)),
            forall|rest: Seq<u8>| #[trigger] final(self).upcoming(rest) == fault(e),
    {
        self.buf.clear();
        self.err = Some(Sticky::Snappy(e));
    }

    /// The part of a chunk that was being collected is complete.
    fn complete(&mut self)
        requires
            old(self).i <= old(self).decoded@.len(),
            old(self).phase.valid(),
            old(self).phase !is Header ==> old(self).read_header,
            old(self).pending().len() == 0,
            old(self).err is None,
            old(self).buf@.len() == old(self).phase.need(),
        ensures
            final(self).wf_open(),
            final(self).err matches Some(e) ==> e is Snappy,
            final(self).err is None && final(self).buf@.len() == final(self).phase.need() ==> (
            final(self).phase.need() == 0 && final(self).pending().len() == 0),
            old(self).phase.need() == 0 ==> final(self).wf(),
            forall|rest: Seq<u8>| #[trigger]
                final(self).upcoming(rest) == old(self).upcoming(rest),
    {
        let ghost part = self.buf@;
        match self.phase {
            Phase::Header => self.complete_header(),
            Phase::Compressed { len } => self.complete_compressed(len),
            Phase::Sum { len } => self.complete_sum(len),
            Phase::Stored { sum, n } => self.complete_stored(sum, n),
            Phase::Identifier => self.complete_identifier(),
            Phase::Skip { len } => {
                self.buf.clear();
                self.phase = Phase::Header;
                proof {
                    assert forall|rest: Seq<u8>| #[trigger]
                        self.upcoming(rest) == old(self).upcoming(rest) by {
                        assert((part + rest).skip(len as int) =~= rest);
                        assert(self.buf@ + rest =~= rest);
                    }
                }
            },
        }
    }

    fn complete_header(&mut self)
        requires
            old(self).i <= old(self).decoded@.len(),
            old(self).phase is Header,
            old(self).pending().len() == 0,
            old(self).err is None,
            old(self).buf@.len() == 4,
        ensures
            final(self).wf_open(),
            final(self).err matches Some(e) ==> e is Snappy,
            final(self).err is None && final(self).buf@.len() == final(self).phase.need() ==> (
            final(self).phase.need() == 0 && final(self).pending().len() == 0),
            forall|rest: Seq<u8>| #[trigger]
                final(self).upcoming(rest) == old(self).upcoming(rest),
    {
        let ghost part = self.buf@;
        let chunk_type = self.buf[0];
        let chunk_len = le_number(slice_subrange(self.buf.as_slice(), 1, 4)) as usize;
        proof {
            assert forall|rest: Seq<u8>| #[trigger]
                old(self).upcoming(rest) == (if !self.read_header && chunk_type
                    != CHUNK_TYPE_STREAM_IDENTIFIER {
                    fault(Error::Corrupt)
                } else {
                    after_header(chunk_type, chunk_len as int, rest)
                }) by {
                assert((part + rest).skip(4) =~= rest);
                assert((part + rest).subrange(1, 4) =~= part.subrange(1, 4));
                let more = decoded(part + rest, self.read_header).0;
                assert(old(self).pending() + more =~= more);
            }
        }
        if !self.read_header {
            if chunk_type != CHUNK_TYPE_STREAM_IDENTIFIER {
                return self.reject(Error::Corrupt);
            }
            self.read_header = true;
        }
        if chunk_len > RBUF_LEN {
            return self.reject(Error::Unsupported);
        }
        let next = if chunk_type == CHUNK_TYPE_COMPRESSED_DATA {
            if chunk_len < CHECKSUM_SIZE {
                return self.reject(Error::Corrupt);
            }
            Phase::Compressed { len: chunk_len }
        } else if chunk_type == CHUNK_TYPE_UNCOMPRESSED_DATA {
            if chunk_len < CHECKSUM_SIZE {
                return self.reject(Error::Corrupt);
            }
            Phase::Sum { len: chunk_len }
        } else if chunk_type == CHUNK_TYPE_STREAM_IDENTIFIER {
            if chunk_len != 6 {
                return self.reject(Error::Corrupt);
            }
            Phase::Identifier
        } else if chunk_type <= CHUNK_TYPE_MAX_UNSKIPPABLE {
            return self.reject(Error::Unsupported);
        } else {
            Phase::Skip { len: chunk_len }
        };
        self.phase = next;
        self.buf.clear();
        proof {
            assert forall|rest: Seq<u8>| #[trigger]
                self.upcoming(rest) == old(self).upcoming(rest) by {
                assert(self.buf@ + rest =~= rest);
                let more = self.phase.delivers(true, rest).0;
                assert(self.pending() + more =~= more);
            }
        }
    }

    fn complete_sum(&mut self, len: usize)
        requires
            old(self).i <= old(self).decoded@.len(),
            old(self).phase == (Phase::Sum { len }),
            4 <= len <= RBUF_LEN,
            old(self).read_header,
            old(self).pending().len() == 0,
            old(self).err is None,
            old(self).buf@.len() == 4,
        ensures
            final(self).wf_open(),
            final(self).err matches Some(e) ==> e is Snappy,
            final(self).err is None && final(self).buf@.len() == final(self).phase.need() ==> (
            final(self).phase.need() == 0 && final(self).pending().len() == 0),
            forall|rest: Seq<u8>| #[trigger]
                final(self).upcoming(rest) == old(self).upcoming(rest),
    {
        let ghost part = self.buf@;
        let sum = le_number(self.buf.as_slice());
        let n: usize = len - CHECKSUM_SIZE;
        proof {
            lemma_le_bytes(part);
            assert forall|rest: Seq<u8>| #[trigger]
                old(self).upcoming(rest) == after_header(
                    CHUNK_TYPE_UNCOMPRESSED_DATA,
                    n + 4,
                    le_bytes(sum as int, 4) + rest,
                ) by {
                let more = after_header(
                    CHUNK_TYPE_UNCOMPRESSED_DATA,
                    n + 4,
                    le_bytes(sum as int, 4) + rest,
                ).0;
                assert(old(self).pending() + more =~= more);
            }
        }
        if n > MAX_BLOCK_SIZE {
            return self.reject(Error::Corrupt);
        }
        self.phase = Phase::Stored { sum, n };
        self.buf.clear();
        proof {
            assert forall|rest: Seq<u8>| #[trigger]
                self.upcoming(rest) == old(self).upcoming(rest) by {
                assert(self.buf@ + rest =~= rest);
                let more = self.phase.delivers(true, rest).0;
                assert(self.pending() + more =~= more);
            }
        }
    }

    fn complete_stored(&mut self, sum: u32, n: usize)
        requires
            old(self).i <= old(self).decoded@.len(),
            old(self).phase == (Phase::Stored { sum, n }),
            n <= MAX_BLOCK_SIZE,
            old(self).read_header,
            old(self).pending().len() == 0,
            old(self).err is None,
            old(self).buf@.len() == n,
        ensures
            final(self).wf(),
            final(self).err matches Some(e) ==> e is Snappy,
            forall|rest: Seq<u8>| #[trigger]
                final(self).upcoming(rest) == old(self).upcoming(rest),
    {
        let ghost part = self.buf@;
        let ghost body = le_bytes(sum as int, 4) + part;
        proof {
            lemma_le_round_trip(sum as int, 4);
            assert forall|rest: Seq<u8>| #[trigger]
                old(self).upcoming(rest) == (if masked_crc(part) == sum {
                    after_data(part, decoded(rest, true))
                } else {
                    fault(Error::Corrupt)
                }) by {
                let s = le_bytes(sum as int, 4) + (part + rest);
                assert(s.take(n + 4) =~= body);
                assert(s.skip(n + 4) =~= rest);
                assert(body.take(4) =~= le_bytes(sum as int, 4));
                assert(body.skip(4) =~= part);
                let more = self.phase.delivers(true, part + rest).0;
                assert(old(self).pending() + more =~= more);
            }
        }
        let mut data: Vec<u8> = Vec::new();
        std::mem::swap(&mut data, &mut self.buf);
        let computed = crc(data.as_slice());
        match checked(data, computed, sum) {
            Ok(data) => self.accept(data),
            Err(e) => self.reject(e),
        }
    }

    /// Data have been decoded, and the next chunk is awaited.
    fn accept(&mut self, data: Vec<u8>)
        requires
            old(self).read_header,
            old(self).err is None,
        ensures
            final(self).wf(),
            final(self).err is None,
            final(self).pending() == data@,
            final(self).at_boundary(),
            final(self).read_header,
            forall|rest: Seq<u8>| #[trigger]
                final(self).upcoming(rest) == after_data(data@, decoded(rest, true)),
    {
        self.decoded = data;
        self.i = 0;
        self.phase = Phase::Header;
        self.buf.clear();
        proof {
            assert(self.pending() =~= data@);
            assert forall|rest: Seq<u8>| #[trigger]
                self.upcoming(rest) == after_data(data@, decoded(rest, true)) by {
                assert(self.buf@ + rest =~= rest);
            }
        }
    }

    fn complete_compressed(&mut self, len: usize)
        requires
            old(self).i <= old(self).decoded@.len(),
            old(self).phase == (Phase::Compressed { len }),
            4 <= len <= RBUF_LEN,
            old(self).read_header,
            old(self).pending().len() == 0,
            old(self).err is None,
            old(self).buf@.len() == len,
        ensures
            final(self).wf(),
            final(self).err matches Some(e) ==> e is Snappy,
            forall|rest: Seq<u8>| #[trigger]
                final(self).upcoming(rest) == old(self).upcoming(rest),
    {
        let ghost part = self.buf@;
        proof {
            assert forall|rest: Seq<u8>| #[trigger]
                old(self).upcoming(rest) == (match chunk_data(CHUNK_TYPE_COMPRESSED_DATA, part) {
                    Ok(d) => after_data(d, decoded(rest, true)),
                    Err(e) => fault(e),
                }) by {
                assert((part + rest).take(len as int) =~= part);
                assert((part + rest).skip(len as int) =~= rest);
                let more = self.phase.delivers(true, part + rest).0;
                assert(old(self).pending() + more =~= more);
            }
        }
        let checksum = le_number(slice_subrange(self.buf.as_slice(), 0, 4));
        let block = slice_subrange(self.buf.as_slice(), 4, len);
        assert(part.subrange(0, 4) =~= part.take(4));
        assert(block@ =~= part.skip(4));
        match decode_block(&mut self.decoder, block) {
            Err(e) => self.reject(e),
            Ok(data) => {
                let computed = crc(data.as_slice());
                match checked(data, computed, checksum) {
                    Ok(data) => self.accept(data),
                    Err(e) => self.reject(e),
                }
            },
        }
    }

    fn complete_identifier(&mut self)
        requires
            old(self).i <= old(self).decoded@.len(),
            old(self).phase is Identifier,
            old(self).read_header,
            old(self).pending().len() == 0,
            old(self).err is None,
            old(self).buf@.len() == 6,
        ensures
            final(self).wf(),
            final(self).err matches Some(e) ==> e is Snappy,
            forall|rest: Seq<u8>| #[trigger]
                final(self).upcoming(rest) == old(self).upcoming(rest),
    {
        let ghost part = self.buf@;
        proof {
            assert forall|rest: Seq<u8>| #[trigger]
                old(self).upcoming(rest) == (if part == magic_body() {
                    decoded(rest, true)
                } else {
                    fault(Error::Corrupt)
                }) by {
                assert((part + rest).take(6) =~= part);
                assert((part + rest).skip(6) =~= rest);
                let more = self.phase.delivers(true, part + rest).0;
                assert(old(self).pending() + more =~= more);
            }
        }
        let same = self.buf[0] == 0x73 && self.buf[1] == 0x4e && self.buf[2] == 0x61 && self.buf[3]
            == 0x50 && self.buf[4] == 0x70 && self.buf[5] == 0x59;
        if !same {
            assert(part != magic_body());
            return self.reject(Error::Corrupt);
        }
        assert(part =~= magic_body());
        self.phase = Phase::Header;
        self.buf.clear();
        proof {
            assert forall|rest: Seq<u8>| #[trigger]
                self.upcoming(rest) == old(self).upcoming(rest) by {
                assert(self.buf@ + rest =~= rest);
                let more = decoded(rest, true).0;
                assert(self.pending() + more =~= more);
            }
        }
    }
}

/// The length that a block decodes to and the number of bytes that its length takes.
pub fn decoded_len(src: &[u8]) -> (r: Result<(usize, usize), Error>)
    ensures
        ({
            let (v, n) = uvarint_of(src@);
            if n <= 0 || v > 0xffff_ffff {
                r == Err::<(usize, usize), Error>(Error::Corrupt)
            } else if usize::BITS == 32 && v > 0x7fff_ffff {
                r == Err::<(usize, usize), Error>(Error::TooLarge)
            } else {
                r is Ok && r->Ok_0.0 == v && r->Ok_0.1 == n
            }
        }),
{
    let (v, n) = uvarint(src);
    if n <= 0 || v > 0xffff_ffff {
        return Err(Error::Corrupt);
    }
    if usize::BITS == 32 && v > 0x7fff_ffff {
        return Err(Error::TooLarge);
    }
    Ok((v as usize, n as usize))
}

/// Decodes a block. The length at its start is rewritten in as few bytes as possible, because the
/// decompressor refuses one that takes more than five.
fn decode_block(decoder: &mut snap::raw::Decoder, block: &[u8]) -> (r: Result<Vec<u8>, Error>)
    ensures
        match r {
            Ok(d) => block_data(block@) == Ok::<Seq<u8>, Error>(d@),
            Err(e) => block_data(block@) == Err::<Seq<u8>, Error>(e),
        },
{
    proof {
        lemma_varint_end(block@, 0);
    }
    let (n, header_len) = match decoded_len(block) {
        Ok(x) => x,
        Err(e) => {
            return Err(e);
        },
    };
    if n > MAX_BLOCK_SIZE {
        return Err(Error::Corrupt);
    }
    let mut canonical = put_uvarint(n as u64);
    let tail = slice_subrange(block, header_len, block.len());
    proof {
        varint_round_trip(n as u64, tail@);
        assert(tail@ =~= block@.skip(header_len as int));
    }
    canonical.extend_from_slice(tail);
    assert(canonical@ =~= varint(n as nat) + block@.skip(header_len as int));
    match decompress(decoder, canonical.as_slice()) {
        Some(d) => Ok(d),
        None => Err(Error::Corrupt),
    }
}

/// A connection whose writes are compressed and whose reads are decompressed. The connection
/// itself is not touched: the frames of [`Writer`] are to be written to it, and the bytes read
/// from it to be fed to [`Reader`].
pub struct CompStream<C> {
    /// The connection the framed stream runs over.
    pub conn: C,
    /// Write state.
    pub w: Writer,
    /// Read state.
    pub r: Reader,
}

impl<C> CompStream<C> {
    /// Wraps `conn`. Nothing is to be written until the first write.
    pub fn new(conn: C) -> (s: CompStream<C>)
        ensures
            s.conn == conn,
            !s.w.started(),
            s.w.failed() is None,
            s.r.wf(),
            s.r.ended() is None,
            s.r.pending().len() == 0,
            forall|rest: Seq<u8>| #[trigger] s.r.upcoming(rest) == decoded(rest, false),
    {
        CompStream { conn, w: Writer::new(), r: Reader::new() }
    }

    /// The connection below the compression.
    pub fn inner(&self) -> (c: &C)
        ensures
            *c == self.conn,
    {
        &self.conn
    }
}

/// The snappy block of some bytes, made with an encoder of its own.
pub(crate) fn block_of(data: &[u8]) -> (block: Vec<u8>)
    requires
        data.len() <= MAX_BLOCK_SIZE,
    ensures
        block@ == snappy_block(data@),
        block@.len() <= 32 + data.len() + data.len() / 6,
{
    let mut encoder = new_encoder();
    match compress(&mut encoder, data) {
        Some(block) => block,
        None => Vec::new(),
    }
}

// ---------------------------------------------------------------------------------------
// The bytes on the wire
// ---------------------------------------------------------------------------------------
/// The rotation by 15 bits, as arithmetic.
proof fn lemma_mask(c: u32)
    ensures
        mask(c) == (c as int / 0x8000 + (c as int % 0x8000) * 0x2_0000 + 0xa282_ead8)
            % 0x1_0000_0000,
{
    assert(((c >> 15u32) | (c << 17u32)) == c / 0x8000u32 + (c % 0x8000u32) * 0x2_0000u32)
        by (bit_vector);
}

/// The numbers of a chunk, byte by byte.
proof fn lemma_chunk_numbers(s: Seq<u8>)
    requires
        s.len() >= 4,
    ensures
        le_value(s.subrange(1, 4)) == s[1] + 0x100 * s[2] + 0x1_0000 * s[3],
        le_value(s.take(4)) == s[0] + 0x100 * s[1] + 0x1_0000 * s[2] + 0x100_0000 * s[3],
{
    reveal_with_fuel(le_value, 5);
    let a = s.subrange(1, 4);
    assert(a.skip(1).skip(1)[0] == s[3]);
    assert(a.skip(1)[0] == s[2]);
    let b = s.take(4);
    assert(b.skip(1)[0] == s[1]);
    assert(b.skip(1).skip(1)[0] == s[2]);
    assert(b.skip(1).skip(1).skip(1)[0] == s[3]);
}

/// The checksum of some bytes is the CRC-32C of all of them, rotated right by 15 bits, plus
/// 0xa282ead8.
pub proof fn a_checksum_covers_everything(b: &[u8], sum: u32)
    requires
        call_ensures(crc, (b,), sum),
    ensures
        ({
            let c = crc32c_of(b@) as int;
            sum == (c / 0x8000 + (c % 0x8000) * 0x2_0000 + 0xa282_ead8) % 0x1_0000_0000
        }),
{
    lemma_mask(crc32c_of(b@));
}

/// The chunk that carries some data, byte by byte: its type, which says whether the block is at least
/// an eighth shorter than the data; how many bytes follow, low byte first; the CRC-32C of all the
/// data, rotated right by 15 bits, plus 0xa282ead8, low byte first; and then the block or the data.
pub proof fn a_chunk_on_the_wire(data: Seq<u8>)
    requires
        data.len() <= 65536,
    ensures
        ({
            let s = data_chunk(data);
            let block = snappy_block(data);
            let c = crc32c_of(data) as int;
            let compressed = block.len() < data.len() - data.len() as int / 8;
            &&& s[0] == (if compressed {
                0x00u8
            } else {
                0x01u8
            })
            &&& s[1] + 0x100 * s[2] + 0x1_0000 * s[3] == s.len() - 4
            &&& s[4] + 0x100 * s[5] + 0x1_0000 * s[6] + 0x100_0000 * s[7] == (c / 0x8000 + (c % 0x8000) * 0x2_0000 + 0xa282_ead8) % 0x1_0000_0000
            &&& s.len() >= 8
            &&& s.skip(8) == (if compressed {
                block
            } else {
                data
            })
        }),
{
    let c = crc32c_of(data);
    lemma_mask(c);
    let sum = le_bytes(masked_crc(data) as int, 4);
    lemma_le_round_trip(masked_crc(data) as int, 4);
    let s = data_chunk(data);
    let n = data.len() as int;
    let stored = snappy_block(data).len() >= n - n / 8;
    let tail = if stored {
        data
    } else {
        snappy_block(data)
    };
    let body = sum + tail;
    let t = if stored {
        CHUNK_TYPE_UNCOMPRESSED_DATA
    } else {
        CHUNK_TYPE_COMPRESSED_DATA
    };
    assert(s == chunk(t, body));
    lemma_header(t, body, Seq::empty());
    assert(s + Seq::<u8>::empty() =~= s);
    assert(body + Seq::<u8>::empty() =~= body);
    lemma_chunk_numbers(s);
    lemma_chunk_numbers(s.skip(4));
    assert(s.skip(4).take(4) =~= sum);
    assert(s.skip(8) =~= tail);
}

/// A reader delivers the data of a stored chunk, whatever follows it, if and only if the checksum
/// that the chunk states is that of everything it delivers; if not, the stream is corrupt.
pub proof fn a_stored_chunk_is_delivered_if_its_checksum_is_right(s: Seq<u8>)
    requires
        s.len() >= 8,
        s[0] == 0x01,
        4 <= s[1] + 0x100 * s[2] + 0x1_0000 * s[3] <= 65540,
        s.len() >= 4 + s[1] + 0x100 * s[2] + 0x1_0000 * s[3],
    ensures
        ({
            let end = 4 + s[1] + 0x100 * s[2] + 0x1_0000 * s[3];
            let data = s.subrange(8, end);
            let c = crc32c_of(data) as int;
            let stated = s[4] + 0x100 * s[5] + 0x1_0000 * s[6] + 0x100_0000 * s[7];
            let more = decoded(s.skip(end), true);
            decoded(s, true) == (if stated == (c / 0x8000 + (c % 0x8000) * 0x2_0000 + 0xa282_ead8) % 0x1_0000_0000 {
                (data + more.0, more.1)
            } else {
                (Seq::empty(), Sticky::Snappy(Error::Corrupt))
            })
        }),
{
    let end = 4 + s[1] + 0x100 * s[2] + 0x1_0000 * s[3];
    let data = s.subrange(8, end);
    lemma_mask(crc32c_of(data));
    lemma_chunk_numbers(s);
    lemma_chunk_numbers(s.skip(4));
    let rest = s.skip(4);
    let body = rest.take(end - 4);
    assert(body.take(4) =~= rest.take(4));
    assert(body.skip(4) =~= data);
    assert(rest.skip(end - 4) =~= s.skip(end));
}

/// The same for a compressed chunk, whose checksum is that of what its block decodes to. A block that
/// does not decode is reported as its fault.
pub proof fn a_compressed_chunk_is_delivered_if_its_checksum_is_right(s: Seq<u8>)
    requires
        s.len() >= 8,
        s[0] == 0x00,
        4 <= s[1] + 0x100 * s[2] + 0x1_0000 * s[3] <= 76494,
        s.len() >= 4 + s[1] + 0x100 * s[2] + 0x1_0000 * s[3],
    ensures
        ({
            let end = 4 + s[1] + 0x100 * s[2] + 0x1_0000 * s[3];
            let stated = s[4] + 0x100 * s[5] + 0x1_0000 * s[6] + 0x100_0000 * s[7];
            let more = decoded(s.skip(end), true);
            decoded(s, true) == (match block_data(s.subrange(8, end)) {
                Ok(data) => {
                    let c = crc32c_of(data) as int;
                    if stated == (c / 0x8000 + (c % 0x8000) * 0x2_0000 + 0xa282_ead8) % 0x1_0000_0000 {
                        (data + more.0, more.1)
                    } else {
                        (Seq::empty(), Sticky::Snappy(Error::Corrupt))
                    }
                },
                Err(e) => (Seq::empty(), Sticky::Snappy(e)),
            })
        }),
{
    let end = 4 + s[1] + 0x100 * s[2] + 0x1_0000 * s[3];
    let block = s.subrange(8, end);
    if let Ok(data) = block_data(block) {
        lemma_mask(crc32c_of(data));
    }
    lemma_chunk_numbers(s);
    lemma_chunk_numbers(s.skip(4));
    let rest = s.skip(4);
    let body = rest.take(end - 4);
    assert(body.take(4) =~= rest.take(4));
    assert(body.skip(4) =~= block);
    assert(rest.skip(end - 4) =~= s.skip(end));
}

/// A block says first how many bytes it decodes to. Up to 64 KiB it is the decompressor that decides;
/// a block that promises more is corrupt.
pub proof fn a_block_holds_at_most_64_kib(n: u64, tail: Seq<u8>)
    ensures
        n <= 65536 ==> block_data(varint(n as nat) + tail) == (match snappy_unblock(
            varint(n as nat) + tail,
        ) {
            Some(d) => Ok::<Seq<u8>, Error>(d),
            None => Err(Error::Corrupt),
        }),
        65536 < n <= 0x7fff_ffff || n > 0xffff_ffff ==> block_data(varint(n as nat) + tail) == Err::<
            Seq<u8>,
            Error,
        >(Error::Corrupt),
{
    varint_round_trip(n, tail);
    let b = varint(n as nat) + tail;
    assert(b.skip(varint(n as nat).len() as int) =~= tail);
}

/// What a reader makes of a chunk that carries no data, and of one that is cut short: a stream may
/// end between two chunks and nowhere else; it begins with its identifier, which may come again; a
/// longer chunk than 76494 bytes and the types 0x02 to 0x7f are unsupported; and the types 0x80 to
/// 0xfe are skipped with all their bytes.
pub proof fn a_chunk_without_data_is_skipped_or_refused(s: Seq<u8>, seen: bool)
    ensures
        ({
            let len = s[1] + 0x100 * s[2] + 0x1_0000 * s[3];
            let corrupt = (Seq::<u8>::empty(), Sticky::Snappy(Error::Corrupt));
            let unsupported = (Seq::<u8>::empty(), Sticky::Snappy(Error::Unsupported));
            let r = decoded(s, seen);
            if s.len() == 0 {
                r == (Seq::<u8>::empty(), Sticky::Eof)
            } else if s.len() < 4 || (!seen && s[0] != 0xff) {
                r == corrupt
            } else if len > 76494 {
                r == unsupported
            } else if s[0] == 0xff {
                let head = seq![0xffu8, 0x06, 0x00, 0x00, 0x73, 0x4e, 0x61, 0x50, 0x70, 0x59];
                r == (if head.is_prefix_of(s) {
                    decoded(s.skip(10), true)
                } else {
                    corrupt
                })
            } else if s[0] >= 0x80 {
                r == (if s.len() >= 4 + len {
                    decoded(s.skip(4 + len), true)
                } else {
                    corrupt
                })
            } else if s[0] >= 0x02 {
                r == unsupported
            } else {
                len < 4 || s.len() < 4 + len || (s[0] == 0x01 && len > 65540) ==> r == corrupt
            }
        }),
{
    if s.len() >= 4 {
        lemma_chunk_numbers(s);
        let len = s[1] + 0x100 * s[2] + 0x1_0000 * s[3];
        if s.len() >= 4 + len {
            assert(s.skip(4).skip(len) =~= s.skip(4 + len));
        }
        if s[0] == 0xff {
            let head = seq![0xffu8, 0x06, 0x00, 0x00, 0x73, 0x4e, 0x61, 0x50, 0x70, 0x59];
            if head.is_prefix_of(s) {
                assert(s.take(10) =~= head);
                assert(head[0] == s.take(10)[0] && head[1] == s[1] && head[2] == s[2] && head[3] == s[3]);
                assert(s.skip(4).take(6) =~= magic_body()) by {
                    assert forall|k: int| 0 <= k < 6 implies s.skip(4).take(6)[k] == magic_body()[k] by {
                        assert(s.take(10)[k + 4] == head[k + 4]);
                    }
                }
                assert(s.skip(4).skip(6) =~= s.skip(10));
            } else if len == 6 && s.len() >= 10 && s.skip(4).take(6) =~= magic_body() {
                assert(s.take(10) =~= head) by {
                    assert forall|k: int| 4 <= k < 10 implies s[k] == head[k] by {
                        assert(s.skip(4).take(6)[k - 4] == magic_body()[k - 4]);
                    }
                }
                assert(false);
            }
        }
    }
}

/// A write is cut every 64 KiB, and only the first frame of a stream begins with the stream
/// identifier.
pub proof fn a_write_is_cut_every_64_kib(p: Seq<u8>, seen: bool, i: int)
    ensures
        frames_of(p, seen).len() == (p.len() as int + 65535) / 65536,
        0 <= i < frames_of(p, seen).len() ==> frames_of(p, seen)[i] == (if seen || i > 0 {
            Seq::<u8>::empty()
        } else {
            seq![0xffu8, 0x06, 0x00, 0x00, 0x73, 0x4e, 0x61, 0x50, 0x70, 0x59]
        }) + data_chunk(
            p.subrange(
                i * 65536,
                if i * 65536 + 65536 < p.len() {
                    i * 65536 + 65536
                } else {
                    p.len() as int
                },
            ),
        ),
    decreases p.len(),
{
    if p.len() > 0 {
        let n = if p.len() < 65536 {
            p.len() as int
        } else {
            65536int
        };
        let left = p.skip(n);
        a_write_is_cut_every_64_kib(left, true, i - 1);
        let last = if i * 65536 + 65536 < p.len() {
            i * 65536 + 65536
        } else {
            p.len() as int
        };
        if i == 0 {
            assert(p.take(n) =~= p.subrange(0, last));
        } else if 0 < i < frames_of(p, seen).len() {
            assert(left.subrange((i - 1) * 65536, last - n) =~= p.subrange(i * 65536, last));
            assert(frames_of(p, seen)[i] == frames_of(left, true)[i - 1]);
        }
    }
}

/// A chunk that is built of some data, their block and a checksum: the type, the number of bytes that
/// follow, the checksum as it was given, and the block if it is at least an eighth shorter than the
/// data, or else the data.
pub proof fn a_built_chunk_on_the_wire(data: &[u8], block: &[u8], checksum: u32, c: Vec<u8>)
    requires
        data@.len() <= 65536,
        block@.len() <= 76490,
        call_ensures(build_chunk, (data, block, checksum), c),
    ensures
        ({
            let s = c@;
            let compressed = block@.len() < data@.len() - data@.len() as int / 8;
            let body = if compressed {
                block@
            } else {
                data@
            };
            &&& s.len() == body.len() + 8
            &&& s[0] == (if compressed {
                0x00u8
            } else {
                0x01u8
            })
            &&& s[1] + 0x100 * s[2] + 0x1_0000 * s[3] == body.len() + 4
            &&& s[4] + 0x100 * s[5] + 0x1_0000 * s[6] + 0x100_0000 * s[7] == checksum
            &&& s.skip(8) == body
        }),
{
    let sum = le_bytes(checksum as int, 4);
    lemma_le_round_trip(checksum as int, 4);
    let s = c@;
    let n = data@.len() as int;
    let stored = block@.len() >= n - n / 8;
    let tail = if stored {
        data@
    } else {
        block@
    };
    let body = sum + tail;
    let t = if stored {
        CHUNK_TYPE_UNCOMPRESSED_DATA
    } else {
        CHUNK_TYPE_COMPRESSED_DATA
    };
    assert(s == chunk(t, body));
    lemma_header(t, body, Seq::empty());
    assert(s + Seq::<u8>::empty() =~= s);
    assert(body + Seq::<u8>::empty() =~= body);
    lemma_chunk_numbers(s);
    lemma_chunk_numbers(s.skip(4));
    assert(s.skip(4).take(4) =~= sum);
    assert(s.skip(8) =~= tail);
}

/// What the first byte of a varint holds, and where the varint ends.
proof fn lemma_varint_bytes(v: nat)
    ensures
        varint(v).len() >= 1,
        varint(v)[0] as int % 128 == v % 128,
        varint(v).last() < 128,
        forall|i: int| 0 <= i < varint(v).len() - 1 ==> #[trigger] varint(v)[i] >= 128,
    decreases v,
{
    if v >= 128 {
        lemma_varint_bytes(v / 128);
        let s = varint(v);
        let t = varint(v / 128);
        assert(s[0] == v % 128 + 128);
        assert(s.last() == t.last());
        assert forall|i: int| 0 <= i < s.len() - 1 implies #[trigger] s[i] >= 128 by {
            if i > 0 {
                assert(s[i] == t[i - 1]);
            }
        }
    }
}

/// A number that is written as a varint is read back, whatever follows it, and takes as many bytes as
/// were written: seven bits to a byte, the lowest first, each byte but the last with its top bit set.
pub proof fn a_written_varint_reads_back(v: u64, out: Vec<u8>, src: &[u8], tail: Seq<u8>, r: (u64, isize))
    requires
        call_ensures(put_uvarint, (v,), out),
        src@ == out@ + tail,
        call_ensures(uvarint, (src,), r),
    ensures
        r.0 == v,
        r.1 == out@.len(),
        out@.len() >= 1,
        out@[0] as int % 128 == v as int % 128,
        out@.last() < 128,
        forall|i: int| 0 <= i < out@.len() - 1 ==> #[trigger] out@[i] >= 128,
        out@.len() > 1 ==> out@.skip(1) == varint((v / 128) as nat),
        out@.len() == 1 <==> v < 128,
{
    varint_round_trip(v, tail);
    lemma_varint_bytes(v as nat);
    if v >= 128 {
        assert(varint(v as nat).skip(1) =~= varint((v / 128) as nat));
        lemma_varint_bytes((v / 128) as nat);
    }
}

proof fn lemma_no_end(s: Seq<u8>, i: int)
    requires
        0 <= i <= s.len(),
        forall|k: int| 0 <= k < s.len() ==> #[trigger] s[k] >= 128,
    ensures
        varint_end(s, i) == s.len(),
    decreases s.len() - i,
{
    if i < s.len() {
        assert(s[i] >= 128);
        lemma_no_end(s, i + 1);
    }
}

/// A varint that does not end is incomplete up to ten bytes, and too large beyond. A block that begins
/// with one, or with none at all, is corrupt; one that begins with the number of its bytes has that
/// length, as long as it fits in 31 bits, and is corrupt if it does not fit in 32.
pub proof fn a_block_begins_with_its_length(
    src: &[u8],
    v: u64,
    tail: Seq<u8>,
    r: (u64, isize),
    len: Result<(usize, usize), Error>,
)
    requires
        call_ensures(uvarint, (src,), r),
        call_ensures(decoded_len, (src,), len),
    ensures
        (forall|k: int| 0 <= k < src@.len() ==> #[trigger] src@[k] >= 128) ==> {
            &&& src@.len() <= 10 ==> r.0 == 0 && r.1 == 0
            &&& src@.len() > 10 ==> r.0 == 0 && r.1 < 0
            &&& len == Err::<(usize, usize), Error>(Error::Corrupt)
        },
        src@ == varint(v as nat) + tail && v <= 0x7fff_ffff ==> (len matches Ok(p) && p.0 == v && p.1
            == varint(v as nat).len()),
        src@ == varint(v as nat) + tail && v > 0xffff_ffff ==> len == Err::<(usize, usize), Error>(
            Error::Corrupt,
        ),
{
    varint_round_trip(v, tail);
    if forall|k: int| 0 <= k < src@.len() ==> #[trigger] src@[k] >= 128 {
        lemma_no_end(src@, 0);
    }
}

} // verus!
