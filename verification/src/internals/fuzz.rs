//! The snappy reader harness: an arbitrary byte string is read as if the peer had sent it.
//!
//! # Input format
//!
//! Two selector bytes, then the framed stream:
//!
//! - byte 0:
//!   - bit 7: prepend the stream identifier chunk, so that an input reaches the chunk loop without
//!     carrying the ten magic bytes itself;
//!   - bits 0-6: how much one read of the connection hands to the reader, or everything that is
//!     left when they are zero. Small values make a chunk arrive in pieces;
//! - byte 1: the buffer that the caller reads into, `1 + b` bytes (1-256), so that decoded bytes
//!   have to be served across several reads.
use vstd::prelude::*;
use vstd::slice::slice_subrange;

use crate::comp::{
    after_data, block_of, chunk, crc, decoded, le_bytes, magic, magic_chunk, masked_crc, push_le,
    snappy_block, ReadStep, Reader, Sticky, MAX_BLOCK_SIZE,
};

verus! {

/// The two selector bytes, decoded.
#[derive(Clone, Copy, Debug, PartialEq, Eq)]
pub struct Selector {
    /// Whether a valid stream identifier chunk is put in front of the input.
    pub identifier: bool,
    /// Bytes that one read of the connection hands out, `None` for "everything that is left".
    pub chunk: Option<usize>,
    /// Size of the buffer that the caller reads into.
    pub read_buf: usize,
}

/// What the two selector bytes stand for.
pub open spec fn selector_of(sel: u8, read_buf: u8) -> Selector {
    Selector {
        identifier: sel >= 128,
        chunk: if sel % 128 == 0 {
            None
        } else {
            Some((sel % 128) as usize)
        },
        read_buf: (read_buf + 1) as usize,
    }
}

/// The two selector bytes for a selection.
pub open spec fn selector_bytes(identifier: bool, chunk: u8, read_buf: u8) -> Seq<u8> {
    seq![((if identifier { 128int } else { 0 }) + chunk % 128) as u8, read_buf]
}

impl Selector {
    /// Decodes the two selector bytes.
    pub fn decode(sel: u8, read_buf: u8) -> (s: Selector)
        ensures
            s == selector_of(sel, read_buf),
    {
        Selector {
            identifier: sel >= 128,
            chunk: if sel % 128 == 0 {
                None
            } else {
                Some((sel % 128) as usize)
            },
            read_buf: read_buf as usize + 1,
        }
    }

    /// Builds the two selector bytes back.
    pub fn encode(identifier: bool, chunk: u8, read_buf: u8) -> (b: [u8; 2])
        ensures
            b@ == selector_bytes(identifier, chunk, read_buf),
    {
        let sel: u8 = if identifier {
            128 + chunk % 128
        } else {
            chunk % 128
        };
        let b: [u8; 2] = [sel, read_buf];
        assert(b@ =~= selector_bytes(identifier, chunk, read_buf));
        b
    }
}

/// Decoding the selector bytes gives back what was encoded.
pub proof fn selector_round_trip(identifier: bool, chunk: u8, read_buf: u8)
    requires
        chunk < 128,
    ensures
        ({
            let b = selector_bytes(identifier, chunk, read_buf);
            let s = selector_of(b[0], b[1]);
            &&& b.len() == 2
            &&& s.identifier == identifier
            &&& s.chunk == (if chunk == 0 { None } else { Some(chunk as usize) })
            &&& s.read_buf == read_buf + 1
        }),
{
}

/// The stream that an input stands for.
pub open spec fn stream_of(data: Seq<u8>) -> Seq<u8> {
    (if selector_of(data[0], data[1]).identifier {
        magic_chunk()
    } else {
        Seq::empty()
    }) + data.skip(2)
}

/// Reads `data` as a framed snappy stream until it ends or fails: what was delivered, and how the
/// stream ended. However the bytes arrive and however they are read, that depends on the stream
/// alone. Nothing is read of an input that is shorter than the selector.
pub fn snappy_reader(data: &[u8]) -> (r: Option<(Vec<u8>, Sticky)>)
    ensures
        r is None <==> data.len() < 2,
        r matches Some(p) ==> (p.0@, p.1) == decoded(stream_of(data@), false),
{
    if data.len() < 2 {
        return None;
    }
    let selector = Selector::decode(data[0], data[1]);
    let mut framed: Vec<u8> = Vec::new();
    if selector.identifier {
        framed = magic();
    }
    framed.extend_from_slice(slice_subrange(data, 2, data.len()));
    assert(data@.subrange(2, data@.len() as int) =~= data@.skip(2));
    assert(framed@ =~= stream_of(data@));
    let ghost all = decoded(framed@, false);

    let mut reader = Reader::new();
    let mut out: Vec<u8> = Vec::new();
    let mut pos: usize = 0;
    assert(framed@.skip(0) =~= framed@);
    assert(out@ + all.0 =~= all.0);
    loop
        invariant
            reader.wf(),
            pos <= framed.len(),
            selector.read_buf >= 1,
            selector.chunk is Some ==> selector.chunk->0 >= 1,
            data.len() >= 2,
            all == decoded(stream_of(data@), false),
            after_data(out@, reader.upcoming(framed@.skip(pos as int))) == all,
        decreases
                (if reader.ended() is Some {
                    0int
                } else {
                    1
                }),
                framed.len() - pos,
                reader.pending().len(),
    {
        match reader.read(selector.read_buf) {
            ReadStep::Data(d) => {
                let ghost before = out@;
                out.extend_from_slice(d.as_slice());
                assert(out@ =~= before + d@);
                let ghost more = reader.upcoming(framed@.skip(pos as int));
                assert(before + (d@ + more.0) =~= (before + d@) + more.0);
            },
            ReadStep::End => {
                proof {
                    reader.ended_delivers_nothing(framed@.skip(pos as int));
                    assert(out@ + Seq::<u8>::empty() =~= out@);
                }
                return Some((out, Sticky::Eof));
            },
            ReadStep::Failed(e) => {
                proof {
                    reader.ended_delivers_nothing(framed@.skip(pos as int));
                    assert(out@ + Seq::<u8>::empty() =~= out@);
                }
                return Some((out, e));
            },
            ReadStep::Need(n) => {
                let left: usize = framed.len() - pos;
                if left == 0 {
                    assert(framed@.skip(pos as int) =~= Seq::<u8>::empty());
                    reader.feed_end();
                } else {
                    let mut k: usize = if left < n {
                        left
                    } else {
                        n
                    };
                    if let Some(c) = selector.chunk {
                        if c < k {
                            k = c;
                        }
                    }
                    let piece = slice_subrange(framed.as_slice(), pos, pos + k);
                    assert(piece@ + framed@.skip(pos + k) =~= framed@.skip(pos as int));
                    reader.feed(piece);
                    pos = pos + k;
                }
            },
        }
    }
}

/// A data chunk: the checksum of `checksummed`, then `body`.
pub open spec fn summed_chunk(chunk_type: u8, checksummed: Seq<u8>, body: Seq<u8>) -> Seq<u8> {
    chunk(chunk_type, le_bytes(masked_crc(checksummed) as int, 4) + body)
}

/// A chunk header that promises a length which the stream does not contain.
pub open spec fn bare_header(chunk_type: u8, len: int) -> Seq<u8> {
    seq![chunk_type] + le_bytes(len, 3)
}

/// `payload`
pub open spec fn payload_bytes() -> Seq<u8> {
    seq![0x70u8, 0x61, 0x79, 0x6c, 0x6f, 0x61, 0x64]
}

/// `n` times the byte `b`.
pub open spec fn repeated(b: u8, n: nat) -> Seq<u8> {
    Seq::new(n, |i: int| b)
}

/// An uncompressed chunk that carries `payload`.
pub open spec fn good_chunk() -> Seq<u8> {
    summed_chunk(0x01, payload_bytes(), payload_bytes())
}

/// A compressed chunk: 300 times the letter `a`.
pub open spec fn compressed_chunk() -> Seq<u8> {
    summed_chunk(0x00, repeated(0x61, 300), snappy_block(repeated(0x61, 300)))
}

/// Selector bytes: identifier prepended, everything read at once.
pub open spec fn whole() -> Seq<u8> {
    selector_bytes(true, 0, 255)
}

/// Selector bytes: identifier prepended, 3 bytes in, 1 byte out.
pub open spec fn piecemeal() -> Seq<u8> {
    selector_bytes(true, 3, 0)
}

/// Selector bytes: the input carries its own identifier.
pub open spec fn raw() -> Seq<u8> {
    selector_bytes(false, 0, 255)
}

/// Hand-made inputs: a valid stream of each chunk type, the skippable and reserved types, and
/// every shape of damage that the reader has to reject.
pub open spec fn handcrafted_seeds() -> Seq<(Seq<char>, Seq<u8>)> {
    seq![
        ("empty"@, whole()),
        ("identifier_only"@, raw()),
        ("uncompressed"@, whole() + good_chunk()),
        ("compressed"@, whole() + compressed_chunk()),
        ("both_piecemeal"@, piecemeal() + compressed_chunk() + good_chunk()),
        ("full_stream"@, raw() + magic_chunk() + compressed_chunk() + good_chunk() + magic_chunk() + good_chunk()),
        ("no_identifier"@, raw() + good_chunk()),
        ("skippable"@, whole() + chunk(0x80, seq![0x73u8, 0x6b, 0x69, 0x70]) + chunk(0xfe, repeated(0, 64)) + good_chunk()),
        ("reserved_type"@, whole() + chunk(0x02, Seq::empty())),
        ("chunk_too_long"@, whole() + bare_header(0x00, 76495)),
        ("uncompressed_over_max_block"@, whole() + bare_header(0x01, 65541) + seq![0u8, 0, 0, 0]),
        ("bad_checksum"@, whole() + summed_chunk(0x01, seq![0x6fu8, 0x74, 0x68, 0x65, 0x72], payload_bytes())),
        ("truncated_body"@, whole() + bare_header(0x01, 14) + seq![0x61u8, 0x62, 0x63]),
        ("short_chunk"@, whole() + chunk(0x00, seq![0x61u8, 0x62, 0x63]) + good_chunk()),
        ("bad_block"@, whole() + summed_chunk(0x00, Seq::empty(), repeated(0xff, 11))),
        ("literal_too_long"@, whole() + summed_chunk(0x00, Seq::empty(), seq![0x0au8, 0x24, 0x61, 0x62])),
        ("empty_bodies"@, whole() + summed_chunk(0x01, Seq::empty(), Seq::empty()) + summed_chunk(0x00, Seq::empty(), seq![0u8]) + good_chunk()),
    ]
}

/// The names and contents of some seeds.
pub open spec fn seed_contents(v: Seq<(String, Vec<u8>)>) -> Seq<(Seq<char>, Seq<u8>)> {
    Seq::new(v.len(), |i: int| (v[i].0@, v[i].1@))
}

/// Appends one chunk.
fn push_chunk(out: &mut Vec<u8>, chunk_type: u8, body: &[u8])
    requires
        body.len() < 0x100_0000,
    ensures
        final(out)@ == old(out)@ + chunk(chunk_type, body@),
{
    out.push(chunk_type);
    push_le(out, body.len() as u32, 3);
    out.extend_from_slice(body);
    assert(out@ =~= old(out)@ + chunk(chunk_type, body@));
}

/// Appends a data chunk: the checksum of `checksummed`, then `body`.
fn push_summed(out: &mut Vec<u8>, chunk_type: u8, checksummed: &[u8], body: &[u8])
    requires
        body.len() <= MAX_BLOCK_SIZE,
    ensures
        final(out)@ == old(out)@ + summed_chunk(chunk_type, checksummed@, body@),
{
    let mut payload: Vec<u8> = Vec::new();
    push_le(&mut payload, crc(checksummed), 4);
    payload.extend_from_slice(body);
    proof {
        reveal_with_fuel(le_bytes, 5);
    }
    assert(payload@ =~= le_bytes(masked_crc(checksummed@) as int, 4) + body@);
    push_chunk(out, chunk_type, payload.as_slice());
}

/// Appends a chunk header.
fn push_header(out: &mut Vec<u8>, chunk_type: u8, len: u32)
    ensures
        final(out)@ == old(out)@ + bare_header(chunk_type, len as int),
{
    out.push(chunk_type);
    push_le(out, len, 3);
    assert(out@ =~= old(out)@ + bare_header(chunk_type, len as int));
}

/// `n` times the byte `b`.
fn repeat_byte(b: u8, n: usize) -> (v: Vec<u8>)
    ensures
        v@ == repeated(b, n as nat),
{
    let mut v: Vec<u8> = Vec::new();
    while v.len() < n
        invariant
            v.len() <= n,
            forall|i: int| 0 <= i < v.len() ==> v@[i] == b,
        decreases n - v.len(),
    {
        v.push(b);
    }
    assert(v@ =~= repeated(b, n as nat));
    v
}

/// The selector bytes of a seed.
fn seed_head(identifier: bool, chunk: u8, read_buf: u8) -> (v: Vec<u8>)
    ensures
        v@ == selector_bytes(identifier, chunk, read_buf),
{
    let b = Selector::encode(identifier, chunk, read_buf);
    let mut v: Vec<u8> = Vec::new();
    v.push(b[0]);
    v.push(b[1]);
    assert(v@ =~= selector_bytes(identifier, chunk, read_buf));
    v
}

/// Adds a seed to the list.
fn add_seed(seeds: &mut Vec<(String, Vec<u8>)>, name: &str, data: Vec<u8>)
    ensures
        seed_contents(final(seeds)@) == seed_contents(old(seeds)@).push((name@, data@)),
{
    seeds.push((name.to_owned(), data));
    assert(seed_contents(seeds@) =~= seed_contents(old(seeds)@).push((name@, data@)));
}

/// The seeds of [`handcrafted_seeds`].
pub fn snappy_reader_handcrafted_seeds() -> (seeds: Vec<(String, Vec<u8>)>)
    ensures
        seed_contents(seeds@) == handcrafted_seeds(),
{
    let payload: Vec<u8> = vec![0x70, 0x61, 0x79, 0x6c, 0x6f, 0x61, 0x64];
    assert(payload@ =~= payload_bytes());
    let other: Vec<u8> = vec![0x6f, 0x74, 0x68, 0x65, 0x72];
    let abc: Vec<u8> = vec![0x61, 0x62, 0x63];
    let skip: Vec<u8> = vec![0x73, 0x6b, 0x69, 0x70];
    let literal: Vec<u8> = vec![0x0a, 0x24, 0x61, 0x62];
    let nothing: Vec<u8> = Vec::new();
    let zero: Vec<u8> = vec![0x00];
    let text = repeat_byte(0x61, 300);
    let block = block_of(text.as_slice());
    let damaged = repeat_byte(0xff, 11);
    let padding = repeat_byte(0, 64);
    let mut good: Vec<u8> = Vec::new();
    push_summed(&mut good, 0x01, payload.as_slice(), payload.as_slice());
    assert(good@ =~= good_chunk());
    let mut compressed: Vec<u8> = Vec::new();
    push_summed(&mut compressed, 0x00, text.as_slice(), block.as_slice());
    assert(compressed@ =~= compressed_chunk());

    let mut seeds: Vec<(String, Vec<u8>)> = Vec::new();
    assert(seed_contents(seeds@) =~= Seq::empty());
    let s = seed_head(true, 0, 255);
    assert(s@ =~= whole());
    add_seed(&mut seeds, "empty", s);
    let s = seed_head(false, 0, 255);
    assert(s@ =~= raw());
    add_seed(&mut seeds, "identifier_only", s);
    let mut s = seed_head(true, 0, 255);
    s.extend_from_slice(good.as_slice());
    assert(s@ =~= whole() + good_chunk());
    add_seed(&mut seeds, "uncompressed", s);
    let mut s = seed_head(true, 0, 255);
    s.extend_from_slice(compressed.as_slice());
    assert(s@ =~= whole() + compressed_chunk());
    add_seed(&mut seeds, "compressed", s);
    let mut s = seed_head(true, 3, 0);
    s.extend_from_slice(compressed.as_slice());
    s.extend_from_slice(good.as_slice());
    assert(s@ =~= piecemeal() + compressed_chunk() + good_chunk());
    add_seed(&mut seeds, "both_piecemeal", s);
    let mut s = seed_head(false, 0, 255);
    s.extend_from_slice(magic().as_slice());
    s.extend_from_slice(compressed.as_slice());
    s.extend_from_slice(good.as_slice());
    s.extend_from_slice(magic().as_slice());
    s.extend_from_slice(good.as_slice());
    assert(s@ =~= raw() + magic_chunk() + compressed_chunk() + good_chunk() + magic_chunk() + good_chunk());
    add_seed(&mut seeds, "full_stream", s);
    let mut s = seed_head(false, 0, 255);
    s.extend_from_slice(good.as_slice());
    assert(s@ =~= raw() + good_chunk());
    add_seed(&mut seeds, "no_identifier", s);
    assert(skip@ =~= seq![0x73u8, 0x6b, 0x69, 0x70]);
    let mut s = seed_head(true, 0, 255);
    push_chunk(&mut s, 0x80, skip.as_slice());
    push_chunk(&mut s, 0xfe, padding.as_slice());
    s.extend_from_slice(good.as_slice());
    assert(s@ =~= whole() + chunk(0x80, seq![0x73u8, 0x6b, 0x69, 0x70]) + chunk(0xfe, repeated(0, 64)) + good_chunk());
    add_seed(&mut seeds, "skippable", s);
    assert(nothing@ =~= Seq::<u8>::empty());
    let mut s = seed_head(true, 0, 255);
    push_chunk(&mut s, 0x02, nothing.as_slice());
    assert(s@ =~= whole() + chunk(0x02, Seq::empty()));
    add_seed(&mut seeds, "reserved_type", s);
    let mut s = seed_head(true, 0, 255);
    push_header(&mut s, 0x00, 76495);
    assert(s@ =~= whole() + bare_header(0x00, 76495));
    add_seed(&mut seeds, "chunk_too_long", s);
    proof {
        reveal_with_fuel(le_bytes, 5);
        assert(le_bytes(0, 4) =~= seq![0u8, 0, 0, 0]);
    }
    let mut s = seed_head(true, 0, 255);
    push_header(&mut s, 0x01, 65541);
    push_le(&mut s, 0, 4);
    assert(s@ =~= whole() + bare_header(0x01, 65541) + seq![0u8, 0, 0, 0]);
    add_seed(&mut seeds, "uncompressed_over_max_block", s);
    assert(other@ =~= seq![0x6fu8, 0x74, 0x68, 0x65, 0x72]);
    let mut s = seed_head(true, 0, 255);
    push_summed(&mut s, 0x01, other.as_slice(), payload.as_slice());
    assert(s@ =~= whole() + summed_chunk(0x01, seq![0x6fu8, 0x74, 0x68, 0x65, 0x72], payload_bytes()));
    add_seed(&mut seeds, "bad_checksum", s);
    assert(abc@ =~= seq![0x61u8, 0x62, 0x63]);
    let mut s = seed_head(true, 0, 255);
    push_header(&mut s, 0x01, 14);
    s.extend_from_slice(abc.as_slice());
    assert(s@ =~= whole() + bare_header(0x01, 14) + seq![0x61u8, 0x62, 0x63]);
    add_seed(&mut seeds, "truncated_body", s);
    let mut s = seed_head(true, 0, 255);
    push_chunk(&mut s, 0x00, abc.as_slice());
    s.extend_from_slice(good.as_slice());
    assert(s@ =~= whole() + chunk(0x00, seq![0x61u8, 0x62, 0x63]) + good_chunk());
    add_seed(&mut seeds, "short_chunk", s);
    let mut s = seed_head(true, 0, 255);
    push_summed(&mut s, 0x00, nothing.as_slice(), damaged.as_slice());
    assert(s@ =~= whole() + summed_chunk(0x00, Seq::empty(), repeated(0xff, 11)));
    add_seed(&mut seeds, "bad_block", s);
    assert(literal@ =~= seq![0x0au8, 0x24, 0x61, 0x62]);
    let mut s = seed_head(true, 0, 255);
    push_summed(&mut s, 0x00, nothing.as_slice(), literal.as_slice());
    assert(s@ =~= whole() + summed_chunk(0x00, Seq::empty(), seq![0x0au8, 0x24, 0x61, 0x62]));
    add_seed(&mut seeds, "literal_too_long", s);
    assert(zero@ =~= seq![0u8]);
    let mut s = seed_head(true, 0, 255);
    push_summed(&mut s, 0x01, nothing.as_slice(), nothing.as_slice());
    push_summed(&mut s, 0x00, nothing.as_slice(), zero.as_slice());
    s.extend_from_slice(good.as_slice());
    assert(s@ =~= whole() + summed_chunk(0x01, Seq::empty(), Seq::empty()) + summed_chunk(0x00, Seq::empty(), seq![0u8]) + good_chunk());
    add_seed(&mut seeds, "empty_bodies", s);
    assert(seed_contents(seeds@) =~= handcrafted_seeds());
    seeds
}

/// What an input stands for: its bytes from the third on, behind the stream identifier where the top
/// bit of the first one is set. How the bytes arrive, which the other bits and the second byte say,
/// makes no difference to what is delivered.
pub proof fn an_input_is_read_behind_its_selector(
    data: &[u8],
    r: Option<(Vec<u8>, Sticky)>,
    other: &[u8],
    q: Option<(Vec<u8>, Sticky)>,
)
    requires
        call_ensures(snappy_reader, (data,), r),
        call_ensures(snappy_reader, (other,), q),
        data@.len() >= 2,
        other@.len() >= 2,
        data@[0] >= 128 <==> other@[0] >= 128,
        data@.skip(2) == other@.skip(2),
    ensures
        r matches Some(p) && (p.0@, p.1) == decoded(
            (if data@[0] >= 128 {
                seq![0xffu8, 0x06, 0x00, 0x00, 0x73, 0x4e, 0x61, 0x50, 0x70, 0x59]
            } else {
                Seq::empty()
            }) + data@.skip(2),
            false,
        ),
        q matches Some(p) && (r matches Some(o) && p.0@ == o.0@ && p.1 == o.1),
{
}

} // verus!
