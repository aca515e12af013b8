//! The compressed stream: framing, reading back, and what is refused.
use kcptun_std::comp::{
    build_chunk, checked, crc, decoded_len, magic, masked, put_uvarint, uvarint, CompStream, Error, ReadStep, Reader, Sticky, Writer,
    CHECKSUM_SIZE, CHUNK_TYPE_COMPRESSED_DATA, CHUNK_TYPE_UNCOMPRESSED_DATA, MAX_BLOCK_SIZE, RBUF_LEN,
};
use kcptun_std::internals::fuzz::{snappy_reader, snappy_reader_handcrafted_seeds, Selector};
use std::io::ErrorKind;

/// Framed bytes for the given writes.
fn encode(writes: &[&[u8]]) -> Vec<u8> {
    encode_calls(writes).concat()
}

/// The same, but keeping the individual writes to the connection apart.
fn encode_calls(writes: &[&[u8]]) -> Vec<Vec<u8>> {
    let mut w = Writer::new();
    let mut calls = Vec::new();
    for p in writes {
        calls.extend(w.write_chunks(p).expect("write"));
    }
    calls
}

/// The error text of a reader that has failed.
fn failure(e: Sticky) -> String {
    match e {
        Sticky::Snappy(e) => e.message().to_string(),
        other => panic!("{other:?}"),
    }
}

/// Decodes `framed`, handing the reader at most `read_size` bytes per read and asking for at most
/// `read_buf` bytes at a time: the bytes delivered, and the text of the error that ended them.
fn decode_partial_sizes(
    framed: &[u8],
    read_size: usize,
    read_buf: usize,
) -> (Vec<u8>, Option<String>) {
    let mut r = Reader::new();
    let mut pos = 0;
    let mut out = Vec::new();
    loop {
        match r.read(read_buf.max(1)) {
            ReadStep::Data(d) => out.extend(d),
            ReadStep::End => return (out, None),
            ReadStep::Failed(e) => return (out, Some(failure(e))),
            ReadStep::Need(n) => {
                let n = n.min(read_size.max(1)).min(framed.len() - pos);
                if n == 0 {
                    r.feed_end();
                } else {
                    r.feed(&framed[pos..pos + n]);
                    pos += n;
                }
            }
        }
    }
}

/// Decodes `framed` whole, or gives the text of the error.
fn decode(framed: &[u8], read_size: usize, read_buf: usize) -> Result<Vec<u8>, String> {
    match decode_partial_sizes(framed, read_size, read_buf) {
        (out, None) => Ok(out),
        (_, Some(e)) => Err(e),
    }
}

/// `len` bytes of highly compressible text.
fn text(len: usize) -> Vec<u8> {
    b"the quick brown fox jumps over the lazy dog. "
        .iter()
        .copied()
        .cycle()
        .take(len)
        .collect()
}

/// `len` bytes that snappy cannot compress (a 64-bit xorshift).
fn random(len: usize, seed: u64) -> Vec<u8> {
    let mut x = seed | 1;
    (0..len)
        .map(|_| {
            x ^= x << 13;
            x ^= x >> 7;
            x ^= x << 17;
            (x >> 24) as u8
        })
        .collect()
}

/// One framed chunk with the given type and body (no checksum is added).
fn chunk(chunk_type: u8, body: &[u8]) -> Vec<u8> {
    let mut out = vec![
        chunk_type,
        body.len() as u8,
        (body.len() >> 8) as u8,
        (body.len() >> 16) as u8,
    ];
    out.extend_from_slice(body);
    out
}

/// An uncompressed data chunk holding `data`, with a correct checksum.
fn uncompressed_chunk(data: &[u8]) -> Vec<u8> {
    let mut body = crc(data).to_le_bytes().to_vec();
    body.extend_from_slice(data);
    chunk(CHUNK_TYPE_UNCOMPRESSED_DATA, &body)
}

/// The stream identifier chunk.
fn identifier() -> Vec<u8> {
    magic()
}

/// The error text of a failed decode.
fn decode_err(framed: &[u8]) -> String {
    decode(framed, usize::MAX, 4096).expect_err("decode should fail")
}

// The masked CRC-32C is Castagnoli, not the IEEE CRC-32 of the KCP layer. CRC-32C("abc") is
// 0x364b3fb7 (the framing format's example), and the mask
// `(c >> 15 | c << 17) + 0xa282ead8` turns it into 0x21f1576e.
#[test]
fn masked_crc32c_matches_the_specification() {
    assert_eq!(crc32c::crc32c(b"abc"), 0x364b_3fb7);
    assert_eq!(crc(b"abc"), 0x21f1_576e);
    // The empty string has CRC-32C 0, so only the mask constant is left.
    assert_eq!(crc(b""), 0xa282_ead8);
}

// The number at the start of some bytes, including the two overflow branches and the short-buffer case.
#[test]
fn uvarint_matches_go() {
    assert_eq!(uvarint(&[]), (0, 0));
    assert_eq!(uvarint(&[0x00]), (0, 1));
    assert_eq!(uvarint(&[0x7f]), (127, 1));
    assert_eq!(uvarint(&[0x80, 0x01]), (128, 2));
    assert_eq!(uvarint(&[0x80]), (0, 0)); // truncated
    assert_eq!(uvarint(&[0xff; 10]), (0, 0)); // 10 continuation bytes: the value is unfinished
    assert_eq!(uvarint(&[0xff; 11]), (0, -11)); // an 11th byte cannot belong to a uint64
    assert_eq!(
        uvarint(&[0x80, 0x80, 0x80, 0x80, 0x80, 0x80, 0x80, 0x80, 0x80, 0x02]),
        (0, -10) // value does not fit in 64 bits
    );
    assert_eq!(
        uvarint(&[0xff, 0xff, 0xff, 0xff, 0x0f]),
        (u64::from(u32::MAX), 5)
    );
}

// The identifier is part of the first chunk's write, and never repeated.
#[test]
fn the_stream_identifier_is_written_once_with_the_first_chunk() {
    let calls = encode_calls(&[b"first", b"second"]);
    assert_eq!(calls.len(), 2, "one write per chunk");
    assert!(calls[0].starts_with(&magic()));
    assert!(!calls[1].starts_with(&magic()));
    assert_eq!(calls[0].len(), magic().len() + 4 + 4 + 5);
}

// Text compresses by far more than 12.5%, so it becomes a compressed chunk; random bytes do
// not, so they are stored as they are.
#[test]
fn the_chunk_type_follows_gos_12_5_percent_rule() {
    let compressible = text(4096);
    let out = encode(&[&compressible]);
    assert_eq!(out[magic().len()], CHUNK_TYPE_COMPRESSED_DATA);
    assert!(out.len() < compressible.len() / 2, "len {}", out.len());

    let incompressible = random(4096, 7);
    let out = encode(&[&incompressible]);
    assert_eq!(out[magic().len()], CHUNK_TYPE_UNCOMPRESSED_DATA);
    assert_eq!(out.len(), magic().len() + 4 + 4 + incompressible.len());
    assert!(out.ends_with(&incompressible));

    // A single byte can never be compressed to less than 1 - 1/8 = 0 bytes.
    let out = encode(&[b"x"]);
    assert_eq!(out[magic().len()], CHUNK_TYPE_UNCOMPRESSED_DATA);
}

// One write is split into 64 KiB chunks, each with its own connection write, and the chunk
// boundary falls exactly at 65536 bytes.
#[test]
fn a_write_longer_than_64_kib_is_split_into_chunks() {
    let payload = random(70000, 3);
    let calls = encode_calls(&[&payload]);
    assert_eq!(calls.len(), 2);
    assert_eq!(
        calls[0].len(),
        magic().len() + 4 + 4 + MAX_BLOCK_SIZE,
        "first chunk carries the identifier and a full block"
    );
    assert_eq!(calls[1].len(), 4 + 4 + (70000 - MAX_BLOCK_SIZE));
    assert_eq!(calls[1][0], CHUNK_TYPE_UNCOMPRESSED_DATA);

    // Exactly 65536 bytes still fit in one chunk.
    let calls = encode_calls(&[&random(MAX_BLOCK_SIZE, 4)]);
    assert_eq!(calls.len(), 1);

    // One byte more needs two.
    let calls = encode_calls(&[&random(MAX_BLOCK_SIZE + 1, 5)]);
    assert_eq!(calls.len(), 2);
    assert_eq!(calls[1].len(), 4 + 4 + 1);
}

// Whatever the stream writes, it reads back — across chunk boundaries, with the reader fed in
// small pieces and asked for small pieces.
#[test]
fn a_stream_round_trips_through_the_reader() {
    for (read_size, read_buf) in [(usize::MAX, 65536), (1, 1), (7, 13), (4096, 100000)] {
        let payloads = [text(0), text(1), text(9000), random(70000, 9), text(65536)];
        let refs: Vec<&[u8]> = payloads.iter().map(Vec::as_slice).collect();
        let framed = encode(&refs);
        let got = decode(&framed, read_size, read_buf).expect("decode");
        assert_eq!(got, payloads.concat(), "read_size={read_size}");
    }
}

// An empty framed stream is a clean end of data, not an error.
#[test]
fn an_empty_stream_reads_as_eof() {
    assert_eq!(
        decode(&[], usize::MAX, 64).expect("decode"),
        Vec::<u8>::new()
    );
    assert_eq!(
        decode(&identifier(), usize::MAX, 64).expect("decode"),
        Vec::<u8>::new()
    );
}

// The stream identifier must come first (`ErrCorrupt`), even when the chunk that comes instead
// is well formed.
#[test]
fn the_identifier_must_come_first() {
    assert_eq!(
        decode_err(&uncompressed_chunk(b"data")),
        "snappy: corrupt input"
    );
    // A skippable chunk first is not allowed either.
    assert_eq!(decode_err(&chunk(0x80, b"pad")), "snappy: corrupt input");
}

// The identifier chunk itself is validated: length and body.
#[test]
fn a_damaged_identifier_is_corrupt_input() {
    assert_eq!(decode_err(&chunk(0xff, b"sNaPp")), "snappy: corrupt input");
    assert_eq!(decode_err(&chunk(0xff, b"snappy")), "snappy: corrupt input");
    assert_eq!(
        decode_err(&chunk(0xff, b"sNaPpY!")),
        "snappy: corrupt input"
    );
    assert_eq!(decode_err(&[0xff, 0x06, 0x00]), "snappy: corrupt input");
}

// Reserved unskippable chunk types (0x02-0x7f) end the stream with `ErrUnsupported`, while
// skippable ones (0x80-0xfd, and the padding type 0xfe) are ignored.
#[test]
fn reserved_chunks_are_rejected_and_skippable_ones_are_skipped() {
    for chunk_type in [0x02u8, 0x40, 0x7f] {
        let mut framed = identifier();
        framed.extend_from_slice(&chunk(chunk_type, b"body"));
        assert_eq!(decode_err(&framed), "snappy: unsupported input");
    }

    for chunk_type in [0x80u8, 0xfe, 0xfd] {
        let mut framed = identifier();
        framed.extend_from_slice(&chunk(chunk_type, &random(1000, 2)));
        framed.extend_from_slice(&uncompressed_chunk(b"payload"));
        assert_eq!(
            decode(&framed, 3, 64).expect("decode"),
            b"payload",
            "chunk type {chunk_type:#x}"
        );
    }
}

// A chunk longer than the reader's buffer is `ErrUnsupported`, whatever its type.
#[test]
fn an_over_long_chunk_is_unsupported() {
    let too_long = RBUF_LEN + 1;
    for chunk_type in [
        CHUNK_TYPE_COMPRESSED_DATA,
        CHUNK_TYPE_UNCOMPRESSED_DATA,
        0x80,
    ] {
        let mut framed = identifier();
        framed.extend_from_slice(&[
            chunk_type,
            too_long as u8,
            (too_long >> 8) as u8,
            (too_long >> 16) as u8,
        ]);
        assert_eq!(decode_err(&framed), "snappy: unsupported input");
    }
}

// A body that does not match its checksum, and a chunk too short to hold one.
#[test]
fn a_bad_checksum_is_corrupt_input() {
    let mut framed = identifier();
    let mut bad = uncompressed_chunk(b"payload");
    bad[4] ^= 0xff; // first checksum byte
    framed.extend_from_slice(&bad);
    assert_eq!(decode_err(&framed), "snappy: corrupt input");

    // The same for a compressed chunk: flip a byte of the compressed body.
    let mut framed = encode(&[&text(4096)]);
    let last = framed.len() - 1;
    framed[last] ^= 0xff;
    assert_eq!(decode_err(&framed), "snappy: corrupt input");

    // A data chunk shorter than the checksum it must contain.
    for chunk_type in [CHUNK_TYPE_COMPRESSED_DATA, CHUNK_TYPE_UNCOMPRESSED_DATA] {
        let mut framed = identifier();
        framed.extend_from_slice(&chunk(chunk_type, b"abc"));
        assert_eq!(decode_err(&framed), "snappy: corrupt input");
    }
}

// A stream that stops in the middle of a chunk is corrupt input, not a clean end.
#[test]
fn a_truncated_stream_is_corrupt_input() {
    let framed = encode(&[&text(4096)]);
    for cut in [
        magic().len() + 2,
        magic().len() + 4,
        framed.len() - 1,
    ] {
        assert_eq!(decode_err(&framed[..cut]), "snappy: corrupt input");
    }
    // Truncated inside an uncompressed body.
    let framed = encode(&[&random(64, 1)]);
    assert_eq!(
        decode_err(&framed[..framed.len() - 8]),
        "snappy: corrupt input"
    );
}

// A compressed chunk whose block is not decodable, and one that claims to decode to more than
// 64 KiB.
#[test]
fn a_damaged_block_is_rejected() {
    // An empty block has no length.
    let mut framed = identifier();
    framed.extend_from_slice(&chunk(CHUNK_TYPE_COMPRESSED_DATA, &crc(b"").to_le_bytes()));
    assert_eq!(decode_err(&framed), "snappy: corrupt input");

    // A varint length above 64 KiB: rejected before the block is decoded.
    let mut body = crc(b"").to_le_bytes().to_vec();
    body.extend_from_slice(&[0x81, 0x80, 0x04]); // 65537
    let mut framed = identifier();
    framed.extend_from_slice(&chunk(CHUNK_TYPE_COMPRESSED_DATA, &body));
    assert_eq!(decode_err(&framed), "snappy: corrupt input");

    // A well-formed length whose block ends too early: a literal that promises ten bytes and
    // has two.
    let mut body = crc(b"").to_le_bytes().to_vec();
    body.extend_from_slice(&[0x0a, 0x24, b'a', b'b']); // 10 bytes announced, 2 literal bytes
    let mut framed = identifier();
    framed.extend_from_slice(&chunk(CHUNK_TYPE_COMPRESSED_DATA, &body));
    assert_eq!(decode_err(&framed), "snappy: corrupt input");

    // A block that decodes to fewer bytes than its header promises.
    let mut body = crc(b"").to_le_bytes().to_vec();
    body.extend_from_slice(&[0x0a, 0x04, b'a', b'b']); // 10 announced, one 2-byte literal
    let mut framed = identifier();
    framed.extend_from_slice(&chunk(CHUNK_TYPE_COMPRESSED_DATA, &body));
    assert_eq!(decode_err(&framed), "snappy: corrupt input");
}

// An uncompressed chunk longer than the 64 KiB a block may decode to is corrupt input (it fits
// in the chunk buffer, so it is not the "unsupported" branch).
#[test]
fn an_uncompressed_chunk_over_64_kib_is_corrupt_input() {
    let n = MAX_BLOCK_SIZE + 1;
    let len = n + CHECKSUM_SIZE;
    let mut framed = identifier();
    framed.extend_from_slice(&[
        CHUNK_TYPE_UNCOMPRESSED_DATA,
        len as u8,
        (len >> 8) as u8,
        (len >> 16) as u8,
    ]);
    framed.extend_from_slice(&crc(&vec![0u8; n]).to_le_bytes());
    framed.extend_from_slice(&vec![0u8; n]);
    assert_eq!(decode_err(&framed), "snappy: corrupt input");
}

// An empty write produces no bytes at all, not even the stream identifier.
#[test]
fn an_empty_write_sends_nothing() {
    let mut stream = CompStream::new(());
    assert!(stream.w.write_chunks(&[]).expect("write").is_empty());

    // ... and the identifier still comes with the first real chunk.
    let calls = stream.w.write_chunks(b"hello").expect("write");
    assert_eq!(calls.concat()[..magic().len()], magic());
}

// A vectored write behaves exactly like one write of the concatenation, so a header and its payload
// always land in the same chunk.
#[test]
fn a_vectored_write_becomes_one_chunk() {
    let header = random(8, 11);
    let payload = text(8184);
    let mut joined = header.clone();
    joined.extend_from_slice(&payload);
    let want = encode(&[&joined]);

    let mut w = Writer::new();
    let (calls, n) = w.write_vectored(&[&header, &payload]);
    assert_eq!(n, header.len() + payload.len());
    let calls = calls.expect("write");
    assert_eq!(calls.len(), 1);
    assert_eq!(calls.concat(), want);
}

// A failed write is remembered: every later write fails with the same error, an empty one too.
#[test]
fn a_write_error_is_sticky() {
    let mut w = Writer::new();
    w.fail(Sticky::Io(ErrorKind::BrokenPipe, "broken pipe".to_string()));
    for p in [b"data".as_slice(), b"more", b""] {
        match w.write_chunks(p) {
            Err(Sticky::Io(kind, text)) => {
                assert_eq!(kind, ErrorKind::BrokenPipe);
                assert_eq!(text, "broken pipe");
            }
            other => panic!("{other:?}"),
        }
    }
}

// Once the reader has failed, every later read reports the same error, and a clean end of stream
// keeps reporting the end.
#[test]
fn reader_errors_and_eof_are_sticky() {
    let mut framed = identifier();
    framed.extend_from_slice(&chunk(0x02, b""));
    let mut r = Reader::new();
    let mut pos = 0;
    while let ReadStep::Need(n) = r.read(64) {
        let n = n.min(framed.len() - pos);
        r.feed(&framed[pos..pos + n]);
        pos += n;
    }
    for _ in 0..3 {
        match r.read(64) {
            ReadStep::Failed(e) => assert_eq!(failure(e), "snappy: unsupported input"),
            other => panic!("{other:?}"),
        }
    }

    let good = encode(&[b"hi"]);
    let mut r = Reader::new();
    let mut pos = 0;
    let mut got = Vec::new();
    loop {
        match r.read(64) {
            ReadStep::Need(n) if pos < good.len() => {
                let n = n.min(good.len() - pos);
                r.feed(&good[pos..pos + n]);
                pos += n;
            }
            ReadStep::Need(_) => r.feed_end(),
            ReadStep::Data(d) => got.extend(d),
            ReadStep::End => break,
            ReadStep::Failed(e) => panic!("{e:?}"),
        }
    }
    assert_eq!(got, b"hi");
    for _ in 0..3 {
        assert!(matches!(r.read(64), ReadStep::End));
    }
}

// An error of the connection is reported as it is, again and again.
#[test]
fn a_read_error_of_the_connection_is_sticky() {
    let mut r = Reader::new();
    assert!(matches!(r.read(1), ReadStep::Need(4)));
    r.feed_error(ErrorKind::ConnectionReset, "reset".to_string());
    for _ in 0..2 {
        match r.read(1) {
            ReadStep::Failed(Sticky::Io(kind, text)) => {
                assert_eq!((kind, text.as_str()), (ErrorKind::ConnectionReset, "reset"));
            }
            other => panic!("{other:?}"),
        }
    }
}

// The data that arrived before a damaged chunk are delivered first.
#[test]
fn good_chunks_before_a_bad_one_are_delivered() {
    let mut framed = encode(&[b"good"]);
    framed.extend_from_slice(&chunk(0x02, b""));
    for (read_size, read_buf) in [(usize::MAX, 4096), (1, 1), (3, 2)] {
        assert_eq!(
            decode_partial_sizes(&framed, read_size, read_buf),
            (b"good".to_vec(), Some("snappy: unsupported input".to_string()))
        );
    }
}

#[test]
fn a_number_is_read_back_from_its_bytes() {
    for v in [0, 1, 127, 128, 300, 65536, u64::from(u32::MAX), u64::MAX] {
        let bytes = put_uvarint(v);
        assert_eq!(uvarint(&bytes), (v, bytes.len() as isize));
    }
    assert_eq!(put_uvarint(300), vec![0xac, 0x02]);
    assert_eq!(decoded_len(&[0xac, 0x02, 0xff]), Ok((300, 2)));
    assert_eq!(decoded_len(&[]), Err(Error::Corrupt));
}

/// A chunk is compressed when that saves at least an eighth.
#[test]
fn the_block_decides_the_chunk() {
    let data = [7u8; 16];
    // Thirteen bytes of sixteen are enough, fourteen are not.
    let small = build_chunk(&data, &[1; 13], 0x0403_0201);
    assert_eq!(small[..8], [0x00, 17, 0, 0, 1, 2, 3, 4]);
    assert_eq!(small[8..], [1; 13]);
    let large = build_chunk(&data, &[1; 14], 0x0403_0201);
    assert_eq!(large[..8], [0x01, 20, 0, 0, 1, 2, 3, 4]);
    assert_eq!(large[8..], data);
    // Nothing is gained on an empty chunk.
    assert_eq!(build_chunk(&[], &[0], 0), [0x01, 4, 0, 0, 0, 0, 0, 0]);
}

#[test]
fn a_checksum_is_masked_and_compared() {
    assert_eq!(masked(0x364b_3fb7), 0x21f1_576e);
    assert_eq!(masked(0), 0xa282_ead8);
    assert_eq!(checked(vec![1], 5, 5), Ok(vec![1]));
    assert_eq!(checked(vec![1], 5, 6), Err(Error::Corrupt));
}

#[test]
fn every_fault_has_its_text() {
    assert_eq!(Error::Corrupt.message(), "snappy: corrupt input");
    assert_eq!(Error::TooLarge.message(), "snappy: decoded block is too large");
    assert_eq!(Error::Unsupported.message(), "snappy: unsupported input");
    assert_eq!(
        Error::UnsupportedLiteralLength.message(),
        "snappy: unsupported literal length"
    );
}

// ---------------------------------------------------------------------------------------
// The reader harness
// ---------------------------------------------------------------------------------------

/// What a seed delivers, and how it ends.
fn outcome(data: &[u8]) -> (Vec<u8>, String) {
    match snappy_reader(data).expect("two selector bytes") {
        (out, Sticky::Eof) => (out, "end".to_string()),
        (out, e) => (out, failure(e)),
    }
}

#[test]
fn snappy_reader_seeds_run_clean() {
    for (name, data) in snappy_reader_handcrafted_seeds() {
        assert!(snappy_reader(&data).is_some(), "{name}");
    }
}

#[test]
fn the_seeds_end_as_they_are_meant_to() {
    let a300 = vec![b'a'; 300];
    let both = [a300.as_slice(), b"payload"].concat();
    let three = [a300.as_slice(), b"payload", b"payload"].concat();
    let corrupt = "snappy: corrupt input";
    let unsupported = "snappy: unsupported input";
    let want: Vec<(&str, &[u8], &str)> = vec![
        ("empty", b"", "end"),
        ("identifier_only", b"", "end"),
        ("uncompressed", b"payload", "end"),
        ("compressed", &a300, "end"),
        ("both_piecemeal", &both, "end"),
        ("full_stream", &three, "end"),
        ("no_identifier", b"", corrupt),
        ("skippable", b"payload", "end"),
        ("reserved_type", b"", unsupported),
        ("chunk_too_long", b"", unsupported),
        ("uncompressed_over_max_block", b"", corrupt),
        ("bad_checksum", b"", corrupt),
        ("truncated_body", b"", corrupt),
        ("short_chunk", b"", corrupt),
        ("bad_block", b"", corrupt),
        ("literal_too_long", b"", corrupt),
        ("empty_bodies", b"payload", "end"),
    ];
    let seeds = snappy_reader_handcrafted_seeds();
    assert_eq!(seeds.len(), want.len());
    for ((name, data), (want_name, want_out, want_end)) in seeds.iter().zip(want) {
        assert_eq!(name, want_name);
        let (out, end) = outcome(data);
        assert_eq!((out.as_slice(), end.as_str()), (want_out, want_end), "{name}");
    }
}

#[test]
fn snappy_reader_handles_short_and_random_input() {
    assert!(snappy_reader(&[]).is_none());
    assert!(snappy_reader(&[0]).is_none());
    assert!(snappy_reader(&[0, 0]).is_some());
    // Every selector combination over one small body.
    let body = b"\xff\x06\x00\x00sNaPpY\x01\x05\x00\x00\x00\x00\x00\x00x";
    for sel in 0..=255u8 {
        for read_buf in [0u8, 1, 33, 0xFF] {
            let mut data = vec![sel, read_buf];
            data.extend_from_slice(body);
            let (out, end) = outcome(&data);
            assert_eq!((out.as_slice(), end.as_str()), (b"".as_slice(), "snappy: corrupt input"));
        }
    }
    // A deterministic pseudo-random stream.
    let mut x = 0x1234_5678_9abc_def0u64;
    let mut data = vec![0u8; 4096];
    for b in &mut data {
        x = x
            .wrapping_mul(6364136223846793005)
            .wrapping_add(1442695040888963407);
        *b = (x >> 33) as u8;
    }
    for start in [0usize, 7, 123, 1000] {
        assert!(snappy_reader(&data[start..]).is_some());
    }
}

/// The selector encoding round-trips.
#[test]
fn selector_round_trips() {
    for identifier in [false, true] {
        for chunk in [0u8, 1, 64, 0x7f] {
            for read_buf in [0u8, 7, 255] {
                let [sel, rb] = Selector::encode(identifier, chunk, read_buf);
                let s = Selector::decode(sel, rb);
                assert_eq!(s.identifier, identifier);
                assert_eq!(s.chunk, (chunk != 0).then_some(usize::from(chunk)));
                assert_eq!(s.read_buf, usize::from(read_buf) + 1);
            }
        }
    }
}
