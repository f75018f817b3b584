use aff4tools::codec::{decompress_chunk, Codec};
use aff4tools::error::Locus;
use aff4tools::write::bevy::compress_chunk;

fn locus() -> Locus {
    Locus::new("/synthetic/out.aff4")
}

fn refusal(codec: Codec, stored: &[u8], chunk_size: usize) -> String {
    let err = decompress_chunk(codec, stored, chunk_size, &locus()).unwrap_err();
    assert!(err.is_integrity_finding(), "{}", err.to_string());
    err.to_string()
}

/// One literal, a match of 529 bytes behind it, and a last literal.
const REPEATED: [u8; 9] = [0x1f, b'a', 1, 0, 255, 255, 0, 0x10, b'b'];

#[test]
fn a_length_field_gives_the_length_of_a_match() {
    let mut expected = vec![b'a'; 530];
    expected.push(b'b');
    assert_eq!(
        decompress_chunk(Codec::Lz4, &REPEATED, 1024, &locus()).unwrap(),
        expected
    );
}

#[test]
fn a_length_that_does_not_fit_is_refused() {
    let text = refusal(Codec::Lz4, &REPEATED, 512);
    assert!(text.contains("a chunk of 9 stored bytes does not decode as lz4"), "{text}");
    // As many literals as no number of 32 bits counts.
    let mut endless = vec![255u8; 16_843_020];
    endless[0] = 0xf0;
    refusal(Codec::Lz4, &endless, 1024);
    refusal(Codec::Lz4, &[0xf0, 255, 255, 0], 64);
}

/// Longer than any block whose length fields must fit in 32 bits.
#[test]
fn a_long_lz4_chunk_decodes() {
    let size = 20_000_000usize;
    let mut state = 88_172_645_463_325_252u64;
    let mut chunk = Vec::with_capacity(size);
    while chunk.len() < 18_000_000 {
        state ^= state << 13;
        state ^= state >> 7;
        state ^= state << 17;
        chunk.extend_from_slice(&state.to_le_bytes());
    }
    chunk.resize(size, 0);
    let stored = compress_chunk(Codec::Lz4, &chunk, &locus()).unwrap();
    assert!(stored.len() > 16_843_009 && stored.len() < size);
    assert!(decompress_chunk(Codec::Lz4, &stored, size, &locus()).unwrap() == chunk);
}

/// A chunk holds no more than a chunk's bytes, however they are stored.
#[test]
fn a_stored_chunk_is_no_longer_than_a_chunk() {
    assert_eq!(
        decompress_chunk(Codec::Stored, &[1, 2, 3], 4, &locus()).unwrap(),
        [1, 2, 3]
    );
    let text = refusal(Codec::Stored, &[1, 2, 3, 4, 5], 4);
    assert!(
        text.contains("a chunk decodes to 5 bytes, more than the 4 bytes a chunk holds"),
        "{text}"
    );
}

#[test]
fn a_chunk_that_is_not_in_its_codec_is_refused() {
    for codec in [Codec::Snappy, Codec::Lz4, Codec::Zlib] {
        refusal(codec, &[0xff, 0xff, 0xff], 64);
    }
    let whole = compress_chunk(Codec::Zlib, &[7u8; 500], &locus()).unwrap();
    refusal(Codec::Zlib, &whole[..whole.len() - 5], 512);
}

#[test]
fn a_codec_that_is_only_recognised_is_not_decoded() {
    for codec in [Codec::Deflate, Codec::SnappyRekall] {
        let err = decompress_chunk(codec, &[1, 2, 3], 3, &locus()).unwrap_err();
        assert!(!err.is_integrity_finding());
        assert!(err.to_string().contains(codec.name()), "{}", err.to_string());
    }
}
