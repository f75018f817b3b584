use aff4tools::codec::{decompress_chunk, Codec};
use aff4tools::error::Locus;
use aff4tools::stream::parse_index;
use aff4tools::write::bevy::{
    bevy_block_hash_name, bevy_index_name, bevy_name, compress_chunk, BevyBuilder,
    DEFAULT_CHUNK_SIZE,
};

fn locus() -> Locus {
    Locus::new("/synthetic/out.aff4")
}

/// Every codec we write must round-trip through the reader's decompressor.
/// This is the property the whole writer rests on.
#[test]
fn every_writable_codec_round_trips_through_the_reader() {
    let chunk: Vec<u8> = (0..DEFAULT_CHUNK_SIZE)
        .map(|i| u8::try_from((i * 7) % 251).unwrap_or(0))
        .collect();

    for codec in [Codec::Snappy, Codec::Lz4, Codec::Zlib] {
        let compressed = compress_chunk(codec, &chunk, &locus()).unwrap();
        let back =
            decompress_chunk(codec, &compressed, DEFAULT_CHUNK_SIZE, &locus())
                .expect("a codec we write must decompress with our own reader");
        assert_eq!(back, chunk, "{codec:?} round trip");
    }
}

/// Declined codecs must be refused on write, not silently substituted.
#[test]
fn declined_codecs_are_refused() {
    let chunk = vec![0u8; 64];
    for codec in [Codec::Deflate, Codec::SnappyRekall] {
        assert!(
            compress_chunk(codec, &chunk, &locus()).is_err(),
            "{codec:?} must be refused on write"
        );
    }
}

/// The index must be `<QI>` entries the reader's parser accepts, with
/// offsets that actually locate each chunk in the body.
#[test]
fn the_index_locates_every_chunk() {
    let mut b = BevyBuilder::new(Codec::Snappy, 1024, 4);
    for i in 0..4u8 {
        b.push_chunk(&vec![i; 1024], &locus()).unwrap();
    }
    assert!(b.is_full());
    let bevy = b.finish();
    assert_eq!(bevy.chunk_count, 4);

    let locations = parse_index(&bevy.index, &locus()).unwrap();
    assert_eq!(locations.len(), 4);

    for (i, loc) in locations.iter().enumerate() {
        let start = usize::try_from(loc.offset).unwrap();
        let end = start + loc.length as usize;
        let stored = &bevy.body[start..end];
        let back =
            decompress_chunk(Codec::Snappy, stored, 1024, &locus()).unwrap();
        assert_eq!(back, vec![u8::try_from(i).unwrap(); 1024]);
    }
}

/// An incompressible chunk falls back to stored, and the reader still
/// reproduces it — the stored-chunk rule in both directions.
#[test]
fn incompressible_chunks_are_stored_verbatim() {
    let chunk: Vec<u8> = (0..1024u32)
        .map(|i| u8::try_from(i.wrapping_mul(2_654_435_761) >> 24).unwrap_or(0))
        .collect();
    let mut b = BevyBuilder::new(Codec::Snappy, 1024, 1);
    b.push_chunk(&chunk, &locus()).unwrap();
    let bevy = b.finish();

    let locations = parse_index(&bevy.index, &locus()).unwrap();
    let loc = &locations[0];
    let start = usize::try_from(loc.offset).unwrap();
    let stored = &bevy.body[start..start + loc.length as usize];
    let back = decompress_chunk(Codec::Snappy, stored, 1024, &locus()).unwrap();
    assert_eq!(back, chunk);
}

/// A short final chunk is NUL-padded to `chunk_size` (v1.0a §3.2). The
/// reader trims against `aff4:size`, so the padding must be exact.
#[test]
fn a_short_final_chunk_is_padded() {
    let mut b = BevyBuilder::new(Codec::Snappy, 1024, 4);
    b.push_chunk(&[0xAA; 100], &locus()).unwrap();
    let bevy = b.finish();

    let locations = parse_index(&bevy.index, &locus()).unwrap();
    let loc = &locations[0];
    let start = usize::try_from(loc.offset).unwrap();
    let stored = &bevy.body[start..start + loc.length as usize];
    let back = decompress_chunk(Codec::Snappy, stored, 1024, &locus()).unwrap();

    assert_eq!(back.len(), 1024, "padded to a full chunk");
    assert_eq!(&back[..100], &[0xAA; 100]);
    assert!(back[100..].iter().all(|&b| b == 0), "padding must be NUL");
}

/// An oversized chunk is a caller bug and must be refused.
#[test]
fn an_oversized_chunk_is_refused() {
    let mut b = BevyBuilder::new(Codec::Snappy, 1024, 4);
    assert!(b.push_chunk(&[0u8; 2048], &locus()).is_err());
}

#[test]
fn bevy_names_are_eight_digits() {
    assert_eq!(
        bevy_name("aff4%3A%2F%2Fx/data", 0),
        "aff4%3A%2F%2Fx/data/00000000"
    );
    assert_eq!(bevy_index_name("x", 42), "x/00000042.index");
}

#[test]
fn block_hash_members_stand_beside_their_bevy() {
    assert_eq!(
        bevy_block_hash_name("x", 7, "sha1"),
        "x/00000007.blockHash.sha1"
    );
}

#[test]
fn compressed_chunks_are_not_their_input() {
    let chunk = vec![7u8; DEFAULT_CHUNK_SIZE];
    for codec in [Codec::Snappy, Codec::Lz4, Codec::Zlib] {
        let compressed = compress_chunk(codec, &chunk, &locus()).unwrap();
        assert!(compressed.len() < chunk.len() / 8, "{codec:?} compresses a run");
    }
}
