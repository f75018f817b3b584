use aff4tools::arn::Arn;
use aff4tools::codec::Codec;
use aff4tools::error::Locus;
use aff4tools::lexicon::Lexicon;
use aff4tools::rdf::{Graph, Term};
use aff4tools::stream::{
    parse_index, parse_index_bounded, slice_chunk, ChunkLocation, ImageStream, INDEX_ENTRY_LEN,
};

fn locus() -> Locus {
    Locus::new("/evidence/case.aff4")
}

fn entry(offset: u64, length: u32) -> Vec<u8> {
    let mut v = offset.to_le_bytes().to_vec();
    v.extend_from_slice(&length.to_le_bytes());
    v
}

/// The width is 12, not 16. Getting this wrong produces offsets that look
/// plausible enough to chase for a while.
#[test]
fn index_entries_are_twelve_bytes() {
    assert_eq!(INDEX_ENTRY_LEN, 12);

    let mut bytes = entry(0, 1974);
    bytes.extend(entry(1974, 24668));
    assert_eq!(bytes.len(), 24);

    let locations = parse_index(&bytes, &locus()).unwrap();
    assert_eq!(locations.len(), 2);
    assert_eq!(
        locations[0],
        ChunkLocation {
            offset: 0,
            length: 1974
        }
    );
    assert_eq!(
        locations[1],
        ChunkLocation {
            offset: 1974,
            length: 24668
        }
    );
}

/// Values measured from `Base-Linear.aff4`'s real index.
#[test]
fn decodes_the_measured_index_prefix() {
    let mut bytes = entry(0, 1974);
    bytes.extend(entry(1974, 24668));
    bytes.extend(entry(26642, 32751));
    bytes.extend(entry(59393, 32768));

    let locations = parse_index(&bytes, &locus()).unwrap();
    assert_eq!(locations.len(), 4);
    // Chunk 3 is exactly one chunk long: stored verbatim, not compressed.
    assert_eq!(locations[3].length, 32768);
}

#[test]
fn a_ragged_index_is_malformed() {
    let mut bytes = entry(0, 100);
    bytes.push(0xAB);

    let err = parse_index(&bytes, &locus()).unwrap_err();
    assert!(err.is_integrity_finding(), "{}", err.to_string());
    assert!(err.to_string().contains("13 bytes"), "{}", err.to_string());
    assert!(err.to_string().contains("1 left over"), "{}", err.to_string());
}

#[test]
fn an_empty_index_is_malformed() {
    let err = parse_index(&[], &locus()).unwrap_err();
    assert!(err.is_integrity_finding(), "{}", err.to_string());
}

/// An index padded far past `chunksInSegment` is refused.
///
/// The padded form is cheap to write and expensive to read: 256 MiB of
/// zeros stores as a few hundred kilobytes and previously parsed into
/// 22 million `ChunkLocation`s, all of them bogus. The stream's own
/// declared `chunksInSegment` is the bound.
#[test]
fn an_index_longer_than_chunks_in_segment_is_malformed() {
    // Four entries against a stream declaring two chunks per bevy.
    let mut bytes = entry(0, 10);
    bytes.extend(entry(10, 10));
    bytes.extend(entry(20, 10));
    bytes.extend(entry(30, 10));

    let err = parse_index_bounded(&bytes, 2, &locus()).unwrap_err();
    assert!(err.is_integrity_finding(), "{}", err.to_string());
    let text = err.to_string();
    assert!(text.contains("lists 4 chunks"), "{text}");
    assert!(text.contains("declares 2"), "{text}");

    // Zero-padding is what a bomb actually looks like: entries that decode
    // to nothing but still cost an allocation each.
    let padded = vec![0u8; 4096 * INDEX_ENTRY_LEN];
    assert!(parse_index_bounded(&padded, 2, &locus()).is_err());
}

/// An index exactly filling its bevy, and a short final one, both pass.
#[test]
fn an_index_within_chunks_in_segment_is_accepted() {
    let mut bytes = entry(0, 10);
    bytes.extend(entry(10, 10));

    assert_eq!(parse_index_bounded(&bytes, 2, &locus()).unwrap().len(), 2);
    // The last bevy of a stream is short, so fewer entries must be fine.
    assert_eq!(
        parse_index_bounded(&bytes, 2048, &locus()).unwrap().len(),
        2
    );
}

/// 1452 bytes is the real length of `Base-Linear.aff4`'s index.
#[test]
fn the_measured_index_length_yields_the_measured_chunk_count() {
    assert_eq!(1452 % INDEX_ENTRY_LEN, 0);
    assert_eq!(1452 / INDEX_ENTRY_LEN, 121);
}

#[test]
fn a_chunk_past_the_end_of_its_bevy_is_malformed() {
    let bevy = vec![0u8; 100];
    let err = slice_chunk(
        &bevy,
        ChunkLocation {
            offset: 90,
            length: 20,
        },
        7,
        &locus(),
    )
    .unwrap_err();

    assert!(err.is_integrity_finding(), "{}", err.to_string());
    let text = err.to_string();
    assert!(text.contains("chunk 7"), "{text}");
    assert!(text.contains("90..110"), "{text}");
    assert!(text.contains("100 bytes"), "{text}");
}

#[test]
fn a_zero_length_chunk_is_malformed() {
    let bevy = vec![0u8; 100];
    let err = slice_chunk(
        &bevy,
        ChunkLocation {
            offset: 0,
            length: 0,
        },
        0,
        &locus(),
    )
    .unwrap_err();
    assert!(err.is_integrity_finding(), "{}", err.to_string());
}

#[test]
fn an_offset_and_length_that_overflow_are_malformed() {
    let bevy = vec![0u8; 100];
    let err = slice_chunk(
        &bevy,
        ChunkLocation {
            offset: u64::MAX,
            length: u32::MAX,
        },
        0,
        &locus(),
    )
    .unwrap_err();
    assert!(err.is_integrity_finding(), "{}", err.to_string());
}

#[test]
fn a_chunk_is_borrowed_within_bounds() {
    let bevy: Vec<u8> = (0..100u8).collect();
    let chunk = slice_chunk(
        &bevy,
        ChunkLocation {
            offset: 10,
            length: 5,
        },
        0,
        &locus(),
    )
    .unwrap();
    assert_eq!(chunk, &[10, 11, 12, 13, 14]);
}

/// Bevy names are `%08d`, appended to the stream's escaped member name.
#[test]
fn bevy_names_are_eight_digit_zero_padded() {
    let volume = Arn::parse("aff4://685e15cc-d0fb-4dbc-ba47-48117fc77044", &locus()).unwrap();
    let stream = ImageStream {
        arn: Arn::parse("aff4://c215ba20-5648-4209-a793-1f918c723610", &locus()).unwrap(),
        size: 3_964_928,
        chunk_size: 32768,
        chunks_in_segment: 2048,
        codec: Codec::Snappy,
    };

    assert_eq!(
        stream.bevy_name(&volume, 0).unwrap(),
        "aff4%3A%2F%2Fc215ba20-5648-4209-a793-1f918c723610/00000000"
    );
    assert_eq!(
        stream.bevy_name(&volume, 42).unwrap(),
        "aff4%3A%2F%2Fc215ba20-5648-4209-a793-1f918c723610/00000042"
    );
}

/// `Base-Linear.aff4`: 3964928 bytes at 32768 per chunk, 2048 per bevy —
/// 121 chunks, all within one bevy.
#[test]
fn bevy_count_follows_from_size() {
    let stream = ImageStream {
        arn: Arn::parse("aff4://c215ba20-5648-4209-a793-1f918c723610", &locus()).unwrap(),
        size: 3_964_928,
        chunk_size: 32768,
        chunks_in_segment: 2048,
        codec: Codec::Snappy,
    };
    assert_eq!(stream.bevy_count(), 1);

    // A stream exactly filling two bevies.
    let two = ImageStream {
        size: 32768 * 2048 * 2,
        ..stream.clone()
    };
    assert_eq!(two.bevy_count(), 2);

    // One byte more needs a third.
    let three = ImageStream {
        size: 32768 * 2048 * 2 + 1,
        ..stream.clone()
    };
    assert_eq!(three.bevy_count(), 3);
}

#[test]
fn a_property_that_is_no_number_is_quoted_with_the_reason() {
    let subject = "aff4://c215ba20-5648-4209-a793-1f918c723610";
    let arn = Arn::parse(subject, &locus()).unwrap();
    let lexicon = Lexicon::standard();
    let integer = "http://www.w3.org/2001/XMLSchema#integer";
    for (value, said) in [
        ("12x", "size is \"12x\", which is not a whole number: invalid digit found in string"),
        ("-1", "size is \"-1\", which is not a whole number: invalid digit found in string"),
        ("", "size is \"\", which is not a whole number: cannot parse integer from empty string"),
        (
            " \t",
            "size is \" \\t\", which is not a whole number: cannot parse integer from empty string",
        ),
        (
            "18446744073709551616",
            "size is \"18446744073709551616\", which is not a whole number: \
             number too large to fit in target type",
        ),
    ] {
        let mut graph = Graph::new();
        graph.add(subject, &lexicon.iri(lexicon.size), Term::typed(value, integer));
        let err = ImageStream::open(&arn, &graph, &lexicon, &locus()).unwrap_err();
        assert!(err.is_integrity_finding());
        assert!(err.to_string().ends_with(said), "{}", err.to_string());
        let parsed = value.trim().parse::<u64>().unwrap_err();
        assert!(err.to_string().ends_with(&format!(
            "size is {value:?}, which is not a whole number: {parsed}"
        )));
    }
}
