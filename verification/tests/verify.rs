use aff4tools::arn::Arn;
use aff4tools::error::Locus;
use aff4tools::hash::{digest_of, sha512_raw, Digest, MultiHasher};
use aff4tools::model::{HashAlgorithm, ObjectRole, StoredHash};
use aff4tools::verify::blocks::{first_difference, hex_to_bytes, to_hex, BlockDigests};
use aff4tools::verify::maps::{block_hash_order, MapSegments};
use aff4tools::verify::report::{Coverage, HashCheck, Outcome, VerificationReport};

fn arn(text: &str) -> Arn {
    Arn::parse(text, &Locus::new("/x.aff4")).unwrap()
}

fn stored(predicate: &str, algorithm: HashAlgorithm, hex: &str) -> StoredHash {
    StoredHash {
        algorithm,
        hex: hex.to_owned(),
        predicate: predicate.to_owned(),
    }
}

#[test]
fn hex_round_trips_through_bytes() {
    assert_eq!(hex_to_bytes("000fffa5"), vec![0x00, 0x0f, 0xff, 0xa5]);
    assert_eq!(to_hex(&[0x00, 0x0f, 0xff, 0xa5]), "000fffa5");
    assert_eq!(hex_to_bytes(""), Vec::<u8>::new());
}

/// The empty input's SHA-512, as raw bytes — the value `sha512_raw` must
/// produce for an absent `mapPath`.
#[test]
fn sha512_raw_is_the_digest_not_its_hex() {
    let raw = sha512_raw(b"");
    assert_eq!(
        raw.len(),
        64,
        "a raw SHA-512 is 64 bytes, not 128 characters"
    );
    assert_eq!(to_hex(&raw)[..16], *"cf83e1357eefb8bd");
}

/// `blockMapHash` concatenates raw digests; `mapHash` concatenates segment
/// bytes. Conflating them yields a clean-looking wrong answer.
#[test]
fn map_hash_concatenates_bytes_not_digests() {
    let segments = MapSegments {
        map: b"MMM".to_vec(),
        idx: b"II".to_vec(),
        path: b"P".to_vec(),
    };
    assert_eq!(segments.concatenated(), b"MMMIIP".to_vec());

    // The digest-concatenation form is 3 x 64 bytes, and differs.
    let digests = [
        sha512_raw(&segments.map),
        sha512_raw(&segments.idx),
        sha512_raw(&segments.path),
    ]
    .concat();
    assert_eq!(digests.len(), 192);
    assert_ne!(
        digest_of(HashAlgorithm::Sha512, &segments.concatenated()),
        digest_of(HashAlgorithm::Sha512, &digests)
    );
}

/// hashOrderingMap order, not alphabetical and not metadata order.
#[test]
fn block_hash_order_is_the_reference_ordering() {
    assert_eq!(
        block_hash_order(),
        ["md5", "sha1", "sha256", "sha512", "blake2b"]
    );

    let mut alphabetical = block_hash_order();
    alphabetical.sort_unstable();
    assert_ne!(
        block_hash_order(), alphabetical,
        "the ordering is defined by the reference implementation, not by \
         sorting; a sorted guess would put blake2b first"
    );
}

/// A check that did not run must never read as a pass.
#[test]
fn a_declined_check_is_not_a_match() {
    let hash = stored("hash", HashAlgorithm::Sha1, "abc");
    let check = HashCheck::declined(
        &arn("aff4://s"),
        ObjectRole::ImageStream,
        &hash,
        Coverage::StoredStream,
        "no reason",
    );

    assert!(!check.outcome.was_checked());
    assert!(!check.outcome.is_mismatch());
    assert_ne!(check.outcome, Outcome::Match);
    assert!(
        check.actual.is_empty(),
        "nothing was computed, so nothing is shown"
    );
}

/// Comparison must require the algorithm to agree, not just the value.
#[test]
fn a_comparison_respects_the_algorithm() {
    let computed = digest_of(HashAlgorithm::Sha1, b"abc").unwrap();

    let right = stored(
        "hash",
        HashAlgorithm::Sha1,
        "a9993e364706816aba3e25717850c26c9cd0d89d",
    );
    let check = HashCheck::compared(
        &arn("aff4://s"),
        ObjectRole::ImageStream,
        &right,
        Coverage::StoredStream,
        &computed,
    );
    assert_eq!(check.outcome, Outcome::Match);

    let wrong_algorithm = StoredHash {
        algorithm: HashAlgorithm::Md5,
        ..right
    };
    let check = HashCheck::compared(
        &arn("aff4://s"),
        ObjectRole::ImageStream,
        &wrong_algorithm,
        Coverage::StoredStream,
        &computed,
    );
    assert_eq!(check.outcome, Outcome::Mismatch);
}

#[test]
fn a_report_counts_matches_mismatches_and_declines_separately() {
    let hash = stored("hash", HashAlgorithm::Sha1, "abc");
    let computed = digest_of(HashAlgorithm::Sha1, b"abc").unwrap();

    let report = VerificationReport {
        source_path: "/x.aff4".into(),
        checks: vec![
            HashCheck::compared(
                &arn("aff4://s"),
                ObjectRole::ImageStream,
                &stored(
                    "hash",
                    HashAlgorithm::Sha1,
                    "a9993e364706816aba3e25717850c26c9cd0d89d",
                ),
                Coverage::StoredStream,
                &computed,
            ),
            HashCheck::compared(
                &arn("aff4://s"),
                ObjectRole::ImageStream,
                &hash,
                Coverage::StoredStream,
                &computed,
            ),
            HashCheck::declined(
                &arn("aff4://s"),
                ObjectRole::ImageStream,
                &hash,
                Coverage::StoredStream,
                "unknown input",
            ),
        ],
        read_accounting: Vec::new(),
        notes: Vec::new(),
        block_hashes_verified: false,
    };

    assert_eq!(report.checked_count(), 2);
    assert_eq!(report.match_count(), 1);
    assert_eq!(report.not_verifiable_count(), 1);
    assert!(report.has_mismatch());
}

/// Block digests must be cut at chunk boundaries regardless of how the
/// stream delivers its slices.
#[test]
fn block_digests_are_cut_at_chunk_boundaries() {
    let chunk_size = 100usize;
    let data: Vec<u8> = (0..250u32).map(|i| (i % 251) as u8).collect();

    // Delivered as one slice.
    let mut whole = BlockDigests::all();
    let mut carry = Vec::new();
    whole.feed(&data, chunk_size, &mut carry);
    whole.finish(&mut carry);

    // Delivered in awkward pieces that cross boundaries.
    let mut pieces = BlockDigests::all();
    let mut carry = Vec::new();
    for piece in data.chunks(37) {
        pieces.feed(piece, chunk_size, &mut carry);
    }
    pieces.finish(&mut carry);

    assert_eq!(whole.md5, pieces.md5);
    assert_eq!(whole.sha1, pieces.sha1);

    // Three chunks: 100, 100, and a short 50.
    assert_eq!(whole.md5.as_ref().unwrap().len(), 3 * 16);
    assert_eq!(whole.sha1.as_ref().unwrap().len(), 3 * 20);

    // The last one is the short chunk's digest, not a padded one.
    let expected = digest_of(HashAlgorithm::Md5, &data[200..250]).unwrap();
    assert_eq!(to_hex(&whole.md5.as_ref().unwrap()[32..48]), expected.hex());
}

/// A mismatch must localise itself: "chunk 47" is actionable, "the digests
/// differ" is not.
#[test]
fn the_first_differing_block_is_identified() {
    let a = vec![0u8; 16 * 5];
    let mut b = a.clone();
    assert_eq!(first_difference(&a, &b, 16), None);

    // A change inside the third digest.
    b[16 * 2 + 3] = 0xFF;
    assert_eq!(first_difference(&a, &b, 16), Some(2));

    // Differing counts: the first one that is missing.
    let short = vec![0u8; 16 * 3];
    assert_eq!(first_difference(&a, &short, 16), Some(3));
}

#[test]
fn coverage_distinguishes_a_stream_from_an_image() {
    assert!(Coverage::StoredStream.describe().contains("stored"));
    assert!(Coverage::WholeImage.describe().contains("described"));
    assert_ne!(
        Coverage::StoredStream.describe(),
        Coverage::WholeImage.describe(),
        "a stream digest must not read as an image digest"
    );
}

#[test]
fn digests_do_not_depend_on_how_the_bytes_come() {
    let data: Vec<u8> = (0..5000u32).map(|i| (i % 251) as u8).collect();
    let algorithms = [
        HashAlgorithm::Md5,
        HashAlgorithm::Blake3,
        HashAlgorithm::Sha1,
        HashAlgorithm::Sha256,
        HashAlgorithm::Sha512,
    ];
    for step in [1, 7, 64, 4096, 5000] {
        let mut hasher = MultiHasher::for_algorithms(&algorithms);
        for piece in data.chunks(step) {
            hasher.update(piece);
        }
        let digests = hasher.finish();
        let expected: Vec<Digest> = algorithms
            .iter()
            .filter_map(|a| digest_of(*a, &data))
            .collect();
        assert_eq!(digests, expected);
    }
    let mut hasher = MultiHasher::for_algorithms(&[HashAlgorithm::Md5, HashAlgorithm::Sha1]);
    hasher.update(b"a");
    hasher.update(b"bc");
    let hexes: Vec<String> = hasher.finish().into_iter().map(|d| d.hex().to_owned()).collect();
    assert_eq!(
        hexes,
        [
            "900150983cd24fb0d6963f7d28e17f72",
            "a9993e364706816aba3e25717850c26c9cd0d89d"
        ]
    );
}
