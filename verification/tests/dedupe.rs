use aff4tools::write::dedupe::{block_hash_arn, slice_arn, ChunkPool};

/// §4's Block Hash ARN form, as `broken-dedupe.aff4` writes it.
#[test]
fn block_hash_arns_match_the_corpus_form() {
    let arn = block_hash_arn(&[0x00, 0x53, 0x74, 0x19]);
    assert_eq!(arn, "aff4:sha512:00537419");
}

/// The Slice Map syntax, verbatim from the paper's example.
#[test]
fn slice_arns_match_the_papers_example() {
    let arn = slice_arn("aff4://32f40158-4abe-48d5-9511-d92cbfa62fa9", 0, 0x8000);
    assert_eq!(
        arn,
        "aff4://32f40158-4abe-48d5-9511-d92cbfa62fa9[0x0:0x8000]"
    );
    // And the corpus's non-zero offset form.
    assert_eq!(
        slice_arn("aff4://6a1e6a1a", 0x4f_8000, 0x8000),
        "aff4://6a1e6a1a[0x4f8000:0x8000]"
    );
}

/// Identical content must resolve to one stored chunk.
#[test]
fn identical_chunks_are_stored_once() {
    let mut pool = ChunkPool::new(16);
    let block = vec![0xABu8; 16];

    let a = pool.absorb(&block);
    let b = pool.absorb(&block);

    assert_eq!(a.target_ids, b.target_ids, "same content, same chunk");
    assert_eq!(pool.unique_chunks(), 1, "stored once");
    assert_eq!(pool.presented_bytes(), 32, "presented twice");
    assert_eq!(pool.stored_bytes(), 16, "stored once");
    assert_eq!(pool.saved_bytes(), 16);
}

/// Different content must not collapse.
#[test]
fn distinct_chunks_are_kept_apart() {
    let mut pool = ChunkPool::new(16);
    let a = vec![0x01u8; 16];
    let b = vec![0x02u8; 16];

    let ra = pool.absorb(&a);
    let rb = pool.absorb(&b);

    assert_ne!(ra.target_ids, rb.target_ids);
    assert_eq!(pool.unique_chunks(), 2);
    assert_eq!(pool.saved_bytes(), 0);
}

/// §4: a short final chunk is NUL-padded, and the file's true size is kept
/// so the padding can be trimmed on read.
#[test]
fn short_final_chunks_are_nul_padded_but_size_is_true() {
    let mut pool = ChunkPool::new(16);
    let data = vec![0xFFu8; 20]; // one full chunk plus 4 bytes

    let result = pool.absorb(&data);

    assert_eq!(result.size, 20, "the recorded size is the true length");
    assert_eq!(result.target_ids.len(), 2, "two chunks, the second padded");
    assert_eq!(
        pool.stored_bytes(),
        32,
        "both pooled chunks are full-length; the padding is real stored content"
    );
}

/// The same short content must hash the same wherever it appears.
///
/// A short chunk is padded before hashing, so its Block Hash ARN must
/// depend only on the file's own bytes — not on where in the file it sits,
/// nor on what the pool absorbed before it. Two files ending in the same
/// 3-byte tail must therefore share that tail's stored chunk.
#[test]
fn identical_short_tails_dedupe_against_each_other() {
    let mut pool = ChunkPool::new(8);
    // Two different files whose final partial chunks are identical.
    let mut first = vec![0xFFu8; 8];
    first.extend_from_slice(&[0x11, 0x11, 0x11]);
    let mut second = vec![0xAAu8; 8];
    second.extend_from_slice(&[0x11, 0x11, 0x11]);

    let a = pool.absorb(&first);
    let b = pool.absorb(&second);

    assert_ne!(
        a.target_ids[0], b.target_ids[0],
        "the differing first chunks must stay distinct"
    );
    assert_eq!(
        a.target_ids[1], b.target_ids[1],
        "identical padded tails must resolve to one stored chunk"
    );
    assert_eq!(
        pool.unique_chunks(),
        3,
        "two distinct heads plus one shared tail"
    );
}

/// A tail that is only NUL bytes must not collide with a padded short tail
/// of the same length — the padding is inside the hashed content, so this
/// holds by construction, and the test pins it.
#[test]
fn padding_participates_in_the_hash() {
    let mut pool = ChunkPool::new(8);
    let short = vec![0xAAu8; 3];
    let padded_equivalent = {
        let mut v = vec![0xAAu8; 3];
        v.resize(8, 0);
        v
    };

    let a = pool.absorb(&short);
    let b = pool.absorb(&padded_equivalent);

    // Same stored chunk (padding makes them identical) but different sizes,
    // which is exactly why `aff4:size` must be recorded per file.
    assert_eq!(a.target_ids, b.target_ids);
    assert_eq!(a.size, 3);
    assert_eq!(b.size, 8);
}
