use std::io::Write as _;

use aff4tools::write::segment_compression::{
    decide_segment_placement, deflate_helps, guard_plan, plan_segment, segment_compression,
    segment_content, shrinks_past_ratio, SegmentCodec, SegmentPlacement, SegmentPlan, PROBE_TOTAL_BYTES,
    SEGMENT_DEFLATE_LEVEL,
};

/// A deterministic pseudo-random fill: a linear congruential sequence, so a
/// test needs no rng dependency and reproduces exactly. The top byte of
/// each state word is taken via `to_le_bytes`, which needs no truncating
/// cast.
fn pseudo_random(len: usize, seed: u64) -> Vec<u8> {
    let mut state = seed;
    let mut data = vec![0u8; len];
    for b in &mut data {
        state = state
            .wrapping_mul(6_364_136_223_846_793_005)
            .wrapping_add(1);
        *b = (state >> 56).to_le_bytes()[0];
    }
    data
}

/// A run of one byte is maximally compressible; the probe must say so.
#[test]
fn probe_says_yes_on_compressible() {
    let data = vec![b'A'; 4 * 1024 * 1024];
    assert!(deflate_helps(&data));
}

/// Random bytes do not compress; the probe must say so, and cheaply — this
/// is the case the whole change exists to speed up.
#[test]
fn probe_says_no_on_incompressible() {
    let data = pseudo_random(4 * 1024 * 1024, 0x9e37_79b9_7f4a_7c15);
    assert!(!deflate_helps(&data));
}

/// The probe samples across the file, not just the head: a file whose first
/// window is random but whose bulk is compressible must still be seen as
/// compressible.
#[test]
fn probe_samples_across_not_just_head() {
    let mut data = vec![0u8; 4 * 1024 * 1024];
    // First 512 KiB random-ish, rest highly compressible zeros.
    data[..512 * 1024].copy_from_slice(&pseudo_random(512 * 1024, 1));
    assert!(deflate_helps(&data), "probe missed the compressible tail");
}

/// With no forced codec, the decision follows the probe.
#[test]
fn decision_follows_probe_when_not_forced() {
    let compressible = vec![b'Z'; 2 * 1024 * 1024];
    assert_eq!(
        decide_segment_placement(&compressible, None),
        SegmentPlacement::Deflate
    );
    let incompressible = pseudo_random(2 * 1024 * 1024, 42);
    assert_eq!(
        decide_segment_placement(&incompressible, None),
        SegmentPlacement::Stored
    );
}

/// A forced codec overrides the *probe*, but not the never-grow guard.
///
/// Forced Stored is absolute: compressible content stays verbatim. Forced
/// Deflate skips the probe, so content the probe would have declined is
/// still deflated and measured — but content that does not actually shrink
/// resolves to Stored, because honoring "compress this" must never mean
/// "store it larger". A forced Deflate that *does* shrink is honored, which
/// is what distinguishes this from ignoring the flag.
#[test]
fn forced_codec_overrides_probe_but_not_the_guard() {
    let compressible = vec![b'Z'; 1024 * 1024];
    assert_eq!(
        decide_segment_placement(&compressible, Some(SegmentCodec::Stored)),
        SegmentPlacement::Stored,
        "forced Stored must not be overridden by a compressible probe"
    );
    assert_eq!(
        decide_segment_placement(&compressible, Some(SegmentCodec::Deflate)),
        SegmentPlacement::Deflate,
        "forced Deflate must be honored when it does shrink the segment"
    );
    let incompressible = pseudo_random(1024 * 1024, 7);
    assert_eq!(
        decide_segment_placement(&incompressible, Some(SegmentCodec::Deflate)),
        SegmentPlacement::Stored,
        "the never-grow guard outranks a forced Deflate that would not shrink"
    );
}

/// Empty input is Stored: there is nothing to compress and a Deflate stream
/// of empty input is larger than empty.
#[test]
fn empty_is_stored() {
    assert_eq!(
        decide_segment_placement(&[], None),
        SegmentPlacement::Stored
    );
    assert!(!deflate_helps(&[]));
}

/// Level 1, and never the library default: the whole point of pinning it.
/// A regression here silently costs 2.6x the CPU on every logical
/// acquisition, which is invisible in output and only shows up as time.
#[test]
fn the_segment_level_is_one() {
    assert_eq!(SEGMENT_DEFLATE_LEVEL, 1);
    assert_eq!(segment_compression().level(), 1);
}

/// A small compressible segment is planned as Deflate and the plan carries
/// the compressed bytes, so the writer needs no deflate of its own.
#[test]
fn a_plan_carries_the_compressed_bytes() {
    let data = vec![b'Q'; 64 * 1024];
    match plan_segment(&data, None) {
        SegmentPlan::Deflate(compressed) => {
            assert!(
                compressed.len() < data.len(),
                "a Deflate plan must be shorter than its input"
            );
            // The bytes are the real deflate output, so they must inflate
            // back to the input exactly. This is the property the writer
            // relies on when it skips compressing again.
            let mut d = flate2::write::DeflateDecoder::new(Vec::new());
            d.write_all(&compressed).unwrap();
            assert_eq!(d.finish().unwrap(), data, "plan bytes must round-trip");
        }
        SegmentPlan::Stored => panic!("compressible data must plan as Deflate"),
    }
}

/// The never-grow guard, now the only thing that decides for small files:
/// incompressible input plans as Stored even though the probe never ran.
#[test]
fn small_incompressible_falls_back_to_stored() {
    let data = pseudo_random(64 * 1024, 99);
    assert!(
        data.len() <= PROBE_TOTAL_BYTES,
        "this test needs a small file"
    );
    assert!(
        matches!(plan_segment(&data, None), SegmentPlan::Stored),
        "incompressible bytes must not be stored as Deflate"
    );
}

/// A large incompressible file is declined by the probe, which is the case
/// the probe still exists for: it avoids a full deflate of many megabytes.
#[test]
fn large_incompressible_is_declined_by_the_probe() {
    let data = pseudo_random(4 * 1024 * 1024, 0x5151);
    assert!(data.len() > PROBE_TOTAL_BYTES);
    assert!(!deflate_helps(&data));
    assert!(matches!(plan_segment(&data, None), SegmentPlan::Stored));
}

/// Forced Deflate is still guarded: honoring "compress this" must never
/// mean "store it larger".
#[test]
fn forced_deflate_that_would_grow_is_stored() {
    let data = pseudo_random(32 * 1024, 7);
    assert!(
        matches!(
            plan_segment(&data, Some(SegmentCodec::Deflate)),
            SegmentPlan::Stored
        ),
        "the guard must override a forced Deflate that would not shrink"
    );
}

/// Forced Stored never deflates, whatever the content would allow.
#[test]
fn forced_stored_never_deflates() {
    let data = vec![b'Z'; 128 * 1024];
    assert!(matches!(
        plan_segment(&data, Some(SegmentCodec::Stored)),
        SegmentPlan::Stored
    ));
}

/// Empty input is Stored: there is nothing to compress and a Deflate
/// stream of empty input is larger than empty.
#[test]
fn empty_plans_as_stored() {
    assert!(matches!(plan_segment(&[], None), SegmentPlan::Stored));
}

#[test]
fn a_sample_has_to_shrink_by_a_tenth() {
    let sample = vec![0u8; 100];
    assert!(shrinks_past_ratio(&sample, &Some(vec![0u8; 89])));
    assert!(!shrinks_past_ratio(&sample, &Some(vec![0u8; 90])));
    assert!(!shrinks_past_ratio(&sample, &None));
}

#[test]
fn a_segment_never_grows() {
    let data = vec![1u8; 10];
    assert!(matches!(
        guard_plan(&data, Some(vec![0u8; 10])),
        SegmentPlan::Stored
    ));
    assert!(matches!(guard_plan(&data, None), SegmentPlan::Stored));
    assert!(matches!(guard_plan(&data, Some(vec![0u8; 9])), SegmentPlan::Deflate(_)));
}

#[test]
fn what_a_plan_stores_is_the_segment_again() {
    let data: Vec<u8> = (0..50_000u32).map(|i| (i / 97 % 251) as u8).collect();
    match plan_segment(&data, Some(SegmentCodec::Deflate)) {
        SegmentPlan::Deflate(stored) => {
            assert_ne!(stored, data);
            assert_eq!(
                segment_content(SegmentPlacement::Deflate, &stored),
                Some(data.clone())
            );
        }
        SegmentPlan::Stored => panic!("the data shrinks"),
    }
    assert_eq!(
        segment_content(SegmentPlacement::Stored, &data),
        Some(data.clone())
    );
    assert_eq!(
        segment_content(SegmentPlacement::Deflate, &[0xff, 0xff, 0xff, 0xff]),
        None
    );
}
