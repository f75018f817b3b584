//! Deciding whether a ZIP segment's bytes are stored compressed or verbatim.
//!
//! Deflating bytes that do not compress spends time to store as much or more, so
//! such bytes are stored verbatim and only those that shrink are compressed.

use std::io::Write;

use vstd::prelude::*;

use crate::bytes;
use crate::codec::optional_bytes;

verus! {

/// The deflate level of every ZIP segment.
pub const SEGMENT_DEFLATE_LEVEL: u32 = 1;

/// A compression level.
#[derive(Debug, Clone, Copy, PartialEq, Eq, Structural)]
pub struct Compression {
    level: u32,
}

impl Compression {
    /// The level as a number.
    pub closed spec fn number(self) -> u32 {
        self.level
    }

    /// The level as a number.
    pub fn level(&self) -> (r: u32)
        ensures
            r == self.number(),
    {
        self.level
    }
}

/// The compression of every ZIP segment.
pub fn segment_compression() -> (r: Compression)
    ensures
        r.number() == SEGMENT_DEFLATE_LEVEL,
{
    Compression { level: SEGMENT_DEFLATE_LEVEL }
}

/// What raw Deflate at a level makes of a byte string, if anything.
pub uninterp spec fn deflate_encoded(data: Seq<u8>, level: u32) -> Option<Seq<u8>>;

/// What inflating raw Deflate data to its end makes of it, if anything.
pub uninterp spec fn inflated(stored: Seq<u8>) -> Option<Seq<u8>>;

/// `flate2::write::DeflateEncoder` at a level, fed once and finished: a function of
/// the bytes and the level alone, and one from which `flate2::write::DeflateDecoder`,
/// fed once and finished, makes the bytes again. `flate2` knows the levels up to nine.
#[verifier::external_body]
fn deflated(data: &[u8], level: u32) -> (r: Option<Vec<u8>>)
    requires
        level <= 9,
    ensures
        optional_bytes(r) == deflate_encoded(data@, level),
        r matches Some(c) ==> inflated(c@) == Some(data@),
{
    let mut encoder = flate2::write::DeflateEncoder::new(
        Vec::new(),
        flate2::Compression::new(level),
    );
    encoder.write_all(data).ok()?;
    encoder.finish().ok()
}

/// `flate2::write::DeflateDecoder`, fed once and finished: a function of the bytes
/// alone, which fails on what neither is raw Deflate data nor begins some.
#[verifier::external_body]
fn inflate(stored: &[u8]) -> (r: Option<Vec<u8>>)
    ensures
        optional_bytes(r) == inflated(stored@),
{
    let mut decoder = flate2::write::DeflateDecoder::new(Vec::new());
    decoder.write_all(stored).ok()?;
    decoder.finish().ok()
}

/// How a segment's bytes are stored in the ZIP.
#[derive(Debug, Clone, Copy, PartialEq, Eq, Structural)]
pub enum SegmentPlacement {
    /// The bytes verbatim.
    Stored,
    /// The bytes compressed.
    Deflate,
}

/// A decided placement, with the compressed bytes where there are any.
#[derive(Debug)]
pub enum SegmentPlan {
    /// Write the input verbatim.
    Stored,
    /// Write these bytes, which are fewer than the input.
    Deflate(Vec<u8>),
}

/// What a [`SegmentPlan`] says, as plain values.
#[verifier::ext_equal]
pub enum PlanView {
    /// Write the input verbatim.
    Stored,
    /// Write these bytes.
    Deflate(Seq<u8>),
}

impl View for SegmentPlan {
    type V = PlanView;

    open spec fn view(&self) -> PlanView {
        match self {
            SegmentPlan::Stored => PlanView::Stored,
            SegmentPlan::Deflate(v) => PlanView::Deflate(v@),
        }
    }
}

impl PlanView {
    /// Which placement this is.
    pub open spec fn placement(self) -> SegmentPlacement {
        match self {
            PlanView::Stored => SegmentPlacement::Stored,
            PlanView::Deflate(_) => SegmentPlacement::Deflate,
        }
    }
}

impl SegmentPlan {
    /// Which placement this plan calls for.
    pub fn placement(&self) -> (r: SegmentPlacement)
        ensures
            r == self@.placement(),
    {
        match self {
            SegmentPlan::Stored => SegmentPlacement::Stored,
            SegmentPlan::Deflate(_) => SegmentPlacement::Deflate,
        }
    }
}

/// A caller's own choice.
#[derive(Debug, Clone, Copy, PartialEq, Eq, Structural)]
pub enum SegmentCodec {
    /// Store verbatim, whatever the content.
    Stored,
    /// Compress, where that makes it smaller.
    Deflate,
}

/// How many bytes of a large file are sampled; a smaller one is its own sample.
pub const PROBE_TOTAL_BYTES: usize = 262144;

/// How many windows the sample is drawn from, spread over the file.
pub const PROBE_WINDOWS: usize = 4;

/// The sample must shrink to under this many tenths.
pub const PROBE_RATIO_NUM: usize = 9;

/// Tenths.
pub const PROBE_RATIO_DEN: usize = 10;

/// Where window `i` of a sample begins: the windows are evenly spaced, the first
/// at the beginning and the last at the end.
pub open spec fn window_start(len: nat, i: int) -> int {
    let window = PROBE_TOTAL_BYTES / PROBE_WINDOWS;
    (len - window) * i / (PROBE_WINDOWS - 1)
}

/// The windows of a sample.
pub open spec fn sample_windows(data: Seq<u8>, n: nat) -> Seq<u8>
    decreases n,
{
    if n == 0 {
        Seq::empty()
    } else {
        let start = window_start(data.len(), n - 1);
        sample_windows(data, (n - 1) as nat) + data.subrange(
            start,
            start + PROBE_TOTAL_BYTES / PROBE_WINDOWS,
        )
    }
}

/// What stands for some bytes when their compression is judged.
pub open spec fn sample_of(data: Seq<u8>) -> Seq<u8> {
    if data.len() <= PROBE_TOTAL_BYTES {
        data
    } else {
        sample_windows(data, PROBE_WINDOWS as nat)
    }
}

/// Whether bytes shrink past the ratio, given what compressing a sample of them
/// yields.
pub open spec fn sample_shrinks(sample: Seq<u8>, compressed: Option<Seq<u8>>) -> bool {
    match compressed {
        Some(c) => c.len() * PROBE_RATIO_DEN < sample.len() * PROBE_RATIO_NUM,
        None => false,
    }
}

/// Whether deflating some bytes is likely to shrink them.
pub open spec fn likely_to_shrink(data: Seq<u8>) -> bool {
    data.len() > 0 && sample_shrinks(
        sample_of(data),
        deflate_encoded(sample_of(data), SEGMENT_DEFLATE_LEVEL),
    )
}

/// Draw the sample of some bytes.
fn strided_sample(data: &[u8]) -> (r: Vec<u8>)
    ensures
        r@ == sample_of(data@),
{
    let length: usize = data.len();
    if length <= PROBE_TOTAL_BYTES {
        return bytes::copied(data);
    }
    let window: usize = PROBE_TOTAL_BYTES / PROBE_WINDOWS;
    let span: u128 = (length - window) as u128;
    let mut out: Vec<u8> = Vec::new();
    let mut i: usize = 0;
    while i < PROBE_WINDOWS
        invariant
            i <= PROBE_WINDOWS,
            length == data@.len(),
            window == PROBE_TOTAL_BYTES / PROBE_WINDOWS,
            window == 65536,
            length > PROBE_TOTAL_BYTES,
            span == length - window,
            out@ == sample_windows(data@, i as nat),
        decreases PROBE_WINDOWS - i,
    {
        proof {
            assert(span * i <= span * 3) by (nonlinear_arith)
                requires
                    0 <= i <= 3,
                    span >= 0,
            ;
        }
        let start: u128 = span * i as u128 / (PROBE_WINDOWS - 1) as u128;
        proof {
            assert(start == window_start(data@.len(), i as int));
            assert(start <= span);
        }
        let window_bytes = bytes::copied_range(data, start as usize, start as usize + window);
        bytes::append(&mut out, window_bytes.as_slice());
        i = i + 1;
    }
    out
}

/// Whether a sample shrinks past the ratio, given what compressing it yields.
pub fn shrinks_past_ratio(sample: &[u8], compressed: &Option<Vec<u8>>) -> (r: bool)
    ensures
        r == sample_shrinks(sample@, optional_bytes(*compressed)),
{
    let n: usize = sample.len();
    match compressed {
        Some(c) => {
            let m: usize = c.len();
            (m as u128) * (PROBE_RATIO_DEN as u128) < (n as u128) * (PROBE_RATIO_NUM as u128)
        },
        None => false,
    }
}

/// Whether deflating some bytes is likely to shrink them, judged by a sample at the
/// level that they would be written at.
pub fn deflate_helps(data: &[u8]) -> (r: bool)
    ensures
        r == likely_to_shrink(data@),
{
    let length: usize = data.len();
    if length == 0 {
        return false;
    }
    let sample = strided_sample(data);
    let compressed = deflated(sample.as_slice(), SEGMENT_DEFLATE_LEVEL);
    shrinks_past_ratio(sample.as_slice(), &compressed)
}

/// Whether some bytes are to be deflated in full at all: not where there are none,
/// not where the caller refuses, and, where the caller is silent, not where they
/// are many and a sample does not shrink.
pub open spec fn attempted(data: Seq<u8>, forced: Option<SegmentCodec>) -> bool {
    data.len() > 0 && match forced {
        Some(SegmentCodec::Stored) => false,
        Some(SegmentCodec::Deflate) => true,
        None => data.len() <= PROBE_TOTAL_BYTES || likely_to_shrink(data),
    }
}

/// The plan for bytes that were deflated: the result where it is smaller.
pub open spec fn guarded(data: Seq<u8>, compressed: Option<Seq<u8>>) -> PlanView {
    match compressed {
        Some(c) => if c.len() < data.len() {
            PlanView::Deflate(c)
        } else {
            PlanView::Stored
        },
        None => PlanView::Stored,
    }
}

/// How a segment's bytes are stored.
pub open spec fn plan_for(data: Seq<u8>, forced: Option<SegmentCodec>) -> PlanView {
    if attempted(data, forced) {
        guarded(data, deflate_encoded(data, SEGMENT_DEFLATE_LEVEL))
    } else {
        PlanView::Stored
    }
}

/// A plan to compress never stores more than the input: what it stores is strictly
/// smaller, whatever was asked for.
pub proof fn plans_never_grow(data: Seq<u8>, forced: Option<SegmentCodec>)
    ensures
        (match plan_for(data, forced) {
            PlanView::Stored => true,
            PlanView::Deflate(c) => c.len() < data.len() && deflate_encoded(
                data,
                SEGMENT_DEFLATE_LEVEL,
            ) == Some(c),
        }),
{
}

/// A caller that asks for verbatim bytes gets them.
pub proof fn forced_stored_is_stored(data: Seq<u8>)
    ensures
        plan_for(data, Some(SegmentCodec::Stored)) == PlanView::Stored,
{
}

/// The plan for bytes that were deflated.
pub fn guard_plan(data: &[u8], compressed: Option<Vec<u8>>) -> (r: SegmentPlan)
    ensures
        r@ == guarded(data@, optional_bytes(compressed)),
{
    let length: usize = data.len();
    match compressed {
        Some(c) => if c.len() < length {
            SegmentPlan::Deflate(c)
        } else {
            SegmentPlan::Stored
        },
        None => SegmentPlan::Stored,
    }
}

/// Decide how a segment's bytes are stored, and compress them if that is how.
///
/// What a plan to compress stores inflates to the bytes again, as [`segment_content`]
/// does it.
pub fn plan_segment(data: &[u8], forced: Option<SegmentCodec>) -> (r: SegmentPlan)
    ensures
        r@ == plan_for(data@, forced),
        r@ matches PlanView::Deflate(stored) ==> inflated(stored) == Some(data@),
{
    let length: usize = data.len();
    if length == 0 {
        return SegmentPlan::Stored;
    }
    match forced {
        Some(SegmentCodec::Stored) => return SegmentPlan::Stored,
        Some(SegmentCodec::Deflate) => {},
        None => {
            if length > PROBE_TOTAL_BYTES && !deflate_helps(data) {
                return SegmentPlan::Stored;
            }
        },
    }
    guard_plan(data, deflated(data, SEGMENT_DEFLATE_LEVEL))
}

/// The bytes of a segment from what is stored of it under a placement, where that is
/// what the placement makes of some bytes.
pub fn segment_content(placement: SegmentPlacement, stored: &[u8]) -> (r: Option<Vec<u8>>)
    ensures
        optional_bytes(r) == (match placement {
            SegmentPlacement::Stored => Some(stored@),
            SegmentPlacement::Deflate => inflated(stored@),
        }),
{
    match placement {
        SegmentPlacement::Stored => Some(bytes::copied(stored)),
        SegmentPlacement::Deflate => inflate(stored),
    }
}

/// Decide how a segment's bytes are stored.
pub fn decide_segment_placement(data: &[u8], forced: Option<SegmentCodec>) -> (r: SegmentPlacement)
    ensures
        r == plan_for(data@, forced).placement(),
{
    plan_segment(data, forced).placement()
}

/// Compression is used exactly where it pays: of bytes that are few, or where it is asked
/// for, the shorter of the two is stored. Nothing is gained on no bytes.
pub proof fn shorter_is_stored(data: Seq<u8>, compressed: Seq<u8>)
    requires
        deflate_encoded(data, SEGMENT_DEFLATE_LEVEL) == Some(compressed),
    ensures
        data.len() > 0 ==> plan_for(data, Some(SegmentCodec::Deflate)) == (if compressed.len()
            < data.len() {
            PlanView::Deflate(compressed)
        } else {
            PlanView::Stored
        }),
        0 < data.len() <= PROBE_TOTAL_BYTES ==> plan_for(data, None) == plan_for(
            data,
            Some(SegmentCodec::Deflate),
        ),
        plan_for(Seq::empty(), None) == PlanView::Stored,
        plan_for(Seq::empty(), Some(SegmentCodec::Deflate)) == PlanView::Stored,
{
}

} // verus!
