//! Verifying streams, the digests of their chunks, and an image's digest along
//! with them.

use vstd::prelude::*;

use crate::arn::{member_of, Arn, NameMapping};
use crate::bytes;
use crate::codec::optional_bytes;
use crate::error::{
    copied_text, error_text, malformed, optional_text, Error, ErrorView, Locus, LocusView,
};
use crate::hash::{
    computable, digest_of, digest_view, digest_views, digests_under, Digest, DigestView,
    MultiHasher,
};
use crate::lexicon::Lexicon;
use crate::model::{stored_views, HashAlgorithm, ObjectRole, StoredHash, StoredHashView};
use crate::rdf::{Graph, TripleView};
use crate::stream::{
    bevies_of, bevy_member_name, stream_content, stream_declared, stream_events,
    stream_events_are_of_reading, stream_slices,
    ByteSink, ImageStream, StreamView, INDEX_SUFFIX,
};
use crate::text;
use crate::verify::blocks::{
    block_hash_segments, block_segments, cut, first_difference, first_differing, full_chunks,
    pieces_go_on, remainder, wanted_digests, with_twice, BlockDigests, BlockDigestsView,
};
use crate::verify::container::{
    after_runs, copied_runs, count_run, counted, described_bytes, feed_described, image_content,
    no_pattern_text, run_content, run_views, runs_have_their_length, stream_views, streams_ok,
    Aff4Object, Image, ImageRun, ImageView, ObjectView, Part, RunView,
};
use crate::verify::maps::{
    all_digest_checks, all_skipped, digest_check, joined_segments, push_all_skipped, read_joined,
    uncomputable, uncomputable_text, unreadable_text,
};
use crate::verify::report::{
    capped_sum, classify_read_failure, compared_check, declined_check, failure_cause, in_step,
    in_step_after_reading, in_step_before_reading, in_step_chain, in_step_of_reading,
    in_step_reading, in_step_still, in_step_unread, no_reading, push_check, skipped_check,
    verdict, CheckView, Coverage, Declined, HashCheck, ImageAccounting, ImageAccountingView,
    NoProgress, Outcome, ProgressObserver, ReadAccounting, ReadAccountingView, Reading, ReportView,
    VerificationReport,
};
use crate::volume::Volume;

verus! {

/// What to verify.
#[derive(Debug, Clone, Copy)]
pub struct VerifyOptions {
    /// Whether to recompute the digest of every chunk.
    pub block_hashes: bool,
}

impl Default for VerifyOptions {
    /// The digest of every chunk is recomputed.
    fn default() -> (r: Self)
        ensures
            r.block_hashes,
    {
        VerifyOptions { block_hashes: true }
    }
}

/// An image's digest as far as the passes over its streams have carried it.
pub struct FusedImage {
    /// The image.
    pub arn: Arn,
    /// Its role.
    pub role: ObjectRole,
    /// The recorded digests to compare.
    pub hashes: Vec<StoredHash>,
    /// The bytes so far, in the order of the image's address space.
    pub hasher: MultiHasher,
    /// The runs of the address space, in order.
    pub runs: Vec<ImageRun>,
    /// How many runs have been delivered.
    pub position: usize,
    /// What has been delivered.
    pub accounting: ReadAccounting,
    /// The image's declared length.
    pub size: u64,
    /// Why the passes cannot give the digest, once they cannot.
    pub failure: Option<String>,
}

/// What a [`FusedImage`] holds, as plain values.
#[verifier::ext_equal]
pub struct FusedView {
    /// The image.
    pub arn: Seq<char>,
    /// Its role.
    pub role: ObjectRole,
    /// The recorded digests to compare.
    pub hashes: Seq<StoredHashView>,
    /// The bytes so far, in the order of the image's address space.
    pub content: Seq<u8>,
    /// The runs of the address space, in order.
    pub runs: Seq<RunView>,
    /// How many runs have been delivered.
    pub position: nat,
    /// What has been delivered.
    pub accounting: ReadAccountingView,
    /// The image's declared length.
    pub size: u64,
    /// Why the passes cannot give the digest, once they cannot.
    pub failure: Option<Seq<char>>,
}

/// The algorithms of a list of recorded digests.
pub open spec fn algorithms_of(hashes: Seq<StoredHashView>) -> Seq<HashAlgorithm> {
    Seq::new(hashes.len(), |i: int| hashes[i].algorithm)
}

/// The algorithms of a list of recorded digests.
pub fn algorithms(hashes: &Vec<StoredHash>) -> (r: Vec<HashAlgorithm>)
    ensures
        r@ == algorithms_of(stored_views(hashes@)),
{
    let mut out: Vec<HashAlgorithm> = Vec::new();
    let mut i: usize = 0;
    while i < hashes.len()
        invariant
            i <= hashes.len(),
            out@ == algorithms_of(stored_views(hashes@)).take(i as int),
        decreases hashes.len() - i,
    {
        out.push(hashes[i].algorithm);
        proof {
            assert(algorithms_of(stored_views(hashes@)).take(i + 1) =~= algorithms_of(
                stored_views(hashes@),
            ).take(i as int).push(hashes@[i as int].algorithm));
        }
        i = i + 1;
    }
    proof {
        assert(algorithms_of(stored_views(hashes@)).take(i as int) =~= algorithms_of(
            stored_views(hashes@),
        ));
    }
    out
}

impl View for FusedImage {
    type V = FusedView;

    open spec fn view(&self) -> FusedView {
        FusedView {
            arn: self.arn@,
            role: self.role,
            hashes: stored_views(self.hashes@),
            content: self.hasher.content(),
            runs: run_views(self.runs@),
            position: self.position as nat,
            accounting: self.accounting@,
            size: self.size,
            failure: optional_text(self.failure),
        }
    }
}

/// The streams that the first `n` runs draw on, each with how far it has been
/// covered; nothing where a stream comes back after another, or is not covered
/// from its beginning and in order.
pub open spec fn tracked_runs(runs: Seq<RunView>, n: nat) -> Option<Seq<(Seq<char>, u64)>>
    decreases n,
{
    if n == 0 {
        Some(Seq::empty())
    } else {
        match tracked_runs(runs, (n - 1) as nat) {
            None => None,
            Some(seen) => match runs[n - 1] {
                RunView::Described { kind: _, pattern: _, offset: _, length: _ } => Some(seen),
                RunView::Stored { stream, target_offset, length } => if seen.len() > 0
                    && seen.last().0 == stream {
                    if seen.last().1 == target_offset && target_offset + length <= u64::MAX {
                        Some(seen.drop_last().push((stream, (target_offset + length) as u64)))
                    } else {
                        None
                    }
                } else if exists|i: int| 0 <= i < seen.len() && (#[trigger] seen[i]).0 == stream {
                    None
                } else if target_offset == 0 {
                    Some(seen.push((stream, length)))
                } else {
                    None
                },
            },
        }
    }
}

/// Whether every stream that was drawn on was drawn on to its end.
pub open spec fn all_covered(seen: Seq<(Seq<char>, u64)>, streams: Seq<StreamView>) -> bool {
    forall|i: int, j: int|
        0 <= i < streams.len() && 0 <= j < seen.len() && (#[trigger] seen[j]).0 == (
        #[trigger] streams[i]).arn ==> seen[j].1 == streams[i].size
}

/// Whether the passes over an image's streams, one after the other, deliver its
/// stored bytes in the order of its address space: each stream is drawn on in
/// one stretch, from its beginning to its end.
pub open spec fn fusible(image: ImageView) -> bool {
    !image.striped && (match tracked_runs(image.runs, image.runs.len()) {
        None => false,
        Some(seen) => all_covered(seen, image.streams),
    })
}

/// An image's digest with nothing delivered yet.
pub open spec fn fused_start(
    object: ObjectView,
    image: ImageView,
    hashes: Seq<StoredHashView>,
) -> FusedView {
    FusedView {
        arn: object.arn,
        role: object.role,
        hashes,
        content: Seq::empty(),
        runs: image.runs,
        position: 0,
        accounting: ReadAccountingView {
            stored: 0,
            described: 0,
            unknown_placeholder: 0,
            gap_filled: 0,
            gap_fill: image.composition.gap_fill,
        },
        size: image.size,
        failure: None,
    }
}

/// A run that cannot be tracked leaves the rest untracked.
proof fn untracked_stays(runs: Seq<RunView>, m: nat, n: nat)
    requires
        m <= n,
        tracked_runs(runs, m) is None,
    ensures
        tracked_runs(runs, n) is None,
    decreases n,
{
    if m < n {
        untracked_stays(runs, m, (n - 1) as nat);
    }
}

/// What a list of stream names and lengths says.
pub open spec fn seen_views(seen: Seq<(Arn, u64)>) -> Seq<(Seq<char>, u64)> {
    Seq::new(seen.len(), |i: int| (seen[i].0@, seen[i].1))
}

/// Whether a name is among those seen.
fn has_seen(seen: &Vec<(Arn, u64)>, stream: &Arn) -> (r: bool)
    ensures
        r == (exists|i: int|
            0 <= i < seen@.len() && (#[trigger] seen_views(seen@)[i]).0 == stream@),
{
    let mut i: usize = 0;
    while i < seen.len()
        invariant
            i <= seen.len(),
            forall|k: int| 0 <= k < i ==> (#[trigger] seen_views(seen@)[k]).0 != stream@,
        decreases seen.len() - i,
    {
        if text::same(seen[i].0.as_str(), stream.as_str()) {
            proof {
                assert(seen_views(seen@)[i as int].0 == stream@);
            }
            return true;
        }
        i = i + 1;
    }
    false
}

/// Take one more run of an image into account; `false` where it is out of order.
fn track_run(seen: &mut Vec<(Arn, u64)>, run: &ImageRun, Ghost(runs): Ghost<Seq<RunView>>, Ghost(n): Ghost<nat>) -> (r:
    bool)
    requires
        n < runs.len(),
        runs[n as int] == run@,
        tracked_runs(runs, n) == Some(seen_views(old(seen)@)),
    ensures
        r ==> tracked_runs(runs, n + 1) == Some(seen_views(final(seen)@)),
        !r ==> tracked_runs(runs, n + 1) is None,
{
    match run {
        ImageRun::Described { kind: _, pattern: _, offset: _, length: _ } => true,
        ImageRun::Stored { stream, target_offset, length } => {
            let count: usize = seen.len();
            let ghost before = seen_views(seen@);
            proof {
                if count > 0 {
                    assert(before.last() == (seen@[count - 1].0@, seen@[count - 1].1));
                }
            }
            if count > 0 && text::same(seen[count - 1].0.as_str(), stream.as_str()) {
                if seen[count - 1].1 != *target_offset {
                    return false;
                }
                match target_offset.checked_add(*length) {
                    None => false,
                    Some(end) => {
                        let _ = seen.pop();
                        seen.push((stream.clone(), end));
                        proof {
                            assert(seen_views(seen@) =~= before.drop_last().push((stream@, end)));
                        }
                        true
                    },
                }
            } else if has_seen(seen, stream) {
                false
            } else if *target_offset == 0 {
                seen.push((stream.clone(), *length));
                proof {
                    assert(seen_views(seen@) =~= before.push((stream@, *length)));
                }
                true
            } else {
                false
            }
        },
    }
}

/// Whether every stream that has been seen has been covered to its end.
fn covered(seen: &Vec<(Arn, u64)>, streams: &Vec<ImageStream>) -> (r: bool)
    ensures
        r == all_covered(seen_views(seen@), stream_views(streams@)),
{
    let ghost s = seen_views(seen@);
    let ghost t = stream_views(streams@);
    let mut i: usize = 0;
    while i < streams.len()
        invariant
            i <= streams.len(),
            s == seen_views(seen@),
            t == stream_views(streams@),
            forall|a: int, b: int|
                0 <= a < i && 0 <= b < seen@.len() && (#[trigger] s[b]).0 == (
                #[trigger] t[a]).arn ==> s[b].1 == t[a].size,
        decreases streams.len() - i,
    {
        let mut j: usize = 0;
        while j < seen.len()
            invariant
                i < streams.len(),
                j <= seen.len(),
                s == seen_views(seen@),
                t == stream_views(streams@),
                forall|b: int|
                    0 <= b < j && (#[trigger] s[b]).0 == t[i as int].arn ==> s[b].1
                        == t[i as int].size,
            decreases seen.len() - j,
        {
            if text::same(seen[j].0.as_str(), streams[i].arn.as_str()) && seen[j].1
                != streams[i].size {
                proof {
                    assert(s[j as int].0 == t[i as int].arn);
                    assert(s[j as int].1 != t[i as int].size);
                }
                return false;
            }
            proof {
                assert(s[j as int].0 == seen@[j as int].0@);
            }
            j = j + 1;
        }
        i = i + 1;
    }
    true
}

impl FusedView {
    /// Described runs delivered until the next stored one, or the end.
    pub open spec fn emitted(self, locus: LocusView) -> FusedView
        decreases self.runs.len() - self.position,
    {
        if self.position < self.runs.len() {
            match self.runs[self.position as int] {
                RunView::Stored { stream: _, target_offset: _, length: _ } => self,
                RunView::Described { kind: _, pattern, offset, length } => if pattern.len() == 0 {
                    FusedView {
                        failure: Some(
                            "a described region could not be produced: "@ + error_text(
                                malformed(locus, no_pattern_text(offset as nat)),
                            ),
                        ),
                        ..self
                    }
                } else {
                    (FusedView {
                        content: self.content + described_bytes(
                            pattern,
                            offset as nat,
                            length as nat,
                        ),
                        accounting: counted(
                            self.accounting,
                            self.runs[self.position as int],
                        ),
                        position: self.position + 1,
                        ..self
                    }).emitted(locus)
                },
            }
        } else {
            self
        }
    }

    /// What is ready for a stream: the described runs before it delivered.
    pub open spec fn before_stream(self, locus: LocusView) -> FusedView {
        if self.failure is Some {
            self
        } else {
            self.emitted(locus)
        }
    }

    /// Whether the next run draws on a stream.
    pub open spec fn awaits(self, stream: Seq<char>) -> bool {
        self.position < self.runs.len() && (match self.runs[self.position as int] {
            RunView::Stored { stream: next, target_offset: _, length: _ } => next == stream,
            _ => false,
        })
    }

    /// A stream's bytes taken.
    pub open spec fn fed(self, data: Seq<u8>) -> FusedView {
        FusedView {
            content: self.content + data,
            accounting: ReadAccountingView {
                stored: capped_sum(self.accounting.stored as int, data.len() as int),
                ..self.accounting
            },
            ..self
        }
    }

    /// The stored run that a finished pass covered, closed.
    pub open spec fn after_stream(self) -> FusedView {
        if self.position < self.runs.len()
            && self.runs[self.position as int] is Stored {
            FusedView { position: self.position + 1, ..self }
        } else {
            self
        }
    }

    /// Given up for a reason, unless it was before.
    pub open spec fn abandon(self, reason: Seq<char>) -> FusedView {
        if self.failure is Some {
            self
        } else {
            FusedView { failure: Some(reason), ..self }
        }
    }

    /// Why the image was not verified by the passes over its streams, if it was
    /// not.
    pub open spec fn shortfall(self) -> Option<Seq<char>> {
        match self.failure {
            Some(reason) => Some(
                "image "@ + self.arn + " was not verified in one pass: "@ + reason,
            ),
            None => if self.position != self.runs.len() {
                Some(
                    "image "@ + self.arn + " was not verified in one pass: "@ + (text::decimal(
                        self.position,
                    ) + " of "@ + text::decimal(self.runs.len()) + " runs were delivered"@),
                )
            } else if self.accounting.total() != self.size {
                Some(
                    "image "@ + self.arn + " was not verified in one pass: "@ + (text::decimal(
                        self.accounting.total() as nat,
                    ) + " bytes were delivered but it declares "@ + text::decimal(
                        self.size as nat,
                    )),
                )
            } else {
                None
            },
        }
    }

    /// What closing the traversal adds to a report: the image's checks, or a note
    /// why there are none.
    pub open spec fn finished(self, report: ReportView, locus: LocusView) -> ReportView {
        let f = self.emitted(locus);
        match f.shortfall() {
            Some(note) => report.note(note),
            None => report.reaccount(
                ImageAccountingView {
                    image: f.arn,
                    accounting: f.accounting,
                    traversed: true,
                },
            ).all_checks(
                all_digest_checks(f.arn, f.role, f.hashes, Coverage::WholeImage, f.content),
            ),
        }
    }
}

/// Whether what has been delivered of an image is what its first runs hold.
pub open spec fn in_phase<V: Volume>(
    f: FusedView,
    image: ImageView,
    parts: Seq<Part<V>>,
    locus: LocusView,
) -> bool {
    &&& f.runs == image.runs
    &&& f.failure is None
    &&& f.position <= f.runs.len()
    &&& after_runs(image, parts, locus, f.position) == Ok::<
        (Seq<u8>, ReadAccountingView),
        ErrorView,
    >((f.content, f.accounting))
}

/// Delivering described runs stays in phase, unless one of them has no content.
proof fn emitting_stays_in_phase<V: Volume>(
    f: FusedView,
    image: ImageView,
    parts: Seq<Part<V>>,
    locus: LocusView,
)
    requires
        in_phase(f, image, parts, locus),
    ensures
        f.emitted(locus).failure is Some || in_phase(f.emitted(locus), image, parts, locus),
    decreases f.runs.len() - f.position,
{
    if f.position < f.runs.len() {
        match f.runs[f.position as int] {
            RunView::Stored { stream: _, target_offset: _, length: _ } => {},
            RunView::Described { kind: _, pattern, offset, length } => {
                if pattern.len() > 0 {
                    let next = FusedView {
                        content: f.content + described_bytes(
                            pattern,
                            offset as nat,
                            length as nat,
                        ),
                        accounting: counted(f.accounting, f.runs[f.position as int]),
                        position: f.position + 1,
                        ..f
                    };
                    emitting_stays_in_phase(next, image, parts, locus);
                }
            },
        }
    }
}

/// An image's digest that comes out of the passes over its streams is a digest of
/// the image's bytes, the same that reading the image gives. Nothing is delivered
/// at the start, described runs and streams that come in their turn add what the
/// image has there, and once the totals agree every byte has been delivered.
pub proof fn passes_deliver_the_image<V: Volume>(
    f: FusedView,
    object: ObjectView,
    image: ImageView,
    hashes: Seq<StoredHashView>,
    parts: Seq<Part<V>>,
    locus: LocusView,
    stream: Seq<char>,
    data: Seq<u8>,
)
    requires
        streams_ok(image.streams),
    ensures
        in_phase(fused_start(object, image, hashes), image, parts, locus),
        in_phase(f, image, parts, locus) ==> f.emitted(locus).failure is Some || in_phase(
            f.emitted(locus),
            image,
            parts,
            locus,
        ),
        in_phase(f, image, parts, locus) && f.awaits(stream) && run_content(
            f.runs[f.position as int],
            image.streams,
            parts,
            locus,
        ) == Ok::<Seq<u8>, ErrorView>(data) ==> in_phase(
            f.fed(data).after_stream(),
            image,
            parts,
            locus,
        ),
        in_phase(f, image, parts, locus) && f.shortfall() is None ==> image_content(
            image,
            parts,
            locus,
        ) == Ok::<(Seq<u8>, ReadAccountingView), ErrorView>((f.content, f.accounting)),
{
    if in_phase(f, image, parts, locus) {
        emitting_stays_in_phase(f, image, parts, locus);
        if f.awaits(stream) && run_content(f.runs[f.position as int], image.streams, parts, locus)
            == Ok::<Seq<u8>, ErrorView>(data) {
            runs_have_their_length(f.runs[f.position as int], image.streams, parts, locus);
            assert(f.fed(data).after_stream().accounting == counted(
                f.accounting,
                f.runs[f.position as int],
            ));
        }
    }
}

/// The digest of an algorithm among some digests, the first of them.
pub open spec fn digest_named(digests: Seq<DigestView>, a: HashAlgorithm) -> Option<DigestView>
    decreases digests.len(),
{
    if digests.len() == 0 {
        None
    } else if digests[0].algorithm == a {
        Some(digests[0])
    } else {
        digest_named(digests.skip(1), a)
    }
}

/// A recorded digest compared with that of its algorithm among some digests.
pub open spec fn matched_check(
    subject: Seq<char>,
    role: ObjectRole,
    hash: StoredHashView,
    coverage: Coverage,
    digests: Seq<DigestView>,
) -> CheckView {
    match digest_named(digests, hash.algorithm) {
        Some(computed) => compared_check(subject, role, hash, coverage, computed),
        None => declined_check(subject, role, hash, coverage, uncomputable_text(hash.algorithm)),
    }
}

/// A longer list has the same first digest of an algorithm, or has it last.
proof fn digest_named_push(digests: Seq<DigestView>, d: DigestView, a: HashAlgorithm)
    ensures
        digest_named(digests.push(d), a) == (match digest_named(digests, a) {
            Some(found) => Some(found),
            None => if d.algorithm == a {
                Some(d)
            } else {
                None
            },
        }),
    decreases digests.len(),
{
    let longer = digests.push(d);
    if digests.len() == 0 {
        reveal_with_fuel(digest_named, 2);
        assert(longer.skip(1) =~= Seq::<DigestView>::empty());
    } else {
        assert(longer[0] == digests[0]);
        if digests[0].algorithm != a {
            assert(longer.skip(1) =~= digests.skip(1).push(d));
            digest_named_push(digests.skip(1), d, a);
        }
    }
}

/// Of the digests over some bytes, the one of an algorithm asked for is the
/// digest under that algorithm, where this library computes it.
pub proof fn digests_are_found(algorithms: Seq<HashAlgorithm>, data: Seq<u8>, a: HashAlgorithm)
    ensures
        digest_named(digests_under(algorithms, data), a) == (if algorithms.contains(a)
            && computable(a) {
            Some(digest_view(a, data))
        } else {
            None
        }),
    decreases algorithms.len(),
{
    if algorithms.len() > 0 {
        let front = algorithms.drop_last();
        digests_are_found(front, data, a);
        digest_named_push(
            digests_under(front, data),
            digest_view(algorithms.last(), data),
            a,
        );
        assert(algorithms =~= front.push(algorithms.last()));
        if algorithms.contains(a) && !front.contains(a) {
            let k = choose|k: int| 0 <= k < algorithms.len() && algorithms[k] == a;
            assert(k == algorithms.len() - 1 || front[k] == a);
        }
        if front.contains(a) {
            let k = choose|k: int| 0 <= k < front.len() && front[k] == a;
            assert(algorithms[k] == a);
        }
        if algorithms.last() == a {
            assert(algorithms[algorithms.len() - 1] == a);
        }
    }
}

/// The digest of an algorithm among some digests.
fn find_digest<'a>(digests: &'a Vec<Digest>, a: HashAlgorithm) -> (r: Option<&'a Digest>)
    ensures
        (match r {
            Some(d) => digest_named(digest_views(digests@), a) == Some(d@),
            None => digest_named(digest_views(digests@), a) is None,
        }),
{
    let ghost all = digest_views(digests@);
    let mut i: usize = 0;
    proof {
        assert(all.skip(0) =~= all);
    }
    while i < digests.len()
        invariant
            i <= digests.len(),
            all == digest_views(digests@),
            digest_named(all, a) == digest_named(all.skip(i as int), a),
        decreases digests.len() - i,
    {
        proof {
            assert(all.skip(i as int)[0] == digests@[i as int]@);
            assert(all.skip(i as int).skip(1) =~= all.skip(i + 1));
        }
        if digests[i].algorithm() == a {
            return Some(&digests[i]);
        }
        i = i + 1;
    }
    None
}

/// Compare recorded digests with those a pass computed, by algorithm and never by
/// position.
pub(crate) fn compare_stream_digests<P: ProgressObserver>(
    subject: &Arn,
    role: ObjectRole,
    recorded: &Vec<StoredHash>,
    coverage: Coverage,
    digests: &Vec<Digest>,
    report: &mut VerificationReport,
    progress: &mut P,
)
    ensures
        final(report)@ == old(report)@.all_checks(
            Seq::new(
                recorded@.len(),
                |i: int|
                    matched_check(
                        subject@,
                        role,
                        stored_views(recorded@)[i],
                        coverage,
                        digest_views(digests@),
                    ),
            ),
        ),
        in_step(
            old(progress).log(),
            old(report)@.checks,
            final(progress).log(),
            final(report)@.checks,
        ),
{
    let ghost views = digest_views(digests@);
    let ghost all = Seq::new(
        recorded@.len(),
        |i: int| matched_check(subject@, role, stored_views(recorded@)[i], coverage, views),
    );
    let mut i: usize = 0;
    proof {
        assert(old(report)@.checks + all.take(0) =~= old(report)@.checks);
        in_step_still(progress.log(), report@.checks);
        assert(report@ =~= old(report)@.all_checks(all.take(0)));
    }
    while i < recorded.len()
        invariant
            i <= recorded.len(),
            views == digest_views(digests@),
            all.len() == recorded@.len(),
            forall|k: int|
                0 <= k < all.len() ==> #[trigger] all[k] == matched_check(
                    subject@,
                    role,
                    stored_views(recorded@)[k],
                    coverage,
                    views,
                ),
            report@ == old(report)@.all_checks(all.take(i as int)),
            in_step(
                old(progress).log(),
                old(report)@.checks,
                progress.log(),
                report@.checks,
            ),
        decreases recorded.len() - i,
    {
        let ghost log1 = progress.log();
        let ghost checks1 = report@.checks;
        let hash = &recorded[i];
        let check = match find_digest(digests, hash.algorithm) {
            Some(computed) => HashCheck::compared(subject, role, hash, coverage, computed),
            None => HashCheck::declined(
                subject,
                role,
                hash,
                coverage,
                uncomputable(hash.algorithm).as_str(),
            ),
        };
        push_check(report, progress, check);
        proof {
            in_step_chain(
                old(progress).log(),
                old(report)@.checks,
                log1,
                checks1,
                progress.log(),
                report@.checks,
            );
            assert(check@ == all[i as int]);
            assert(all.take(i + 1) =~= all.take(i as int).push(all[i as int]));
            assert(old(report)@.checks + all.take(i + 1) =~= (old(report)@.checks + all.take(
                i as int,
            )).push(all[i as int]));
            assert(report@ =~= old(report)@.all_checks(all.take(i + 1)));
        }
        i = i + 1;
    }
    proof {
        assert(all.take(i as int) =~= all);
    }
}

/// Compare recorded digests with those of the bytes a hasher has taken.
pub(crate) fn compare_hashed<P: ProgressObserver>(
    subject: &Arn,
    role: ObjectRole,
    recorded: &Vec<StoredHash>,
    coverage: Coverage,
    hasher: MultiHasher,
    report: &mut VerificationReport,
    progress: &mut P,
)
    requires
        hasher.asked() == algorithms_of(stored_views(recorded@)),
    ensures
        final(report)@ == old(report)@.all_checks(
            all_digest_checks(
                subject@,
                role,
                stored_views(recorded@),
                coverage,
                hasher.content(),
            ),
        ),
        in_step(
            old(progress).log(),
            old(report)@.checks,
            final(progress).log(),
            final(report)@.checks,
        ),
{
    let digests = hasher.finish();
    proof {
        let hashes = stored_views(recorded@);
        let data = hasher.content();
        let matched = Seq::new(
            recorded@.len(),
            |i: int| matched_check(subject@, role, hashes[i], coverage, digest_views(digests@)),
        );
        let direct = all_digest_checks(subject@, role, hashes, coverage, data);
        assert forall|i: int| 0 <= i < recorded@.len() implies matched[i] == direct[i] by {
            let a = hashes[i].algorithm;
            digests_are_found(hasher.asked(), data, a);
            assert(algorithms_of(hashes)[i] == a);
        }
        assert(matched =~= direct);
    }
    compare_stream_digests(subject, role, recorded, coverage, &digests, report, progress);
}

impl FusedImage {
    /// Whether the hasher computes the digests that are to be compared.
    pub open spec fn wf(&self) -> bool {
        self.hasher.asked() == algorithms_of(stored_views(self.hashes@))
    }

    /// Prepare an image's digest to come out of the passes over its streams;
    /// nothing where the order of the passes is not that of the image.
    pub fn prepare(object: &Aff4Object, image: &Image, hashes: Vec<StoredHash>) -> (r: Option<Self>)
        ensures
            r is Some == fusible(image@),
            r matches Some(f) ==> f.wf() && f@ == fused_start(
                object@,
                image@,
                stored_views(hashes@),
            ),
    {
        if image.striped {
            return None;
        }
        let ghost runs = image@.runs;
        let mut seen: Vec<(Arn, u64)> = Vec::new();
        let mut i: usize = 0;
        proof {
            assert(seen_views(seen@) =~= Seq::<(Seq<char>, u64)>::empty());
        }
        while i < image.runs.len()
            invariant
                i <= image.runs.len(),
                runs == image@.runs,
                !image.striped,
                tracked_runs(runs, i as nat) == Some(seen_views(seen@)),
            decreases image.runs.len() - i,
        {
            proof {
                assert(runs[i as int] == image.runs@[i as int]@);
            }
            if !track_run(&mut seen, &image.runs[i], Ghost(runs), Ghost(i as nat)) {
                proof {
                    untracked_stays(runs, (i + 1) as nat, runs.len());
                }
                return None;
            }
            i = i + 1;
        }
        if !covered(&seen, &image.streams) {
            return None;
        }
        let wanted = algorithms(&hashes);
        let r = FusedImage {
            arn: object.arn.clone(),
            role: object.role,
            hashes,
            hasher: MultiHasher::for_algorithms(wanted.as_slice()),
            runs: copied_runs(&image.runs),
            position: 0,
            accounting: ReadAccounting {
                stored: 0,
                described: 0,
                unknown_placeholder: 0,
                gap_filled: 0,
                gap_fill: copied_text(&image.composition.gap_fill),
            },
            size: image.size,
            failure: None,
        };
        proof {
            assert(r@ =~= fused_start(object@, image@, stored_views(hashes@)));
        }
        Some(r)
    }

    /// Deliver described runs until the next stored one, or the end.
    fn emit_described_until_stored(&mut self, locus: &Locus)
        requires
            old(self).wf(),
        ensures
            final(self).wf(),
            final(self)@ == old(self)@.emitted(locus@),
    {
        let ghost goal = self@.emitted(locus@);
        while self.position < self.runs.len()
            invariant
                self.wf(),
                goal == self@.emitted(locus@),
                goal == old(self)@.emitted(locus@),
            decreases self.runs.len() - self.position,
        {
            let ghost before = self@;
            proof {
                assert(self@.runs[self.position as int] == self.runs@[self.position as int]@);
            }
            match &self.runs[self.position] {
                ImageRun::Stored { stream: _, target_offset: _, length: _ } => {
                    return;
                },
                ImageRun::Described { kind: _, pattern, offset, length } => {
                    if pattern.len() == 0 {
                        let e = Error::malformed(
                            locus.clone(),
                            text::cat3(
                                "the described region at offset ",
                                text::dec(*offset).as_str(),
                                " names no content",
                            ),
                        );
                        self.failure = Some(
                            text::cat2(
                                "a described region could not be produced: ",
                                e.to_string().as_str(),
                            ),
                        );
                        proof {
                            assert(self@ =~= goal);
                        }
                        return;
                    }
                    let mut quiet = NoProgress::new();
                    let mut delivered: u64 = 0;
                    let _ = feed_described(
                        pattern,
                        *offset,
                        *length,
                        &mut self.hasher,
                        &self.arn,
                        &mut delivered,
                        self.size,
                        &mut quiet,
                    );
                },
            }
            let counts = self.accounting.duplicate();
            self.accounting = count_run(counts, &self.runs[self.position]);
            self.position = self.position + 1;
            proof {
                match before.runs[before.position as int] {
                    RunView::Described { kind: _, pattern, offset, length } => {
                        assert(self@ =~= FusedView {
                            content: before.content + described_bytes(
                                pattern,
                                offset as nat,
                                length as nat,
                            ),
                            accounting: counted(
                                before.accounting,
                                before.runs[before.position as int],
                            ),
                            position: before.position + 1,
                            ..before
                        });
                    },
                    _ => {},
                }
            }
        }
    }

    /// Get ready for a stream: deliver the described runs before it, and say
    /// whether its bytes come next.
    pub fn before_stream(&mut self, stream: &Arn, locus: &Locus) -> (feeding: bool)
        requires
            old(self).wf(),
        ensures
            final(self).wf(),
            final(self)@ == old(self)@.before_stream(locus@),
            feeding == (old(self)@.failure is None && final(self)@.awaits(stream@)),
    {
        if self.failure.is_some() {
            return false;
        }
        self.emit_described_until_stored(locus);
        if self.position < self.runs.len() {
            proof {
                assert(self@.runs[self.position as int] == self.runs@[self.position as int]@);
            }
            match &self.runs[self.position] {
                ImageRun::Stored { stream: next, target_offset: _, length: _ } => text::same(
                    next.as_str(),
                    stream.as_str(),
                ),
                _ => false,
            }
        } else {
            false
        }
    }

    /// Take a stream's bytes.
    pub fn feed(&mut self, data: &[u8])
        requires
            old(self).wf(),
        ensures
            final(self).wf(),
            final(self)@ == old(self)@.fed(data@),
    {
        self.hasher.update(data);
        self.accounting.stored = self.accounting.stored.saturating_add(data.len() as u64);
        proof {
            assert(self@ =~= old(self)@.fed(data@));
        }
    }

    /// Close the stored run that a finished pass covered.
    pub fn after_stream(&mut self)
        requires
            old(self).wf(),
        ensures
            final(self).wf(),
            final(self)@ == old(self)@.after_stream(),
    {
        if self.position < self.runs.len() {
            proof {
                assert(self@.runs[self.position as int] == self.runs@[self.position as int]@);
            }
            let stored = match &self.runs[self.position] {
                ImageRun::Stored { stream: _, target_offset: _, length: _ } => true,
                _ => false,
            };
            if stored {
                self.position = self.position + 1;
                proof {
                    assert(self@ =~= old(self)@.after_stream());
                }
            }
        }
    }

    /// Give the traversal up, so that no digest comes out of a part of the image.
    pub fn abandon(&mut self, reason: String)
        requires
            old(self).wf(),
        ensures
            final(self).wf(),
            final(self)@ == old(self)@.abandon(reason@),
    {
        if self.failure.is_none() {
            self.failure = Some(reason);
            proof {
                assert(self@ =~= old(self)@.abandon(reason@));
            }
        }
    }

    /// Compare the image's digests, where every run was delivered and the totals
    /// agree; say why not where not. Returns whether they were compared.
    pub(crate) fn finish<P: ProgressObserver>(
        self,
        locus: &Locus,
        report: &mut VerificationReport,
        progress: &mut P,
    ) -> (r: bool)
        requires
            self.wf(),
        ensures
            r == (self@.emitted(locus@).shortfall() is None),
            final(report)@ == self@.finished(old(report)@, locus@),
            in_step(
                old(progress).log(),
                old(report)@.checks,
                final(progress).log(),
                final(report)@.checks,
            ),
    {
        let mut fused = self;
        fused.emit_described_until_stored(locus);
        let ghost f = fused@;
        proof {
            in_step_still(progress.log(), report@.checks);
        }
        match &fused.failure {
            Some(reason) => {
                report.note(
                    text::cat4(
                        "image ",
                        fused.arn.as_str(),
                        " was not verified in one pass: ",
                        reason.as_str(),
                    ),
                );
                return false;
            },
            None => {},
        }
        if fused.position != fused.runs.len() {
            report.note(
                text::cat4(
                    "image ",
                    fused.arn.as_str(),
                    " was not verified in one pass: ",
                    text::cat4(
                        text::dec_usize(fused.position).as_str(),
                        " of ",
                        text::dec_usize(fused.runs.len()).as_str(),
                        " runs were delivered",
                    ).as_str(),
                ),
            );
            return false;
        }
        if fused.accounting.total() != fused.size {
            report.note(
                text::cat4(
                    "image ",
                    fused.arn.as_str(),
                    " was not verified in one pass: ",
                    text::cat3(
                        text::dec(fused.accounting.total()).as_str(),
                        " bytes were delivered but it declares ",
                        text::dec(fused.size).as_str(),
                    ).as_str(),
                ),
            );
            return false;
        }
        report.reaccount(
            ImageAccounting {
                image: fused.arn.clone(),
                accounting: fused.accounting.duplicate(),
                traversed: true,
            },
        );
        compare_hashed(
            &fused.arn,
            fused.role,
            &fused.hashes,
            Coverage::WholeImage,
            fused.hasher,
            report,
            progress,
        );
        true
    }
}

/// The index segments of a stream's first `n` bevies that a volume holds, one
/// after the other, or the first that cannot be read.
pub open spec fn index_joined<V: Volume>(volume: &V, base: Seq<char>, n: nat) -> Result<
    Seq<u8>,
    (Seq<char>, ErrorView),
>
    decreases n,
{
    if n == 0 {
        Ok(Seq::empty())
    } else {
        match index_joined(volume, base, (n - 1) as nat) {
            Err(e) => Err(e),
            Ok(before) => {
                let name = bevy_member_name(base, (n - 1) as nat) + INDEX_SUFFIX@;
                if !volume.lists(name) {
                    Ok(before)
                } else {
                    match volume.outcome(name) {
                        Err(e) => Err((name, e)),
                        Ok(data) => Ok(before + data),
                    }
                }
            },
        }
    }
}

/// An index that cannot be read fails the rest the same way.
proof fn index_joined_fails<V: Volume>(volume: &V, base: Seq<char>, m: nat, n: nat)
    requires
        m <= n,
        index_joined(volume, base, m) is Err,
    ensures
        index_joined(volume, base, n) == index_joined(volume, base, m),
    decreases n,
{
    if m < n {
        index_joined_fails(volume, base, m, (n - 1) as nat);
    }
}

/// The index segments of a stream's bevies, one after the other.
fn read_indexes<V: Volume>(volume: &V, base: &str, bevies: u64) -> (r: Result<
    Vec<u8>,
    (String, Error),
>)
    ensures
        (match r {
            Ok(data) => index_joined(volume, base@, bevies as nat) == Ok::<
                Seq<u8>,
                (Seq<char>, ErrorView),
            >(data@),
            Err((name, e)) => index_joined(volume, base@, bevies as nat) == Err::<
                Seq<u8>,
                (Seq<char>, ErrorView),
            >((name@, e@)),
        }),
{
    let mut out: Vec<u8> = Vec::new();
    let mut i: u64 = 0;
    while i < bevies
        invariant
            i <= bevies,
            index_joined(volume, base@, i as nat) == Ok::<Seq<u8>, (Seq<char>, ErrorView)>(out@),
        decreases bevies - i,
    {
        let number = text::pad_zeros(text::dec(i).as_str(), 8);
        let name = text::cat4(base, "/", number.as_str(), INDEX_SUFFIX);
        proof {
            assert(name@ == bevy_member_name(base@, i as nat) + INDEX_SUFFIX@);
            if index_joined(volume, base@, (i + 1) as nat) is Err {
                index_joined_fails(volume, base@, (i + 1) as nat, bevies as nat);
            }
        }
        if volume.has_segment(name.as_str()) {
            match volume.read_segment(name.as_str()) {
                Ok(data) => bytes::append(&mut out, data.as_slice()),
                Err(e) => return Err((name, e)),
            }
        }
        i = i + 1;
    }
    Ok(out)
}

/// What verifying one digest that a stream records besides `aff4:hash` gives.
pub open spec fn index_check<V: Volume>(
    object: ObjectView,
    hash: StoredHashView,
    s: StreamView,
    volume: &V,
) -> Option<CheckView> {
    if hash.predicate == "hash"@ {
        None
    } else if hash.predicate == "imageStreamIndexHash"@ {
        match member_of(s.arn, volume.name(), NameMapping::Escaped) {
            None => None,
            Some(base) => Some(
                match index_joined(volume, base, bevies_of(s)) {
                    Err((name, e)) => skipped_check(
                        object.arn,
                        object.role,
                        hash,
                        Coverage::Segment,
                        unreadable_text(name, e),
                        failure_cause(e.kind),
                    ),
                    Ok(data) => digest_check(
                        object.arn,
                        object.role,
                        hash,
                        Coverage::Segment,
                        data,
                    ),
                },
            ),
        }
    } else {
        Some(
            declined_check(
                object.arn,
                object.role,
                hash,
                Coverage::Unidentified,
                "unknown digest "@ + hash.predicate + "; not found in reference implementation"@,
            ),
        )
    }
}

/// What verifying the digests that a stream records besides `aff4:hash` gives.
pub open spec fn index_checks<V: Volume>(
    object: ObjectView,
    hashes: Seq<StoredHashView>,
    s: StreamView,
    volume: &V,
) -> Seq<CheckView>
    decreases hashes.len(),
{
    if hashes.len() == 0 {
        Seq::empty()
    } else {
        let before = index_checks(object, hashes.drop_last(), s, volume);
        match index_check(object, hashes.last(), s, volume) {
            Some(check) => before.push(check),
            None => before,
        }
    }
}

/// The check of one digest that a stream records besides `aff4:hash`.
fn check_index_hash<V: Volume>(
    object: &Aff4Object,
    hash: &StoredHash,
    stream: &ImageStream,
    volume: &V,
) -> (r: Option<HashCheck>)
    ensures
        (match r {
            Some(check) => index_check(object@, hash@, stream@, volume) == Some(check@),
            None => index_check(object@, hash@, stream@, volume) is None,
        }),
{
    if text::same(hash.predicate.as_str(), "hash") {
        return None;
    }
    if text::same(hash.predicate.as_str(), "imageStreamIndexHash") {
        return match stream.arn().member_name(&volume.arn(), NameMapping::Escaped) {
            None => None,
            Some(base) => Some(
                match read_indexes(volume, base.as_str(), stream.bevy_count()) {
                    Err((name, e)) => HashCheck::from_read_error(
                        &object.arn,
                        object.role,
                        hash,
                        Coverage::Segment,
                        text::cat3(
                            name.as_str(),
                            " could not be read: ",
                            e.to_string().as_str(),
                        ).as_str(),
                        &e,
                    ),
                    Ok(data) => match digest_of(hash.algorithm, data.as_slice()) {
                        Some(computed) => HashCheck::compared(
                            &object.arn,
                            object.role,
                            hash,
                            Coverage::Segment,
                            &computed,
                        ),
                        None => HashCheck::declined(
                            &object.arn,
                            object.role,
                            hash,
                            Coverage::Segment,
                            uncomputable(hash.algorithm).as_str(),
                        ),
                    },
                },
            ),
        };
    }
    Some(
        HashCheck::declined(
            &object.arn,
            object.role,
            hash,
            Coverage::Unidentified,
            text::cat3(
                "unknown digest ",
                hash.predicate.as_str(),
                "; not found in reference implementation",
            ).as_str(),
        ),
    )
}

/// Verify the digests that a stream records besides `aff4:hash`.
///
/// `imageStreamIndexHash` covers the index segments in bevy order. What any other
/// is computed over is not known, so its value is reported and not guessed at.
pub fn verify_stream_index_hashes<V: Volume, P: ProgressObserver>(
    object: &Aff4Object,
    stream: &ImageStream,
    volume: &V,
    report: &mut VerificationReport,
    progress: &mut P,
)
    ensures
        final(report)@ == old(report)@.all_checks(
            index_checks(object@, object@.hashes, stream@, volume),
        ),
        in_step(
            old(progress).log(),
            old(report)@.checks,
            final(progress).log(),
            final(report)@.checks,
        ),
{
    let ghost all = object@.hashes;
    let mut i: usize = 0;
    proof {
        assert(old(report)@.checks + Seq::<CheckView>::empty() =~= old(report)@.checks);
        in_step_still(progress.log(), report@.checks);
        assert(report@ =~= old(report)@.all_checks(Seq::empty()));
    }
    while i < object.hashes.len()
        invariant
            i <= object.hashes.len(),
            all == object@.hashes,
            report@ == old(report)@.all_checks(
                index_checks(object@, all.take(i as int), stream@, volume),
            ),
            in_step(
                old(progress).log(),
                old(report)@.checks,
                progress.log(),
                report@.checks,
            ),
        decreases object.hashes.len() - i,
    {
        let ghost log1 = progress.log();
        let ghost before = report@;
        let ghost done = index_checks(object@, all.take(i as int), stream@, volume);
        proof {
            assert(all.take(i + 1).drop_last() =~= all.take(i as int));
            assert(all.take(i + 1).last() == object.hashes@[i as int]@);
        }
        match check_index_hash(object, &object.hashes[i], stream, volume) {
            None => {},
            Some(check) => {
                push_check(report, progress, check);
                proof {
                    in_step_chain(
                        old(progress).log(),
                        old(report)@.checks,
                        log1,
                        before.checks,
                        progress.log(),
                        report@.checks,
                    );
                    assert(old(report)@.checks + done.push(check@) =~= (old(report)@.checks
                        + done).push(check@));
                    assert(report@ =~= old(report)@.all_checks(done.push(check@)));
                }
            },
        }
        i = i + 1;
    }
    proof {
        assert(all.take(i as int) =~= all);
    }
}

/// What a check of a stream's per-chunk digests says.
pub open spec fn chunk_digests_check(
    stream: Seq<char>,
    algorithm: HashAlgorithm,
    suffix: Seq<char>,
    width: nat,
    recorded: Seq<u8>,
    computed: Seq<u8>,
) -> CheckView {
    CheckView {
        subject: stream,
        role: ObjectRole::BlockHashes,
        predicate: "blockHash."@ + suffix,
        algorithm,
        coverage: Coverage::Block,
        expected: text::decimal(recorded.len() / width) + " chunk digests"@,
        actual: text::decimal(computed.len() / width) + " chunk digests"@,
        outcome: verdict(recorded == computed),
        digests_covered: Some((recorded.len() / width) as usize),
    }
}

/// What is said of the first chunk whose digest differs.
pub open spec fn chunk_difference_text(
    stream: Seq<char>,
    suffix: Seq<char>,
    chunk: nat,
    chunk_size: nat,
) -> Seq<char> {
    "the first block-hash difference for stream "@ + stream + " is at chunk "@ + text::decimal(
        chunk,
    ) + (" (blockHash."@ + suffix + "); bytes "@ + text::decimal(chunk * chunk_size) + ".."@
        + text::decimal((chunk + 1) * chunk_size)
        + " of the stream do not match the digest recorded for them"@)
}

/// A report after one algorithm's per-chunk digests have been compared, and
/// whether to go on to the next.
pub open spec fn blocks_step<V: Volume>(
    report: ReportView,
    s: StreamView,
    base: Seq<char>,
    algorithm: HashAlgorithm,
    suffix: Seq<char>,
    width: nat,
    computed: Option<Seq<u8>>,
    volume: &V,
) -> (ReportView, bool) {
    match computed {
        None => (report, true),
        Some(computed) => {
            let names = block_segments(volume, base, suffix);
            if names.len() == 0 {
                (report, true)
            } else {
                match joined_segments(volume, names, names.len()) {
                    Err((name, e)) => (
                        report.note(
                            "block hashes for stream "@ + s.arn + " could not be read from "@ + name
                                + ": "@ + error_text(e),
                        ),
                        false,
                    ),
                    Ok(recorded) => {
                        let after = report.check(
                            chunk_digests_check(
                                s.arn,
                                algorithm,
                                suffix,
                                width,
                                recorded,
                                computed,
                            ),
                        );
                        match first_differing(recorded, computed, width) {
                            None => (after, true),
                            Some(k) => (
                                after.note(
                                    chunk_difference_text(
                                        s.arn,
                                        suffix,
                                        k as nat,
                                        s.chunk_size as nat,
                                    ),
                                ),
                                true,
                            ),
                        }
                    },
                }
            }
        },
    }
}

/// A report after a stream's per-chunk digests have been compared.
pub open spec fn blocks_report<V: Volume>(
    report: ReportView,
    s: StreamView,
    blocks: BlockDigestsView,
    volume: &V,
) -> ReportView {
    match member_of(s.arn, volume.name(), NameMapping::Escaped) {
        None => report,
        Some(base) => {
            let (after, go_on) = blocks_step(
                report,
                s,
                base,
                HashAlgorithm::Md5,
                "md5"@,
                16,
                blocks.md5,
                volume,
            );
            if go_on {
                blocks_step(
                    after,
                    s,
                    base,
                    HashAlgorithm::Sha1,
                    "sha1"@,
                    20,
                    blocks.sha1,
                    volume,
                ).0
            } else {
                after
            }
        },
    }
}

/// Compare one algorithm's per-chunk digests; `false` where what is recorded
/// cannot be read.
fn compare_blocks<V: Volume, P: ProgressObserver>(
    stream: &ImageStream,
    base: &str,
    algorithm: HashAlgorithm,
    suffix: &str,
    width: usize,
    computed: &Option<Vec<u8>>,
    volume: &V,
    report: &mut VerificationReport,
    progress: &mut P,
) -> (r: bool)
    requires
        width > 0,
    ensures
        (final(report)@, r) == blocks_step(
            old(report)@,
            stream@,
            base@,
            algorithm,
            suffix@,
            width as nat,
            optional_bytes(*computed),
            volume,
        ),
        in_step(
            old(progress).log(),
            old(report)@.checks,
            final(progress).log(),
            final(report)@.checks,
        ),
{
    proof {
        in_step_still(progress.log(), report@.checks);
    }
    let computed = match computed {
        None => return true,
        Some(computed) => computed,
    };
    let names = block_hash_segments(volume, base, suffix);
    proof {
        assert(text::texts(names@).len() == names@.len());
    }
    if names.len() == 0 {
        return true;
    }
    let recorded = match read_joined(volume, &names) {
        Ok(data) => data,
        Err((name, e)) => {
            report.note(
                text::cat6(
                    "block hashes for stream ",
                    stream.arn.as_str(),
                    " could not be read from ",
                    name.as_str(),
                    ": ",
                    e.to_string().as_str(),
                ),
            );
            return false;
        },
    };
    let equal = bytes::equal(recorded.as_slice(), computed.as_slice());
    let recorded_len: usize = recorded.len();
    let computed_len: usize = computed.len();
    let count: usize = recorded_len / width;
    let other: usize = computed_len / width;
    let check = HashCheck {
        subject: stream.arn.clone(),
        role: ObjectRole::BlockHashes,
        predicate: text::cat2("blockHash.", suffix),
        algorithm,
        coverage: Coverage::Block,
        expected: text::cat2(text::dec_usize(count).as_str(), " chunk digests"),
        actual: text::cat2(text::dec_usize(other).as_str(), " chunk digests"),
        outcome: if equal {
            Outcome::Match
        } else {
            Outcome::Mismatch
        },
        digests_covered: Some(count),
    };
    proof {
        assert(check@ =~= chunk_digests_check(
            stream@.arn,
            algorithm,
            suffix@,
            width as nat,
            recorded@,
            computed@,
        ));
    }
    push_check(report, progress, check);
    match first_difference(recorded.as_slice(), computed.as_slice(), width) {
        None => {},
        Some(k) => {
            let chunk: u128 = k as u128;
            let size: u128 = stream.chunk_size as u128;
            proof {
                assert(chunk * size <= usize::MAX * usize::MAX) by (nonlinear_arith)
                    requires
                        chunk <= usize::MAX,
                        size <= usize::MAX,
                ;
                assert((chunk + 1) * size <= (usize::MAX + 1) * usize::MAX) by (nonlinear_arith)
                    requires
                        chunk <= usize::MAX,
                        size <= usize::MAX,
                ;
                assert((usize::MAX + 1) * usize::MAX <= u128::MAX) by (nonlinear_arith)
                    requires
                        usize::MAX <= u64::MAX,
                ;
                assert(usize::MAX * usize::MAX <= u128::MAX) by (nonlinear_arith)
                    requires
                        usize::MAX <= u64::MAX,
                ;
            }
            let head = text::cat4(
                "the first block-hash difference for stream ",
                stream.arn.as_str(),
                " is at chunk ",
                text::dec_usize(k).as_str(),
            );
            let tail = text::cat7(
                " (blockHash.",
                suffix,
                "); bytes ",
                text::dec_wide(chunk * size).as_str(),
                "..",
                text::dec_wide((chunk + 1) * size).as_str(),
                " of the stream do not match the digest recorded for them",
            );
            report.note(text::cat2(head.as_str(), tail.as_str()));
        },
    }
    true
}

/// Compare recomputed per-chunk digests with those a stream records.
///
/// The composite digests show that a block-hash segment is intact; only this shows
/// that it describes the data.
pub fn verify_block_hashes<V: Volume, P: ProgressObserver>(
    stream: &ImageStream,
    blocks: &BlockDigests,
    volume: &V,
    report: &mut VerificationReport,
    progress: &mut P,
)
    ensures
        final(report)@ == blocks_report(old(report)@, stream@, blocks@, volume),
        in_step(
            old(progress).log(),
            old(report)@.checks,
            final(progress).log(),
            final(report)@.checks,
        ),
{
    proof {
        in_step_still(progress.log(), report@.checks);
    }
    let base = match stream.arn.member_name(&volume.arn(), NameMapping::Escaped) {
        None => return,
        Some(base) => base,
    };
    let go_on = compare_blocks(
        stream,
        base.as_str(),
        HashAlgorithm::Md5,
        "md5",
        16,
        &blocks.md5,
        volume,
        report,
        progress,
    );
    if go_on {
        let ghost log1 = progress.log();
        let ghost checks1 = report@.checks;
        let _ = compare_blocks(
            stream,
            base.as_str(),
            HashAlgorithm::Sha1,
            "sha1",
            20,
            &blocks.sha1,
            volume,
            report,
            progress,
        );
        proof {
            in_step_chain(
                old(progress).log(),
                old(report)@.checks,
                log1,
                checks1,
                progress.log(),
                report@.checks,
            );
        }
    }
}

/// The per-chunk digests that a pass over a stream should gather, if any.
pub open spec fn wanted_blocks<V: Volume>(
    arn: Seq<char>,
    volume: &V,
    options: VerifyOptions,
) -> Option<BlockDigestsView> {
    if !options.block_hashes {
        None
    } else {
        match member_of(arn, volume.name(), NameMapping::Escaped) {
            None => None,
            Some(base) => wanted_digests(volume, base),
        }
    }
}

/// The per-chunk digests that a pass over a stream should gather: those that it
/// records something to compare with.
pub fn wanted_block_digests<V: Volume>(
    object: &Aff4Object,
    volume: &V,
    options: VerifyOptions,
) -> (r: Option<BlockDigests>)
    ensures
        (match r {
            Some(d) => wanted_blocks(object@.arn, volume, options) == Some(d@),
            None => wanted_blocks(object@.arn, volume, options) is None,
        }),
{
    if !options.block_hashes {
        return None;
    }
    match object.arn.member_name(&volume.arn(), NameMapping::Escaped) {
        None => None,
        Some(base) => BlockDigests::wanted(volume, base.as_str()),
    }
}

/// The recorded digests of a property.
pub open spec fn recorded_under(hashes: Seq<StoredHashView>, predicate: Seq<char>) -> Seq<
    StoredHashView,
>
    decreases hashes.len(),
{
    if hashes.len() == 0 {
        Seq::empty()
    } else {
        let before = recorded_under(hashes.drop_last(), predicate);
        if hashes.last().predicate == predicate {
            before.push(hashes.last())
        } else {
            before
        }
    }
}

/// The recorded digests of a property.
pub fn select_recorded(hashes: &Vec<StoredHash>, predicate: &str) -> (r: Vec<StoredHash>)
    ensures
        stored_views(r@) == recorded_under(stored_views(hashes@), predicate@),
{
    let ghost all = stored_views(hashes@);
    let mut out: Vec<StoredHash> = Vec::new();
    let mut i: usize = 0;
    proof {
        assert(stored_views(out@) =~= Seq::<StoredHashView>::empty());
    }
    while i < hashes.len()
        invariant
            i <= hashes.len(),
            all == stored_views(hashes@),
            stored_views(out@) == recorded_under(all.take(i as int), predicate@),
        decreases hashes.len() - i,
    {
        proof {
            assert(all.take(i + 1).drop_last() =~= all.take(i as int));
            assert(all.take(i + 1).last() == hashes@[i as int]@);
        }
        if text::same(hashes[i].predicate.as_str(), predicate) {
            let ghost before = out@;
            let copy = hashes[i].clone();
            out.push(copy);
            proof {
                assert(stored_views(out@) =~= stored_views(before).push(copy@));
            }
        }
        i = i + 1;
    }
    proof {
        assert(all.take(i as int) =~= all);
    }
    out
}

/// Whether a stream that cannot be read is a finding about the evidence: not where its
/// bytes are kept in a volume that is not at hand.
pub open spec fn stream_cause<V: Volume>(arn: Seq<char>, volume: &V, e: ErrorView) -> Declined {
    if member_of(arn, volume.name(), NameMapping::Escaped) is None {
        Declined::NotSupported
    } else {
        failure_cause(e.kind)
    }
}

/// What verifying a stream makes of a report and of an image's digest under way.
///
/// A stream that cannot be opened is one whose description falls short, which is no
/// finding about the evidence.
pub open spec fn stream_outcome<V: Volume>(
    report: ReportView,
    fused: Option<FusedView>,
    object: ObjectView,
    volume: &V,
    graph: Seq<TripleView>,
    lexicon: Lexicon,
    locus: LocusView,
    options: VerifyOptions,
) -> (ReportView, Option<FusedView>) {
    let recorded = recorded_under(object.hashes, "hash"@);
    match stream_declared(object.arn, graph, lexicon, locus) {
        Err(e) => (
            report.all_checks(
                all_skipped(
                    object.arn,
                    object.role,
                    object.hashes,
                    Coverage::StoredStream,
                    "the stream could not be opened: "@ + error_text(e),
                    Declined::NotSupported,
                ),
            ),
            match fused {
                Some(f) => Some(
                    f.abandon(
                        "stream "@ + object.arn + " could not be opened: "@ + error_text(e),
                    ),
                ),
                None => None,
            },
        ),
        Ok(s) => {
            let indexed = report.all_checks(index_checks(object, object.hashes, s, volume));
            let wanted = wanted_blocks(object.arn, volume, options);
            let ready = match fused {
                Some(f) => Some(f.before_stream(locus)),
                None => None,
            };
            let feeding = fused is Some && fused->Some_0.failure is None
                && ready->Some_0.awaits(object.arn);
            if recorded.len() == 0 && wanted is None && !feeding {
                (indexed, ready)
            } else {
                match stream_content(s, volume, locus) {
                    Err(e) => (
                        indexed.all_checks(
                            all_skipped(
                                object.arn,
                                object.role,
                                recorded,
                                Coverage::StoredStream,
                                "the stream could not be read: "@ + error_text(e),
                                stream_cause(object.arn, volume, e),
                            ),
                        ),
                        match ready {
                            Some(f) => Some(
                                (if feeding {
                                    f.fed(bytes::flattened(stream_slices(s, volume, locus)))
                                } else {
                                    f
                                }).abandon(
                                    "stream "@ + object.arn + " could not be read: "@ + error_text(
                                        e,
                                    ),
                                ),
                            ),
                            None => None,
                        },
                    ),
                    Ok(data) => {
                        let compared = indexed.all_checks(
                            all_digest_checks(
                                object.arn,
                                object.role,
                                recorded,
                                Coverage::StoredStream,
                                data,
                            ),
                        );
                        (
                            match wanted {
                                None => compared,
                                Some(w) => blocks_report(
                                    compared,
                                    s,
                                    w.with(cut(data, s.chunk_size as nat)),
                                    volume,
                                ),
                            },
                            if feeding {
                                Some(ready->Some_0.fed(data).after_stream())
                            } else {
                                ready
                            },
                        )
                    },
                }
            }
        },
    }
}

/// What an image's digest under way holds, if there is one.
pub open spec fn fused_view(fused: Option<FusedImage>) -> Option<FusedView> {
    match fused {
        Some(f) => Some(f@),
        None => None,
    }
}

/// Whether an image's digest under way, if there is one, is well formed.
pub open spec fn fused_wf(fused: Option<FusedImage>) -> bool {
    fused matches Some(f) ==> f.wf()
}

/// Give an image's digest up, if one is under way.
fn abandon_fused(fused: &mut Option<FusedImage>, reason: String)
    requires
        fused_wf(*old(fused)),
    ensures
        fused_wf(*final(fused)),
        fused_view(*final(fused)) == (match fused_view(*old(fused)) {
            Some(f) => Some(f.abandon(reason@)),
            None => None,
        }),
{
    match fused {
        Some(f) => f.abandon(reason),
        None => {},
    }
}

/// Get an image's digest ready for a stream, and say whether it takes its bytes.
fn ready_fused(fused: &mut Option<FusedImage>, stream: &Arn, locus: &Locus) -> (feeding: bool)
    requires
        fused_wf(*old(fused)),
    ensures
        fused_wf(*final(fused)),
        fused_view(*final(fused)) == (match fused_view(*old(fused)) {
            Some(f) => Some(f.before_stream(locus@)),
            None => None,
        }),
        feeding == (*old(fused) is Some && fused_view(*old(fused))->Some_0.failure is None
            && fused_view(*final(fused))->Some_0.awaits(stream@)),
{
    match fused {
        Some(f) => f.before_stream(stream, locus),
        None => false,
    }
}

/// What a pass over a stream's bytes was set up with.
#[verifier::ext_equal]
pub struct PassSetup {
    /// The algorithms of the digests to compute.
    pub asked: Seq<HashAlgorithm>,
    /// The per-chunk digests to gather, if any.
    pub blocks: Option<BlockDigestsView>,
    /// How long a chunk is.
    pub chunk_size: nat,
    /// The image's digest to feed, if there is one.
    pub fused: Option<FusedView>,
}

/// What a pass over a stream's bytes has come to. None of the bytes are kept but those
/// of a chunk not yet complete.
struct PassState {
    hasher: MultiHasher,
    blocks: Option<BlockDigests>,
    carry: Vec<u8>,
    chunk_size: usize,
    fused: Option<FusedImage>,
    slices: Ghost<Seq<Seq<u8>>>,
    setup: Ghost<PassSetup>,
}

/// Whether per-chunk digests are those of the full chunks of some bytes, and the rest
/// of the bytes is carried over.
spec fn blocks_at(
    blocks: Option<BlockDigests>,
    carry: Seq<u8>,
    setup: PassSetup,
    content: Seq<u8>,
) -> bool {
    match blocks {
        Some(b) => setup.blocks is Some && b@ == setup.blocks->Some_0.with(
            full_chunks(content, setup.chunk_size),
        ) && carry == remainder(content, setup.chunk_size),
        None => setup.blocks is None,
    }
}

/// Whether an image's digest is as it was with some bytes fed to it.
spec fn fused_at(fused: Option<FusedImage>, setup: PassSetup, content: Seq<u8>) -> bool {
    match fused {
        Some(f) => setup.fused is Some && f@ == setup.fused->Some_0.fed(content) && f.wf(),
        None => setup.fused is None,
    }
}

impl PassState {
    spec fn wf(&self) -> bool {
        &&& self.chunk_size > 0
        &&& self.setup@.chunk_size == self.chunk_size
        &&& self.carry@.len() < self.chunk_size
        &&& self.hasher.asked() == self.setup@.asked
        &&& blocks_at(self.blocks, self.carry@, self.setup@, self.hasher.content())
        &&& fused_at(self.fused, self.setup@, self.hasher.content())
    }
}

/// One pass over a stream's bytes, for every claim on them.
struct Pass {
    state: PassState,
}

impl Pass {
    /// Each digest is that of the bytes that have come.
    #[verifier::type_invariant]
    spec fn in_phase(self) -> bool {
        self.state.wf()
    }
}

/// Feeding some bytes and then others to an image's digest is feeding both.
proof fn fed_twice(f: FusedView, a: Seq<u8>, b: Seq<u8>)
    ensures
        f.fed(a).fed(b) == f.fed(a + b),
{
    assert(f.content + a + b =~= f.content + (a + b));
}

/// With no bytes yet, everything is as it was set up.
proof fn nothing_fed(setup: PassSetup)
    ensures
        setup.fused matches Some(f) ==> f.fed(Seq::empty()) == f,
        setup.blocks matches Some(b) ==> b.with(
            full_chunks(Seq::empty(), setup.chunk_size),
        ) == b || setup.chunk_size == 0,
        setup.chunk_size > 0 ==> remainder(Seq::empty(), setup.chunk_size) == Seq::<u8>::empty(),
{
    match setup.fused {
        Some(f) => assert(f.fed(Seq::empty()) =~= f),
        None => {},
    }
    if setup.chunk_size > 0 {
        let n = setup.chunk_size;
        assert(0nat / n == 0) by (nonlinear_arith)
            requires
                n > 0,
        ;
        assert(full_chunks(Seq::empty(), n) =~= Seq::<Seq<u8>>::empty());
        assert(remainder(Seq::empty(), n) =~= Seq::<u8>::empty());
        match setup.blocks {
            Some(b) => {
                match b.md5 {
                    Some(d) => assert(d + Seq::<u8>::empty() =~= d),
                    None => {},
                }
                match b.sha1 {
                    Some(d) => assert(d + Seq::<u8>::empty() =~= d),
                    None => {},
                }
                assert(b.with(Seq::empty()) =~= b);
            },
            None => {},
        }
    }
}

impl Pass {
    /// A pass that no byte has come to yet.
    fn new(
        recorded: &Vec<StoredHash>,
        blocks: Option<BlockDigests>,
        chunk_size: usize,
        fused: Option<FusedImage>,
    ) -> (r: Self)
        requires
            chunk_size > 0,
            fused_wf(fused),
        ensures
            r.fixed() == (PassSetup {
                asked: algorithms_of(stored_views(recorded@)),
                blocks: blocks_view(blocks),
                chunk_size: chunk_size as nat,
                fused: fused_view(fused),
            }),
            r.received() == Seq::<u8>::empty(),
            r.slices() == Seq::<Seq<u8>>::empty(),
    {
        let ghost setup = PassSetup {
            asked: algorithms_of(stored_views(recorded@)),
            blocks: blocks_view(blocks),
            chunk_size: chunk_size as nat,
            fused: fused_view(fused),
        };
        proof {
            nothing_fed(setup);
        }
        let hasher = MultiHasher::for_algorithms(algorithms(recorded).as_slice());
        Pass {
            state: PassState {
                hasher,
                blocks,
                carry: Vec::new(),
                chunk_size,
                fused,
                slices: Ghost(Seq::empty()),
                setup: Ghost(setup),
            },
        }
    }

    /// What the bytes that have come make of the claims on them.
    fn finish(self) -> (r: (MultiHasher, Option<BlockDigests>, Option<FusedImage>))
        ensures
            r.0.asked() == self.fixed().asked,
            r.0.content() == self.received(),
            blocks_view(r.1) == (match self.fixed().blocks {
                Some(b) => Some(b.with(cut(self.received(), self.fixed().chunk_size))),
                None => None,
            }),
            fused_wf(r.2),
            fused_view(r.2) == (match self.fixed().fused {
                Some(f) => Some(f.fed(self.received())),
                None => None,
            }),
    {
        proof {
            use_type_invariant(&self);
        }
        let Pass { state } = self;
        let PassState { hasher, blocks, carry, chunk_size: _, fused, slices: _, setup } = state;
        let ghost n = setup@.chunk_size;
        let ghost content = hasher.content();
        let blocks = match blocks {
            None => None,
            Some(found) => {
                let mut found = found;
                let mut carry = carry;
                let ghost rest = carry@;
                found.finish(&mut carry);
                proof {
                    let b = setup@.blocks->Some_0;
                    with_twice(b, full_chunks(content, n), seq![rest]);
                    assert(full_chunks(content, n) + seq![rest] =~= full_chunks(content, n).push(
                        rest,
                    ));
                }
                Some(found)
            },
        };
        (hasher, blocks, fused)
    }
}

/// What per-chunk digests hold, if there are any.
pub open spec fn blocks_view(blocks: Option<BlockDigests>) -> Option<BlockDigestsView> {
    match blocks {
        Some(b) => Some(b@),
        None => None,
    }
}

impl ByteSink for Pass {
    type Fixed = PassSetup;

    closed spec fn fixed(&self) -> PassSetup {
        self.state.setup@
    }

    closed spec fn received(&self) -> Seq<u8> {
        self.state.hasher.content()
    }

    closed spec fn slices(&self) -> Seq<Seq<u8>> {
        self.state.slices@
    }

    open spec fn refusal(&self) -> Option<ErrorView> {
        None
    }

    fn accept(&mut self, data: &[u8]) -> (r: Result<(), Error>) {
        proof {
            use_type_invariant(&*self);
        }
        let none: Vec<HashAlgorithm> = Vec::new();
        let idle = MultiHasher::for_algorithms(none.as_slice());
        let ghost unset = PassSetup {
            asked: idle.asked(),
            blocks: None,
            chunk_size: 1,
            fused: None,
        };
        let mut state = PassState {
            hasher: idle,
            blocks: None,
            carry: Vec::new(),
            chunk_size: 1,
            fused: None,
            slices: Ghost(Seq::empty()),
            setup: Ghost(unset),
        };
        std::mem::swap(&mut self.state, &mut state);
        let PassState { hasher, blocks, carry, chunk_size, fused, slices, setup } = state;
        let ghost content = hasher.content();
        let ghost n = setup@.chunk_size;
        let mut hasher = hasher;
        let mut carry = carry;
        hasher.update(data);
        let blocks = match blocks {
            None => None,
            Some(found) => {
                let mut found = found;
                found.feed(data, chunk_size, &mut carry);
                proof {
                    let b = setup@.blocks->Some_0;
                    pieces_go_on(content, data@, n);
                    with_twice(
                        b,
                        full_chunks(content, n),
                        full_chunks(remainder(content, n) + data@, n),
                    );
                }
                Some(found)
            },
        };
        let fused = match fused {
            None => None,
            Some(image) => {
                let mut image = image;
                image.feed(data);
                proof {
                    fed_twice(setup@.fused->Some_0, content, data@);
                }
                Some(image)
            },
        };
        self.state = PassState {
            hasher,
            blocks,
            carry,
            chunk_size,
            fused,
            slices: Ghost(slices@.push(data@)),
            setup,
        };
        Ok(())
    }
}

/// Whether the bytes of a stream are needed: for a digest of their own, for those of
/// their chunks, or for an image's.
pub open spec fn pass_needed<V: Volume>(
    fused: Option<FusedView>,
    object: ObjectView,
    volume: &V,
    locus: LocusView,
    options: VerifyOptions,
) -> bool {
    recorded_under(object.hashes, "hash"@).len() > 0 || wanted_blocks(
        object.arn,
        volume,
        options,
    ) is Some || (fused is Some && fused->Some_0.failure is None
        && fused->Some_0.before_stream(locus).awaits(object.arn))
}

/// What is reported while a stream's bytes are read to verify it, after the digests
/// that it records besides `aff4:hash`.
pub open spec fn stream_reading<V: Volume>(
    report: ReportView,
    fused: Option<FusedView>,
    object: ObjectView,
    volume: &V,
    graph: Seq<TripleView>,
    lexicon: Lexicon,
    locus: LocusView,
    options: VerifyOptions,
) -> Reading {
    match stream_declared(object.arn, graph, lexicon, locus) {
        Err(_) => no_reading(report.checks),
        Ok(s) => {
            let indexed = report.all_checks(index_checks(object, object.hashes, s, volume));
            Reading {
                after: indexed.checks.len(),
                events: if pass_needed(fused, object, volume, locus, options) {
                    stream_events(s, volume, locus)
                } else {
                    Seq::empty()
                },
            }
        },
    }
}

/// Close the run of an image's digest that a stream's bytes were fed to.
fn close_fused(fused: &mut Option<FusedImage>)
    requires
        fused_wf(*old(fused)),
    ensures
        fused_wf(*final(fused)),
        fused_view(*final(fused)) == (match fused_view(*old(fused)) {
            Some(f) => Some(f.after_stream()),
            None => None,
        }),
{
    match fused {
        Some(f) => f.after_stream(),
        None => {},
    }
}

/// Compare what a pass over a stream's bytes came to with what is recorded.
fn compare_pass<V: Volume, P: ProgressObserver>(
    object: &Aff4Object,
    stream: &ImageStream,
    recorded: &Vec<StoredHash>,
    hasher: MultiHasher,
    blocks: &Option<BlockDigests>,
    volume: &V,
    report: &mut VerificationReport,
    progress: &mut P,
)
    requires
        hasher.asked() == algorithms_of(stored_views(recorded@)),
    ensures
        ({
            let compared = old(report)@.all_checks(
                all_digest_checks(
                    object@.arn,
                    object@.role,
                    stored_views(recorded@),
                    Coverage::StoredStream,
                    hasher.content(),
                ),
            );
            final(report)@ == match blocks_view(*blocks) {
                None => compared,
                Some(b) => blocks_report(compared, stream@, b, volume),
            }
        }),
        in_step(
            old(progress).log(),
            old(report)@.checks,
            final(progress).log(),
            final(report)@.checks,
        ),
{
    compare_hashed(
        &object.arn,
        object.role,
        recorded,
        Coverage::StoredStream,
        hasher,
        report,
        progress,
    );
    match blocks {
        None => {},
        Some(found) => {
            let ghost log1 = progress.log();
            let ghost checks1 = report@.checks;
            verify_block_hashes(stream, found, volume, report, progress);
            proof {
                in_step_chain(
                    old(progress).log(),
                    old(report)@.checks,
                    log1,
                    checks1,
                    progress.log(),
                    report@.checks,
                );
            }
        },
    }
}

/// Whether a stream that cannot be read is a finding about the evidence.
fn classify_stream_failure<V: Volume>(arn: &Arn, volume: &V, e: &Error) -> (r: Declined)
    ensures
        r == stream_cause(arn@, volume, e@),
{
    if arn.member_name(&volume.arn(), NameMapping::Escaped).is_none() {
        Declined::NotSupported
    } else {
        classify_read_failure(e)
    }
}

/// Verify a stream: its own digests, those of its chunks, and its part in an
/// image's digest, all from one pass over its bytes.
#[verifier::spinoff_prover]
pub fn verify_stream<V: Volume, P: ProgressObserver>(
    object: &Aff4Object,
    volume: &V,
    graph: &Graph,
    lexicon: &Lexicon,
    locus: &Locus,
    options: VerifyOptions,
    fused: &mut Option<FusedImage>,
    report: &mut VerificationReport,
    progress: &mut P,
)
    requires
        fused_wf(*old(fused)),
    ensures
        fused_wf(*final(fused)),
        (final(report)@, fused_view(*final(fused))) == stream_outcome(
            old(report)@,
            fused_view(*old(fused)),
            object@,
            volume,
            graph@,
            *lexicon,
            locus@,
            options,
        ),
        in_step_reading(
            old(progress).log(),
            old(report)@.checks,
            stream_reading(
                old(report)@,
                fused_view(*old(fused)),
                object@,
                volume,
                graph@,
                *lexicon,
                locus@,
                options,
            ),
            final(progress).log(),
            final(report)@.checks,
        ),
{
    let ghost log0 = progress.log();
    let ghost checks0 = report@.checks;
    // Only `aff4:hash` covers the stream's bytes.
    let recorded = select_recorded(&object.hashes, "hash");
    proof {
        assert(stored_views(recorded@).len() == recorded@.len());
    }
    let stream = match ImageStream::open(&object.arn, graph, lexicon, locus) {
        Ok(stream) => stream,
        Err(e) => {
            let why = e.to_string();
            abandon_fused(
                fused,
                text::cat4(
                    "stream ",
                    object.arn.as_str(),
                    " could not be opened: ",
                    why.as_str(),
                ),
            );
            push_all_skipped(
                &object.arn,
                object.role,
                &object.hashes,
                Coverage::StoredStream,
                text::cat2("the stream could not be opened: ", why.as_str()).as_str(),
                Declined::NotSupported,
                report,
                progress,
            );
            proof {
                in_step_unread(log0, checks0, progress.log(), report@.checks);
            }
            return;
        },
    };
    verify_stream_index_hashes(object, &stream, volume, report, progress);
    let ghost log1 = progress.log();
    let ghost checks1 = report@.checks;

    // A part of a set may record no digest of its own, so the pass is needed as
    // soon as any one of the three claims on its bytes is there.
    let wanted = wanted_block_digests(object, volume, options);
    let feeding = ready_fused(fused, &object.arn, locus);
    if recorded.len() == 0 && wanted.is_none() && !feeding {
        proof {
            in_step_still(log1, checks1);
            in_step_unread(log1, checks1, log1, checks1);
            in_step_before_reading(
                log0,
                checks0,
                log1,
                checks1,
                no_reading(checks1),
                log1,
                checks1,
            );
        }
        return;
    }
    let taken = if feeding {
        fused.take()
    } else {
        None
    };
    let mut pass = Pass::new(&recorded, wanted, stream.chunk_size, taken);
    let read = stream.read_all_observed(volume, &mut pass, progress, locus);
    let ghost log2 = progress.log();
    let ghost events = stream_events(stream@, volume, locus@);
    let ghost reading = Reading { after: checks1.len(), events };
    let ghost got = bytes::flattened(stream_slices(stream@, volume, locus@));
    proof {
        assert(Seq::<u8>::empty() + got =~= got);
        assert(pass.received() == got);
        stream_events_are_of_reading(
            stream@,
            volume,
            locus@.subject(stream@.arn),
            bevies_of(stream@),
        );
        in_step_of_reading(log1, checks1, events);
        in_step_before_reading(log0, checks0, log1, checks1, reading, log2, checks1);
    }
    let (hasher, blocks, fed) = pass.finish();
    if feeding {
        *fused = fed;
    }
    match read {
        Err(e) => {
            let why = e.to_string();
            abandon_fused(
                fused,
                text::cat4("stream ", object.arn.as_str(), " could not be read: ", why.as_str()),
            );
            push_all_skipped(
                &object.arn,
                object.role,
                &recorded,
                Coverage::StoredStream,
                text::cat2("the stream could not be read: ", why.as_str()).as_str(),
                classify_stream_failure(&object.arn, volume, &e),
                report,
                progress,
            );
        },
        Ok(()) => {
            if feeding {
                close_fused(fused);
            }
            compare_pass(
                object,
                &stream,
                &recorded,
                hasher,
                &blocks,
                volume,
                report,
                progress,
            );
        },
    }
    proof {
        in_step_after_reading(
            log0,
            checks0,
            reading,
            log2,
            checks1,
            progress.log(),
            report@.checks,
        );
    }
}

} // verus!
