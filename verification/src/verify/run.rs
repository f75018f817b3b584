//! Verifying a container: every object that its volumes describe.

use vstd::prelude::*;

use crate::arn::Arn;
use crate::error::{Locus, LocusView};
use crate::model::{role_is_image, stored_views, ObjectRole};
use crate::text;
use crate::verify::container::{
    declarer_of, declaring, holding, holding_block_hashes, home_of, image_of, object_views,
    recorder_of, Aff4Object, Container, ObjectView,
};
use crate::verify::images::{
    find_image, gap_deviation, gap_note, image_reading, image_report, images_ok, mapped_reading,
    records_whole,
    records_whole_image_digest, select_whole, set_image_report, untraversed_report, verify_image,
    verify_image_in_set, verify_without_traversal, whole_digests,
};
use crate::verify::maps::{block_object_report, map_checks, verify_block_hash_segment, verify_map};
use crate::verify::report::{
    around_reading, in_step_before_reading, in_step_chain, in_step_reading,
    in_step_still, in_step_unread, no_reading, of_reading, told_around_reading, told_checks,
    told_checks_join, CheckView, Coverage, NoProgress, Progress, ProgressObserver, ProgressView,
    Reading, ReportView, VerificationReport,
};
use crate::verify::streams::{
    fused_start, fused_view, fused_wf, fusible, stream_outcome, stream_reading, verify_stream, FusedImage,
    FusedView, VerifyOptions,
};
use crate::volume::Volume;

verus! {

impl<V: Volume> Container<V> {
    /// Whether the container has a volume and its images' streams have chunks.
    pub open spec fn wf(&self) -> bool {
        self.parts@.len() > 0 && images_ok(self.images@)
    }
}

/// Those of some objects that are images.
pub open spec fn image_objects(objects: Seq<ObjectView>) -> Seq<ObjectView>
    decreases objects.len(),
{
    if objects.len() == 0 {
        Seq::empty()
    } else {
        let before = image_objects(objects.drop_last());
        if role_is_image(objects.last().role) {
            before.push(objects.last())
        } else {
            before
        }
    }
}

/// The positions of those objects that are images.
fn find_images(objects: &Vec<Aff4Object>) -> (r: Vec<usize>)
    ensures
        r@.len() == image_objects(object_views(objects@)).len(),
        forall|i: int|
            0 <= i < r@.len() ==> (#[trigger] r@[i]) < objects@.len() && objects@[r@[i] as int]@
                == image_objects(object_views(objects@))[i],
{
    let ghost all = object_views(objects@);
    let mut out: Vec<usize> = Vec::new();
    let mut i: usize = 0;
    while i < objects.len()
        invariant
            i <= objects.len(),
            all == object_views(objects@),
            out@.len() == image_objects(all.take(i as int)).len(),
            forall|k: int|
                0 <= k < out@.len() ==> (#[trigger] out@[k]) < objects@.len()
                    && objects@[out@[k] as int]@ == image_objects(all.take(i as int))[k],
        decreases objects.len() - i,
    {
        proof {
            assert(all.take(i + 1).drop_last() =~= all.take(i as int));
            assert(all.take(i + 1).last() == objects@[i as int]@);
        }
        if objects[i].role.is_image() {
            out.push(i);
        }
        i = i + 1;
    }
    proof {
        assert(all.take(i as int) =~= all);
    }
    out
}

/// An image's digest to come out of the passes over its streams, where there is
/// one, and what is noted of it.
#[verifier::opaque]
pub open spec fn prepared<V: Volume>(report: ReportView, container: Container<V>) -> (
    ReportView,
    Option<FusedView>,
) {
    let locus = LocusView::file(container.path@);
    let images = image_objects(object_views(container.objects@));
    if container.parts@.len() <= 1 || images.len() != 1 || whole_digests(
        images[0].hashes,
    ).len() == 0 {
        (report, None)
    } else {
        match image_of(container.images@, images[0].arn, locus) {
            Err(_) => (report, None),
            Ok(image) => if !fusible(image) {
                (report, None)
            } else {
                (
                    match gap_note(image, records_whole(images[0].hashes)) {
                        Some(note) => report.note(note),
                        None => report,
                    },
                    Some(fused_start(images[0], image, whole_digests(images[0].hashes))),
                )
            },
        }
    }
}

/// Prepare an image's digest to come out of the passes over its streams, if one
/// can: only in a set, of its only image, and only where the order of the passes is
/// that of the image.
pub(crate) fn prepare_fused_image<V: Volume>(
    container: &Container<V>,
    locus: &Locus,
    report: &mut VerificationReport,
) -> (r: Option<FusedImage>)
    requires
        container.wf(),
        locus@ == LocusView::file(container.path@),
    ensures
        fused_wf(r),
        (final(report)@, fused_view(r)) == prepared(old(report)@, *container),
        final(report)@.checks == old(report)@.checks,
{
    proof {
        reveal(prepared);
    }
    if container.parts.len() <= 1 {
        return None;
    }
    let found = find_images(&container.objects);
    if found.len() != 1 {
        return None;
    }
    let object = &container.objects[found[0]];
    proof {
        assert(object@ == image_objects(object_views(container.objects@))[0]);
    }
    let hashes = select_whole(&object.hashes);
    proof {
        assert(stored_views(hashes@).len() == hashes@.len());
    }
    if hashes.len() == 0 {
        return None;
    }
    let image = match find_image(&container.images, &object.arn, locus) {
        Ok(image) => image,
        Err(_) => return None,
    };
    let fused = match FusedImage::prepare(object, image, hashes) {
        Some(fused) => fused,
        None => return None,
    };
    match gap_deviation(image, records_whole_image_digest(object)) {
        Some(note) => report.note(note),
        None => {},
    }
    Some(fused)
}

/// What verifying an object makes of a report and of an image's digest under way.
pub open spec fn object_outcome<V: Volume>(
    report: ReportView,
    fused: Option<FusedView>,
    object: ObjectView,
    container: Container<V>,
    options: VerifyOptions,
) -> (ReportView, Option<FusedView>) {
    let locus = LocusView::file(container.path@);
    let parts = container.parts@;
    match object.role {
        ObjectRole::ImageStream => {
            let home = parts[home_of(parts, object.arn)];
            stream_outcome(
                report,
                fused,
                object,
                &home.volume,
                home.graph@,
                container.lexicon,
                locus,
                options,
            )
        },
        ObjectRole::MapObject => (
            report.all_checks(map_checks(object, &parts[declarer_of(parts, object.arn)].volume)),
            fused,
        ),
        ObjectRole::BlockHashes => (
            block_object_report(report, object, &parts[recorder_of(parts, object.arn)].volume),
            fused,
        ),
        _ => if !role_is_image(object.role) {
            (report, fused)
        } else if parts.len() > 1 {
            (set_image_report(report, object, container.images@, parts, locus), fused)
        } else {
            (
                image_report(
                    report,
                    object,
                    container.images@,
                    parts,
                    container.lexicon,
                    locus,
                    options,
                ),
                fused,
            )
        },
    }
}

/// What is reported while an object is read to verify it.
pub open spec fn object_reading<V: Volume>(
    report: ReportView,
    fused: Option<FusedView>,
    object: ObjectView,
    container: Container<V>,
    options: VerifyOptions,
) -> Reading {
    let locus = LocusView::file(container.path@);
    let parts = container.parts@;
    if object.role == ObjectRole::ImageStream {
        let home = parts[home_of(parts, object.arn)];
        stream_reading(
            report,
            fused,
            object,
            &home.volume,
            home.graph@,
            container.lexicon,
            locus,
            options,
        )
    } else if object.role == ObjectRole::MapObject || object.role == ObjectRole::BlockHashes
        || !role_is_image(object.role) {
        no_reading(report.checks)
    } else if parts.len() > 1 {
        mapped_reading(report, object, container.images@, parts, locus, true)
    } else {
        image_reading(
            report,
            object,
            container.images@,
            parts,
            container.lexicon,
            locus,
            options,
        )
    }
}

/// Verify one object, reading it from the volume that owns it.
///
/// A stream is read from the volume that holds its bevies, together with what
/// that volume states of it; a map beside the volume that declares it; per-chunk
/// digests from a volume that records them. The primary volume stands in where
/// none does.
pub fn verify_object<V: Volume, P: ProgressObserver>(
    object: &Aff4Object,
    container: &Container<V>,
    locus: &Locus,
    options: VerifyOptions,
    fused: &mut Option<FusedImage>,
    report: &mut VerificationReport,
    progress: &mut P,
)
    requires
        container.wf(),
        locus@ == LocusView::file(container.path@),
        fused_wf(*old(fused)),
    ensures
        fused_wf(*final(fused)),
        (final(report)@, fused_view(*final(fused))) == object_outcome(
            old(report)@,
            fused_view(*old(fused)),
            object@,
            *container,
            options,
        ),
        in_step_reading(
            old(progress).log(),
            old(report)@.checks,
            object_reading(
                old(report)@,
                fused_view(*old(fused)),
                object@,
                *container,
                options,
            ),
            final(progress).log(),
            final(report)@.checks,
        ),
{
    let ghost log0 = progress.log();
    let ghost checks0 = report@.checks;
    proof {
        in_step_still(log0, checks0);
        in_step_unread(log0, checks0, log0, checks0);
    }
    match object.role {
        ObjectRole::ImageStream => {
            let home: usize = match holding(&container.parts, &object.arn) {
                Some(i) => i,
                None => 0,
            };
            verify_stream(
                object,
                &container.parts[home].volume,
                &container.parts[home].graph,
                &container.lexicon,
                locus,
                options,
                fused,
                report,
                progress,
            );
        },
        ObjectRole::MapObject => {
            let owner: usize = match declaring(&container.parts, &object.arn) {
                Some(i) => i,
                None => 0,
            };
            verify_map(object, &container.parts[owner].volume, report, progress);
            proof {
                in_step_unread(log0, checks0, progress.log(), report@.checks);
            }
        },
        ObjectRole::BlockHashes => {
            let owner: usize = match holding_block_hashes(&container.parts, &object.arn) {
                Some(i) => i,
                None => 0,
            };
            verify_block_hash_segment(object, &container.parts[owner].volume, report, progress);
            proof {
                in_step_unread(log0, checks0, progress.log(), report@.checks);
            }
        },
        _ => {
            if object.role.is_image() {
                if container.parts.len() > 1 {
                    verify_image_in_set(
                        object,
                        &container.images,
                        &container.parts,
                        locus,
                        report,
                        progress,
                    );
                } else {
                    verify_image(
                        object,
                        &container.images,
                        &container.parts,
                        &container.lexicon,
                        locus,
                        options,
                        report,
                        progress,
                    );
                }
            }
        },
    }
}

/// What one turn of the dispatch makes of a report and of an image's digest under
/// way: the image whose digest it is takes its result from there, or falls back on
/// a traversal of its own.
#[verifier::opaque]
pub open spec fn turn_outcome<V: Volume>(
    report: ReportView,
    fused: Option<FusedView>,
    object: ObjectView,
    container: Container<V>,
    options: VerifyOptions,
) -> (ReportView, Option<FusedView>) {
    let locus = LocusView::file(container.path@);
    match fused {
        Some(f) => if f.arn == object.arn {
            let closed = f.finished(report, locus);
            if f.emitted(locus).shortfall() is None {
                (
                    untraversed_report(closed, object, None, container.parts@, object.hashes),
                    None,
                )
            } else {
                (object_outcome(closed, None, object, container, options).0, None)
            }
        } else {
            object_outcome(report, fused, object, container, options)
        },
        None => object_outcome(report, fused, object, container, options),
    }
}

/// What is reported while an object is read in its turn of the dispatch.
#[verifier::opaque]
pub open spec fn turn_reading<V: Volume>(
    report: ReportView,
    fused: Option<FusedView>,
    object: ObjectView,
    container: Container<V>,
    options: VerifyOptions,
) -> Reading {
    let locus = LocusView::file(container.path@);
    match fused {
        Some(f) => if f.arn == object.arn {
            if f.emitted(locus).shortfall() is None {
                no_reading(report.checks)
            } else {
                object_reading(f.finished(report, locus), None, object, container, options)
            }
        } else {
            object_reading(report, fused, object, container, options)
        },
        None => object_reading(report, fused, object, container, options),
    }
}

/// What the first `n` turns of the dispatch make of an empty report.
pub open spec fn after_turns<V: Volume>(container: Container<V>, options: VerifyOptions, n: nat) -> (
    ReportView,
    Option<FusedView>,
)
    decreases n,
{
    if n == 0 {
        prepared(empty_report(container.path@), container)
    } else {
        let (report, fused) = after_turns(container, options, (n - 1) as nat);
        turn_outcome(report, fused, container.objects@[n - 1]@, container, options)
    }
}

/// A report with nothing in it.
pub open spec fn empty_report(path: Seq<char>) -> ReportView {
    ReportView {
        source_path: path,
        checks: Seq::empty(),
        read_accounting: Seq::empty(),
        notes: Seq::empty(),
        block_hashes_verified: false,
    }
}

/// Whether the digest of any chunk was recomputed.
pub open spec fn blocks_were_checked(checks: Seq<CheckView>) -> bool {
    exists|i: int|
        0 <= i < checks.len() && (#[trigger] checks[i]).coverage == Coverage::Block
            && checks[i].outcome.checked()
}

/// What verifying a container reports.
pub open spec fn container_report<V: Volume>(container: Container<V>, options: VerifyOptions) -> ReportView {
    let report = after_turns(container, options, container.objects@.len()).0;
    ReportView { block_hashes_verified: blocks_were_checked(report.checks), ..report }
}

/// Take an image's digest under way, if it is an object's.
fn take_owned(fused: &mut Option<FusedImage>, arn: &Arn) -> (r: Option<FusedImage>)
    requires
        fused_wf(*old(fused)),
    ensures
        fused_wf(r),
        fused_wf(*final(fused)),
        (match fused_view(*old(fused)) {
            Some(f) => if f.arn == arn@ {
                fused_view(r) == Some(f) && *final(fused) is None
            } else {
                r is None && fused_view(*final(fused)) == Some(f)
            },
            None => r is None && *final(fused) is None,
        }),
{
    let owned = match &*fused {
        Some(f) => text::same(f.arn.as_str(), arn.as_str()),
        None => false,
    };
    if owned {
        fused.take()
    } else {
        None
    }
}

/// The announcement that work on an object begins.
pub open spec fn started(object: ObjectView) -> Seq<ProgressView> {
    seq![
        ProgressView::ObjectStarted {
            arn: object.arn,
            role: object.role,
            total_bytes: object.size,
        },
    ]
}

/// The announcement that work on an object is finished.
pub open spec fn finished(object: ObjectView) -> Seq<ProgressView> {
    seq![ProgressView::ObjectFinished { arn: object.arn }]
}

/// What is reported in one turn of the dispatch: the beginning and the end of work on
/// a stream or an image, and between them how far reading has come and the checks that
/// were added.
pub open spec fn turn_events(
    object: ObjectView,
    before: Seq<CheckView>,
    reading: Reading,
    after: Seq<CheckView>,
) -> Seq<ProgressView> {
    let work = around_reading(before, reading, after);
    if object.role == ObjectRole::ImageStream || role_is_image(object.role) {
        started(object) + work + finished(object)
    } else {
        work
    }
}

/// What is reported in the first `n` turns of the dispatch.
pub open spec fn dispatch_events<V: Volume>(container: Container<V>, options: VerifyOptions, n: nat) -> Seq<
    ProgressView,
>
    decreases n,
{
    if n == 0 {
        Seq::empty()
    } else {
        let (report, fused) = after_turns(container, options, (n - 1) as nat);
        let object = container.objects@[n - 1]@;
        dispatch_events(container, options, (n - 1) as nat) + turn_events(
            object,
            report.checks,
            turn_reading(report, fused, object, container, options),
            after_turns(container, options, n).0.checks,
        )
    }
}

/// Tell an observer that work on an object begins.
fn tell_started<P: ProgressObserver>(object: &Aff4Object, progress: &mut P)
    ensures
        final(progress).log() == old(progress).log() + started(object@),
{
    progress.on(
        Progress::ObjectStarted {
            arn: &object.arn,
            role: object.role,
            total_bytes: object.size,
        },
    );
    proof {
        assert(progress.log() =~= old(progress).log() + started(object@));
    }
}

/// Tell an observer that work on an object is finished.
fn tell_finished<P: ProgressObserver>(object: &Aff4Object, progress: &mut P)
    ensures
        final(progress).log() == old(progress).log() + finished(object@),
{
    progress.on(Progress::ObjectFinished { arn: &object.arn });
    proof {
        assert(progress.log() =~= old(progress).log() + finished(object@));
    }
}

/// One turn of the dispatch.
fn take_turn<V: Volume, P: ProgressObserver>(
    object: &Aff4Object,
    container: &Container<V>,
    locus: &Locus,
    options: VerifyOptions,
    fused: &mut Option<FusedImage>,
    report: &mut VerificationReport,
    progress: &mut P,
)
    requires
        container.wf(),
        locus@ == LocusView::file(container.path@),
        fused_wf(*old(fused)),
    ensures
        fused_wf(*final(fused)),
        (final(report)@, fused_view(*final(fused))) == turn_outcome(
            old(report)@,
            fused_view(*old(fused)),
            object@,
            *container,
            options,
        ),
        in_step_reading(
            old(progress).log(),
            old(report)@.checks,
            turn_reading(
                old(report)@,
                fused_view(*old(fused)),
                object@,
                *container,
                options,
            ),
            final(progress).log(),
            final(report)@.checks,
        ),
{
    proof {
        reveal(turn_outcome);
        reveal(turn_reading);
    }
    match take_owned(fused, &object.arn) {
        Some(owned) => {
            let covered = owned.finish(locus, report, progress);
            let ghost log1 = progress.log();
            let ghost checks1 = report@.checks;
            if covered {
                verify_without_traversal(object, None, &container.parts, report, progress);
                proof {
                    in_step_chain(
                        old(progress).log(),
                        old(report)@.checks,
                        log1,
                        checks1,
                        progress.log(),
                        report@.checks,
                    );
                    in_step_unread(
                        old(progress).log(),
                        old(report)@.checks,
                        progress.log(),
                        report@.checks,
                    );
                }
            } else {
                let mut none = None;
                let ghost closed = report@;
                verify_object(object, container, locus, options, &mut none, report, progress);
                proof {
                    in_step_before_reading(
                        old(progress).log(),
                        old(report)@.checks,
                        log1,
                        checks1,
                        object_reading(closed, None, object@, *container, options),
                        progress.log(),
                        report@.checks,
                    );
                }
            }
        },
        None => verify_object(object, container, locus, options, fused, report, progress),
    }
}

/// One turn of the dispatch, announced.
fn take_told_turn<V: Volume, P: ProgressObserver>(
    object: &Aff4Object,
    container: &Container<V>,
    locus: &Locus,
    options: VerifyOptions,
    fused: &mut Option<FusedImage>,
    report: &mut VerificationReport,
    progress: &mut P,
)
    requires
        container.wf(),
        locus@ == LocusView::file(container.path@),
        fused_wf(*old(fused)),
    ensures
        fused_wf(*final(fused)),
        (final(report)@, fused_view(*final(fused))) == turn_outcome(
            old(report)@,
            fused_view(*old(fused)),
            object@,
            *container,
            options,
        ),
        final(progress).log() == old(progress).log() + turn_events(
            object@,
            old(report)@.checks,
            turn_reading(
                old(report)@,
                fused_view(*old(fused)),
                object@,
                *container,
                options,
            ),
            final(report)@.checks,
        ),
        old(report)@.checks + told_checks(
            turn_events(
                object@,
                old(report)@.checks,
                turn_reading(
                    old(report)@,
                    fused_view(*old(fused)),
                    object@,
                    *container,
                    options,
                ),
                final(report)@.checks,
            ),
        ) == final(report)@.checks,
{
    let ghost reading = turn_reading(
        old(report)@,
        fused_view(*old(fused)),
        object@,
        *container,
        options,
    );
    let told = object.role == ObjectRole::ImageStream || object.role.is_image();
    if told {
        tell_started(object, progress);
    }
    take_turn(object, container, locus, options, fused, report, progress);
    if told {
        tell_finished(object, progress);
    }
    proof {
        turn_is_told(object@, old(report)@.checks, reading, report@.checks);
        let work = around_reading(old(report)@.checks, reading, report@.checks);
        let base = old(progress).log();
        if told {
            assert(((base + started(object@)) + work) + finished(object@) =~= base + (started(
                object@,
            ) + work + finished(object@)));
        }
    }
}

/// Whether the digest of any chunk was recomputed.
fn any_block_checked(report: &VerificationReport) -> (r: bool)
    ensures
        r == blocks_were_checked(report@.checks),
{
    let mut i: usize = 0;
    while i < report.checks.len()
        invariant
            i <= report.checks.len(),
            forall|k: int|
                0 <= k < i ==> !((#[trigger] report@.checks[k]).coverage == Coverage::Block
                    && report@.checks[k].outcome.checked()),
        decreases report.checks.len() - i,
    {
        proof {
            assert(report@.checks[i as int] == report.checks@[i as int]@);
        }
        if report.checks[i].coverage == Coverage::Block && report.checks[i].outcome.was_checked() {
            return true;
        }
        i = i + 1;
    }
    false
}

/// Verify every image, stream and map that a container describes.
///
/// A digest that does not match is a check that says so, not a failure.
pub fn verify_container<V: Volume>(container: &Container<V>, options: VerifyOptions) -> (r:
    VerificationReport)
    requires
        container.wf(),
    ensures
        r@ == container_report(*container, options),
{
    let mut quiet = NoProgress::new();
    verify_container_with_progress(container, options, &mut quiet)
}

/// As [`verify_container`], telling an observer what is happening: when work on a
/// stream or an image begins and ends, how far reading has come, and every check, in
/// the order of the report.
#[verifier::spinoff_prover]
pub fn verify_container_with_progress<V: Volume, P: ProgressObserver>(
    container: &Container<V>,
    options: VerifyOptions,
    progress: &mut P,
) -> (r: VerificationReport)
    requires
        container.wf(),
    ensures
        r@ == container_report(*container, options),
        final(progress).log() == old(progress).log() + dispatch_events(
            *container,
            options,
            container.objects@.len(),
        ),
        told_checks(dispatch_events(*container, options, container.objects@.len())) == r@.checks,
{
    let locus = Locus::new(container.path.as_str());
    let mut report = VerificationReport {
        source_path: container.path.clone(),
        checks: Vec::new(),
        read_accounting: Vec::new(),
        notes: Vec::new(),
        block_hashes_verified: false,
    };
    proof {
        assert(report@ =~= empty_report(container.path@));
    }
    let mut fused = prepare_fused_image(container, &locus, &mut report);
    let ghost before = progress.log();
    let mut i: usize = 0;
    proof {
        assert(before + dispatch_events(*container, options, 0) =~= before);
    }
    while i < container.objects.len()
        invariant
            i <= container.objects.len(),
            container.wf(),
            locus@ == LocusView::file(container.path@),
            fused_wf(fused),
            (report@, fused_view(fused)) == after_turns(*container, options, i as nat),
            progress.log() == before + dispatch_events(*container, options, i as nat),
            told_checks(dispatch_events(*container, options, i as nat)) == report@.checks,
        decreases container.objects.len() - i,
    {
        let ghost checks0 = report@.checks;
        let ghost reading = turn_reading(
            report@,
            fused_view(fused),
            container.objects@[i as int]@,
            *container,
            options,
        );
        take_told_turn(
            &container.objects[i],
            container,
            &locus,
            options,
            &mut fused,
            &mut report,
            progress,
        );
        proof {
            let so_far = dispatch_events(*container, options, i as nat);
            let turn = turn_events(
                container.objects@[i as int]@,
                checks0,
                reading,
                report@.checks,
            );
            assert((before + so_far) + turn =~= before + (so_far + turn));
            told_checks_join(so_far, turn);
        }
        i = i + 1;
    }
    let verified = any_block_checked(&report);
    report.block_hashes_verified = verified;
    proof {
        assert(report@ =~= container_report(*container, options));
    }
    report
}

/// A turn of the dispatch announces the checks that it adds.
proof fn turn_is_told(
    object: ObjectView,
    checks0: Seq<CheckView>,
    reading: Reading,
    checks1: Seq<CheckView>,
)
    requires
        of_reading(reading.events),
        checks0.is_prefix_of(checks1),
        checks0.len() <= reading.after <= checks1.len(),
    ensures
        checks0 + told_checks(turn_events(object, checks0, reading, checks1)) == checks1,
{
    let work = around_reading(checks0, reading, checks1);
    told_around_reading(checks0, reading, checks1);
    told_checks_join(started(object) + work, finished(object));
    told_checks_join(started(object), work);
    reveal_with_fuel(told_checks, 2);
    assert(started(object).drop_last() =~= Seq::<ProgressView>::empty());
    assert(finished(object).drop_last() =~= Seq::<ProgressView>::empty());
    assert(told_checks(started(object)) =~= Seq::<CheckView>::empty());
    assert(told_checks(finished(object)) =~= Seq::<CheckView>::empty());
    assert(Seq::<CheckView>::empty() + told_checks(work) =~= told_checks(work));
    assert(told_checks(work) + Seq::<CheckView>::empty() =~= told_checks(work));
}

} // verus!
