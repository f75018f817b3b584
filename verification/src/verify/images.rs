//! Verifying images: the digests over all of their bytes and the root of the tree
//! of digests.

use vstd::prelude::*;

use crate::arn::{lossy_text, member_of, unescape, unescaped_bytes, Arn, NameMapping};
use crate::error::{error_text, Error, ErrorView, Locus, LocusView};
use crate::hash::{computable, is_computable, MultiHasher};
use crate::lexicon::Lexicon;
use crate::model::{stored_views, HashAlgorithm, ObjectRole, StoredHash, StoredHashView};

use crate::stream::{taken_between, ImageStream, StreamView};
use crate::text;
use crate::verify::blocks::{holds_data, volume_holds_stream_data};
use crate::verify::container::{
    declares, declares_type, image_bytes, image_content, image_of, is_zip_segment,
    resolution_view, runs_slices, slice_events, slice_events_are_of_reading, stored_as_segment, stream_views,
    streams_ok, undescribed, Aff4Object, Image, ImageEntry, ImageView, ObjectView, Part,
};
use crate::verify::maps::{
    all_digest_checks, all_skipped, arn_texts, block_map_check, block_map_hash_input,
    block_map_input, map_elsewhere_text, map_segments, map_unreadable_text, push_all_digest_checks,
    push_all_skipped, push_block_map_check, read_map_segments, uncomputable, uncomputable_text,
};
use crate::verify::report::{
    classify_read_failure, declined_check, failure_cause, in_step, in_step_after_reading,
    in_step_before_reading, in_step_chain, in_step_of_reading, in_step_reading, in_step_still,
    in_step_unread, no_reading, push_check, skipped_check, CheckView, Coverage, Declined, HashCheck, ImageAccounting,
    ImageAccountingView, ProgressObserver, ReadAccounting, ReadAccountingView, Reading, ReportView,
    VerificationReport,
};
use crate::verify::streams::{
    algorithms, compare_hashed, stream_outcome, stream_reading, verify_stream, VerifyOptions,
};
use crate::verify::stripes::{root_report, verify_striped_block_map_hash};
use crate::volume::Volume;

verus! {

/// Whether a recorded digest covers an image's bytes and can be recomputed.
pub open spec fn covers_bytes(hash: StoredHashView) -> bool {
    hash.algorithm != HashAlgorithm::BlockMapSha512 && computable(hash.algorithm)
}

/// Whether any of some recorded digests covers an image's bytes and can be
/// recomputed.
pub open spec fn records_whole(hashes: Seq<StoredHashView>) -> bool {
    exists|i: int| 0 <= i < hashes.len() && covers_bytes(#[trigger] hashes[i])
}

/// Whether an object records a digest over the whole image.
///
/// `blockMapHash` is built from other digests, and an algorithm that is not
/// computed here supports no claim about the bytes, so neither counts.
pub fn records_whole_image_digest(object: &Aff4Object) -> (r: bool)
    ensures
        r == records_whole(object@.hashes),
{
    let mut i: usize = 0;
    while i < object.hashes.len()
        invariant
            i <= object.hashes.len(),
            forall|k: int| 0 <= k < i ==> !covers_bytes(#[trigger] object@.hashes[k]),
        decreases object.hashes.len() - i,
    {
        proof {
            assert(object@.hashes[i as int] == object.hashes@[i as int]@);
        }
        if object.hashes[i].algorithm != HashAlgorithm::BlockMapSha512 && is_computable(
            object.hashes[i].algorithm,
        ) {
            return true;
        }
        i = i + 1;
    }
    false
}

/// Those of some recorded digests that cover an image's bytes and can be
/// recomputed.
pub open spec fn whole_digests(hashes: Seq<StoredHashView>) -> Seq<StoredHashView>
    decreases hashes.len(),
{
    if hashes.len() == 0 {
        Seq::empty()
    } else {
        let before = whole_digests(hashes.drop_last());
        if covers_bytes(hashes.last()) {
            before.push(hashes.last())
        } else {
            before
        }
    }
}

/// Those of some recorded digests that cover an image's bytes and can be
/// recomputed.
pub fn select_whole(hashes: &Vec<StoredHash>) -> (r: Vec<StoredHash>)
    ensures
        stored_views(r@) == whole_digests(stored_views(hashes@)),
{
    let ghost all = stored_views(hashes@);
    let mut out: Vec<StoredHash> = Vec::new();
    let mut i: usize = 0;
    proof {
        assert(stored_views(out@) =~= Seq::<StoredHashView>::empty());
    }
    while i < hashes.len()
        invariant
            i <= hashes.len(),
            all == stored_views(hashes@),
            stored_views(out@) == whole_digests(all.take(i as int)),
        decreases hashes.len() - i,
    {
        proof {
            assert(all.take(i + 1).drop_last() =~= all.take(i as int));
            assert(all.take(i + 1).last() == hashes@[i as int]@);
        }
        if hashes[i].algorithm != HashAlgorithm::BlockMapSha512 && is_computable(
            hashes[i].algorithm,
        ) {
            let ghost before = out@;
            let copy = hashes[i].clone();
            out.push(copy);
            proof {
                assert(stored_views(out@) =~= stored_views(before).push(copy@));
            }
        }
        i = i + 1;
    }
    proof {
        assert(all.take(i as int) =~= all);
    }
    out
}

/// What resolving an image gave, the first entry of that name.
pub fn find_image<'a>(images: &'a Vec<ImageEntry>, arn: &Arn, locus: &Locus) -> (r: Result<
    &'a Image,
    Error,
>)
    ensures
        (match r {
            Ok(image) => image_of(images@, arn@, locus@) == Ok::<ImageView, ErrorView>(image@),
            Err(e) => image_of(images@, arn@, locus@) == Err::<ImageView, ErrorView>(e@),
        }),
        images_ok(images@) ==> (r matches Ok(image) ==> streams_ok(image@.streams)),
{
    let ghost all = images@;
    let mut i: usize = 0;
    proof {
        assert(all.skip(0) =~= all);
    }
    while i < images.len()
        invariant
            i <= images.len(),
            all == images@,
            image_of(all, arn@, locus@) == image_of(all.skip(i as int), arn@, locus@),
        decreases images.len() - i,
    {
        proof {
            assert(all.skip(i as int)[0] == images@[i as int]);
            assert(all.skip(i as int).skip(1) =~= all.skip(i + 1));
        }
        if text::same(images[i].arn.as_str(), arn.as_str()) {
            proof {
                if images_ok(images@) {
                    assert(image_ok(images@[i as int]));
                }
            }
            return match &images[i].resolved {
                Ok(image) => Ok(image),
                Err(e) => Err(e.clone()),
            };
        }
        i = i + 1;
    }
    Err(
        Error::malformed(
            locus.subject(arn.as_str()),
            text::owned("the image names no data stream"),
        ),
    )
}

/// Whether the streams of an image, if it was resolved, have chunks and bevies.
pub open spec fn image_ok(entry: ImageEntry) -> bool {
    resolution_view(entry.resolved) matches Ok(image) ==> streams_ok(image.streams)
}

/// Whether the streams of every resolved image have chunks and bevies.
pub open spec fn images_ok(images: Seq<ImageEntry>) -> bool {
    forall|i: int| 0 <= i < images.len() ==> image_ok(#[trigger] images[i])
}

/// What is said of an image whose map leaves bytes uncovered.
pub open spec fn gap_note(image: ImageView, covered: bool) -> Option<Seq<char>> {
    if image.composition.gap_filled == 0 {
        None
    } else {
        Some(
            text::decimal(image.composition.gap_filled as nat)
                + " bytes of the image are covered by no map entry and are filled from "@ + (
            match image.composition.gap_fill {
                Some(fill) => fill,
                None => "nothing recorded"@,
            }) + (if covered {
                "; a recorded digest over the image covers these bytes"@
            } else {
                "; no recorded digest over the image covers these bytes"@
            }),
        )
    }
}

/// What is to be said of an image whose map leaves bytes uncovered.
pub fn gap_deviation(image: &Image, covered: bool) -> (r: Option<String>)
    ensures
        (match r {
            Some(note) => gap_note(image@, covered) == Some(note@),
            None => gap_note(image@, covered) is None,
        }),
{
    if image.composition.gap_filled == 0 {
        return None;
    }
    let fill = match &image.composition.gap_fill {
        Some(fill) => fill.as_str(),
        None => "nothing recorded",
    };
    let tail = if covered {
        "; a recorded digest over the image covers these bytes"
    } else {
        "; no recorded digest over the image covers these bytes"
    };
    Some(
        text::cat4(
            text::dec(image.composition.gap_filled).as_str(),
            " bytes of the image are covered by no map entry and are filled from ",
            fill,
            tail,
        ),
    )
}

/// Those of some streams whose data a volume holds.
pub open spec fn held_among<V: Volume>(streams: Seq<StreamView>, volume: &V) -> Seq<Seq<char>>
    decreases streams.len(),
{
    if streams.len() == 0 {
        Seq::empty()
    } else {
        let before = held_among(streams.drop_last(), volume);
        if holds_data(volume, streams.last().arn) {
            before.push(streams.last().arn)
        } else {
            before
        }
    }
}

/// Those of some streams whose data a volume holds.
fn select_held<V: Volume>(streams: &Vec<ImageStream>, volume: &V) -> (r: Vec<Arn>)
    ensures
        arn_texts(r@) == held_among(stream_views(streams@), volume),
{
    let ghost all = stream_views(streams@);
    let mut out: Vec<Arn> = Vec::new();
    let mut i: usize = 0;
    proof {
        assert(arn_texts(out@) =~= Seq::<Seq<char>>::empty());
    }
    while i < streams.len()
        invariant
            i <= streams.len(),
            all == stream_views(streams@),
            arn_texts(out@) == held_among(all.take(i as int), volume),
        decreases streams.len() - i,
    {
        proof {
            assert(all.take(i + 1).drop_last() =~= all.take(i as int));
            assert(all.take(i + 1).last() == streams@[i as int]@);
        }
        if volume_holds_stream_data(volume, streams[i].arn()) {
            let ghost before = out@;
            let copy = streams[i].arn.clone();
            out.push(copy);
            proof {
                assert(arn_texts(out@) =~= arn_texts(before).push(copy@));
            }
        }
        i = i + 1;
    }
    proof {
        assert(all.take(i as int) =~= all);
    }
    out
}

/// The check of an image's `blockMapHash` in one volume.
pub open spec fn image_map_check<V: Volume>(
    object: ObjectView,
    image: ImageView,
    volume: &V,
    hash: StoredHashView,
) -> CheckView {
    match member_of(image.map_arn, volume.name(), NameMapping::Escaped) {
        None => declined_check(
            object.arn,
            object.role,
            hash,
            Coverage::Composite,
            map_elsewhere_text(),
        ),
        Some(base) => match map_segments(base, volume) {
            Err(e) => skipped_check(
                object.arn,
                object.role,
                hash,
                Coverage::Composite,
                map_unreadable_text(e),
                failure_cause(e.kind),
            ),
            Ok(segments) => match block_map_input(
                volume,
                held_among(image.streams, volume),
                segments,
            ) {
                Err(reason) => skipped_check(
                    object.arn,
                    object.role,
                    hash,
                    Coverage::Composite,
                    "block-hash segment "@ + reason,
                    Declined::Unreadable,
                ),
                Ok(input) => block_map_check(object.arn, object.role, hash, input),
            },
        },
    }
}

/// Verify an image's `blockMapHash`: a SHA-512 over the digests of the block-hash
/// segments of the streams this volume holds, then of the three map segments.
pub fn verify_block_map_hash<V: Volume, P: ProgressObserver>(
    object: &Aff4Object,
    image: &Image,
    volume: &V,
    hash: &StoredHash,
    report: &mut VerificationReport,
    progress: &mut P,
)
    ensures
        final(report)@ == old(report)@.check(image_map_check(object@, image@, volume, hash@)),
        in_step(
            old(progress).log(),
            old(report)@.checks,
            final(progress).log(),
            final(report)@.checks,
        ),
{
    let base = match image.map_arn.member_name(&volume.arn(), NameMapping::Escaped) {
        Some(base) => base,
        None => {
            push_check(
                report,
                progress,
                HashCheck::declined(
                    &object.arn,
                    object.role,
                    hash,
                    Coverage::Composite,
                    "the map's segments are stored in another volume",
                ),
            );
            return;
        },
    };
    let segments = match read_map_segments(base.as_str(), volume) {
        Ok(segments) => segments,
        Err(e) => {
            let reason = text::cat2(
                "the map's segments could not be read: ",
                e.to_string().as_str(),
            );
            push_check(
                report,
                progress,
                HashCheck::from_read_error(
                    &object.arn,
                    object.role,
                    hash,
                    Coverage::Composite,
                    reason.as_str(),
                    &e,
                ),
            );
            return;
        },
    };
    let local = select_held(&image.streams, volume);
    match block_map_hash_input(volume, &local, &segments) {
        Ok(input) => push_block_map_check(
            &object.arn,
            object.role,
            hash,
            input.as_slice(),
            report,
            progress,
        ),
        Err(reason) => {
            let reason = text::cat2("block-hash segment ", reason.as_str());
            push_check(
                report,
                progress,
                HashCheck::unreadable(
                    &object.arn,
                    object.role,
                    hash,
                    Coverage::Composite,
                    reason.as_str(),
                ),
            );
        },
    }
}

/// A report after the digests over all of an image's bytes have been verified.
pub open spec fn whole_report<V: Volume>(
    report: ReportView,
    object: ObjectView,
    image: ImageView,
    parts: Seq<Part<V>>,
    hashes: Seq<StoredHashView>,
    locus: LocusView,
) -> ReportView {
    match image_content(image, parts, locus) {
        Err(e) => report.all_checks(
            all_skipped(
                object.arn,
                object.role,
                hashes,
                Coverage::WholeImage,
                "the image could not be read: "@ + error_text(e),
                if undescribed(image, parts, locus) {
                    Declined::NotSupported
                } else {
                    failure_cause(e.kind)
                },
            ),
        ),
        Ok((data, counts)) => report.reaccount(
            ImageAccountingView { image: object.arn, accounting: counts, traversed: true },
        ).all_checks(
            all_digest_checks(object.arn, object.role, hashes, Coverage::WholeImage, data),
        ),
    }
}

/// What is reported while all of an image's bytes are read to verify it.
pub open spec fn whole_reading<V: Volume>(
    report: ReportView,
    object: ObjectView,
    image: ImageView,
    parts: Seq<Part<V>>,
    locus: LocusView,
) -> Reading {
    Reading {
        after: report.checks.len(),
        events: slice_events(
            runs_slices(image, parts, locus, image.runs.len()),
            object.arn,
            0,
            image.size,
        ),
    }
}

/// Verify the digests over all of an image's bytes, in one traversal.
///
/// An image whose description does not say what a run is made of cannot be read, which
/// is no finding about the evidence.
pub fn verify_whole_image_digests<V: Volume, P: ProgressObserver>(
    object: &Aff4Object,
    image: &Image,
    parts: &Vec<Part<V>>,
    hashes: &Vec<StoredHash>,
    locus: &Locus,
    report: &mut VerificationReport,
    progress: &mut P,
)
    requires
        parts@.len() > 0,
        streams_ok(image@.streams),
    ensures
        final(report)@ == whole_report(
            old(report)@,
            object@,
            image@,
            parts@,
            stored_views(hashes@),
            locus@,
        ),
        in_step_reading(
            old(progress).log(),
            old(report)@.checks,
            whole_reading(old(report)@, object@, image@, parts@, locus@),
            final(progress).log(),
            final(report)@.checks,
        ),
{
    let mut hasher = MultiHasher::for_algorithms(algorithms(hashes).as_slice());
    let ghost fresh = hasher;
    let read = image.read_from_set(&object.arn, parts, &mut hasher, progress, locus);
    let ghost log1 = progress.log();
    let ghost reading = whole_reading(old(report)@, object@, image@, parts@, locus@);
    proof {
        let slices = runs_slices(image@, parts@, locus@, image@.runs.len());
        slice_events_are_of_reading(slices, object@.arn, 0, image@.size);
        assert(taken_between(fresh, hasher) =~= slices);
        in_step_of_reading(old(progress).log(), old(report)@.checks, reading.events);
        match image_bytes(image@, parts@, locus@) {
            Ok(data) => assert(Seq::<u8>::empty() + data =~= data),
            Err(_) => {},
        }
    }
    match read {
        Err(f) => {
            let reason = text::cat2("the image could not be read: ", f.error.to_string().as_str());
            let cause = if f.undescribed {
                Declined::NotSupported
            } else {
                classify_read_failure(&f.error)
            };
            push_all_skipped(
                &object.arn,
                object.role,
                hashes,
                Coverage::WholeImage,
                reason.as_str(),
                cause,
                report,
                progress,
            );
        },
        Ok(counts) => {
            report.reaccount(
                ImageAccounting { image: object.arn.clone(), accounting: counts, traversed: true },
            );
            compare_hashed(
                &object.arn,
                object.role,
                hashes,
                Coverage::WholeImage,
                hasher,
                report,
                progress,
            );
        },
    }
    proof {
        in_step_after_reading(
            old(progress).log(),
            old(report)@.checks,
            reading,
            log1,
            old(report)@.checks,
            progress.log(),
            report@.checks,
        );
    }
}

/// A report after those digests of an image that need no traversal have been
/// verified: an image `alone` in one volume, or one of a set.
pub open spec fn untraversed_report<V: Volume>(
    report: ReportView,
    object: ObjectView,
    alone: Option<ImageView>,
    parts: Seq<Part<V>>,
    hashes: Seq<StoredHashView>,
) -> ReportView
    decreases hashes.len(),
{
    if hashes.len() == 0 {
        report
    } else {
        let before = untraversed_report(report, object, alone, parts, hashes.drop_last());
        let hash = hashes.last();
        if hash.algorithm == HashAlgorithm::BlockMapSha512 {
            match alone {
                None => root_report(before, object, parts, hash),
                Some(image) => before.check(
                    image_map_check(object, image, &parts[0].volume, hash),
                ),
            }
        } else if computable(hash.algorithm) {
            before
        } else {
            before.check(
                declined_check(
                    object.arn,
                    object.role,
                    hash,
                    Coverage::WholeImage,
                    uncomputable_text(hash.algorithm),
                ),
            )
        }
    }
}

/// Verify one digest of an image that needs no traversal.
pub(crate) fn verify_untraversed<V: Volume, P: ProgressObserver>(
    object: &Aff4Object,
    alone: Option<&Image>,
    parts: &Vec<Part<V>>,
    hash: &StoredHash,
    report: &mut VerificationReport,
    progress: &mut P,
)
    requires
        parts@.len() > 0,
    ensures
        final(report)@ == (if hash@.algorithm == HashAlgorithm::BlockMapSha512 {
            match alone {
                None => root_report(old(report)@, object@, parts@, hash@),
                Some(image) => old(report)@.check(
                    image_map_check(object@, image@, &parts@[0].volume, hash@),
                ),
            }
        } else if computable(hash@.algorithm) {
            old(report)@
        } else {
            old(report)@.check(
                declined_check(
                    object@.arn,
                    object@.role,
                    hash@,
                    Coverage::WholeImage,
                    uncomputable_text(hash@.algorithm),
                ),
            )
        }),
        in_step(
            old(progress).log(),
            old(report)@.checks,
            final(progress).log(),
            final(report)@.checks,
        ),
{
    proof {
        in_step_still(progress.log(), report@.checks);
    }
    if hash.algorithm == HashAlgorithm::BlockMapSha512 {
        match alone {
            None => verify_striped_block_map_hash(object, parts, hash, report, progress),
            Some(image) => verify_block_map_hash(
                object,
                image,
                &parts[0].volume,
                hash,
                report,
                progress,
            ),
        }
    } else if !is_computable(hash.algorithm) {
        push_check(
            report,
            progress,
            HashCheck::declined(
                &object.arn,
                object.role,
                hash,
                Coverage::WholeImage,
                uncomputable(hash.algorithm).as_str(),
            ),
        );
    }
}

/// Verify those digests of an image that need no traversal.
pub(crate) fn verify_without_traversal<V: Volume, P: ProgressObserver>(
    object: &Aff4Object,
    alone: Option<&Image>,
    parts: &Vec<Part<V>>,
    report: &mut VerificationReport,
    progress: &mut P,
)
    requires
        parts@.len() > 0,
    ensures
        final(report)@ == untraversed_report(
            old(report)@,
            object@,
            image_option(alone),
            parts@,
            object@.hashes,
        ),
        in_step(
            old(progress).log(),
            old(report)@.checks,
            final(progress).log(),
            final(report)@.checks,
        ),
{
    let ghost all = object@.hashes;
    let mut i: usize = 0;
    proof {
        in_step_still(progress.log(), report@.checks);
    }
    while i < object.hashes.len()
        invariant
            i <= object.hashes.len(),
            all == object@.hashes,
            parts@.len() > 0,
            report@ == untraversed_report(
                old(report)@,
                object@,
                image_option(alone),
                parts@,
                all.take(i as int),
            ),
            in_step(
                old(progress).log(),
                old(report)@.checks,
                progress.log(),
                report@.checks,
            ),
        decreases object.hashes.len() - i,
    {
        let ghost log1 = progress.log();
        let ghost checks1 = report@.checks;
        proof {
            assert(all.take(i + 1).drop_last() =~= all.take(i as int));
            assert(all.take(i + 1).last() == object.hashes@[i as int]@);
        }
        verify_untraversed(object, alone, parts, &object.hashes[i], report, progress);
        proof {
            in_step_chain(
                old(progress).log(),
                old(report)@.checks,
                log1,
                checks1,
                progress.log(),
                report@.checks,
            );
        }
        i = i + 1;
    }
    proof {
        assert(all.take(i as int) =~= all);
    }
}

/// What an image says, if there is one.
pub open spec fn image_option(image: Option<&Image>) -> Option<ImageView> {
    match image {
        Some(image) => Some(image@),
        None => None,
    }
}

/// A report after an image that was resolved has been verified as far as needs no
/// traversal.
pub open spec fn before_traversal<V: Volume>(
    report: ReportView,
    object: ObjectView,
    image: ImageView,
    parts: Seq<Part<V>>,
    in_set: bool,
) -> ReportView {
    let noted = match gap_note(image, records_whole(object.hashes)) {
        Some(note) => report.note(note),
        None => report,
    };
    let accounted = noted.account(
        ImageAccountingView {
            image: object.arn,
            accounting: ReadAccountingView { unknown_placeholder: 0, ..image.composition },
            traversed: false,
        },
    );
    let alone = if in_set {
        None
    } else {
        Some(image)
    };
    untraversed_report(accounted, object, alone, parts, object.hashes)
}

/// What is reported while an image that was resolved is read to verify it, after the
/// digests that need no traversal.
pub open spec fn resolved_reading<V: Volume>(
    report: ReportView,
    object: ObjectView,
    image: ImageView,
    parts: Seq<Part<V>>,
    locus: LocusView,
    in_set: bool,
) -> Reading {
    let without = before_traversal(report, object, image, parts, in_set);
    if whole_digests(object.hashes).len() == 0 {
        no_reading(without.checks)
    } else {
        whole_reading(without, object, image, parts, locus)
    }
}

/// A report after an image that was resolved has been verified.
pub open spec fn resolved_report<V: Volume>(
    report: ReportView,
    object: ObjectView,
    image: ImageView,
    parts: Seq<Part<V>>,
    locus: LocusView,
    in_set: bool,
) -> ReportView {
    let without = before_traversal(report, object, image, parts, in_set);
    let whole = whole_digests(object.hashes);
    if whole.len() == 0 {
        without
    } else {
        whole_report(without, object, image, parts, whole, locus)
    }
}

/// Verify an image that was resolved.
fn verify_resolved<V: Volume, P: ProgressObserver>(
    object: &Aff4Object,
    image: &Image,
    parts: &Vec<Part<V>>,
    locus: &Locus,
    in_set: bool,
    report: &mut VerificationReport,
    progress: &mut P,
)
    requires
        parts@.len() > 0,
        streams_ok(image@.streams),
    ensures
        final(report)@ == resolved_report(
            old(report)@,
            object@,
            image@,
            parts@,
            locus@,
            in_set,
        ),
        in_step_reading(
            old(progress).log(),
            old(report)@.checks,
            resolved_reading(old(report)@, object@, image@, parts@, locus@, in_set),
            final(progress).log(),
            final(report)@.checks,
        ),
{
    match gap_deviation(image, records_whole_image_digest(object)) {
        Some(note) => report.note(note),
        None => {},
    }
    let mut composition = image.composition.duplicate();
    composition.unknown_placeholder = 0;
    report.account(
        ImageAccounting {
            image: object.arn.clone(),
            accounting: composition,
            traversed: false,
        },
    );
    let alone = if in_set {
        None
    } else {
        Some(image)
    };
    verify_without_traversal(object, alone, parts, report, progress);
    let whole = select_whole(&object.hashes);
    proof {
        assert(stored_views(whole@).len() == whole@.len());
    }
    let ghost log1 = progress.log();
    let ghost checks1 = report@.checks;
    if whole.len() > 0 {
        verify_whole_image_digests(object, image, parts, &whole, locus, report, progress);
    } else {
        proof {
            in_step_still(log1, checks1);
            in_step_unread(log1, checks1, log1, checks1);
        }
    }
    proof {
        in_step_before_reading(
            old(progress).log(),
            old(report)@.checks,
            log1,
            checks1,
            resolved_reading(old(report)@, object@, image@, parts@, locus@, in_set),
            progress.log(),
            report@.checks,
        );
    }
}

/// A report after an image that could not be resolved.
pub open spec fn unresolved_report(report: ReportView, object: ObjectView, e: ErrorView) -> ReportView {
    report.all_checks(
        all_skipped(
            object.arn,
            object.role,
            object.hashes,
            Coverage::WholeImage,
            "the image's map could not be resolved: "@ + error_text(e),
            Declined::NotSupported,
        ),
    ).note("image "@ + object.arn + " could not be resolved to a map: "@ + error_text(e))
}

/// Record that an image could not be resolved.
fn report_unresolved<P: ProgressObserver>(
    object: &Aff4Object,
    e: &Error,
    report: &mut VerificationReport,
    progress: &mut P,
)
    ensures
        final(report)@ == unresolved_report(old(report)@, object@, e@),
        in_step(
            old(progress).log(),
            old(report)@.checks,
            final(progress).log(),
            final(report)@.checks,
        ),
{
    let why = e.to_string();
    push_all_skipped(
        &object.arn,
        object.role,
        &object.hashes,
        Coverage::WholeImage,
        text::cat2("the image's map could not be resolved: ", why.as_str()).as_str(),
        Declined::NotSupported,
        report,
        progress,
    );
    report.note(
        text::cat4(
            "image ",
            object.arn.as_str(),
            " could not be resolved to a map: ",
            why.as_str(),
        ),
    );
}

/// The segment that holds a logical image's bytes, if a volume has one: under its
/// escaped name or, failing that, under the name the escapes stand for.
pub open spec fn image_segment<V: Volume>(arn: Seq<char>, volume: &V) -> Option<Seq<char>> {
    match member_of(arn, volume.name(), NameMapping::Escaped) {
        None => None,
        Some(member) => if volume.lists(member) {
            Some(member)
        } else if volume.lists(lossy_text(unescaped_bytes(member))) {
            Some(lossy_text(unescaped_bytes(member)))
        } else {
            None
        },
    }
}

/// The segment that holds a logical image's bytes, if a volume has one.
pub fn find_image_segment<V: Volume>(arn: &Arn, volume: &V) -> (r: Option<String>)
    ensures
        (match r {
            Some(name) => image_segment(arn@, volume) == Some(name@),
            None => image_segment(arn@, volume) is None,
        }),
{
    let member = match arn.member_name(&volume.arn(), NameMapping::Escaped) {
        Some(member) => member,
        None => return None,
    };
    if volume.has_segment(member.as_str()) {
        return Some(member);
    }
    let plain = unescape(member.as_str());
    if volume.has_segment(plain.as_str()) {
        Some(plain)
    } else {
        None
    }
}

/// A report after a logical image stored as one segment has been verified.
pub open spec fn segment_report<V: Volume>(
    report: ReportView,
    object: ObjectView,
    volume: &V,
    name: Seq<char>,
) -> ReportView {
    match volume.outcome(name) {
        Err(e) => report.all_checks(
            all_skipped(
                object.arn,
                object.role,
                object.hashes,
                Coverage::WholeImage,
                "segment "@ + name + " could not be read: "@ + error_text(e),
                failure_cause(e.kind),
            ),
        ),
        Ok(data) => report.account(
            ImageAccountingView {
                image: object.arn,
                accounting: ReadAccountingView {
                    stored: data.len() as u64,
                    described: 0,
                    unknown_placeholder: 0,
                    gap_filled: 0,
                    gap_fill: None,
                },
                traversed: true,
            },
        ).all_checks(
            all_digest_checks(
                object.arn,
                object.role,
                object.hashes,
                Coverage::WholeImage,
                data,
            ),
        ),
    }
}

/// Verify a logical image whose bytes are one segment. Returns whether there is
/// such a segment.
pub fn verify_zip_segment_image<V: Volume, P: ProgressObserver>(
    object: &Aff4Object,
    volume: &V,
    report: &mut VerificationReport,
    progress: &mut P,
) -> (found: bool)
    ensures
        found == (image_segment(object@.arn, volume) is Some),
        final(report)@ == (match image_segment(object@.arn, volume) {
            Some(name) => segment_report(old(report)@, object@, volume, name),
            None => old(report)@,
        }),
        in_step(
            old(progress).log(),
            old(report)@.checks,
            final(progress).log(),
            final(report)@.checks,
        ),
{
    proof {
        in_step_still(progress.log(), report@.checks);
    }
    let name = match find_image_segment(&object.arn, volume) {
        Some(name) => name,
        None => return false,
    };
    match volume.read_segment(name.as_str()) {
        Err(e) => {
            let reason = text::cat4(
                "segment ",
                name.as_str(),
                " could not be read: ",
                e.to_string().as_str(),
            );
            push_all_skipped(
                &object.arn,
                object.role,
                &object.hashes,
                Coverage::WholeImage,
                reason.as_str(),
                classify_read_failure(&e),
                report,
                progress,
            );
        },
        Ok(data) => {
            report.account(
                ImageAccounting {
                    image: object.arn.clone(),
                    accounting: ReadAccounting {
                        stored: data.len() as u64,
                        described: 0,
                        unknown_placeholder: 0,
                        gap_filled: 0,
                        gap_fill: None,
                    },
                    traversed: true,
                },
            );
            push_all_digest_checks(
                &object.arn,
                object.role,
                &object.hashes,
                Coverage::WholeImage,
                data.as_slice(),
                report,
                progress,
            );
        },
    }
    true
}

/// A report after an image of a container of one volume has been verified.
pub open spec fn image_report<V: Volume>(
    report: ReportView,
    object: ObjectView,
    images: Seq<ImageEntry>,
    parts: Seq<Part<V>>,
    lexicon: Lexicon,
    locus: LocusView,
    options: VerifyOptions,
) -> ReportView {
    let volume = &parts[0].volume;
    let segment = image_segment(object.arn, volume);
    if stored_as_segment(object.types) && segment is Some {
        segment_report(report, object, volume, segment->Some_0)
    } else if declares(object.types, "ImageStream"@) {
        stream_outcome(
            report,
            None,
            object,
            volume,
            parts[0].graph@,
            lexicon,
            locus,
            options,
        ).0
    } else if object.role == ObjectRole::FolderImage {
        report
    } else if segment is Some {
        segment_report(report, object, volume, segment->Some_0)
    } else {
        match image_of(images, object.arn, locus) {
            Err(e) => unresolved_report(report, object, e),
            Ok(image) => resolved_report(report, object, image, parts, locus, false),
        }
    }
}

/// What is reported while an image of a container of one volume is read to verify it.
pub open spec fn image_reading<V: Volume>(
    report: ReportView,
    object: ObjectView,
    images: Seq<ImageEntry>,
    parts: Seq<Part<V>>,
    lexicon: Lexicon,
    locus: LocusView,
    options: VerifyOptions,
) -> Reading {
    let volume = &parts[0].volume;
    let segment = image_segment(object.arn, volume);
    if stored_as_segment(object.types) && segment is Some {
        no_reading(report.checks)
    } else if declares(object.types, "ImageStream"@) {
        stream_reading(
            report,
            None,
            object,
            volume,
            parts[0].graph@,
            lexicon,
            locus,
            options,
        )
    } else if object.role == ObjectRole::FolderImage || segment is Some {
        no_reading(report.checks)
    } else {
        mapped_reading(report, object, images, parts, locus, false)
    }
}

/// What is reported while an image that is resolved through its map is read to verify
/// it.
pub open spec fn mapped_reading<V: Volume>(
    report: ReportView,
    object: ObjectView,
    images: Seq<ImageEntry>,
    parts: Seq<Part<V>>,
    locus: LocusView,
    in_set: bool,
) -> Reading {
    match image_of(images, object.arn, locus) {
        Err(_) => no_reading(report.checks),
        Ok(image) => resolved_reading(report, object, image, parts, locus, in_set),
    }
}

/// Verify an image of a container of one volume.
///
/// A logical image may be one segment, declared as such or not, or its own
/// stream. A folder holds no bytes. Any other image is resolved through its map.
pub fn verify_image<V: Volume, P: ProgressObserver>(
    object: &Aff4Object,
    images: &Vec<ImageEntry>,
    parts: &Vec<Part<V>>,
    lexicon: &Lexicon,
    locus: &Locus,
    options: VerifyOptions,
    report: &mut VerificationReport,
    progress: &mut P,
)
    requires
        parts@.len() > 0,
        images_ok(images@),
    ensures
        final(report)@ == image_report(
            old(report)@,
            object@,
            images@,
            parts@,
            *lexicon,
            locus@,
            options,
        ),
        in_step_reading(
            old(progress).log(),
            old(report)@.checks,
            image_reading(
                old(report)@,
                object@,
                images@,
                parts@,
                *lexicon,
                locus@,
                options,
            ),
            final(progress).log(),
            final(report)@.checks,
        ),
{
    let ghost log0 = progress.log();
    let ghost checks0 = report@.checks;
    proof {
        in_step_still(log0, checks0);
        in_step_unread(log0, checks0, log0, checks0);
    }
    if is_zip_segment(object) {
        let found = verify_zip_segment_image(object, &parts[0].volume, report, progress);
        if found {
            proof {
                in_step_unread(log0, checks0, progress.log(), report@.checks);
            }
            return;
        }
        proof {
            assert(progress.log() =~= log0);
        }
    }
    if declares_type(object, "ImageStream") {
        let mut none = None;
        verify_stream(
            object,
            &parts[0].volume,
            &parts[0].graph,
            lexicon,
            locus,
            options,
            &mut none,
            report,
            progress,
        );
        return;
    }
    if object.role == ObjectRole::FolderImage {
        return;
    }
    let found = verify_zip_segment_image(object, &parts[0].volume, report, progress);
    if found {
        proof {
            in_step_unread(log0, checks0, progress.log(), report@.checks);
        }
        return;
    }
    proof {
        assert(progress.log() =~= log0);
    }
    match find_image(images, &object.arn, locus) {
        Err(e) => {
            report_unresolved(object, &e, report, progress);
            proof {
                in_step_unread(log0, checks0, progress.log(), report@.checks);
            }
        },
        Ok(image) => verify_resolved(object, image, parts, locus, false, report, progress),
    }
}

/// A report after an image of a set has been verified.
pub open spec fn set_image_report<V: Volume>(
    report: ReportView,
    object: ObjectView,
    images: Seq<ImageEntry>,
    parts: Seq<Part<V>>,
    locus: LocusView,
) -> ReportView {
    match image_of(images, object.arn, locus) {
        Err(e) => unresolved_report(report, object, e),
        Ok(image) => resolved_report(report, object, image, parts, locus, true),
    }
}

/// Verify an image whose streams are spread over a set of volumes.
pub fn verify_image_in_set<V: Volume, P: ProgressObserver>(
    object: &Aff4Object,
    images: &Vec<ImageEntry>,
    parts: &Vec<Part<V>>,
    locus: &Locus,
    report: &mut VerificationReport,
    progress: &mut P,
)
    requires
        parts@.len() > 0,
        images_ok(images@),
    ensures
        final(report)@ == set_image_report(old(report)@, object@, images@, parts@, locus@),
        in_step_reading(
            old(progress).log(),
            old(report)@.checks,
            mapped_reading(old(report)@, object@, images@, parts@, locus@, true),
            final(progress).log(),
            final(report)@.checks,
        ),
{
    match find_image(images, &object.arn, locus) {
        Err(e) => {
            report_unresolved(object, &e, report, progress);
            proof {
                in_step_unread(
                    old(progress).log(),
                    old(report)@.checks,
                    progress.log(),
                    report@.checks,
                );
            }
        },
        Ok(image) => verify_resolved(object, image, parts, locus, true, report, progress),
    }
}

} // verus!
