//! What verifying says of indexes, of what cannot be read, and of images whose digests
//! come out of the passes over their streams.

use vstd::prelude::*;

use crate::arn::{member_of, NameMapping};
use crate::bytes;
use crate::error::{ErrorKind, ErrorView, LocusView};
use crate::lexicon::Lexicon;
use crate::model::StoredHashView;
use crate::rdf::TripleView;
use crate::stream::{bevies_of, stream_content, stream_declared, StreamView};
use crate::text;
use crate::verify::container::{
    counted, described_bytes, image_content, image_of, streams_ok, undescribed, ImageEntry,
    ImageView, ObjectView, Part, RunView,
};
use crate::verify::images::{segment_report, set_image_report, whole_report};
use crate::verify::maps::{map_checks, IDX_SEGMENT, MAP_SEGMENT};
use crate::verify::report::{
    CheckView, Coverage, Declined, ImageAccountingView, OutcomeView, ReadAccountingView, ReportView,
};
use crate::verify::sound::{answers, checks_decide, is_answered, is_plain, records};
use crate::verify::streams::{
    in_phase, index_check, index_checks, index_joined, passes_deliver_the_image, recorded_under,
    stream_outcome, FusedView, VerifyOptions,
};
use crate::volume::Volume;

verus! {

/// Whether a check is about a recorded value and concludes nothing of it.
pub open spec fn leaves_open(
    c: CheckView,
    subject: Seq<char>,
    hash: StoredHashView,
    cause: Declined,
) -> bool {
    &&& c.subject == subject
    &&& c.predicate == hash.predicate
    &&& c.algorithm == hash.algorithm
    &&& c.expected == hash.hex
    &&& c.outcome matches OutcomeView::NotVerifiable { reason: _, cause: found } && found == cause
}

/// Whether a report, since another, has gained a check that is about a recorded value and
/// concludes nothing of it.
pub open spec fn is_left_open(
    before: ReportView,
    after: ReportView,
    subject: Seq<char>,
    hash: StoredHashView,
    cause: Declined,
) -> bool {
    exists|k: int|
        before.checks.len() <= k < after.checks.len() && leaves_open(
            #[trigger] after.checks[k],
            subject,
            hash,
            cause,
        )
}

/// Whether a volume holds the indexes of a stream's first bevies.
pub open spec fn holds_indexes<V: Volume>(
    volume: &V,
    base: Seq<char>,
    parts: Seq<Seq<u8>>,
) -> bool {
    forall|i: int|
        0 <= i < parts.len() ==> ({
            let name = base + "/"@ + text::zero_padded(text::decimal(i as nat), 8) + ".index"@;
            &&& volume.lists(name)
            &&& volume.outcome(name) == Ok::<Seq<u8>, ErrorView>(#[trigger] parts[i])
        })
}

/// Indexes are joined in the order of their bevies.
proof fn indexes_are_joined<V: Volume>(
    volume: &V,
    base: Seq<char>,
    parts: Seq<Seq<u8>>,
    n: nat,
)
    requires
        holds_indexes(volume, base, parts),
        n <= parts.len(),
    ensures
        index_joined(volume, base, n) == Ok::<Seq<u8>, (Seq<char>, ErrorView)>(
            bytes::flattened(parts.take(n as int)),
        ),
    decreases n,
{
    if n > 0 {
        indexes_are_joined(volume, base, parts, (n - 1) as nat);
        let part = parts[n - 1];
        assert(parts.take(n as int).drop_last() =~= parts.take(n - 1));
        assert(parts.take(n as int).last() == part);
    } else {
        assert(parts.take(0) =~= Seq::empty());
    }
}

/// A check of one of a stream's other digests is among those of all of them.
proof fn index_check_is_made<V: Volume>(
    object: ObjectView,
    hashes: Seq<StoredHashView>,
    s: StreamView,
    volume: &V,
    i: int,
)
    requires
        0 <= i < hashes.len(),
        index_check(object, hashes[i], s, volume) is Some,
    ensures
        exists|k: int|
            0 <= k < index_checks(object, hashes, s, volume).len() && #[trigger] index_checks(
                object,
                hashes,
                s,
                volume,
            )[k] == index_check(object, hashes[i], s, volume)->Some_0,
    decreases hashes.len(),
{
    let all = index_checks(object, hashes, s, volume);
    let shorter = index_checks(object, hashes.drop_last(), s, volume);
    if i == hashes.len() - 1 {
        assert(all[all.len() - 1] == index_check(object, hashes[i], s, volume)->Some_0);
    } else {
        index_check_is_made(object, hashes.drop_last(), s, volume, i);
        let k = choose|k: int|
            0 <= k < shorter.len() && #[trigger] shorter[k] == index_check(
                object,
                hashes[i],
                s,
                volume,
            )->Some_0;
        assert(all[k] == shorter[k]);
    }
}

/// The checks of a stream's other digests come first.
proof fn index_checks_come_first<V: Volume>(
    report: ReportView,
    fused: Option<FusedView>,
    object: ObjectView,
    volume: &V,
    graph: Seq<TripleView>,
    lexicon: Lexicon,
    locus: LocusView,
    options: VerifyOptions,
    s: StreamView,
)
    requires
        stream_declared(object.arn, graph, lexicon, locus) == Ok::<StreamView, ErrorView>(s),
    ensures
        (report.checks + index_checks(object, object.hashes, s, volume)).is_prefix_of(
            stream_outcome(
                report,
                fused,
                object,
                volume,
                graph,
                lexicon,
                locus,
                options,
            ).0.checks,
        ),
{
}

/// A digest over a stream's indexes is answered for: where the value is the digest of the
/// indexes of all its bevies, one after the other in their order, the check matches, where
/// it is another it does not.
pub proof fn index_digests_are_answered<V: Volume>(
    report: ReportView,
    fused: Option<FusedView>,
    object: ObjectView,
    volume: &V,
    graph: Seq<TripleView>,
    lexicon: Lexicon,
    locus: LocusView,
    options: VerifyOptions,
    s: StreamView,
    base: Seq<char>,
    parts: Seq<Seq<u8>>,
    i: int,
)
    requires
        stream_declared(object.arn, graph, lexicon, locus) == Ok::<StreamView, ErrorView>(s),
        member_of(s.arn, volume.name(), NameMapping::Escaped) == Some(base),
        parts.len() == bevies_of(s),
        holds_indexes(volume, base, parts),
        0 <= i < object.hashes.len(),
        object.hashes[i].predicate == "imageStreamIndexHash"@,
        is_plain(object.hashes[i]),
    ensures
        is_answered(
            report,
            stream_outcome(
                report,
                fused,
                object,
                volume,
                graph,
                lexicon,
                locus,
                options,
            ).0,
            object.arn,
            object.hashes[i],
            records(object.hashes[i], bytes::flattened(parts)),
        ),
{
    let hash = object.hashes[i];
    let data = bytes::flattened(parts);
    let after = stream_outcome(
        report,
        fused,
        object,
        volume,
        graph,
        lexicon,
        locus,
        options,
    ).0;
    reveal_strlit("imageStreamIndexHash");
    reveal_strlit("hash");
    assert("imageStreamIndexHash"@.len() != "hash"@.len());
    indexes_are_joined(volume, base, parts, parts.len());
    assert(parts.take(parts.len() as int) =~= parts);
    index_check_is_made(object, object.hashes, s, volume, i);
    index_checks_come_first(
        report,
        fused,
        object,
        volume,
        graph,
        lexicon,
        locus,
        options,
        s,
    );
    checks_decide(object.arn, object.role, hash, Coverage::Segment, data);
    let added = index_checks(object, object.hashes, s, volume);
    let k = choose|k: int|
        0 <= k < added.len() && #[trigger] added[k] == index_check(
            object,
            hash,
            s,
            volume,
        )->Some_0;
    let at = report.checks.len() + k;
    assert((report.checks + added)[at] == added[k]);
    assert(after.checks[at] == added[k]);
    assert(answers(after.checks[at], object.arn, hash, records(hash, data)));
}

/// A recorded value under a property is among those under it.
proof fn recorded_is_among(hashes: Seq<StoredHashView>, i: int)
    requires
        0 <= i < hashes.len(),
        hashes[i].predicate == "hash"@,
    ensures
        exists|k: int|
            0 <= k < recorded_under(hashes, "hash"@).len() && #[trigger] recorded_under(
                hashes,
                "hash"@,
            )[k] == hashes[i],
    decreases hashes.len(),
{
    let all = recorded_under(hashes, "hash"@);
    let shorter = recorded_under(hashes.drop_last(), "hash"@);
    if i == hashes.len() - 1 {
        assert(all[all.len() - 1] == hashes[i]);
    } else {
        recorded_is_among(hashes.drop_last(), i);
        let k = choose|k: int| 0 <= k < shorter.len() && #[trigger] shorter[k] == hashes[i];
        assert(all[k] == hashes[i]);
    }
}

/// Of a stream that cannot be read nothing is concluded: each digest of its bytes is left
/// open. That says something about the evidence, unless the stream is stored elsewhere or
/// in a way that is not supported.
pub proof fn unreadable_streams_are_left_open<V: Volume>(
    report: ReportView,
    object: ObjectView,
    volume: &V,
    graph: Seq<TripleView>,
    lexicon: Lexicon,
    locus: LocusView,
    options: VerifyOptions,
    s: StreamView,
    e: ErrorView,
    i: int,
)
    requires
        stream_declared(object.arn, graph, lexicon, locus) == Ok::<StreamView, ErrorView>(s),
        stream_content(s, volume, locus) == Err::<Seq<u8>, ErrorView>(e),
        0 <= i < object.hashes.len(),
        object.hashes[i].predicate == "hash"@,
    ensures
        is_left_open(
            report,
            stream_outcome(
                report,
                None,
                object,
                volume,
                graph,
                lexicon,
                locus,
                options,
            ).0,
            object.arn,
            object.hashes[i],
            if member_of(object.arn, volume.name(), NameMapping::Escaped) is None || e.kind
                == ErrorKind::Unsupported {
                Declined::NotSupported
            } else {
                Declined::Unreadable
            },
        ),
{
    let after = stream_outcome(
        report,
        None,
        object,
        volume,
        graph,
        lexicon,
        locus,
        options,
    ).0;
    let recorded = recorded_under(object.hashes, "hash"@);
    recorded_is_among(object.hashes, i);
    let k = choose|k: int| 0 <= k < recorded.len() && #[trigger] recorded[k] == object.hashes[i];
    let at = report.checks.len() + index_checks(object, object.hashes, s, volume).len() + k;
    let cause = if member_of(object.arn, volume.name(), NameMapping::Escaped) is None || e.kind
        == ErrorKind::Unsupported {
        Declined::NotSupported
    } else {
        Declined::Unreadable
    };
    assert(leaves_open(after.checks[at], object.arn, object.hashes[i], cause));
}

/// Of a stream that is not described well enough to be read nothing is concluded, and that
/// says nothing about the evidence.
pub proof fn undeclared_streams_are_left_open<V: Volume>(
    report: ReportView,
    fused: Option<FusedView>,
    object: ObjectView,
    volume: &V,
    graph: Seq<TripleView>,
    lexicon: Lexicon,
    locus: LocusView,
    options: VerifyOptions,
    i: int,
)
    requires
        stream_declared(object.arn, graph, lexicon, locus) is Err,
        0 <= i < object.hashes.len(),
    ensures
        is_left_open(
            report,
            stream_outcome(
                report,
                fused,
                object,
                volume,
                graph,
                lexicon,
                locus,
                options,
            ).0,
            object.arn,
            object.hashes[i],
            Declined::NotSupported,
        ),
{
    let after = stream_outcome(
        report,
        fused,
        object,
        volume,
        graph,
        lexicon,
        locus,
        options,
    ).0;
    let at = report.checks.len() + i;
    assert(leaves_open(
        after.checks[at],
        object.arn,
        object.hashes[i],
        Declined::NotSupported,
    ));
}

/// Of a file whose member cannot be read nothing is concluded, and nothing is accounted
/// for.
pub proof fn unreadable_members_are_left_open<V: Volume>(
    report: ReportView,
    object: ObjectView,
    volume: &V,
    name: Seq<char>,
    e: ErrorView,
    i: int,
)
    requires
        volume.outcome(name) == Err::<Seq<u8>, ErrorView>(e),
        0 <= i < object.hashes.len(),
    ensures
        ({
            let after = segment_report(report, object, volume, name);
            &&& is_left_open(
                report,
                after,
                object.arn,
                object.hashes[i],
                if e.kind == ErrorKind::Unsupported {
                    Declined::NotSupported
                } else {
                    Declined::Unreadable
                },
            )
            &&& after.read_accounting == report.read_accounting
        }),
{
    let after = segment_report(report, object, volume, name);
    let at = report.checks.len() + i;
    let cause = if e.kind == ErrorKind::Unsupported {
        Declined::NotSupported
    } else {
        Declined::Unreadable
    };
    assert(leaves_open(after.checks[at], object.arn, object.hashes[i], cause));
}

/// Each digest of an image that comes out of the passes over its streams is answered for:
/// where the value is the digest of the image's bytes, the same that reading the image
/// gives, the check matches, where it is another it does not. Where the passes fell short
/// nothing is concluded.
pub proof fn passes_are_answered<V: Volume>(
    report: ReportView,
    f: FusedView,
    image: ImageView,
    parts: Seq<Part<V>>,
    locus: LocusView,
    i: int,
)
    requires
        streams_ok(image.streams),
        in_phase(f, image, parts, locus),
        0 <= i < f.hashes.len(),
        is_plain(f.hashes[i]),
    ensures
        ({
            let after = f.finished(report, locus);
            &&& report.checks.is_prefix_of(after.checks)
            &&& f.emitted(locus).shortfall() is Some ==> after.checks == report.checks
                && after.notes.len() == report.notes.len() + 1
            &&& f.emitted(locus).shortfall() is None ==> (image_content(
                image,
                parts,
                locus,
            ) matches Ok((data, counts)) && is_answered(
                report,
                after,
                f.arn,
                f.hashes[i],
                records(f.hashes[i], data),
            ) && after.read_accounting.last() == (ImageAccountingView {
                image: f.arn,
                accounting: counts,
                traversed: true,
            }))
        }),
{
    let e = f.emitted(locus);
    let after = f.finished(report, locus);
    emitting_keeps(f, locus);
    passes_deliver_the_image(
        f,
        ObjectView { arn: f.arn, role: f.role, size: None, types: Seq::empty(), hashes: f.hashes },
        image,
        f.hashes,
        parts,
        locus,
        Seq::empty(),
        Seq::empty(),
    );
    if e.shortfall() is None {
        passes_deliver_the_image(
            e,
            ObjectView { arn: f.arn, role: f.role, size: None, types: Seq::empty(), hashes: f.hashes },
            image,
            f.hashes,
            parts,
            locus,
            Seq::empty(),
            Seq::empty(),
        );
        let data = e.content;
        let k = report.checks.len() + i;
        checks_decide(e.arn, e.role, e.hashes[i], Coverage::WholeImage, data);
        assert(answers(after.checks[k], f.arn, f.hashes[i], records(f.hashes[i], data)));
    }
}

/// Delivering described runs keeps what is to be compared.
proof fn emitting_keeps(f: FusedView, locus: LocusView)
    ensures
        f.emitted(locus).arn == f.arn,
        f.emitted(locus).hashes == f.hashes,
        f.emitted(locus).role == f.role,
        f.emitted(locus).size == f.size,
    decreases f.runs.len() - f.position,
{
    if f.position < f.runs.len() {
        match f.runs[f.position as int] {
            RunView::Stored { stream: _, target_offset: _, length: _ } => {},
            RunView::Described { kind: _, pattern, offset, length } => {
                if pattern.len() > 0 {
                    let next = FusedView {
                        content: f.content + described_bytes(
                            pattern,
                            offset as nat,
                            length as nat,
                        ),
                        accounting: counted(
                            f.accounting,
                            f.runs[f.position as int],
                        ),
                        position: f.position + 1,
                        ..f
                    };
                    emitting_keeps(next, locus);
                }
            },
        }
    }
}

/// Of a map that is stored elsewhere, or one of whose segments cannot be read, nothing is
/// concluded: each of its digests is left open.
pub proof fn unreadable_maps_are_left_open<V: Volume>(
    report: ReportView,
    object: ObjectView,
    volume: &V,
    base: Seq<char>,
    e: ErrorView,
    i: int,
)
    requires
        0 <= i < object.hashes.len(),
    ensures
        member_of(object.arn, volume.name(), NameMapping::Escaped) is None ==> is_left_open(
            report,
            report.all_checks(map_checks(object, volume)),
            object.arn,
            object.hashes[i],
            Declined::NotSupported,
        ),
        member_of(object.arn, volume.name(), NameMapping::Escaped) == Some(base) && (
        volume.outcome(base + "/map"@) == Err::<Seq<u8>, ErrorView>(e) || (volume.outcome(
            base + "/map"@,
        ) is Ok && volume.outcome(base + "/idx"@) == Err::<Seq<u8>, ErrorView>(e)))
            ==> is_left_open(
            report,
            report.all_checks(map_checks(object, volume)),
            object.arn,
            object.hashes[i],
            if e.kind == ErrorKind::Unsupported {
                Declined::NotSupported
            } else {
                Declined::Unreadable
            },
        ),
{
    let after = report.all_checks(map_checks(object, volume));
    let at = report.checks.len() + i;
    reveal_strlit("/");
    reveal_strlit("map");
    reveal_strlit("idx");
    reveal_strlit("/map");
    reveal_strlit("/idx");
    assert(base + "/map"@ =~= base + "/"@ + MAP_SEGMENT@);
    assert(base + "/idx"@ =~= base + "/"@ + IDX_SEGMENT@);
    let cause = if e.kind == ErrorKind::Unsupported {
        Declined::NotSupported
    } else {
        Declined::Unreadable
    };
    if member_of(object.arn, volume.name(), NameMapping::Escaped) is None {
        assert(leaves_open(
            after.checks[at],
            object.arn,
            object.hashes[i],
            Declined::NotSupported,
        ));
    } else if member_of(object.arn, volume.name(), NameMapping::Escaped) == Some(base) && (
    volume.outcome(base + "/map"@) == Err::<Seq<u8>, ErrorView>(e) || (volume.outcome(
        base + "/map"@,
    ) is Ok && volume.outcome(base + "/idx"@) == Err::<Seq<u8>, ErrorView>(e))) {
        assert(leaves_open(after.checks[at], object.arn, object.hashes[i], cause));
    }
}

/// Of an image whose map cannot be resolved nothing is concluded, that says nothing about
/// the evidence, and it is noted.
pub proof fn unresolved_images_are_left_open<V: Volume>(
    report: ReportView,
    object: ObjectView,
    images: Seq<ImageEntry>,
    parts: Seq<Part<V>>,
    locus: LocusView,
    i: int,
)
    requires
        image_of(images, object.arn, locus) is Err,
        0 <= i < object.hashes.len(),
    ensures
        ({
            let after = set_image_report(report, object, images, parts, locus);
            &&& is_left_open(
                report,
                after,
                object.arn,
                object.hashes[i],
                Declined::NotSupported,
            )
            &&& after.notes.len() == report.notes.len() + 1
            &&& after.read_accounting == report.read_accounting
        }),
{
    let after = set_image_report(report, object, images, parts, locus);
    let at = report.checks.len() + i;
    assert(leaves_open(
        after.checks[at],
        object.arn,
        object.hashes[i],
        Declined::NotSupported,
    ));
}

/// Of an image whose bytes cannot be read nothing is concluded: each digest of them is left
/// open, and no bytes are said to have been traversed.
pub proof fn unreadable_images_are_left_open<V: Volume>(
    report: ReportView,
    object: ObjectView,
    image: ImageView,
    parts: Seq<Part<V>>,
    hashes: Seq<StoredHashView>,
    locus: LocusView,
    e: ErrorView,
    i: int,
)
    requires
        image_content(image, parts, locus) == Err::<(Seq<u8>, ReadAccountingView), ErrorView>(e),
        0 <= i < hashes.len(),
    ensures
        ({
            let after = whole_report(report, object, image, parts, hashes, locus);
            &&& is_left_open(
                report,
                after,
                object.arn,
                hashes[i],
                if undescribed(image, parts, locus) || e.kind == ErrorKind::Unsupported {
                    Declined::NotSupported
                } else {
                    Declined::Unreadable
                },
            )
            &&& after.read_accounting == report.read_accounting
        }),
{
    let after = whole_report(report, object, image, parts, hashes, locus);
    let at = report.checks.len() + i;
    let cause = if undescribed(image, parts, locus) || e.kind == ErrorKind::Unsupported {
        Declined::NotSupported
    } else {
        Declined::Unreadable
    };
    assert(leaves_open(after.checks[at], object.arn, hashes[i], cause));
}

} // verus!
