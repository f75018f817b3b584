//! What verifying images and whole containers attests: each recorded digest of each
//! object is answered for.

use vstd::prelude::*;

use crate::arn::{member_of, names_resource, NameMapping};
use crate::bytes;
use crate::error::{ErrorView, LocusView};
use crate::hash::same_but_for_case;
use crate::lexicon::Lexicon;
use crate::model::{role_is_image, HashAlgorithm, ObjectRole, StoredHashView};
use crate::stream::{stream_content, stream_declared, StreamView};
use crate::text;
use crate::verify::blocks::block_segments;
use crate::verify::composed::{
    are_stripes, attests, file_names, holds_map, map_digests_are_answered, map_input, map_names,
    root_over, roots_are_answered, stream_names,
};
use crate::verify::container::{
    block_object_split, declarer_of, declaring_from, declares, holding_from, home_of, image_content,
    image_of, local_name, stored_as_segment, Container, ImageEntry, ImageView, ObjectView, Part,
};
use crate::verify::images::{
    before_traversal, held_among, image_map_check, image_report, image_segment, resolved_report,
    segment_report, untraversed_report, whole_digests,
};
use crate::verify::maps::{
    all_digest_checks, block_object_report, local_streams, map_check, map_checks, map_segments,
};
use crate::verify::report::{
    Coverage, ImageAccountingView, OutcomeView, ReadAccountingView, ReportView,
};
use crate::verify::run::{after_turns, container_report, object_outcome, prepared, turn_outcome};
use crate::verify::sound::{
    answers, checks_decide, hold_joined, is_answered, is_plain, records, segments_are_joined,
    stream_digests_are_answered, streams_only_add,
};
use crate::verify::streams::{FusedView, VerifyOptions};
use crate::verify::stripes::root_report;
use crate::volume::Volume;

verus! {

/// A check that a report has is one that a longer report has.
pub proof fn answers_stay(
    before: ReportView,
    between: ReportView,
    after: ReportView,
    subject: Seq<char>,
    hash: StoredHashView,
    right: bool,
)
    requires
        is_answered(before, between, subject, hash, right),
        between.checks.is_prefix_of(after.checks),
    ensures
        is_answered(before, after, subject, hash, right),
{
    let k = choose|k: int|
        before.checks.len() <= k < between.checks.len() && answers(
            #[trigger] between.checks[k],
            subject,
            hash,
            right,
        );
    assert(after.checks[k] == between.checks[k]);
    assert(answers(after.checks[k], subject, hash, right));
}

/// A check that was added to a longer report was added to a shorter one.
pub proof fn answers_were_added(
    before: ReportView,
    between: ReportView,
    after: ReportView,
    subject: Seq<char>,
    hash: StoredHashView,
    right: bool,
)
    requires
        is_answered(between, after, subject, hash, right),
        before.checks.len() <= between.checks.len(),
    ensures
        is_answered(before, after, subject, hash, right),
{
    let k = choose|k: int|
        between.checks.len() <= k < after.checks.len() && answers(
            #[trigger] after.checks[k],
            subject,
            hash,
            right,
        );
    assert(answers(after.checks[k], subject, hash, right));
}

/// A recorded value that is checked against bytes with others is answered for.
proof fn checked_is_answered(
    before: ReportView,
    after: ReportView,
    subject: Seq<char>,
    role: ObjectRole,
    hashes: Seq<StoredHashView>,
    coverage: Coverage,
    data: Seq<u8>,
    i: int,
)
    requires
        0 <= i < hashes.len(),
        is_plain(hashes[i]),
        after.checks == before.checks + all_digest_checks(subject, role, hashes, coverage, data),
    ensures
        is_answered(before, after, subject, hashes[i], records(hashes[i], data)),
{
    let k = before.checks.len() + i;
    checks_decide(subject, role, hashes[i], coverage, data);
    assert(answers(after.checks[k], subject, hashes[i], records(hashes[i], data)));
}

/// Whether an object declares by name that its bytes are one member of the volume.
pub open spec fn says_segment(types: Seq<Seq<char>>) -> bool {
    types.contains("http://aff4.org/Schema#ZipSegment"@) || types.contains(
        "http://aff4.org/Schema#zip_segment"@,
    )
}

/// A type of the standard's namespace is told by its name.
proof fn types_are_named(types: Seq<Seq<char>>)
    ensures
        says_segment(types) ==> stored_as_segment(types),
        types.contains("http://aff4.org/Schema#ImageStream"@) ==> declares(
            types,
            "ImageStream"@,
        ),
{
    let a = "http://aff4.org/Schema#ZipSegment"@;
    let b = "http://aff4.org/Schema#zip_segment"@;
    let c = "http://aff4.org/Schema#ImageStream"@;
    reveal_strlit("http://aff4.org/Schema#ZipSegment");
    reveal_strlit("http://aff4.org/Schema#zip_segment");
    reveal_strlit("http://aff4.org/Schema#ImageStream");
    reveal_strlit("ZipSegment");
    reveal_strlit("zip_segment");
    reveal_strlit("ImageStream");
    assert(a.skip(23) =~= "ZipSegment"@);
    assert(b.skip(23) =~= "zip_segment"@);
    assert(c.skip(23) =~= "ImageStream"@);
    name_follows(a, 23);
    name_follows(b, 23);
    name_follows(c, 23);
    if types.contains(a) {
        let i = choose|i: int| 0 <= i < types.len() && types[i] == a;
        assert(local_name(types[i]) == "ZipSegment"@);
    }
    if types.contains(b) {
        let i = choose|i: int| 0 <= i < types.len() && types[i] == b;
        assert(local_name(types[i]) == "zip_segment"@);
    }
    if types.contains(c) {
        let i = choose|i: int| 0 <= i < types.len() && types[i] == c;
        assert(local_name(types[i]) == "ImageStream"@);
    }
}

/// A name is what follows the last separator.
pub proof fn name_follows(iri: Seq<char>, at: int)
    requires
        0 < at <= iri.len(),
        iri[at - 1] == '#' || iri[at - 1] == '/',
        forall|i: int| at <= i < iri.len() ==> #[trigger] iri[i] != '#' && iri[i] != '/',
    ensures
        local_name(iri) == iri.skip(at),
    decreases iri.len() - at,
{
    if at == iri.len() {
        assert(iri.skip(at) =~= Seq::<char>::empty());
        assert(iri.last() == iri[at - 1]);
    } else {
        assert(iri.last() == iri[iri.len() - 1]);
        name_follows(iri.drop_last(), at);
        assert(iri.skip(at) =~= iri.drop_last().skip(at).push(iri.last()));
    }
}

/// Every digest that a logical file records is answered for where the file is a member of
/// its own: where the value is the digest of the member's bytes the check matches, where
/// it is another it does not. The account says how many bytes were read.
pub proof fn segment_files_are_answered<V: Volume>(
    report: ReportView,
    object: ObjectView,
    images: Seq<ImageEntry>,
    parts: Seq<Part<V>>,
    lexicon: Lexicon,
    locus: LocusView,
    options: VerifyOptions,
    member: Seq<char>,
    data: Seq<u8>,
)
    requires
        says_segment(object.types) || (!declares(object.types, "ImageStream"@) && object.role
            != ObjectRole::FolderImage),
        member_of(object.arn, parts[0].volume.name(), NameMapping::Escaped) == Some(member),
        parts[0].volume.lists(member),
        parts[0].volume.outcome(member) == Ok::<Seq<u8>, ErrorView>(data),
    ensures
        ({
            let after = image_report(report, object, images, parts, lexicon, locus, options);
            &&& after.checks.len() == report.checks.len() + object.hashes.len()
            &&& report.checks.is_prefix_of(after.checks)
            &&& forall|i: int|
                0 <= i < object.hashes.len() && is_plain(#[trigger] object.hashes[i])
                    ==> is_answered(
                    report,
                    after,
                    object.arn,
                    object.hashes[i],
                    records(object.hashes[i], data),
                )
            &&& after.read_accounting == report.read_accounting.push(
                ImageAccountingView {
                    image: object.arn,
                    accounting: ReadAccountingView {
                        stored: data.len() as u64,
                        described: 0,
                        unknown_placeholder: 0,
                        gap_filled: 0,
                        gap_fill: None,
                    },
                    traversed: true,
                },
            )
            &&& after.notes == report.notes
        }),
{
    types_are_named(object.types);
    let after = image_report(report, object, images, parts, lexicon, locus, options);
    assert(after == segment_report(report, object, &parts[0].volume, member));
    assert forall|i: int|
        0 <= i < object.hashes.len() && is_plain(#[trigger] object.hashes[i]) implies is_answered(
        report,
        after,
        object.arn,
        object.hashes[i],
        records(object.hashes[i], data),
    ) by {
        checked_is_answered(
            report,
            after,
            object.arn,
            object.role,
            object.hashes,
            Coverage::WholeImage,
            data,
            i,
        );
    }
}

/// A recorded value that covers an image's bytes is among those that do.
proof fn whole_is_selected(hashes: Seq<StoredHashView>, i: int)
    requires
        0 <= i < hashes.len(),
        is_plain(hashes[i]),
    ensures
        exists|k: int|
            0 <= k < whole_digests(hashes).len() && #[trigger] whole_digests(hashes)[k]
                == hashes[i],
    decreases hashes.len(),
{
    let shorter = whole_digests(hashes.drop_last());
    let all = whole_digests(hashes);
    if i == hashes.len() - 1 {
        assert(all[all.len() - 1] == hashes[i]);
    } else {
        whole_is_selected(hashes.drop_last(), i);
        let k = choose|k: int| 0 <= k < shorter.len() && #[trigger] shorter[k] == hashes[i];
        assert(all[k] == hashes[i]);
    }
}

/// What needs no traversal only adds checks.
pub proof fn untraversed_only_adds<V: Volume>(
    report: ReportView,
    object: ObjectView,
    alone: Option<ImageView>,
    parts: Seq<Part<V>>,
    hashes: Seq<StoredHashView>,
)
    ensures
        report.checks.is_prefix_of(
            untraversed_report(report, object, alone, parts, hashes).checks,
        ),
    decreases hashes.len(),
{
    if hashes.len() > 0 {
        untraversed_only_adds(report, object, alone, parts, hashes.drop_last());
    }
}

/// Every digest that an image records of its bytes is answered for: where the value is
/// the digest of all the bytes of the image, in the order of its address space, the check
/// matches, where it is another it does not. This holds of an image in one volume and of
/// one in a set.
pub proof fn whole_images_are_answered<V: Volume>(
    report: ReportView,
    object: ObjectView,
    image: ImageView,
    parts: Seq<Part<V>>,
    locus: LocusView,
    in_set: bool,
    data: Seq<u8>,
    counts: ReadAccountingView,
    i: int,
)
    requires
        image_content(image, parts, locus) == Ok::<(Seq<u8>, ReadAccountingView), ErrorView>(
            (data, counts),
        ),
        0 <= i < object.hashes.len(),
        is_plain(object.hashes[i]),
    ensures
        ({
            let after = resolved_report(report, object, image, parts, locus, in_set);
            &&& report.checks.is_prefix_of(after.checks)
            &&& is_answered(
                report,
                after,
                object.arn,
                object.hashes[i],
                records(object.hashes[i], data),
            )
            &&& after.read_accounting.last() == (ImageAccountingView {
                image: object.arn,
                accounting: counts,
                traversed: true,
            })
        }),
{
    let whole = whole_digests(object.hashes);
    let without = before_traversal(report, object, image, parts, in_set);
    let after = resolved_report(report, object, image, parts, locus, in_set);
    let alone = if in_set {
        None
    } else {
        Some(image)
    };
    whole_is_selected(object.hashes, i);
    let k = choose|k: int| 0 <= k < whole.len() && #[trigger] whole[k] == object.hashes[i];
    untraversed_only_adds(report, object, alone, parts, object.hashes);
    traversal_only_adds(report, object, image, parts, in_set);
    checked_is_answered(
        without,
        after,
        object.arn,
        object.role,
        whole,
        Coverage::WholeImage,
        data,
        k,
    );
    answers_were_added(
        report,
        without,
        after,
        object.arn,
        object.hashes[i],
        records(object.hashes[i], data),
    );
}

/// What comes before a traversal only adds checks.
proof fn traversal_only_adds<V: Volume>(
    report: ReportView,
    object: ObjectView,
    image: ImageView,
    parts: Seq<Part<V>>,
    in_set: bool,
)
    ensures
        report.checks.is_prefix_of(
            before_traversal(report, object, image, parts, in_set).checks,
        ),
{
    let without = before_traversal(report, object, image, parts, in_set);
    let alone = if in_set {
        None
    } else {
        Some(image)
    };
    let accounted = choose|r: ReportView|
        r.checks == report.checks && without == #[trigger] untraversed_report(
            r,
            object,
            alone,
            parts,
            object.hashes,
        );
    untraversed_only_adds(accounted, object, alone, parts, object.hashes);
}

/// Verifying an object of one container only adds checks.
#[verifier::rlimit(40)]
pub proof fn objects_only_add<V: Volume>(
    report: ReportView,
    fused: Option<FusedView>,
    object: ObjectView,
    container: Container<V>,
    options: VerifyOptions,
)
    ensures
        report.checks.is_prefix_of(
            object_outcome(report, fused, object, container, options).0.checks,
        ),
        fused is None ==> object_outcome(report, fused, object, container, options).1 is None,
{
    let locus = LocusView::file(container.path@);
    let parts = container.parts@;
    match object.role {
        ObjectRole::ImageStream => {
            let home = parts[home_of(parts, object.arn)];
            streams_only_add(
                report,
                fused,
                object,
                &home.volume,
                home.graph@,
                container.lexicon,
                locus,
                options,
            );
        },
        ObjectRole::MapObject => {},
        ObjectRole::BlockHashes => {},
        _ => {
            if role_is_image(object.role) {
                streams_only_add(
                    report,
                    None,
                    object,
                    &parts[0].volume,
                    parts[0].graph@,
                    container.lexicon,
                    locus,
                    options,
                );
                match image_of(container.images@, object.arn, locus) {
                    Err(_) => {},
                    Ok(image) => {
                        traversal_only_adds(report, object, image, parts, parts.len() > 1);
                    },
                }
            }
        },
    }
}

/// One turn of a container of one volume.
#[verifier::rlimit(40)]
proof fn turn_is_alone<V: Volume>(container: Container<V>, options: VerifyOptions, n: nat)
    requires
        after_turns(container, options, n).1 is None,
    ensures
        after_turns(container, options, n + 1) == object_outcome(
            after_turns(container, options, n).0,
            None,
            container.objects@[n as int]@,
            container,
            options,
        ),
        after_turns(container, options, n + 1).1 is None,
        after_turns(container, options, n).0.checks.is_prefix_of(
            after_turns(container, options, n + 1).0.checks,
        ),
{
    let before = after_turns(container, options, n);
    let object = container.objects@[n as int]@;
    assert(after_turns(container, options, n + 1) == turn_outcome(
        before.0,
        before.1,
        object,
        container,
        options,
    ));
    assert(turn_outcome(before.0, None, object, container, options) == object_outcome(
        before.0,
        None,
        object,
        container,
        options,
    )) by {
        reveal(turn_outcome);
    }
    objects_only_add(before.0, None, object, container, options);
}

/// In a container of one volume every object is verified in its turn, by itself.
pub proof fn turns_are_alone<V: Volume>(container: Container<V>, options: VerifyOptions, n: nat)
    requires
        container.parts@.len() <= 1,
    ensures
        after_turns(container, options, n).1 is None,
        after_turns(container, options, n + 1).0 == object_outcome(
            after_turns(container, options, n).0,
            None,
            container.objects@[n as int]@,
            container,
            options,
        ).0,
    decreases n,
{
    if n == 0 {
        reveal(prepared);
    } else {
        turns_are_alone(container, options, (n - 1) as nat);
        turn_is_alone(container, options, (n - 1) as nat);
    }
    turn_is_alone(container, options, n);
}

/// In a container of one volume what an object's turn added stays in the report.
pub proof fn turns_are_kept<V: Volume>(
    container: Container<V>,
    options: VerifyOptions,
    m: nat,
    n: nat,
)
    requires
        container.parts@.len() <= 1,
        m <= n,
    ensures
        after_turns(container, options, m).0.checks.is_prefix_of(
            after_turns(container, options, n).0.checks,
        ),
    decreases n,
{
    let a = after_turns(container, options, m).0.checks;
    let c = after_turns(container, options, n).0.checks;
    if m < n {
        turns_are_kept(container, options, m, (n - 1) as nat);
        turns_are_alone(container, options, (n - 1) as nat);
        turn_is_alone(container, options, (n - 1) as nat);
        let b = after_turns(container, options, (n - 1) as nat).0.checks;
        assert(a =~= c.subrange(0, a.len() as int));
    } else {
        assert(a =~= c.subrange(0, a.len() as int));
    }
}

/// Whether a report has a check that is about a recorded value and says whether it was
/// found to be right.
pub open spec fn is_reported(
    report: ReportView,
    subject: Seq<char>,
    hash: StoredHashView,
    right: bool,
) -> bool {
    exists|k: int|
        0 <= k < report.checks.len() && answers(
            #[trigger] report.checks[k],
            subject,
            hash,
            right,
        )
}

/// What an object's turn adds is in the report on the container.
proof fn turns_are_reported<V: Volume>(
    container: Container<V>,
    options: VerifyOptions,
    j: int,
    hash: StoredHashView,
    right: bool,
)
    requires
        container.parts@.len() <= 1,
        0 <= j < container.objects@.len(),
        is_answered(
            after_turns(container, options, j as nat).0,
            object_outcome(
                after_turns(container, options, j as nat).0,
                None,
                container.objects@[j]@,
                container,
                options,
            ).0,
            container.objects@[j]@.arn,
            hash,
            right,
        ),
    ensures
        is_reported(
            container_report(container, options),
            container.objects@[j]@.arn,
            hash,
            right,
        ),
{
    let n = container.objects@.len();
    let subject = container.objects@[j]@.arn;
    turns_are_alone(container, options, j as nat);
    turns_are_kept(container, options, (j + 1) as nat, n);
    let before = after_turns(container, options, j as nat).0;
    let between = after_turns(container, options, (j + 1) as nat).0;
    let after = after_turns(container, options, n).0;
    answers_stay(before, between, after, subject, hash, right);
    let k = choose|k: int|
        before.checks.len() <= k < after.checks.len() && answers(
            #[trigger] after.checks[k],
            subject,
            hash,
            right,
        );
    let report = container_report(container, options);
    assert(report.checks[k] == after.checks[k]);
    assert(answers(report.checks[k], subject, hash, right));
}

/// The report on a container of one volume answers for every digest that a stream of it
/// records of its bytes.
pub proof fn containers_report_streams<V: Volume>(
    container: Container<V>,
    options: VerifyOptions,
    j: int,
    s: StreamView,
    data: Seq<u8>,
    i: int,
)
    requires
        container.parts@.len() == 1,
        0 <= j < container.objects@.len(),
        container.objects@[j]@.role == ObjectRole::ImageStream,
        stream_declared(
            container.objects@[j]@.arn,
            container.parts@[0].graph@,
            container.lexicon,
            LocusView::file(container.path@),
        ) == Ok::<StreamView, ErrorView>(s),
        stream_content(s, &container.parts@[0].volume, LocusView::file(container.path@)) == Ok::<
            Seq<u8>,
            ErrorView,
        >(data),
        0 <= i < container.objects@[j]@.hashes.len(),
        container.objects@[j]@.hashes[i].predicate == "hash"@,
        is_plain(container.objects@[j]@.hashes[i]),
    ensures
        is_reported(
            container_report(container, options),
            container.objects@[j]@.arn,
            container.objects@[j]@.hashes[i],
            records(container.objects@[j]@.hashes[i], data),
        ),
{
    let object = container.objects@[j]@;
    let before = after_turns(container, options, j as nat).0;
    stream_digests_are_answered(
        before,
        None,
        object,
        &container.parts@[0].volume,
        container.parts@[0].graph@,
        container.lexicon,
        LocusView::file(container.path@),
        options,
        s,
        data,
        i,
    );
    home_is_alone(container.parts@, object.arn);
    turns_are_reported(
        container,
        options,
        j,
        object.hashes[i],
        records(object.hashes[i], data),
    );
}

/// Where there is one volume, everything is in it.
proof fn home_is_alone<V: Volume>(parts: Seq<Part<V>>, arn: Seq<char>)
    requires
        parts.len() == 1,
    ensures
        home_of(parts, arn) == 0,
        declarer_of(parts, arn) == 0,
{
    reveal_with_fuel(holding_from, 2);
    reveal_with_fuel(declaring_from, 2);
}

/// The report on a container of one volume answers for every digest of a logical file
/// that is a member of the volume.
pub proof fn containers_report_files<V: Volume>(
    container: Container<V>,
    options: VerifyOptions,
    j: int,
    member: Seq<char>,
    data: Seq<u8>,
    i: int,
)
    requires
        container.parts@.len() == 1,
        0 <= j < container.objects@.len(),
        container.objects@[j]@.role == ObjectRole::FileImage || container.objects@[j]@.role
            == ObjectRole::Image,
        says_segment(container.objects@[j]@.types),
        member_of(
            container.objects@[j]@.arn,
            container.parts@[0].volume.name(),
            NameMapping::Escaped,
        ) == Some(member),
        container.parts@[0].volume.lists(member),
        container.parts@[0].volume.outcome(member) == Ok::<Seq<u8>, ErrorView>(data),
        0 <= i < container.objects@[j]@.hashes.len(),
        is_plain(container.objects@[j]@.hashes[i]),
    ensures
        is_reported(
            container_report(container, options),
            container.objects@[j]@.arn,
            container.objects@[j]@.hashes[i],
            records(container.objects@[j]@.hashes[i], data),
        ),
{
    let object = container.objects@[j]@;
    let before = after_turns(container, options, j as nat).0;
    segment_files_are_answered(
        before,
        object,
        container.images@,
        container.parts@,
        container.lexicon,
        LocusView::file(container.path@),
        options,
        member,
        data,
    );
    turns_are_reported(
        container,
        options,
        j,
        object.hashes[i],
        records(object.hashes[i], data),
    );
}

/// The report on a container of one volume answers for every digest of an image that its
/// map assembles.
pub proof fn containers_report_images<V: Volume>(
    container: Container<V>,
    options: VerifyOptions,
    j: int,
    image: ImageView,
    data: Seq<u8>,
    counts: ReadAccountingView,
    i: int,
)
    requires
        container.parts@.len() == 1,
        0 <= j < container.objects@.len(),
        container.objects@[j]@.role == ObjectRole::DiskImage || container.objects@[j]@.role
            == ObjectRole::Image || container.objects@[j]@.role == ObjectRole::FileImage,
        !declares(container.objects@[j]@.types, "ImageStream"@),
        image_segment(container.objects@[j]@.arn, &container.parts@[0].volume) is None,
        image_of(
            container.images@,
            container.objects@[j]@.arn,
            LocusView::file(container.path@),
        ) == Ok::<ImageView, ErrorView>(image),
        image_content(image, container.parts@, LocusView::file(container.path@)) == Ok::<
            (Seq<u8>, ReadAccountingView),
            ErrorView,
        >((data, counts)),
        0 <= i < container.objects@[j]@.hashes.len(),
        is_plain(container.objects@[j]@.hashes[i]),
    ensures
        is_reported(
            container_report(container, options),
            container.objects@[j]@.arn,
            container.objects@[j]@.hashes[i],
            records(container.objects@[j]@.hashes[i], data),
        ),
{
    let object = container.objects@[j]@;
    let before = after_turns(container, options, j as nat).0;
    whole_images_are_answered(
        before,
        object,
        image,
        container.parts@,
        LocusView::file(container.path@),
        false,
        data,
        counts,
        i,
    );
    turns_are_reported(
        container,
        options,
        j,
        object.hashes[i],
        records(object.hashes[i], data),
    );
}

/// The report on a container of one volume answers for every digest that a map of it
/// records over its segments.
pub proof fn containers_report_maps<V: Volume>(
    container: Container<V>,
    options: VerifyOptions,
    j: int,
    base: Seq<char>,
    map: Seq<u8>,
    idx: Seq<u8>,
    path: Seq<u8>,
    i: int,
)
    requires
        container.parts@.len() == 1,
        0 <= j < container.objects@.len(),
        container.objects@[j]@.role == ObjectRole::MapObject,
        member_of(
            container.objects@[j]@.arn,
            container.parts@[0].volume.name(),
            NameMapping::Escaped,
        ) == Some(base),
        holds_map(&container.parts@[0].volume, base, map, idx, path),
        0 <= i < container.objects@[j]@.hashes.len(),
        map_input(container.objects@[j]@.hashes[i].predicate, map, idx, path) is Some,
        is_plain(container.objects@[j]@.hashes[i]),
    ensures
        is_reported(
            container_report(container, options),
            container.objects@[j]@.arn,
            container.objects@[j]@.hashes[i],
            records(
                container.objects@[j]@.hashes[i],
                map_input(
                    container.objects@[j]@.hashes[i].predicate,
                    map,
                    idx,
                    path,
                )->Some_0,
            ),
        ),
{
    let object = container.objects@[j]@;
    let before = after_turns(container, options, j as nat).0;
    map_digests_are_answered(
        before,
        object,
        &container.parts@[0].volume,
        base,
        map,
        idx,
        path,
        Seq::empty(),
        i,
    );
    home_is_alone(container.parts@, object.arn);
    turns_are_reported(
        container,
        options,
        j,
        object.hashes[i],
        records(
            object.hashes[i],
            map_input(object.hashes[i].predicate, map, idx, path)->Some_0,
        ),
    );
}

/// The name of an object of chunk digests is that of the stream and the algorithm.
pub proof fn block_objects_are_named(stream: Seq<char>, suffix: Seq<char>, i: int)
    requires
        forall|k: int| 0 <= k < suffix.len() ==> #[trigger] suffix[k] != '/',
        stream.len() <= i <= stream.len() + 11 + suffix.len(),
    ensures
        block_object_split(stream + "/blockhash."@ + suffix, i) == Some(stream.len() as int),
    decreases i,
{
    let arn = stream + "/blockhash."@ + suffix;
    reveal_strlit("/blockhash.");
    if i == stream.len() {
        assert(arn.subrange(i, i + 11) =~= "/blockhash."@);
    } else {
        block_objects_are_named(stream, suffix, i - 1);
        if i + 11 <= arn.len() {
            assert(arn[i] != '/');
            assert(arn.subrange(i, i + 11)[0] == arn[i]);
            assert("/blockhash."@[0] == '/');
        }
    }
}

/// A digest over a stream's chunk digests is answered for: where it is the digest of the
/// segments that record them, one after the other, the check matches, where it is another
/// it does not.
pub proof fn block_objects_are_answered<V: Volume>(
    report: ReportView,
    object: ObjectView,
    volume: &V,
    stream: Seq<char>,
    suffix: Seq<char>,
    base: Seq<char>,
    parts: Seq<Seq<u8>>,
    i: int,
)
    requires
        object.arn == stream + "/blockhash."@ + suffix,
        forall|k: int| 0 <= k < suffix.len() ==> #[trigger] suffix[k] != '/',
        names_resource(stream),
        member_of(stream, volume.name(), NameMapping::Escaped) == Some(base),
        block_segments(volume, base, suffix).len() > 0,
        hold_joined(volume, block_segments(volume, base, suffix), parts, parts),
        0 <= i < object.hashes.len(),
        is_plain(object.hashes[i]),
    ensures
        is_answered(
            report,
            block_object_report(report, object, volume),
            object.arn,
            object.hashes[i],
            records(object.hashes[i], bytes::flattened(parts)),
        ),
{
    reveal_strlit("/blockhash.");
    block_objects_are_named(stream, suffix, object.arn.len() as int);
    assert(object.arn.take(stream.len() as int) =~= stream);
    assert(object.arn.skip(stream.len() as int + 11) =~= suffix);
    let names = block_segments(volume, base, suffix);
    segments_are_joined(volume, names, parts, names.len());
    assert(parts.take(names.len() as int) =~= parts);
    checked_is_answered(
        report,
        block_object_report(report, object, volume),
        object.arn,
        object.role,
        object.hashes,
        Coverage::Segment,
        bytes::flattened(parts),
        i,
    );
}

/// A folder holds no bytes, so nothing is claimed of any.
pub proof fn folders_claim_nothing<V: Volume>(
    report: ReportView,
    object: ObjectView,
    images: Seq<ImageEntry>,
    parts: Seq<Part<V>>,
    lexicon: Lexicon,
    locus: LocusView,
    options: VerifyOptions,
)
    requires
        object.role == ObjectRole::FolderImage,
        !stored_as_segment(object.types),
        !declares(object.types, "ImageStream"@),
    ensures
        image_report(report, object, images, parts, lexicon, locus, options) == report,
{
}

/// What needs no traversal is reported in the order of the digests.
proof fn untraversed_in_turn<V: Volume>(
    report: ReportView,
    object: ObjectView,
    alone: Option<ImageView>,
    parts: Seq<Part<V>>,
    hashes: Seq<StoredHashView>,
    m: int,
)
    requires
        0 <= m <= hashes.len(),
    ensures
        report.checks.is_prefix_of(
            untraversed_report(report, object, alone, parts, hashes.take(m)).checks,
        ),
        untraversed_report(report, object, alone, parts, hashes.take(m)).checks.is_prefix_of(
            untraversed_report(report, object, alone, parts, hashes).checks,
        ),
    decreases hashes.len(),
{
    untraversed_only_adds(report, object, alone, parts, hashes.take(m));
    let some = untraversed_report(report, object, alone, parts, hashes.take(m)).checks;
    let all = untraversed_report(report, object, alone, parts, hashes).checks;
    if m == hashes.len() {
        assert(hashes.take(m) =~= hashes);
        assert(some =~= all.subrange(0, some.len() as int));
    } else {
        untraversed_in_turn(report, object, alone, parts, hashes.drop_last(), m);
        assert(hashes.drop_last().take(m) =~= hashes.take(m));
        let most = untraversed_report(report, object, alone, parts, hashes.drop_last()).checks;
        let last = seq![hashes.last()];
        assert(most.is_prefix_of(all));
        assert(some =~= all.subrange(0, some.len() as int));
    }
}

/// The root of an image in a set is found to be right where it is the SHA-512 over what its
/// volumes attest, in the order of their files, of their maps or of their streams.
pub proof fn set_roots_are_found<V: Volume>(
    report: ReportView,
    object: ObjectView,
    image: ImageView,
    parts: Seq<Part<V>>,
    locus: LocusView,
    members: Seq<int>,
    values: Seq<Seq<u8>>,
    i: int,
)
    requires
        are_stripes(parts, object.arn, members),
        members.len() > 1,
        values.len() == members.len(),
        forall|k: int| 0 <= k < members.len() ==> attests(parts[#[trigger] members[k]], values[k]),
        0 <= i < object.hashes.len(),
        object.hashes[i].algorithm == HashAlgorithm::BlockMapSha512,
        same_but_for_case(
            text::hex(root_over(values, file_names(parts, members))),
            object.hashes[i].hex,
        ) || same_but_for_case(
            text::hex(root_over(values, map_names(parts, members))),
            object.hashes[i].hex,
        ) || same_but_for_case(
            text::hex(root_over(values, stream_names(parts, members))),
            object.hashes[i].hex,
        ),
    ensures
        is_answered(
            report,
            resolved_report(report, object, image, parts, locus, true),
            object.arn,
            object.hashes[i],
            true,
        ),
        is_answered(
            report,
            untraversed_report(report, object, None, parts, object.hashes),
            object.arn,
            object.hashes[i],
            true,
        ),
{
    roots_in_turn(report, object, parts, members, values, i);
    let without = before_traversal(report, object, image, parts, true);
    let accounted = choose|r: ReportView|
        r.checks == report.checks && without == #[trigger] untraversed_report(
            r,
            object,
            None,
            parts,
            object.hashes,
        );
    roots_in_turn(accounted, object, parts, members, values, i);
    let after = resolved_report(report, object, image, parts, locus, true);
    assert(is_answered(report, without, object.arn, object.hashes[i], true));
    assert(without.checks.is_prefix_of(after.checks));
    answers_stay(report, without, after, object.arn, object.hashes[i], true);
}

/// The root of an image in a set, where it is right.
pub proof fn roots_in_turn<V: Volume>(
    report: ReportView,
    object: ObjectView,
    parts: Seq<Part<V>>,
    members: Seq<int>,
    values: Seq<Seq<u8>>,
    i: int,
)
    requires
        are_stripes(parts, object.arn, members),
        members.len() > 1,
        values.len() == members.len(),
        forall|k: int| 0 <= k < members.len() ==> attests(parts[#[trigger] members[k]], values[k]),
        0 <= i < object.hashes.len(),
        object.hashes[i].algorithm == HashAlgorithm::BlockMapSha512,
        same_but_for_case(
            text::hex(root_over(values, file_names(parts, members))),
            object.hashes[i].hex,
        ) || same_but_for_case(
            text::hex(root_over(values, map_names(parts, members))),
            object.hashes[i].hex,
        ) || same_but_for_case(
            text::hex(root_over(values, stream_names(parts, members))),
            object.hashes[i].hex,
        ),
    ensures
        is_answered(
            report,
            untraversed_report(report, object, None, parts, object.hashes),
            object.arn,
            object.hashes[i],
            true,
        ),
{
    let hashes = object.hashes;
    let hash = hashes[i];
    let before = untraversed_report(report, object, None, parts, hashes.take(i));
    let between = untraversed_report(report, object, None, parts, hashes.take(i + 1));
    let after = untraversed_report(report, object, None, parts, hashes);
    untraversed_in_turn(report, object, None, parts, hashes, i);
    untraversed_in_turn(report, object, None, parts, hashes, i + 1);
    roots_are_answered(before, object, parts, hash, members, values);
    assert(hashes.take(i + 1).drop_last() =~= hashes.take(i));
    assert(hashes.take(i + 1).last() == hash);
    assert(between == root_report(before, object, parts, hash));
    answers_were_added(report, before, between, object.arn, hash, true);
    answers_stay(report, between, after, object.arn, hash, true);
}

/// The digest that an image in one volume records over its tree is compared with the value
/// that the image's map is compared with, and found to be right where that is.
pub proof fn images_are_as_their_maps<V: Volume>(
    object: ObjectView,
    image: ImageView,
    volume: &V,
    hash: StoredHashView,
    map: ObjectView,
    base: Seq<char>,
)
    requires
        map.arn == image.map_arn,
        map.hashes == seq![
            StoredHashView {
                algorithm: HashAlgorithm::Sha512,
                hex: hash.hex,
                predicate: "blockMapHash"@,
            },
        ],
        member_of(image.map_arn, volume.name(), NameMapping::Escaped) == Some(base),
        map_segments(base, volume) matches Ok(segments) && held_among(image.streams, volume)
            == local_streams(segments.idx, volume),
    ensures
        ({
            let own = image_map_check(object, image, volume, hash);
            let theirs = map_checks(map, volume)[0];
            &&& own.subject == object.arn
            &&& own.expected == hash.hex
            &&& own.outcome == OutcomeView::Match <==> theirs.outcome == OutcomeView::Match
            &&& own.outcome == OutcomeView::Mismatch <==> theirs.outcome == OutcomeView::Mismatch
            &&& own.outcome == OutcomeView::Match ==> own.actual == theirs.actual
        }),
{
    reveal_strlit("blockMapHash");
    reveal_strlit("mapPointHash");
    reveal_strlit("mapIdxHash");
    reveal_strlit("mapPathHash");
    reveal_strlit("mapHash");
    assert("blockMapHash"@.len() == 12 && "blockMapHash"@[0] == 'b');
    assert("mapPointHash"@[0] == 'm');
    assert("mapIdxHash"@.len() == 10);
    assert("mapPathHash"@.len() == 11);
    assert("mapHash"@.len() == 7);
    let segments = map_segments(base, volume)->Ok_0;
    assert(map_checks(map, volume)[0] == map_check(map, map.hashes[0], segments, volume));
}

} // verus!
