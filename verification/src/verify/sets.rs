//! What the report on a container of several volumes answers for.

use vstd::prelude::*;

use crate::arn::{member_of, NameMapping};
use crate::error::{ErrorView, LocusView};
use crate::hash::same_but_for_case;
use crate::model::{HashAlgorithm, ObjectRole, StoredHashView};
use crate::stream::{stream_content, stream_declared, StreamView};
use crate::text;
use crate::verify::attested::{
    answers_stay, answers_were_added, is_reported, objects_only_add, roots_in_turn,
    set_roots_are_found, untraversed_only_adds,
};
use crate::verify::composed::{
    are_stripes, attests, file_names, holds_map, map_digests_are_answered, map_input, map_names,
    root_over, stream_names,
};
use crate::verify::container::{declarer_of, home_of, image_of, Container, ImageView, ObjectView};
use crate::verify::images::untraversed_report;
use crate::verify::report::ReportView;
use crate::verify::run::{after_turns, container_report, object_outcome, turn_outcome};
use crate::verify::sound::{answers, is_answered, is_plain, records, stream_digests_are_answered};
use crate::verify::streams::{FusedView, VerifyOptions};
use crate::volume::Volume;

verus! {

/// A turn of the dispatch only adds checks.
#[verifier::rlimit(40)]
proof fn turn_only_adds<V: Volume>(
    report: ReportView,
    fused: Option<FusedView>,
    object: ObjectView,
    container: Container<V>,
    options: VerifyOptions,
)
    ensures
        report.checks.is_prefix_of(
            turn_outcome(report, fused, object, container, options).0.checks,
        ),
{
    let after = turn_outcome(report, fused, object, container, options).0.checks;
    let locus = LocusView::file(container.path@);
    objects_only_add(report, fused, object, container, options);
    assert(match fused {
        Some(f) => f.arn != object.arn,
        None => true,
    } ==> after == object_outcome(report, fused, object, container, options).0.checks) by {
        reveal(turn_outcome);
    }
    match fused {
        Some(f) => {
            if f.arn == object.arn {
                let closed = f.finished(report, locus);
                objects_only_add(closed, None, object, container, options);
                untraversed_only_adds(closed, object, None, container.parts@, object.hashes);
                owned_turn(report, f, object, container, options);
                assert(report.checks.is_prefix_of(closed.checks));
                assert(closed.checks.is_prefix_of(after));
                assert(report.checks =~= after.subrange(0, report.checks.len() as int));
            }
        },
        None => {},
    }
}

/// The turn of an image whose digest comes out of the passes over its streams.
proof fn owned_turn<V: Volume>(
    report: ReportView,
    f: FusedView,
    object: ObjectView,
    container: Container<V>,
    options: VerifyOptions,
)
    requires
        f.arn == object.arn,
    ensures
        ({
            let locus = LocusView::file(container.path@);
            let closed = f.finished(report, locus);
            let after = turn_outcome(report, Some(f), object, container, options).0;
            ||| after == untraversed_report(
                closed,
                object,
                None,
                container.parts@,
                object.hashes,
            )
            ||| after == object_outcome(closed, None, object, container, options).0
        }),
        report.checks.is_prefix_of(
            f.finished(report, LocusView::file(container.path@)).checks,
        ),
{
    reveal(turn_outcome);
}

/// The report only grows from turn to turn, in a container of any number of volumes.
pub proof fn reports_only_grow<V: Volume>(
    container: Container<V>,
    options: VerifyOptions,
    m: nat,
    n: nat,
)
    requires
        m <= n,
    ensures
        after_turns(container, options, m).0.checks.is_prefix_of(
            after_turns(container, options, n).0.checks,
        ),
    decreases n,
{
    let a = after_turns(container, options, m).0.checks;
    let c = after_turns(container, options, n).0.checks;
    if m < n {
        reports_only_grow(container, options, m, (n - 1) as nat);
        let (report, fused) = after_turns(container, options, (n - 1) as nat);
        turn_only_adds(report, fused, container.objects@[n - 1]@, container, options);
        assert(a =~= c.subrange(0, a.len() as int));
    } else {
        assert(a =~= c.subrange(0, a.len() as int));
    }
}

/// What a turn adds is in the report on the container.
proof fn turns_are_in_report<V: Volume>(
    container: Container<V>,
    options: VerifyOptions,
    j: int,
    subject: Seq<char>,
    hash: StoredHashView,
    right: bool,
)
    requires
        0 <= j < container.objects@.len(),
        is_answered(
            after_turns(container, options, j as nat).0,
            after_turns(container, options, (j + 1) as nat).0,
            subject,
            hash,
            right,
        ),
    ensures
        is_reported(container_report(container, options), subject, hash, right),
{
    let n = container.objects@.len();
    let before = after_turns(container, options, j as nat).0;
    let between = after_turns(container, options, (j + 1) as nat).0;
    let after = after_turns(container, options, n).0;
    reports_only_grow(container, options, (j + 1) as nat, n);
    answers_stay(before, between, after, subject, hash, right);
    let k = choose|k: int|
        before.checks.len() <= k < after.checks.len() && answers(
            #[trigger] after.checks[k],
            subject,
            hash,
            right,
        );
    let report = container_report(container, options);
    assert(report.checks[k] == after.checks[k]);
    assert(answers(report.checks[k], subject, hash, right));
}

/// The turn of an object that is not the image whose digest is under way.
proof fn turn_of_other<V: Volume>(
    report: ReportView,
    fused: Option<FusedView>,
    object: ObjectView,
    container: Container<V>,
    options: VerifyOptions,
)
    requires
        fused matches Some(f) ==> f.arn != object.arn,
    ensures
        turn_outcome(report, fused, object, container, options) == object_outcome(
            report,
            fused,
            object,
            container,
            options,
        ),
{
    reveal(turn_outcome);
}

/// The report on a container answers for every digest that a stream records of its bytes,
/// whichever volume holds it, unless the stream's name is that of the image whose digest is
/// under way.
pub proof fn sets_report_streams<V: Volume>(
    container: Container<V>,
    options: VerifyOptions,
    j: int,
    s: StreamView,
    data: Seq<u8>,
    i: int,
)
    requires
        0 <= j < container.objects@.len(),
        container.objects@[j]@.role == ObjectRole::ImageStream,
        after_turns(container, options, j as nat).1 matches Some(f) ==> f.arn
            != container.objects@[j]@.arn,
        stream_declared(
            container.objects@[j]@.arn,
            container.parts@[home_of(container.parts@, container.objects@[j]@.arn)].graph@,
            container.lexicon,
            LocusView::file(container.path@),
        ) == Ok::<StreamView, ErrorView>(s),
        stream_content(
            s,
            &container.parts@[home_of(container.parts@, container.objects@[j]@.arn)].volume,
            LocusView::file(container.path@),
        ) == Ok::<Seq<u8>, ErrorView>(data),
        0 <= i < container.objects@[j]@.hashes.len(),
        container.objects@[j]@.hashes[i].predicate == "hash"@,
        is_plain(container.objects@[j]@.hashes[i]),
    ensures
        is_reported(
            container_report(container, options),
            container.objects@[j]@.arn,
            container.objects@[j]@.hashes[i],
            records(container.objects@[j]@.hashes[i], data),
        ),
{
    let object = container.objects@[j]@;
    let (report, fused) = after_turns(container, options, j as nat);
    let home = container.parts@[home_of(container.parts@, object.arn)];
    turn_of_other(report, fused, object, container, options);
    stream_digests_are_answered(
        report,
        fused,
        object,
        &home.volume,
        home.graph@,
        container.lexicon,
        LocusView::file(container.path@),
        options,
        s,
        data,
        i,
    );
    turns_are_in_report(
        container,
        options,
        j,
        object.arn,
        object.hashes[i],
        records(object.hashes[i], data),
    );
}

/// The report on a container answers for every digest that a map records over its segments,
/// whichever volume declares it.
pub proof fn sets_report_maps<V: Volume>(
    container: Container<V>,
    options: VerifyOptions,
    j: int,
    base: Seq<char>,
    map: Seq<u8>,
    idx: Seq<u8>,
    path: Seq<u8>,
    i: int,
)
    requires
        0 <= j < container.objects@.len(),
        container.objects@[j]@.role == ObjectRole::MapObject,
        after_turns(container, options, j as nat).1 matches Some(f) ==> f.arn
            != container.objects@[j]@.arn,
        member_of(
            container.objects@[j]@.arn,
            container.parts@[declarer_of(
                container.parts@,
                container.objects@[j]@.arn,
            )].volume.name(),
            NameMapping::Escaped,
        ) == Some(base),
        holds_map(
            &container.parts@[declarer_of(
                container.parts@,
                container.objects@[j]@.arn,
            )].volume,
            base,
            map,
            idx,
            path,
        ),
        0 <= i < container.objects@[j]@.hashes.len(),
        map_input(container.objects@[j]@.hashes[i].predicate, map, idx, path) is Some,
        is_plain(container.objects@[j]@.hashes[i]),
    ensures
        is_reported(
            container_report(container, options),
            container.objects@[j]@.arn,
            container.objects@[j]@.hashes[i],
            records(
                container.objects@[j]@.hashes[i],
                map_input(
                    container.objects@[j]@.hashes[i].predicate,
                    map,
                    idx,
                    path,
                )->Some_0,
            ),
        ),
{
    let object = container.objects@[j]@;
    let (report, fused) = after_turns(container, options, j as nat);
    turn_of_other(report, fused, object, container, options);
    map_digests_are_answered(
        report,
        object,
        &container.parts@[declarer_of(container.parts@, object.arn)].volume,
        base,
        map,
        idx,
        path,
        Seq::empty(),
        i,
    );
    turns_are_in_report(
        container,
        options,
        j,
        object.arn,
        object.hashes[i],
        records(
            object.hashes[i],
            map_input(object.hashes[i].predicate, map, idx, path)->Some_0,
        ),
    );
}

/// The report on a set finds an image's root to be right where it is the SHA-512 over what
/// its volumes attest, in the order of their files, of their maps or of their streams.
#[verifier::rlimit(40)]
pub proof fn sets_report_roots<V: Volume>(
    container: Container<V>,
    options: VerifyOptions,
    j: int,
    image: ImageView,
    members: Seq<int>,
    values: Seq<Seq<u8>>,
    i: int,
)
    requires
        container.parts@.len() > 1,
        0 <= j < container.objects@.len(),
        container.objects@[j]@.role == ObjectRole::DiskImage || container.objects@[j]@.role
            == ObjectRole::Image,
        image_of(
            container.images@,
            container.objects@[j]@.arn,
            LocusView::file(container.path@),
        ) == Ok::<ImageView, ErrorView>(image),
        are_stripes(container.parts@, container.objects@[j]@.arn, members),
        members.len() > 1,
        values.len() == members.len(),
        forall|k: int|
            0 <= k < members.len() ==> attests(
                container.parts@[#[trigger] members[k]],
                values[k],
            ),
        0 <= i < container.objects@[j]@.hashes.len(),
        container.objects@[j]@.hashes[i].algorithm == HashAlgorithm::BlockMapSha512,
        same_but_for_case(
            text::hex(root_over(values, file_names(container.parts@, members))),
            container.objects@[j]@.hashes[i].hex,
        ) || same_but_for_case(
            text::hex(root_over(values, map_names(container.parts@, members))),
            container.objects@[j]@.hashes[i].hex,
        ) || same_but_for_case(
            text::hex(root_over(values, stream_names(container.parts@, members))),
            container.objects@[j]@.hashes[i].hex,
        ),
    ensures
        is_reported(
            container_report(container, options),
            container.objects@[j]@.arn,
            container.objects@[j]@.hashes[i],
            true,
        ),
{
    let object = container.objects@[j]@;
    let parts = container.parts@;
    let locus = LocusView::file(container.path@);
    let (report, fused) = after_turns(container, options, j as nat);
    let after = after_turns(container, options, (j + 1) as nat).0;
    let hash = object.hashes[i];
    let owned = fused matches Some(f) && f.arn == object.arn;
    if owned {
        let f = fused->Some_0;
        let closed = f.finished(report, locus);
        owned_turn(report, f, object, container, options);
        roots_in_turn(closed, object, parts, members, values, i);
        set_roots_are_found(closed, object, image, parts, locus, members, values, i);
        answers_were_added(report, closed, after, object.arn, hash, true);
    } else {
        turn_of_other(report, fused, object, container, options);
        set_roots_are_found(report, object, image, parts, locus, members, values, i);
    }
    turns_are_in_report(container, options, j, object.arn, hash, true);
}

} // verus!
