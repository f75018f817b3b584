//! What an estimate says of a run: how many bytes verifying will read.

use vstd::prelude::*;

use crate::arn::{lossy_text, member_of, unescaped_bytes, NameMapping};
use crate::codec::codec_name;
use crate::error::{ErrorView, LocusView};
use crate::hash::computable;
use crate::model::{role_is_image, HashAlgorithm, ObjectRole, StoredHashView};
use crate::stream::{bevies_of, bevy_member, stream_declared, StreamView};
use crate::verify::attested::turns_are_alone;
use crate::verify::blocks::block_segments;
use crate::verify::container::{
    declares, home_of, object_views, stored_as_segment, Container, ObjectView,
};
use crate::verify::estimate::{
    bevies_on_disk, container_estimate, linear_algorithms, recorded_block_algorithms,
    segments_counted, streams_counted, widest_image, widest_stream, will_be_read, with_text,
    EstimateView, PlanView,
};
use crate::verify::images::{image_segment, whole_digests};
use crate::verify::report::{capped_sum, ImageAccountingView, ReportView};
use crate::verify::run::{after_turns, container_report, object_outcome, prepared};
use crate::verify::streams::{recorded_under, VerifyOptions};
use crate::volume::Volume;

verus! {

/// A count that stops at the largest number there is room for.
pub open spec fn at_most(n: nat) -> u64 {
    if n > u64::MAX {
        u64::MAX
    } else {
        n as u64
    }
}

/// Whether verifying reads an object as a stream: it is one, and it records a digest of
/// its bytes or the digests of its chunks are asked for.
pub open spec fn is_read(object: ObjectView, options: VerifyOptions) -> bool {
    &&& object.role == ObjectRole::ImageStream || declares(object.types, "ImageStream"@)
    &&& options.block_hashes || exists|i: int|
        0 <= i < object.hashes.len() && (#[trigger] object.hashes[i]).predicate == "hash"@
}

/// A stream of a container, as its own volume declares it.
pub open spec fn declared<V: Volume>(container: Container<V>, object: ObjectView) -> Result<
    StreamView,
    ErrorView,
> {
    stream_declared(
        object.arn,
        container.parts@[home_of(container.parts@, object.arn)].graph@,
        container.lexicon,
        LocusView::file(container.path@),
    )
}

/// The declared lengths of those of the first `n` objects that are read as streams, added
/// up.
pub open spec fn stream_bytes<V: Volume>(
    container: Container<V>,
    options: VerifyOptions,
    n: nat,
) -> nat
    decreases n,
{
    if n == 0 {
        0
    } else {
        let object = container.objects@[n - 1]@;
        stream_bytes(container, options, (n - 1) as nat) + (match declared(container, object) {
            Ok(s) if is_read(object, options) => s.size as nat,
            _ => 0,
        })
    }
}

/// The bytes that the bevies of those of the first `n` objects that are read as streams
/// occupy, added up.
pub open spec fn stored_stream_bytes<V: Volume>(
    container: Container<V>,
    options: VerifyOptions,
    n: nat,
) -> nat
    decreases n,
{
    if n == 0 {
        0
    } else {
        let object = container.objects@[n - 1]@;
        let home = container.parts@[home_of(container.parts@, object.arn)];
        stored_stream_bytes(container, options, (n - 1) as nat) + (match declared(
            container,
            object,
        ) {
            Ok(s) if is_read(object, options) => at_most(
                bevy_bytes(s, &home.volume, bevies_of(s)),
            ) as nat,
            _ => 0,
        })
    }
}

/// The bytes that the first `n` bevies of a stream occupy, added up.
pub open spec fn bevy_bytes<V: Volume>(s: StreamView, volume: &V, n: nat) -> nat
    decreases n,
{
    if n == 0 {
        0
    } else {
        bevy_bytes(s, volume, (n - 1) as nat) + (match bevy_member(
            s,
            volume.name(),
            (n - 1) as nat,
        ) {
            Some(name) => volume.stored_length(name) as nat,
            None => 0,
        })
    }
}

/// The bevies of those of the first `n` objects that are read as streams, added up.
pub open spec fn bevy_count<V: Volume>(
    container: Container<V>,
    options: VerifyOptions,
    n: nat,
) -> nat
    decreases n,
{
    if n == 0 {
        0
    } else {
        let object = container.objects@[n - 1]@;
        bevy_count(container, options, (n - 1) as nat) + (match declared(container, object) {
            Ok(s) if is_read(object, options) => bevies_of(s),
            _ => 0,
        })
    }
}

/// The member that holds an image's bytes: of the image's own name, or of that name with
/// its escapes resolved.
pub open spec fn image_member<V: Volume>(object: ObjectView, volume: &V) -> Option<Seq<char>> {
    if !role_is_image(object.role) || !stored_as_segment(object.types) {
        None
    } else {
        match member_of(object.arn, volume.name(), NameMapping::Escaped) {
            None => None,
            Some(member) => if volume.plain_length(member) is Some {
                Some(member)
            } else if volume.plain_length(lossy_text(unescaped_bytes(member))) is Some {
                Some(lossy_text(unescaped_bytes(member)))
            } else {
                None
            },
        }
    }
}

/// The lengths of the members that hold the images among the first `n` objects, added up.
pub open spec fn member_bytes<V: Volume>(
    objects: Seq<ObjectView>,
    volume: &V,
    n: nat,
) -> nat
    decreases n,
{
    if n == 0 {
        0
    } else {
        member_bytes(objects, volume, (n - 1) as nat) + (match image_member(
            objects[n - 1],
            volume,
        ) {
            Some(name) => volume.plain_length(name)->Some_0 as nat,
            None => 0,
        })
    }
}

/// The bytes that the members that hold the images among the first `n` objects occupy,
/// added up.
pub open spec fn stored_member_bytes<V: Volume>(
    objects: Seq<ObjectView>,
    volume: &V,
    n: nat,
) -> nat
    decreases n,
{
    if n == 0 {
        0
    } else {
        stored_member_bytes(objects, volume, (n - 1) as nat) + (match image_member(
            objects[n - 1],
            volume,
        ) {
            Some(name) => volume.stored_length(name) as nat,
            None => 0,
        })
    }
}

/// Counts that stop at the largest number add up to one that stops there.
proof fn capped_sums(a: nat, b: nat)
    ensures
        capped_sum(at_most(a) as int, b as int) == at_most(a + b),
        capped_sum(at_most(a) as int, at_most(b) as int) == at_most(a + b),
{
}

/// A digest under a property is there where one of the digests is.
proof fn recorded_is_there(object: ObjectView, options: VerifyOptions)
    ensures
        will_be_read(object, options) == is_read(object, options),
{
    selected_is_there(object.hashes, object.hashes.len());
    assert(object.hashes.take(object.hashes.len() as int) =~= object.hashes);
}

/// What is selected of the first digests.
proof fn selected_is_there(hashes: Seq<StoredHashView>, n: nat)
    requires
        n <= hashes.len(),
    ensures
        (recorded_under(hashes.take(n as int), "hash"@).len() > 0) == (exists|i: int|
            0 <= i < n && (#[trigger] hashes[i]).predicate == "hash"@),
    decreases n,
{
    if n > 0 {
        selected_is_there(hashes, (n - 1) as nat);
        assert(hashes.take(n as int).drop_last() =~= hashes.take(n - 1));
        assert(hashes.take(n as int).last() == hashes[n - 1]);
        if hashes[n - 1].predicate == "hash"@ {
            assert(exists|i: int| 0 <= i < n && (#[trigger] hashes[i]).predicate == "hash"@);
        }
    }
}

/// The bytes that a stream's bevies occupy are added up.
pub proof fn bevies_are_summed<V: Volume>(s: StreamView, volume: &V, n: nat)
    ensures
        bevies_on_disk(s, volume, n) == at_most(bevy_bytes(s, volume, n)),
    decreases n,
{
    if n > 0 {
        bevies_are_summed(s, volume, (n - 1) as nat);
    }
}

/// What is counted of the streams.
proof fn streams_are_summed<V: Volume>(container: Container<V>, options: VerifyOptions, n: nat)
    ensures
        ({
            let e = streams_counted(container, options, n);
            &&& e.bytes_to_read == at_most(stream_bytes(container, options, n))
            &&& e.bytes_on_disk == at_most(stored_stream_bytes(container, options, n))
            &&& e.bevies == at_most(bevy_count(container, options, n))
        }),
    decreases n,
{
    if n > 0 {
        let m = (n - 1) as nat;
        let object = container.objects@[n - 1]@;
        let home = container.parts@[home_of(container.parts@, object.arn)];
        streams_are_summed(container, options, m);
        recorded_is_there(object, options);
        match declared(container, object) {
            Ok(s) => {
                bevies_are_summed(s, &home.volume, bevies_of(s));
                capped_sums(stream_bytes(container, options, m), s.size as nat);
                capped_sums(
                    stored_stream_bytes(container, options, m),
                    at_most(bevy_bytes(s, &home.volume, bevies_of(s))) as nat,
                );
                capped_sums(bevy_count(container, options, m), bevies_of(s));
            },
            Err(_) => {},
        }
    }
}

/// What is counted of the members.
proof fn members_are_summed<V: Volume>(
    estimate: EstimateView,
    objects: Seq<ObjectView>,
    volume: &V,
    read: nat,
    stored: nat,
    n: nat,
)
    requires
        estimate.bytes_to_read == at_most(read),
        estimate.bytes_on_disk == at_most(stored),
    ensures
        ({
            let e = segments_counted(estimate, objects, volume, n);
            &&& e.bytes_to_read == at_most(read + member_bytes(objects, volume, n))
            &&& e.bytes_on_disk == at_most(stored + stored_member_bytes(objects, volume, n))
            &&& e.bevies == estimate.bevies
            &&& e.streams == estimate.streams
            &&& e.codecs == estimate.codecs
            &&& e.block_hashes == estimate.block_hashes
        }),
    decreases n,
{
    if n > 0 {
        members_are_summed(estimate, objects, volume, read, stored, (n - 1) as nat);
        match image_member(objects[n - 1], volume) {
            Some(name) => {
                capped_sums(
                    read + member_bytes(objects, volume, (n - 1) as nat),
                    volume.plain_length(name)->Some_0 as nat,
                );
                capped_sums(
                    stored + stored_member_bytes(objects, volume, (n - 1) as nat),
                    volume.stored_length(name) as nat,
                );
            },
            None => {},
        }
    }
}

/// The bytes to read are the declared lengths of the streams that will be read and the
/// lengths of the members that hold images, added up; the bytes on disk are what these
/// occupy; the bevies are those of the streams. Each stops at the largest number there is
/// room for.
pub proof fn estimates_are_sums<V: Volume>(container: Container<V>, options: VerifyOptions)
    ensures
        ({
            let e = container_estimate(container, options);
            let n = container.objects@.len();
            let objects = object_views(container.objects@);
            let volume = &container.parts@[0].volume;
            &&& e.bytes_to_read == at_most(
                stream_bytes(container, options, n) + member_bytes(objects, volume, n),
            )
            &&& e.bytes_on_disk == at_most(
                stored_stream_bytes(container, options, n) + stored_member_bytes(
                    objects,
                    volume,
                    n,
                ),
            )
            &&& e.bevies == at_most(bevy_count(container, options, n))
            &&& e.block_hashes == options.block_hashes
        }),
{
    let n = container.objects@.len();
    streams_are_summed(container, options, n);
    block_hashes_are_said(container, options, n);
    members_are_summed(
        streams_counted(container, options, n),
        object_views(container.objects@),
        &container.parts@[0].volume,
        stream_bytes(container, options, n),
        stored_stream_bytes(container, options, n),
        n,
    );
}

/// Counting streams keeps what is asked for.
proof fn block_hashes_are_said<V: Volume>(
    container: Container<V>,
    options: VerifyOptions,
    n: nat,
)
    ensures
        streams_counted(container, options, n).block_hashes == options.block_hashes,
    decreases n,
{
    if n > 0 {
        block_hashes_are_said(container, options, (n - 1) as nat);
    }
}

/// Whether a volume's directory says of every member what reading it yields: it lists what
/// it gives a length, and the length is that of the bytes.
pub open spec fn directory_agrees<V: Volume>(volume: &V) -> bool {
    &&& forall|name: Seq<char>| #[trigger]
        volume.lists(name) == (volume.plain_length(name) is Some)
    &&& forall|name: Seq<char>|
        volume.lists(name) ==> (#[trigger] volume.outcome(name) matches Ok(data)
            && volume.plain_length(name) == Some(data.len() as u64) && data.len() <= u64::MAX)
}

/// Whether an object is an image in a member of its own, or one that holds no bytes.
pub open spec fn is_segment_only<V: Volume>(object: ObjectView, volume: &V) -> bool {
    if role_is_image(object.role) {
        image_member(object, volume) is Some && !declares(object.types, "ImageStream"@)
    } else {
        object.role != ObjectRole::ImageStream && !declares(object.types, "ImageStream"@)
    }
}

/// The stored bytes that a list of accounts says were read, added up.
pub open spec fn accounted(list: Seq<ImageAccountingView>) -> nat
    decreases list.len(),
{
    if list.len() == 0 {
        0
    } else {
        accounted(list.drop_last()) + list.last().accounting.stored as nat
    }
}

/// A turn accounts for the member that it read.
proof fn turn_is_accounted<V: Volume>(
    container: Container<V>,
    options: VerifyOptions,
    report: ReportView,
    object: ObjectView,
)
    requires
        container.parts@.len() == 1,
        directory_agrees(&container.parts@[0].volume),
        is_segment_only(object, &container.parts@[0].volume),
    ensures
        accounted(
            object_outcome(report, None, object, container, options).0.read_accounting,
        ) == accounted(report.read_accounting) + (match image_member(
            object,
            &container.parts@[0].volume,
        ) {
            Some(name) => container.parts@[0].volume.plain_length(name)->Some_0 as nat,
            None => 0,
        }),
{
    let volume = &container.parts@[0].volume;
    let after = object_outcome(report, None, object, container, options).0;
    if role_is_image(object.role) {
        let name = image_member(object, volume)->Some_0;
        let escaped = member_of(object.arn, volume.name(), NameMapping::Escaped)->Some_0;
        assert(volume.lists(escaped) == (volume.plain_length(escaped) is Some));
        assert(volume.lists(lossy_text(unescaped_bytes(escaped))) == (volume.plain_length(
            lossy_text(unescaped_bytes(escaped)),
        ) is Some));
        assert(image_segment(object.arn, volume) == Some(name));
        assert(volume.lists(name));
        assert(volume.outcome(name) is Ok);
        let grown = after.read_accounting;
        assert(grown.drop_last() =~= report.read_accounting);
    } else {
        assert(after.read_accounting == report.read_accounting);
    }
}

/// The first turns account for the members that they read.
proof fn turns_are_accounted<V: Volume>(container: Container<V>, options: VerifyOptions, n: nat)
    requires
        container.parts@.len() == 1,
        n <= container.objects@.len(),
        directory_agrees(&container.parts@[0].volume),
        forall|j: int|
            0 <= j < container.objects@.len() ==> is_segment_only(
                (#[trigger] container.objects@[j])@,
                &container.parts@[0].volume,
            ),
    ensures
        accounted(after_turns(container, options, n).0.read_accounting) == member_bytes(
            object_views(container.objects@),
            &container.parts@[0].volume,
            n,
        ),
        stream_bytes(container, options, n) == 0,
    decreases n,
{
    if n == 0 {
        reveal(prepared);
    } else {
        let m = (n - 1) as nat;
        turns_are_accounted(container, options, m);
        turns_are_alone(container, options, m);
        turn_is_accounted(
            container,
            options,
            after_turns(container, options, m).0,
            container.objects@[n - 1]@,
        );
    }
}

/// In a container of one volume whose images are all members of it, the bytes that an
/// estimate says will be read are the stored bytes that the report accounts for.
pub proof fn estimates_are_kept<V: Volume>(container: Container<V>, options: VerifyOptions)
    requires
        container.parts@.len() == 1,
        directory_agrees(&container.parts@[0].volume),
        forall|j: int|
            0 <= j < container.objects@.len() ==> is_segment_only(
                (#[trigger] container.objects@[j])@,
                &container.parts@[0].volume,
            ),
    ensures
        container_estimate(container, options).bytes_to_read == at_most(
            accounted(container_report(container, options).read_accounting),
        ),
{
    let n = container.objects@.len();
    estimates_are_sums(container, options);
    turns_are_accounted(container, options, n);
}

/// The most digests side by side are those of some stream or image, and no stream or image
/// has more.
pub proof fn widest_is_attained<V: Volume>(container: Container<V>, options: VerifyOptions)
    ensures
        ({
            let e = container_estimate(container, options);
            let objects = object_views(container.objects@);
            &&& forall|i: int|
                0 <= i < e.streams.len() ==> (#[trigger] e.streams[i]).linear.len()
                    <= e.digest_threads
            &&& forall|i: int|
                0 <= i < objects.len() && role_is_image((#[trigger] objects[i]).role)
                    ==> whole_digests(objects[i].hashes).len() <= e.digest_threads
            &&& e.digest_threads == 0 || (exists|i: int|
                0 <= i < e.streams.len() && (#[trigger] e.streams[i]).linear.len()
                    == e.digest_threads) || (exists|i: int|
                0 <= i < objects.len() && role_is_image((#[trigger] objects[i]).role)
                    && whole_digests(objects[i].hashes).len() == e.digest_threads)
        }),
{
    let e = container_estimate(container, options);
    let objects = object_views(container.objects@);
    widest_of_streams(e.streams, e.streams.len());
    widest_of_images(objects, objects.len());
}

/// The most digests of a stream.
proof fn widest_of_streams(streams: Seq<PlanView>, n: nat)
    requires
        n <= streams.len(),
    ensures
        forall|i: int|
            0 <= i < n ==> (#[trigger] streams[i]).linear.len() <= widest_stream(streams, n),
        widest_stream(streams, n) == 0 || exists|i: int|
            0 <= i < n && (#[trigger] streams[i]).linear.len() == widest_stream(streams, n),
    decreases n,
{
    if n > 0 {
        widest_of_streams(streams, (n - 1) as nat);
        assert(streams[n - 1].linear.len() <= widest_stream(streams, n));
    }
}

/// The most digests of an image.
proof fn widest_of_images(objects: Seq<ObjectView>, n: nat)
    requires
        n <= objects.len(),
    ensures
        forall|i: int|
            0 <= i < n && role_is_image((#[trigger] objects[i]).role) ==> whole_digests(
                objects[i].hashes,
            ).len() <= widest_image(objects, n),
        widest_image(objects, n) == 0 || exists|i: int|
            0 <= i < n && role_is_image((#[trigger] objects[i]).role) && whole_digests(
                objects[i].hashes,
            ).len() == widest_image(objects, n),
    decreases n,
{
    if n > 0 {
        widest_of_images(objects, (n - 1) as nat);
        let o = objects[n - 1];
    }
}

/// Whether a plan is that of an object that will be read as a stream.
pub open spec fn plans_for<V: Volume>(
    plan: PlanView,
    container: Container<V>,
    object: ObjectView,
) -> bool {
    declared(container, object) matches Ok(s) && plan.arn == object.arn && plan.size == s.size
        && plan.codec == codec_name(s.codec)
}

/// The plan of a stream among the first objects.
proof fn plan_of_stream<V: Volume>(
    container: Container<V>,
    options: VerifyOptions,
    n: nat,
    j: int,
) -> (k: int)
    requires
        0 <= j < n,
        is_read(container.objects@[j]@, options),
        declared(container, container.objects@[j]@) is Ok,
    ensures
        0 <= k < streams_counted(container, options, n).streams.len(),
        plans_for(
            streams_counted(container, options, n).streams[k],
            container,
            container.objects@[j]@,
        ),
    decreases n,
{
    let m = (n - 1) as nat;
    let object = container.objects@[n - 1]@;
    recorded_is_there(object, options);
    let before = streams_counted(container, options, m).streams;
    let after = streams_counted(container, options, n).streams;
    if j < m {
        let k = plan_of_stream(container, options, m, j);
        assert(after[k] == before[k]);
        k
    } else {
        after.len() - 1
    }
}

/// The stream that a plan among those of the first objects is for.
proof fn stream_of_plan<V: Volume>(
    container: Container<V>,
    options: VerifyOptions,
    n: nat,
    k: int,
) -> (j: int)
    requires
        0 <= k < streams_counted(container, options, n).streams.len(),
    ensures
        0 <= j < n,
        is_read(container.objects@[j]@, options),
        plans_for(
            streams_counted(container, options, n).streams[k],
            container,
            container.objects@[j]@,
        ),
    decreases n,
{
    if n == 0 {
        0
    } else {
        let m = (n - 1) as nat;
        let object = container.objects@[n - 1]@;
        recorded_is_there(object, options);
        let before = streams_counted(container, options, m).streams;
        let after = streams_counted(container, options, n).streams;
        if k < before.len() {
            let j = stream_of_plan(container, options, m, k);
            assert(after[k] == before[k]);
            j
        } else {
            n - 1
        }
    }
}

/// Every stream that verifying will read is planned, with its length and its codec.
pub proof fn read_streams_are_planned<V: Volume>(
    container: Container<V>,
    options: VerifyOptions,
    j: int,
) -> (k: int)
    requires
        0 <= j < container.objects@.len(),
        is_read(container.objects@[j]@, options),
        declared(container, container.objects@[j]@) is Ok,
    ensures
        0 <= k < container_estimate(container, options).streams.len(),
        plans_for(
            container_estimate(container, options).streams[k],
            container,
            container.objects@[j]@,
        ),
{
    plans_are_kept(container, options);
    plan_of_stream(container, options, container.objects@.len(), j)
}

/// Every plan is that of a stream that verifying will read.
pub proof fn plans_are_of_read_streams<V: Volume>(
    container: Container<V>,
    options: VerifyOptions,
    k: int,
) -> (j: int)
    requires
        0 <= k < container_estimate(container, options).streams.len(),
    ensures
        0 <= j < container.objects@.len(),
        is_read(container.objects@[j]@, options),
        plans_for(
            container_estimate(container, options).streams[k],
            container,
            container.objects@[j]@,
        ),
{
    plans_are_kept(container, options);
    stream_of_plan(container, options, container.objects@.len(), k)
}

/// Counting members keeps the plans.
proof fn plans_are_kept<V: Volume>(container: Container<V>, options: VerifyOptions)
    ensures
        container_estimate(container, options).streams == streams_counted(
            container,
            options,
            container.objects@.len(),
        ).streams,
{
    let n = container.objects@.len();
    streams_are_summed(container, options, n);
    members_are_summed(
        streams_counted(container, options, n),
        object_views(container.objects@),
        &container.parts@[0].volume,
        stream_bytes(container, options, n),
        stored_stream_bytes(container, options, n),
        n,
    );
}

/// The algorithms that are planned over a stream's bytes are those of the digests of its
/// bytes that can be computed.
pub proof fn planned_algorithms_are_recorded(hashes: Seq<StoredHashView>, a: HashAlgorithm)
    ensures
        linear_algorithms(hashes).contains(a) <==> (exists|i: int|
            0 <= i < hashes.len() && (#[trigger] hashes[i]).predicate == "hash"@
                && hashes[i].algorithm == a) && (a == HashAlgorithm::Md5 || a
            == HashAlgorithm::Sha1 || a == HashAlgorithm::Sha256 || a == HashAlgorithm::Sha512),
    decreases hashes.len(),
{
    let all = linear_algorithms(hashes);
    if hashes.len() > 0 {
        let fewer = hashes.drop_last();
        let before = linear_algorithms(fewer);
        planned_algorithms_are_recorded(fewer, a);
        if before.contains(a) {
            let k = choose|k: int| 0 <= k < before.len() && before[k] == a;
            assert(all[k] == a);
        }
        if exists|i: int|
            0 <= i < fewer.len() && (#[trigger] fewer[i]).predicate == "hash"@
                && fewer[i].algorithm == a {
            let i = choose|i: int|
                0 <= i < fewer.len() && (#[trigger] fewer[i]).predicate == "hash"@
                    && fewer[i].algorithm == a;
            assert(hashes[i] == fewer[i]);
        }
        if all.contains(a) && !before.contains(a) {
            let k = choose|k: int| 0 <= k < all.len() && all[k] == a;
            assert(k == before.len());
            assert(hashes[hashes.len() - 1].algorithm == a);
        }
        if exists|i: int|
            0 <= i < hashes.len() && (#[trigger] hashes[i]).predicate == "hash"@
                && hashes[i].algorithm == a {
            let i = choose|i: int|
                0 <= i < hashes.len() && (#[trigger] hashes[i]).predicate == "hash"@
                    && hashes[i].algorithm == a;
            if i < fewer.len() {
                assert(fewer[i] == hashes[i]);
            } else if computable(a) {
                assert(all[all.len() - 1] == a);
            }
        }
    }
}

/// The codecs among the first streams are named once each.
proof fn codecs_so_far<V: Volume>(
    container: Container<V>,
    options: VerifyOptions,
    n: nat,
    codec: Seq<char>,
)
    ensures
        ({
            let e = streams_counted(container, options, n);
            &&& e.codecs.contains(codec) <==> exists|k: int|
                0 <= k < e.streams.len() && (#[trigger] e.streams[k]).codec == codec
            &&& forall|i: int, j: int|
                0 <= i < j < e.codecs.len() ==> #[trigger] e.codecs[i] != #[trigger] e.codecs[j]
        }),
    decreases n,
{
    if n > 0 {
        let m = (n - 1) as nat;
        codecs_so_far(container, options, m, codec);
        let before = streams_counted(container, options, m);
        let after = streams_counted(container, options, n);
        let object = container.objects@[n - 1]@;
        match declared(container, object) {
            Ok(s) if will_be_read(object, options) => {
                let name = codec_name(s.codec);
                one_text_more(before.codecs, name, codec);
                assert(after.codecs == with_text(before.codecs, name));
                assert(after.streams.drop_last() =~= before.streams);
                one_plan_more(before.streams, after.streams, codec);
            },
            _ => {
                assert(after == before);
            },
        }
    }
}

/// A list with a text at its end, unless it is in it.
proof fn one_text_more(list: Seq<Seq<char>>, s: Seq<char>, t: Seq<char>)
    requires
        forall|i: int, j: int|
            0 <= i < j < list.len() ==> #[trigger] list[i] != #[trigger] list[j],
    ensures
        with_text(list, s).contains(t) <==> list.contains(t) || s == t,
        forall|i: int, j: int|
            0 <= i < j < with_text(list, s).len() ==> #[trigger] with_text(list, s)[i]
                != #[trigger] with_text(list, s)[j],
{
    let more = with_text(list, s);
    if !list.contains(s) {
        assert(more[list.len() as int] == s);
        if list.contains(t) {
            let k = choose|k: int| 0 <= k < list.len() && list[k] == t;
            assert(more[k] == t);
        }
    }
}

/// A list of plans with one more.
proof fn one_plan_more(before: Seq<PlanView>, after: Seq<PlanView>, codec: Seq<char>)
    requires
        after.len() == before.len() + 1,
        after.drop_last() == before,
    ensures
        (exists|k: int| 0 <= k < after.len() && (#[trigger] after[k]).codec == codec) <==> (
        exists|k: int| 0 <= k < before.len() && (#[trigger] before[k]).codec == codec)
            || after.last().codec == codec,
{
    assert forall|k: int| 0 <= k < before.len() implies #[trigger] after[k] == before[k] by {
        assert(after.drop_last()[k] == before[k]);
    }
    if exists|k: int| 0 <= k < before.len() && (#[trigger] before[k]).codec == codec {
        let k = choose|k: int| 0 <= k < before.len() && (#[trigger] before[k]).codec == codec;
        assert(after[k].codec == codec);
    }
    if after.last().codec == codec {
        assert(after[after.len() - 1].codec == codec);
    }
    if exists|k: int| 0 <= k < after.len() && (#[trigger] after[k]).codec == codec {
        let k = choose|k: int| 0 <= k < after.len() && (#[trigger] after[k]).codec == codec;
        if k < before.len() {
            assert(before[k].codec == codec);
        }
    }
}

/// The codecs of an estimate are those of the streams that it plans to read, each once.
pub proof fn codecs_are_those_of_plans<V: Volume>(
    container: Container<V>,
    options: VerifyOptions,
    codec: Seq<char>,
)
    ensures
        ({
            let e = container_estimate(container, options);
            &&& e.codecs.contains(codec) <==> exists|k: int|
                0 <= k < e.streams.len() && (#[trigger] e.streams[k]).codec == codec
            &&& forall|i: int, j: int|
                0 <= i < j < e.codecs.len() ==> #[trigger] e.codecs[i] != #[trigger] e.codecs[j]
        }),
{
    let n = container.objects@.len();
    codecs_so_far(container, options, n, codec);
    plans_are_kept(container, options);
    streams_are_summed(container, options, n);
    members_are_summed(
        streams_counted(container, options, n),
        object_views(container.objects@),
        &container.parts@[0].volume,
        stream_bytes(container, options, n),
        stored_stream_bytes(container, options, n),
        n,
    );
}

/// The chunk digests that are planned of a stream are those that its volume records, where
/// they are asked for.
pub proof fn planned_chunks_are_recorded<V: Volume>(
    arn: Seq<char>,
    volume: &V,
    options: VerifyOptions,
    base: Seq<char>,
    a: HashAlgorithm,
)
    requires
        member_of(arn, volume.name(), NameMapping::Escaped) == Some(base),
    ensures
        recorded_block_algorithms(arn, volume, options).contains(a) <==> options.block_hashes && (
        (a == HashAlgorithm::Md5 && block_segments(volume, base, "md5"@).len() > 0) || (a
            == HashAlgorithm::Sha1 && block_segments(volume, base, "sha1"@).len() > 0)),
{
    let list = recorded_block_algorithms(arn, volume, options);
    if options.block_hashes {
        if block_segments(volume, base, "md5"@).len() > 0 {
            assert(list[0] == HashAlgorithm::Md5);
        }
        if block_segments(volume, base, "sha1"@).len() > 0 {
            assert(list[list.len() - 1] == HashAlgorithm::Sha1);
        }
    }
}

} // verus!
