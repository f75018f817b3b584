//! What verifying a container will read, computed from its metadata alone.

use vstd::prelude::*;

use crate::arn::{lossy_text, member_of, unescape, unescaped_bytes, Arn, NameMapping};
use crate::codec::codec_name;
use crate::error::{Locus, LocusView};
use crate::hash::{computable, is_computable};
use crate::model::{
    algorithm_name, role_is_image, stored_views, HashAlgorithm, ObjectRole, StoredHashView,
};
use crate::stream::{bevies_of, bevy_member, stream_declared, ImageStream, StreamView};
use crate::text;
use crate::verify::blocks::{block_hash_segments, block_segments};
use crate::verify::container::{
    declares, declares_type, holding, home_of, is_zip_segment, object_views, stored_as_segment,
    Aff4Object, Container, ObjectView,
};
use crate::verify::images::{select_whole, whole_digests};
use crate::verify::report::capped_sum;
use crate::verify::streams::{recorded_under, select_recorded, VerifyOptions};
use crate::volume::Volume;

verus! {

/// What verification will do to one stream.
#[derive(Debug)]
pub struct StreamPlan {
    /// The stream.
    pub arn: Arn,
    /// Its length.
    pub size: u64,
    /// The codec its bevies are compressed with.
    pub codec: String,
    /// The algorithms recomputed over the whole stream.
    pub linear: Vec<HashAlgorithm>,
    /// The recorded digests that are not recomputed, each with the reason.
    pub not_recomputed: Vec<(String, String)>,
    /// The algorithms recomputed over every chunk.
    pub block_hashes: Vec<HashAlgorithm>,
}

/// What a [`StreamPlan`] says, as plain values.
#[verifier::ext_equal]
pub struct PlanView {
    /// The stream.
    pub arn: Seq<char>,
    /// Its length.
    pub size: u64,
    /// The codec its bevies are compressed with.
    pub codec: Seq<char>,
    /// The algorithms recomputed over the whole stream.
    pub linear: Seq<HashAlgorithm>,
    /// The recorded digests that are not recomputed, each with the reason.
    pub not_recomputed: Seq<(Seq<char>, Seq<char>)>,
    /// The algorithms recomputed over every chunk.
    pub block_hashes: Seq<HashAlgorithm>,
}

/// Pairs of texts, as plain values.
pub open spec fn text_pairs(list: Seq<(String, String)>) -> Seq<(Seq<char>, Seq<char>)> {
    Seq::new(list.len(), |i: int| (list[i].0@, list[i].1@))
}

impl View for StreamPlan {
    type V = PlanView;

    open spec fn view(&self) -> PlanView {
        PlanView {
            arn: self.arn@,
            size: self.size,
            codec: self.codec@,
            linear: self.linear@,
            not_recomputed: text_pairs(self.not_recomputed@),
            block_hashes: self.block_hashes@,
        }
    }
}

/// What a list of plans says.
pub open spec fn plan_views(list: Seq<StreamPlan>) -> Seq<PlanView> {
    Seq::new(list.len(), |i: int| list[i]@)
}

/// What verification will read.
#[derive(Debug)]
pub struct WorkEstimate {
    /// Bytes that will be decompressed and digested.
    pub bytes_to_read: u64,
    /// Bytes that will come off the disk.
    pub bytes_on_disk: u64,
    /// How many bevies those bytes span.
    pub bevies: u64,
    /// The codecs involved.
    pub codecs: Vec<String>,
    /// Whether the digest of every chunk is asked for.
    pub block_hashes: bool,
    /// What will be done per stream, in the order the streams are read.
    pub streams: Vec<StreamPlan>,
    /// The most digests that one traversal computes side by side.
    pub digest_threads: usize,
}

/// What a [`WorkEstimate`] says, as plain values.
#[verifier::ext_equal]
pub struct EstimateView {
    /// Bytes that will be decompressed and digested.
    pub bytes_to_read: u64,
    /// Bytes that will come off the disk.
    pub bytes_on_disk: u64,
    /// How many bevies those bytes span.
    pub bevies: u64,
    /// The codecs involved.
    pub codecs: Seq<Seq<char>>,
    /// Whether the digest of every chunk is asked for.
    pub block_hashes: bool,
    /// What will be done per stream, in the order the streams are read.
    pub streams: Seq<PlanView>,
    /// The most digests that one traversal computes side by side.
    pub digest_threads: nat,
}

impl View for WorkEstimate {
    type V = EstimateView;

    open spec fn view(&self) -> EstimateView {
        EstimateView {
            bytes_to_read: self.bytes_to_read,
            bytes_on_disk: self.bytes_on_disk,
            bevies: self.bevies,
            codecs: text::texts(self.codecs@),
            block_hashes: self.block_hashes,
            streams: plan_views(self.streams@),
            digest_threads: self.digest_threads as nat,
        }
    }
}

impl WorkEstimate {
    /// Whether there is enough work to be worth a warning: a gibibyte or more.
    pub fn is_substantial(&self) -> (r: bool)
        ensures
            r == (self@.bytes_to_read >= 1024 * 1024 * 1024),
    {
        self.bytes_to_read >= 1024 * 1024 * 1024
    }
}

/// The bytes that a stream's first `n` bevies occupy in a volume.
pub open spec fn bevies_on_disk<V: Volume>(s: StreamView, volume: &V, n: nat) -> u64
    decreases n,
{
    if n == 0 {
        0
    } else {
        let before = bevies_on_disk(s, volume, (n - 1) as nat);
        match bevy_member(s, volume.name(), (n - 1) as nat) {
            Some(name) => capped_sum(before as int, volume.stored_length(name) as int),
            None => before,
        }
    }
}

/// The bytes that a stream's bevies occupy in a volume.
fn measure_bevies<V: Volume>(stream: &ImageStream, volume: &V) -> (r: u64)
    ensures
        r == bevies_on_disk(stream@, volume, bevies_of(stream@)),
{
    let volume_arn = volume.arn();
    let count: u64 = stream.bevy_count();
    let mut total: u64 = 0;
    let mut i: u64 = 0;
    while i < count
        invariant
            i <= count,
            volume_arn@ == volume.name(),
            total == bevies_on_disk(stream@, volume, i as nat),
        decreases count - i,
    {
        match stream.bevy_name(&volume_arn, i) {
            Some(name) => {
                total = total.saturating_add(volume.stored_bytes(name.as_str()));
            },
            None => {},
        }
        i = i + 1;
    }
    total
}

/// The algorithms whose per-chunk digests a stream records in a volume.
pub open spec fn recorded_block_algorithms<V: Volume>(
    arn: Seq<char>,
    volume: &V,
    options: VerifyOptions,
) -> Seq<HashAlgorithm> {
    match member_of(arn, volume.name(), NameMapping::Escaped) {
        None => Seq::empty(),
        Some(base) => if !options.block_hashes {
            Seq::empty()
        } else {
            (if block_segments(volume, base, "md5"@).len() > 0 {
                seq![HashAlgorithm::Md5]
            } else {
                Seq::empty()
            }) + (if block_segments(volume, base, "sha1"@).len() > 0 {
                seq![HashAlgorithm::Sha1]
            } else {
                Seq::empty()
            })
        },
    }
}

/// The algorithms whose per-chunk digests a stream records in a volume.
pub fn block_hash_algorithms<V: Volume>(
    object: &Aff4Object,
    volume: &V,
    options: VerifyOptions,
) -> (r: Vec<HashAlgorithm>)
    ensures
        r@ == recorded_block_algorithms(object@.arn, volume, options),
{
    let mut found: Vec<HashAlgorithm> = Vec::new();
    if options.block_hashes {
        match object.arn.member_name(&volume.arn(), NameMapping::Escaped) {
            None => {},
            Some(base) => {
                let md5 = block_hash_segments(volume, base.as_str(), "md5");
                let sha1 = block_hash_segments(volume, base.as_str(), "sha1");
                proof {
                    assert(text::texts(md5@).len() == md5@.len());
                    assert(text::texts(sha1@).len() == sha1@.len());
                }
                if md5.len() > 0 {
                    found.push(HashAlgorithm::Md5);
                }
                if sha1.len() > 0 {
                    found.push(HashAlgorithm::Sha1);
                }
            },
        }
    }
    found
}

/// The algorithms recomputed over a stream's bytes.
pub open spec fn linear_algorithms(hashes: Seq<StoredHashView>) -> Seq<HashAlgorithm>
    decreases hashes.len(),
{
    if hashes.len() == 0 {
        Seq::empty()
    } else {
        let before = linear_algorithms(hashes.drop_last());
        let hash = hashes.last();
        if hash.predicate == "hash"@ && computable(hash.algorithm) {
            before.push(hash.algorithm)
        } else {
            before
        }
    }
}

/// The recorded digests of a stream that are not recomputed, each with the reason.
pub open spec fn left_out(hashes: Seq<StoredHashView>) -> Seq<(Seq<char>, Seq<char>)>
    decreases hashes.len(),
{
    if hashes.len() == 0 {
        Seq::empty()
    } else {
        let before = left_out(hashes.drop_last());
        let hash = hashes.last();
        if hash.predicate == "hash"@ {
            if computable(hash.algorithm) {
                before
            } else {
                before.push(
                    (
                        hash.predicate,
                        algorithm_name(hash.algorithm) + " is not implemented in this build"@,
                    ),
                )
            }
        } else if hash.predicate == "imageStreamHash"@ {
            before.push((hash.predicate, "its input has not been identified"@))
        } else {
            before
        }
    }
}

/// What will be done about a stream's recorded digests.
fn split_recorded(object: &Aff4Object) -> (r: (Vec<HashAlgorithm>, Vec<(String, String)>))
    ensures
        r.0@ == linear_algorithms(object@.hashes),
        text_pairs(r.1@) == left_out(object@.hashes),
{
    let ghost all = object@.hashes;
    let mut linear: Vec<HashAlgorithm> = Vec::new();
    let mut rest: Vec<(String, String)> = Vec::new();
    let mut i: usize = 0;
    proof {
        assert(text_pairs(rest@) =~= Seq::<(Seq<char>, Seq<char>)>::empty());
    }
    while i < object.hashes.len()
        invariant
            i <= object.hashes.len(),
            all == object@.hashes,
            linear@ == linear_algorithms(all.take(i as int)),
            text_pairs(rest@) == left_out(all.take(i as int)),
        decreases object.hashes.len() - i,
    {
        let hash = &object.hashes[i];
        let ghost before = rest@;
        proof {
            assert(all.take(i + 1).drop_last() =~= all.take(i as int));
            assert(all.take(i + 1).last() == hash@);
        }
        if text::same(hash.predicate.as_str(), "hash") {
            if is_computable(hash.algorithm) {
                linear.push(hash.algorithm);
            } else {
                let entry = (
                    hash.predicate.clone(),
                    text::cat2(hash.algorithm.name(), " is not implemented in this build"),
                );
                rest.push(entry);
                proof {
                    assert(text_pairs(rest@) =~= text_pairs(before).push((entry.0@, entry.1@)));
                }
            }
        } else if text::same(hash.predicate.as_str(), "imageStreamHash") {
            let entry = (hash.predicate.clone(), text::owned("its input has not been identified"));
            rest.push(entry);
            proof {
                assert(text_pairs(rest@) =~= text_pairs(before).push((entry.0@, entry.1@)));
            }
        }
        i = i + 1;
    }
    proof {
        assert(all.take(i as int) =~= all);
    }
    (linear, rest)
}

/// A list with a text at its end, unless it is in it.
pub open spec fn with_text(list: Seq<Seq<char>>, s: Seq<char>) -> Seq<Seq<char>> {
    if list.contains(s) {
        list
    } else {
        list.push(s)
    }
}

/// Add a text at the end of a list, unless it is in it.
fn add_text(list: &mut Vec<String>, s: &str)
    ensures
        text::texts(final(list)@) == with_text(text::texts(old(list)@), s@),
{
    let ghost before = text::texts(list@);
    let mut i: usize = 0;
    while i < list.len()
        invariant
            i <= list.len(),
            list@ == old(list)@,
            before == text::texts(list@),
            forall|k: int| 0 <= k < i ==> #[trigger] before[k] != s@,
        decreases list.len() - i,
    {
        if text::same(list[i].as_str(), s) {
            proof {
                assert(before[i as int] == s@);
            }
            return;
        }
        i = i + 1;
    }
    list.push(text::owned(s));
    proof {
        assert(text::texts(list@) =~= before.push(s@));
    }
}

/// Whether an object is a stream that verification will read.
pub open spec fn will_be_read(object: ObjectView, options: VerifyOptions) -> bool {
    (object.role == ObjectRole::ImageStream || declares(object.types, "ImageStream"@)) && (
    recorded_under(object.hashes, "hash"@).len() > 0 || options.block_hashes)
}

/// An estimate after one more object: a stream that will be read is counted.
pub open spec fn stream_counted<V: Volume>(
    estimate: EstimateView,
    object: ObjectView,
    container: Container<V>,
    options: VerifyOptions,
) -> EstimateView {
    let home = container.parts@[home_of(container.parts@, object.arn)];
    let locus = LocusView::file(container.path@);
    if !will_be_read(object, options) {
        estimate
    } else {
        match stream_declared(object.arn, home.graph@, container.lexicon, locus) {
            Err(_) => estimate,
            Ok(s) => EstimateView {
                bytes_to_read: capped_sum(estimate.bytes_to_read as int, s.size as int),
                bytes_on_disk: capped_sum(
                    estimate.bytes_on_disk as int,
                    bevies_on_disk(s, &home.volume, bevies_of(s)) as int,
                ),
                bevies: capped_sum(estimate.bevies as int, bevies_of(s) as int),
                codecs: with_text(estimate.codecs, codec_name(s.codec)),
                streams: estimate.streams.push(
                    PlanView {
                        arn: object.arn,
                        size: s.size,
                        codec: codec_name(s.codec),
                        linear: linear_algorithms(object.hashes),
                        not_recomputed: left_out(object.hashes),
                        block_hashes: recorded_block_algorithms(
                            object.arn,
                            &home.volume,
                            options,
                        ),
                    },
                ),
                ..estimate
            },
        }
    }
}

/// An estimate after the first `n` objects have been counted as streams.
pub open spec fn streams_counted<V: Volume>(
    container: Container<V>,
    options: VerifyOptions,
    n: nat,
) -> EstimateView
    decreases n,
{
    if n == 0 {
        EstimateView {
            bytes_to_read: 0,
            bytes_on_disk: 0,
            bevies: 0,
            codecs: Seq::empty(),
            block_hashes: options.block_hashes,
            streams: Seq::empty(),
            digest_threads: 0,
        }
    } else {
        stream_counted(
            streams_counted(container, options, (n - 1) as nat),
            container.objects@[n - 1]@,
            container,
            options,
        )
    }
}

/// Count an object as a stream, if it is one that will be read.
fn count_stream<V: Volume>(
    estimate: WorkEstimate,
    object: &Aff4Object,
    container: &Container<V>,
    options: VerifyOptions,
    locus: &Locus,
) -> (r: WorkEstimate)
    requires
        container.parts@.len() > 0,
        locus@ == LocusView::file(container.path@),
    ensures
        r@ == stream_counted(estimate@, object@, *container, options),
{
    if !(object.role == ObjectRole::ImageStream || declares_type(object, "ImageStream")) {
        return estimate;
    }
    let recorded = select_recorded(&object.hashes, "hash");
    proof {
        assert(stored_views(recorded@).len() == recorded@.len());
    }
    if recorded.len() == 0 && !options.block_hashes {
        return estimate;
    }
    let home: usize = match holding(&container.parts, &object.arn) {
        Some(i) => i,
        None => 0,
    };
    let part = &container.parts[home];
    let stream = match ImageStream::open(&object.arn, &part.graph, &container.lexicon, locus) {
        Ok(stream) => stream,
        Err(_) => return estimate,
    };
    let ghost before = estimate@;
    let mut out = estimate;
    out.bytes_to_read = out.bytes_to_read.saturating_add(stream.size());
    out.bevies = out.bevies.saturating_add(stream.bevy_count());
    add_text(&mut out.codecs, stream.codec().name());
    out.bytes_on_disk = out.bytes_on_disk.saturating_add(measure_bevies(&stream, &part.volume));
    let (linear, not_recomputed) = split_recorded(object);
    let plan = StreamPlan {
        arn: object.arn.clone(),
        size: stream.size(),
        codec: text::owned(stream.codec().name()),
        linear,
        not_recomputed,
        block_hashes: block_hash_algorithms(object, &part.volume, options),
    };
    out.streams.push(plan);
    proof {
        assert(plan_views(out.streams@) =~= before.streams.push(plan@));
        assert(out@ =~= stream_counted(before, object@, *container, options));
    }
    out
}

/// The segment that holds a logical image's bytes, by its entry in a volume's
/// directory.
pub open spec fn sized_segment<V: Volume>(arn: Seq<char>, volume: &V) -> Option<Seq<char>> {
    match member_of(arn, volume.name(), NameMapping::Escaped) {
        None => None,
        Some(member) => {
            let plain = lossy_text(unescaped_bytes(member));
            if volume.plain_length(member) is Some {
                Some(member)
            } else if volume.plain_length(plain) is Some {
                Some(plain)
            } else {
                None
            }
        },
    }
}

/// An estimate after one more object: an image stored as a segment is counted.
pub open spec fn segment_counted<V: Volume>(
    estimate: EstimateView,
    object: ObjectView,
    volume: &V,
) -> EstimateView {
    match sized_segment(object.arn, volume) {
        Some(name) => if role_is_image(object.role) && stored_as_segment(
            object.types,
        ) {
            EstimateView {
                bytes_to_read: capped_sum(
                    estimate.bytes_to_read as int,
                    volume.plain_length(name)->Some_0 as int,
                ),
                bytes_on_disk: capped_sum(
                    estimate.bytes_on_disk as int,
                    volume.stored_length(name) as int,
                ),
                ..estimate
            }
        } else {
            estimate
        },
        None => estimate,
    }
}

/// An estimate after the first `n` objects have been counted as segments.
pub open spec fn segments_counted<V: Volume>(
    estimate: EstimateView,
    objects: Seq<ObjectView>,
    volume: &V,
    n: nat,
) -> EstimateView
    decreases n,
{
    if n == 0 {
        estimate
    } else {
        segment_counted(
            segments_counted(estimate, objects, volume, (n - 1) as nat),
            objects[n - 1],
            volume,
        )
    }
}

/// Count the images that are stored as segments of a volume.
///
/// Every byte of such a member is read, so an estimate without them would fall
/// short of the run.
pub fn estimate_segment_stored<V: Volume>(
    objects: &Vec<Aff4Object>,
    volume: &V,
    estimate: &mut WorkEstimate,
)
    ensures
        final(estimate)@ == segments_counted(
            old(estimate)@,
            object_views(objects@),
            volume,
            objects@.len(),
        ),
{
    let volume_arn = volume.arn();
    let mut i: usize = 0;
    while i < objects.len()
        invariant
            i <= objects.len(),
            volume_arn@ == volume.name(),
            estimate@ == segments_counted(
                old(estimate)@,
                object_views(objects@),
                volume,
                i as nat,
            ),
        decreases objects.len() - i,
    {
        let object = &objects[i];
        let ghost before = estimate@;
        proof {
            assert(object_views(objects@)[i as int] == object@);
        }
        if object.role.is_image() && is_zip_segment(object) {
            match object.arn.member_name(&volume_arn, NameMapping::Escaped) {
                None => {},
                Some(member) => {
                    let name = if volume.uncompressed_bytes(member.as_str()).is_some() {
                        member
                    } else {
                        unescape(member.as_str())
                    };
                    match volume.uncompressed_bytes(name.as_str()) {
                        None => {},
                        Some(size) => {
                            estimate.bytes_to_read = estimate.bytes_to_read.saturating_add(size);
                            estimate.bytes_on_disk = estimate.bytes_on_disk.saturating_add(
                                volume.stored_bytes(name.as_str()),
                            );
                        },
                    }
                },
            }
        }
        proof {
            assert(estimate@ =~= segment_counted(before, object@, volume));
        }
        i = i + 1;
    }
}

/// The larger of two counts.
pub open spec fn larger(a: nat, b: nat) -> nat {
    if a < b {
        b
    } else {
        a
    }
}

/// The most algorithms that one of the first `n` streams is digested under.
pub open spec fn widest_stream(streams: Seq<PlanView>, n: nat) -> nat
    decreases n,
{
    if n == 0 {
        0
    } else {
        larger(widest_stream(streams, (n - 1) as nat), streams[n - 1].linear.len())
    }
}

/// The most algorithms that one of the first `n` objects, as an image, is digested
/// under.
pub open spec fn widest_image(objects: Seq<ObjectView>, n: nat) -> nat
    decreases n,
{
    if n == 0 {
        0
    } else {
        let before = widest_image(objects, (n - 1) as nat);
        if role_is_image(objects[n - 1].role) {
            larger(before, whole_digests(objects[n - 1].hashes).len())
        } else {
            before
        }
    }
}

/// What verifying a container will read.
pub open spec fn container_estimate<V: Volume>(container: Container<V>, options: VerifyOptions) -> EstimateView {
    let objects = object_views(container.objects@);
    let counted = segments_counted(
        streams_counted(container, options, objects.len()),
        objects,
        &container.parts@[0].volume,
        objects.len(),
    );
    EstimateView {
        digest_threads: larger(
            widest_stream(counted.streams, counted.streams.len()),
            widest_image(objects, objects.len()),
        ),
        ..counted
    }
}

/// The most algorithms that a stream is digested under.
fn measure_streams(streams: &Vec<StreamPlan>) -> (r: usize)
    ensures
        r == widest_stream(plan_views(streams@), streams@.len()),
{
    let mut widest: usize = 0;
    let mut i: usize = 0;
    while i < streams.len()
        invariant
            i <= streams.len(),
            widest == widest_stream(plan_views(streams@), i as nat),
        decreases streams.len() - i,
    {
        proof {
            assert(plan_views(streams@)[i as int] == streams@[i as int]@);
        }
        if widest < streams[i].linear.len() {
            widest = streams[i].linear.len();
        }
        i = i + 1;
    }
    widest
}

/// The most algorithms that an image is digested under.
fn measure_images(objects: &Vec<Aff4Object>) -> (r: usize)
    ensures
        r == widest_image(object_views(objects@), objects@.len()),
{
    let mut widest: usize = 0;
    let mut i: usize = 0;
    while i < objects.len()
        invariant
            i <= objects.len(),
            widest == widest_image(object_views(objects@), i as nat),
        decreases objects.len() - i,
    {
        proof {
            assert(object_views(objects@)[i as int] == objects@[i as int]@);
        }
        if objects[i].role.is_image() {
            let whole = select_whole(&objects[i].hashes);
            proof {
                assert(stored_views(whole@).len() == whole@.len());
            }
            if widest < whole.len() {
                widest = whole.len();
            }
        }
        i = i + 1;
    }
    widest
}

/// Estimate what verifying a container will read, without reading any data.
///
/// Every volume's streams are counted, each from the volume that holds it, and so
/// are the images that are stored as plain segments.
pub fn estimate_work<V: Volume>(container: &Container<V>, options: VerifyOptions) -> (r:
    WorkEstimate)
    requires
        container.parts@.len() > 0,
    ensures
        r@ == container_estimate(*container, options),
{
    let locus = Locus::new(container.path.as_str());
    let mut estimate = WorkEstimate {
        bytes_to_read: 0,
        bytes_on_disk: 0,
        bevies: 0,
        codecs: Vec::new(),
        block_hashes: options.block_hashes,
        streams: Vec::new(),
        digest_threads: 0,
    };
    proof {
        assert(estimate@ =~= streams_counted(*container, options, 0));
    }
    let mut i: usize = 0;
    while i < container.objects.len()
        invariant
            i <= container.objects.len(),
            container.parts@.len() > 0,
            locus@ == LocusView::file(container.path@),
            estimate@ == streams_counted(*container, options, i as nat),
        decreases container.objects.len() - i,
    {
        estimate = count_stream(estimate, &container.objects[i], container, options, &locus);
        i = i + 1;
    }
    estimate_segment_stored(&container.objects, &container.parts[0].volume, &mut estimate);
    let streams: usize = measure_streams(&estimate.streams);
    let images: usize = measure_images(&container.objects);
    let ghost counted = estimate@;
    estimate.digest_threads = if streams < images {
        images
    } else {
        streams
    };
    proof {
        assert(estimate@ =~= container_estimate(*container, options));
    }
    estimate
}

} // verus!
