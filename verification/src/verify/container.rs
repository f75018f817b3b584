//! The container that verification works on: volumes, objects and images.

use vstd::prelude::*;

use crate::arn::{member_of, names_resource, Arn, NameMapping};
use crate::bytes;
use crate::chunk_reader::{long_region_text, overflowing_region_text, trimmed};
use crate::codec::decompress_chunk;
use crate::error::{copied_text, malformed, Error, ErrorView, Locus, LocusView};
use crate::lexicon::Lexicon;
use crate::model::{stored_views, ObjectRole, StoredHash, StoredHashView};
use crate::rdf::{object_of, type_predicate, Graph};
use crate::stream::{
    bevy_member, chunk_of_bevy, elsewhere_text, index_bounded, parse_index_bounded, slice_chunk,
    handed_over, outcome_view, taken_between, was_refused, ByteSink, ChunkLocation, ImageStream, StreamView, INDEX_SUFFIX,
};
use crate::text;
use crate::verify::blocks::{block_hash_segments, block_segments, holds_data, volume_holds_stream_data};
use crate::verify::report::{
    capped_sum, of_reading, Progress, ProgressObserver, ProgressView,
    ReadAccounting, ReadAccountingView,
};
use crate::volume::Volume;

verus! {

/// A resource that a container describes.
#[derive(Debug)]
pub struct Aff4Object {
    /// Its name.
    pub arn: Arn,
    /// What kind of object it is.
    pub role: ObjectRole,
    /// Its declared length, where it declares one.
    pub size: Option<u64>,
    /// Every type it declares.
    pub types: Vec<String>,
    /// Every digest it records.
    pub hashes: Vec<StoredHash>,
}

/// What an [`Aff4Object`] says, as plain values.
#[verifier::ext_equal]
pub struct ObjectView {
    /// Its name.
    pub arn: Seq<char>,
    /// What kind of object it is.
    pub role: ObjectRole,
    /// Its declared length, where it declares one.
    pub size: Option<u64>,
    /// Every type it declares.
    pub types: Seq<Seq<char>>,
    /// Every digest it records.
    pub hashes: Seq<StoredHashView>,
}

impl View for Aff4Object {
    type V = ObjectView;

    open spec fn view(&self) -> ObjectView {
        ObjectView {
            arn: self.arn@,
            role: self.role,
            size: self.size,
            types: text::texts(self.types@),
            hashes: stored_views(self.hashes@),
        }
    }
}

/// What a list of objects says.
pub open spec fn object_views(list: Seq<Aff4Object>) -> Seq<ObjectView> {
    Seq::new(list.len(), |i: int| list[i]@)
}

/// What follows the last `#` or `/` of an IRI, the whole IRI where there is none.
pub open spec fn local_name(iri: Seq<char>) -> Seq<char>
    decreases iri.len(),
{
    if iri.len() == 0 {
        Seq::empty()
    } else if iri.last() == '#' || iri.last() == '/' {
        Seq::empty()
    } else {
        local_name(iri.drop_last()).push(iri.last())
    }
}

/// What follows the last `#` or `/` of an IRI, the whole IRI where there is none.
pub fn local_part(iri: &str) -> (r: String)
    ensures
        r@ == local_name(iri@),
{
    let chars = text::characters(iri);
    let mut from: usize = chars.len();
    proof {
        assert(iri@.take(iri@.len() as int) == iri@);
        assert(iri@.skip(iri@.len() as int) == Seq::<char>::empty());
        assert(local_name(iri@) + Seq::<char>::empty() == local_name(iri@));
    }
    while from > 0 && chars[from - 1] != '#' && chars[from - 1] != '/'
        invariant
            from <= chars.len(),
            chars@ == iri@,
            local_name(iri@) == local_name(iri@.take(from as int)) + iri@.skip(from as int),
        decreases from,
    {
        proof {
            let c = chars@[from - 1];
            assert(iri@.take(from as int).drop_last() == iri@.take(from - 1));
            assert(iri@.take(from as int).last() == c);
            assert(local_name(iri@.take(from - 1)).push(c) + iri@.skip(from as int) == local_name(
                iri@.take(from - 1),
            ) + iri@.skip(from - 1));
        }
        from = from - 1;
    }
    proof {
        assert(local_name(iri@.take(from as int)) == Seq::<char>::empty());
        assert(Seq::<char>::empty() + iri@.skip(from as int) == iri@.skip(from as int));
        assert(chars@.subrange(from as int, chars@.len() as int) == iri@.skip(from as int));
    }
    text::spelled_range(&chars, from, chars.len())
}

/// Whether an object declares a type of the given local name.
pub open spec fn declares(types: Seq<Seq<char>>, name: Seq<char>) -> bool {
    exists|i: int| 0 <= i < types.len() && local_name(#[trigger] types[i]) == name
}

/// Whether an object declares a type of the given local name.
pub fn declares_type(object: &Aff4Object, name: &str) -> (r: bool)
    ensures
        r == declares(object@.types, name@),
{
    let mut i: usize = 0;
    while i < object.types.len()
        invariant
            i <= object.types.len(),
            forall|k: int| 0 <= k < i ==> local_name(#[trigger] object@.types[k]) != name@,
        decreases object.types.len() - i,
    {
        let local = local_part(object.types[i].as_str());
        if text::same(local.as_str(), name) {
            proof {
                assert(local_name(object@.types[i as int]) == name@);
            }
            return true;
        }
        i = i + 1;
    }
    false
}

/// Whether an object declares itself stored as one ZIP member, in either spelling.
pub open spec fn stored_as_segment(types: Seq<Seq<char>>) -> bool {
    declares(types, "zip_segment"@) || declares(types, "ZipSegment"@)
}

/// Whether an object declares itself stored as one ZIP member.
pub fn is_zip_segment(object: &Aff4Object) -> (r: bool)
    ensures
        r == stored_as_segment(object@.types),
{
    declares_type(object, "zip_segment") || declares_type(object, "ZipSegment")
}

/// One volume of a container.
pub struct Part<V: Volume> {
    /// Where its segments are.
    pub volume: V,
    /// What it states.
    pub graph: Graph,
    /// The file it is.
    pub path: String,
    /// The map it declares as its own, if it declares one.
    pub local_map: Option<Arn>,
}

/// What a described run stands for.
#[derive(Debug, Clone, Copy, PartialEq, Eq, Structural)]
pub enum DescribedKind {
    /// Content that a map describes.
    Described,
    /// Content that is not known.
    Unknown,
    /// Content that no map entry covers.
    Gap,
}

/// One run of an image's address space.
#[derive(Debug)]
pub enum ImageRun {
    /// Bytes of a stream.
    Stored {
        /// The stream.
        stream: Arn,
        /// Where they begin in it.
        target_offset: u64,
        /// How many there are.
        length: u64,
    },
    /// Bytes that repeat a pattern, in phase with the image's address space.
    Described {
        /// What the run stands for.
        kind: DescribedKind,
        /// The pattern.
        pattern: Vec<u8>,
        /// Where the run begins in the image.
        offset: u64,
        /// How many bytes it has.
        length: u64,
    },
}

/// What an [`ImageRun`] says, as plain values.
#[verifier::ext_equal]
#[allow(inconsistent_fields)]
pub enum RunView {
    /// Bytes of a stream.
    Stored {
        /// The stream.
        stream: Seq<char>,
        /// Where they begin in it.
        target_offset: u64,
        /// How many there are.
        length: u64,
    },
    /// Bytes that repeat a pattern, in phase with the image's address space.
    Described {
        /// What the run stands for.
        kind: DescribedKind,
        /// The pattern.
        pattern: Seq<u8>,
        /// Where the run begins in the image.
        offset: u64,
        /// How many bytes it has.
        length: u64,
    },
}

impl View for ImageRun {
    type V = RunView;

    open spec fn view(&self) -> RunView {
        match self {
            ImageRun::Stored { stream, target_offset, length } => RunView::Stored {
                stream: stream@,
                target_offset: *target_offset,
                length: *length,
            },
            ImageRun::Described { kind, pattern, offset, length } => RunView::Described {
                kind: *kind,
                pattern: pattern@,
                offset: *offset,
                length: *length,
            },
        }
    }
}

/// What a list of runs says.
pub open spec fn run_views(list: Seq<ImageRun>) -> Seq<RunView> {
    Seq::new(list.len(), |i: int| list[i]@)
}

/// What a list of streams says.
pub open spec fn stream_views(list: Seq<ImageStream>) -> Seq<StreamView> {
    Seq::new(list.len(), |i: int| list[i]@)
}

/// A copy of a list of runs.
pub fn copied_runs(list: &Vec<ImageRun>) -> (r: Vec<ImageRun>)
    ensures
        run_views(r@) == run_views(list@),
{
    let mut out: Vec<ImageRun> = Vec::new();
    let mut i: usize = 0;
    proof {
        assert(run_views(out@) == run_views(list@).take(0));
    }
    while i < list.len()
        invariant
            i <= list.len(),
            run_views(out@) == run_views(list@).take(i as int),
        decreases list.len() - i,
    {
        let copy = match &list[i] {
            ImageRun::Stored { stream, target_offset, length } => ImageRun::Stored {
                stream: stream.clone(),
                target_offset: *target_offset,
                length: *length,
            },
            ImageRun::Described { kind, pattern, offset, length } => ImageRun::Described {
                kind: *kind,
                pattern: bytes::copied(pattern.as_slice()),
                offset: *offset,
                length: *length,
            },
        };
        let ghost before = out@;
        out.push(copy);
        proof {
            assert(copy@ == list@[i as int]@);
            assert(run_views(out@) == run_views(before).push(copy@));
            assert(run_views(list@).take(i + 1) == run_views(list@).take(i as int).push(
                list@[i as int]@,
            ));
        }
        i = i + 1;
    }
    proof {
        assert(run_views(list@).take(i as int) == run_views(list@));
    }
    out
}

/// An image resolved to the runs its map assembles.
#[derive(Debug)]
pub struct Image {
    /// The image's declared length.
    pub size: u64,
    /// The map that assembles it.
    pub map_arn: Arn,
    /// The runs of its address space, in order.
    pub runs: Vec<ImageRun>,
    /// The streams the runs draw on.
    pub streams: Vec<ImageStream>,
    /// Whether streams interleave through the address space.
    pub striped: bool,
    /// What the map says the address space is made of.
    pub composition: ReadAccounting,
}

/// What an [`Image`] says, as plain values.
#[verifier::ext_equal]
pub struct ImageView {
    /// The image's declared length.
    pub size: u64,
    /// The map that assembles it.
    pub map_arn: Seq<char>,
    /// The runs of its address space, in order.
    pub runs: Seq<RunView>,
    /// The streams the runs draw on.
    pub streams: Seq<StreamView>,
    /// Whether streams interleave through the address space.
    pub striped: bool,
    /// What the map says the address space is made of.
    pub composition: ReadAccountingView,
}

impl View for Image {
    type V = ImageView;

    open spec fn view(&self) -> ImageView {
        ImageView {
            size: self.size,
            map_arn: self.map_arn@,
            runs: run_views(self.runs@),
            streams: stream_views(self.streams@),
            striped: self.striped,
            composition: self.composition@,
        }
    }
}

/// An image of a container: resolved, or why it could not be.
#[derive(Debug)]
pub struct ImageEntry {
    /// The image's name.
    pub arn: Arn,
    /// What resolving it gave.
    pub resolved: Result<Image, Error>,
}

/// What resolving an image gave, as plain values.
pub open spec fn resolution_view(r: Result<Image, Error>) -> Result<ImageView, ErrorView> {
    match r {
        Ok(image) => Ok(image@),
        Err(e) => Err(e@),
    }
}

/// A container: its volumes, the first of them primary, the objects they describe
/// and the images among them.
pub struct Container<V: Volume> {
    /// The container file.
    pub path: String,
    /// The vocabulary its metadata uses.
    pub lexicon: Lexicon,
    /// Its volumes.
    pub parts: Vec<Part<V>>,
    /// Every object that any volume describes.
    pub objects: Vec<Aff4Object>,
    /// Every image among the objects.
    pub images: Vec<ImageEntry>,
}

/// What is said of an image that nothing resolved.
pub open spec fn unresolved_text() -> Seq<char> {
    "the image names no data stream"@
}

/// What resolving an image gave: the first entry of that name.
pub open spec fn image_of(images: Seq<ImageEntry>, arn: Seq<char>, locus: LocusView) -> Result<
    ImageView,
    ErrorView,
>
    decreases images.len(),
{
    if images.len() == 0 {
        Err(malformed(locus.subject(arn), unresolved_text()))
    } else if images[0].arn@ == arn {
        resolution_view(images[0].resolved)
    } else {
        image_of(images.skip(1), arn, locus)
    }
}

/// The first volume from `i` on that holds a stream's data.
pub open spec fn holding_from<V: Volume>(parts: Seq<Part<V>>, stream: Seq<char>, i: int) -> Option<
    int,
>
    decreases parts.len() - i,
{
    if i >= parts.len() {
        None
    } else if holds_data(&parts[i].volume, stream) {
        Some(i)
    } else {
        holding_from(parts, stream, i + 1)
    }
}

/// The volume that holds a stream's data, the primary where none does.
pub open spec fn home_of<V: Volume>(parts: Seq<Part<V>>, stream: Seq<char>) -> int {
    match holding_from(parts, stream, 0) {
        Some(i) => i,
        None => 0,
    }
}

/// The first volume from `i` on that declares an object's type.
pub open spec fn declaring_from<V: Volume>(parts: Seq<Part<V>>, arn: Seq<char>, i: int) -> Option<int>
    decreases parts.len() - i,
{
    if i >= parts.len() {
        None
    } else if object_of(parts[i].graph@, arn, type_predicate()) is Some {
        Some(i)
    } else {
        declaring_from(parts, arn, i + 1)
    }
}

/// The volume that declares an object, the primary where none does.
pub open spec fn declarer_of<V: Volume>(parts: Seq<Part<V>>, arn: Seq<char>) -> int {
    match declaring_from(parts, arn, 0) {
        Some(i) => i,
        None => 0,
    }
}

/// The position of the last occurrence of `/blockhash.`, if there is one.
pub open spec fn block_object_split(arn: Seq<char>, i: int) -> Option<int>
    decreases i + 1,
{
    if i < 0 {
        None
    } else if i + 11 <= arn.len() && arn.subrange(i, i + 11) == "/blockhash."@ {
        Some(i)
    } else {
        block_object_split(arn, i - 1)
    }
}

/// The stream and the algorithm that an object of per-chunk digests names.
pub open spec fn block_object(arn: Seq<char>) -> Option<(Seq<char>, Seq<char>)> {
    match block_object_split(arn, arn.len() as int) {
        Some(i) => Some((arn.take(i), arn.skip(i + 11))),
        None => None,
    }
}

/// The stream and the algorithm that an object of per-chunk digests names.
pub fn split_block_object(arn: &str) -> (r: Option<(String, String)>)
    ensures
        (match r {
            Some(pair) => block_object(arn@) == Some((pair.0@, pair.1@)),
            None => block_object(arn@) is None,
        }),
{
    let len = arn.unicode_len();
    proof {
        reveal_strlit("/blockhash.");
    }
    let mut i: usize = len;
    while i > 0 && !(len - i >= 11 && text::same(arn.substring_char(i, i + 11), "/blockhash."))
        invariant
            i <= len,
            len == arn@.len(),
            "/blockhash."@.len() == 11,
            block_object_split(arn@, arn@.len() as int) == block_object_split(arn@, i as int),
        decreases i,
    {
        i = i - 1;
    }
    if len - i >= 11 && text::same(arn.substring_char(i, i + 11), "/blockhash.") {
        proof {
            assert(arn@.subrange(0, i as int) == arn@.take(i as int));
            assert(arn@.subrange(i + 11, len as int) == arn@.skip(i + 11));
        }
        Some(
            (
                text::owned(arn.substring_char(0, i)),
                text::owned(arn.substring_char(i + 11, len)),
            ),
        )
    } else {
        proof {
            assert(block_object_split(arn@, -1) is None);
        }
        None
    }
}

/// Whether a volume records per-chunk digests for an object of them.
pub open spec fn records_blocks<V: Volume>(volume: &V, arn: Seq<char>) -> bool {
    match block_object(arn) {
        None => false,
        Some((stream, suffix)) => if names_resource(stream) {
            match member_of(stream, volume.name(), NameMapping::Escaped) {
                None => false,
                Some(base) => block_segments(volume, base, suffix).len() > 0,
            }
        } else {
            false
        },
    }
}

/// The first volume from `i` on that records an object's per-chunk digests.
pub open spec fn recording_from<V: Volume>(parts: Seq<Part<V>>, arn: Seq<char>, i: int) -> Option<int>
    decreases parts.len() - i,
{
    if i >= parts.len() {
        None
    } else if records_blocks(&parts[i].volume, arn) {
        Some(i)
    } else {
        recording_from(parts, arn, i + 1)
    }
}

/// The volume that records an object's per-chunk digests, the primary where none
/// does.
pub open spec fn recorder_of<V: Volume>(parts: Seq<Part<V>>, arn: Seq<char>) -> int {
    match recording_from(parts, arn, 0) {
        Some(i) => i,
        None => 0,
    }
}

/// The volume that holds a stream's data, if one does.
pub fn holding<V: Volume>(parts: &Vec<Part<V>>, stream: &Arn) -> (r: Option<usize>)
    ensures
        (match r {
            Some(i) => i < parts@.len() && holding_from(parts@, stream@, 0) == Some(i as int),
            None => holding_from(parts@, stream@, 0) is None,
        }),
{
    let mut i: usize = 0;
    while i < parts.len()
        invariant
            i <= parts.len(),
            holding_from(parts@, stream@, 0) == holding_from(parts@, stream@, i as int),
        decreases parts.len() - i,
    {
        if volume_holds_stream_data(&parts[i].volume, stream) {
            return Some(i);
        }
        i = i + 1;
    }
    None
}

/// The volume that declares an object, if one does.
pub fn declaring<V: Volume>(parts: &Vec<Part<V>>, arn: &Arn) -> (r: Option<usize>)
    ensures
        (match r {
            Some(i) => i < parts@.len() && declaring_from(parts@, arn@, 0) == Some(i as int),
            None => declaring_from(parts@, arn@, 0) is None,
        }),
{
    let mut i: usize = 0;
    while i < parts.len()
        invariant
            i <= parts.len(),
            declaring_from(parts@, arn@, 0) == declaring_from(parts@, arn@, i as int),
        decreases parts.len() - i,
    {
        if parts[i].graph.object(
            arn.as_str(),
            "http://www.w3.org/1999/02/22-rdf-syntax-ns#type",
        ).is_some() {
            return Some(i);
        }
        i = i + 1;
    }
    None
}

/// Whether a volume records per-chunk digests for an object of them.
fn volume_records_blocks<V: Volume>(volume: &V, arn: &Arn) -> (r: bool)
    ensures
        r == records_blocks(volume, arn@),
{
    match split_block_object(arn.as_str()) {
        None => false,
        Some((stream_name, suffix)) => match Arn::parse(stream_name.as_str(), &Locus::new("")) {
            Err(_) => false,
            Ok(stream) => match stream.member_name(&volume.arn(), NameMapping::Escaped) {
                None => false,
                Some(base) => {
                    let names = block_hash_segments(volume, base.as_str(), suffix.as_str());
                    proof {
                        assert(text::texts(names@).len() == names@.len());
                    }
                    names.len() > 0
                },
            },
        },
    }
}

/// The volume that records an object's per-chunk digests, if one does.
pub fn holding_block_hashes<V: Volume>(parts: &Vec<Part<V>>, arn: &Arn) -> (r: Option<usize>)
    ensures
        (match r {
            Some(i) => i < parts@.len() && recording_from(parts@, arn@, 0) == Some(i as int),
            None => recording_from(parts@, arn@, 0) is None,
        }),
{
    let mut i: usize = 0;
    while i < parts.len()
        invariant
            i <= parts.len(),
            recording_from(parts@, arn@, 0) == recording_from(parts@, arn@, i as int),
        decreases parts.len() - i,
    {
        if volume_records_blocks(&parts[i].volume, arn) {
            return Some(i);
        }
        i = i + 1;
    }
    None
}

/// A stream's chunk that its bevy's index does not list.
pub open spec fn unlisted_chunk_text(chunk: nat, within: nat, bevy: nat, listed: nat) -> Seq<char> {
    "chunk "@ + text::decimal(chunk) + " is chunk "@ + text::decimal(within) + " of bevy "@
        + text::decimal(bevy) + (", whose index lists only "@ + text::decimal(listed)
        + " chunks; the stream's declared size and its stored chunks disagree"@)
}

/// A chunk that ends before the offset wanted.
pub open spec fn short_chunk_text(chunk: nat, len: nat, within: nat) -> Seq<char> {
    "chunk "@ + text::decimal(chunk) + " decompressed to "@ + text::decimal(len)
        + " bytes, which does not reach offset "@ + text::decimal(within)
        + " within the chunk; the stream is shorter than its metadata claims"@
}

/// A bevy's bytes and index entries, or why there are none.
pub open spec fn bevy_read<V: Volume>(s: StreamView, volume: &V, bevy: nat, place: LocusView) -> Result<
    (Seq<u8>, Seq<ChunkLocation>),
    ErrorView,
> {
    match bevy_member(s, volume.name(), bevy) {
        None => Err(malformed(place, elsewhere_text(s.arn, volume.name()))),
        Some(name) => match volume.outcome(name + INDEX_SUFFIX@) {
            Err(e) => Err(e),
            Ok(index) => match index_bounded(
                index,
                s.chunks_in_segment as nat,
                place.segment(name + INDEX_SUFFIX@),
            ) {
                Err(e) => Err(e),
                Ok(locations) => match volume.outcome(name) {
                    Err(e) => Err(e),
                    Ok(data) => Ok((data, locations)),
                },
            },
        },
    }
}

/// The plain bytes of a stream's chunk, cut at the stream's end, or why there are
/// none.
#[verifier::opaque]
pub open spec fn chunk_read<V: Volume>(s: StreamView, volume: &V, chunk: nat, place: LocusView) -> Result<
    Seq<u8>,
    ErrorView,
> {
    let bevy = chunk / s.chunks_in_segment as nat;
    let within = chunk % s.chunks_in_segment as nat;
    match bevy_read(s, volume, bevy, place) {
        Err(e) => Err(e),
        Ok((data, locations)) => if within >= locations.len() {
            Err(malformed(place, unlisted_chunk_text(chunk, within, bevy, locations.len())))
        } else {
            match chunk_of_bevy(
                s,
                data,
                locations[within as int],
                within,
                place.segment(text::zero_padded(text::decimal(bevy), 8)),
            ) {
                Err(e) => Err(e),
                Ok(plain) => Ok(trimmed(s, plain, chunk)),
            }
        },
    }
}

/// The bytes of a stream from `position` to `end`, or why there are none.
pub open spec fn span_read<V: Volume>(
    s: StreamView,
    volume: &V,
    position: nat,
    end: nat,
    place: LocusView,
) -> Result<Seq<u8>, ErrorView>
    decreases end - position,
{
    if position >= end {
        Ok(Seq::empty())
    } else {
        let chunk = position / s.chunk_size as nat;
        let within = position % s.chunk_size as nat;
        match chunk_read(s, volume, chunk, place) {
            Err(e) => Err(e),
            Ok(plain) => if within >= plain.len() {
                Err(
                    malformed(
                        place.byte_offset(position as u64),
                        short_chunk_text(chunk, plain.len(), within),
                    ),
                )
            } else {
                let take = if plain.len() - within < end - position {
                    (plain.len() - within) as nat
                } else {
                    (end - position) as nat
                };
                match span_read(s, volume, position + take, end, place) {
                    Err(e) => Err(e),
                    Ok(rest) => Ok(plain.subrange(within as int, within + take as int) + rest),
                }
            },
        }
    }
}

/// `length` bytes of a stream from `offset` on, or why there are none.
pub open spec fn region_read<V: Volume>(
    s: StreamView,
    volume: &V,
    offset: u64,
    length: u64,
    locus: LocusView,
) -> Result<Seq<u8>, ErrorView> {
    let place = locus.subject(s.arn);
    if offset + length > u64::MAX {
        Err(malformed(place, overflowing_region_text(offset as nat, length as nat)))
    } else if offset + length > s.size {
        Err(
            malformed(
                place.byte_offset(offset),
                long_region_text(offset as nat, (offset + length) as nat, s.arn, s.size as nat),
            ),
        )
    } else {
        span_read(s, volume, offset as nat, (offset + length) as nat, place)
    }
}

/// A bevy's bytes and index entries.
struct LoadedBevy {
    number: u64,
    data: Vec<u8>,
    locations: Vec<ChunkLocation>,
}

/// Read a bevy and its index.
fn load_bevy<V: Volume>(stream: &ImageStream, volume: &V, bevy: u64, place: &Locus) -> (r: Result<
    LoadedBevy,
    Error,
>)
    ensures
        (match r {
            Ok(b) => b.number == bevy && bevy_read(stream@, volume, bevy as nat, place@) == Ok::<
                (Seq<u8>, Seq<ChunkLocation>),
                ErrorView,
            >((b.data@, b.locations@)),
            Err(e) => bevy_read(stream@, volume, bevy as nat, place@) == Err::<
                (Seq<u8>, Seq<ChunkLocation>),
                ErrorView,
            >(e@),
        }),
{
    let volume_arn = volume.arn();
    let name = match stream.bevy_name(&volume_arn, bevy) {
        Some(name) => name,
        None => return Err(
            Error::malformed(
                place.clone(),
                text::cat5(
                    "stream ",
                    stream.arn.as_str(),
                    " names no member of volume ",
                    volume_arn.as_str(),
                    "; its data is stored elsewhere, which this build cannot follow",
                ),
            ),
        ),
    };
    let index_name = text::cat2(name.as_str(), INDEX_SUFFIX);
    let index = match volume.read_segment(index_name.as_str()) {
        Ok(data) => data,
        Err(e) => return Err(e),
    };
    let locations = match parse_index_bounded(
        index.as_slice(),
        stream.chunks_in_segment,
        &place.segment(index_name.as_str()),
    ) {
        Ok(list) => list,
        Err(e) => return Err(e),
    };
    match volume.read_segment(name.as_str()) {
        Ok(data) => Ok(LoadedBevy { number: bevy, data, locations }),
        Err(e) => Err(e),
    }
}

/// The plain bytes of one chunk of a bevy already read.
fn chunk_from<V: Volume>(
    stream: &ImageStream,
    volume: &V,
    loaded: &LoadedBevy,
    chunk: u64,
    place: &Locus,
) -> (r: Result<Vec<u8>, Error>)
    requires
        stream.chunk_size > 0,
        stream.chunks_in_segment > 0,
        chunk * stream.chunk_size <= u64::MAX,
        loaded.number == chunk / stream.chunks_in_segment as u64,
        bevy_read(stream@, volume, loaded.number as nat, place@) == Ok::<
            (Seq<u8>, Seq<ChunkLocation>),
            ErrorView,
        >((loaded.data@, loaded.locations@)),
    ensures
        (match r {
            Ok(plain) => chunk_read(stream@, volume, chunk as nat, place@) == Ok::<
                Seq<u8>,
                ErrorView,
            >(plain@),
            Err(e) => chunk_read(stream@, volume, chunk as nat, place@) == Err::<
                Seq<u8>,
                ErrorView,
            >(e@),
        }),
{
    proof {
        reveal(chunk_read);
    }
    let within: usize = (chunk % stream.chunks_in_segment as u64) as usize;
    if within >= loaded.locations.len() {
        return Err(
            Error::malformed(
                place.clone(),
                text::cat7(
                    "chunk ",
                    text::dec(chunk).as_str(),
                    " is chunk ",
                    text::dec_usize(within).as_str(),
                    " of bevy ",
                    text::dec(loaded.number).as_str(),
                    text::cat3(
                        ", whose index lists only ",
                        text::dec_usize(loaded.locations.len()).as_str(),
                        " chunks; the stream's declared size and its stored chunks disagree",
                    ).as_str(),
                ),
            ),
        );
    }
    let location = loaded.locations[within];
    let chunk_locus = place.segment(
        text::pad_zeros(text::dec(loaded.number).as_str(), 8).as_str(),
    ).byte_offset(location.offset);
    let stored = match slice_chunk(loaded.data.as_slice(), location, within, &chunk_locus) {
        Ok(s) => s,
        Err(e) => return Err(e),
    };
    let mut plain = match decompress_chunk(stream.codec, stored, stream.chunk_size, &chunk_locus) {
        Ok(p) => p,
        Err(e) => return Err(e),
    };
    let start: u64 = chunk * stream.chunk_size as u64;
    let remaining: u64 = stream.size.saturating_sub(start);
    if plain.len() as u64 > remaining {
        plain.truncate(remaining as usize);
    }
    Ok(plain)
}

/// The report that so many bytes of an image have been delivered.
pub open spec fn bytes_event(subject: Seq<char>, done: u64, total: u64) -> ProgressView {
    ProgressView::Bytes { arn: subject, done, total: Some(total) }
}

/// What is reported of slices delivered for an image of which `done` bytes have been
/// delivered before: after each of them, how many bytes there are.
pub open spec fn slice_events(
    slices: Seq<Seq<u8>>,
    subject: Seq<char>,
    done: u64,
    total: u64,
) -> Seq<ProgressView> {
    Seq::new(
        slices.len(),
        |i: int|
            bytes_event(
                subject,
                capped_sum(done as int, bytes::flattened(slices.take(i + 1)).len() as int),
                total,
            ),
    )
}

/// One more slice is reported behind the others.
proof fn slice_events_push(
    slices: Seq<Seq<u8>>,
    last: Seq<u8>,
    subject: Seq<char>,
    done: u64,
    total: u64,
)
    ensures
        slice_events(slices.push(last), subject, done, total) == slice_events(
            slices,
            subject,
            done,
            total,
        ).push(
            bytes_event(
                subject,
                capped_sum(done as int, bytes::flattened(slices.push(last)).len() as int),
                total,
            ),
        ),
{
    let more = slices.push(last);
    assert forall|n: int| 0 <= n <= slices.len() implies #[trigger] more.take(n) == slices.take(n) by {
        assert(more.take(n) =~= slices.take(n));
    }
    assert(more.take(slices.len() as int + 1) =~= more);
    assert(slice_events(more, subject, done, total) =~= slice_events(
        slices,
        subject,
        done,
        total,
    ).push(
        bytes_event(
            subject,
            capped_sum(done as int, bytes::flattened(more).len() as int),
            total,
        ),
    ));
}

/// Slices behind others are reported as of an image of which the others have been
/// delivered.
proof fn slice_events_join(
    a: Seq<Seq<u8>>,
    b: Seq<Seq<u8>>,
    subject: Seq<char>,
    done: u64,
    total: u64,
)
    ensures
        slice_events(a + b, subject, done, total) == slice_events(a, subject, done, total)
            + slice_events(
            b,
            subject,
            capped_sum(done as int, bytes::flattened(a).len() as int),
            total,
        ),
        bytes::flattened(a + b) == bytes::flattened(a) + bytes::flattened(b),
    decreases b.len(),
{
    if b.len() == 0 {
        assert(a + b =~= a);
        assert(bytes::flattened(a) + bytes::flattened(b) =~= bytes::flattened(a));
        assert(slice_events(a, subject, done, total) + slice_events(
            b,
            subject,
            capped_sum(done as int, bytes::flattened(a).len() as int),
            total,
        ) =~= slice_events(a, subject, done, total));
    } else {
        let front = b.drop_last();
        let last = b.last();
        let before = capped_sum(done as int, bytes::flattened(a).len() as int);
        slice_events_join(a, front, subject, done, total);
        assert((a + front).push(last) =~= a + b);
        assert(front.push(last) =~= b);
        slice_events_push(a + front, last, subject, done, total);
        slice_events_push(front, last, subject, before, total);
        bytes::flattened_push(a + front, last);
        bytes::flattened_push(front, last);
        assert(bytes::flattened(a + b) =~= bytes::flattened(a) + bytes::flattened(b));
        let x = slice_events(a, subject, done, total);
        let y = slice_events(front, subject, before, total);
        let event = bytes_event(
            subject,
            capped_sum(done as int, bytes::flattened(a + b).len() as int),
            total,
        );
        assert((x + y).push(event) =~= x + y.push(event));
    }
}

/// What is reported of slices is how far reading has come.
pub proof fn slice_events_are_of_reading(
    slices: Seq<Seq<u8>>,
    subject: Seq<char>,
    done: u64,
    total: u64,
)
    ensures
        of_reading(slice_events(slices, subject, done, total)),
{
}

/// The slices in which the bytes of a stream from `position` to `end` are delivered, one
/// for each chunk they lie in, up to what cannot be had.
pub open spec fn span_slices<V: Volume>(
    s: StreamView,
    volume: &V,
    position: nat,
    end: nat,
    place: LocusView,
) -> Seq<Seq<u8>>
    decreases end - position,
{
    if position >= end {
        Seq::empty()
    } else {
        let within = position % s.chunk_size as nat;
        match chunk_read(s, volume, position / s.chunk_size as nat, place) {
            Err(_) => Seq::empty(),
            Ok(plain) => if within >= plain.len() {
                Seq::empty()
            } else {
                let take = if plain.len() - within < end - position {
                    (plain.len() - within) as nat
                } else {
                    (end - position) as nat
                };
                seq![plain.subrange(within as int, within + take as int)] + span_slices(
                    s,
                    volume,
                    position + take,
                    end,
                    place,
                )
            },
        }
    }
}

/// The slices in which a region of a stream is delivered, up to what cannot be had.
pub open spec fn region_handed<V: Volume>(
    s: StreamView,
    volume: &V,
    offset: u64,
    length: u64,
    locus: LocusView,
) -> Seq<Seq<u8>> {
    if offset + length > s.size {
        Seq::empty()
    } else {
        span_slices(
            s,
            volume,
            offset as nat,
            (offset + length) as nat,
            locus.subject(s.arn),
        )
    }
}

/// Tell an observer how much of an image has been delivered.
fn tell_bytes<P: ProgressObserver>(subject: &Arn, done: u64, total: u64, progress: &mut P)
    ensures
        final(progress).log() == old(progress).log().push(bytes_event(subject@, done, total)),
{
    progress.on(Progress::Bytes { arn: subject, done, total: Some(total) });
}

/// Whether an observer was told of the slices that a sink took, and of nothing else, and
/// the count of bytes is that of all of them.
pub open spec fn slices_told<S: ByteSink>(
    before: S,
    after: S,
    subject: Seq<char>,
    done0: u64,
    done1: u64,
    total: u64,
    log0: Seq<ProgressView>,
    log1: Seq<ProgressView>,
) -> bool {
    let taken = taken_between(before, after);
    &&& log1 == log0 + slice_events(taken, subject, done0, total)
    &&& done1 == capped_sum(done0 as int, bytes::flattened(taken).len() as int)
}

/// Feed `length` bytes of a stream from `offset` on to a sink, telling an observer
/// after each slice how much of the image `subject` there is.
#[verifier::spinoff_prover]
#[verifier::rlimit(40)]
pub fn feed_region<V: Volume, S: ByteSink, P: ProgressObserver>(
    stream: &ImageStream,
    volume: &V,
    offset: u64,
    length: u64,
    sink: &mut S,
    subject: &Arn,
    done: &mut u64,
    total: u64,
    progress: &mut P,
    locus: &Locus,
) -> (r: Result<(), Error>)
    requires
        stream.chunk_size > 0,
        stream.chunks_in_segment > 0,
    ensures
        handed_over(
            region_read(stream@, volume, offset, length, locus@),
            region_handed(stream@, volume, offset, length, locus@),
            *old(sink),
            *final(sink),
            outcome_view(r),
        ),
        slices_told(
            *old(sink),
            *final(sink),
            subject@,
            *old(done),
            *final(done),
            total,
            old(progress).log(),
            final(progress).log(),
        ),
{
    let ghost mut pieces: Seq<Seq<u8>> = Seq::empty();
    proof {
        nothing_taken(*sink, subject@, *done, total, progress.log());
    }
    let place = locus.subject(stream.arn.as_str());
    let end: u64 = match offset.checked_add(length) {
        Some(end) => end,
        None => return Err(
            Error::malformed(
                place,
                text::cat5(
                    "a region at offset ",
                    text::dec(offset).as_str(),
                    " of length ",
                    text::dec(length).as_str(),
                    " overflows when added; the map entry naming it cannot be resolved",
                ),
            ),
        ),
    };
    if end > stream.size {
        return Err(
            Error::malformed(
                place.byte_offset(offset),
                text::cat7(
                    "a region covering bytes ",
                    text::cat3(text::dec(offset).as_str(), "..", text::dec(end).as_str()).as_str(),
                    " extends past stream ",
                    stream.arn.as_str(),
                    ", which declares ",
                    text::dec(stream.size).as_str(),
                    " bytes; reading it would either fail or silently return data from elsewhere",
                ),
            ),
        );
    }
    let mut slot: Option<LoadedBevy> = None;
    let mut position: u64 = offset;
    let ghost all = span_slices(stream@, volume, offset as nat, end as nat, place@);
    let ghost whole = span_read(stream@, volume, offset as nat, end as nat, place@);
    proof {
        assert(pieces + all =~= all);
        match whole {
            Ok(rest) => assert(bytes::flattened(pieces) + rest =~= rest),
            Err(_) => {},
        }
    }
    while position < end
        invariant
            offset <= position <= end,
            end == offset + length,
            end <= stream.size,
            place@ == locus@.subject(stream@.arn),
            stream.chunk_size > 0,
            stream.chunks_in_segment > 0,
            whole == span_read(stream@, volume, offset as nat, end as nat, place@),
            all == span_slices(stream@, volume, offset as nat, end as nat, place@),
            pieces + span_slices(stream@, volume, position as nat, end as nat, place@) == all,
            sink.slices() == old(sink).slices() + pieces,
            sink.received() == old(sink).received() + bytes::flattened(pieces),
            sink.refusal() == old(sink).refusal(),
            sink.fixed() == old(sink).fixed(),
            (match whole {
                Ok(content) => span_read(
                    stream@,
                    volume,
                    position as nat,
                    end as nat,
                    place@,
                ) matches Ok(rest) && content == bytes::flattened(pieces) + rest,
                Err(e) => span_read(stream@, volume, position as nat, end as nat, place@) == Err::<
                    Seq<u8>,
                    ErrorView,
                >(e),
            }),
            slot_serves(slot, stream@, volume, place@),
            progress.log() == old(progress).log() + slice_events(
                pieces,
                subject@,
                *old(done),
                total,
            ),
            *done == capped_sum(*old(done) as int, bytes::flattened(pieces).len() as int),
        decreases end - position,
    {
        proof {
            assert(taken_between(*old(sink), *sink) =~= pieces);
        }
        let (piece, loaded) = match next_piece(stream, volume, slot, position, end, &place) {
            Ok(pair) => pair,
            Err(e) => {
                proof {
                    assert(pieces + Seq::<Seq<u8>>::empty() =~= pieces);
                }
                return Err(e);
            },
        };
        slot = Some(loaded);
        let ghost rest = span_slices(
            stream@,
            volume,
            (position + piece@.len()) as nat,
            end as nat,
            place@,
        );
        match sink.accept(piece.as_slice()) {
            Ok(()) => {},
            Err(e) => {
                proof {
                    assert(taken_between(*old(sink), *sink) =~= pieces);
                    assert(all.take(pieces.len() as int) =~= pieces);
                }
                return Err(e);
            },
        }
        position = position + piece.len() as u64;
        *done = done.saturating_add(piece.len() as u64);
        tell_bytes(subject, *done, total, progress);
        proof {
            let got = bytes::flattened(pieces);
            bytes::flattened_push(pieces, piece@);
            slice_events_push(pieces, piece@, subject@, *old(done), total);
            assert(pieces + (seq![piece@] + rest) =~= pieces.push(piece@) + rest);
            assert((old(sink).slices() + pieces).push(piece@) =~= old(sink).slices()
                + pieces.push(piece@));
            assert(old(sink).received() + got + piece@ =~= old(sink).received() + (got + piece@));
            match span_read(stream@, volume, position as nat, end as nat, place@) {
                Ok(after) => assert(got + (piece@ + after) =~= (got + piece@) + after),
                Err(_) => {},
            }
            assert(progress.log() =~= old(progress).log() + slice_events(
                pieces.push(piece@),
                subject@,
                *old(done),
                total,
            ));
            pieces = pieces.push(piece@);
        }
    }
    proof {
        assert(taken_between(*old(sink), *sink) =~= pieces);
        assert(bytes::flattened(pieces) + Seq::<u8>::empty() =~= bytes::flattened(pieces));
        assert(pieces + Seq::<Seq<u8>>::empty() =~= pieces);
    }
    Ok(())
}

/// Where a sink has taken nothing, nothing is told and nothing counted.
proof fn nothing_taken<S: ByteSink>(
    sink: S,
    subject: Seq<char>,
    done: u64,
    total: u64,
    log: Seq<ProgressView>,
)
    ensures
        slices_told(sink, sink, subject, done, done, total, log, log),
        sink.slices() == sink.slices() + Seq::<Seq<u8>>::empty(),
        sink.received() == sink.received() + bytes::flattened(Seq::empty()),
        slice_events(Seq::empty(), subject, done, total) == Seq::<ProgressView>::empty(),
        log == log + Seq::<ProgressView>::empty(),
{
    assert(taken_between(sink, sink) =~= Seq::<Seq<u8>>::empty());
    assert(slice_events(Seq::empty(), subject, done, total) =~= Seq::<ProgressView>::empty());
    assert(log + Seq::<ProgressView>::empty() =~= log);
    assert(sink.slices() + Seq::<Seq<u8>>::empty() =~= sink.slices());
    assert(sink.received() + Seq::<u8>::empty() =~= sink.received());
}

/// Whether a kept bevy is what the volume holds.
spec fn slot_serves<V: Volume>(
    slot: Option<LoadedBevy>,
    s: StreamView,
    volume: &V,
    place: LocusView,
) -> bool {
    slot matches Some(b) ==> bevy_read(s, volume, b.number as nat, place) == Ok::<
        (Seq<u8>, Seq<ChunkLocation>),
        ErrorView,
    >((b.data@, b.locations@))
}

/// The bytes from `position` on that one chunk holds, up to `end`, and the bevy
/// they come from.
fn next_piece<V: Volume>(
    stream: &ImageStream,
    volume: &V,
    slot: Option<LoadedBevy>,
    position: u64,
    end: u64,
    place: &Locus,
) -> (r: Result<(Vec<u8>, LoadedBevy), Error>)
    requires
        position < end,
        stream.chunk_size > 0,
        stream.chunks_in_segment > 0,
        slot_serves(slot, stream@, volume, place@),
    ensures
        (match r {
            Ok((piece, loaded)) => {
                &&& 0 < piece@.len() <= end - position
                &&& slot_serves(Some(loaded), stream@, volume, place@)
                &&& span_read(stream@, volume, position as nat, end as nat, place@) == (
                match span_read(
                    stream@,
                    volume,
                    (position + piece@.len()) as nat,
                    end as nat,
                    place@,
                ) {
                    Ok(rest) => Ok::<Seq<u8>, ErrorView>(piece@ + rest),
                    Err(e) => Err::<Seq<u8>, ErrorView>(e),
                })
                &&& span_slices(stream@, volume, position as nat, end as nat, place@) == seq![
                    piece@,
                ] + span_slices(
                    stream@,
                    volume,
                    (position + piece@.len()) as nat,
                    end as nat,
                    place@,
                )
            },
            Err(e) => {
                &&& span_read(stream@, volume, position as nat, end as nat, place@) == Err::<
                    Seq<u8>,
                    ErrorView,
                >(e@)
                &&& span_slices(stream@, volume, position as nat, end as nat, place@) == Seq::<
                    Seq<u8>,
                >::empty()
            },
        }),
{
    let chunk_size: u64 = stream.chunk_size as u64;
    let chunk: u64 = position / chunk_size;
    let within: usize = (position % chunk_size) as usize;
    let bevy: u64 = chunk / stream.chunks_in_segment as u64;
    proof {
        assert(chunk * chunk_size <= position) by (nonlinear_arith)
            requires
                chunk == position / chunk_size,
                chunk_size > 0,
        ;
    }
    let kept: Option<LoadedBevy> = match slot {
        Some(b) => if b.number == bevy {
            Some(b)
        } else {
            None
        },
        None => None,
    };
    let loaded = match kept {
        Some(b) => b,
        None => match load_bevy(stream, volume, bevy, place) {
            Ok(b) => b,
            Err(e) => {
                proof {
                    reveal(chunk_read);
                }
                return Err(e);
            },
        },
    };
    let plain = match chunk_from(stream, volume, &loaded, chunk, place) {
        Ok(plain) => plain,
        Err(e) => return Err(e),
    };
    if within >= plain.len() {
        return Err(
            Error::malformed(
                place.byte_offset(position),
                text::cat7(
                    "chunk ",
                    text::dec(chunk).as_str(),
                    " decompressed to ",
                    text::dec_usize(plain.len()).as_str(),
                    " bytes, which does not reach offset ",
                    text::dec_usize(within).as_str(),
                    " within the chunk; the stream is shorter than its metadata claims",
                ),
            ),
        );
    }
    let available: usize = plain.len() - within;
    let take: usize = if available as u64 > end - position {
        (end - position) as usize
    } else {
        available
    };
    Ok((bytes::copied_range(plain.as_slice(), within, within + take), loaded))
}

/// The bytes of a run that repeats a pattern.
pub open spec fn described_bytes(pattern: Seq<u8>, offset: nat, length: nat) -> Seq<u8> {
    Seq::new(length, |i: int| pattern[(offset + i) % pattern.len() as int])
}

/// What is said of a described run without a pattern.
pub open spec fn no_pattern_text(offset: nat) -> Seq<char> {
    "the described region at offset "@ + text::decimal(offset) + " names no content"@
}

/// The first stream of a name, if there is one.
pub open spec fn stream_named(streams: Seq<StreamView>, arn: Seq<char>) -> Option<StreamView>
    decreases streams.len(),
{
    if streams.len() == 0 {
        None
    } else if streams[0].arn == arn {
        Some(streams[0])
    } else {
        stream_named(streams.skip(1), arn)
    }
}

/// What is said of a run on a stream that the image does not hold.
pub open spec fn foreign_stream_text(arn: Seq<char>) -> Seq<char> {
    "the map draws on stream "@ + arn + ", which the container does not describe"@
}

/// The bytes of one run, or why there are none.
pub open spec fn run_content<V: Volume>(
    run: RunView,
    streams: Seq<StreamView>,
    parts: Seq<Part<V>>,
    locus: LocusView,
) -> Result<Seq<u8>, ErrorView> {
    match run {
        RunView::Stored { stream, target_offset, length } => match stream_named(streams, stream) {
            None => Err(malformed(locus.subject(stream), foreign_stream_text(stream))),
            Some(s) => region_read(
                s,
                &parts[home_of(parts, stream)].volume,
                target_offset,
                length,
                locus,
            ),
        },
        RunView::Described { kind: _, pattern, offset, length } => if pattern.len() == 0 {
            Err(malformed(locus, no_pattern_text(offset as nat)))
        } else {
            Ok(described_bytes(pattern, offset as nat, length as nat))
        },
    }
}

/// The accounting after one more run has been read.
pub open spec fn counted(a: ReadAccountingView, run: RunView) -> ReadAccountingView {
    match run {
        RunView::Stored { stream: _, target_offset: _, length } => ReadAccountingView {
            stored: capped_sum(a.stored as int, length as int),
            ..a
        },
        RunView::Described { kind, pattern: _, offset: _, length } => match kind {
            DescribedKind::Described => ReadAccountingView {
                described: capped_sum(a.described as int, length as int),
                ..a
            },
            DescribedKind::Unknown => ReadAccountingView {
                unknown_placeholder: capped_sum(a.unknown_placeholder as int, length as int),
                ..a
            },
            DescribedKind::Gap => ReadAccountingView {
                gap_filled: capped_sum(a.gap_filled as int, length as int),
                ..a
            },
        },
    }
}

/// The bytes of the first `n` runs of an image and what they are made of, or why
/// there are none.
pub open spec fn after_runs<V: Volume>(
    image: ImageView,
    parts: Seq<Part<V>>,
    locus: LocusView,
    n: nat,
) -> Result<(Seq<u8>, ReadAccountingView), ErrorView>
    decreases n,
{
    if n == 0 {
        Ok(
            (
                Seq::empty(),
                ReadAccountingView {
                    stored: 0,
                    described: 0,
                    unknown_placeholder: 0,
                    gap_filled: 0,
                    gap_fill: image.composition.gap_fill,
                },
            ),
        )
    } else {
        match after_runs(image, parts, locus, (n - 1) as nat) {
            Err(e) => Err(e),
            Ok((data, counts)) => match run_content(
                image.runs[n - 1],
                image.streams,
                parts,
                locus,
            ) {
                Err(e) => Err(e),
                Ok(more) => Ok((data + more, counted(counts, image.runs[n - 1]))),
            },
        }
    }
}

/// Every byte of an image and what they are made of, or why there are none.
pub open spec fn image_content<V: Volume>(
    image: ImageView,
    parts: Seq<Part<V>>,
    locus: LocusView,
) -> Result<(Seq<u8>, ReadAccountingView), ErrorView> {
    after_runs(image, parts, locus, image.runs.len())
}

/// A run that cannot be read fails the image the same way.
proof fn after_runs_fails<V: Volume>(
    image: ImageView,
    parts: Seq<Part<V>>,
    locus: LocusView,
    m: nat,
    n: nat,
)
    requires
        m <= n,
        after_runs(image, parts, locus, m) is Err,
    ensures
        after_runs(image, parts, locus, n) == after_runs(image, parts, locus, m),
    decreases n,
{
    if m < n {
        after_runs_fails(image, parts, locus, m, (n - 1) as nat);
    }
}

/// Count one more run.
pub fn count_run(a: ReadAccounting, run: &ImageRun) -> (r: ReadAccounting)
    ensures
        r@ == counted(a@, run@),
{
    let mut out = a;
    match run {
        ImageRun::Stored { stream: _, target_offset: _, length } => {
            out.stored = out.stored.saturating_add(*length);
        },
        ImageRun::Described { kind, pattern: _, offset: _, length } => match kind {
            DescribedKind::Described => {
                out.described = out.described.saturating_add(*length);
            },
            DescribedKind::Unknown => {
                out.unknown_placeholder = out.unknown_placeholder.saturating_add(*length);
            },
            DescribedKind::Gap => {
                out.gap_filled = out.gap_filled.saturating_add(*length);
            },
        },
    }
    out
}

/// The longest piece in which a run that repeats a pattern is produced.
pub const DESCRIBED_PIECE: u64 = 65536;

/// `length` bytes of a run that repeats a pattern, from `from` on.
fn described_piece(pattern: &Vec<u8>, offset: u64, from: u64, length: u64) -> (r: Vec<u8>)
    requires
        pattern.len() > 0,
        from + length <= u64::MAX,
    ensures
        r@ == described_bytes(pattern@, (offset + from) as nat, length as nat),
{
    let len: usize = pattern.len();
    let width: u128 = len as u128;
    let mut out: Vec<u8> = Vec::new();
    let mut i: u64 = 0;
    proof {
        assert(described_bytes(pattern@, (offset + from) as nat, 0) =~= Seq::<u8>::empty());
    }
    while i < length
        invariant
            i <= length,
            len == pattern@.len(),
            width == len,
            width > 0,
            out@ == described_bytes(pattern@, (offset + from) as nat, i as nat),
        decreases length - i,
    {
        let sum: u128 = offset as u128 + from as u128 + i as u128;
        proof {
            assert(0 <= sum % width < width) by (nonlinear_arith)
                requires
                    width > 0,
            ;
        }
        let at: usize = (sum % width) as usize;
        let b: u8 = pattern[at];
        proof {
            let shorter = described_bytes(pattern@, (offset + from) as nat, i as nat);
            let longer = described_bytes(pattern@, (offset + from) as nat, (i + 1) as nat);
            assert(longer =~= shorter.push(b));
        }
        out.push(b);
        i = i + 1;
    }
    out
}

/// The slices in which `length` bytes of a run that repeats a pattern are delivered.
pub open spec fn described_slices(pattern: Seq<u8>, offset: nat, length: nat) -> Seq<Seq<u8>>
    decreases length,
{
    if length == 0 {
        Seq::empty()
    } else if length <= DESCRIBED_PIECE {
        seq![described_bytes(pattern, offset, length)]
    } else {
        seq![described_bytes(pattern, offset, DESCRIBED_PIECE as nat)] + described_slices(
            pattern,
            offset + DESCRIBED_PIECE as nat,
            (length - DESCRIBED_PIECE) as nat,
        )
    }
}

/// Feed the bytes of a run that repeats a pattern to a sink, piece by piece, telling an
/// observer after each how much of the image `subject` there is.
#[verifier::spinoff_prover]
#[verifier::rlimit(40)]
pub fn feed_described<S: ByteSink, P: ProgressObserver>(
    pattern: &Vec<u8>,
    offset: u64,
    length: u64,
    sink: &mut S,
    subject: &Arn,
    done: &mut u64,
    total: u64,
    progress: &mut P,
) -> (r: Result<(), Error>)
    requires
        pattern.len() > 0,
    ensures
        handed_over(
            Ok(described_bytes(pattern@, offset as nat, length as nat)),
            described_slices(pattern@, offset as nat, length as nat),
            *old(sink),
            *final(sink),
            outcome_view(r),
        ),
        slices_told(
            *old(sink),
            *final(sink),
            subject@,
            *old(done),
            *final(done),
            total,
            old(progress).log(),
            final(progress).log(),
        ),
{
    let mut i: u64 = 0;
    let ghost mut pieces: Seq<Seq<u8>> = Seq::empty();
    let ghost all = described_slices(pattern@, offset as nat, length as nat);
    proof {
        nothing_taken(*sink, subject@, *done, total, progress.log());
        assert(described_bytes(pattern@, offset as nat, 0) =~= Seq::<u8>::empty());
        assert(pieces + all =~= all);
    }
    while i < length
        invariant
            i <= length,
            pattern.len() > 0,
            all == described_slices(pattern@, offset as nat, length as nat),
            pieces + described_slices(
                pattern@,
                (offset + i) as nat,
                (length - i) as nat,
            ) == all,
            bytes::flattened(pieces) == described_bytes(pattern@, offset as nat, i as nat),
            sink.slices() == old(sink).slices() + pieces,
            sink.received() == old(sink).received() + bytes::flattened(pieces),
            sink.refusal() == old(sink).refusal(),
            sink.fixed() == old(sink).fixed(),
            progress.log() == old(progress).log() + slice_events(
                pieces,
                subject@,
                *old(done),
                total,
            ),
            *done == capped_sum(*old(done) as int, bytes::flattened(pieces).len() as int),
        decreases length - i,
    {
        let left: u64 = length - i;
        let take: u64 = if left < DESCRIBED_PIECE {
            left
        } else {
            DESCRIBED_PIECE
        };
        let piece = described_piece(pattern, offset, i, take);
        let ghost rest = described_slices(
            pattern@,
            (offset + i + take) as nat,
            (length - i - take) as nat,
        );
        proof {
            assert(described_slices(pattern@, (offset + i) as nat, left as nat) =~= seq![piece@]
                + rest);
        }
        match sink.accept(piece.as_slice()) {
            Ok(()) => {},
            Err(e) => {
                proof {
                    assert(taken_between(*old(sink), *sink) =~= pieces);
                    assert(all.take(pieces.len() as int) =~= pieces);
                }
                return Err(e);
            },
        }
        *done = done.saturating_add(take);
        tell_bytes(subject, *done, total, progress);
        proof {
            let got = bytes::flattened(pieces);
            bytes::flattened_push(pieces, piece@);
            slice_events_push(pieces, piece@, subject@, *old(done), total);
            assert(pieces + (seq![piece@] + rest) =~= pieces.push(piece@) + rest);
            assert(described_bytes(pattern@, offset as nat, (i + take) as nat) =~= got + piece@);
            assert((old(sink).slices() + pieces).push(piece@) =~= old(sink).slices()
                + pieces.push(piece@));
            assert(old(sink).received() + got + piece@ =~= old(sink).received() + (got + piece@));
            assert(progress.log() =~= old(progress).log() + slice_events(
                pieces.push(piece@),
                subject@,
                *old(done),
                total,
            ));
            pieces = pieces.push(piece@);
        }
        i = i + take;
    }
    proof {
        assert(taken_between(*old(sink), *sink) =~= pieces);
        assert(pieces + Seq::<Seq<u8>>::empty() =~= pieces);
    }
    Ok(())
}

/// Whether every stream of an image has chunks and bevies of some length.
pub open spec fn streams_ok(streams: Seq<StreamView>) -> bool {
    forall|i: int|
        0 <= i < streams.len() ==> (#[trigger] streams[i]).chunk_size > 0
            && streams[i].chunks_in_segment > 0
}

/// The first stream of a name, if there is one.
pub fn find_stream<'a>(streams: &'a Vec<ImageStream>, arn: &Arn) -> (r: Option<&'a ImageStream>)
    ensures
        (match r {
            Some(s) => stream_named(stream_views(streams@), arn@) == Some(s@),
            None => stream_named(stream_views(streams@), arn@) is None,
        }),
        streams_ok(stream_views(streams@)) ==> (r matches Some(s) ==> s.chunk_size > 0
            && s.chunks_in_segment > 0),
{
    let ghost all = stream_views(streams@);
    let mut i: usize = 0;
    proof {
        assert(all.skip(0) == all);
    }
    while i < streams.len()
        invariant
            i <= streams.len(),
            all == stream_views(streams@),
            stream_named(all, arn@) == stream_named(all.skip(i as int), arn@),
        decreases streams.len() - i,
    {
        proof {
            assert(all.skip(i as int)[0] == streams@[i as int]@);
            assert(all.skip(i as int).skip(1) == all.skip(i + 1));
            assert(all[i as int] == streams@[i as int]@);
        }
        if text::same(streams[i].arn.as_str(), arn.as_str()) {
            return Some(&streams[i]);
        }
        i = i + 1;
    }
    None
}

/// The slices in which a run is delivered, up to what cannot be had.
pub open spec fn run_slices<V: Volume>(
    run: RunView,
    streams: Seq<StreamView>,
    parts: Seq<Part<V>>,
    locus: LocusView,
) -> Seq<Seq<u8>> {
    match run {
        RunView::Stored { stream, target_offset, length } => match stream_named(streams, stream) {
            None => Seq::empty(),
            Some(s) => region_handed(
                s,
                &parts[home_of(parts, stream)].volume,
                target_offset,
                length,
                locus,
            ),
        },
        RunView::Described { kind: _, pattern, offset, length } => if pattern.len() == 0 {
            Seq::empty()
        } else {
            described_slices(pattern, offset as nat, length as nat)
        },
    }
}

/// How many bytes a run has.
pub open spec fn run_length(run: RunView) -> u64 {
    match run {
        RunView::Stored { stream: _, target_offset: _, length } => length,
        RunView::Described { kind: _, pattern: _, offset: _, length } => length,
    }
}

/// The slices in which the first `n` runs of an image are delivered, up to what cannot
/// be had.
pub open spec fn runs_slices<V: Volume>(
    image: ImageView,
    parts: Seq<Part<V>>,
    locus: LocusView,
    n: nat,
) -> Seq<Seq<u8>>
    decreases n,
{
    if n == 0 {
        Seq::empty()
    } else {
        let earlier = runs_slices(image, parts, locus, (n - 1) as nat);
        match after_runs(image, parts, locus, (n - 1) as nat) {
            Err(_) => earlier,
            Ok(_) => earlier + run_slices(image.runs[n - 1], image.streams, parts, locus),
        }
    }
}

/// Feed the bytes of one run to a sink, telling an observer after each slice how much
/// of the image `subject` there is.
pub(crate) fn feed_run<V: Volume, S: ByteSink, P: ProgressObserver>(
    run: &ImageRun,
    streams: &Vec<ImageStream>,
    parts: &Vec<Part<V>>,
    sink: &mut S,
    subject: &Arn,
    done: &mut u64,
    total: u64,
    progress: &mut P,
    locus: &Locus,
) -> (r: Result<(), Error>)
    requires
        streams_ok(stream_views(streams@)),
        parts@.len() > 0,
    ensures
        handed_over(
            run_content(run@, stream_views(streams@), parts@, locus@),
            run_slices(run@, stream_views(streams@), parts@, locus@),
            *old(sink),
            *final(sink),
            outcome_view(r),
        ),
        slices_told(
            *old(sink),
            *final(sink),
            subject@,
            *old(done),
            *final(done),
            total,
            old(progress).log(),
            final(progress).log(),
        ),
{
    proof {
        nothing_taken(*sink, subject@, *done, total, progress.log());
    }
    match run {
        ImageRun::Stored { stream, target_offset, length } => match find_stream(streams, stream) {
            None => Err(
                Error::malformed(
                    locus.subject(stream.as_str()),
                    text::cat3(
                        "the map draws on stream ",
                        stream.as_str(),
                        ", which the container does not describe",
                    ),
                ),
            ),
            Some(s) => {
                let home: usize = match holding(parts, stream) {
                    Some(i) => i,
                    None => 0,
                };
                feed_region(
                    s,
                    &parts[home].volume,
                    *target_offset,
                    *length,
                    sink,
                    subject,
                    done,
                    total,
                    progress,
                    locus,
                )
            },
        },
        ImageRun::Described { kind: _, pattern, offset, length } => {
            if pattern.len() == 0 {
                return Err(
                    Error::malformed(
                        locus.clone(),
                        text::cat3(
                            "the described region at offset ",
                            text::dec(*offset).as_str(),
                            " names no content",
                        ),
                    ),
                );
            }
            feed_described(
                pattern,
                *offset,
                *length,
                sink,
                subject,
                done,
                total,
                progress,
            )
        },
    }
}

/// Whether the runs of an image say what a run is made of: a stream that the image
/// describes and that the volume it is read from names as a member of its own, or a
/// pattern.
pub open spec fn run_described<V: Volume>(
    run: RunView,
    streams: Seq<StreamView>,
    parts: Seq<Part<V>>,
) -> bool {
    match run {
        RunView::Stored { stream, target_offset: _, length: _ } => stream_named(
            streams,
            stream,
        ) is Some && member_of(
            stream,
            parts[home_of(parts, stream)].volume.name(),
            NameMapping::Escaped,
        ) is Some,
        RunView::Described { kind: _, pattern, offset: _, length: _ } => pattern.len() > 0,
    }
}

/// The first of the first `n` runs that cannot be read, or `n`.
pub open spec fn first_unread<V: Volume>(
    image: ImageView,
    parts: Seq<Part<V>>,
    locus: LocusView,
    n: nat,
) -> nat
    decreases n,
{
    if n == 0 {
        0
    } else if first_unread(image, parts, locus, (n - 1) as nat) < n - 1 {
        first_unread(image, parts, locus, (n - 1) as nat)
    } else if run_content(image.runs[n - 1], image.streams, parts, locus) is Err {
        (n - 1) as nat
    } else {
        n
    }
}

/// A run that cannot be read settles what is first unread and what is delivered.
proof fn unread_settles<V: Volume>(
    image: ImageView,
    parts: Seq<Part<V>>,
    locus: LocusView,
    m: nat,
    n: nat,
)
    requires
        m < n,
        first_unread(image, parts, locus, m) == m,
        after_runs(image, parts, locus, m) is Ok,
        run_content(image.runs[m as int], image.streams, parts, locus) is Err,
    ensures
        first_unread(image, parts, locus, n) == m,
        after_runs(image, parts, locus, n) is Err,
        runs_slices(image, parts, locus, n) == runs_slices(image, parts, locus, m + 1),
    decreases n,
{
    if m + 1 < n {
        unread_settles(image, parts, locus, m, (n - 1) as nat);
    }
}

/// What is delivered of the first runs comes first of what is of more of them.
proof fn runs_come_first<V: Volume>(
    image: ImageView,
    parts: Seq<Part<V>>,
    locus: LocusView,
    m: nat,
    n: nat,
)
    requires
        m <= n,
    ensures
        runs_slices(image, parts, locus, m).is_prefix_of(runs_slices(image, parts, locus, n)),
    decreases n,
{
    if m < n {
        runs_come_first(image, parts, locus, m, (n - 1) as nat);
    }
}

/// Whether a run is described well enough to be read.
fn is_described<V: Volume>(run: &ImageRun, streams: &Vec<ImageStream>, parts: &Vec<Part<V>>) -> (r:
    bool)
    requires
        parts@.len() > 0,
    ensures
        r == run_described(run@, stream_views(streams@), parts@),
{
    match run {
        ImageRun::Stored { stream, target_offset: _, length: _ } => {
            let home: usize = match holding(parts, stream) {
                Some(i) => i,
                None => 0,
            };
            find_stream(streams, stream).is_some() && stream.member_name(
                &parts[home].volume.arn(),
                NameMapping::Escaped,
            ).is_some()
        },
        ImageRun::Described { kind: _, pattern, offset: _, length: _ } => pattern.len() > 0,
    }
}

/// Whether an image that cannot be read is one that is not described well enough, and
/// not one whose bytes are damaged: what its first unreadable run is made of is not
/// said.
pub open spec fn undescribed<V: Volume>(
    image: ImageView,
    parts: Seq<Part<V>>,
    locus: LocusView,
) -> bool {
    !run_described(
        image.runs[first_unread(image, parts, locus, image.runs.len()) as int],
        image.streams,
        parts,
    )
}

/// Why an image could not be read into a sink.
#[derive(Debug)]
pub struct ReadFailure {
    /// What went wrong.
    pub error: Error,
    /// Whether it is the description that falls short.
    pub undescribed: bool,
}

/// What a traversal of an image came to.
pub open spec fn failure_outcome<T>(r: Result<T, ReadFailure>) -> Result<(), ErrorView> {
    match r {
        Ok(_) => Ok(()),
        Err(f) => Err(f.error@),
    }
}

/// The bytes of an image, or why there are none.
pub open spec fn image_bytes<V: Volume>(
    image: ImageView,
    parts: Seq<Part<V>>,
    locus: LocusView,
) -> Result<Seq<u8>, ErrorView> {
    match image_content(image, parts, locus) {
        Ok((data, _)) => Ok(data),
        Err(e) => Err(e),
    }
}

impl Image {
    /// Feed every byte of the image to a sink and say what they are made of, telling
    /// an observer after each slice how much of `subject` has been delivered.
    #[verifier::spinoff_prover]
    #[verifier::rlimit(40)]
    pub fn read_from_set<V: Volume, S: ByteSink, P: ProgressObserver>(
        &self,
        subject: &Arn,
        parts: &Vec<Part<V>>,
        sink: &mut S,
        progress: &mut P,
        locus: &Locus,
    ) -> (r: Result<ReadAccounting, ReadFailure>)
        requires
            streams_ok(self@.streams),
            parts@.len() > 0,
        ensures
            handed_over(
                image_bytes(self@, parts@, locus@),
                runs_slices(self@, parts@, locus@, self@.runs.len()),
                *old(sink),
                *final(sink),
                failure_outcome(r),
            ),
            (match r {
                Ok(counts) => image_content(self@, parts@, locus@)->Ok_0.1 == counts@,
                Err(f) => was_refused(
                    runs_slices(self@, parts@, locus@, self@.runs.len()),
                    *old(sink),
                    *final(sink),
                    f.error@,
                ) || f.undescribed == undescribed(self@, parts@, locus@),
            }),
            final(progress).log() == old(progress).log() + slice_events(
                taken_between(*old(sink), *final(sink)),
                subject@,
                0,
                self.size,
            ),
    {
        let mut counts = ReadAccounting {
            stored: 0,
            described: 0,
            unknown_placeholder: 0,
            gap_filled: 0,
            gap_fill: copied_text(&self.composition.gap_fill),
        };
        let mut done: u64 = 0;
        let ghost mut pieces: Seq<Seq<u8>> = Seq::empty();
        let ghost all = runs_slices(self@, parts@, locus@, self@.runs.len());
        let mut i: usize = 0;
        proof {
            nothing_taken(*sink, subject@, 0, self.size, progress.log());
        }
        while i < self.runs.len()
            invariant
                i <= self.runs.len(),
                streams_ok(self@.streams),
                parts@.len() > 0,
                all == runs_slices(self@, parts@, locus@, self@.runs.len()),
                pieces == runs_slices(self@, parts@, locus@, i as nat),
                after_runs(self@, parts@, locus@, i as nat) == Ok::<
                    (Seq<u8>, ReadAccountingView),
                    ErrorView,
                >((bytes::flattened(pieces), counts@)),
                first_unread(self@, parts@, locus@, i as nat) == i,
                sink.slices() == old(sink).slices() + pieces,
                sink.received() == old(sink).received() + bytes::flattened(pieces),
                sink.refusal() == old(sink).refusal(),
                sink.fixed() == old(sink).fixed(),
                progress.log() == old(progress).log() + slice_events(
                    pieces,
                    subject@,
                    0,
                    self.size,
                ),
                done == capped_sum(0, bytes::flattened(pieces).len() as int),
            decreases self.runs.len() - i,
        {
            let ghost before = *sink;
            let ghost log1 = progress.log();
            let ghost done1 = done;
            let ghost run = self@.runs[i as int];
            let ghost content = run_content(run, self@.streams, parts@, locus@);
            let ghost slices = run_slices(run, self@.streams, parts@, locus@);
            proof {
                assert(self@.runs[i as int] == self.runs@[i as int]@);
                assert(runs_slices(self@, parts@, locus@, (i + 1) as nat) == pieces + slices);
                runs_come_first(self@, parts@, locus@, (i + 1) as nat, self@.runs.len());
                if content is Err {
                    after_runs_fails(self@, parts@, locus@, (i + 1) as nat, self@.runs.len());
                    unread_settles(self@, parts@, locus@, i as nat, self@.runs.len());
                }
            }
            let fed = feed_run(
                &self.runs[i],
                &self.streams,
                parts,
                sink,
                subject,
                &mut done,
                self.size,
                progress,
                locus,
            );
            let ghost taken = taken_between(before, *sink);
            proof {
                slice_events_join(pieces, taken, subject@, 0, self.size);
                let told = slice_events(taken, subject@, done1, self.size);
                let earlier = slice_events(pieces, subject@, 0, self.size);
                assert((old(progress).log() + earlier) + told =~= old(progress).log() + (earlier
                    + told));
                assert(sink.slices() =~= before.slices() + taken);
                assert(taken_between(*old(sink), *sink) =~= pieces + taken);
                assert((old(sink).slices() + pieces) + taken =~= old(sink).slices() + (pieces
                    + taken));
                assert((old(sink).received() + bytes::flattened(pieces)) + bytes::flattened(taken)
                    =~= old(sink).received() + (bytes::flattened(pieces) + bytes::flattened(
                    taken,
                )));
            }
            match fed {
                Ok(()) => {},
                Err(e) => {
                    let described = is_described(&self.runs[i], &self.streams, parts);
                    proof {
                        if was_refused(slices, before, *sink, e@) {
                            assert(all.take((pieces + taken).len() as int) =~= pieces + taken) by {
                                let longer = pieces + slices;
                                assert forall|k: int| 0 <= k < (pieces + taken).len() implies all[k]
                                    == (pieces + taken)[k] by {
                                    assert(longer[k] == all[k]);
                                    if k >= pieces.len() {
                                        assert(taken[k - pieces.len()] == slices[k - pieces.len()]);
                                    }
                                }
                            }
                            assert(was_refused(all, *old(sink), *sink, e@));
                        } else {
                            assert(taken =~= slices);
                        }
                    }
                    return Err(ReadFailure { error: e, undescribed: !described });
                },
            }
            proof {
                assert(taken =~= slices);
                pieces = pieces + slices;
            }
            counts = count_run(counts, &self.runs[i]);
            i = i + 1;
        }
        proof {
            assert(taken_between(*old(sink), *sink) =~= pieces);
        }
        Ok(counts)
    }
}

/// The bytes of a stream up to a place before the end are the first of all up to
/// the end.
pub proof fn span_prefix<V: Volume>(
    s: StreamView,
    volume: &V,
    a: nat,
    c: nat,
    d: nat,
    place: LocusView,
)
    requires
        a <= c <= d,
        s.chunk_size > 0,
        span_read(s, volume, a, d, place) is Ok,
    ensures
        span_read(s, volume, a, d, place)->Ok_0.len() == d - a,
        span_read(s, volume, a, c, place) == Ok::<Seq<u8>, ErrorView>(
            span_read(s, volume, a, d, place)->Ok_0.take(c - a),
        ),
    decreases d - a,
{
    let x = span_read(s, volume, a, d, place)->Ok_0;
    if a < d {
        let within = a % s.chunk_size as nat;
        let plain = chunk_read(s, volume, a / s.chunk_size as nat, place)->Ok_0;
        let t = if plain.len() - within < d - a {
            (plain.len() - within) as nat
        } else {
            (d - a) as nat
        };
        let rest = span_read(s, volume, a + t, d, place)->Ok_0;
        let head = plain.subrange(within as int, within + t as int);
        if a + t <= c {
            span_prefix(s, volume, a + t, c, d, place);
            assert((head + rest).take(c - a) =~= head + rest.take(c - a - t));
            if a == c {
                assert(x.take(0) =~= Seq::<u8>::empty());
            }
        } else {
            span_prefix(s, volume, a + t, d, d, place);
            if a < c {
                assert(span_read(s, volume, c, c, place) == Ok::<Seq<u8>, ErrorView>(Seq::empty()));
                assert(plain.subrange(within as int, within + (c - a)) + Seq::<u8>::empty()
                    =~= x.take(c - a));
            } else {
                assert(x.take(0) =~= Seq::<u8>::empty());
            }
        }
    } else {
        assert(x.take(0) =~= Seq::<u8>::empty());
    }
}

/// A stream found by name has chunks.
pub proof fn named_ok(streams: Seq<StreamView>, arn: Seq<char>)
    requires
        streams_ok(streams),
        stream_named(streams, arn) is Some,
    ensures
        stream_named(streams, arn)->0.chunk_size > 0,
    decreases streams.len(),
{
    assert(streams[0].chunk_size > 0);
    if streams[0].arn != arn {
        let rest = streams.skip(1);
        assert forall|i: int| 0 <= i < rest.len() implies (#[trigger] rest[i]).chunk_size > 0
            && rest[i].chunks_in_segment > 0 by {
            assert(rest[i] == streams[i + 1]);
        }
        named_ok(rest, arn);
    }
}

/// What can be read of a run is as long as the run.
pub proof fn runs_have_their_length<V: Volume>(
    run: RunView,
    streams: Seq<StreamView>,
    parts: Seq<Part<V>>,
    locus: LocusView,
)
    requires
        streams_ok(streams),
        run_content(run, streams, parts, locus) is Ok,
    ensures
        run_content(run, streams, parts, locus)->Ok_0.len() == run_length(run),
{
    match run {
        RunView::Stored { stream, target_offset, length } => {
            let s = stream_named(streams, stream)->0;
            named_ok(streams, stream);
            let a = target_offset as nat;
            let d = (target_offset + length) as nat;
            span_prefix(
                s,
                &parts[home_of(parts, stream)].volume,
                a,
                d,
                d,
                locus.subject(s.arn),
            );
        },
        _ => {},
    }
}

} // verus!
