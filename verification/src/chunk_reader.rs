//! Reading regions out of an image stream on demand.
//!
//! Chunks are decoded as they are asked for. Decoded chunks, stored bevies and
//! decoded indices are kept within a budget of memory each, and what is kept
//! never changes what is read.

use std::collections::{HashMap, VecDeque};

use vstd::prelude::*;

use crate::arn::Arn;
use crate::bytes;
use crate::codec::decompress_chunk;
use crate::error::{malformed, Error, ErrorView, Locus, LocusView};
use crate::stream;
use crate::stream::{
    after_bevies, after_chunks, at_most, bevies_of, bevy_member, chunk_of_bevy, chunk_stored,
    index_bounded, parse_index_bounded, per_bevy, slice_chunk, stream_content, taken_between,
    was_refused, ByteSink, ChunkLocation, ImageStream, StreamView, INDEX_SUFFIX,
};
use crate::text;
use crate::verify::container::{bevy_read, chunk_read, short_chunk_text};
use crate::volume::Volume;

verus! {

broadcast use vstd::std_specs::hash::group_hash_axioms;

/// How many stored bevy bytes a reader keeps.
pub const BEVY_CACHE_BYTES: usize = 536870912;

/// How many decoded chunk bytes a reader keeps.
pub const CHUNK_CACHE_BYTES: usize = 268435456;

/// A place that no message mentions.
pub open spec fn nowhere() -> LocusView {
    LocusView::file(Seq::empty())
}

/// The index entries of a stream's bevy, where the volume has a usable index.
pub open spec fn locations_of<V: Volume>(s: StreamView, volume: &V, bevy: nat) -> Option<
    Seq<ChunkLocation>,
> {
    match bevy_member(s, volume.name(), bevy) {
        None => None,
        Some(name) => match volume.outcome(name + INDEX_SUFFIX@) {
            Err(_) => None,
            Ok(index) => match index_bounded(index, s.chunks_in_segment as nat, nowhere()) {
                Err(_) => None,
                Ok(locations) => Some(locations),
            },
        },
    }
}

/// The plain bytes of a stream's chunk, cut at the stream's end, where the
/// volume has them.
pub open spec fn plain_chunk<V: Volume>(s: StreamView, volume: &V, chunk: nat) -> Option<Seq<u8>> {
    let bevy = chunk / s.chunks_in_segment as nat;
    let within = chunk % s.chunks_in_segment as nat;
    match locations_of(s, volume, bevy) {
        None => None,
        Some(locations) => if within >= locations.len() {
            None
        } else {
            match volume.outcome(bevy_member(s, volume.name(), bevy)->Some_0) {
                Err(_) => None,
                Ok(data) => match chunk_of_bevy(
                    s,
                    data,
                    locations[within as int],
                    within,
                    nowhere(),
                ) {
                    Err(_) => None,
                    Ok(plain) => Some(trimmed(s, plain, chunk)),
                },
            }
        },
    }
}

/// A chunk's bytes cut at the stream's end.
pub open spec fn trimmed(s: StreamView, plain: Seq<u8>, chunk: nat) -> Seq<u8> {
    let start = chunk * s.chunk_size;
    at_most(
        plain,
        if s.size > start {
            s.size - start
        } else {
            0
        },
    )
}

/// The bytes of a stream from `position` to `end`, where the volume has them.
pub open spec fn region<V: Volume>(s: StreamView, volume: &V, position: nat, end: nat) -> Option<
    Seq<u8>,
>
    decreases end - position,
{
    if position >= end {
        Some(Seq::empty())
    } else {
        let within = position % s.chunk_size as nat;
        match plain_chunk(s, volume, position / s.chunk_size as nat) {
            None => None,
            Some(plain) => if within >= plain.len() {
                None
            } else {
                let take = if plain.len() - within < end - position {
                    (plain.len() - within) as nat
                } else {
                    (end - position) as nat
                };
                match region(s, volume, position + take, end) {
                    None => None,
                    Some(rest) => Some(
                        plain.subrange(within as int, within + take as int) + rest,
                    ),
                }
            },
        }
    }
}

/// The slices in which the bytes of a stream from `position` to `end` are delivered, one
/// for each chunk they lie in, as far as the volume has them.
pub open spec fn region_slices<V: Volume>(
    s: StreamView,
    volume: &V,
    position: nat,
    end: nat,
) -> Seq<Seq<u8>>
    decreases end - position,
{
    if position >= end {
        Seq::empty()
    } else {
        let within = position % s.chunk_size as nat;
        match plain_chunk(s, volume, position / s.chunk_size as nat) {
            None => Seq::empty(),
            Some(plain) => if within >= plain.len() {
                Seq::empty()
            } else {
                let take = if plain.len() - within < end - position {
                    (plain.len() - within) as nat
                } else {
                    (end - position) as nat
                };
                seq![plain.subrange(within as int, within + take as int)] + region_slices(
                    s,
                    volume,
                    position + take,
                    end,
                )
            },
        }
    }
}

/// Whether a volume that can address a segment's interior refuses a chunk's part of its
/// bevy with an error.
pub open spec fn part_refused<V: Volume>(s: StreamView, volume: &V, chunk: nat, e: ErrorView) -> bool {
    let bevy = chunk / s.chunks_in_segment as nat;
    let within = (chunk % s.chunks_in_segment as nat) as int;
    match (bevy_member(s, volume.name(), bevy), locations_of(s, volume, bevy)) {
        (Some(name), Some(locations)) => within < locations.len() && volume.part(
            name,
            locations[within].offset,
            locations[within].length as usize,
        ) == Err::<Option<Seq<u8>>, ErrorView>(e),
        _ => false,
    }
}

/// Whether a chunk that cannot be had is refused with an error: what reading its bevy
/// fails with or, where only the chunk's part of it is read, what that fails with.
pub open spec fn chunk_refused<V: Volume>(
    s: StreamView,
    volume: &V,
    chunk: nat,
    place: LocusView,
    e: ErrorView,
) -> bool {
    chunk_read(s, volume, chunk, place) == Err::<Seq<u8>, ErrorView>(e) || (chunk_read(
        s,
        volume,
        chunk,
        place,
    ) is Err && part_refused(s, volume, chunk, e))
}

/// Whether the bytes of a stream from `position` to `end` are refused with an error:
/// that of the first chunk that cannot be had, or that it ends too soon.
pub open spec fn region_refused<V: Volume>(
    s: StreamView,
    volume: &V,
    position: nat,
    end: nat,
    place: LocusView,
    e: ErrorView,
) -> bool
    decreases end - position,
{
    position < end && ({
        let chunk = position / s.chunk_size as nat;
        let within = position % s.chunk_size as nat;
        match plain_chunk(s, volume, chunk) {
            None => chunk_refused(s, volume, chunk, place, e),
            Some(plain) => if within >= plain.len() {
                e == malformed(
                    place.byte_offset(position as u64),
                    short_chunk_text(chunk, plain.len(), within),
                )
            } else {
                let take = if plain.len() - within < end - position {
                    (plain.len() - within) as nat
                } else {
                    (end - position) as nat
                };
                region_refused(s, volume, position + take, end, place, e)
            },
        }
    })
}

/// Whether the bytes of a stream from `from` to `to` were fed to a sink as they should
/// have been: all of them, slice by slice; or what comes before a fault, with the
/// fault; or what comes before a refusal, which is handed back unchanged.
pub open spec fn region_fed<V: Volume, S: ByteSink>(
    s: StreamView,
    volume: &V,
    from: nat,
    to: nat,
    place: LocusView,
    before: S,
    after: S,
    r: Result<(), ErrorView>,
) -> bool {
    let slices = region_slices(s, volume, from, to);
    let handed = after.slices() == before.slices() + slices && after.received()
        == before.received() + bytes::flattened(slices) && after.refusal() == before.refusal();
    after.fixed() == before.fixed() && match r {
        Ok(()) => handed && region(s, volume, from, to) == Some(bytes::flattened(slices)),
        Err(e) => (handed && region(s, volume, from, to) is None && region_refused(
            s,
            volume,
            from,
            to,
            place,
            e,
        )) || was_refused(slices, before, after, e),
    }
}

/// A region has the length asked for.
pub proof fn region_len<V: Volume>(s: StreamView, volume: &V, position: nat, end: nat)
    requires
        position <= end,
        s.chunk_size > 0,
    ensures
        region(s, volume, position, end) matches Some(data) ==> data.len() == end - position,
    decreases end - position,
{
    assert(position >= end ==> region(s, volume, position, end) == Some(Seq::<u8>::empty()));
    if position < end {
        match plain_chunk(s, volume, position / s.chunk_size as nat) {
            Some(plain) => {
                let within = position % s.chunk_size as nat;
                if within < plain.len() {
                    let take = if plain.len() - within < end - position {
                        (plain.len() - within) as nat
                    } else {
                        (end - position) as nat
                    };
                    region_len(s, volume, position + take, end);
                }
            },
            None => {},
        }
    }
}

/// The stored bytes that a list of kept chunks occupies once decoded.
spec fn held_by(order: Seq<u64>, chunks: Map<u64, Vec<u8>>) -> nat
    decreases order.len(),
{
    if order.len() == 0 {
        0
    } else {
        chunks[order[0]]@.len() + held_by(order.skip(1), chunks)
    }
}

/// What is kept under other numbers does not matter.
proof fn held_by_same(order: Seq<u64>, a: Map<u64, Vec<u8>>, b: Map<u64, Vec<u8>>)
    requires
        forall|i: int| 0 <= i < order.len() ==> a[#[trigger] order[i]] == b[order[i]],
    ensures
        held_by(order, a) == held_by(order, b),
    decreases order.len(),
{
    if order.len() > 0 {
        assert(a[order[0]] == b[order[0]]);
        assert forall|i: int| 0 <= i < order.skip(1).len() implies a[#[trigger] order.skip(1)[i]]
            == b[order.skip(1)[i]] by {
            assert(order.skip(1)[i] == order[i + 1]);
        }
        held_by_same(order.skip(1), a, b);
    }
}

/// Keeping one more chunk adds its length.
proof fn held_by_push(order: Seq<u64>, chunks: Map<u64, Vec<u8>>, last: u64)
    ensures
        held_by(order.push(last), chunks) == held_by(order, chunks) + chunks[last]@.len(),
    decreases order.len(),
{
    if order.len() == 0 {
        assert(order.push(last).skip(1) == Seq::<u64>::empty());
        assert(held_by(order.push(last).skip(1), chunks) == 0);
    } else {
        assert(order.push(last)[0] == order[0]);
        assert(order.push(last).skip(1) == order.skip(1).push(last));
        held_by_push(order.skip(1), chunks, last);
    }
}

/// Decoded chunks kept in the order they came, the oldest leaving first.
struct ChunkCache {
    chunks: HashMap<u64, Vec<u8>>,
    order: VecDeque<u64>,
    held: u128,
}

impl ChunkCache {
    /// Whether the order lists exactly the kept chunks, each once, the total is the
    /// sum of their lengths, and it is within the budget wherever more than two are
    /// kept.
    spec fn wf(&self) -> bool {
        &&& self.order@.no_duplicates()
        &&& forall|k: u64| #[trigger] self.chunks@.dom().contains(k) <==> self.order@.contains(k)
        &&& self.held == held_by(self.order@, self.chunks@)
        &&& self.held <= 2 * (usize::MAX as u128) + CHUNK_CACHE_BYTES
        &&& self.held <= CHUNK_CACHE_BYTES || self.order@.len() <= 2
        &&& forall|k: u64| #[trigger]
            self.chunks@.dom().contains(k) ==> self.chunks@[k]@.len() <= usize::MAX
    }

    /// Whether every kept chunk is what the volume holds.
    spec fn serves<V: Volume>(&self, s: StreamView, volume: &V) -> bool {
        forall|k: u64| #[trigger]
            self.chunks@.dom().contains(k) ==> plain_chunk(s, volume, k as nat) == Some(
                self.chunks@[k]@,
            )
    }

    /// Nothing kept.
    fn new() -> (r: Self)
        ensures
            r.wf(),
            r.chunks@ == Map::<u64, Vec<u8>>::empty(),
            r.order@ == Seq::<u64>::empty(),
            r.held == 0,
    {
        ChunkCache { chunks: HashMap::new(), order: VecDeque::new(), held: 0 }
    }

    /// Let the oldest chunk go.
    fn evict(&mut self)
        requires
            old(self).wf(),
            old(self).order@.len() > 0,
        ensures
            final(self).wf(),
            final(self).order@ == old(self).order@.skip(1),
            final(self).chunks@ == old(self).chunks@.remove(old(self).order@[0]),
            final(self).held <= old(self).held,
    {
        let ghost order0 = self.order@;
        let ghost chunks0 = self.chunks@;
        match self.order.pop_front() {
            Some(victim) => {
                proof {
                    assert(victim == order0[0]);
                    assert(order0.contains(victim));
                    assert(self.order@ == order0.skip(1));
                }
                match self.chunks.remove(&victim) {
                    Some(gone) => {
                        proof {
                            assert(self.chunks@ == chunks0.remove(victim));
                            assert forall|i: int| 0 <= i < order0.skip(1).len() implies chunks0[
                                #[trigger] order0.skip(1)[i]
                            ] == self.chunks@[order0.skip(1)[i]] by {
                                assert(order0.skip(1)[i] == order0[i + 1]);
                            }
                            held_by_same(order0.skip(1), chunks0, self.chunks@);
                        }
                        self.held = self.held - gone.len() as u128;
                    },
                    None => {},
                }
                proof {
                    assert forall|k: u64| #[trigger]
                        self.chunks@.dom().contains(k) <==> self.order@.contains(k) by {
                        if self.order@.contains(k) {
                            let i = choose|i: int| 0 <= i < self.order@.len() && self.order@[i] == k;
                            assert(order0[i + 1] == k);
                            assert(order0.contains(k));
                            assert(chunks0.dom().contains(k));
                        }
                        if self.chunks@.dom().contains(k) {
                            assert(order0.contains(k));
                            let i = choose|i: int| 0 <= i < order0.len() && order0[i] == k;
                            assert(i > 0);
                            assert(order0.skip(1)[i - 1] == k);
                        }
                    }
                    assert(self.order@.no_duplicates());
                }
            },
            None => {},
        }
    }

    /// Keep a chunk, letting the oldest go until it fits. One chunk stays even
    /// where the two together exceed the budget.
    fn put(&mut self, number: u64, plain: Vec<u8>)
        requires
            old(self).wf(),
            !old(self).chunks@.dom().contains(number),
        ensures
            final(self).wf(),
            final(self).chunks@.dom().contains(number),
            final(self).chunks@[number]@ == plain@,
            forall|k: u64| #[trigger]
                final(self).chunks@.dom().contains(k) ==> k == number || (old(
                    self,
                ).chunks@.dom().contains(k) && final(self).chunks@[k] == old(self).chunks@[k]),
    {
        let incoming: u128 = plain.len() as u128;
        while self.order.len() > 1 && self.held + incoming > CHUNK_CACHE_BYTES as u128
            invariant
                self.wf(),
                incoming <= usize::MAX,
                !self.chunks@.dom().contains(number),
                forall|k: u64| #[trigger]
                    self.chunks@.dom().contains(k) ==> old(self).chunks@.dom().contains(k)
                        && self.chunks@[k] == old(self).chunks@[k],
            decreases self.order@.len(),
        {
            self.evict();
        }
        let ghost order0 = self.order@;
        let ghost chunks0 = self.chunks@;
        proof {
            if order0.len() <= 1 {
                if order0.len() == 1 {
                    assert(order0.skip(1) == Seq::<u64>::empty());
                    assert(held_by(order0.skip(1), chunks0) == 0);
                    assert(order0.contains(order0[0]));
                    assert(chunks0.dom().contains(order0[0]));
                }
                assert(self.held <= usize::MAX);
            }
        }
        self.held = self.held + incoming;
        self.order.push_back(number);
        self.chunks.insert(number, plain);
        proof {
            assert(!order0.contains(number));
            assert(self.chunks@ == chunks0.insert(number, plain));
            assert forall|i: int| 0 <= i < order0.len() implies chunks0[#[trigger] order0[i]]
                == self.chunks@[order0[i]] by {
                assert(order0.contains(order0[i]));
            }
            held_by_same(order0, chunks0, self.chunks@);
            held_by_push(order0, self.chunks@, number);
            assert forall|k: u64| #[trigger]
                self.chunks@.dom().contains(k) <==> self.order@.contains(k) by {
                if self.order@.contains(k) {
                    let i = choose|i: int| 0 <= i < self.order@.len() && self.order@[i] == k;
                    if i < order0.len() {
                        assert(order0[i] == k);
                        assert(order0.contains(k));
                        assert(chunks0.dom().contains(k));
                    }
                }
                if self.chunks@.dom().contains(k) {
                    if k == number {
                        assert(self.order@[order0.len() as int] == number);
                    } else {
                        assert(order0.contains(k));
                        let i = choose|i: int| 0 <= i < order0.len() && order0[i] == k;
                        assert(self.order@[i] == k);
                    }
                }
            }
            assert(self.order@.no_duplicates());
        }
    }
}

/// One bevy's bytes and decoded index.
struct Bevy {
    number: u64,
    data: Vec<u8>,
    locations: Vec<ChunkLocation>,
}

impl Bevy {
    /// Whether this is what the volume holds.
    spec fn serves<V: Volume>(&self, s: StreamView, volume: &V) -> bool {
        &&& bevy_member(s, volume.name(), self.number as nat) is Some
        &&& volume.outcome(bevy_member(s, volume.name(), self.number as nat)->Some_0) == Ok::<
            Seq<u8>,
            ErrorView,
        >(self.data@)
        &&& locations_of(s, volume, self.number as nat) == Some(self.locations@)
    }
}

/// The stored bytes that a list of kept bevies occupies.
spec fn occupied_by(list: Seq<Bevy>) -> nat
    decreases list.len(),
{
    if list.len() == 0 {
        0
    } else {
        occupied_by(list.drop_last()) + list.last().data@.len()
    }
}

/// Letting one bevy go frees its length.
proof fn occupied_without(list: Seq<Bevy>, i: int)
    requires
        0 <= i < list.len(),
    ensures
        occupied_by(list) == occupied_by(list.remove(i)) + list[i].data@.len(),
    decreases list.len(),
{
    let front = list.drop_last();
    if i < list.len() - 1 {
        occupied_without(front, i);
        assert(list.remove(i).drop_last() =~= front.remove(i));
        assert(list.remove(i).last() == list.last());
    } else {
        assert(list.remove(i) =~= front);
    }
}

/// Whether kept bevies are within the budget, or there is only one.
spec fn bevies_fit(list: Seq<Bevy>) -> bool {
    occupied_by(list) <= BEVY_CACHE_BYTES || list.len() <= 1
}

/// What a reader keeps, by number.
#[verifier::ext_equal]
pub struct KeptView {
    /// The bevies, the least recently used first.
    pub bevies: Seq<u64>,
    /// The stored bytes that they occupy.
    pub bevy_bytes: nat,
    /// The decoded chunks, the oldest first.
    pub chunks: Seq<u64>,
    /// The bytes that they occupy.
    pub chunk_bytes: nat,
    /// The bevies whose decoded index is kept.
    pub indices: Set<u64>,
}

impl KeptView {
    /// Whether what is kept stays within its budgets. One bevy stays whatever its
    /// length, and a chunk stays beside the one that came last.
    pub open spec fn within_budget(self) -> bool {
        &&& self.bevy_bytes <= BEVY_CACHE_BYTES || self.bevies.len() <= 1
        &&& self.chunk_bytes <= CHUNK_CACHE_BYTES || self.chunks.len() <= 2
    }
}

/// What some bevies, chunks and indices are, by number.
spec fn kept_of(
    resident: Seq<Bevy>,
    cache: ChunkCache,
    indices: Map<u64, Vec<ChunkLocation>>,
) -> KeptView {
    KeptView {
        bevies: Seq::new(resident.len(), |i: int| resident[i].number),
        bevy_bytes: occupied_by(resident),
        chunks: cache.order@,
        chunk_bytes: cache.held as nat,
        indices: indices.dom(),
    }
}

/// Whether every kept bevy is what the volume holds.
spec fn bevies_serve<V: Volume>(list: Seq<Bevy>, s: StreamView, volume: &V) -> bool {
    forall|i: int| 0 <= i < list.len() ==> (#[trigger] list[i]).serves(s, volume)
}

/// Whether every kept index is what the volume holds.
spec fn indices_serve<V: Volume>(
    indices: Map<u64, Vec<ChunkLocation>>,
    s: StreamView,
    volume: &V,
) -> bool {
    forall|k: u64| #[trigger]
        indices.dom().contains(k) ==> locations_of(s, volume, k as nat) == Some(indices[k]@)
}

/// What a reader keeps, moved between readers over the same stream.
pub struct Residency {
    stream: Arn,
    resident: Vec<Bevy>,
    cache: ChunkCache,
    indices: HashMap<u64, Vec<ChunkLocation>>,
}

impl Residency {
    /// The stream that the kept data belongs to.
    pub closed spec fn stream_name(&self) -> Seq<char> {
        self.stream@
    }

    /// What is kept, by number.
    pub closed spec fn kept(&self) -> KeptView {
        kept_of(self.resident@, self.cache, self.indices@)
    }

    /// Whether everything kept is what a volume holds of a stream, within the budgets.
    pub closed spec fn serves<V: Volume>(&self, s: StreamView, volume: &V) -> bool {
        &&& self.cache.wf()
        &&& bevies_fit(self.resident@)
        &&& self.cache.serves(s, volume)
        &&& bevies_serve(self.resident@, s, volume)
        &&& indices_serve(self.indices@, s, volume)
    }
}

/// Reads regions out of an [`ImageStream`] on demand.
pub struct ChunkReader<'v, V: Volume> {
    stream: ImageStream,
    volume: &'v V,
    volume_arn: Arn,
    /// The bevies kept, the most recently used last.
    resident: Vec<Bevy>,
    /// The decoded chunks kept.
    cache: ChunkCache,
    /// The decoded indices kept.
    indices: HashMap<u64, Vec<ChunkLocation>>,
}

/// What is said of a region whose end is not a number.
pub open spec fn overflowing_region_text(offset: nat, length: nat) -> Seq<char> {
    "a region at offset "@ + text::decimal(offset) + " of length "@ + text::decimal(length)
        + " overflows when added; the map entry naming it cannot be resolved"@
}

/// What is said of a region that ends after its stream.
pub open spec fn long_region_text(offset: nat, end: nat, stream: Seq<char>, size: nat) -> Seq<char> {
    "a region covering bytes "@ + (text::decimal(offset) + ".."@ + text::decimal(end))
        + " extends past stream "@ + stream + ", which declares "@ + text::decimal(size)
        + " bytes; reading it would either fail or silently return data from elsewhere"@
}

/// Succeeding does not depend on the place named in messages.
proof fn decoding_is_placeless(
    s: StreamView,
    data: Seq<u8>,
    location: ChunkLocation,
    chunk: nat,
    locus: LocusView,
)
    ensures
        chunk_of_bevy(s, data, location, chunk, locus) is Ok <==> chunk_of_bevy(
            s,
            data,
            location,
            chunk,
            nowhere(),
        ) is Ok,
        chunk_of_bevy(s, data, location, chunk, locus) matches Ok(plain) ==> chunk_of_bevy(
            s,
            data,
            location,
            chunk,
            nowhere(),
        ) == Ok::<Seq<u8>, ErrorView>(plain),
{
}

impl<'v, V: Volume> ChunkReader<'v, V> {
    /// The parameters of the stream being read.
    pub closed spec fn view(&self) -> StreamView {
        self.stream@
    }

    /// The volume the stream is read from.
    pub closed spec fn source(&self) -> &V {
        self.volume
    }

    /// What is kept, by number.
    pub closed spec fn kept(&self) -> KeptView {
        kept_of(self.resident@, self.cache, self.indices@)
    }

    /// Whether the stream has chunks and bevies of some length, and everything
    /// kept is what the volume holds, within the budgets.
    pub closed spec fn wf(&self) -> bool {
        &&& self.stream.chunk_size > 0
        &&& self.stream.chunks_in_segment > 0
        &&& self.volume_arn@ == self.volume.name()
        &&& self.cache.wf()
        &&& bevies_fit(self.resident@)
        &&& self.cache.serves(self.stream@, self.volume)
        &&& bevies_serve(self.resident@, self.stream@, self.volume)
        &&& indices_serve(self.indices@, self.stream@, self.volume)
    }

    /// Open a reader over `stream`, drawing segments from `volume`.
    pub fn new(stream: &ImageStream, volume: &'v V) -> (r: Self)
        requires
            stream.chunk_size > 0,
            stream.chunks_in_segment > 0,
        ensures
            r.wf(),
            r.view() == stream@,
            r.source() == volume,
            r.kept() == (KeptView {
                bevies: Seq::empty(),
                bevy_bytes: 0,
                chunks: Seq::empty(),
                chunk_bytes: 0,
                indices: Set::empty(),
            }),
    {
        ChunkReader {
            stream: stream.clone(),
            volume,
            volume_arn: volume.arn(),
            resident: Vec::new(),
            cache: ChunkCache::new(),
            indices: HashMap::new(),
        }
    }

    /// The stream being read.
    pub fn stream(&self) -> (r: &ImageStream)
        ensures
            r@ == self.view(),
    {
        &self.stream
    }

    /// Give the volume back, dropping everything kept.
    pub fn into_volume(self) -> (r: &'v V)
        ensures
            r == self.source(),
    {
        self.volume
    }

    /// Take what is kept out, leaving the volume behind.
    pub fn into_residency(self) -> (r: Residency)
        requires
            self.wf(),
        ensures
            r.stream_name() == self.view().arn,
            r.serves(self.view(), self.source()),
            r.kept() == self.kept(),
    {
        Residency {
            stream: self.stream.arn.clone(),
            resident: self.resident,
            cache: self.cache,
            indices: self.indices,
        }
    }

    /// Restore what an earlier reader over the same stream kept. What belongs to
    /// another stream is ignored. Either way what is read afterwards is what would have
    /// been read without.
    pub fn restore(&mut self, residency: Residency)
        requires
            old(self).wf(),
            residency.stream_name() == old(self).view().arn ==> residency.serves(
                old(self).view(),
                old(self).source(),
            ),
        ensures
            final(self).wf(),
            final(self).view() == old(self).view(),
            final(self).source() == old(self).source(),
            residency.stream_name() != old(self).view().arn ==> *final(self) == *old(self),
            residency.stream_name() == old(self).view().arn ==> final(self).kept()
                == residency.kept(),
            forall|from: nat, to: nat| #[trigger]
                region(final(self).view(), final(self).source(), from, to) == region(
                    old(self).view(),
                    old(self).source(),
                    from,
                    to,
                ),
            forall|from: nat, to: nat| #[trigger]
                region_slices(final(self).view(), final(self).source(), from, to)
                    == region_slices(old(self).view(), old(self).source(), from, to),
    {
        if !text::same(residency.stream.as_str(), self.stream.arn.as_str()) {
            return;
        }
        let Residency { stream: _, resident, cache, indices } = residency;
        self.resident = resident;
        self.cache = cache;
        self.indices = indices;
    }

    /// Feed `length` bytes from `offset` on to `sink`, in order.
    pub fn read_region<S: ByteSink>(
        &mut self,
        offset: u64,
        length: u64,
        sink: &mut S,
        locus: &Locus,
    ) -> (r: Result<(), Error>)
        requires
            old(self).wf(),
        ensures
            final(self).wf(),
            final(self).view() == old(self).view(),
            final(self).source() == old(self).source(),
            final(self).kept().within_budget(),
            offset + length <= u64::MAX && offset + length <= old(self).view().size
                ==> region_fed(
                old(self).view(),
                old(self).source(),
                offset as nat,
                (offset + length) as nat,
                locus@.subject(old(self).view().arn),
                *old(sink),
                *final(sink),
                stream::outcome_view(r),
            ),
            offset + length > u64::MAX || offset + length > old(self).view().size ==> {
                &&& *final(sink) == *old(sink)
                &&& r matches Err(e) && e@ == if offset + length > u64::MAX {
                    malformed(
                        locus@.subject(old(self).view().arn),
                        overflowing_region_text(offset as nat, length as nat),
                    )
                } else {
                    malformed(
                        locus@.subject(old(self).view().arn).byte_offset(offset),
                        long_region_text(
                            offset as nat,
                            (offset + length) as nat,
                            old(self).view().arn,
                            old(self).view().size as nat,
                        ),
                    )
                }
            },
    {
        let place = locus.subject(self.stream.arn.as_str());
        let end: u64 = match offset.checked_add(length) {
            Some(end) => end,
            None => return Err(
                Error::malformed(
                    place,
                    text::cat5(
                        "a region at offset ",
                        text::dec(offset).as_str(),
                        " of length ",
                        text::dec(length).as_str(),
                        " overflows when added; the map entry naming it cannot be resolved",
                    ),
                ),
            ),
        };
        if end > self.stream.size {
            return Err(
                Error::malformed(
                    place.byte_offset(offset),
                    text::cat7(
                        "a region covering bytes ",
                        text::cat3(text::dec(offset).as_str(), "..", text::dec(end).as_str()).as_str(),
                        " extends past stream ",
                        self.stream.arn.as_str(),
                        ", which declares ",
                        text::dec(self.stream.size).as_str(),
                        " bytes; reading it would either fail or silently return data from elsewhere",
                    ),
                ),
            );
        }
        self.feed_span(offset, end, sink, &place)
    }

    /// Feed the bytes from `offset` to `end` to `sink`, in order.
    #[verifier::spinoff_prover]
    #[verifier::rlimit(40)]
    fn feed_span<S: ByteSink>(&mut self, offset: u64, end: u64, sink: &mut S, place: &Locus) -> (r:
        Result<(), Error>)
        requires
            old(self).wf(),
            offset <= end,
        ensures
            final(self).wf(),
            final(self).stream == old(self).stream,
            final(self).volume == old(self).volume,
            region_fed(
                old(self).stream@,
                old(self).volume,
                offset as nat,
                end as nat,
                place@,
                *old(sink),
                *final(sink),
                stream::outcome_view(r),
            ),
    {
        let mut position: u64 = offset;
        let ghost s = self.stream@;
        let ghost v = self.volume;
        let ghost mut pieces: Seq<Seq<u8>> = Seq::empty();
        let ghost all = region_slices(s, v, offset as nat, end as nat);
        proof {
            assert(sink.slices() + pieces =~= sink.slices());
            assert(sink.received() + bytes::flattened(pieces) =~= sink.received());
            assert(pieces + all =~= all);
            match region(s, v, offset as nat, end as nat) {
                Some(rest) => assert(bytes::flattened(pieces) + rest =~= rest),
                None => {},
            }
        }
        while position < end
            invariant
                self.wf(),
                self.stream == old(self).stream,
                self.volume == old(self).volume,
                s == self.stream@,
                v == self.volume,
                offset <= position <= end,
                sink.received() == old(sink).received() + bytes::flattened(pieces),
                sink.refusal() == old(sink).refusal(),
                sink.fixed() == old(sink).fixed(),
                sink.slices() == old(sink).slices() + pieces,
                all == region_slices(s, v, offset as nat, end as nat),
                pieces + region_slices(s, v, position as nat, end as nat) == all,
                (match region(s, v, offset as nat, end as nat) {
                    Some(content) => region(s, v, position as nat, end as nat) matches Some(rest)
                        && content == bytes::flattened(pieces) + rest,
                    None => region(s, v, position as nat, end as nat) is None,
                }),
                forall|e: ErrorView| #[trigger]
                    region_refused(s, v, position as nat, end as nat, place@, e)
                        ==> region_refused(s, v, offset as nat, end as nat, place@, e),
            decreases end - position,
        {
            let piece = match self.piece_at(position, end, place) {
                Ok(piece) => piece,
                Err(e) => {
                    proof {
                        assert(pieces + Seq::<Seq<u8>>::empty() =~= pieces);
                    }
                    return Err(e);
                },
            };
            let ghost rest = region_slices(s, v, (position + piece@.len()) as nat, end as nat);
            match sink.accept(piece.as_slice()) {
                Ok(()) => {},
                Err(e) => {
                    proof {
                        assert(all.take(pieces.len() as int) =~= pieces);
                        assert(taken_between(*old(sink), *sink) =~= pieces);
                    }
                    return Err(e);
                },
            }
            proof {
                assert(pieces + (seq![piece@] + rest) =~= pieces.push(piece@) + rest);
                assert((old(sink).slices() + pieces).push(piece@) =~= old(sink).slices()
                    + pieces.push(piece@));
                bytes::flattened_push(pieces, piece@);
                let got = bytes::flattened(pieces);
                assert(old(sink).received() + got + piece@ =~= old(sink).received() + (got
                    + piece@));
                match region(s, v, (position + piece@.len()) as nat, end as nat) {
                    Some(after) => assert(got + (piece@ + after) =~= (got + piece@) + after),
                    None => {},
                }
                pieces = pieces.push(piece@);
            }
            position = position + piece.len() as u64;
        }
        proof {
            assert(region(s, v, position as nat, end as nat) == Some(Seq::<u8>::empty()));
            assert(bytes::flattened(pieces) + Seq::<u8>::empty() =~= bytes::flattened(pieces));
            assert(pieces + Seq::<Seq<u8>>::empty() =~= pieces);
        }
        Ok(())
    }

    /// The bytes from `position` on that one chunk holds, up to `end`.
    fn piece_at(&mut self, position: u64, end: u64, place: &Locus) -> (r: Result<Vec<u8>, Error>)
        requires
            old(self).wf(),
            position < end,
        ensures
            final(self).wf(),
            final(self).stream == old(self).stream,
            final(self).volume == old(self).volume,
            (match r {
                Ok(piece) => {
                    &&& 0 < piece@.len() <= end - position
                    &&& region(old(self).stream@, old(self).volume, position as nat, end as nat)
                        == (match region(
                        old(self).stream@,
                        old(self).volume,
                        (position + piece@.len()) as nat,
                        end as nat,
                    ) {
                        Some(rest) => Some(piece@ + rest),
                        None => None,
                    })
                    &&& region_slices(
                        old(self).stream@,
                        old(self).volume,
                        position as nat,
                        end as nat,
                    ) == seq![piece@] + region_slices(
                        old(self).stream@,
                        old(self).volume,
                        (position + piece@.len()) as nat,
                        end as nat,
                    )
                    &&& forall|e: ErrorView| #[trigger]
                        region_refused(
                            old(self).stream@,
                            old(self).volume,
                            (position + piece@.len()) as nat,
                            end as nat,
                            place@,
                            e,
                        ) ==> region_refused(
                            old(self).stream@,
                            old(self).volume,
                            position as nat,
                            end as nat,
                            place@,
                            e,
                        )
                },
                Err(e) => {
                    &&& region_refused(
                        old(self).stream@,
                        old(self).volume,
                        position as nat,
                        end as nat,
                        place@,
                        e@,
                    )
                    &&& region(
                        old(self).stream@,
                        old(self).volume,
                        position as nat,
                        end as nat,
                    ) is None
                    &&& region_slices(
                        old(self).stream@,
                        old(self).volume,
                        position as nat,
                        end as nat,
                    ) == Seq::<Seq<u8>>::empty()
                },
            }),
    {
        let chunk_size: u64 = self.stream.chunk_size as u64;
        let number: u64 = position / chunk_size;
        let within: usize = (position % chunk_size) as usize;
        proof {
            assert(number * chunk_size <= position) by (nonlinear_arith)
                requires
                    number == position / chunk_size,
                    chunk_size > 0,
            ;
        }
        match self.chunk_bytes(number, place) {
            Ok(()) => {},
            Err(e) => return Err(e),
        }
        match self.cache.chunks.get(&number) {
            Some(plain) => {
                proof {
                    assert(plain_chunk(self.stream@, self.volume, number as nat) == Some(plain@));
                }
                if within >= plain.len() {
                    return Err(
                        Error::malformed(
                            place.byte_offset(position),
                            text::cat7(
                                "chunk ",
                                text::dec(number).as_str(),
                                " decompressed to ",
                                text::dec_usize(plain.len()).as_str(),
                                " bytes, which does not reach offset ",
                                text::dec_usize(within).as_str(),
                                " within the chunk; the stream is shorter than its metadata claims",
                            ),
                        ),
                    );
                }
                let available: usize = plain.len() - within;
                let take: usize = if available as u64 > end - position {
                    (end - position) as usize
                } else {
                    available
                };
                Ok(bytes::copied_range(plain.as_slice(), within, within + take))
            },
            None => {
                proof {
                    assert(false);
                }
                Ok(Vec::new())
            },
        }
    }

    /// Have one chunk's plain bytes at hand, decoding and keeping it as needed.
    fn chunk_bytes(&mut self, number: u64, locus: &Locus) -> (r: Result<(), Error>)
        requires
            old(self).wf(),
            number * old(self).stream.chunk_size <= u64::MAX,
        ensures
            final(self).wf(),
            final(self).stream == old(self).stream,
            final(self).volume == old(self).volume,
            r is Ok ==> final(self).cache.chunks@.dom().contains(number),
            r matches Err(e) ==> plain_chunk(
                old(self).stream@,
                old(self).volume,
                number as nat,
            ) is None && chunk_refused(
                old(self).stream@,
                old(self).volume,
                number as nat,
                locus@,
                e@,
            ),
    {
        if !self.cache.chunks.contains_key(&number) {
            match self.decompress(number, locus) {
                Ok(plain) => {
                    let ghost before = *self;
                    self.cache.put(number, plain);
                    proof {
                        assert forall|k: u64| #[trigger]
                            self.cache.chunks@.dom().contains(k) implies plain_chunk(
                            self.stream@,
                            self.volume,
                            k as nat,
                        ) == Some(self.cache.chunks@[k]@) by {
                            if k != number {
                                assert(before.cache.chunks@.dom().contains(k));
                            }
                        }
                    }
                },
                Err(e) => return Err(e),
            }
        }
        Ok(())
    }

    /// Decode one chunk, reading only that chunk's bytes where the store can
    /// address a segment's interior, and the whole bevy where it cannot.
    fn decompress(&mut self, number: u64, locus: &Locus) -> (r: Result<Vec<u8>, Error>)
        requires
            old(self).wf(),
            number * old(self).stream.chunk_size <= u64::MAX,
        ensures
            final(self).wf(),
            final(self).stream == old(self).stream,
            final(self).volume == old(self).volume,
            final(self).cache == old(self).cache,
            (match r {
                Ok(plain) => plain_chunk(old(self).stream@, old(self).volume, number as nat)
                    == Some(plain@),
                Err(e) => plain_chunk(old(self).stream@, old(self).volume, number as nat) is None
                    && chunk_refused(
                    old(self).stream@,
                    old(self).volume,
                    number as nat,
                    locus@,
                    e@,
                ),
            }),
    {
        proof {
            reveal(chunk_read);
        }
        let per_bevy: u64 = self.stream.chunks_in_segment as u64;
        let bevy: u64 = number / per_bevy;
        let within: usize = (number % per_bevy) as usize;
        if self.find_bevy(bevy).is_none() {
            match self.decompress_by_range(number, bevy, within, locus) {
                Ok(Some(plain)) => return Ok(plain),
                Ok(None) => {},
                Err(e) => return Err(e),
            }
        }
        match self.load_bevy(bevy, locus) {
            Ok(()) => {},
            Err(e) => return Err(e),
        }
        match self.find_bevy(bevy) {
            None => {
                proof {
                    let last = self.resident@.len() - 1;
                    assert(self.resident@[last].number == bevy);
                    assert(false);
                }
                Err(
                    Error::malformed(
                        locus.clone(),
                        text::cat3(
                            "bevy ",
                            text::dec(bevy).as_str(),
                            " could not be held for reading",
                        ),
                    ),
                )
            },
            Some(at) => {
                let held = &self.resident[at];
                proof {
                    assert(held.serves(self.stream@, self.volume));
                }
                if within >= held.locations.len() {
                    return Err(
                        Error::malformed(
                            locus.clone(),
                            text::cat7(
                                "chunk ",
                                text::dec(number).as_str(),
                                " is chunk ",
                                text::dec_usize(within).as_str(),
                                " of bevy ",
                                text::dec(bevy).as_str(),
                                text::cat3(
                                    ", whose index lists only ",
                                    text::dec_usize(held.locations.len()).as_str(),
                                    " chunks; the stream's declared size and its stored chunks disagree",
                                ).as_str(),
                            ),
                        ),
                    );
                }
                let location = held.locations[within];
                let bevy_locus = locus.segment(
                    text::pad_zeros(text::dec(bevy).as_str(), 8).as_str(),
                );
                let chunk_locus = bevy_locus.byte_offset(location.offset);
                proof {
                    decoding_is_placeless(
                        self.stream@,
                        held.data@,
                        location,
                        within as nat,
                        bevy_locus@,
                    );
                }
                let stored = match slice_chunk(
                    held.data.as_slice(),
                    location,
                    within,
                    &chunk_locus,
                ) {
                    Ok(s) => s,
                    Err(e) => return Err(e),
                };
                let plain = match decompress_chunk(
                    self.stream.codec,
                    stored,
                    self.stream.chunk_size,
                    &chunk_locus,
                ) {
                    Ok(p) => p,
                    Err(e) => return Err(e),
                };
                Ok(self.trim(plain, number))
            },
        }
    }

    /// A chunk's bytes cut at the stream's end.
    fn trim(&self, plain: Vec<u8>, number: u64) -> (r: Vec<u8>)
        requires
            number * self.stream.chunk_size <= u64::MAX,
        ensures
            r@ == trimmed(self.stream@, plain@, number as nat),
    {
        let start: u64 = number * self.stream.chunk_size as u64;
        let remaining: u64 = self.stream.size.saturating_sub(start);
        let mut out = plain;
        if out.len() as u64 > remaining {
            out.truncate(remaining as usize);
        }
        out
    }

    /// Where a bevy is kept, if it is.
    fn find_bevy(&self, number: u64) -> (r: Option<usize>)
        ensures
            (match r {
                Some(at) => at < self.resident@.len() && self.resident@[at as int].number == number,
                None => forall|i: int|
                    0 <= i < self.resident@.len() ==> (#[trigger] self.resident@[i]).number
                        != number,
            }),
    {
        let mut i: usize = 0;
        while i < self.resident.len()
            invariant
                i <= self.resident.len(),
                forall|k: int| 0 <= k < i ==> (#[trigger] self.resident@[k]).number != number,
            decreases self.resident.len() - i,
        {
            if self.resident[i].number == number {
                return Some(i);
            }
            i = i + 1;
        }
        None
    }

    /// Read and decode one chunk without its bevy, or nothing where the store
    /// cannot address the segment's interior.
    fn decompress_by_range(&mut self, number: u64, bevy: u64, within: usize, locus: &Locus) -> (r:
        Result<Option<Vec<u8>>, Error>)
        requires
            old(self).wf(),
            number * old(self).stream.chunk_size <= u64::MAX,
            bevy == number / old(self).stream.chunks_in_segment as u64,
            within == number % old(self).stream.chunks_in_segment as u64,
        ensures
            final(self).wf(),
            final(self).stream == old(self).stream,
            final(self).volume == old(self).volume,
            final(self).cache == old(self).cache,
            final(self).resident == old(self).resident,
            (match r {
                Ok(Some(plain)) => plain_chunk(
                    old(self).stream@,
                    old(self).volume,
                    number as nat,
                ) == Some(plain@),
                Ok(None) => true,
                Err(e) => plain_chunk(old(self).stream@, old(self).volume, number as nat) is None
                    && chunk_refused(
                    old(self).stream@,
                    old(self).volume,
                    number as nat,
                    locus@,
                    e@,
                ),
            }),
    {
        proof {
            reveal(chunk_read);
        }
        let bevy_name = match self.stream.bevy_name(&self.volume_arn, bevy) {
            Some(name) => name,
            None => return Ok(None),
        };
        let location = match self.chunk_location(bevy, bevy_name.as_str(), within, locus) {
            Ok(Some(location)) => location,
            Ok(None) => return Ok(None),
            Err(e) => return Err(e),
        };
        if location.length == 0 || location.length as u64 > usize::MAX as u64 {
            return Ok(None);
        }
        let stored = match self.volume.read_segment_range(
            bevy_name.as_str(),
            location.offset,
            location.length as usize,
        ) {
            Ok(Some(data)) => data,
            Ok(None) => return Ok(None),
            Err(e) => return Err(e),
        };
        let bevy_locus = locus.segment(text::pad_zeros(text::dec(bevy).as_str(), 8).as_str());
        let chunk_locus = bevy_locus.byte_offset(location.offset);
        proof {
            let data = self.volume.outcome(bevy_name@)->Ok_0;
            decoding_is_placeless(self.stream@, data, location, within as nat, bevy_locus@);
            assert(chunk_stored(data, location, within as nat, chunk_locus@) == Ok::<
                Seq<u8>,
                ErrorView,
            >(stored@));
        }
        match decompress_chunk(
            self.stream.codec,
            stored.as_slice(),
            self.stream.chunk_size,
            &chunk_locus,
        ) {
            Ok(plain) => Ok(Some(self.trim(plain, number))),
            Err(e) => Err(e),
        }
    }

    /// Where one chunk sits inside its bevy, reading and keeping the index.
    /// Nothing where the index is not listed or has no such entry.
    fn chunk_location(&mut self, bevy: u64, bevy_name: &str, within: usize, locus: &Locus) -> (r:
        Result<Option<ChunkLocation>, Error>)
        requires
            old(self).wf(),
            bevy_member(old(self).stream@, old(self).volume.name(), bevy as nat) == Some(
                bevy_name@,
            ),
        ensures
            final(self).wf(),
            final(self).stream == old(self).stream,
            final(self).volume == old(self).volume,
            final(self).cache == old(self).cache,
            final(self).resident == old(self).resident,
            (match r {
                Ok(Some(location)) => locations_of(
                    old(self).stream@,
                    old(self).volume,
                    bevy as nat,
                ) matches Some(list) && within < list.len() && list[within as int] == location,
                Ok(None) => true,
                Err(e) => locations_of(old(self).stream@, old(self).volume, bevy as nat) is None
                    && bevy_read(old(self).stream@, old(self).volume, bevy as nat, locus@)
                    == Err::<(Seq<u8>, Seq<ChunkLocation>), ErrorView>(e@),
            }),
    {
        if !self.indices.contains_key(&bevy) {
            let index_name = text::cat2(bevy_name, INDEX_SUFFIX);
            if !self.volume.has_segment(index_name.as_str()) {
                return Ok(None);
            }
            let raw = match self.volume.read_segment(index_name.as_str()) {
                Ok(data) => data,
                Err(e) => return Err(e),
            };
            let locations = match parse_index_bounded(
                raw.as_slice(),
                self.stream.chunks_in_segment,
                &locus.segment(index_name.as_str()),
            ) {
                Ok(list) => list,
                Err(e) => return Err(e),
            };
            self.indices.insert(bevy, locations);
        }
        match self.indices.get(&bevy) {
            Some(list) => if within < list.len() {
                Ok(Some(list[within]))
            } else {
                Ok(None)
            },
            None => Ok(None),
        }
    }

    /// The bytes that kept bevies occupy.
    fn resident_bytes(&self) -> (r: u128)
        ensures
            r == occupied_by(self.resident@),
    {
        proof {
            assert(self.resident@.take(0) =~= Seq::<Bevy>::empty());
        }
        let mut total: u128 = 0;
        let mut i: usize = 0;
        while i < self.resident.len()
            invariant
                i <= self.resident.len(),
                total <= i * (usize::MAX as u128),
                total == occupied_by(self.resident@.take(i as int)),
            decreases self.resident.len() - i,
        {
            let len: u128 = self.resident[i].data.len() as u128;
            proof {
                assert((i + 1) * (usize::MAX as u128) == i * (usize::MAX as u128) + usize::MAX)
                    by (nonlinear_arith);
                assert((i + 1) * (usize::MAX as u128) <= usize::MAX * (usize::MAX as u128))
                    by (nonlinear_arith)
                    requires
                        i + 1 <= usize::MAX,
                ;
                assert(usize::MAX * (usize::MAX as u128) <= u128::MAX) by (nonlinear_arith)
                    requires
                        usize::MAX <= 0xffff_ffff_ffff_ffff,
                ;
            }
            total = total + len;
            proof {
                let more = self.resident@.take(i + 1);
                assert(more.drop_last() =~= self.resident@.take(i as int));
                assert(more.last() == self.resident@[i as int]);
            }
            i = i + 1;
        }
        proof {
            assert(self.resident@.take(i as int) =~= self.resident@);
        }
        total
    }

    /// Keep a bevy as the most recently used, reading it if it is not kept.
    fn load_bevy(&mut self, bevy: u64, locus: &Locus) -> (r: Result<(), Error>)
        requires
            old(self).wf(),
        ensures
            final(self).wf(),
            final(self).stream == old(self).stream,
            final(self).volume == old(self).volume,
            final(self).cache == old(self).cache,
            r is Ok ==> final(self).resident@.len() > 0 && final(self).resident@.last().number
                == bevy,
            r matches Err(e) ==> bevy_read(
                old(self).stream@,
                old(self).volume,
                bevy as nat,
                locus@,
            ) == Err::<(Seq<u8>, Seq<ChunkLocation>), ErrorView>(e@),
    {
        match self.find_bevy(bevy) {
            Some(at) => {
                let ghost before = self.resident@;
                let hit = self.resident.remove(at);
                self.resident.push(hit);
                proof {
                    occupied_without(before, at as int);
                    assert(self.resident@.drop_last() =~= before.remove(at as int));
                }
                return Ok(());
            },
            None => {},
        }
        let bevy_name = match self.stream.bevy_name(&self.volume_arn, bevy) {
            Some(name) => name,
            None => return Err(
                Error::malformed(
                    locus.clone(),
                    text::cat5(
                        "stream ",
                        self.stream.arn.as_str(),
                        " names no member of volume ",
                        self.volume_arn.as_str(),
                        "; its data is stored elsewhere, which this build cannot follow",
                    ),
                ),
            ),
        };
        let index_name = text::cat2(bevy_name.as_str(), INDEX_SUFFIX);
        let index = match self.volume.read_segment(index_name.as_str()) {
            Ok(data) => data,
            Err(e) => return Err(e),
        };
        let locations = match parse_index_bounded(
            index.as_slice(),
            self.stream.chunks_in_segment,
            &locus.segment(index_name.as_str()),
        ) {
            Ok(list) => list,
            Err(e) => return Err(e),
        };
        let data = match self.volume.read_segment(bevy_name.as_str()) {
            Ok(data) => data,
            Err(e) => return Err(e),
        };
        while self.resident.len() > 0 && over_budget(self.resident_bytes(), data.len())
            invariant
                self.wf(),
                self.stream == old(self).stream,
                self.volume == old(self).volume,
                self.cache == old(self).cache,
            decreases self.resident.len(),
        {
            proof {
                occupied_without(self.resident@, 0);
            }
            self.resident.remove(0);
        }
        let ghost before = self.resident@;
        self.resident.push(Bevy { number: bevy, data, locations });
        proof {
            assert(self.resident@.drop_last() =~= before);
        }
        Ok(())
    }
}

/// Whether kept bevies and one more exceed the budget.
fn over_budget(kept: u128, incoming: usize) -> (r: bool)
    ensures
        r == (kept + incoming > BEVY_CACHE_BYTES),
{
    kept > BEVY_CACHE_BYTES as u128 || incoming as u128 > BEVY_CACHE_BYTES as u128 - kept
}

/// How many bytes of a stream lie before chunk `k`: all, where the stream ends before.
pub open spec fn bytes_before(s: StreamView, k: nat) -> nat {
    if k * s.chunk_size < s.size {
        (k * s.chunk_size) as nat
    } else {
        s.size as nat
    }
}

/// Whether the volume has every chunk of a stream, each as long as the chunk size but
/// for the last, which is as long as the stream's size says.
#[verifier::opaque]
pub open spec fn chunks_full<V: Volume>(s: StreamView, volume: &V) -> bool {
    forall|k: nat|
        k * s.chunk_size < s.size ==> chunk_full(s, #[trigger] plain_chunk(s, volume, k), k)
}

/// Whether a chunk is as long as it should be.
pub open spec fn chunk_full(s: StreamView, plain: Option<Seq<u8>>, k: nat) -> bool {
    plain matches Some(p) && p.len() == bytes_before(s, k + 1) - k * s.chunk_size
}

/// A place in a stream lies in a chunk that is long enough to hold it.
proof fn place_is_held<V: Volume>(s: StreamView, volume: &V, a: nat)
    requires
        chunks_full(s, volume),
        s.chunk_size > 0,
        a < s.size,
    ensures
        plain_chunk(s, volume, a / s.chunk_size as nat) is Some,
        (a % s.chunk_size as nat) < plain_chunk(
            s,
            volume,
            a / s.chunk_size as nat,
        )->Some_0.len(),
        plain_chunk(s, volume, a / s.chunk_size as nat)->Some_0.len() <= s.chunk_size,
        (a / s.chunk_size as nat) * s.chunk_size + plain_chunk(
            s,
            volume,
            a / s.chunk_size as nat,
        )->Some_0.len() <= s.size,
        a == (a / s.chunk_size as nat) * s.chunk_size + a % s.chunk_size as nat,
{
    let n = s.chunk_size as int;
    let k = a as int / n;
    vstd::arithmetic::div_mod::lemma_fundamental_div_mod(a as int, n);
    assert(n * k == k * n && (k + 1) * n == k * n + n) by (nonlinear_arith);
    reveal(chunks_full);
    assert(chunk_full(s, plain_chunk(s, volume, k as nat), k as nat));
}

/// The bytes that the chunk at a place holds from there on.
#[verifier::opaque]
spec fn tail_at<V: Volume>(s: StreamView, volume: &V, a: nat) -> Seq<u8> {
    plain_chunk(s, volume, a / s.chunk_size as nat)->Some_0.skip(
        (a % s.chunk_size as nat) as int,
    )
}

/// The bytes of a region that the volume has.
#[verifier::opaque]
spec fn region_bytes<V: Volume>(s: StreamView, volume: &V, a: nat, c: nat) -> Option<Seq<u8>> {
    region(s, volume, a, c)
}

/// The shorter of two lengths.
spec fn shorter(a: nat, b: int) -> nat {
    if a < b {
        a
    } else {
        b as nat
    }
}

/// A chunk holds something from every place of the stream on.
proof fn tail_is_there<V: Volume>(s: StreamView, volume: &V, a: nat)
    requires
        chunks_full(s, volume),
        s.chunk_size > 0,
        a < s.size,
    ensures
        0 < tail_at(s, volume, a).len(),
        a + tail_at(s, volume, a).len() <= s.size,
{
    reveal(tail_at);
    place_is_held(s, volume, a);
}

/// Further on in a chunk there is what is left of it.
proof fn tail_further_on<V: Volume>(s: StreamView, volume: &V, a: nat, d: nat)
    requires
        chunks_full(s, volume),
        s.chunk_size > 0,
        a < s.size,
        d < tail_at(s, volume, a).len(),
    ensures
        tail_at(s, volume, a + d) == tail_at(s, volume, a).skip(d as int),
{
    reveal(tail_at);
    place_is_held(s, volume, a);
    let n = s.chunk_size as nat;
    let within = a % n;
    vstd::arithmetic::div_mod::lemma_fundamental_div_mod_converse(
        (a + d) as int,
        n as int,
        (a / n) as int,
        (within + d) as int,
    );
    assert(tail_at(s, volume, a + d) =~= tail_at(s, volume, a).skip(d as int));
}

/// A region begins with what its first chunk holds of it, and goes on behind that.
proof fn region_begins<V: Volume>(s: StreamView, volume: &V, a: nat, c: nat)
    requires
        chunks_full(s, volume),
        s.chunk_size > 0,
        a < c <= s.size,
    ensures
        ({
            let t = shorter(tail_at(s, volume, a).len(), c - a);
            region_bytes(s, volume, a, c) == (match region_bytes(s, volume, a + t, c) {
                None => None,
                Some(rest) => Some(tail_at(s, volume, a).take(t as int) + rest),
            })
        }),
{
    reveal(region_bytes);
    reveal(tail_at);
    place_is_held(s, volume, a);
    let t = shorter(tail_at(s, volume, a).len(), c - a);
    let within = a % s.chunk_size as nat;
    let plain = plain_chunk(s, volume, a / s.chunk_size as nat)->Some_0;
    assert(tail_at(s, volume, a).take(t as int) =~= plain.subrange(
        within as int,
        within + t as int,
    ));
}

/// A region of nothing is empty.
proof fn region_of_nothing<V: Volume>(s: StreamView, volume: &V, a: nat)
    ensures
        region_bytes(s, volume, a, a) == Some(Seq::<u8>::empty()),
{
    reveal(region_bytes);
}

/// Two regions side by side hold what the region of both does.
#[verifier::spinoff_prover]
#[verifier::rlimit(40)]
proof fn region_bytes_join<V: Volume>(s: StreamView, volume: &V, a: nat, b: nat, c: nat)
    requires
        chunks_full(s, volume),
        s.chunk_size > 0,
        a <= b <= c <= s.size,
    ensures
        region_bytes(s, volume, a, b) is Some,
        region_bytes(s, volume, b, c) is Some,
        region_bytes(s, volume, a, c) == Some(
            region_bytes(s, volume, a, b)->Some_0 + region_bytes(s, volume, b, c)->Some_0,
        ),
    decreases c - a,
{
    let none = Seq::<u8>::empty();
    region_of_nothing(s, volume, a);
    region_of_nothing(s, volume, b);
    if a == c {
        assert(none + none =~= none);
    } else {
        tail_is_there(s, volume, a);
        let tail = tail_at(s, volume, a);
        let t = shorter(tail.len(), c - a);
        region_begins(s, volume, a, c);
        region_bytes_join(s, volume, a + t, a + t, c);
        let rest = region_bytes(s, volume, a + t, c)->Some_0;
        let head = tail.take(t as int);
        if a == b {
            assert(none + (head + rest) =~= head + rest);
        } else if tail.len() <= b - a {
            region_bytes_join(s, volume, a + t, b, c);
            region_begins(s, volume, a, b);
            let x = region_bytes(s, volume, a + t, b)->Some_0;
            let y = region_bytes(s, volume, b, c)->Some_0;
            assert(head + (x + y) =~= (head + x) + y);
        } else {
            let d = (b - a) as nat;
            region_begins(s, volume, a, b);
            let piece = tail.take(d as int);
            assert(piece + none =~= piece);
            if b == c {
                assert(head + rest =~= piece + none);
            } else {
                tail_further_on(s, volume, a, d);
                region_begins(s, volume, b, c);
                let second = tail.skip(d as int).take(t - d);
                assert(head + rest =~= piece + (second + rest));
            }
        }
    }
}

/// Two regions side by side hold what the region of both does.
proof fn regions_join<V: Volume>(s: StreamView, volume: &V, a: nat, b: nat, c: nat)
    requires
        chunks_full(s, volume),
        s.chunk_size > 0,
        a <= b <= c <= s.size,
    ensures
        region(s, volume, a, b) is Some,
        region(s, volume, b, c) is Some,
        region(s, volume, a, c) == Some(
            region(s, volume, a, b)->Some_0 + region(s, volume, b, c)->Some_0,
        ),
{
    region_bytes_join(s, volume, a, b, c);
    reveal(region_bytes);
}

/// What a stream has delivered after some chunks of a bevy is its region up to there.
#[verifier::spinoff_prover]
#[verifier::rlimit(40)]
proof fn chunks_deliver_region<V: Volume>(
    s: StreamView,
    volume: &V,
    locus: LocusView,
    b: nat,
    bevy: Seq<u8>,
    locations: Seq<ChunkLocation>,
    i: nat,
)
    requires
        chunks_full(s, volume),
        s.chunk_size > 0,
        s.chunks_in_segment > 0,
        bevy_loaded_is(s, volume, b, bevy, locations),
        i <= locations.len(),
        locations.len() <= s.chunks_in_segment,
        b * s.chunks_in_segment * s.chunk_size < s.size,
    ensures
        after_chunks(
            s,
            bevy,
            locations,
            locus,
            region(s, volume, 0, bytes_before(s, b * s.chunks_in_segment as nat))->Some_0,
            i,
        ) == Ok::<Seq<u8>, ErrorView>(
            region(s, volume, 0, bytes_before(s, b * s.chunks_in_segment as nat + i))->Some_0,
        ),
    decreases i,
{
    reveal(chunks_full);
    if i > 0 {
        chunks_deliver_region(s, volume, locus, b, bevy, locations, (i - 1) as nat);
        let k = (b * s.chunks_in_segment as nat + i - 1) as nat;
        let m = bytes_before(s, k);
        let next = bytes_before(s, k + 1);
        assert((k + 1) * s.chunk_size == k * s.chunk_size + s.chunk_size) by (nonlinear_arith);
        regions_join(s, volume, 0, 0, m);
        region_len(s, volume, 0, m);
        if m < s.size {
            vstd::arithmetic::div_mod::lemma_fundamental_div_mod_converse(
                k as int,
                s.chunks_in_segment as int,
                b as int,
                i - 1,
            );
            assert(chunk_full(s, plain_chunk(s, volume, k), k));
            let plain = plain_chunk(s, volume, k)->Some_0;
            decoding_is_placeless(s, bevy, locations[i - 1], (i - 1) as nat, locus);
            vstd::arithmetic::div_mod::lemma_fundamental_div_mod_converse(
                m as int,
                s.chunk_size as int,
                k as int,
                0,
            );
            assert(region(s, volume, next, next) == Some(Seq::<u8>::empty()));
            assert(plain.subrange(0, plain.len() as int) + Seq::<u8>::empty() =~= plain);
            assert(region(s, volume, m, next) == Some(plain));
            regions_join(s, volume, 0, m, next);
        }
    }
}

/// Whether a bevy and its index are what the volume holds.
spec fn bevy_loaded_is<V: Volume>(
    s: StreamView,
    volume: &V,
    b: nat,
    bevy: Seq<u8>,
    locations: Seq<ChunkLocation>,
) -> bool {
    &&& locations_of(s, volume, b) == Some(locations)
    &&& bevy_member(s, volume.name(), b) is Some
    &&& volume.outcome(bevy_member(s, volume.name(), b)->Some_0) == Ok::<Seq<u8>, ErrorView>(bevy)
}

/// What a stream has delivered after some bevies is its region up to there.
#[verifier::spinoff_prover]
#[verifier::rlimit(40)]
proof fn bevies_deliver_region<V: Volume>(
    s: StreamView,
    volume: &V,
    locus: LocusView,
    n: nat,
)
    requires
        chunks_full(s, volume),
        s.chunk_size > 0,
        s.chunks_in_segment > 0,
    ensures
        after_bevies(s, volume, locus, n) == Ok::<Seq<u8>, ErrorView>(
            region(s, volume, 0, bytes_before(s, n * s.chunks_in_segment as nat))->Some_0,
        ),
    decreases n,
{
    reveal(chunks_full);
    let per = s.chunks_in_segment as nat;
    if n == 0 {
        assert(0 * per == 0 && 0 * s.chunk_size == 0) by (nonlinear_arith);
        assert(region(s, volume, 0, 0) == Some(Seq::<u8>::empty()));
    } else {
        let b = (n - 1) as nat;
        bevies_deliver_region(s, volume, locus, b);
        let first = b * per;
        let m = bytes_before(s, first);
        assert(n * per == first + per) by (nonlinear_arith)
            requires
                n == b + 1,
                first == b * per,
        ;
        assert((first + per) * s.chunk_size == first * s.chunk_size + per * s.chunk_size)
            by (nonlinear_arith);
        assert(per * s.chunk_size >= 0) by (nonlinear_arith);
        regions_join(s, volume, 0, 0, m);
        region_len(s, volume, 0, m);
        if m < s.size {
            vstd::arithmetic::div_mod::lemma_fundamental_div_mod_converse(
                first as int,
                per as int,
                b as int,
                0,
            );
            assert(chunk_full(s, plain_chunk(s, volume, first), first));
            let locations = locations_of(s, volume, b)->Some_0;
            let name = bevy_member(s, volume.name(), b)->Some_0;
            let bevy = volume.outcome(name)->Ok_0;
            let count = locations.len();
            chunks_deliver_region(s, volume, locus.segment(name), b, bevy, locations, count);
            if count < per {
                let k = first + count;
                vstd::arithmetic::div_mod::lemma_fundamental_div_mod_converse(
                    k as int,
                    per as int,
                    b as int,
                    count as int,
                );
                if k * s.chunk_size < s.size {
                    assert(chunk_full(s, plain_chunk(s, volume, k), k));
                }
                assert(k * s.chunk_size <= (first + per) * s.chunk_size) by (nonlinear_arith)
                    requires
                        k <= first + per,
                ;
            }
        }
    }
}

/// A region of a stream is the part of it that lies there: what reading the whole stream
/// delivers, cut to the region. Every chunk but the last has to be as long as the
/// chunk size, since it is by the chunk size that a chunk is found.
#[verifier::spinoff_prover]
#[verifier::rlimit(40)]
pub proof fn regions_are_cuts<V: Volume>(
    s: StreamView,
    volume: &V,
    locus: LocusView,
    from: nat,
    to: nat,
)
    requires
        chunks_full(s, volume),
        s.chunk_size > 0,
        s.chunks_in_segment > 0,
        from <= to <= s.size,
    ensures
        stream_content(s, volume, locus) is Ok,
        region(s, volume, from, to) == Some(
            stream_content(s, volume, locus)->Ok_0.subrange(from as int, to as int),
        ),
{
    let size = s.size as nat;
    let n = bevies_of(s);
    let per = s.chunks_in_segment as nat;
    let width = s.chunk_size as nat;
    bevies_deliver_region(s, volume, locus.subject(s.arn), n);
    assert(width * per >= 1) by (nonlinear_arith)
        requires
            width >= 1,
            per >= 1,
    ;
    if size > 0 {
        let span = per_bevy(width, per);
        vstd::arithmetic::div_mod::lemma_fundamental_div_mod((size - 1) as int, span as int);
        let q = (size - 1) as int / span as int;
        assert((q + 1) * span == span * q + span) by (nonlinear_arith);
        assert(n * per * width == n * span) by (nonlinear_arith)
            requires
                span == width * per,
        ;
    } else {
        assert(0 * per * width == 0) by (nonlinear_arith);
    }
    assert(bytes_before(s, n * per) == size);
    regions_join(s, volume, 0, from, size);
    regions_join(s, volume, from, to, size);
    region_len(s, volume, 0, from);
    region_len(s, volume, from, to);
    region_len(s, volume, to, size);
    region_len(s, volume, 0, size);
    let whole = region(s, volume, 0, size)->Some_0;
    assert(whole.subrange(from as int, to as int) =~= region(s, volume, from, to)->Some_0);
}

} // verus!
