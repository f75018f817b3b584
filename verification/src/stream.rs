//! Reading an image stream: bevies, chunk indices and assembly.
//!
//! A stream stores its data in bevies, numbered segments that each hold a fixed
//! number of chunks back to back. Beside each bevy stands an index of 12-byte
//! entries: an 8-byte offset and a 4-byte length per chunk.

use vstd::prelude::*;

use crate::arn::{member_of, Arn, NameMapping};
use crate::bytes;
use crate::codec::{chunk_decoded, codec_of_iri, decompress_chunk, Codec};
use crate::error::{malformed, unsupported, Error, ErrorView, Locus, LocusView};
use crate::hash::MultiHasher;
use crate::lexicon::Lexicon;
use crate::model::HashAlgorithm;
use crate::rdf::{lexical_text, object_of, Graph, TermView, TripleView};
use crate::text;
use crate::verify::report::{of_reading, NoProgress, Progress, ProgressObserver, ProgressView};
use crate::volume::Volume;

verus! {

/// Bytes per index entry: an 8-byte offset and a 4-byte length.
pub const INDEX_ENTRY_LEN: usize = 12;

/// The suffix naming a bevy's index.
pub const INDEX_SUFFIX: &'static str = ".index";

/// One chunk's place within its bevy.
#[derive(Debug, Clone, Copy, PartialEq, Eq, Structural)]
pub struct ChunkLocation {
    /// The chunk's offset within the bevy.
    pub offset: u64,
    /// The chunk's stored length.
    pub length: u32,
}

/// The `i`th entry of an index.
pub open spec fn index_entry(index: Seq<u8>, i: int) -> ChunkLocation {
    ChunkLocation {
        offset: bytes::le_value(index.subrange(12 * i, 12 * i + 8)) as u64,
        length: bytes::le_value(index.subrange(12 * i + 8, 12 * i + 12)) as u32,
    }
}

/// What is said of an index without entries.
pub open spec fn empty_index_text() -> Seq<char> {
    "the bevy index is empty; the bevy holds no locatable chunks"@
}

/// What is said of an index that does not end with an entry.
pub open spec fn ragged_index_text(len: nat) -> Seq<char> {
    "the bevy index is "@ + text::decimal(len) + " bytes, not a whole number of 12-byte entries ("@
        + text::decimal(len % 12) + " left over)"@
}

/// What is said of an index with more entries than a bevy has chunks.
pub open spec fn long_index_text(entries: nat, chunks: nat) -> Seq<char> {
    "the bevy index lists "@ + text::decimal(entries) + " chunks but the stream declares "@
        + text::decimal(
        chunks,
    ) + " chunks per bevy; the index and the metadata disagree, so no chunk in it can be located with confidence"@
}

/// The entries of an index, or what is wrong with it.
pub open spec fn index_parsed(index: Seq<u8>, locus: LocusView) -> Result<
    Seq<ChunkLocation>,
    ErrorView,
> {
    if index.len() == 0 {
        Err(malformed(locus, empty_index_text()))
    } else if index.len() % 12 != 0 {
        Err(malformed(locus, ragged_index_text(index.len())))
    } else {
        Ok(Seq::new(index.len() / 12, |i: int| index_entry(index, i)))
    }
}

/// The entries of an index that may hold at most `chunks`.
pub open spec fn index_bounded(index: Seq<u8>, chunks: nat, locus: LocusView) -> Result<
    Seq<ChunkLocation>,
    ErrorView,
> {
    if index.len() / 12 > chunks {
        Err(malformed(locus, long_index_text(index.len() / 12, chunks)))
    } else {
        index_parsed(index, locus)
    }
}

/// Decode an index into chunk locations.
pub fn parse_index(index: &[u8], locus: &Locus) -> (r: Result<Vec<ChunkLocation>, Error>)
    ensures
        (match r {
            Ok(list) => index_parsed(index@, locus@) == Ok::<Seq<ChunkLocation>, ErrorView>(list@),
            Err(e) => index_parsed(index@, locus@) == Err::<Seq<ChunkLocation>, ErrorView>(e@),
        }),
{
    if index.len() == 0 {
        return Err(
            Error::malformed(
                locus.clone(),
                text::owned("the bevy index is empty; the bevy holds no locatable chunks"),
            ),
        );
    }
    if index.len() % INDEX_ENTRY_LEN != 0 {
        return Err(
            Error::malformed(
                locus.clone(),
                text::cat5(
                    "the bevy index is ",
                    text::dec_usize(index.len()).as_str(),
                    " bytes, not a whole number of 12-byte entries (",
                    text::dec_usize(index.len() % INDEX_ENTRY_LEN).as_str(),
                    " left over)",
                ),
            ),
        );
    }
    let count: usize = index.len() / INDEX_ENTRY_LEN;
    let mut out: Vec<ChunkLocation> = Vec::new();
    let mut i: usize = 0;
    while i < count
        invariant
            i <= count,
            count == index.len() / 12,
            index.len() % 12 == 0,
            out@.len() == i,
            forall|k: int| 0 <= k < i ==> out@[k] == index_entry(index@, k),
        decreases count - i,
    {
        let at: usize = i * INDEX_ENTRY_LEN;
        out.push(
            ChunkLocation {
                offset: bytes::u64_at(index, at),
                length: bytes::u32_at(index, at + 8),
            },
        );
        i = i + 1;
    }
    proof {
        assert(out@ == Seq::new(index@.len() / 12, |i: int| index_entry(index@, i)));
    }
    Ok(out)
}

/// Decode an index, refusing one that lists more chunks than a bevy holds.
pub fn parse_index_bounded(index: &[u8], chunks_in_segment: usize, locus: &Locus) -> (r: Result<
    Vec<ChunkLocation>,
    Error,
>)
    ensures
        (match r {
            Ok(list) => index_bounded(index@, chunks_in_segment as nat, locus@) == Ok::<
                Seq<ChunkLocation>,
                ErrorView,
            >(list@),
            Err(e) => index_bounded(index@, chunks_in_segment as nat, locus@) == Err::<
                Seq<ChunkLocation>,
                ErrorView,
            >(e@),
        }),
{
    let entries: usize = index.len() / INDEX_ENTRY_LEN;
    if entries > chunks_in_segment {
        return Err(
            Error::malformed(
                locus.clone(),
                text::cat5(
                    "the bevy index lists ",
                    text::dec_usize(entries).as_str(),
                    " chunks but the stream declares ",
                    text::dec_usize(chunks_in_segment).as_str(),
                    " chunks per bevy; the index and the metadata disagree, so no chunk in it can be located with confidence",
                ),
            ),
        );
    }
    parse_index(index, locus)
}

/// What is said of a chunk whose offset no memory can hold.
pub open spec fn far_chunk_text(chunk: nat, offset: nat) -> Seq<char> {
    "chunk "@ + text::decimal(chunk) + " claims offset "@ + text::decimal(offset) + " "@
}

/// What is said of a chunk whose end is not a number.
pub open spec fn overflowing_chunk_text(chunk: nat, start: nat, length: nat) -> Seq<char> {
    "chunk "@ + text::decimal(chunk) + " at offset "@ + text::decimal(start) + " with length "@
        + text::decimal(length) + " overflows when added"@
}

/// What is said of a chunk that ends after its bevy.
pub open spec fn long_chunk_text(chunk: nat, start: nat, end: nat, bevy: nat) -> Seq<char> {
    "chunk "@ + text::decimal(chunk) + " spans bytes "@ + (text::decimal(start) + ".."@
        + text::decimal(end)) + " but the bevy is only "@ + text::decimal(bevy)
        + " bytes; the index and the bevy disagree"@
}

/// What is said of a chunk without bytes.
pub open spec fn empty_chunk_text(chunk: nat) -> Seq<char> {
    "chunk "@ + text::decimal(chunk) + " has zero length; a chunk always holds data"@
}

/// The stored bytes of one chunk of a bevy, or why there are none.
pub open spec fn chunk_stored(
    bevy: Seq<u8>,
    location: ChunkLocation,
    chunk: nat,
    locus: LocusView,
) -> Result<Seq<u8>, ErrorView> {
    let start = location.offset as nat;
    let end = location.offset as nat + location.length as nat;
    if start > usize::MAX {
        Err(malformed(locus, far_chunk_text(chunk, start)))
    } else if end > usize::MAX {
        Err(malformed(locus, overflowing_chunk_text(chunk, start, location.length as nat)))
    } else if end > bevy.len() {
        Err(malformed(locus, long_chunk_text(chunk, start, end, bevy.len())))
    } else if location.length == 0 {
        Err(malformed(locus, empty_chunk_text(chunk)))
    } else {
        Ok(bevy.subrange(start as int, end as int))
    }
}

/// Borrow one chunk out of a bevy, checking that it lies within.
pub fn slice_chunk<'b>(
    bevy: &'b [u8],
    location: ChunkLocation,
    chunk_index: usize,
    locus: &Locus,
) -> (r: Result<&'b [u8], Error>)
    ensures
        (match r {
            Ok(data) => chunk_stored(bevy@, location, chunk_index as nat, locus@) == Ok::<
                Seq<u8>,
                ErrorView,
            >(data@),
            Err(e) => chunk_stored(bevy@, location, chunk_index as nat, locus@) == Err::<
                Seq<u8>,
                ErrorView,
            >(e@),
        }),
{
    if location.offset > usize::MAX as u64 {
        return Err(
            Error::malformed(
                locus.clone(),
                text::cat5(
                    "chunk ",
                    text::dec_usize(chunk_index).as_str(),
                    " claims offset ",
                    text::dec(location.offset).as_str(),
                    " ",
                ),
            ),
        );
    }
    let start: usize = location.offset as usize;
    if location.length as u64 > (usize::MAX - start) as u64 {
        return Err(
            Error::malformed(
                locus.clone(),
                text::cat7(
                    "chunk ",
                    text::dec_usize(chunk_index).as_str(),
                    " at offset ",
                    text::dec_usize(start).as_str(),
                    " with length ",
                    text::dec(location.length as u64).as_str(),
                    " overflows when added",
                ),
            ),
        );
    }
    let length: usize = location.length as usize;
    let end: usize = start + length;
    if end > bevy.len() {
        return Err(
            Error::malformed(
                locus.clone(),
                text::cat7(
                    "chunk ",
                    text::dec_usize(chunk_index).as_str(),
                    " spans bytes ",
                    text::cat3(
                        text::dec_usize(start).as_str(),
                        "..",
                        text::dec_usize(end).as_str(),
                    ).as_str(),
                    " but the bevy is only ",
                    text::dec_usize(bevy.len()).as_str(),
                    " bytes; the index and the bevy disagree",
                ),
            ),
        );
    }
    if length == 0 {
        return Err(
            Error::malformed(
                locus.clone(),
                text::cat3(
                    "chunk ",
                    text::dec_usize(chunk_index).as_str(),
                    " has zero length; a chunk always holds data",
                ),
            ),
        );
    }
    Ok(vstd::slice::slice_subrange(bevy, start, end))
}

/// An image stream's parameters.
#[derive(Debug)]
pub struct ImageStream {
    /// The stream's name.
    pub arn: Arn,
    /// Its declared length.
    pub size: u64,
    /// The plain length of each chunk.
    pub chunk_size: usize,
    /// How many chunks a bevy holds.
    pub chunks_in_segment: usize,
    /// How chunks are encoded.
    pub codec: Codec,
}

/// What an [`ImageStream`] says, as plain values.
#[verifier::ext_equal]
pub struct StreamView {
    /// The stream's name.
    pub arn: Seq<char>,
    /// Its declared length.
    pub size: u64,
    /// The plain length of each chunk.
    pub chunk_size: usize,
    /// How many chunks a bevy holds.
    pub chunks_in_segment: usize,
    /// How chunks are encoded.
    pub codec: Codec,
}

impl View for ImageStream {
    type V = StreamView;

    open spec fn view(&self) -> StreamView {
        StreamView {
            arn: self.arn@,
            size: self.size,
            chunk_size: self.chunk_size,
            chunks_in_segment: self.chunks_in_segment,
            codec: self.codec,
        }
    }
}

impl Clone for ImageStream {
    fn clone(&self) -> (r: Self)
        ensures
            r@ == self@,
    {
        ImageStream {
            arn: self.arn.clone(),
            size: self.size,
            chunk_size: self.chunk_size,
            chunks_in_segment: self.chunks_in_segment,
            codec: self.codec,
        }
    }
}

/// The bytes a bevy covers, at least one.
pub open spec fn per_bevy(chunk_size: nat, chunks_in_segment: nat) -> nat {
    if chunk_size * chunks_in_segment < 1 {
        1
    } else {
        chunk_size * chunks_in_segment
    }
}

/// How many bevies a stream spans: its size over a bevy's, rounded up.
pub open spec fn bevies_of(s: StreamView) -> nat {
    if s.size == 0 {
        0
    } else {
        ((s.size - 1) as nat / per_bevy(s.chunk_size as nat, s.chunks_in_segment as nat) + 1) as nat
    }
}

/// The member of bevy `number` under `base`: eight digits at least.
pub open spec fn bevy_member_name(base: Seq<char>, number: nat) -> Seq<char> {
    base + "/"@ + text::zero_padded(text::decimal(number), 8)
}

/// The member of a stream's bevy in a volume, if the stream is a member of it.
pub open spec fn bevy_member(s: StreamView, volume: Seq<char>, number: nat) -> Option<Seq<char>> {
    match member_of(s.arn, volume, NameMapping::Escaped) {
        Some(base) => Some(bevy_member_name(base, number)),
        None => None,
    }
}

/// What is said of a stream that is no member of the volume.
pub open spec fn elsewhere_text(stream: Seq<char>, volume: Seq<char>) -> Seq<char> {
    "stream "@ + stream + " names no member of volume "@ + volume
        + "; its data is stored elsewhere, which this build cannot follow"@
}

/// What is said of a stream that delivers another length than it declares.
pub open spec fn short_stream_text(stream: Seq<char>, delivered: nat, size: nat) -> Seq<char> {
    "stream "@ + stream + " delivered "@ + text::decimal(delivered) + " bytes but declares "@
        + text::decimal(size)
        + "; a short read would produce a digest that does not match the evidence"@
}

/// The plain bytes of one chunk of a bevy, or why there are none.
pub open spec fn chunk_of_bevy(
    s: StreamView,
    bevy: Seq<u8>,
    location: ChunkLocation,
    chunk: nat,
    bevy_locus: LocusView,
) -> Result<Seq<u8>, ErrorView> {
    let locus = bevy_locus.byte_offset(location.offset);
    match chunk_stored(bevy, location, chunk, locus) {
        Err(e) => Err(e),
        Ok(stored) => chunk_decoded(s.codec, stored, s.chunk_size as nat, locus),
    }
}

/// The plain bytes of the first `n` chunks of a bevy, or what is wrong with the
/// first one that has none.
pub open spec fn chunks_of_bevy(
    s: StreamView,
    bevy: Seq<u8>,
    locations: Seq<ChunkLocation>,
    bevy_locus: LocusView,
    n: nat,
) -> Result<Seq<Seq<u8>>, ErrorView>
    decreases n,
{
    if n == 0 {
        Ok(Seq::empty())
    } else {
        match chunks_of_bevy(s, bevy, locations, bevy_locus, (n - 1) as nat) {
            Err(e) => Err(e),
            Ok(before) => match chunk_of_bevy(
                s,
                bevy,
                locations[n - 1],
                (n - 1) as nat,
                bevy_locus,
            ) {
                Err(e) => Err(e),
                Ok(plain) => Ok(before.push(plain)),
            },
        }
    }
}

/// Every chunk of a bevy, from the bevy's bytes and its index's.
pub open spec fn bevy_decoded(
    s: StreamView,
    bevy: Seq<u8>,
    index: Seq<u8>,
    bevy_locus: LocusView,
    index_locus: LocusView,
) -> Result<Seq<Seq<u8>>, ErrorView> {
    match index_bounded(index, s.chunks_in_segment as nat, index_locus) {
        Err(e) => Err(e),
        Ok(locations) => chunks_of_bevy(s, bevy, locations, bevy_locus, locations.len()),
    }
}

/// The first `n` bytes, or all of them where there are fewer.
pub open spec fn at_most(data: Seq<u8>, n: int) -> Seq<u8> {
    if data.len() > n {
        data.take(n)
    } else {
        data
    }
}

/// What a stream has delivered after the first `n` chunks of a bevy, having
/// delivered `before` ahead of it. Delivery stops at the declared size.
pub open spec fn after_chunks(
    s: StreamView,
    bevy: Seq<u8>,
    locations: Seq<ChunkLocation>,
    bevy_locus: LocusView,
    before: Seq<u8>,
    n: nat,
) -> Result<Seq<u8>, ErrorView>
    decreases n,
{
    if n == 0 {
        Ok(before)
    } else {
        match after_chunks(s, bevy, locations, bevy_locus, before, (n - 1) as nat) {
            Err(e) => Err(e),
            Ok(out) => if out.len() >= s.size {
                Ok(out)
            } else {
                match chunk_of_bevy(s, bevy, locations[n - 1], (n - 1) as nat, bevy_locus) {
                    Err(e) => Err(e),
                    Ok(plain) => Ok(out + at_most(plain, s.size - out.len())),
                }
            },
        }
    }
}

/// What a stream has delivered after its first `n` bevies.
pub open spec fn after_bevies<V: Volume>(s: StreamView, volume: &V, locus: LocusView, n: nat) -> Result<
    Seq<u8>,
    ErrorView,
>
    decreases n,
{
    if n == 0 {
        Ok(Seq::empty())
    } else {
        match after_bevies(s, volume, locus, (n - 1) as nat) {
            Err(e) => Err(e),
            Ok(out) => if out.len() >= s.size {
                Ok(out)
            } else {
                match bevy_member(s, volume.name(), (n - 1) as nat) {
                    None => Err(malformed(locus, elsewhere_text(s.arn, volume.name()))),
                    Some(name) => match volume.outcome(name + INDEX_SUFFIX@) {
                        Err(e) => Err(e),
                        Ok(index) => match volume.outcome(name) {
                            Err(e) => Err(e),
                            Ok(bevy) => match index_bounded(
                                index,
                                s.chunks_in_segment as nat,
                                locus.segment(name + INDEX_SUFFIX@),
                            ) {
                                Err(e) => Err(e),
                                Ok(locations) => after_chunks(
                                    s,
                                    bevy,
                                    locations,
                                    locus.segment(name),
                                    out,
                                    locations.len(),
                                ),
                            },
                        },
                    },
                }
            },
        }
    }
}

/// The whole content of a stream, or why it has none.
pub open spec fn stream_content<V: Volume>(s: StreamView, volume: &V, locus: LocusView) -> Result<
    Seq<u8>,
    ErrorView,
> {
    let place = locus.subject(s.arn);
    match after_bevies(s, volume, place, bevies_of(s)) {
        Err(e) => Err(e),
        Ok(out) => if out.len() == s.size {
            Ok(out)
        } else {
            Err(malformed(place, short_stream_text(s.arn, out.len(), s.size as nat)))
        },
    }
}

/// What is reported of the first `n` chunks of a bevy: after each that is delivered,
/// how many bytes there are.
pub open spec fn chunk_events(
    s: StreamView,
    bevy: Seq<u8>,
    locations: Seq<ChunkLocation>,
    bevy_locus: LocusView,
    before: Seq<u8>,
    n: nat,
) -> Seq<ProgressView>
    decreases n,
{
    if n == 0 {
        Seq::empty()
    } else {
        let earlier = chunk_events(s, bevy, locations, bevy_locus, before, (n - 1) as nat);
        match after_chunks(s, bevy, locations, bevy_locus, before, (n - 1) as nat) {
            Ok(out) => match after_chunks(s, bevy, locations, bevy_locus, before, n) {
                Ok(more) => if out.len() < s.size {
                    earlier.push(
                        ProgressView::Bytes {
                            arn: s.arn,
                            done: more.len() as u64,
                            total: Some(s.size),
                        },
                    )
                } else {
                    earlier
                },
                Err(_) => earlier,
            },
            Err(_) => earlier,
        }
    }
}

/// A bevy's name, bytes and index entries, where the volume has them.
pub open spec fn bevy_loaded<V: Volume>(
    s: StreamView,
    volume: &V,
    locus: LocusView,
    number: nat,
) -> Option<(Seq<char>, Seq<u8>, Seq<ChunkLocation>)> {
    match bevy_member(s, volume.name(), number) {
        None => None,
        Some(name) => match volume.outcome(name + INDEX_SUFFIX@) {
            Err(_) => None,
            Ok(index) => match volume.outcome(name) {
                Err(_) => None,
                Ok(bevy) => match index_bounded(
                    index,
                    s.chunks_in_segment as nat,
                    locus.segment(name + INDEX_SUFFIX@),
                ) {
                    Err(_) => None,
                    Ok(locations) => Some((name, bevy, locations)),
                },
            },
        },
    }
}

/// What is reported of one bevy: its chunks, as far as they can be delivered, and
/// then, where all of them can, that it is complete.
pub open spec fn bevy_events<V: Volume>(
    s: StreamView,
    volume: &V,
    locus: LocusView,
    before: Seq<u8>,
    number: nat,
) -> Seq<ProgressView> {
    match bevy_loaded(s, volume, locus, number) {
        None => Seq::empty(),
        Some((name, bevy, locations)) => {
            let chunks = chunk_events(
                s,
                bevy,
                locations,
                locus.segment(name),
                before,
                locations.len(),
            );
            match after_chunks(s, bevy, locations, locus.segment(name), before, locations.len()) {
                Err(_) => chunks,
                Ok(_) => chunks.push(
                    ProgressView::BevyCompleted {
                        arn: s.arn,
                        done: (number + 1) as u64,
                        total: bevies_of(s) as u64,
                    },
                ),
            }
        },
    }
}

/// What is reported of the first `n` bevies of a stream, as far as they are needed.
pub open spec fn bevies_events<V: Volume>(s: StreamView, volume: &V, locus: LocusView, n: nat) -> Seq<
    ProgressView,
>
    decreases n,
{
    if n == 0 {
        Seq::empty()
    } else {
        let earlier = bevies_events(s, volume, locus, (n - 1) as nat);
        match after_bevies(s, volume, locus, (n - 1) as nat) {
            Ok(out) => if out.len() < s.size {
                earlier + bevy_events(s, volume, locus, out, (n - 1) as nat)
            } else {
                earlier
            },
            Err(_) => earlier,
        }
    }
}

/// What is reported while a stream is read to its end.
pub open spec fn stream_events<V: Volume>(s: StreamView, volume: &V, locus: LocusView) -> Seq<
    ProgressView,
> {
    bevies_events(s, volume, locus.subject(s.arn), bevies_of(s))
}

/// The slices in which the first `n` chunks of a bevy are delivered, one for each
/// chunk, as far as they can be.
pub open spec fn chunk_slices(
    s: StreamView,
    bevy: Seq<u8>,
    locations: Seq<ChunkLocation>,
    bevy_locus: LocusView,
    before: Seq<u8>,
    n: nat,
) -> Seq<Seq<u8>>
    decreases n,
{
    if n == 0 {
        Seq::empty()
    } else {
        let earlier = chunk_slices(s, bevy, locations, bevy_locus, before, (n - 1) as nat);
        match after_chunks(s, bevy, locations, bevy_locus, before, (n - 1) as nat) {
            Err(_) => earlier,
            Ok(out) => if out.len() >= s.size {
                earlier
            } else {
                match chunk_of_bevy(s, bevy, locations[n - 1], (n - 1) as nat, bevy_locus) {
                    Err(_) => earlier,
                    Ok(plain) => earlier.push(at_most(plain, s.size - out.len())),
                }
            },
        }
    }
}

/// The slices in which the first `n` bevies of a stream are delivered, as far as they
/// can be.
pub open spec fn bevies_slices<V: Volume>(s: StreamView, volume: &V, locus: LocusView, n: nat) -> Seq<
    Seq<u8>,
>
    decreases n,
{
    if n == 0 {
        Seq::empty()
    } else {
        let earlier = bevies_slices(s, volume, locus, (n - 1) as nat);
        match after_bevies(s, volume, locus, (n - 1) as nat) {
            Err(_) => earlier,
            Ok(out) => match bevy_loaded(s, volume, locus, (n - 1) as nat) {
                None => earlier,
                Some((name, bevy, locations)) => if out.len() >= s.size {
                    earlier
                } else {
                    earlier + chunk_slices(
                        s,
                        bevy,
                        locations,
                        locus.segment(name),
                        out,
                        locations.len(),
                    )
                },
            },
        }
    }
}

/// The slices in which a stream is delivered, to its end or to what cannot be
/// delivered.
pub open spec fn stream_slices<V: Volume>(s: StreamView, volume: &V, locus: LocusView) -> Seq<
    Seq<u8>,
> {
    bevies_slices(s, volume, locus.subject(s.arn), bevies_of(s))
}

/// Whether a list has grown from `before` by the first of `all`, or by all of it.
pub open spec fn grown_within<A>(before: Seq<A>, all: Seq<A>, after: Seq<A>) -> bool {
    &&& before.len() <= after.len() <= before.len() + all.len()
    &&& after == before + all.take(after.len() - before.len())
}

/// The slices that a sink took between two moments.
pub open spec fn taken_between<S: ByteSink>(before: S, after: S) -> Seq<Seq<u8>> {
    after.slices().skip(before.slices().len() as int)
}

/// Whether some content, or what comes before its fault, was handed to a sink in slices
/// as it should have been.
///
/// Every slice is handed over in order, and a fault follows the last. A refusal is
/// handed back unchanged, and no slice follows it.
pub open spec fn handed_over<S: ByteSink>(
    content: Result<Seq<u8>, ErrorView>,
    slices: Seq<Seq<u8>>,
    before: S,
    after: S,
    r: Result<(), ErrorView>,
) -> bool {
    let whole = after.slices() == before.slices() + slices && after.received()
        == before.received() + bytes::flattened(slices) && after.refusal() == before.refusal();
    after.fixed() == before.fixed() && match r {
        Ok(()) => whole && content == Ok::<Seq<u8>, ErrorView>(bytes::flattened(slices)),
        Err(e) => (whole && content == Err::<Seq<u8>, ErrorView>(e)) || was_refused(
            slices,
            before,
            after,
            e,
        ),
    }
}

/// Whether a sink took the first of some slices and refused the next with an error.
pub open spec fn was_refused<S: ByteSink>(
    slices: Seq<Seq<u8>>,
    before: S,
    after: S,
    e: ErrorView,
) -> bool {
    &&& after.refusal() == Some(e)
    &&& grown_within(before.slices(), slices, after.slices())
    &&& after.slices().len() < before.slices().len() + slices.len()
    &&& after.received() == before.received() + bytes::flattened(taken_between(before, after))
}

/// Whether reading a stream into a sink left the sink as it should have.
///
/// A stream that cannot be delivered delivers what comes before the fault, and no more.
pub open spec fn stream_read<V: Volume, S: ByteSink>(
    s: StreamView,
    volume: &V,
    locus: LocusView,
    before: S,
    after: S,
    r: Result<(), ErrorView>,
) -> bool {
    handed_over(
        stream_content(s, volume, locus),
        stream_slices(s, volume, locus),
        before,
        after,
        r,
    )
}

/// How many of some reports are of bytes delivered.
pub open spec fn slices_told(events: Seq<ProgressView>) -> nat
    decreases events.len(),
{
    if events.len() == 0 {
        0
    } else {
        slices_told(events.drop_last()) + if events.last() is Bytes {
            1nat
        } else {
            0nat
        }
    }
}

/// Whether a log has grown by what comes before the report of slice `taken`: by the
/// report of every slice before it, and of every bevy that was complete by then.
pub open spec fn told_up_to(
    log0: Seq<ProgressView>,
    events: Seq<ProgressView>,
    taken: nat,
    log1: Seq<ProgressView>,
) -> bool {
    let n = log1.len() - log0.len();
    &&& 0 <= n < events.len()
    &&& events[n] is Bytes
    &&& slices_told(events.take(n)) == taken
    &&& log1 == log0 + events.take(n)
}

/// Whether an observer was told of a stream that was read into a sink what it should
/// have been: of every slice and every bevy, or, where a slice was refused, of what came
/// before it.
pub open spec fn stream_told<V: Volume, S: ByteSink>(
    s: StreamView,
    volume: &V,
    locus: LocusView,
    before: S,
    after: S,
    log0: Seq<ProgressView>,
    log1: Seq<ProgressView>,
) -> bool {
    let events = stream_events(s, volume, locus);
    if after.slices().len() == before.slices().len() + stream_slices(s, volume, locus).len() {
        log1 == log0 + events
    } else {
        told_up_to(log0, events, (after.slices().len() - before.slices().len()) as nat, log1)
    }
}

/// Whether no slice is longer than `n` bytes.
pub open spec fn none_longer(slices: Seq<Seq<u8>>, n: nat) -> bool {
    forall|i: int| 0 <= i < slices.len() ==> (#[trigger] slices[i]).len() <= n
}

/// No slice of a bevy's chunks is longer than a chunk.
proof fn chunk_slices_fit(
    s: StreamView,
    bevy: Seq<u8>,
    locations: Seq<ChunkLocation>,
    bevy_locus: LocusView,
    before: Seq<u8>,
    n: nat,
)
    ensures
        none_longer(
            chunk_slices(s, bevy, locations, bevy_locus, before, n),
            s.chunk_size as nat,
        ),
    decreases n,
{
    if n > 0 {
        chunk_slices_fit(s, bevy, locations, bevy_locus, before, (n - 1) as nat);
    }
}

/// No slice of a stream's bevies is longer than a chunk.
proof fn bevies_slices_fit<V: Volume>(s: StreamView, volume: &V, locus: LocusView, n: nat)
    ensures
        none_longer(bevies_slices(s, volume, locus, n), s.chunk_size as nat),
    decreases n,
{
    if n > 0 {
        bevies_slices_fit(s, volume, locus, (n - 1) as nat);
        match after_bevies(s, volume, locus, (n - 1) as nat) {
            Ok(out) => match bevy_loaded(s, volume, locus, (n - 1) as nat) {
                Some((name, bevy, locations)) => chunk_slices_fit(
                    s,
                    bevy,
                    locations,
                    locus.segment(name),
                    out,
                    locations.len(),
                ),
                None => {},
            },
            Err(_) => {},
        }
    }
}

/// A stream is delivered in slices none of which is longer than a chunk, to its end or
/// to what cannot be delivered.
pub proof fn slices_fit<V: Volume>(s: StreamView, volume: &V, locus: LocusView)
    ensures
        none_longer(stream_slices(s, volume, locus), s.chunk_size as nat),
{
    bevies_slices_fit(s, volume, locus.subject(s.arn), bevies_of(s));
}

/// The bytes of a stream's first `n` bevies, each decoded as a whole, one behind the
/// other, where all of them are there and decode.
pub open spec fn bevies_plain<V: Volume>(
    s: StreamView,
    volume: &V,
    place: LocusView,
    n: nat,
) -> Option<Seq<u8>>
    decreases n,
{
    if n == 0 {
        Some(Seq::empty())
    } else {
        match (
            bevies_plain(s, volume, place, (n - 1) as nat),
            bevy_member(s, volume.name(), (n - 1) as nat),
        ) {
            (Some(earlier), Some(name)) => match (
                volume.outcome(name),
                volume.outcome(name + INDEX_SUFFIX@),
            ) {
                (Ok(bevy), Ok(index)) => match bevy_decoded(
                    s,
                    bevy,
                    index,
                    place.segment(name),
                    place.segment(name + INDEX_SUFFIX@),
                ) {
                    Ok(chunks) => Some(earlier + bytes::flattened(chunks)),
                    Err(_) => None,
                },
                _ => None,
            },
            _ => None,
        }
    }
}

/// What is delivered after chunks that all decode is the first of their bytes.
proof fn after_chunks_are_plain(
    s: StreamView,
    bevy: Seq<u8>,
    locations: Seq<ChunkLocation>,
    bevy_locus: LocusView,
    before: Seq<u8>,
    n: nat,
)
    requires
        chunks_of_bevy(s, bevy, locations, bevy_locus, n) is Ok,
    ensures
        after_chunks(s, bevy, locations, bevy_locus, at_most(before, s.size as int), n) == Ok::<
            Seq<u8>,
            ErrorView,
        >(
            at_most(
                before + bytes::flattened(
                    chunks_of_bevy(s, bevy, locations, bevy_locus, n)->Ok_0,
                ),
                s.size as int,
            ),
        ),
    decreases n,
{
    if n == 0 {
        assert(before + Seq::<u8>::empty() =~= before);
    } else {
        after_chunks_are_plain(s, bevy, locations, bevy_locus, before, (n - 1) as nat);
        let earlier = chunks_of_bevy(s, bevy, locations, bevy_locus, (n - 1) as nat)->Ok_0;
        let plain = chunk_of_bevy(
            s,
            bevy,
            locations[n - 1],
            (n - 1) as nat,
            bevy_locus,
        )->Ok_0;
        let all = before + bytes::flattened(earlier);
        bytes::flattened_push(earlier, plain);
        assert(before + (bytes::flattened(earlier) + plain) =~= all + plain);
        if all.len() >= s.size {
            assert(at_most(all + plain, s.size as int) =~= at_most(all, s.size as int));
        } else {
            assert(at_most(all + plain, s.size as int) =~= all + at_most(
                plain,
                s.size - all.len(),
            ));
        }
    }
}

/// What is delivered after bevies that all decode is the first of their bytes.
proof fn after_bevies_are_plain<V: Volume>(s: StreamView, volume: &V, place: LocusView, n: nat)
    requires
        bevies_plain(s, volume, place, n) is Some,
    ensures
        after_bevies(s, volume, place, n) == Ok::<Seq<u8>, ErrorView>(
            at_most(bevies_plain(s, volume, place, n)->Some_0, s.size as int),
        ),
    decreases n,
{
    if n > 0 {
        after_bevies_are_plain(s, volume, place, (n - 1) as nat);
        let earlier = bevies_plain(s, volume, place, (n - 1) as nat)->Some_0;
        let name = bevy_member(s, volume.name(), (n - 1) as nat)->Some_0;
        let bevy = volume.outcome(name)->Ok_0;
        let locations = index_bounded(
            volume.outcome(name + INDEX_SUFFIX@)->Ok_0,
            s.chunks_in_segment as nat,
            place.segment(name + INDEX_SUFFIX@),
        )->Ok_0;
        let chunks = chunks_of_bevy(s, bevy, locations, place.segment(name), locations.len());
        after_chunks_are_plain(s, bevy, locations, place.segment(name), earlier, locations.len());
        let all = earlier + bytes::flattened(chunks->Ok_0);
        if earlier.len() >= s.size {
            assert(at_most(all, s.size as int) =~= at_most(earlier, s.size as int));
        }
    }
}

/// Where every bevy of a stream decodes, the stream is the first of their bytes, as many
/// as it declares; where they are fewer, it has no content and is malformed.
pub proof fn streams_are_their_bevies<V: Volume>(s: StreamView, volume: &V, locus: LocusView)
    requires
        bevies_plain(s, volume, locus.subject(s.arn), bevies_of(s)) is Some,
    ensures
        ({
            let all = bevies_plain(s, volume, locus.subject(s.arn), bevies_of(s))->Some_0;
            stream_content(s, volume, locus) == if all.len() >= s.size {
                Ok::<Seq<u8>, ErrorView>(all.take(s.size as int))
            } else {
                Err(
                    malformed(
                        locus.subject(s.arn),
                        short_stream_text(s.arn, all.len(), s.size as nat),
                    ),
                )
            }
        }),
{
    after_bevies_are_plain(s, volume, locus.subject(s.arn), bevies_of(s));
    let all = bevies_plain(s, volume, locus.subject(s.arn), bevies_of(s))->Some_0;
    assert(all.len() == s.size ==> all.take(s.size as int) =~= all);
}

/// What is reported of a bevy's chunks is how far reading has come.
proof fn chunk_events_are_of_reading(
    s: StreamView,
    bevy: Seq<u8>,
    locations: Seq<ChunkLocation>,
    bevy_locus: LocusView,
    before: Seq<u8>,
    n: nat,
)
    ensures
        of_reading(chunk_events(s, bevy, locations, bevy_locus, before, n)),
    decreases n,
{
    if n > 0 {
        chunk_events_are_of_reading(s, bevy, locations, bevy_locus, before, (n - 1) as nat);
    }
}

/// What is reported of a stream's bevies is how far reading has come.
pub proof fn stream_events_are_of_reading<V: Volume>(
    s: StreamView,
    volume: &V,
    locus: LocusView,
    n: nat,
)
    ensures
        of_reading(bevies_events(s, volume, locus, n)),
    decreases n,
{
    if n > 0 {
        stream_events_are_of_reading(s, volume, locus, (n - 1) as nat);
        match after_bevies(s, volume, locus, (n - 1) as nat) {
            Ok(out) => match bevy_loaded(s, volume, locus, (n - 1) as nat) {
                Some((name, bevy, locations)) => chunk_events_are_of_reading(
                    s,
                    bevy,
                    locations,
                    locus.segment(name),
                    out,
                    locations.len(),
                ),
                None => {},
            },
            Err(_) => {},
        }
    }
}

/// Once a stream has delivered its size, or cannot deliver a chunk, nothing more is
/// reported or delivered of a bevy's chunks.
proof fn chunks_settled(
    s: StreamView,
    bevy: Seq<u8>,
    locations: Seq<ChunkLocation>,
    bevy_locus: LocusView,
    before: Seq<u8>,
    m: nat,
    n: nat,
)
    requires
        m <= n,
        after_chunks(s, bevy, locations, bevy_locus, before, m) matches Ok(out) ==> out.len()
            >= s.size,
    ensures
        chunk_events(s, bevy, locations, bevy_locus, before, n) == chunk_events(
            s,
            bevy,
            locations,
            bevy_locus,
            before,
            m,
        ),
        chunk_slices(s, bevy, locations, bevy_locus, before, n) == chunk_slices(
            s,
            bevy,
            locations,
            bevy_locus,
            before,
            m,
        ),
    decreases n,
{
    if m < n {
        if after_chunks(s, bevy, locations, bevy_locus, before, m) is Ok {
            after_chunks_full(s, bevy, locations, bevy_locus, before, m, (n - 1) as nat);
        } else {
            after_chunks_fails(s, bevy, locations, bevy_locus, before, m, (n - 1) as nat);
        }
        chunks_settled(s, bevy, locations, bevy_locus, before, m, (n - 1) as nat);
    }
}

/// Once a stream has delivered its size, or cannot deliver a bevy, nothing more is
/// reported or delivered.
proof fn bevies_settled<V: Volume>(
    s: StreamView,
    volume: &V,
    locus: LocusView,
    m: nat,
    n: nat,
)
    requires
        m <= n,
        after_bevies(s, volume, locus, m) matches Ok(out) ==> out.len() >= s.size,
    ensures
        bevies_events(s, volume, locus, n) == bevies_events(s, volume, locus, m),
        bevies_slices(s, volume, locus, n) == bevies_slices(s, volume, locus, m),
    decreases n,
{
    if m < n {
        after_bevies_settled(s, volume, locus, m, (n - 1) as nat);
        bevies_settled(s, volume, locus, m, (n - 1) as nat);
    }
}

/// What is reported and delivered of a bevy's first chunks comes first of what is of
/// more of them.
proof fn chunks_come_first(
    s: StreamView,
    bevy: Seq<u8>,
    locations: Seq<ChunkLocation>,
    bevy_locus: LocusView,
    before: Seq<u8>,
    m: nat,
    n: nat,
)
    requires
        m <= n,
    ensures
        chunk_events(s, bevy, locations, bevy_locus, before, m).is_prefix_of(
            chunk_events(s, bevy, locations, bevy_locus, before, n),
        ),
        chunk_slices(s, bevy, locations, bevy_locus, before, m).is_prefix_of(
            chunk_slices(s, bevy, locations, bevy_locus, before, n),
        ),
    decreases n,
{
    if m < n {
        chunks_come_first(s, bevy, locations, bevy_locus, before, m, (n - 1) as nat);
    }
}

/// What is reported and delivered of the first bevies comes first of what is of more
/// of them.
proof fn bevies_come_first<V: Volume>(s: StreamView, volume: &V, locus: LocusView, m: nat, n: nat)
    requires
        m <= n,
    ensures
        bevies_events(s, volume, locus, m).is_prefix_of(bevies_events(s, volume, locus, n)),
        bevies_slices(s, volume, locus, m).is_prefix_of(bevies_slices(s, volume, locus, n)),
    decreases n,
{
    if m < n {
        bevies_come_first(s, volume, locus, m, (n - 1) as nat);
    }
}

/// Reports one after the other are of the slices of both.
proof fn slices_told_join(a: Seq<ProgressView>, b: Seq<ProgressView>)
    ensures
        slices_told(a + b) == slices_told(a) + slices_told(b),
    decreases b.len(),
{
    if b.len() == 0 {
        assert(a + b =~= a);
    } else {
        slices_told_join(a, b.drop_last());
        assert((a + b).drop_last() =~= a + b.drop_last());
        assert((a + b).last() == b.last());
    }
}

/// Of a bevy's chunks as many slices are reported as are delivered.
proof fn chunks_are_told(
    s: StreamView,
    bevy: Seq<u8>,
    locations: Seq<ChunkLocation>,
    bevy_locus: LocusView,
    before: Seq<u8>,
    n: nat,
)
    ensures
        slices_told(chunk_events(s, bevy, locations, bevy_locus, before, n)) == chunk_slices(
            s,
            bevy,
            locations,
            bevy_locus,
            before,
            n,
        ).len(),
    decreases n,
{
    if n > 0 {
        chunks_are_told(s, bevy, locations, bevy_locus, before, (n - 1) as nat);
        let earlier = chunk_events(s, bevy, locations, bevy_locus, before, (n - 1) as nat);
        let now = chunk_events(s, bevy, locations, bevy_locus, before, n);
        if now.len() > earlier.len() {
            assert(now.drop_last() =~= earlier);
        }
    }
}

/// Of a stream's bevies as many slices are reported as are delivered.
proof fn bevies_are_told<V: Volume>(s: StreamView, volume: &V, locus: LocusView, n: nat)
    ensures
        slices_told(bevies_events(s, volume, locus, n)) == bevies_slices(
            s,
            volume,
            locus,
            n,
        ).len(),
    decreases n,
{
    if n > 0 {
        bevies_are_told(s, volume, locus, (n - 1) as nat);
        let earlier = bevies_events(s, volume, locus, (n - 1) as nat);
        match after_bevies(s, volume, locus, (n - 1) as nat) {
            Ok(out) => match bevy_loaded(s, volume, locus, (n - 1) as nat) {
                Some((name, bevy, locations)) => {
                    let place = locus.segment(name);
                    let count = locations.len();
                    chunks_are_told(s, bevy, locations, place, out, count);
                    let chunks = chunk_events(s, bevy, locations, place, out, count);
                    let told = bevy_events(s, volume, locus, out, (n - 1) as nat);
                    if told.len() > chunks.len() {
                        assert(told.drop_last() =~= chunks);
                    }
                    slices_told_join(earlier, told);
                },
                None => {
                    assert(earlier + Seq::<ProgressView>::empty() =~= earlier);
                },
            },
            Err(_) => {},
        }
    }
}

/// Where a chunk is refused, what was delivered before it comes first of what the whole
/// stream has, and is not all of it.
#[verifier::spinoff_prover]
proof fn refused_within<V: Volume>(
    s: StreamView,
    volume: &V,
    locus: LocusView,
    at: nat,
    bevies: nat,
    out: Seq<u8>,
    name: Seq<char>,
    bevy: Seq<u8>,
    locations: Seq<ChunkLocation>,
    so_far: Seq<u8>,
    i: nat,
)
    requires
        at < bevies,
        after_bevies(s, volume, locus, at) == Ok::<Seq<u8>, ErrorView>(out),
        out.len() < s.size,
        bevy_loaded(s, volume, locus, at) == Some((name, bevy, locations)),
        i < locations.len(),
        after_chunks(s, bevy, locations, locus.segment(name), out, i) == Ok::<Seq<u8>, ErrorView>(
            so_far,
        ),
        so_far.len() < s.size,
        chunk_of_bevy(s, bevy, locations[i as int], i, locus.segment(name)) is Ok,
    ensures
        (bevies_slices(s, volume, locus, at) + chunk_slices(
            s,
            bevy,
            locations,
            locus.segment(name),
            out,
            i,
        )).is_prefix_of(bevies_slices(s, volume, locus, bevies)),
        bevies_slices(s, volume, locus, at).len() + chunk_slices(
            s,
            bevy,
            locations,
            locus.segment(name),
            out,
            i,
        ).len() < bevies_slices(s, volume, locus, bevies).len(),
{
    let place = locus.segment(name);
    chunks_come_first(s, bevy, locations, place, out, i, i + 1);
    chunks_come_first(s, bevy, locations, place, out, i + 1, locations.len());
    bevies_come_first(s, volume, locus, at + 1, bevies);
    let first = bevies_slices(s, volume, locus, at);
    let some = chunk_slices(s, bevy, locations, place, out, i);
    let more = chunk_slices(s, bevy, locations, place, out, locations.len());
    assert(bevies_slices(s, volume, locus, at + 1) == first + more);
    assert((first + some).is_prefix_of(first + more));
    assert(some.len() < more.len());
}

/// Where a chunk is refused, the next report of the whole stream would have been of it.
#[verifier::spinoff_prover]
proof fn refused_is_next<V: Volume>(
    s: StreamView,
    volume: &V,
    locus: LocusView,
    at: nat,
    bevies: nat,
    out: Seq<u8>,
    name: Seq<char>,
    bevy: Seq<u8>,
    locations: Seq<ChunkLocation>,
    so_far: Seq<u8>,
    i: nat,
)
    requires
        at < bevies,
        after_bevies(s, volume, locus, at) == Ok::<Seq<u8>, ErrorView>(out),
        out.len() < s.size,
        bevy_loaded(s, volume, locus, at) == Some((name, bevy, locations)),
        i < locations.len(),
        after_chunks(s, bevy, locations, locus.segment(name), out, i) == Ok::<Seq<u8>, ErrorView>(
            so_far,
        ),
        so_far.len() < s.size,
        chunk_of_bevy(s, bevy, locations[i as int], i, locus.segment(name)) is Ok,
    ensures
        (bevies_events(s, volume, locus, at) + chunk_events(
            s,
            bevy,
            locations,
            locus.segment(name),
            out,
            i,
        )).push(bytes_report(s, so_far, bevy, locations, locus.segment(name), i)).is_prefix_of(
            bevies_events(s, volume, locus, bevies),
        ),
{
    let place = locus.segment(name);
    chunks_come_first(s, bevy, locations, place, out, i + 1, locations.len());
    bevies_come_first(s, volume, locus, at + 1, bevies);
    let chunks = chunk_events(s, bevy, locations, place, out, i);
    let one_more = chunk_events(s, bevy, locations, place, out, i + 1);
    let report = bytes_report(s, so_far, bevy, locations, place, i);
    assert(one_more == chunks.push(report));
    let told = bevy_events(s, volume, locus, out, at);
    assert(one_more.is_prefix_of(told));
    let early = bevies_events(s, volume, locus, at);
    assert(bevies_events(s, volume, locus, at + 1) == early + told);
    assert((early + chunks).push(report) =~= early + one_more);
    assert((early + one_more).is_prefix_of(early + told));
}

/// The report that a chunk has been delivered.
spec fn bytes_report(
    s: StreamView,
    so_far: Seq<u8>,
    bevy: Seq<u8>,
    locations: Seq<ChunkLocation>,
    bevy_locus: LocusView,
    i: nat,
) -> ProgressView {
    let plain = chunk_of_bevy(s, bevy, locations[i as int], i, bevy_locus)->Ok_0;
    ProgressView::Bytes {
        arn: s.arn,
        done: (so_far + at_most(plain, s.size - so_far.len())).len() as u64,
        total: Some(s.size),
    }
}

/// A log that holds what was told before a refused chunk is up to that chunk.
proof fn refused_is_told<V: Volume>(
    s: StreamView,
    volume: &V,
    locus: LocusView,
    at: nat,
    bevies: nat,
    out: Seq<u8>,
    name: Seq<char>,
    bevy: Seq<u8>,
    locations: Seq<ChunkLocation>,
    so_far: Seq<u8>,
    i: nat,
    log0: Seq<ProgressView>,
    log1: Seq<ProgressView>,
)
    requires
        at < bevies,
        after_bevies(s, volume, locus, at) == Ok::<Seq<u8>, ErrorView>(out),
        out.len() < s.size,
        bevy_loaded(s, volume, locus, at) == Some((name, bevy, locations)),
        i < locations.len(),
        after_chunks(s, bevy, locations, locus.segment(name), out, i) == Ok::<Seq<u8>, ErrorView>(
            so_far,
        ),
        so_far.len() < s.size,
        chunk_of_bevy(s, bevy, locations[i as int], i, locus.segment(name)) is Ok,
        log1 == log0 + (bevies_events(s, volume, locus, at) + chunk_events(
            s,
            bevy,
            locations,
            locus.segment(name),
            out,
            i,
        )),
    ensures
        told_up_to(
            log0,
            bevies_events(s, volume, locus, bevies),
            bevies_slices(s, volume, locus, at).len() + chunk_slices(
                s,
                bevy,
                locations,
                locus.segment(name),
                out,
                i,
            ).len(),
            log1,
        ),
{
    let place = locus.segment(name);
    refused_is_next(s, volume, locus, at, bevies, out, name, bevy, locations, so_far, i);
    bevies_are_told(s, volume, locus, at);
    chunks_are_told(s, bevy, locations, place, out, i);
    let early = bevies_events(s, volume, locus, at);
    let chunks = chunk_events(s, bevy, locations, place, out, i);
    slices_told_join(early, chunks);
    let report = bytes_report(s, so_far, bevy, locations, place, i);
    let all = bevies_events(s, volume, locus, bevies);
    let told = early + chunks;
    assert(all.take(told.len() as int) =~= told) by {
        assert forall|k: int| 0 <= k < told.len() implies all[k] == told[k] by {
            assert(told.push(report)[k] == all[k]);
        }
    }
    assert(told.push(report)[told.len() as int] == all[told.len() as int]);
}

/// Where a chunk cannot be delivered, what was reported and delivered before it is all
/// that is of the whole stream.
proof fn failed_within<V: Volume>(
    s: StreamView,
    volume: &V,
    locus: LocusView,
    at: nat,
    bevies: nat,
    out: Seq<u8>,
    name: Seq<char>,
    bevy: Seq<u8>,
    locations: Seq<ChunkLocation>,
    i: nat,
)
    requires
        at < bevies,
        after_bevies(s, volume, locus, at) == Ok::<Seq<u8>, ErrorView>(out),
        out.len() < s.size,
        bevy_loaded(s, volume, locus, at) == Some((name, bevy, locations)),
        i < locations.len(),
        after_chunks(s, bevy, locations, locus.segment(name), out, i) is Ok,
        after_chunks(s, bevy, locations, locus.segment(name), out, i + 1) is Err,
    ensures
        after_bevies(s, volume, locus, bevies) == after_chunks(
            s,
            bevy,
            locations,
            locus.segment(name),
            out,
            i + 1,
        ),
        bevies_slices(s, volume, locus, bevies) == bevies_slices(s, volume, locus, at)
            + chunk_slices(s, bevy, locations, locus.segment(name), out, i),
        bevies_events(s, volume, locus, bevies) == bevies_events(s, volume, locus, at)
            + chunk_events(s, bevy, locations, locus.segment(name), out, i),
{
    let place = locus.segment(name);
    after_chunks_fails(s, bevy, locations, place, out, i + 1, locations.len());
    chunks_settled(s, bevy, locations, place, out, i + 1, locations.len());
    after_bevies_settled(s, volume, locus, at + 1, bevies);
    bevies_settled(s, volume, locus, at + 1, bevies);
}

/// A chunk that cannot be delivered fails every later delivery the same way.
proof fn after_chunks_fails(
    s: StreamView,
    bevy: Seq<u8>,
    locations: Seq<ChunkLocation>,
    bevy_locus: LocusView,
    before: Seq<u8>,
    m: nat,
    n: nat,
)
    requires
        m <= n,
        after_chunks(s, bevy, locations, bevy_locus, before, m) is Err,
    ensures
        after_chunks(s, bevy, locations, bevy_locus, before, n) == after_chunks(
            s,
            bevy,
            locations,
            bevy_locus,
            before,
            m,
        ),
    decreases n,
{
    if m < n {
        after_chunks_fails(s, bevy, locations, bevy_locus, before, m, (n - 1) as nat);
    }
}

/// Once a stream has delivered its size, further chunks change nothing.
proof fn after_chunks_full(
    s: StreamView,
    bevy: Seq<u8>,
    locations: Seq<ChunkLocation>,
    bevy_locus: LocusView,
    before: Seq<u8>,
    m: nat,
    n: nat,
)
    requires
        m <= n,
        after_chunks(s, bevy, locations, bevy_locus, before, m) matches Ok(out) && out.len()
            >= s.size,
    ensures
        after_chunks(s, bevy, locations, bevy_locus, before, n) == after_chunks(
            s,
            bevy,
            locations,
            bevy_locus,
            before,
            m,
        ),
    decreases n,
{
    if m < n {
        after_chunks_full(s, bevy, locations, bevy_locus, before, m, (n - 1) as nat);
    }
}

/// A bevy that cannot be delivered fails every later delivery the same way, and
/// a stream that has delivered its size stays as it is.
proof fn after_bevies_settled<V: Volume>(s: StreamView, volume: &V, locus: LocusView, m: nat, n: nat)
    requires
        m <= n,
        after_bevies(s, volume, locus, m) matches Ok(out) ==> out.len() >= s.size,
    ensures
        after_bevies(s, volume, locus, n) == after_bevies(s, volume, locus, m),
    decreases n,
{
    if m < n {
        after_bevies_settled(s, volume, locus, m, (n - 1) as nat);
    }
}

/// A stream never delivers more than it declares.
pub proof fn after_chunks_bounded(
    s: StreamView,
    bevy: Seq<u8>,
    locations: Seq<ChunkLocation>,
    bevy_locus: LocusView,
    before: Seq<u8>,
    n: nat,
)
    requires
        before.len() <= s.size,
    ensures
        after_chunks(s, bevy, locations, bevy_locus, before, n) matches Ok(out) ==> out.len()
            <= s.size && before.is_prefix_of(out),
    decreases n,
{
    if n > 0 {
        after_chunks_bounded(s, bevy, locations, bevy_locus, before, (n - 1) as nat);
    }
}

/// A chunk that cannot be decoded fails the bevy the same way.
proof fn chunks_of_bevy_fails(
    s: StreamView,
    bevy: Seq<u8>,
    locations: Seq<ChunkLocation>,
    bevy_locus: LocusView,
    m: nat,
    n: nat,
)
    requires
        m <= n,
        chunks_of_bevy(s, bevy, locations, bevy_locus, m) is Err,
    ensures
        chunks_of_bevy(s, bevy, locations, bevy_locus, n) == chunks_of_bevy(
            s,
            bevy,
            locations,
            bevy_locus,
            m,
        ),
    decreases n,
{
    if m < n {
        chunks_of_bevy_fails(s, bevy, locations, bevy_locus, m, (n - 1) as nat);
    }
}

/// Receives bytes in order.
///
/// The functions that say what it received are for contracts alone: an implementation
/// that nothing verifies leaves them as they are.
pub trait ByteSink: Sized {
    /// What of a sink stays as it is while it takes bytes.
    type Fixed;

    /// What of this sink stays as it is while it takes bytes.
    open spec fn fixed(&self) -> Self::Fixed {
        arbitrary()
    }

    /// Every byte accepted so far.
    open spec fn received(&self) -> Seq<u8> {
        arbitrary()
    }

    /// The slices accepted so far, in order.
    open spec fn slices(&self) -> Seq<Seq<u8>> {
        arbitrary()
    }

    /// What the sink last refused bytes with, if it ever refused any.
    open spec fn refusal(&self) -> Option<ErrorView> {
        arbitrary()
    }

    /// Take the next bytes, or refuse them.
    fn accept(&mut self, data: &[u8]) -> (r: Result<(), Error>)
        ensures
            final(self).fixed() == old(self).fixed(),
            (match r {
                Ok(()) => final(self).received() == old(self).received() + data@
                    && final(self).slices() == old(self).slices().push(data@)
                    && final(self).refusal() == old(self).refusal(),
                Err(e) => final(self).received() == old(self).received()
                    && final(self).slices() == old(self).slices() && final(self).refusal()
                    == Some(e@),
            }),
    ;
}

/// What an operation that gives nothing back came to.
pub open spec fn outcome_view(r: Result<(), Error>) -> Result<(), ErrorView> {
    match r {
        Ok(()) => Ok(()),
        Err(e) => Err(e@),
    }
}

/// A sink that keeps every byte.
pub struct Collected {
    /// The bytes accepted.
    pub data: Vec<u8>,
    /// The slices they came in.
    pub slices: Ghost<Seq<Seq<u8>>>,
}

impl Collected {
    /// A sink that holds nothing yet.
    pub fn new() -> (r: Self)
        ensures
            r.received() == Seq::<u8>::empty(),
            r.slices() == Seq::<Seq<u8>>::empty(),
    {
        Collected { data: Vec::new(), slices: Ghost(Seq::empty()) }
    }
}

impl ByteSink for Collected {
    type Fixed = ();

    open spec fn fixed(&self) -> () {
        ()
    }

    open spec fn received(&self) -> Seq<u8> {
        self.data@
    }

    open spec fn slices(&self) -> Seq<Seq<u8>> {
        self.slices@
    }

    open spec fn refusal(&self) -> Option<ErrorView> {
        None
    }

    fn accept(&mut self, data: &[u8]) -> (r: Result<(), Error>) {
        bytes::append(&mut self.data, data);
        self.slices = Ghost(self.slices@.push(data@));
        Ok(())
    }
}

impl ByteSink for MultiHasher {
    type Fixed = Seq<HashAlgorithm>;

    open spec fn fixed(&self) -> Seq<HashAlgorithm> {
        self.asked()
    }

    open spec fn received(&self) -> Seq<u8> {
        self.content()
    }

    open spec fn slices(&self) -> Seq<Seq<u8>> {
        self.slices()
    }

    open spec fn refusal(&self) -> Option<ErrorView> {
        None
    }

    fn accept(&mut self, data: &[u8]) -> (r: Result<(), Error>) {
        self.update(data);
        Ok(())
    }
}

/// What is said of a stream that lacks a property.
pub open spec fn missing_text(label: Seq<char>) -> Seq<char> {
    "the stream declares no "@ + label + "; it cannot be read without one"@
}

/// What is said of a property that is no whole number.
pub open spec fn not_a_number_text(label: Seq<char>, value: Seq<char>) -> Seq<char> {
    label + " is "@ + text::debug_text(value) + ", which is not a whole number: "@
        + text::number_fault(text::trimmed(value), u64::MAX as nat)
}

/// A required whole number of a resource, or what is wrong with it.
pub open spec fn required_number(
    g: Seq<TripleView>,
    subject: Seq<char>,
    predicate: Seq<char>,
    label: Seq<char>,
    locus: LocusView,
) -> Result<u64, ErrorView> {
    match object_of(g, subject, predicate) {
        None => Err(malformed(locus.predicate(predicate), missing_text(label))),
        Some(t) => match text::number_of(text::trimmed(lexical_text(t)), u64::MAX as nat) {
            None => Err(
                malformed(locus.predicate(predicate), not_a_number_text(label, lexical_text(t))),
            ),
            Some(n) => Ok(n as u64),
        },
    }
}

/// Read a required whole number, or say what is missing.
fn required_u64(graph: &Graph, arn: &Arn, predicate: &str, label: &str, locus: &Locus) -> (r: Result<
    u64,
    Error,
>)
    ensures
        (match r {
            Ok(n) => required_number(graph@, arn@, predicate@, label@, locus@) == Ok::<
                u64,
                ErrorView,
            >(n),
            Err(e) => required_number(graph@, arn@, predicate@, label@, locus@) == Err::<
                u64,
                ErrorView,
            >(e@),
        }),
{
    match graph.object(arn.as_str(), predicate) {
        None => Err(
            Error::malformed(
                locus.predicate(predicate),
                text::cat3(
                    "the stream declares no ",
                    label,
                    "; it cannot be read without one",
                ),
            ),
        ),
        Some(value) => {
            let trimmed = text::trim(value.lexical());
            match text::parse_number(trimmed.as_str(), u64::MAX) {
                Some(n) => Ok(n),
                None => Err(
                    Error::malformed(
                        locus.predicate(predicate),
                        text::cat5(
                            label,
                            " is ",
                            text::debug_quoted(value.lexical()).as_str(),
                            ", which is not a whole number: ",
                            text::explain_number(trimmed.as_str(), u64::MAX).as_str(),
                        ),
                    ),
                ),
            }
        },
    }
}

/// What is said of a stream without a codec.
pub open spec fn no_codec_text() -> Seq<char> {
    "the stream declares no compression method; it cannot be read without knowing how its chunks are encoded"@
}

/// What is said of a codec that is not known.
pub open spec fn unknown_codec_text(iri: Seq<char>, stream: Seq<char>) -> Seq<char> {
    "unknown compression method "@ + iri + " while reading stream "@ + stream
}

/// A stream's parameters as its description gives them, or what is wrong with
/// the description.
pub open spec fn stream_declared(
    arn: Seq<char>,
    g: Seq<TripleView>,
    lexicon: Lexicon,
    at: LocusView,
) -> Result<StreamView, ErrorView> {
    let locus = at.subject(arn);
    let size_iri = lexicon.iri_of(lexicon.size@);
    let chunk_size_iri = lexicon.iri_of(lexicon.chunk_size@);
    let chunks_iri = lexicon.iri_of(lexicon.chunks_in_segment@);
    let codec_predicate = lexicon.iri_of(lexicon.compression_method@);
    match required_number(g, arn, size_iri, "size"@, locus) {
        Err(e) => Err(e),
        Ok(size) => match required_number(g, arn, chunk_size_iri, "chunkSize"@, locus) {
            Err(e) => Err(e),
            Ok(chunk_size) => match required_number(
                g,
                arn,
                chunks_iri,
                "chunksInSegment"@,
                locus,
            ) {
                Err(e) => Err(e),
                Ok(chunks) => match object_of(g, arn, codec_predicate) {
                    Some(TermView::Iri(iri)) => match codec_of_iri(iri) {
                        None => Err(unsupported(locus, unknown_codec_text(iri, arn))),
                        Some(codec) => if chunk_size > usize::MAX {
                            Err(
                                malformed(
                                    locus.predicate(chunk_size_iri),
                                    "declared chunk size "@ + text::decimal(chunk_size as nat)
                                        + " does not fit in memory"@,
                                ),
                            )
                        } else if chunk_size == 0 {
                            Err(
                                malformed(
                                    locus.predicate(chunk_size_iri),
                                    "the stream declares a chunk size of zero; no chunk can hold data"@,
                                ),
                            )
                        } else if chunks > usize::MAX {
                            Err(
                                malformed(
                                    locus.predicate(chunks_iri),
                                    "declared chunksInSegment "@ + text::decimal(chunks as nat)
                                        + " is implausible"@,
                                ),
                            )
                        } else if chunks == 0 {
                            Err(
                                malformed(
                                    locus.predicate(chunks_iri),
                                    "the stream declares zero chunks per bevy; no bevy could hold data"@,
                                ),
                            )
                        } else {
                            Ok(
                                StreamView {
                                    arn,
                                    size,
                                    chunk_size: chunk_size as usize,
                                    chunks_in_segment: chunks as usize,
                                    codec,
                                },
                            )
                        },
                    },
                    _ => Err(malformed(locus.predicate(codec_predicate), no_codec_text())),
                },
            },
        },
    }
}

impl ImageStream {
    /// Read a stream's parameters out of its description.
    pub fn open(arn: &Arn, graph: &Graph, lexicon: &Lexicon, locus: &Locus) -> (r: Result<Self, Error>)
        ensures
            (match r {
                Ok(s) => stream_declared(arn@, graph@, *lexicon, locus@) == Ok::<
                    StreamView,
                    ErrorView,
                >(s@),
                Err(e) => stream_declared(arn@, graph@, *lexicon, locus@) == Err::<
                    StreamView,
                    ErrorView,
                >(e@),
            }),
            r matches Ok(s) ==> s.chunk_size > 0 && s.chunks_in_segment > 0,
    {
        let place = locus.subject(arn.as_str());
        let size_iri = lexicon.iri(lexicon.size);
        let chunk_size_iri = lexicon.iri(lexicon.chunk_size);
        let chunks_iri = lexicon.iri(lexicon.chunks_in_segment);
        let codec_predicate = lexicon.iri(lexicon.compression_method);

        let size: u64 = match required_u64(graph, arn, size_iri.as_str(), "size", &place) {
            Ok(n) => n,
            Err(e) => return Err(e),
        };
        let chunk_size: u64 = match required_u64(
            graph,
            arn,
            chunk_size_iri.as_str(),
            "chunkSize",
            &place,
        ) {
            Ok(n) => n,
            Err(e) => return Err(e),
        };
        let chunks: u64 = match required_u64(
            graph,
            arn,
            chunks_iri.as_str(),
            "chunksInSegment",
            &place,
        ) {
            Ok(n) => n,
            Err(e) => return Err(e),
        };
        let declared = match graph.object(arn.as_str(), codec_predicate.as_str()) {
            Some(term) => term.as_iri(),
            None => None,
        };
        let iri = match declared {
            Some(iri) => iri,
            None => return Err(
                Error::malformed(
                    place.predicate(codec_predicate.as_str()),
                    text::owned(
                        "the stream declares no compression method; it cannot be read without knowing how its chunks are encoded",
                    ),
                ),
            ),
        };
        let codec = match Codec::from_iri(iri) {
            Some(codec) => codec,
            None => return Err(
                Error::unsupported(
                    place,
                    text::cat4(
                        "unknown compression method ",
                        iri,
                        " while reading stream ",
                        arn.as_str(),
                    ),
                ),
            ),
        };
        if chunk_size > usize::MAX as u64 {
            return Err(
                Error::malformed(
                    place.predicate(chunk_size_iri.as_str()),
                    text::cat3(
                        "declared chunk size ",
                        text::dec(chunk_size).as_str(),
                        " does not fit in memory",
                    ),
                ),
            );
        }
        if chunk_size == 0 {
            return Err(
                Error::malformed(
                    place.predicate(chunk_size_iri.as_str()),
                    text::owned(
                        "the stream declares a chunk size of zero; no chunk can hold data",
                    ),
                ),
            );
        }
        if chunks > usize::MAX as u64 {
            return Err(
                Error::malformed(
                    place.predicate(chunks_iri.as_str()),
                    text::cat3(
                        "declared chunksInSegment ",
                        text::dec(chunks).as_str(),
                        " is implausible",
                    ),
                ),
            );
        }
        if chunks == 0 {
            return Err(
                Error::malformed(
                    place.predicate(chunks_iri.as_str()),
                    text::owned(
                        "the stream declares zero chunks per bevy; no bevy could hold data",
                    ),
                ),
            );
        }
        Ok(
            ImageStream {
                arn: arn.clone(),
                size,
                chunk_size: chunk_size as usize,
                chunks_in_segment: chunks as usize,
                codec,
            },
        )
    }

    /// The stream's name.
    pub fn arn(&self) -> (r: &Arn)
        ensures
            r@ == self@.arn,
    {
        &self.arn
    }

    /// The stream's declared length.
    pub fn size(&self) -> (r: u64)
        ensures
            r == self@.size,
    {
        self.size
    }

    /// The plain length of each chunk.
    pub fn chunk_size(&self) -> (r: usize)
        ensures
            r == self@.chunk_size,
    {
        self.chunk_size
    }

    /// How many chunks each bevy holds.
    pub fn chunks_in_segment(&self) -> (r: usize)
        ensures
            r == self@.chunks_in_segment,
    {
        self.chunks_in_segment
    }

    /// How chunks are encoded.
    pub fn codec(&self) -> (r: Codec)
        ensures
            r == self@.codec,
    {
        self.codec
    }

    /// How many bevies this stream spans, from its size.
    pub fn bevy_count(&self) -> (r: u64)
        ensures
            r as nat == bevies_of(self@),
    {
        if self.size == 0 {
            return 0;
        }
        match (self.chunk_size as u64).checked_mul(self.chunks_in_segment as u64) {
            Some(product) => {
                let per: u64 = if product < 1 {
                    1
                } else {
                    product
                };
                proof {
                    assert((self.size - 1) as nat / per as nat <= self.size - 1)
                        by (nonlinear_arith)
                        requires
                            per >= 1,
                            self.size >= 1,
                    ;
                }
                (self.size - 1) / per + 1
            },
            None => {
                proof {
                    let per = per_bevy(self.chunk_size as nat, self.chunks_in_segment as nat);
                    assert((self.size - 1) as nat / per == 0) by (nonlinear_arith)
                        requires
                            per > u64::MAX,
                            1 <= self.size <= u64::MAX,
                    ;
                }
                1
            },
        }
    }

    /// The member name of a bevy, where the stream is a member of the volume.
    pub fn bevy_name(&self, volume_arn: &Arn, index: u64) -> (r: Option<String>)
        ensures
            (match r {
                Some(name) => bevy_member(self@, volume_arn@, index as nat) == Some(name@),
                None => bevy_member(self@, volume_arn@, index as nat) is None,
            }),
    {
        match self.arn.member_name(volume_arn, NameMapping::Escaped) {
            Some(base) => Some(
                text::cat3(
                    base.as_str(),
                    "/",
                    text::pad_zeros(text::dec(index).as_str(), 8).as_str(),
                ),
            ),
            None => None,
        }
    }

    /// Decode one bevy into its chunks, in order.
    pub fn decode_bevy(
        &self,
        bevy: &[u8],
        index: &[u8],
        bevy_locus: &Locus,
        index_locus: &Locus,
    ) -> (r: Result<Vec<Vec<u8>>, Error>)
        ensures
            (match r {
                Ok(chunks) => bevy_decoded(self@, bevy@, index@, bevy_locus@, index_locus@) == Ok::<
                    Seq<Seq<u8>>,
                    ErrorView,
                >(bytes::views(chunks@)),
                Err(e) => bevy_decoded(self@, bevy@, index@, bevy_locus@, index_locus@) == Err::<
                    Seq<Seq<u8>>,
                    ErrorView,
                >(e@),
            }),
    {
        let locations = match parse_index_bounded(index, self.chunks_in_segment, index_locus) {
            Ok(list) => list,
            Err(e) => return Err(e),
        };
        let mut chunks: Vec<Vec<u8>> = Vec::new();
        let mut i: usize = 0;
        proof {
            assert(bytes::views(chunks@) == Seq::<Seq<u8>>::empty());
        }
        while i < locations.len()
            invariant
                i <= locations.len(),
                index_bounded(index@, self.chunks_in_segment as nat, index_locus@) == Ok::<
                    Seq<ChunkLocation>,
                    ErrorView,
                >(locations@),
                chunks_of_bevy(self@, bevy@, locations@, bevy_locus@, i as nat) == Ok::<
                    Seq<Seq<u8>>,
                    ErrorView,
                >(bytes::views(chunks@)),
            decreases locations.len() - i,
        {
            let chunk_locus = bevy_locus.byte_offset(locations[i].offset);
            proof {
                if chunks_of_bevy(self@, bevy@, locations@, bevy_locus@, (i + 1) as nat) is Err {
                    chunks_of_bevy_fails(
                        self@,
                        bevy@,
                        locations@,
                        bevy_locus@,
                        (i + 1) as nat,
                        locations@.len(),
                    );
                }
            }
            let stored = match slice_chunk(bevy, locations[i], i, &chunk_locus) {
                Ok(s) => s,
                Err(e) => return Err(e),
            };
            match decompress_chunk(self.codec, stored, self.chunk_size, &chunk_locus) {
                Ok(plain) => {
                    let ghost before = chunks@;
                    chunks.push(plain);
                    proof {
                        assert(bytes::views(chunks@) == bytes::views(before).push(plain@));
                    }
                },
                Err(e) => return Err(e),
            }
            i = i + 1;
        }
        Ok(chunks)
    }

    /// Feed every byte of the stream to `sink`, in order, a slice for each chunk.
    pub fn read_all<V: Volume, S: ByteSink>(&self, volume: &V, sink: &mut S, locus: &Locus) -> (r: Result<
        (),
        Error,
    >)
        ensures
            stream_read(self@, volume, locus@, *old(sink), *final(sink), outcome_view(r)),
    {
        let mut quiet = NoProgress::new();
        self.read_all_observed(volume, sink, &mut quiet, locus)
    }

    /// As [`ImageStream::read_all`], reporting bytes and bevies as they complete.
    #[verifier::spinoff_prover]
    #[verifier::rlimit(60)]
    pub fn read_all_observed<V: Volume, S: ByteSink, P: ProgressObserver>(
        &self,
        volume: &V,
        sink: &mut S,
        progress: &mut P,
        locus: &Locus,
    ) -> (r: Result<(), Error>)
        ensures
            stream_read(self@, volume, locus@, *old(sink), *final(sink), outcome_view(r)),
            stream_told(
                self@,
                volume,
                locus@,
                *old(sink),
                *final(sink),
                old(progress).log(),
                final(progress).log(),
            ),
    {
        let volume_arn = volume.arn();
        let place = locus.subject(self.arn.as_str());
        let bevies: u64 = self.bevy_count();
        let mut delivered: u64 = 0;
        let ghost mut out: Seq<u8> = Seq::empty();
        let ghost received0 = sink.received();
        let ghost slices0 = sink.slices();
        let ghost mut pieces: Seq<Seq<u8>> = Seq::empty();
        let mut at: u64 = 0;
        let ghost log0 = progress.log();
        proof {
            assert(received0 + out == received0);
            assert(slices0 + pieces == slices0);
            assert(log0 + bevies_events(self@, volume, place@, 0) =~= log0);
        }
        while at < bevies && delivered < self.size
            invariant
                at <= bevies,
                bevies as nat == bevies_of(self@),
                volume_arn@ == volume.name(),
                place@ == locus@.subject(self@.arn),
                after_bevies(self@, volume, place@, at as nat) == Ok::<Seq<u8>, ErrorView>(out),
                delivered == out.len(),
                delivered <= self.size,
                received0 == old(sink).received(),
                sink.received() == received0 + out,
                sink.refusal() == old(sink).refusal(),
                sink.fixed() == old(sink).fixed(),
                slices0 == old(sink).slices(),
                sink.slices() == slices0 + pieces,
                pieces == bevies_slices(self@, volume, place@, at as nat),
                out == bytes::flattened(pieces),
                log0 == old(progress).log(),
                progress.log() == log0 + bevies_events(self@, volume, place@, at as nat),
            decreases bevies - at,
        {
            proof {
                if after_bevies(self@, volume, place@, (at + 1) as nat) is Err {
                    after_bevies_settled(self@, volume, place@, (at + 1) as nat, bevies as nat);
                    bevies_settled(self@, volume, place@, (at + 1) as nat, bevies as nat);
                }
                if bevy_loaded(self@, volume, place@, at as nat) is None {
                    assert(bevies_events(self@, volume, place@, (at + 1) as nat)
                        =~= bevies_events(self@, volume, place@, at as nat));
                }
            }
            let bevy_name = match self.bevy_name(&volume_arn, at) {
                Some(name) => name,
                None => return Err(
                    Error::malformed(
                        place,
                        text::cat5(
                            "stream ",
                            self.arn.as_str(),
                            " names no member of volume ",
                            volume_arn.as_str(),
                            "; its data is stored elsewhere, which this build cannot follow",
                        ),
                    ),
                ),
            };
            let index_name = text::cat2(bevy_name.as_str(), INDEX_SUFFIX);
            let bevy_locus = place.segment(bevy_name.as_str());
            let index = match volume.read_segment(index_name.as_str()) {
                Ok(data) => data,
                Err(e) => return Err(e),
            };
            let bevy = match volume.read_segment(bevy_name.as_str()) {
                Ok(data) => data,
                Err(e) => return Err(e),
            };
            let locations = match parse_index_bounded(
                index.as_slice(),
                self.chunks_in_segment,
                &place.segment(index_name.as_str()),
            ) {
                Ok(list) => list,
                Err(e) => return Err(e),
            };
            let ghost before = out;
            let ghost rest = locations@.len();
            let ghost log1 = progress.log();
            let ghost pieces1 = pieces;
            let mut i: usize = 0;
            proof {
                assert(bevy_loaded(self@, volume, place@, at as nat) == Some(
                    (bevy_name@, bevy@, locations@),
                ));
                assert(pieces1 + Seq::<Seq<u8>>::empty() =~= pieces1);
                assert(log1 + chunk_events(self@, bevy@, locations@, bevy_locus@, before, 0)
                    =~= log1);
            }
            while i < locations.len() && delivered < self.size
                invariant
                    i <= locations.len(),
                    rest == locations@.len(),
                    place@ == locus@.subject(self@.arn),
                    bevy_locus@ == place@.segment(bevy_name@),
                    before.len() <= self.size,
                    after_chunks(
                        self@,
                        bevy@,
                        locations@,
                        bevy_locus@,
                        before,
                        i as nat,
                    ) == Ok::<Seq<u8>, ErrorView>(out),
                    after_bevies(self@, volume, place@, (at + 1) as nat) == after_chunks(
                        self@,
                        bevy@,
                        locations@,
                        bevy_locus@,
                        before,
                        rest,
                    ),
                    at < bevies,
                    bevies as nat == bevies_of(self@),
                    delivered == out.len(),
                    delivered <= self.size,
                    received0 == old(sink).received(),
                    sink.received() == received0 + out,
                    sink.refusal() == old(sink).refusal(),
                    sink.fixed() == old(sink).fixed(),
                    slices0 == old(sink).slices(),
                    sink.slices() == slices0 + pieces,
                    pieces1 == bevies_slices(self@, volume, place@, at as nat),
                    pieces == pieces1 + chunk_slices(
                        self@,
                        bevy@,
                        locations@,
                        bevy_locus@,
                        before,
                        i as nat,
                    ),
                    out == bytes::flattened(pieces),
                    log0 == old(progress).log(),
                    log1 == log0 + bevies_events(self@, volume, place@, at as nat),
                    before.len() < self.size,
                    after_bevies(self@, volume, place@, at as nat) == Ok::<Seq<u8>, ErrorView>(
                        before,
                    ),
                    bevy_loaded(self@, volume, place@, at as nat) == Some(
                        (bevy_name@, bevy@, locations@),
                    ),
                    progress.log() == log1 + chunk_events(
                        self@,
                        bevy@,
                        locations@,
                        bevy_locus@,
                        before,
                        i as nat,
                    ),
                decreases locations.len() - i,
            {
                proof {
                    if after_chunks(
                        self@,
                        bevy@,
                        locations@,
                        bevy_locus@,
                        before,
                        (i + 1) as nat,
                    ) is Err {
                        failed_within(
                            self@,
                            volume,
                            place@,
                            at as nat,
                            bevies as nat,
                            before,
                            bevy_name@,
                            bevy@,
                            locations@,
                            i as nat,
                        );
                        assert(progress.log() =~= log0 + stream_events(self@, volume, locus@));
                    }
                }
                let chunk_locus = bevy_locus.byte_offset(locations[i].offset);
                let stored = match slice_chunk(bevy.as_slice(), locations[i], i, &chunk_locus) {
                    Ok(s) => s,
                    Err(e) => return Err(e),
                };
                let mut plain = match decompress_chunk(
                    self.codec,
                    stored,
                    self.chunk_size,
                    &chunk_locus,
                ) {
                    Ok(p) => p,
                    Err(e) => return Err(e),
                };
                let ghost whole = plain@;
                let remaining: u64 = self.size - delivered;
                if plain.len() as u64 > remaining {
                    plain.truncate(remaining as usize);
                }
                proof {
                    assert(plain@ == at_most(whole, self.size - out.len()));
                }
                match sink.accept(plain.as_slice()) {
                    Ok(()) => {},
                    Err(e) => {
                        proof {
                            refused_within(
                                self@,
                                volume,
                                place@,
                                at as nat,
                                bevies as nat,
                                before,
                                bevy_name@,
                                bevy@,
                                locations@,
                                out,
                                i as nat,
                            );
                            let told = bevies_events(self@, volume, place@, at as nat)
                                + chunk_events(
                                self@,
                                bevy@,
                                locations@,
                                bevy_locus@,
                                before,
                                i as nat,
                            );
                            assert(progress.log() =~= log0 + told);
                            refused_is_told(
                                self@,
                                volume,
                                place@,
                                at as nat,
                                bevies as nat,
                                before,
                                bevy_name@,
                                bevy@,
                                locations@,
                                out,
                                i as nat,
                                log0,
                                progress.log(),
                            );
                            let slices = stream_slices(self@, volume, locus@);
                            assert(slices.take(pieces.len() as int) =~= pieces);
                            assert(taken_between(*old(sink), *sink) =~= pieces);
                        }
                        return Err(e);
                    },
                }
                proof {
                    bytes::flattened_push(pieces, plain@);
                    assert(pieces1 + chunk_slices(
                        self@,
                        bevy@,
                        locations@,
                        bevy_locus@,
                        before,
                        (i + 1) as nat,
                    ) =~= pieces.push(plain@));
                    assert(slices0 + pieces.push(plain@) =~= (slices0 + pieces).push(plain@));
                    pieces = pieces.push(plain@);
                    assert(received0 + out + plain@ == received0 + (out + plain@));
                    out = out + plain@;
                }
                delivered = delivered + plain.len() as u64;
                progress.on(
                    Progress::Bytes { arn: &self.arn, done: delivered, total: Some(self.size) },
                );
                proof {
                    assert(progress.log() =~= log1 + chunk_events(
                        self@,
                        bevy@,
                        locations@,
                        bevy_locus@,
                        before,
                        (i + 1) as nat,
                    ));
                }
                i = i + 1;
            }
            proof {
                if i < rest {
                    after_chunks_full(
                        self@,
                        bevy@,
                        locations@,
                        bevy_locus@,
                        before,
                        i as nat,
                        rest,
                    );
                    chunks_settled(
                        self@,
                        bevy@,
                        locations@,
                        bevy_locus@,
                        before,
                        i as nat,
                        rest,
                    );
                }
            }
            progress.on(
                Progress::BevyCompleted { arn: &self.arn, done: at + 1, total: bevies },
            );
            proof {
                let told = bevy_events(self@, volume, place@, before, at as nat);
                assert(progress.log() =~= log1 + told);
                assert((log0 + bevies_events(self@, volume, place@, at as nat)) + told =~= log0 + (
                bevies_events(self@, volume, place@, at as nat) + told));
            }
            at = at + 1;
        }
        proof {
            if at < bevies {
                after_bevies_settled(self@, volume, place@, at as nat, bevies as nat);
                bevies_settled(self@, volume, place@, at as nat, bevies as nat);
            }
        }
        if delivered != self.size {
            return Err(
                Error::malformed(
                    place,
                    text::cat7(
                        "stream ",
                        self.arn.as_str(),
                        " delivered ",
                        text::dec(delivered).as_str(),
                        " bytes but declares ",
                        text::dec(self.size).as_str(),
                        "; a short read would produce a digest that does not match the evidence",
                    ),
                ),
            );
        }
        Ok(())
    }
}

} // verus!
