//! Chunking and compressing a bytestream into bevies.
//!
//! A chunk is kept compressed only where that saves more than a margin;
//! otherwise it is stored verbatim at full chunk length. The margin is what keeps
//! the two cases apart on reading: a chunk of exactly the chunk size is verbatim.

use vstd::prelude::*;

use crate::bytes;
use crate::codec::{
    chunk_decoded, chunk_encoded, codec_name, handled, lz4_compress, lz4_takes, raw_decoded,
    snappy_compress, snappy_encoded, zlib_compress, Codec,
};
use crate::error::{malformed, unsupported, Error, ErrorView, Locus, LocusView};
use crate::hash::{md5_digest, md5_raw, sha1_digest, sha1_raw};
use crate::stream::{
    bevy_decoded, bevy_member_name, chunk_of_bevy, chunk_stored, chunks_of_bevy, index_entry,
    index_parsed, ChunkLocation, StreamView, INDEX_SUFFIX,
};
use crate::text;

verus! {

/// The margin by which a compressed chunk must be shorter than a chunk.
pub const STORED_MARGIN: usize = 16;

/// The chunk size used where none is asked for.
pub const DEFAULT_CHUNK_SIZE: usize = 32768;

/// The chunks per bevy used where no number is asked for.
pub const DEFAULT_CHUNKS_PER_SEGMENT: usize = 1024;

/// What stands between a bevy's name and a digest algorithm's.
pub const BLOCK_HASH_SUFFIX: &'static str = ".blockHash.";

/// What is said of a codec that is not written.
pub open spec fn unwritten_text(codec: Codec) -> Seq<char> {
    "aff4tools declines to write "@ + codec_name(codec)
        + " — it is not verifiable by this build"@
}

/// Compress one chunk with `codec`.
pub fn compress_chunk(codec: Codec, chunk: &[u8], locus: &Locus) -> (r: Result<Vec<u8>, Error>)
    requires
        codec == Codec::Lz4 ==> lz4_takes(chunk@.len()),
    ensures
        (match r {
            Ok(out) => {
                &&& handled(codec)
                &&& out@ == chunk_encoded(codec, chunk@)
                &&& chunk@.len() > 0 ==> out@.len() > 0
                &&& (codec == Codec::Snappy && snappy_encoded(chunk@) is None) || raw_decoded(
                    codec,
                    out@,
                    chunk@.len(),
                ) == Some(chunk@)
            },
            Err(e) => !handled(codec) && e@ == unsupported(locus@, unwritten_text(codec)),
        }),
{
    match codec {
        Codec::Snappy => match snappy_compress(chunk) {
            Some(out) => Ok(out),
            None => Ok(bytes::copied(chunk)),
        },
        Codec::Lz4 => Ok(lz4_compress(chunk)),
        Codec::Zlib => Ok(zlib_compress(chunk)),
        Codec::Stored => Ok(bytes::copied(chunk)),
        _ => Err(
            Error::unsupported(
                locus.clone(),
                text::cat3(
                    "aff4tools declines to write ",
                    codec.name(),
                    " — it is not verifiable by this build",
                ),
            ),
        ),
    }
}

/// Per-chunk digests, accumulated as a bevy is built.
#[derive(Debug)]
pub struct BlockDigests {
    /// 16-byte MD5 digests, one per chunk.
    pub md5: Vec<u8>,
    /// 20-byte SHA-1 digests, one per chunk.
    pub sha1: Vec<u8>,
}

/// A chunk with zero bytes after it up to the chunk size.
pub open spec fn padded(chunk: Seq<u8>, chunk_size: nat) -> Seq<u8> {
    if chunk.len() >= chunk_size {
        chunk
    } else {
        chunk + Seq::new((chunk_size - chunk.len()) as nat, |i: int| 0u8)
    }
}

/// Each chunk with zero bytes after it up to the chunk size.
pub open spec fn all_padded(chunks: Seq<Seq<u8>>, chunk_size: nat) -> Seq<Seq<u8>> {
    Seq::new(chunks.len(), |i: int| padded(chunks[i], chunk_size))
}

/// The bytes a full chunk is stored as.
pub open spec fn stored_form(codec: Codec, full: Seq<u8>, chunk_size: nat) -> Seq<u8> {
    let compressed = chunk_encoded(codec, full);
    if compressed.len() < chunk_size - STORED_MARGIN {
        compressed
    } else {
        full
    }
}

/// The index of a bevy whose chunks are stored as `stored`.
pub open spec fn index_bytes(stored: Seq<Seq<u8>>) -> Seq<u8>
    decreases stored.len(),
{
    if stored.len() == 0 {
        Seq::empty()
    } else {
        index_bytes(stored.drop_last()) + (bytes::le_bytes(
            bytes::flattened(stored.drop_last()).len(),
            8,
        ) + bytes::le_bytes(stored.last().len(), 4))
    }
}

/// The digests of some chunks one after the other, by MD5.
pub open spec fn md5_of_each(chunks: Seq<Seq<u8>>) -> Seq<u8>
    decreases chunks.len(),
{
    if chunks.len() == 0 {
        Seq::empty()
    } else {
        md5_of_each(chunks.drop_last()) + md5_digest(chunks.last())
    }
}

/// The digests of some chunks one after the other, by SHA-1.
pub open spec fn sha1_of_each(chunks: Seq<Seq<u8>>) -> Seq<u8>
    decreases chunks.len(),
{
    if chunks.len() == 0 {
        Seq::empty()
    } else {
        sha1_of_each(chunks.drop_last()) + sha1_digest(chunks.last())
    }
}

/// What a bevy under construction holds.
#[verifier::ext_equal]
pub struct BevyView {
    /// How chunks are encoded.
    pub codec: Codec,
    /// The plain length of each chunk.
    pub chunk_size: usize,
    /// How many chunks fill the bevy.
    pub chunks_per_segment: usize,
    /// The chunks held, as they were handed over.
    pub chunks: Seq<Seq<u8>>,
    /// The chunks digested, as they were handed over.
    pub hashed: Seq<Seq<u8>>,
}

/// One bevy under construction.
pub struct BevyBuilder {
    codec: Codec,
    chunk_size: usize,
    chunks_per_segment: usize,
    body: Vec<u8>,
    index: Vec<u8>,
    chunk_count: usize,
    blocks: BlockDigests,
    chunks: Ghost<Seq<Seq<u8>>>,
    stored: Ghost<Seq<Seq<u8>>>,
    hashed: Ghost<Seq<Seq<u8>>>,
}

/// A completed bevy.
#[derive(Debug)]
pub struct FinishedBevy {
    /// The bevy's bytes.
    pub body: Vec<u8>,
    /// Its index's bytes.
    pub index: Vec<u8>,
    /// How many chunks it holds.
    pub chunk_count: usize,
    /// The digests of the chunks before padding.
    pub blocks: BlockDigests,
}

/// Whether each stored chunk has a length the index can hold and decodes to the
/// padded chunk.
pub open spec fn stored_decodes(
    codec: Codec,
    chunk_size: nat,
    chunks: Seq<Seq<u8>>,
    stored: Seq<Seq<u8>>,
) -> bool {
    &&& chunks.len() == stored.len()
    &&& forall|i: int|
        0 <= i < stored.len() ==> 0 < (#[trigger] stored[i]).len() <= u32::MAX
    &&& forall|i: int, locus: LocusView|
        0 <= i < stored.len() ==> #[trigger] chunk_decoded(codec, stored[i], chunk_size, locus)
            == Ok::<Seq<u8>, ErrorView>(padded(chunks[i], chunk_size))
}

/// The bytes that chunks are stored as, each padded first.
pub open spec fn stored_chunks(codec: Codec, chunk_size: nat, chunks: Seq<Seq<u8>>) -> Seq<Seq<u8>> {
    Seq::new(
        chunks.len(),
        |i: int| stored_form(codec, padded(chunks[i], chunk_size), chunk_size),
    )
}

/// What is said of a chunk longer than the chunk size.
pub open spec fn oversized_chunk_text(len: nat, chunk_size: nat) -> Seq<char> {
    "chunk of "@ + text::decimal(len) + " bytes exceeds the declared chunk size "@ + text::decimal(
        chunk_size,
    )
}

/// What is said of a stored chunk whose length the index cannot hold.
pub open spec fn unindexable_text(len: nat) -> Seq<char> {
    "stored chunk of "@ + text::decimal(len) + " bytes exceeds the 32-bit bevy index length field"@
}

/// Where a chunk begins in the bevy.
pub open spec fn offset_of(stored: Seq<Seq<u8>>, i: int) -> nat {
    bytes::flattened(stored.take(i)).len()
}

/// Each part of a flattened list stands where the parts before it end.
pub proof fn flattened_part(parts: Seq<Seq<u8>>, i: int)
    requires
        0 <= i < parts.len(),
    ensures
        offset_of(parts, i) + parts[i].len() <= bytes::flattened(parts).len(),
        bytes::flattened(parts).subrange(
            offset_of(parts, i) as int,
            (offset_of(parts, i) + parts[i].len()) as int,
        ) == parts[i],
    decreases parts.len(),
{
    let shorter = parts.drop_last();
    if i == parts.len() - 1 {
        assert(parts.take(i) == shorter);
        assert(bytes::flattened(parts).subrange(
            offset_of(parts, i) as int,
            (offset_of(parts, i) + parts[i].len()) as int,
        ) =~= parts[i]);
    } else {
        flattened_part(shorter, i);
        assert(shorter.take(i) == parts.take(i));
        assert(bytes::flattened(parts).subrange(
            offset_of(parts, i) as int,
            (offset_of(parts, i) + parts[i].len()) as int,
        ) =~= bytes::flattened(shorter).subrange(
            offset_of(parts, i) as int,
            (offset_of(parts, i) + parts[i].len()) as int,
        ));
    }
}

/// A flattened list of non-empty parts is at least as long as the list.
proof fn flattened_is_long(parts: Seq<Seq<u8>>)
    requires
        forall|i: int| 0 <= i < parts.len() ==> (#[trigger] parts[i]).len() > 0,
    ensures
        bytes::flattened(parts).len() >= parts.len(),
    decreases parts.len(),
{
    if parts.len() > 0 {
        let shorter = parts.drop_last();
        assert forall|i: int| 0 <= i < shorter.len() implies (#[trigger] shorter[i]).len() > 0 by {
            assert(shorter[i] == parts[i]);
        }
        flattened_is_long(shorter);
        assert(parts.last() == parts[parts.len() - 1]);
    }
}

/// An index has twelve bytes per chunk, and the `i`th twelve are the `i`th
/// chunk's offset and length.
proof fn index_bytes_entry(stored: Seq<Seq<u8>>, i: int)
    requires
        0 <= i < stored.len(),
    ensures
        index_bytes(stored).len() == 12 * stored.len(),
        index_bytes(stored).subrange(12 * i, 12 * i + 8) == bytes::le_bytes(
            offset_of(stored, i),
            8,
        ),
        index_bytes(stored).subrange(12 * i + 8, 12 * i + 12) == bytes::le_bytes(
            stored[i].len(),
            4,
        ),
    decreases stored.len(),
{
    let shorter = stored.drop_last();
    let tail8 = bytes::le_bytes(bytes::flattened(shorter).len(), 8);
    let tail4 = bytes::le_bytes(stored.last().len(), 4);
    bytes::le_bytes_len(bytes::flattened(shorter).len(), 8);
    bytes::le_bytes_len(stored.last().len(), 4);
    index_bytes_len(shorter);
    assert(index_bytes(stored) == index_bytes(shorter) + (tail8 + tail4));
    if i == stored.len() - 1 {
        assert(stored.take(i) == shorter);
        assert(index_bytes(stored).subrange(12 * i, 12 * i + 8) =~= tail8);
        assert(index_bytes(stored).subrange(12 * i + 8, 12 * i + 12) =~= tail4);
    } else {
        index_bytes_entry(shorter, i);
        assert(shorter.take(i) == stored.take(i));
        assert(index_bytes(stored).subrange(12 * i, 12 * i + 8) =~= index_bytes(shorter).subrange(
            12 * i,
            12 * i + 8,
        ));
        assert(index_bytes(stored).subrange(12 * i + 8, 12 * i + 12) =~= index_bytes(
            shorter,
        ).subrange(12 * i + 8, 12 * i + 12));
    }
}

/// An index has twelve bytes per chunk.
pub proof fn index_bytes_len(stored: Seq<Seq<u8>>)
    ensures
        index_bytes(stored).len() == 12 * stored.len(),
    decreases stored.len(),
{
    if stored.len() > 0 {
        index_bytes_len(stored.drop_last());
        bytes::le_bytes_len(bytes::flattened(stored.drop_last()).len(), 8);
        bytes::le_bytes_len(stored.last().len(), 4);
    }
}

/// A bevy's index locates every chunk in the bevy.
pub proof fn index_locates(stored: Seq<Seq<u8>>, i: int)
    requires
        0 <= i < stored.len(),
        bytes::flattened(stored).len() <= u64::MAX,
        stored[i].len() <= u32::MAX,
    ensures
        index_entry(index_bytes(stored), i) == (ChunkLocation {
            offset: offset_of(stored, i) as u64,
            length: stored[i].len() as u32,
        }),
        bytes::flattened(stored).subrange(
            offset_of(stored, i) as int,
            (offset_of(stored, i) + stored[i].len()) as int,
        ) == stored[i],
{
    index_bytes_entry(stored, i);
    flattened_part(stored, i);
    bytes::le_widths();
    bytes::le_round_trip(offset_of(stored, i), 8);
    bytes::le_round_trip(stored[i].len(), 4);
}

/// A chunk that was stored and indexed comes back, padded.
pub proof fn chunk_comes_back(
    s: StreamView,
    chunks: Seq<Seq<u8>>,
    stored: Seq<Seq<u8>>,
    locus: LocusView,
    i: int,
)
    requires
        stored_decodes(s.codec, s.chunk_size as nat, chunks, stored),
        bytes::flattened(stored).len() <= usize::MAX,
        0 <= i < stored.len(),
    ensures
        chunk_of_bevy(
            s,
            bytes::flattened(stored),
            index_entry(index_bytes(stored), i),
            i as nat,
            locus,
        ) == Ok::<Seq<u8>, ErrorView>(padded(chunks[i], s.chunk_size as nat)),
{
    let location = index_entry(index_bytes(stored), i);
    index_locates(stored, i);
    flattened_part(stored, i);
    let at = locus.byte_offset(location.offset);
    assert(0 < stored[i].len() <= u32::MAX);
    assert(chunk_stored(bytes::flattened(stored), location, i as nat, at) == Ok::<
        Seq<u8>,
        ErrorView,
    >(stored[i]));
    assert(chunk_decoded(s.codec, stored[i], s.chunk_size as nat, at) == Ok::<
        Seq<u8>,
        ErrorView,
    >(padded(chunks[i], s.chunk_size as nat)));
}

/// The reader makes of a bevy's first chunks what the writer was handed.
proof fn chunks_come_back(
    s: StreamView,
    chunks: Seq<Seq<u8>>,
    stored: Seq<Seq<u8>>,
    locations: Seq<ChunkLocation>,
    locus: LocusView,
    n: nat,
)
    requires
        stored_decodes(s.codec, s.chunk_size as nat, chunks, stored),
        bytes::flattened(stored).len() <= usize::MAX,
        locations == Seq::new(stored.len(), |i: int| index_entry(index_bytes(stored), i)),
        n <= stored.len(),
    ensures
        chunks_of_bevy(s, bytes::flattened(stored), locations, locus, n) == Ok::<
            Seq<Seq<u8>>,
            ErrorView,
        >(all_padded(chunks, s.chunk_size as nat).take(n as int)),
    decreases n,
{
    let all = all_padded(chunks, s.chunk_size as nat);
    if n == 0 {
        assert(all.take(0) == Seq::<Seq<u8>>::empty());
    } else {
        chunks_come_back(s, chunks, stored, locations, locus, (n - 1) as nat);
        let i = n - 1;
        chunk_comes_back(s, chunks, stored, locus, i);
        assert(all.take(n as int) == all.take(i).push(padded(chunks[i], s.chunk_size as nat)));
    }
}

/// The reader makes of a bevy's bytes and index exactly the chunks that the
/// writer was handed, each padded to the chunk size.
pub proof fn bevy_round_trip(
    s: StreamView,
    chunks: Seq<Seq<u8>>,
    stored: Seq<Seq<u8>>,
    bevy_locus: LocusView,
    index_locus: LocusView,
)
    requires
        stored_decodes(s.codec, s.chunk_size as nat, chunks, stored),
        bytes::flattened(stored).len() <= usize::MAX,
        0 < stored.len() <= s.chunks_in_segment,
    ensures
        bevy_decoded(
            s,
            bytes::flattened(stored),
            index_bytes(stored),
            bevy_locus,
            index_locus,
        ) == Ok::<Seq<Seq<u8>>, ErrorView>(all_padded(chunks, s.chunk_size as nat)),
{
    index_bytes_len(stored);
    let locations = Seq::new(stored.len(), |i: int| index_entry(index_bytes(stored), i));
    assert(index_bytes(stored).len() / 12 == stored.len());
    assert(index_parsed(index_bytes(stored), index_locus) == Ok::<Seq<ChunkLocation>, ErrorView>(
        locations,
    ));
    chunks_come_back(s, chunks, stored, locations, bevy_locus, stored.len());
    let all = all_padded(chunks, s.chunk_size as nat);
    assert(all.take(stored.len() as int) == all);
}

impl BevyBuilder {
    /// What this bevy holds.
    pub closed spec fn view(&self) -> BevyView {
        BevyView {
            codec: self.codec,
            chunk_size: self.chunk_size,
            chunks_per_segment: self.chunks_per_segment,
            chunks: self.chunks@,
            hashed: self.hashed@,
        }
    }

    /// Whether the bytes and the index are those of the chunks held.
    pub closed spec fn wf(&self) -> bool {
        &&& STORED_MARGIN <= self.chunk_size
        &&& self.codec == Codec::Lz4 ==> lz4_takes(self.chunk_size as nat)
        &&& stored_decodes(
            self.codec,
            self.chunk_size as nat,
            self.chunks@,
            self.stored@,
        )
        &&& forall|i: int|
            0 <= i < self.stored@.len() ==> 0 < (#[trigger] self.stored@[i]).len() <= u32::MAX
        &&& self.stored@ == stored_chunks(self.codec, self.chunk_size as nat, self.chunks@)
        &&& self.body@ == bytes::flattened(self.stored@)
        &&& self.index@ == index_bytes(self.stored@)
        &&& self.chunk_count == self.stored@.len()
        &&& self.blocks.md5@ == md5_of_each(self.hashed@)
        &&& self.blocks.sha1@ == sha1_of_each(self.hashed@)
    }

    /// Start an empty bevy.
    pub fn new(codec: Codec, chunk_size: usize, chunks_per_segment: usize) -> (r: Self)
        requires
            STORED_MARGIN <= chunk_size,
            codec == Codec::Lz4 ==> lz4_takes(chunk_size as nat),
        ensures
            r.wf(),
            r.view() == (BevyView {
                codec,
                chunk_size,
                chunks_per_segment,
                chunks: Seq::empty(),
                hashed: Seq::empty(),
            }),
    {
        proof {
            assert(stored_chunks(codec, chunk_size as nat, Seq::empty())
                =~= Seq::<Seq<u8>>::empty());
        }
        BevyBuilder {
            codec,
            chunk_size,
            chunks_per_segment,
            body: Vec::new(),
            index: Vec::new(),
            chunk_count: 0,
            blocks: BlockDigests { md5: Vec::new(), sha1: Vec::new() },
            chunks: Ghost(Seq::empty()),
            stored: Ghost(Seq::empty()),
            hashed: Ghost(Seq::empty()),
        }
    }

    /// Whether the bevy has all its chunks.
    pub fn is_full(&self) -> (r: bool)
        requires
            self.wf(),
        ensures
            r == (self.view().chunks.len() >= self.view().chunks_per_segment),
    {
        self.chunk_count >= self.chunks_per_segment
    }

    /// Whether nothing has been added.
    pub fn is_empty(&self) -> (r: bool)
        requires
            self.wf(),
        ensures
            r == (self.view().chunks.len() == 0),
    {
        self.chunk_count == 0
    }

    /// How many chunks are held.
    pub fn chunk_count(&self) -> (r: usize)
        requires
            self.wf(),
        ensures
            r == self.view().chunks.len(),
    {
        self.chunk_count
    }

    /// Append one chunk. One shorter than the chunk size is padded with zero
    /// bytes before it is compressed, and digested without them.
    pub fn push_chunk(&mut self, chunk: &[u8], locus: &Locus) -> (r: Result<(), Error>)
        requires
            old(self).wf(),
        ensures
            final(self).wf(),
            ({
                let before = old(self).view();
                let full = padded(chunk@, before.chunk_size as nat);
                let stored = stored_form(before.codec, full, before.chunk_size as nat);
                if chunk@.len() > before.chunk_size {
                    &&& r is Err
                    &&& r->Err_0@ == malformed(
                        locus@,
                        oversized_chunk_text(chunk@.len(), before.chunk_size as nat),
                    )
                    &&& final(self).view() == before
                } else if !handled(before.codec) {
                    &&& r is Err
                    &&& r->Err_0@ == unsupported(locus@, unwritten_text(before.codec))
                    &&& final(self).view() == (BevyView {
                        hashed: before.hashed.push(chunk@),
                        ..before
                    })
                } else if stored.len() > u32::MAX {
                    &&& r is Err
                    &&& r->Err_0@ == malformed(locus@, unindexable_text(stored.len()))
                    &&& final(self).view() == (BevyView {
                        hashed: before.hashed.push(chunk@),
                        ..before
                    })
                } else {
                    &&& r is Ok
                    &&& final(self).view() == (BevyView {
                        chunks: before.chunks.push(chunk@),
                        hashed: before.hashed.push(chunk@),
                        ..before
                    })
                }
            }),
    {
        if chunk.len() > self.chunk_size {
            return Err(
                Error::malformed(
                    locus.clone(),
                    text::cat4(
                        "chunk of ",
                        text::dec_usize(chunk.len()).as_str(),
                        " bytes exceeds the declared chunk size ",
                        text::dec_usize(self.chunk_size).as_str(),
                    ),
                ),
            );
        }
        let mut full: Vec<u8> = bytes::copied(chunk);
        full.resize(self.chunk_size, 0);
        proof {
            assert(full@ == padded(chunk@, self.chunk_size as nat));
        }
        // The digests cover the chunk as it is reconstructed: without padding.
        let ghost hashed0 = self.hashed@;
        bytes::append(&mut self.blocks.md5, md5_raw(chunk).as_slice());
        bytes::append(&mut self.blocks.sha1, sha1_raw(chunk).as_slice());
        self.hashed = Ghost(self.hashed@.push(chunk@));
        proof {
            assert(self.hashed@.drop_last() == hashed0);
        }
        let compressed = match compress_chunk(self.codec, full.as_slice(), locus) {
            Ok(c) => c,
            Err(e) => return Err(e),
        };
        let ghost stored_seq = stored_form(self.codec, full@, self.chunk_size as nat);
        let keeps: bool = compressed.len() < self.chunk_size - STORED_MARGIN;
        let kept: &Vec<u8> = if keeps {
            &compressed
        } else {
            &full
        };
        proof {
            assert(kept@ == stored_seq);
            assert forall|place: LocusView|
                #[trigger] chunk_decoded(
                    self.codec,
                    kept@,
                    self.chunk_size as nat,
                    place,
                ) == Ok::<Seq<u8>, ErrorView>(full@) by {
                if keeps {
                    assert(compressed@.len() < self.chunk_size);
                }
            }
        }
        if kept.len() as u64 > u32::MAX as u64 {
            return Err(
                Error::malformed(
                    locus.clone(),
                    text::cat3(
                        "stored chunk of ",
                        text::dec_usize(kept.len()).as_str(),
                        " bytes exceeds the 32-bit bevy index length field",
                    ),
                ),
            );
        }
        let ghost chunks0 = self.chunks@;
        let ghost stored0 = self.stored@;
        let offset: u64 = self.body.len() as u64;
        let length: u32 = kept.len() as u32;
        let ghost index0 = self.index@;
        bytes::append(&mut self.body, kept.as_slice());
        bytes::append_u64(&mut self.index, offset);
        bytes::append_u32(&mut self.index, length);
        self.chunks = Ghost(chunks0.push(chunk@));
        self.stored = Ghost(stored0.push(kept@));
        let total: usize = self.body.len();
        proof {
            bytes::flattened_push(stored0, kept@);
            assert(self.stored@.drop_last() == stored0);
            assert(self.stored@.last() == kept@);
            assert(self.index@ == index0 + (bytes::le_bytes(offset as nat, 8) + bytes::le_bytes(
                length as nat,
                4,
            )));
            assert forall|i: int| 0 <= i < self.stored@.len() implies 0 < (
            #[trigger] self.stored@[i]).len() <= u32::MAX by {
                if i < stored0.len() {
                    assert(self.stored@[i] == stored0[i]);
                }
            }
            assert forall|i: int, place: LocusView| 0 <= i < self.stored@.len() implies
                #[trigger] chunk_decoded(
                self.codec,
                self.stored@[i],
                self.chunk_size as nat,
                place,
            ) == Ok::<Seq<u8>, ErrorView>(padded(self.chunks@[i], self.chunk_size as nat)) by {
                if i < stored0.len() {
                    assert(self.stored@[i] == stored0[i]);
                    assert(self.chunks@[i] == chunks0[i]);
                    assert(chunk_decoded(self.codec, stored0[i], self.chunk_size as nat, place)
                        == Ok::<Seq<u8>, ErrorView>(padded(chunks0[i], self.chunk_size as nat)));
                } else {
                    assert(self.stored@[i] == kept@);
                    assert(self.chunks@[i] == chunk@);
                }
            }
            assert(self.stored@ =~= stored_chunks(
                self.codec,
                self.chunk_size as nat,
                self.chunks@,
            )) by {
                assert forall|i: int| 0 <= i < self.stored@.len() implies self.stored@[i]
                    == stored_chunks(self.codec, self.chunk_size as nat, self.chunks@)[i] by {
                    if i < stored0.len() {
                        assert(stored0[i] == stored_chunks(
                            self.codec,
                            self.chunk_size as nat,
                            chunks0,
                        )[i]);
                        assert(self.chunks@[i] == chunks0[i]);
                    } else {
                        assert(self.chunks@[i] == chunk@);
                    }
                }
            }
            flattened_is_long(self.stored@);
            assert(total >= self.stored@.len());
        }
        self.chunk_count = self.chunk_count + 1;
        Ok(())
    }

    /// Take the finished bevy, leaving the builder empty and reusable.
    ///
    /// A reader with the same codec and chunk size, whose bevies hold at least
    /// that many chunks, makes of it the chunks handed over, each padded.
    pub fn finish(&mut self) -> (r: FinishedBevy)
        requires
            old(self).wf(),
        ensures
            final(self).wf(),
            final(self).view() == (BevyView {
                chunks: Seq::empty(),
                hashed: Seq::empty(),
                ..old(self).view()
            }),
            r.chunk_count == old(self).view().chunks.len(),
            ({
                let before = old(self).view();
                let stored = stored_chunks(
                    before.codec,
                    before.chunk_size as nat,
                    before.chunks,
                );
                &&& r.body@ == bytes::flattened(stored)
                &&& r.index@ == index_bytes(stored)
                &&& stored_decodes(
                    before.codec,
                    before.chunk_size as nat,
                    before.chunks,
                    stored,
                )
            }),
            r.blocks.md5@ == md5_of_each(old(self).view().hashed),
            r.blocks.sha1@ == sha1_of_each(old(self).view().hashed),
            r.index@.len() == 12 * old(self).view().chunks.len(),
            forall|s: StreamView, bevy_locus: LocusView, index_locus: LocusView|
                s.codec == old(self).view().codec && s.chunk_size == old(self).view().chunk_size
                    && 0 < old(self).view().chunks.len() <= s.chunks_in_segment
                    ==> #[trigger] bevy_decoded(s, r.body@, r.index@, bevy_locus, index_locus)
                    == Ok::<Seq<Seq<u8>>, ErrorView>(
                    all_padded(old(self).view().chunks, s.chunk_size as nat),
                ),
    {
        let chunk_count: usize = self.chunk_count;
        let mut body: Vec<u8> = Vec::new();
        let mut index: Vec<u8> = Vec::new();
        let mut blocks = BlockDigests { md5: Vec::new(), sha1: Vec::new() };
        std::mem::swap(&mut body, &mut self.body);
        std::mem::swap(&mut index, &mut self.index);
        std::mem::swap(&mut blocks, &mut self.blocks);
        let ghost stored = self.stored@;
        let ghost chunks = self.chunks@;
        self.chunk_count = 0;
        self.chunks = Ghost(Seq::empty());
        self.stored = Ghost(Seq::empty());
        self.hashed = Ghost(Seq::empty());
        let total: usize = body.len();
        proof {
            assert(stored_chunks(self.codec, self.chunk_size as nat, Seq::empty())
                =~= Seq::<Seq<u8>>::empty());
            index_bytes_len(stored);
            assert forall|s: StreamView, bevy_locus: LocusView, index_locus: LocusView|
                s.codec == old(self).view().codec && s.chunk_size == old(self).view().chunk_size
                    && 0 < old(self).view().chunks.len() <= s.chunks_in_segment implies
                #[trigger] bevy_decoded(s, body@, index@, bevy_locus, index_locus) == Ok::<
                Seq<Seq<u8>>,
                ErrorView,
            >(all_padded(old(self).view().chunks, s.chunk_size as nat)) by {
                bevy_round_trip(s, chunks, stored, bevy_locus, index_locus);
            }
        }
        FinishedBevy { body, index, chunk_count, blocks }
    }
}

/// The member name of a bevy: eight digits at least.
pub fn bevy_name(base: &str, number: u64) -> (r: String)
    ensures
        r@ == bevy_member_name(base@, number as nat),
{
    text::cat3(base, "/", text::pad_zeros(text::dec(number).as_str(), 8).as_str())
}

/// The member name of a bevy's digests under `algorithm`.
pub fn bevy_block_hash_name(base: &str, number: u64, algorithm: &str) -> (r: String)
    ensures
        r@ == bevy_member_name(base@, number as nat) + BLOCK_HASH_SUFFIX@ + algorithm@,
{
    text::cat3(bevy_name(base, number).as_str(), BLOCK_HASH_SUFFIX, algorithm)
}

/// The member name of a bevy's index.
pub fn bevy_index_name(base: &str, number: u64) -> (r: String)
    ensures
        r@ == bevy_member_name(base@, number as nat) + INDEX_SUFFIX@,
{
    text::cat2(bevy_name(base, number).as_str(), INDEX_SUFFIX)
}

} // verus!
