//! What was written is read back, from any place and in any order.
//!
//! A stream is written from its beginning to its end, and an image asks for its
//! bytes in the order of its map. What the two have to do with each other is stated
//! here.

use vstd::prelude::*;

use crate::arn::NameMapping;
use crate::bytes;
use crate::chunk_reader::{locations_of, nowhere, plain_chunk, region, trimmed};
use crate::error::{ErrorView, LocusView};
use crate::model::HashAlgorithm;
use crate::stream::{
    at_most, bevy_member_name, chunk_of_bevy, index_bounded, index_entry, ChunkLocation,
    INDEX_SUFFIX,
};
use crate::text;
use crate::verify::container::{
    after_runs, bevy_read, chunk_read, described_bytes, home_of, image_content, region_read,
    run_content, span_read, stream_named, ImageView, Part, RunView,
};
use crate::volume::{position_facts, MemoryVolume, Volume};
use crate::write::bevy::{chunk_comes_back, index_bytes, index_bytes_len, padded, stored_chunks};
use crate::write::container_writer::{MemberView, WriterView};
use crate::write::dedupe::{
    digests_tell_apart, file_chunks, pooled_chunks_are_found, stated_places_hold, PoolView,
};
use crate::write::logical::record::shared_runs_hold;
use crate::write::stream_writer::{
    all_bevies, bevies_between, bevy_decodes, bevy_is_served, bevy_slice, chunk_at, chunk_count,
    chunks_in, decodes_back, described, holds, options_ok, serves, span_is_positive, span_of,
    stream_begun, stream_of, stream_written, BuilderView, StreamOptions,
};

verus! {

/// A volume in memory that was given some members, no two under one name, serves them.
pub proof fn given_members_are_served(volume: &MemoryVolume, members: Seq<MemberView>)
    requires
        volume.held_names() == Seq::new(members.len(), |i: int| members[i].name),
        volume.held_data() == Seq::new(members.len(), |i: int| members[i].data),
        volume.held_names().no_duplicates(),
    ensures
        serves(volume, members),
{
    assert forall|i: int| 0 <= i < members.len() implies volume.outcome(
        (#[trigger] members[i]).name,
    ) == Ok::<Seq<u8>, ErrorView>(members[i].data) by {
        position_facts(volume.held_names(), members[i].name);
        assert(volume.held_names()[i] == members[i].name);
    }
}

/// A volume that serves every member a writer holds also holds each stream the writer
/// wrote, as it was written.
pub proof fn written_streams_are_held<V: Volume>(
    w: WriterView,
    arn: Seq<char>,
    o: StreamOptions,
    data: Seq<u8>,
    algorithms: Seq<HashAlgorithm>,
    locus: LocusView,
    volume: &V,
)
    requires
        w.mapping == NameMapping::Escaped,
        volume.name() == w.volume,
        stream_begun(w, arn, o, locus) is Ok,
        data.len() <= u64::MAX,
        decodes_back(o, data),
        serves(
            volume,
            stream_written(w, stream_begun(w, arn, o, locus)->Ok_0, data, algorithms).members,
        ),
    ensures
        holds(volume, stream_of(stream_begun(w, arn, o, locus)->Ok_0, data)),
        described(stream_of(stream_begun(w, arn, o, locus)->Ok_0, data)).arn == arn,
{
    let b = stream_of(stream_begun(w, arn, o, locus)->Ok_0, data);
    let bevies = bevies_between(b.base, o, data, 0, all_bevies(data.len(), o));
    let all = stream_written(w, stream_begun(w, arn, o, locus)->Ok_0, data, algorithms).members;
    assert(all == w.members + bevies);
    assert forall|i: int| 0 <= i < bevies.len() implies volume.outcome(
        (#[trigger] bevies[i]).name,
    ) == Ok::<Seq<u8>, ErrorView>(bevies[i].data) by {
        assert(all[w.members.len() + i] == bevies[i]);
    }
}

/// The bytes that a chunk of a stream was made of.
pub open spec fn chunk_content(b: BuilderView, chunk: nat) -> Seq<u8> {
    let from = chunk * b.options.chunk_size;
    let to = from + b.options.chunk_size;
    b.content.subrange(
        from,
        if to <= b.content.len() {
            to
        } else {
            b.content.len() as int
        },
    )
}

/// Where a chunk stands among the bevies: its bevy begins within the content, and the
/// bevies before it and the chunks before it in its own bevy make up what comes before
/// the chunk.
proof fn chunk_place(b: BuilderView, chunk: nat)
    requires
        options_ok(b.options),
        chunk * b.options.chunk_size < b.content.len(),
    ensures
        ({
            let o = b.options;
            let bevy = chunk / o.chunks_per_segment as nat;
            let within = chunk % o.chunks_per_segment as nat;
            let data = bevy_slice(b.content, o, bevy);
            &&& bevy < all_bevies(b.content.len(), o)
            &&& bevy * span_of(o) + within * o.chunk_size == chunk * o.chunk_size
            &&& bevy * span_of(o) < b.content.len()
            &&& 0 < data.len() <= span_of(o)
            &&& bevy * span_of(o) + data.len() <= b.content.len()
            &&& within < chunks_in(data, o).len() <= o.chunks_per_segment
            &&& data.len() < span_of(o) ==> bevy * span_of(o) + data.len() == b.content.len()
            &&& data == b.content.subrange(
                (bevy * span_of(o)) as int,
                (bevy * span_of(o) + data.len()) as int,
            )
        }),
{
    let o = b.options;
    let n = o.chunk_size as nat;
    let per = o.chunks_per_segment as nat;
    let len = b.content.len();
    let span = span_of(o);
    let bevy = chunk / per;
    let within = chunk % per;
    let data = bevy_slice(b.content, o, bevy);
    span_is_positive(o);
    assert(chunk == bevy * per + within && within < per) by (nonlinear_arith)
        requires
            bevy == chunk / per,
            within == chunk % per,
            per > 0,
    ;
    assert(bevy * span + within * n == chunk * n) by (nonlinear_arith)
        requires
            chunk == bevy * per + within,
            span == n * per,
    ;
    assert(within * n >= 0) by (nonlinear_arith);
    assert(within * n < span) by (nonlinear_arith)
        requires
            within < per,
            span == n * per,
            n > 0,
    ;
    assert((bevy + 1) * span == bevy * span + span) by (nonlinear_arith);
    let whole = len / span;
    assert(whole * span + len % span == len && len % span < span) by (nonlinear_arith)
        requires
            whole == len / span,
            span > 0,
    ;
    assert(bevy <= whole) by (nonlinear_arith)
        requires
            bevy * span < len,
            len < whole * span + span,
            span > 0,
    ;
    if bevy == whole {
        assert(len % span != 0);
    }
    chunk_count(data, o);
    let count = chunks_in(data, o).len();
    assert(within * n < data.len());
    assert(within < count) by (nonlinear_arith)
        requires
            within * n < data.len(),
            data.len() <= count * n,
            n > 0,
    ;
}

/// A chunk of a stream that a volume holds is found where its number says, and gives
/// back the bytes that it was made of.
proof fn chunk_is_found<V: Volume>(b: BuilderView, volume: &V, chunk: nat, locus: LocusView)
    requires
        holds(volume, b),
        chunk * b.options.chunk_size < b.content.len(),
    ensures
        ({
            let o = b.options;
            let s = described(b);
            let bevy = chunk / o.chunks_per_segment as nat;
            let within = chunk % o.chunks_per_segment as nat;
            let name = bevy_member_name(b.base, bevy);
            let stored = stored_chunks(
                o.codec,
                o.chunk_size as nat,
                chunks_in(bevy_slice(b.content, o, bevy), o),
            );
            let locations = Seq::new(
                stored.len(),
                |i: int| index_entry(index_bytes(stored), i),
            );
            &&& volume.outcome(name) == Ok::<Seq<u8>, ErrorView>(bytes::flattened(stored))
            &&& volume.outcome(name + INDEX_SUFFIX@) == Ok::<Seq<u8>, ErrorView>(
                index_bytes(stored),
            )
            &&& forall|l: LocusView| #[trigger]
                index_bounded(index_bytes(stored), o.chunks_per_segment as nat, l) == Ok::<
                    Seq<ChunkLocation>,
                    ErrorView,
                >(locations)
            &&& within < locations.len()
            &&& chunk_of_bevy(
                s,
                bytes::flattened(stored),
                locations[within as int],
                within,
                locus,
            ) matches Ok(plain) && trimmed(s, plain, chunk) == chunk_content(b, chunk)
        }),
{
    let o = b.options;
    let s = described(b);
    let n = o.chunk_size as nat;
    let len = b.content.len();
    let bevy = chunk / o.chunks_per_segment as nat;
    let within = chunk % o.chunks_per_segment as nat;
    let data = bevy_slice(b.content, o, bevy);
    let chunks = chunks_in(data, o);
    let stored = stored_chunks(o.codec, n, chunks);
    chunk_place(b, chunk);
    bevy_is_served(b, volume, bevy, all_bevies(len, o));
    index_bytes_len(stored);
    assert(bevy_decodes(o, data));
    assert(index_bytes(stored).len() / 12 == stored.len());
    chunk_at(data, n, within);
    chunk_comes_back(s, chunks, stored, locus, within as int);
    let piece = chunks[within as int];
    let from = chunk * n;
    assert((within + 1) * n <= span_of(o)) by (nonlinear_arith)
        requires
            within < o.chunks_per_segment,
            span_of(o) == n * o.chunks_per_segment,
    ;
    let start = bevy * span_of(o);
    assert(start + within * n == from);
    if (within + 1) * n <= data.len() {
        assert(from + n <= len);
        assert(piece =~= b.content.subrange(from as int, (from + n) as int));
    } else {
        assert(start + data.len() == len);
        assert(piece =~= b.content.subrange(from as int, len as int));
    }
    assert(at_most(padded(piece, n), len - from) =~= piece);
}

/// A written stream gives back each of its chunks on demand, to both readers.
pub proof fn written_chunks_read_back<V: Volume>(
    b: BuilderView,
    volume: &V,
    chunk: nat,
    place: LocusView,
)
    requires
        holds(volume, b),
        chunk * b.options.chunk_size < b.content.len(),
    ensures
        plain_chunk(described(b), volume, chunk) == Some(chunk_content(b, chunk)),
        chunk_read(described(b), volume, chunk, place) == Ok::<Seq<u8>, ErrorView>(
            chunk_content(b, chunk),
        ),
{
    let s = described(b);
    let bevy = chunk / b.options.chunks_per_segment as nat;
    chunk_is_found(b, volume, chunk, nowhere());
    chunk_is_found(b, volume, chunk, place.segment(text::zero_padded(text::decimal(bevy), 8)));
    reveal(chunk_read);
    assert(locations_of(s, volume, bevy) is Some);
    assert(bevy_read(s, volume, bevy, place) is Ok);
}

/// Random access agrees with writing: of a written stream, the bytes from any place to
/// any later one are those that were written there.
pub proof fn written_regions_read_back<V: Volume>(
    b: BuilderView,
    volume: &V,
    position: nat,
    end: nat,
    place: LocusView,
)
    requires
        holds(volume, b),
        position <= end <= b.content.len(),
    ensures
        region(described(b), volume, position, end) == Some(
            b.content.subrange(position as int, end as int),
        ),
        span_read(described(b), volume, position, end, place) == Ok::<Seq<u8>, ErrorView>(
            b.content.subrange(position as int, end as int),
        ),
    decreases end - position,
{
    let s = described(b);
    let n = b.options.chunk_size as nat;
    if position == end {
        assert(b.content.subrange(position as int, end as int) =~= Seq::<u8>::empty());
    } else {
        let chunk = position / n;
        let within = position % n;
        assert(chunk * n + within == position && within < n) by (nonlinear_arith)
            requires
                chunk == position / n,
                within == position % n,
                n > 0,
        ;
        written_chunks_read_back(b, volume, chunk, place);
        let plain = chunk_content(b, chunk);
        let take = if plain.len() - within < end - position {
            (plain.len() - within) as nat
        } else {
            (end - position) as nat
        };
        written_regions_read_back(b, volume, position + take, end, place);
        assert(plain.subrange(within as int, within + take as int) + b.content.subrange(
            (position + take) as int,
            end as int,
        ) =~= b.content.subrange(position as int, end as int));
    }
}

/// A map entry reads as what was written: a region within a written stream gives the
/// bytes that were written there.
pub proof fn written_runs_read_back<V: Volume>(
    b: BuilderView,
    volume: &V,
    offset: u64,
    length: u64,
    locus: LocusView,
)
    requires
        holds(volume, b),
        offset + length <= b.content.len(),
    ensures
        region_read(described(b), volume, offset, length, locus) == Ok::<Seq<u8>, ErrorView>(
            b.content.subrange(offset as int, offset + length),
        ),
{
    written_regions_read_back(
        b,
        volume,
        offset as nat,
        (offset + length) as nat,
        locus.subject(b.arn),
    );
}

/// Whether a run has bytes: one that is stored lies within a stream that its volume
/// holds as written, and one that is described repeats something.
pub open spec fn is_backed<V: Volume>(
    run: RunView,
    image: ImageView,
    parts: Seq<Part<V>>,
    b: BuilderView,
) -> bool {
    match run {
        RunView::Stored { stream, target_offset, length } => {
            &&& stream_named(image.streams, stream) == Some(described(b))
            &&& holds(&parts[home_of(parts, stream)].volume, b)
            &&& target_offset + length <= b.content.len()
        },
        RunView::Described { kind: _, pattern, offset: _, length: _ } => pattern.len() > 0,
    }
}

/// The bytes that a run stands for.
pub open spec fn run_source(run: RunView, b: BuilderView) -> Seq<u8> {
    match run {
        RunView::Stored { stream: _, target_offset, length } => b.content.subrange(
            target_offset as int,
            target_offset + length,
        ),
        RunView::Described { kind: _, pattern, offset, length } => described_bytes(
            pattern,
            offset as nat,
            length as nat,
        ),
    }
}

/// The bytes that the first `n` runs stand for, one after the other.
pub open spec fn runs_source(runs: Seq<RunView>, sources: Seq<BuilderView>, n: nat) -> Seq<u8>
    decreases n,
{
    if n == 0 {
        Seq::empty()
    } else {
        runs_source(runs, sources, (n - 1) as nat) + run_source(runs[n - 1], sources[n - 1])
    }
}

/// The first runs of an image give the bytes that they stand for.
proof fn runs_read_back<V: Volume>(
    image: ImageView,
    parts: Seq<Part<V>>,
    sources: Seq<BuilderView>,
    locus: LocusView,
    n: nat,
)
    requires
        sources.len() == image.runs.len(),
        n <= image.runs.len(),
        forall|i: int|
            0 <= i < image.runs.len() ==> #[trigger] is_backed(
                image.runs[i],
                image,
                parts,
                sources[i],
            ),
    ensures
        after_runs(image, parts, locus, n) matches Ok((data, _)) && data == runs_source(
            image.runs,
            sources,
            n,
        ),
    decreases n,
{
    if n > 0 {
        runs_read_back(image, parts, sources, locus, (n - 1) as nat);
        let run = image.runs[n - 1];
        let b = sources[n - 1];
        assert(is_backed(run, image, parts, b));
        match run {
            RunView::Stored { stream, target_offset, length } => {
                written_runs_read_back(
                    b,
                    &parts[home_of(parts, stream)].volume,
                    target_offset,
                    length,
                    locus,
                );
            },
            _ => {},
        }
        assert(run_content(run, image.streams, parts, locus) == Ok::<Seq<u8>, ErrorView>(
            run_source(run, b),
        ));
    }
}

/// An image reads as its map says: where every stored run lies within a stream that was
/// written, the image's bytes are those that were written there and those that the
/// described runs repeat, in the order of the map.
pub proof fn written_images_read_back<V: Volume>(
    image: ImageView,
    parts: Seq<Part<V>>,
    sources: Seq<BuilderView>,
    locus: LocusView,
)
    requires
        sources.len() == image.runs.len(),
        forall|i: int|
            0 <= i < image.runs.len() ==> #[trigger] is_backed(
                image.runs[i],
                image,
                parts,
                sources[i],
            ),
    ensures
        image_content(image, parts, locus) matches Ok((data, _)) && data == runs_source(
            image.runs,
            sources,
            image.runs.len(),
        ),
{
    runs_read_back(image, parts, sources, locus, image.runs.len());
}

/// A deduplicated file is read back: each of its chunks stands in the stream of all
/// chunks, at its number times the chunk size, whatever was pooled before the file and
/// after it, as long as digests tell the chunks apart.
pub proof fn deduplicated_chunks_read_back<V: Volume>(
    p: PoolView,
    data: Seq<u8>,
    q: PoolView,
    b: BuilderView,
    volume: &V,
    k: int,
    place: LocusView,
)
    requires
        p.chunk_size > 0,
        0 <= k < file_chunks(data, p.chunk_size).len(),
        q.unique.len() <= u32::MAX,
        p.with_file(data).0.unique.is_prefix_of(q.unique),
        forall|i: int| 0 <= i < q.unique.len() ==> (#[trigger] q.unique[i]).len() == p.chunk_size,
        digests_tell_apart(p.with_file(data).0.unique, file_chunks(data, p.chunk_size)),
        b.content == bytes::flattened(q.unique),
        holds(volume, b),
    ensures
        ({
            let n = p.chunk_size;
            let id = p.with_file(data).1[k] as nat;
            &&& region(described(b), volume, id * n, id * n + n) == Some(file_chunks(data, n)[k])
            &&& span_read(described(b), volume, id * n, id * n + n, place) == Ok::<
                Seq<u8>,
                ErrorView,
            >(file_chunks(data, n)[k])
        }),
{
    let n = p.chunk_size;
    let chunks = file_chunks(data, n);
    let after = p.with_all(chunks).0;
    let id = p.with_all(chunks).1[k] as nat;
    pooled_chunks_are_found(p, chunks, k);
    assert(after.unique[id as int] == chunks[k]);
    assert(q.unique[id as int] == after.unique[id as int]);
    stated_places_hold(q.unique, n, id as int);
    written_regions_read_back(b, volume, id * n, id * n + n, place);
}

/// A file that shares a stream is read back: the run that its map names gives the file,
/// whatever else was appended to the stream before it and after it.
pub proof fn shared_files_read_back<V: Volume>(
    before: BuilderView,
    data: Seq<u8>,
    more: Seq<u8>,
    volume: &V,
    locus: LocusView,
)
    requires
        holds(volume, before.with(data).with(more)),
    ensures
        region_read(
            described(before.with(data).with(more)),
            volume,
            before.content.len() as u64,
            data.len() as u64,
            locus,
        ) == Ok::<Seq<u8>, ErrorView>(data),
{
    shared_runs_hold(before, data, more);
    written_runs_read_back(
        before.with(data).with(more),
        volume,
        before.content.len() as u64,
        data.len() as u64,
        locus,
    );
}

} // verus!
