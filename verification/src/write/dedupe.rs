//! Deduplicated logical storage.
//!
//! Every different chunk of an acquisition is stored once, in one stream. A name
//! made of the chunk's digest names its content and points at its place in that
//! stream; a file is a map whose targets are such names. A short last chunk is
//! padded with zero bytes before it is digested, and the file's recorded size
//! trims the padding away.

use vstd::prelude::*;

use crate::bytes;
use crate::error::{malformed, Error, ErrorView, Locus, LocusView};
use crate::hash::{sha512_digest, sha512_raw};
use crate::lexicon::{iri, standard_iri};
use crate::model::HashAlgorithm;
use crate::rdf::{statement, Term, TermView, TripleView};
use crate::text;
use crate::verify::blocks::cut;
use crate::verify::report::capped_sum;
use crate::write::bevy::padded;
use crate::write::container_writer::{ContainerWriter, WriterView};
use crate::write::stream_writer::{
    chunk_at, cut_step, decodes_back, endless_stream_text, last_chunk, stream_begun,
    stream_written, write_pieces_as, StreamBuilder, StreamOptions,
};

verus! {

broadcast use vstd::std_specs::hash::group_hash_axioms;

/// What a name made of a chunk's digest begins with.
pub const BLOCK_HASH_PREFIX: &'static str = "aff4:sha512:";

/// The name of a chunk's content, by its digest, in lower-case hexadecimal.
pub fn block_hash_arn(digest: &[u8]) -> (r: String)
    ensures
        r@ == BLOCK_HASH_PREFIX@ + text::hex(digest@),
{
    text::cat2(BLOCK_HASH_PREFIX, text::hex_lower(digest).as_str())
}

/// The name of `len` bytes at `offset` of a stream.
pub open spec fn slice_name(stream: Seq<char>, offset: nat, len: nat) -> Seq<char> {
    stream + "[0x"@ + text::hexadecimal(offset) + ":0x"@ + text::hexadecimal(len) + "]"@
}

/// The name of `len` bytes at `offset` of a stream.
pub fn slice_arn(stream_arn: &str, offset: u64, len: u64) -> (r: String)
    ensures
        r@ == slice_name(stream_arn@, offset as nat, len as nat),
{
    text::cat6(
        stream_arn,
        "[0x",
        text::hexa(offset).as_str(),
        ":0x",
        text::hexa(len).as_str(),
        "]",
    )
}

/// The first of some chunks that has a digest; their number where none has it.
pub open spec fn digest_place(unique: Seq<Seq<u8>>, digest: Seq<u8>) -> nat
    decreases unique.len(),
{
    if unique.len() == 0 {
        0
    } else {
        let before = digest_place(unique.drop_last(), digest);
        if before < unique.len() - 1 {
            before
        } else if sha512_digest(unique.last()) == digest {
            (unique.len() - 1) as nat
        } else {
            unique.len()
        }
    }
}

/// What is first is before all others.
pub proof fn digest_place_is_first(unique: Seq<Seq<u8>>, digest: Seq<u8>)
    ensures
        digest_place(unique, digest) <= unique.len(),
        digest_place(unique, digest) < unique.len() ==> sha512_digest(
            unique[digest_place(unique, digest) as int],
        ) == digest,
        forall|i: int|
            0 <= i < digest_place(unique, digest) && i < unique.len() ==> sha512_digest(
                #[trigger] unique[i],
            ) != digest,
    decreases unique.len(),
{
    if unique.len() > 0 {
        let front = unique.drop_last();
        digest_place_is_first(front, digest);
        assert forall|i: int|
            0 <= i < digest_place(unique, digest) && i < unique.len() implies sha512_digest(
            #[trigger] unique[i],
        ) != digest by {
            if i < front.len() {
                assert(front[i] == unique[i]);
            }
        }
    }
}

/// The number that a map gives a chunk, as wide as a map's entry has room for.
pub open spec fn target_number(place: nat) -> u32 {
    if place > u32::MAX {
        u32::MAX
    } else {
        place as u32
    }
}

/// A pool of chunks, as plain values.
#[verifier::ext_equal]
pub struct PoolView {
    /// The chunk size.
    pub chunk_size: nat,
    /// The different chunks, in the order first seen.
    pub unique: Seq<Seq<u8>>,
    /// How many bytes are stored.
    pub stored: u64,
    /// How many bytes were presented.
    pub presented: u64,
}

impl PoolView {
    /// With a chunk, where its digest is new.
    pub open spec fn with(self, chunk: Seq<u8>) -> PoolView {
        if digest_place(self.unique, sha512_digest(chunk)) < self.unique.len() {
            self
        } else {
            PoolView {
                unique: self.unique.push(chunk),
                stored: capped_sum(self.stored as int, chunk.len() as int),
                ..self
            }
        }
    }

    /// With some chunks, one after the other, and the number that each got.
    pub open spec fn with_all(self, chunks: Seq<Seq<u8>>) -> (PoolView, Seq<u32>)
        decreases chunks.len(),
    {
        if chunks.len() == 0 {
            (self, Seq::empty())
        } else {
            let (before, ids) = self.with_all(chunks.drop_last());
            (
                before.with(chunks.last()),
                ids.push(
                    target_number(digest_place(before.unique, sha512_digest(chunks.last()))),
                ),
            )
        }
    }

    /// With a file, and the number that each of its chunks got.
    pub open spec fn with_file(self, data: Seq<u8>) -> (PoolView, Seq<u32>) {
        let (after, ids) = self.with_all(file_chunks(data, self.chunk_size));
        (
            PoolView {
                presented: capped_sum(
                    self.presented as int,
                    presented_length(data, self.chunk_size) as int,
                ),
                ..after
            },
            ids,
        )
    }
}

/// The chunks of a file, the last padded; none where chunks have no size.
pub open spec fn file_chunks(data: Seq<u8>, chunk_size: nat) -> Seq<Seq<u8>> {
    if chunk_size == 0 {
        Seq::empty()
    } else {
        Seq::new(cut(data, chunk_size).len(), |i: int| padded(cut(data, chunk_size)[i], chunk_size))
    }
}

/// How many bytes of a file are presented: all, where chunks have a size.
pub open spec fn presented_length(data: Seq<u8>, chunk_size: nat) -> nat {
    if chunk_size == 0 {
        0
    } else {
        data.len()
    }
}

/// Once a chunk is in the pool, every number before stays what it was.
pub proof fn pooling_keeps(p: PoolView, chunks: Seq<Seq<u8>>)
    ensures
        p.with_all(chunks).0.unique.len() >= p.unique.len(),
        p.with_all(chunks).0.unique.take(p.unique.len() as int) == p.unique,
        p.with_all(chunks).0.chunk_size == p.chunk_size,
        p.with_all(chunks).0.presented == p.presented,
        p.with_all(chunks).1.len() == chunks.len(),
    decreases chunks.len(),
{
    if chunks.len() > 0 {
        pooling_keeps(p, chunks.drop_last());
        let before = p.with_all(chunks.drop_last()).0;
        let after = before.with(chunks.last());
        assert(after.unique.take(p.unique.len() as int) =~= before.unique.take(
            p.unique.len() as int,
        ));
    } else {
        assert(p.unique.take(p.unique.len() as int) =~= p.unique);
    }
}

/// Every chunk of a file is found again under the number it got: the pool holds
/// there a chunk of the same digest, whatever else was pooled before it or is
/// pooled after it.
pub proof fn pooled_chunks_are_found(p: PoolView, chunks: Seq<Seq<u8>>, i: int)
    requires
        0 <= i < chunks.len(),
        p.with_all(chunks).0.unique.len() <= u32::MAX,
    ensures
        p.with_all(chunks).1.len() == chunks.len(),
        p.with_all(chunks).1[i] < p.with_all(chunks).0.unique.len(),
        sha512_digest(p.with_all(chunks).0.unique[p.with_all(chunks).1[i] as int])
            == sha512_digest(chunks[i]),
    decreases chunks.len(),
{
    pooling_keeps(p, chunks.drop_last());
    pooling_keeps(p, chunks);
    let before = p.with_all(chunks.drop_last()).0;
    let after = p.with_all(chunks).0;
    if i < chunks.len() - 1 {
        pooled_chunks_are_found(p, chunks.drop_last(), i);
        assert(chunks.drop_last()[i] == chunks[i]);
        let id = p.with_all(chunks.drop_last()).1[i] as int;
        assert(after.unique[id] == before.unique[id]);
    } else {
        digest_place_is_first(before.unique, sha512_digest(chunks.last()));
    }
}

/// The number that a chunk got is where its digest is first found in the pool, whatever
/// is pooled after it.
proof fn numbers_are_places(p: PoolView, chunks: Seq<Seq<u8>>, i: int)
    requires
        0 <= i < chunks.len(),
    ensures
        p.with_all(chunks).1.len() == chunks.len(),
        p.with_all(chunks).1[i] == target_number(
            digest_place(p.with_all(chunks).0.unique, sha512_digest(chunks[i])),
        ),
        digest_place(p.with_all(chunks).0.unique, sha512_digest(chunks[i])) < p.with_all(
            chunks,
        ).0.unique.len(),
    decreases chunks.len(),
{
    pooling_keeps(p, chunks.drop_last());
    let before = p.with_all(chunks.drop_last()).0;
    let after = before.with(chunks.last());
    if after.unique.len() > before.unique.len() {
        assert(after.unique.drop_last() =~= before.unique);
    }
    if i < chunks.len() - 1 {
        numbers_are_places(p, chunks.drop_last(), i);
        assert(chunks.drop_last()[i] == chunks[i]);
    } else {
        digest_place_is_first(before.unique, sha512_digest(chunks.last()));
    }
}

/// Two chunks get the same number exactly where they have the same digest, which
/// chunks that are the same always have.
pub proof fn same_numbers_for_same_chunks(p: PoolView, chunks: Seq<Seq<u8>>, i: int, j: int)
    requires
        0 <= i < chunks.len(),
        0 <= j < chunks.len(),
        p.with_all(chunks).0.unique.len() <= u32::MAX,
    ensures
        p.with_all(chunks).1[i] == p.with_all(chunks).1[j] <==> sha512_digest(chunks[i])
            == sha512_digest(chunks[j]),
        chunks[i] == chunks[j] ==> p.with_all(chunks).1[i] == p.with_all(chunks).1[j],
{
    numbers_are_places(p, chunks, i);
    numbers_are_places(p, chunks, j);
    pooled_chunks_are_found(p, chunks, i);
    pooled_chunks_are_found(p, chunks, j);
}

/// Lists one after the other.
pub open spec fn joined<A>(lists: Seq<Seq<A>>) -> Seq<A>
    decreases lists.len(),
{
    if lists.len() == 0 {
        Seq::empty()
    } else {
        joined(lists.drop_last()) + lists.last()
    }
}

/// Where an item of a list stands among all of them.
pub open spec fn joined_place<A>(lists: Seq<Seq<A>>, f: int, i: int) -> int {
    joined(lists.take(f)).len() + i
}

/// An item of a list is found where it stands among all of them.
proof fn joined_holds<A>(lists: Seq<Seq<A>>, f: int, i: int)
    requires
        0 <= f < lists.len(),
        0 <= i < lists[f].len(),
    ensures
        0 <= joined_place(lists, f, i) < joined(lists).len(),
        joined(lists)[joined_place(lists, f, i)] == lists[f][i],
    decreases lists.len(),
{
    let front = lists.drop_last();
    if f == lists.len() - 1 {
        assert(lists.take(f) =~= front);
    } else {
        joined_holds(front, f, i);
        assert(front.take(f) =~= lists.take(f));
    }
}

/// Lists of the same lengths have their items at the same places.
proof fn joined_alike<A, B>(a: Seq<Seq<A>>, b: Seq<Seq<B>>)
    requires
        a.len() == b.len(),
        forall|f: int| 0 <= f < a.len() ==> (#[trigger] a[f]).len() == b[f].len(),
    ensures
        joined(a).len() == joined(b).len(),
    decreases a.len(),
{
    if a.len() > 0 {
        let x = a.drop_last();
        let y = b.drop_last();
        assert forall|f: int| 0 <= f < x.len() implies (#[trigger] x[f]).len() == y[f].len() by {
            assert(x[f] == a[f]);
        }
        joined_alike(x, y);
        assert(a[a.len() - 1].len() == b[a.len() - 1].len());
    }
}

/// The chunks of several files, file by file.
pub open spec fn chunks_of_files(files: Seq<Seq<u8>>, chunk_size: nat) -> Seq<Seq<Seq<u8>>> {
    Seq::new(files.len(), |f: int| file_chunks(files[f], chunk_size))
}

/// A pool that holds nothing.
pub open spec fn empty_pool(chunk_size: nat) -> PoolView {
    PoolView { chunk_size, unique: Seq::empty(), stored: 0, presented: 0 }
}

/// What several files, absorbed one after the other, make of an empty pool, and the
/// numbers that the chunks of each got.
pub open spec fn pooled_files(files: Seq<Seq<u8>>, chunk_size: nat) -> (PoolView, Seq<Seq<u32>>)
    decreases files.len(),
{
    if files.len() == 0 {
        (empty_pool(chunk_size), Seq::empty())
    } else {
        let (p, ids) = pooled_files(files.drop_last(), chunk_size);
        let (after, more) = p.with_file(files.last());
        (after, ids.push(more))
    }
}

/// How many bytes several files have together.
pub open spec fn files_length(files: Seq<Seq<u8>>) -> nat
    decreases files.len(),
{
    if files.len() == 0 {
        0
    } else {
        files_length(files.drop_last()) + files.last().len()
    }
}

/// Chunks pooled after others are pooled as if all came at once.
proof fn pooling_goes_on(p: PoolView, a: Seq<Seq<u8>>, b: Seq<Seq<u8>>)
    ensures
        p.with_all(a + b).0 == p.with_all(a).0.with_all(b).0,
        p.with_all(a + b).1 == p.with_all(a).1 + p.with_all(a).0.with_all(b).1,
    decreases b.len(),
{
    if b.len() == 0 {
        assert(a + b =~= a);
        assert(p.with_all(a).1 + Seq::<u32>::empty() =~= p.with_all(a).1);
    } else {
        pooling_goes_on(p, a, b.drop_last());
        assert((a + b).drop_last() =~= a + b.drop_last());
        assert((a + b).last() == b.last());
        assert(p.with_all(a + b).1 =~= p.with_all(a).1 + p.with_all(a).0.with_all(b).1);
    }
}

/// How much was presented before does not matter to what is pooled.
proof fn presented_is_apart(p: PoolView, presented: u64, chunks: Seq<Seq<u8>>)
    ensures
        (PoolView { presented, ..p }).with_all(chunks).0 == (PoolView {
            presented,
            ..p.with_all(chunks).0
        }),
        (PoolView { presented, ..p }).with_all(chunks).1 == p.with_all(chunks).1,
    decreases chunks.len(),
{
    if chunks.len() > 0 {
        presented_is_apart(p, presented, chunks.drop_last());
    }
}

/// Files absorbed one after the other are pooled as if all their chunks came at once.
proof fn files_pool_as_one(files: Seq<Seq<u8>>, c: nat)
    ensures
        ({
            let (p, ids) = pooled_files(files, c);
            let all = joined(chunks_of_files(files, c));
            &&& empty_pool(c).with_all(all).0 == (PoolView { presented: 0, ..p })
            &&& joined(ids) == empty_pool(c).with_all(all).1
            &&& ids.len() == files.len()
            &&& forall|f: int|
                0 <= f < files.len() ==> (#[trigger] ids[f]).len() == chunks_of_files(
                    files,
                    c,
                )[f].len()
        }),
    decreases files.len(),
{
    let lists = chunks_of_files(files, c);
    if files.len() == 0 {
        assert(joined(lists) =~= Seq::<Seq<u8>>::empty());
    } else {
        files_pool_as_one(files.drop_last(), c);
        let (p, ids) = pooled_files(files.drop_last(), c);
        let before = joined(chunks_of_files(files.drop_last(), c));
        let more = file_chunks(files.last(), c);
        assert(lists.drop_last() =~= chunks_of_files(files.drop_last(), c));
        assert(lists.last() == more);
        pooling_keeps(empty_pool(c), before);
        pooling_goes_on(empty_pool(c), before, more);
        presented_is_apart(p, 0, more);
        pooling_keeps(p, more);
        let (after, now) = pooled_files(files, c);
        assert(now.drop_last() =~= ids);
        assert forall|f: int| 0 <= f < files.len() implies (#[trigger] now[f]).len()
            == lists[f].len() by {
            if f < files.len() - 1 {
                assert(now[f] == ids[f]);
                assert(lists[f] == chunks_of_files(files.drop_last(), c)[f]);
            }
        }
    }
}

/// Whether chunks that differ have digests that differ.
pub open spec fn digests_differ(chunks: Seq<Seq<u8>>) -> bool {
    forall|i: int, j: int|
        0 <= i < chunks.len() && 0 <= j < chunks.len() && sha512_digest(#[trigger] chunks[i])
            == sha512_digest(#[trigger] chunks[j]) ==> chunks[i] == chunks[j]
}

/// What a pool holds of some chunks: no digest twice, nothing but the chunks, and a
/// chunk of the digest of each.
proof fn pool_holds_digests(c: nat, chunks: Seq<Seq<u8>>)
    ensures
        ({
            let unique = empty_pool(c).with_all(chunks).0.unique;
            &&& forall|i: int, j: int|
                0 <= i < j < unique.len() ==> sha512_digest(#[trigger] unique[i])
                    != sha512_digest(#[trigger] unique[j])
            &&& forall|i: int| 0 <= i < unique.len() ==> chunks.contains(#[trigger] unique[i])
        }),
    decreases chunks.len(),
{
    if chunks.len() > 0 {
        let front = chunks.drop_last();
        pool_holds_digests(c, front);
        let before = empty_pool(c).with_all(front).0;
        let after = empty_pool(c).with_all(chunks).0;
        let last = chunks.last();
        digest_place_is_first(before.unique, sha512_digest(last));
        assert forall|i: int| 0 <= i < after.unique.len() implies chunks.contains(
            #[trigger] after.unique[i],
        ) by {
            if i < before.unique.len() {
                assert(front.contains(before.unique[i]));
                let k = choose|k: int| 0 <= k < front.len() && front[k] == before.unique[i];
                assert(chunks[k] == after.unique[i]);
            } else {
                assert(chunks[chunks.len() - 1] == after.unique[i]);
            }
        }
    }
}

/// A pool of some chunks stores as many bytes as its chunks have, at most what can be
/// counted.
proof fn pool_stores(c: nat, chunks: Seq<Seq<u8>>)
    requires
        forall|i: int| 0 <= i < chunks.len() ==> (#[trigger] chunks[i]).len() == c,
    ensures
        empty_pool(c).with_all(chunks).0.stored == capped_sum(
            0,
            (empty_pool(c).with_all(chunks).0.unique.len() * c) as int,
        ),
    decreases chunks.len(),
{
    if chunks.len() > 0 {
        let front = chunks.drop_last();
        assert forall|i: int| 0 <= i < front.len() implies (#[trigger] front[i]).len() == c by {
            assert(front[i] == chunks[i]);
        }
        pool_stores(c, front);
        let n = empty_pool(c).with_all(front).0.unique.len();
        assert((n + 1) * c == n * c + c) by (nonlinear_arith);
        assert(chunks[chunks.len() - 1].len() == c);
    } else {
        assert(0 * c == 0) by (nonlinear_arith);
    }
}

/// What files present adds up, at most to what can be counted.
proof fn files_present(files: Seq<Seq<u8>>, c: nat)
    requires
        c > 0,
    ensures
        pooled_files(files, c).0.presented == capped_sum(0, files_length(files) as int),
        pooled_files(files, c).0.chunk_size == c,
    decreases files.len(),
{
    if files.len() > 0 {
        files_present(files.drop_last(), c);
        let p = pooled_files(files.drop_last(), c).0;
        pooling_keeps(p, file_chunks(files.last(), c));
    }
}

/// A file has as many chunks as its length over the chunk size, rounded up, each of the
/// chunk size.
proof fn file_chunks_count(data: Seq<u8>, c: nat)
    requires
        c > 0,
    ensures
        file_chunks(data, c).len() == (data.len() + c - 1) / c as int,
        forall|i: int| 0 <= i < file_chunks(data, c).len() ==> (#[trigger] file_chunks(
            data,
            c,
        )[i]).len() == c,
{
    let n = data.len() as int;
    let d = c as int;
    let q = n / d;
    let r = n % d;
    vstd::arithmetic::div_mod::lemma_fundamental_div_mod(n, d);
    assert(q * d == d * q) by (nonlinear_arith);
    if r == 0 {
        vstd::arithmetic::div_mod::lemma_fundamental_div_mod_converse(n + d - 1, d, q, d - 1);
    } else {
        assert((q + 1) * d == q * d + d) by (nonlinear_arith);
        vstd::arithmetic::div_mod::lemma_fundamental_div_mod_converse(
            n + d - 1,
            d,
            q + 1,
            r - 1,
        );
    }
    assert(q >= 0) by (nonlinear_arith)
        requires
            q == n / d,
            n >= 0,
            d > 0,
    ;
    let pieces = cut(data, c);
    assert forall|i: int| 0 <= i < pieces.len() implies (#[trigger] pieces[i]).len() <= c by {
        assert(q * d <= n);
        if i < q {
            assert(i * d + d <= q * d && 0 <= i * d) by (nonlinear_arith)
                requires
                    0 <= i < q,
                    d > 0,
            ;
        }
    }
}

/// A pool stores each distinct chunk once, over all files absorbed: two chunks, padded
/// to the chunk size, get the same number exactly where they are the same; there are as
/// many chunks in the pool as are different; and the two totals are those of the chunks
/// stored and of the files presented, at most what can be counted. Digests have to tell
/// the chunks apart, and their numbers have to fit.
pub proof fn pools_store_each_chunk_once(files: Seq<Seq<u8>>, c: nat)
    requires
        c > 0,
        digests_differ(joined(chunks_of_files(files, c))),
        pooled_files(files, c).0.unique.len() <= u32::MAX,
    ensures
        ({
            let (p, ids) = pooled_files(files, c);
            let lists = chunks_of_files(files, c);
            &&& ids.len() == files.len()
            &&& forall|f: int|
                0 <= f < files.len() ==> (#[trigger] ids[f]).len() == (files[f].len() + c - 1)
                    / c as int
            &&& forall|f: int, i: int, g: int, j: int|
                #![trigger ids[f][i], ids[g][j]]
                0 <= f < files.len() && 0 <= i < ids[f].len() && 0 <= g < files.len() && 0 <= j
                    < ids[g].len() ==> (ids[f][i] == ids[g][j] <==> lists[f][i] == lists[g][j])
            &&& p.unique.len() == joined(lists).to_set().len()
            &&& p.stored == capped_sum(0, (p.unique.len() * c) as int)
            &&& p.presented == capped_sum(0, files_length(files) as int)
        }),
{
    let (p, ids) = pooled_files(files, c);
    let lists = chunks_of_files(files, c);
    let all = joined(lists);
    files_pool_as_one(files, c);
    files_present(files, c);
    assert forall|f: int| 0 <= f < files.len() implies (#[trigger] ids[f]).len() == (
    files[f].len() + c - 1) / c as int by {
        file_chunks_count(files[f], c);
        assert(lists[f] == file_chunks(files[f], c));
    }
    assert forall|f: int, i: int, g: int, j: int|
        #![trigger ids[f][i], ids[g][j]]
        0 <= f < files.len() && 0 <= i < ids[f].len() && 0 <= g < files.len() && 0 <= j
            < ids[g].len() implies (ids[f][i] == ids[g][j] <==> lists[f][i] == lists[g][j]) by {
        numbers_follow_chunks(files, c, f, i);
        numbers_follow_chunks(files, c, g, j);
        same_numbers_for_same_chunks(
            empty_pool(c),
            all,
            joined_place(lists, f, i),
            joined_place(lists, g, j),
        );
    }
    every_chunk_is_long(files, c);
    pool_stores(c, all);
    distinct_chunks_are_pooled(c, all);
}

/// A chunk of a file and its number stand at the same place among all of them.
proof fn numbers_follow_chunks(files: Seq<Seq<u8>>, c: nat, f: int, i: int)
    requires
        0 <= f < files.len(),
        0 <= i < chunks_of_files(files, c)[f].len(),
    ensures
        ({
            let lists = chunks_of_files(files, c);
            let all = joined(lists);
            let k = joined_place(lists, f, i);
            &&& 0 <= k < all.len()
            &&& all[k] == lists[f][i]
            &&& empty_pool(c).with_all(all).1[k] == pooled_files(files, c).1[f][i]
        }),
{
    let lists = chunks_of_files(files, c);
    let ids = pooled_files(files, c).1;
    files_pool_as_one(files, c);
    assert(ids[f].len() == lists[f].len());
    joined_holds(lists, f, i);
    joined_holds(ids, f, i);
    assert forall|g: int| 0 <= g < lists.take(f).len() implies (#[trigger] lists.take(f)[g]).len()
        == ids.take(f)[g].len() by {
        assert(ids[g].len() == lists[g].len());
    }
    joined_alike(lists.take(f), ids.take(f));
}

/// Every chunk of several files is of the chunk size.
proof fn every_chunk_is_long(files: Seq<Seq<u8>>, c: nat)
    requires
        c > 0,
    ensures
        forall|i: int|
            0 <= i < joined(chunks_of_files(files, c)).len() ==> (#[trigger] joined(
                chunks_of_files(files, c),
            )[i]).len() == c,
    decreases files.len(),
{
    if files.len() > 0 {
        let lists = chunks_of_files(files, c);
        every_chunk_is_long(files.drop_last(), c);
        assert(lists.drop_last() =~= chunks_of_files(files.drop_last(), c));
        file_chunks_count(files.last(), c);
        let front = joined(lists.drop_last());
        assert forall|i: int| 0 <= i < joined(lists).len() implies (#[trigger] joined(
            lists,
        )[i]).len() == c by {
            if i < front.len() {
                assert(front[i] == joined(lists)[i]);
            } else {
                assert(joined(lists)[i] == file_chunks(files.last(), c)[i - front.len()]);
            }
        }
    }
}

/// A pool holds as many chunks as are different, where digests tell them apart.
proof fn distinct_chunks_are_pooled(c: nat, all: Seq<Seq<u8>>)
    requires
        digests_differ(all),
    ensures
        empty_pool(c).with_all(all).0.unique.len() == all.to_set().len(),
{
    let unique = empty_pool(c).with_all(all).0.unique;
    pool_holds_digests(c, all);
    assert(unique.no_duplicates());
    unique.unique_seq_to_set();
    assert(unique.to_set() =~= all.to_set()) by {
        assert forall|x: Seq<u8>| unique.contains(x) implies all.contains(x) by {
            let i = choose|i: int| 0 <= i < unique.len() && unique[i] == x;
            assert(all.contains(unique[i]));
        }
        assert forall|x: Seq<u8>| all.contains(x) implies unique.contains(x) by {
            let k = choose|k: int| 0 <= k < all.len() && all[k] == x;
            numbers_are_places(empty_pool(c), all, k);
            let at = digest_place(unique, sha512_digest(x)) as int;
            digest_place_is_first(unique, sha512_digest(x));
            assert(all.contains(unique[at]));
            let m = choose|m: int| 0 <= m < all.len() && all[m] == unique[at];
            assert(sha512_digest(all[m]) == sha512_digest(all[k]));
            assert(unique[at] == x);
        }
    }
}

/// The chunk pool of one deduplicated acquisition.
pub struct ChunkPool {
    seen: std::collections::HashMap<u64, Vec<usize>>,
    digests: Vec<Vec<u8>>,
    unique: Vec<Vec<u8>>,
    stored: u64,
    presented: u64,
    chunk_size: usize,
}

/// What one deduplicated file resolved to.
#[derive(Debug)]
pub struct DedupedFile {
    /// One target number per chunk, in file order.
    pub target_ids: Vec<u32>,
    /// The file's own length, before padding.
    pub size: u64,
}

/// The beginning of a digest, by which chunks are looked up.
spec fn beginning(digest: Seq<u8>) -> nat {
    bytes::le_value(digest.subrange(0, 8))
}

impl ChunkPool {
    /// What the pool holds.
    pub closed spec fn view(&self) -> PoolView {
        PoolView {
            chunk_size: self.chunk_size as nat,
            unique: bytes::views(self.unique@),
            stored: self.stored,
            presented: self.presented,
        }
    }

    /// Whether every chunk is found by its digest, and every chunk is full.
    pub closed spec fn wf(&self) -> bool {
        &&& self.digests@.len() == self.unique@.len()
        &&& forall|i: int|
            0 <= i < self.unique@.len() ==> (#[trigger] self.digests@[i])@ == sha512_digest(
                self.unique@[i]@,
            ) && self.digests@[i]@.len() == 64
        &&& forall|i: int|
            0 <= i < self.unique@.len() ==> (#[trigger] self.unique@[i])@.len() == self.chunk_size
        &&& forall|i: int|
            0 <= i < self.digests@.len() ==> {
                let key = beginning((#[trigger] self.digests@[i])@) as u64;
                self.seen@.contains_key(key) && self.seen@[key]@.contains(i as usize)
            }
        &&& forall|key: u64, k: int| #[trigger]
            self.seen@.contains_key(key) && 0 <= k < self.seen@[key]@.len() ==> (
            #[trigger] self.seen@[key]@[k]) < self.digests@.len()
        &&& forall|i: int, j: int|
            0 <= i < j < self.digests@.len() ==> (#[trigger] self.digests@[i])@ != (
            #[trigger] self.digests@[j])@
    }

    /// An empty pool of chunks of a size.
    pub fn new(chunk_size: usize) -> (r: Self)
        ensures
            r.wf(),
            r.view() == empty_pool(chunk_size as nat),
    {
        let r = ChunkPool {
            seen: std::collections::HashMap::new(),
            digests: Vec::new(),
            unique: Vec::new(),
            stored: 0,
            presented: 0,
            chunk_size,
        };
        proof {
            assert(bytes::views(r.unique@) =~= Seq::<Seq<u8>>::empty());
        }
        r
    }

    /// How many bytes are stored.
    pub fn stored_bytes(&self) -> (r: u64)
        ensures
            r == self.view().stored,
    {
        self.stored
    }

    /// How many bytes were presented, duplicates counted.
    pub fn presented_bytes(&self) -> (r: u64)
        ensures
            r == self.view().presented,
    {
        self.presented
    }

    /// How many different chunks there are.
    pub fn unique_chunks(&self) -> (r: usize)
        ensures
            r == self.view().unique.len(),
    {
        self.unique.len()
    }

    /// How many bytes need not be stored.
    pub fn saved_bytes(&self) -> (r: u64)
        ensures
            r == if self.view().presented > self.view().stored {
                self.view().presented - self.view().stored
            } else {
                0
            },
    {
        self.presented.saturating_sub(self.stored)
    }

    /// Where the chunk of a digest is, if there is one.
    fn find(&self, digest: &Vec<u8>) -> (r: Option<usize>)
        requires
            self.wf(),
            digest@.len() == 64,
        ensures
            (match r {
                Some(i) => i < self.unique@.len() && digest_place(self.view().unique, digest@) == i,
                None => digest_place(self.view().unique, digest@) == self.unique@.len(),
            }),
    {
        let count: usize = self.unique.len();
        let key: u64 = bytes::u64_at(digest.as_slice(), 0);
        proof {
            digest_place_is_first(self.view().unique, digest@);
            assert(key == beginning(digest@) as u64);
        }
        match self.seen.get(&key) {
            Some(bucket) => {
                let mut k: usize = 0;
                while k < bucket.len()
                    invariant
                        k <= bucket.len(),
                        self.wf(),
                        digest@.len() == 64,
                        key == beginning(digest@) as u64,
                        self.seen@.contains_key(key),
                        self.seen@[key] == *bucket,
                        forall|j: int|
                            0 <= j < k ==> self.digests@[(#[trigger] bucket@[j]) as int]@ != digest@,
                        digest_place(self.view().unique, digest@) <= self.unique@.len(),
                        digest_place(self.view().unique, digest@) < self.unique@.len()
                            ==> sha512_digest(
                            self.view().unique[digest_place(self.view().unique, digest@) as int],
                        ) == digest@,
                        forall|i: int|
                            0 <= i < digest_place(self.view().unique, digest@) && i
                                < self.view().unique.len() ==> sha512_digest(
                                #[trigger] self.view().unique[i],
                            ) != digest@,
                    decreases bucket.len() - k,
                {
                    let i: usize = bucket[k];
                    if bytes::equal(self.digests[i].as_slice(), digest.as_slice()) {
                        proof {
                            let place = digest_place(self.view().unique, digest@) as int;
                            assert(sha512_digest(self.view().unique[i as int]) == digest@);
                            assert(place <= i);
                            if place < i {
                                assert(self.digests@[place]@ == sha512_digest(
                                    self.unique@[place]@,
                                ));
                                assert(self.digests@[place]@ != self.digests@[i as int]@);
                            }
                        }
                        return Some(i);
                    }
                    k = k + 1;
                }
                proof {
                    let place = digest_place(self.view().unique, digest@) as int;
                    if place < count {
                        assert(self.unique@[place]@ == self.view().unique[place]);
                        assert(self.digests@[place]@ == digest@);
                        assert(bucket@.contains(place as usize));
                        let j = choose|j: int|
                            0 <= j < bucket@.len() && bucket@[j] == place as usize;
                        assert(self.digests@[bucket@[j] as int]@ != digest@);
                    }
                }
                None
            },
            None => {
                proof {
                    let place = digest_place(self.view().unique, digest@) as int;
                    if place < self.unique@.len() {
                        assert(self.digests@[place]@ == digest@);
                    }
                }
                None
            },
        }
    }

    /// Add one full chunk.
    fn intern(&mut self, chunk: Vec<u8>) -> (r: u32)
        requires
            old(self).wf(),
            chunk@.len() == old(self).view().chunk_size,
        ensures
            final(self).wf(),
            final(self).view() == old(self).view().with(chunk@),
            r == target_number(digest_place(old(self).view().unique, sha512_digest(chunk@))),
    {
        let digest = sha512_raw(chunk.as_slice());
        match self.find(&digest) {
            Some(i) => if i > 0xffff_ffff {
                0xffff_ffff
            } else {
                i as u32
            },
            None => {
                let at: usize = self.unique.len();
                let key: u64 = bytes::u64_at(digest.as_slice(), 0);
                let ghost before = *self;
                let mut bucket: Vec<usize> = match self.seen.remove(&key) {
                    Some(bucket) => bucket,
                    None => Vec::new(),
                };
                let ghost kept = bucket@;
                bucket.push(at);
                self.seen.insert(key, bucket);
                self.stored = self.stored.saturating_add(chunk.len() as u64);
                self.digests.push(digest);
                self.unique.push(chunk);
                proof {
                    digest_place_is_first(before.view().unique, digest@);
                    assert(bytes::views(self.unique@) =~= before.view().unique.push(chunk@));
                    assert(key == beginning(digest@) as u64);
                    assert forall|i: int| 0 <= i < self.digests@.len() implies {
                        let k = beginning((#[trigger] self.digests@[i])@) as u64;
                        self.seen@.contains_key(k) && self.seen@[k]@.contains(i as usize)
                    } by {
                        let k = beginning(self.digests@[i]@) as u64;
                        if i == at {
                            assert(bucket@[kept.len() as int] == at);
                        } else {
                            assert(self.digests@[i] == before.digests@[i]);
                            assert(before.seen@[k]@.contains(i as usize));
                            if k == key {
                                let j = choose|j: int|
                                    0 <= j < kept.len() && kept[j] == i as usize;
                                assert(bucket@[j] == i as usize);
                            }
                        }
                    }
                    assert forall|k: u64, j: int| #[trigger]
                        self.seen@.contains_key(k) && 0 <= j < self.seen@[k]@.len() implies (
                    #[trigger] self.seen@[k]@[j]) < self.digests@.len() by {
                        if k == key {
                            if j < kept.len() {
                                assert(bucket@[j] == kept[j]);
                                assert(before.seen@.contains_key(key));
                                assert(before.seen@[key]@[j] == kept[j]);
                            }
                        } else {
                            assert(before.seen@.contains_key(k));
                        }
                    }
                    assert forall|i: int, j: int| 0 <= i < j < self.digests@.len() implies (
                    #[trigger] self.digests@[i])@ != (#[trigger] self.digests@[j])@ by {
                        if j == at {
                            assert(before.view().unique[i] == before.unique@[i]@);
                            assert(before.digests@[i]@ == sha512_digest(before.unique@[i]@));
                            assert(self.digests@[i] == before.digests@[i]);
                        } else {
                            assert(self.digests@[i] == before.digests@[i]);
                            assert(self.digests@[j] == before.digests@[j]);
                        }
                    }
                    assert forall|i: int| 0 <= i < self.unique@.len() implies (
                    #[trigger] self.digests@[i])@ == sha512_digest(self.unique@[i]@)
                        && self.digests@[i]@.len() == 64 by {
                        if i < at {
                            assert(self.digests@[i] == before.digests@[i]);
                            assert(self.unique@[i] == before.unique@[i]);
                        }
                    }
                    assert forall|i: int| 0 <= i < self.unique@.len() implies (
                    #[trigger] self.unique@[i])@.len() == self.chunk_size by {
                        if i < at {
                            assert(self.unique@[i] == before.unique@[i]);
                        }
                    }
                }
                if at > 0xffff_ffff {
                    0xffff_ffff
                } else {
                    at as u32
                }
            },
        }
    }

    /// Cut a file into the pool.
    pub fn absorb(&mut self, data: &[u8]) -> (r: DedupedFile)
        requires
            old(self).wf(),
        ensures
            final(self).wf(),
            (final(self).view(), r.target_ids@) == old(self).view().with_file(data@),
            r.size == presented_length(data@, old(self).view().chunk_size),
    {
        let mut target_ids: Vec<u32> = Vec::new();
        let length: usize = data.len();
        let ghost p = self.view();
        let ghost n = p.chunk_size;
        if self.chunk_size == 0 {
            proof {
                assert(p.with_all(file_chunks(data@, n)).1 =~= target_ids@);
                assert(self.view() =~= p.with_file(data@).0);
            }
            return DedupedFile { target_ids, size: 0 };
        }
        let ghost all = file_chunks(data@, n);
        let chunk_size: usize = self.chunk_size;
        let mut at: usize = 0;
        let ghost mut k: nat = 0;
        proof {
            assert(all.take(0) =~= Seq::<Seq<u8>>::empty());
            assert(p.with_all(all.take(0)).1 =~= target_ids@);
            assert(0 * n == 0) by (nonlinear_arith);
            if data@.len() == 0 {
                cut_step(data@, n, 0);
            }
        }
        while at < length
            invariant
                length == data@.len(),
                n == chunk_size,
                n > 0,
                n == p.chunk_size,
                all == file_chunks(data@, n),
                at <= length,
                at < length ==> at == k * n,
                k <= all.len(),
                at == length ==> k == all.len(),
                self.wf(),
                self.view().chunk_size == n,
                (self.view(), target_ids@) == p.with_all(all.take(k as int)),
            decreases length - at,
        {
            let take: usize = if length - at < chunk_size { length - at } else { chunk_size };
            let mut chunk = bytes::copied_range(data, at, at + take);
            let ghost plain = chunk@;
            while chunk.len() < chunk_size
                invariant
                    plain.len() <= chunk@.len() <= chunk_size,
                    chunk@ == plain + Seq::new(
                        (chunk@.len() - plain.len()) as nat,
                        |i: int| 0u8,
                    ),
                decreases chunk_size - chunk.len(),
            {
                chunk.push(0);
                proof {
                    assert(chunk@ =~= plain + Seq::new(
                        (chunk@.len() - plain.len()) as nat,
                        |i: int| 0u8,
                    ));
                }
            }
            proof {
                cut_step(data@, n, k);
                assert((k + 1) * n == k * n + n) by (nonlinear_arith);
                assert(plain == cut(data@, n)[k as int]);
                assert(chunk@ =~= padded(plain, n));
                assert(chunk@ == all[k as int]);
                assert(all.take((k + 1) as int).drop_last() =~= all.take(k as int));
                assert(all.take((k + 1) as int).last() == chunk@);
                if at + take == length {
                    if (k + 1) * n == length {
                        cut_step(data@, n, k + 1);
                    } else {
                        last_chunk(data@, n, k);
                    }
                }
                pooling_keeps(p, all.take((k + 1) as int));
            }
            let id: u32 = self.intern(chunk);
            target_ids.push(id);
            proof {
                k = k + 1;
            }
            at = at + take;
        }
        proof {
            assert(all.take(k as int) =~= all);
            pooling_keeps(p, all);
        }
        self.presented = self.presented.saturating_add(length as u64);
        proof {
            assert(self.view() =~= p.with_file(data@).0);
        }
        DedupedFile { target_ids, size: length as u64 }
    }
}

/// Whether no chunk of a pool shares its digest with a different chunk of a list.
pub open spec fn digests_tell_apart(unique: Seq<Seq<u8>>, chunks: Seq<Seq<u8>>) -> bool {
    forall|i: int, k: int|
        0 <= i < unique.len() && 0 <= k < chunks.len() && sha512_digest(#[trigger] unique[i])
            == sha512_digest(#[trigger] chunks[k]) ==> unique[i] == chunks[k]
}

/// A deduplicated file is the file: each of its bytes is in the chunk that the
/// pool holds under the number for its place, as long as digests tell the chunks
/// apart.
pub proof fn deduplicated_bytes_are_found(p: PoolView, data: Seq<u8>, x: int)
    requires
        p.chunk_size > 0,
        0 <= x < data.len(),
        p.with_file(data).0.unique.len() <= u32::MAX,
        digests_tell_apart(p.with_file(data).0.unique, file_chunks(data, p.chunk_size)),
    ensures
        ({
            let (after, ids) = p.with_file(data);
            let k = x / p.chunk_size as int;
            &&& k < ids.len()
            &&& ids[k] < after.unique.len()
            &&& after.unique[ids[k] as int][x % p.chunk_size as int] == data[x]
        }),
{
    let n = p.chunk_size;
    let chunks = file_chunks(data, n);
    let k = x / n as int;
    let rest = x % n as int;
    assert(0 <= k && k * n <= x && x < (k + 1) * n && rest == x - k * n) by (nonlinear_arith)
        requires
            x >= 0,
            n > 0,
            k == x / n as int,
            rest == x % n as int,
    ;
    cut_step(data, n, k as nat);
    chunk_at(data, n, k as nat);
    pooled_chunks_are_found(p, chunks, k);
    let id = p.with_all(chunks).1[k] as int;
    assert(p.with_all(chunks).0.unique[id] == chunks[k]);
    assert(cut(data, n)[k][rest] == data[x]);
}

/// The names of some chunks.
pub open spec fn block_names(unique: Seq<Seq<u8>>) -> Seq<Seq<char>> {
    Seq::new(unique.len(), |i: int| BLOCK_HASH_PREFIX@ + text::hex(sha512_digest(unique[i])))
}

/// The statements of where the chunks of a pool are: chunk `i` is at `i` times the
/// chunk size.
pub open spec fn place_triples(p: PoolView, stream: Seq<char>) -> Seq<TripleView> {
    Seq::new(
        p.unique.len(),
        |i: int|
            statement(
                block_names(p.unique)[i],
                standard_iri("dataStream"@),
                TermView::Iri(slice_name(stream, (i * p.chunk_size) as nat, p.chunk_size)),
            ),
    )
}

/// What a writer holds once a pool is written, or why it cannot be.
pub open spec fn pool_written(w: WriterView, p: PoolView, o: StreamOptions, locus: LocusView) -> Result<
    WriterView,
    ErrorView,
> {
    let stream = w.volume + "/blocks"@;
    match stream_begun(w, stream, o, locus) {
        Err(e) => Err(e),
        Ok(begun) => if p.unique.len() * p.chunk_size > u64::MAX {
            Err(malformed(locus, endless_stream_text(stream)))
        } else {
            Ok(
                stream_written(
                    w,
                    begun,
                    bytes::flattened(p.unique),
                    Seq::<HashAlgorithm>::empty(),
                ).state_all(place_triples(p, stream)),
            )
        },
    }
}

/// Chunks of one size, one after the other, are as long as their number says.
proof fn even_length(parts: Seq<Seq<u8>>, n: nat)
    requires
        forall|i: int| 0 <= i < parts.len() ==> (#[trigger] parts[i]).len() == n,
    ensures
        bytes::flattened(parts).len() == parts.len() * n,
    decreases parts.len(),
{
    if parts.len() > 0 {
        even_length(parts.drop_last(), n);
        assert((parts.len() - 1) * n + n == parts.len() * n) by (nonlinear_arith);
    } else {
        assert(0 * n == 0) by (nonlinear_arith);
    }
}

/// In chunks of one size, one after the other, the bytes at `i` times the size are
/// those of chunk `i`: the place stated for a chunk is where it is.
pub proof fn stated_places_hold(parts: Seq<Seq<u8>>, n: nat, i: int)
    requires
        forall|k: int| 0 <= k < parts.len() ==> (#[trigger] parts[k]).len() == n,
        0 <= i < parts.len(),
    ensures
        0 <= i * n <= i * n + n <= bytes::flattened(parts).len(),
        bytes::flattened(parts).subrange(i * n, i * n + n) == parts[i],
    decreases parts.len(),
{
    let front = parts.drop_last();
    even_length(front, n);
    even_length(parts, n);
    assert(i * n >= 0) by (nonlinear_arith)
        requires
            i >= 0,
    ;
    if i == parts.len() - 1 {
        assert(bytes::flattened(parts).subrange(i * n, i * n + n) =~= parts[i]);
    } else {
        stated_places_hold(front, n, i);
        assert(bytes::flattened(parts).subrange(i * n, i * n + n) =~= bytes::flattened(
            front,
        ).subrange(i * n, i * n + n));
    }
}

impl ChunkPool {
    /// Write the stream of all chunks and state where each of them is, once every
    /// file has been absorbed. The result is the list that files' chunk numbers
    /// index into.
    pub fn finish(self, writer: &mut ContainerWriter, options: StreamOptions, locus: &Locus) -> (r:
        Result<Vec<String>, Error>)
        requires
            self.wf(),
        ensures
            (match pool_written(old(writer).view(), self.view(), options, locus@) {
                Ok(w) => {
                    &&& r is Ok
                    &&& final(writer).view() == w
                    &&& text::texts(r->Ok_0@) == block_names(self.view().unique)
                    &&& decodes_back(options, bytes::flattened(self.view().unique))
                },
                Err(e) => r is Err && r->Err_0@ == e && final(writer).view() == old(writer).view(),
            }),
    {
        let ghost p = self.view();
        let stream_arn = text::cat2(writer.volume_arn().as_str(), "/blocks");
        let count: u128 = self.unique.len() as u128;
        let width: u128 = self.chunk_size as u128;
        proof {
            assert(count * width <= usize::MAX * usize::MAX) by (nonlinear_arith)
                requires
                    0 <= count <= usize::MAX,
                    0 <= width <= usize::MAX,
            ;
            assert(usize::MAX * usize::MAX <= u128::MAX) by (nonlinear_arith)
                requires
                    0 <= usize::MAX <= u64::MAX,
            ;
        }
        let total: u128 = count * width;
        proof {
            assert forall|k: int| 0 <= k < p.unique.len() implies (#[trigger] p.unique[k]).len()
                == p.chunk_size by {
                assert(self.unique@[k]@ == p.unique[k]);
            }
            even_length(p.unique, p.chunk_size);
            assert(bytes::views(self.unique@) =~= p.unique);
        }
        if total > u64::MAX as u128 {
            // Nothing is written where the stream could not be begun either.
            return match StreamBuilder::new(writer, stream_arn.as_str(), options, locus) {
                Err(e) => Err(e),
                Ok(_) => Err(
                    Error::malformed(
                        locus.clone(),
                        text::cat3(
                            "stream ",
                            stream_arn.as_str(),
                            " is longer than a size can say",
                        ),
                    ),
                ),
            };
        }
        match write_pieces_as(writer, stream_arn.as_str(), &self.unique, options, locus) {
            Ok(()) => {},
            Err(e) => return Err(e),
        }
        let ghost w1 = writer.view();
        let ghost triples = place_triples(p, stream_arn@);
        let mut arns: Vec<String> = Vec::new();
        let mut k: usize = 0;
        proof {
            assert(writer.view() =~= w1.state_all(triples.take(0)));
            assert(text::texts(arns@) =~= block_names(p.unique).take(0));
        }
        while k < self.digests.len()
            invariant
                k <= self.digests.len(),
                self.wf(),
                p == self.view(),
                total == p.unique.len() * p.chunk_size,
                total <= u64::MAX,
                triples == place_triples(p, stream_arn@),
                writer.view() == w1.state_all(triples.take(k as int)),
                text::texts(arns@) == block_names(p.unique).take(k as int),
            decreases self.digests.len() - k,
        {
            let arn = block_hash_arn(self.digests[k].as_slice());
            proof {
                assert(k * p.chunk_size <= p.unique.len() * p.chunk_size) by (nonlinear_arith)
                    requires
                        k <= p.unique.len(),
                ;
                assert(p.unique[k as int] == self.unique@[k as int]@);
            }
            let offset: u64 = k as u64 * self.chunk_size as u64;
            writer.add(
                arn.as_str(),
                iri("dataStream").as_str(),
                Term::iri(
                    slice_arn(stream_arn.as_str(), offset, self.chunk_size as u64).as_str(),
                ),
            );
            let ghost before = arns@;
            arns.push(arn);
            proof {
                assert(triples.take(k + 1) =~= triples.take(k as int).push(triples[k as int]));
                assert(writer.view() =~= w1.state_all(triples.take(k + 1)));
                assert(text::texts(arns@) =~= text::texts(before).push(arn@));
                assert(block_names(p.unique).take(k + 1) =~= block_names(p.unique).take(
                    k as int,
                ).push(arn@));
            }
            k = k + 1;
        }
        proof {
            assert(triples.take(k as int) =~= triples);
            assert(block_names(p.unique).take(k as int) =~= block_names(p.unique));
        }
        Ok(arns)
    }
}

} // verus!
