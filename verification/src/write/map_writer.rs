//! Writing maps and the images that name them.
//!
//! A stream alone is a bytestream. What makes a container an image is an object
//! naming a data stream: a map, which assembles the address space from streams. A
//! map is three segments: its entries, 28 bytes each; its targets, one name per
//! line; and its path.

use vstd::prelude::*;
use vstd::utf8::encode_utf8;

use crate::arn::{member_of, names_resource, not_a_name_text, Arn};
use crate::bytes;
use crate::error::{malformed, Error, ErrorView, Locus, LocusView};
use crate::hash::{sha512_digest, sha512_raw};
use crate::lexicon::{aff4l_iri, iri, namespace_for, standard_iri, standard_namespace};
use crate::model::HashAlgorithm;
use crate::rdf::{statement, typed_as, Term, TermView, TripleView};
use crate::text;
use crate::verify::blocks::{hex_decoded, hex_to_bytes};
use crate::verify::maps::{IDX_SEGMENT, MAP_PATH_SEGMENT, MAP_SEGMENT};
use crate::write::container_writer::{uuid_of, entropy_failure, new_uuid, ContainerWriter, WriterView};
use crate::write::stream_writer::{
    add_size, add_stored, block_views, size_triple, stored_triple, BlockHashDigest,
};

verus! {

broadcast use vstd::std_specs::hash::group_hash_axioms;

/// One contiguous run of an image's address space.
#[derive(Debug, Clone, Copy, PartialEq, Eq, Structural)]
pub struct MapEntry {
    /// Where it begins in the address space.
    pub mapped_offset: u64,
    /// How many bytes it covers.
    pub length: u64,
    /// Where it begins in the target.
    pub target_offset: u64,
    /// The target's number.
    pub target_id: u32,
}

/// An entry as its 28 bytes.
pub open spec fn entry_bytes(e: MapEntry) -> Seq<u8> {
    bytes::le_bytes(e.mapped_offset as nat, 8) + bytes::le_bytes(e.length as nat, 8)
        + bytes::le_bytes(e.target_offset as nat, 8) + bytes::le_bytes(e.target_id as nat, 4)
}

/// Entries as their bytes, one after the other.
pub open spec fn entries_bytes(entries: Seq<MapEntry>) -> Seq<u8>
    decreases entries.len(),
{
    if entries.len() == 0 {
        Seq::empty()
    } else {
        entries_bytes(entries.drop_last()) + entry_bytes(entries.last())
    }
}

/// Targets as lines.
pub open spec fn target_lines(targets: Seq<Seq<char>>) -> Seq<u8>
    decreases targets.len(),
{
    if targets.len() == 0 {
        Seq::empty()
    } else {
        (target_lines(targets.drop_last()) + encode_utf8(targets.last())).push(10)
    }
}

/// An entry read out of its 28 bytes.
pub open spec fn entry_read(data: Seq<u8>) -> MapEntry {
    MapEntry {
        mapped_offset: bytes::le_value(data.subrange(0, 8)) as u64,
        length: bytes::le_value(data.subrange(8, 16)) as u64,
        target_offset: bytes::le_value(data.subrange(16, 24)) as u64,
        target_id: bytes::le_value(data.subrange(24, 28)) as u32,
    }
}

/// An entry comes back from its bytes.
proof fn entry_comes_back(e: MapEntry)
    ensures
        entry_bytes(e).len() == 28,
        entry_read(entry_bytes(e)) == e,
{
    let data = entry_bytes(e);
    bytes::le_widths();
    bytes::le_bytes_len(e.mapped_offset as nat, 8);
    bytes::le_bytes_len(e.length as nat, 8);
    bytes::le_bytes_len(e.target_offset as nat, 8);
    bytes::le_bytes_len(e.target_id as nat, 4);
    bytes::le_round_trip(e.mapped_offset as nat, 8);
    bytes::le_round_trip(e.length as nat, 8);
    bytes::le_round_trip(e.target_offset as nat, 8);
    bytes::le_round_trip(e.target_id as nat, 4);
    assert(data.subrange(0, 8) =~= bytes::le_bytes(e.mapped_offset as nat, 8));
    assert(data.subrange(8, 16) =~= bytes::le_bytes(e.length as nat, 8));
    assert(data.subrange(16, 24) =~= bytes::le_bytes(e.target_offset as nat, 8));
    assert(data.subrange(24, 28) =~= bytes::le_bytes(e.target_id as nat, 4));
}

/// A map's entries come back: each stands at its number times 28, and nothing else is
/// in the map.
pub proof fn entries_come_back(entries: Seq<MapEntry>, i: int)
    requires
        0 <= i < entries.len(),
    ensures
        entries_bytes(entries).len() == 28 * entries.len(),
        entry_read(entries_bytes(entries).subrange(28 * i, 28 * i + 28)) == entries[i],
    decreases entries.len(),
{
    let front = entries.drop_last();
    let before = entries_bytes(front);
    let last = entry_bytes(entries.last());
    entry_comes_back(entries.last());
    if front.len() > 0 {
        entries_come_back(front, 0);
    }
    if i < front.len() {
        entries_come_back(front, i);
        assert((before + last).subrange(28 * i, 28 * i + 28) =~= before.subrange(
            28 * i,
            28 * i + 28,
        ));
    } else {
        assert((before + last).subrange(28 * i, 28 * i + 28) =~= last);
    }
}

/// Append an entry's bytes.
fn append_entry(out: &mut Vec<u8>, e: MapEntry)
    ensures
        final(out)@ == old(out)@ + entry_bytes(e),
{
    bytes::append_u64(out, e.mapped_offset);
    bytes::append_u64(out, e.length);
    bytes::append_u64(out, e.target_offset);
    bytes::append_u32(out, e.target_id);
    proof {
        assert(out@ =~= old(out)@ + entry_bytes(e));
    }
}

/// Entries as their bytes.
pub fn encode_entries(entries: &Vec<MapEntry>) -> (r: Vec<u8>)
    ensures
        r@ == entries_bytes(entries@),
{
    let mut out: Vec<u8> = Vec::new();
    let mut i: usize = 0;
    while i < entries.len()
        invariant
            i <= entries.len(),
            out@ == entries_bytes(entries@.take(i as int)),
        decreases entries.len() - i,
    {
        append_entry(&mut out, entries[i]);
        proof {
            assert(entries@.take(i + 1).drop_last() =~= entries@.take(i as int));
            assert(entries@.take(i + 1).last() == entries@[i as int]);
        }
        i = i + 1;
    }
    proof {
        assert(entries@.take(i as int) =~= entries@);
    }
    out
}

/// Targets as lines.
pub fn encode_targets(targets: &Vec<String>) -> (r: Vec<u8>)
    ensures
        r@ == target_lines(text::texts(targets@)),
{
    let ghost all = text::texts(targets@);
    let mut out: Vec<u8> = Vec::new();
    let mut i: usize = 0;
    while i < targets.len()
        invariant
            i <= targets.len(),
            all == text::texts(targets@),
            out@ == target_lines(all.take(i as int)),
        decreases targets.len() - i,
    {
        bytes::append(&mut out, targets[i].as_str().as_bytes());
        out.push(10);
        proof {
            assert(all.take(i + 1).drop_last() =~= all.take(i as int));
            assert(all.take(i + 1).last() == targets@[i as int]@);
        }
        i = i + 1;
    }
    proof {
        assert(all.take(i as int) =~= all);
    }
    out
}

/// One target as a line.
fn encode_target(target: &str) -> (r: Vec<u8>)
    ensures
        r@ == target_lines(seq![target@]),
{
    let mut out: Vec<u8> = text::utf8(target);
    out.push(10);
    proof {
        let one = seq![target@];
        assert(one.drop_last() =~= Seq::<Seq<char>>::empty());
        assert(target_lines(one.drop_last()) =~= Seq::<u8>::empty());
        assert(out@ =~= target_lines(one));
    }
    out
}

/// The digests of a map's segments, raw.
#[derive(Debug)]
pub struct MapDigests {
    /// Of the entries.
    pub point: Vec<u8>,
    /// Of the targets.
    pub idx: Vec<u8>,
    /// Of the path.
    pub path: Vec<u8>,
}

/// What [`MapDigests`] hold, as plain values.
#[verifier::ext_equal]
pub struct MapDigestsView {
    /// Of the entries.
    pub point: Seq<u8>,
    /// Of the targets.
    pub idx: Seq<u8>,
    /// Of the path.
    pub path: Seq<u8>,
}

impl View for MapDigests {
    type V = MapDigestsView;

    open spec fn view(&self) -> MapDigestsView {
        MapDigestsView { point: self.point@, idx: self.idx@, path: self.path@ }
    }
}

/// The digests of a map's segments.
pub open spec fn segment_digests(map: Seq<u8>, idx: Seq<u8>, path: Seq<u8>) -> MapDigestsView {
    MapDigestsView {
        point: sha512_digest(map),
        idx: sha512_digest(idx),
        path: sha512_digest(path),
    }
}

/// The statement of a SHA-512 digest, raw, under a property.
pub open spec fn sha512_triple(arn: Seq<char>, property: Seq<char>, digest: Seq<u8>) -> TripleView {
    statement(
        arn,
        standard_iri(property),
        TermView::Literal(text::hex(digest), standard_iri("SHA512"@)),
    )
}

/// The digests recorded over a map, each with its property: one per segment, and
/// one over the three one after the other.
pub open spec fn recorded_digests(map: Seq<u8>, idx: Seq<u8>, path: Seq<u8>) -> Seq<
    (Seq<char>, Seq<char>),
> {
    seq![
        ("mapPointHash"@, text::hex(sha512_digest(map))),
        ("mapIdxHash"@, text::hex(sha512_digest(idx))),
        ("mapPathHash"@, text::hex(sha512_digest(path))),
        ("mapHash"@, text::hex(sha512_digest(map + idx + path))),
    ]
}

/// What a writer holds once a map's segments and their digests are written.
pub open spec fn segments_written(
    w: WriterView,
    base: Seq<char>,
    arn: Seq<char>,
    map: Seq<u8>,
    idx: Seq<u8>,
    path: Seq<u8>,
) -> WriterView {
    w.stored(base + "/"@ + MAP_SEGMENT@, map).stored(base + "/"@ + IDX_SEGMENT@, idx).stored(
        base + "/"@ + MAP_PATH_SEGMENT@,
        path,
    ).state(sha512_triple(arn, "mapPointHash"@, sha512_digest(map))).state(
        sha512_triple(arn, "mapIdxHash"@, sha512_digest(idx)),
    ).state(sha512_triple(arn, "mapPathHash"@, sha512_digest(path))).state(
        sha512_triple(arn, "mapHash"@, sha512_digest(map + idx + path)),
    )
}

/// Pairs of a property and a digest, as plain values.
pub open spec fn pair_views(list: Seq<(&'static str, String)>) -> Seq<(Seq<char>, Seq<char>)> {
    Seq::new(list.len(), |i: int| (list[i].0@, list[i].1@))
}

/// State a SHA-512 digest under a property.
fn add_sha512(writer: &mut ContainerWriter, arn: &str, property: &str, digest: &[u8]) -> (hex: String)
    ensures
        final(writer).view() == old(writer).view().state(sha512_triple(arn@, property@, digest@)),
        hex@ == text::hex(digest@),
{
    let hex = text::hex_lower(digest);
    writer.add(arn, iri(property).as_str(), Term::typed(hex.as_str(), iri("SHA512").as_str()));
    hex
}

/// Write a map's three segments and record the four digests over them.
///
/// One function does both, so that no map can be written without its digests. An
/// empty path is written and digested too: that is what gives `mapPathHash` a
/// value.
pub fn write_map_segments(
    writer: &mut ContainerWriter,
    base: &str,
    map_arn: &str,
    map_bytes: &[u8],
    idx_bytes: &[u8],
    map_path: &[u8],
) -> (r: (MapDigests, Vec<(&'static str, String)>))
    ensures
        final(writer).view() == segments_written(
            old(writer).view(),
            base@,
            map_arn@,
            map_bytes@,
            idx_bytes@,
            map_path@,
        ),
        r.0@ == segment_digests(map_bytes@, idx_bytes@, map_path@),
        pair_views(r.1@) == recorded_digests(map_bytes@, idx_bytes@, map_path@),
{
    writer.add_stored_segment(text::cat3(base, "/", MAP_SEGMENT).as_str(), map_bytes);
    writer.add_stored_segment(text::cat3(base, "/", IDX_SEGMENT).as_str(), idx_bytes);
    writer.add_stored_segment(text::cat3(base, "/", MAP_PATH_SEGMENT).as_str(), map_path);
    let mut whole: Vec<u8> = bytes::copied(map_bytes);
    bytes::append(&mut whole, idx_bytes);
    bytes::append(&mut whole, map_path);
    let digests = MapDigests {
        point: sha512_raw(map_bytes),
        idx: sha512_raw(idx_bytes),
        path: sha512_raw(map_path),
    };
    let whole_digest = sha512_raw(whole.as_slice());
    let mut recorded: Vec<(&'static str, String)> = Vec::new();
    let point_hex = add_sha512(writer, map_arn, "mapPointHash", digests.point.as_slice());
    recorded.push(("mapPointHash", point_hex));
    let idx_hex = add_sha512(writer, map_arn, "mapIdxHash", digests.idx.as_slice());
    recorded.push(("mapIdxHash", idx_hex));
    let path_hex = add_sha512(writer, map_arn, "mapPathHash", digests.path.as_slice());
    recorded.push(("mapPathHash", path_hex));
    let map_hex = add_sha512(writer, map_arn, "mapHash", whole_digest.as_slice());
    recorded.push(("mapHash", map_hex));
    proof {
        assert(pair_views(recorded@) =~= recorded_digests(map_bytes@, idx_bytes@, map_path@));
        assert(digests@ =~= segment_digests(map_bytes@, idx_bytes@, map_path@));
    }
    (digests, recorded)
}

/// A digest put in its place among digests ordered by length, behind those of its
/// own length.
pub open spec fn placed_by_length(sorted: Seq<Seq<u8>>, d: Seq<u8>) -> Seq<Seq<u8>>
    decreases sorted.len(),
{
    if sorted.len() == 0 || sorted.last().len() <= d.len() {
        sorted.push(d)
    } else {
        placed_by_length(sorted.drop_last(), d).push(sorted.last())
    }
}

/// Digests ordered by length, those of one length as they come.
pub open spec fn by_length(list: Seq<Seq<u8>>) -> Seq<Seq<u8>>
    decreases list.len(),
{
    if list.len() == 0 {
        Seq::empty()
    } else {
        placed_by_length(by_length(list.drop_last()), list.last())
    }
}

/// Whether digests are ordered by length.
pub open spec fn ordered_by_length(list: Seq<Seq<u8>>) -> bool {
    forall|i: int, j: int|
        0 <= i <= j < list.len() ==> (#[trigger] list[i]).len() <= (#[trigger] list[j]).len()
}

/// Putting a digest in its place keeps the order and adds that digest only.
proof fn placing_keeps_order(sorted: Seq<Seq<u8>>, d: Seq<u8>)
    requires
        ordered_by_length(sorted),
    ensures
        ordered_by_length(placed_by_length(sorted, d)),
        placed_by_length(sorted, d).len() == sorted.len() + 1,
        placed_by_length(sorted, d).to_multiset() == sorted.to_multiset().insert(d),
        forall|i: int|
            0 <= i < placed_by_length(sorted, d).len() ==> (#[trigger] placed_by_length(
                sorted,
                d,
            )[i]) == d || sorted.contains(placed_by_length(sorted, d)[i]),
    decreases sorted.len(),
{
    broadcast use vstd::seq_lib::group_to_multiset_ensures;

    if sorted.len() == 0 || sorted.last().len() <= d.len() {
        let r = sorted.push(d);
        assert forall|i: int, j: int| 0 <= i <= j < r.len() implies (#[trigger] r[i]).len() <= (
        #[trigger] r[j]).len() by {
            if j == sorted.len() && i < j {
                assert(sorted[i].len() <= sorted[sorted.len() - 1].len());
            }
        }
    } else {
        let front = sorted.drop_last();
        placing_keeps_order(front, d);
        let inner = placed_by_length(front, d);
        let r = inner.push(sorted.last());
        assert(sorted =~= front.push(sorted.last()));
        assert forall|i: int, j: int| 0 <= i <= j < r.len() implies (#[trigger] r[i]).len() <= (
        #[trigger] r[j]).len() by {
            if j == inner.len() && i < j {
                assert(inner[i] == d || front.contains(inner[i]));
                if front.contains(inner[i]) {
                    let k = choose|k: int| 0 <= k < front.len() && front[k] == inner[i];
                    assert(sorted[k].len() <= sorted[sorted.len() - 1].len());
                }
            }
        }
        assert forall|i: int| 0 <= i < r.len() implies (#[trigger] r[i]) == d || sorted.contains(
            r[i],
        ) by {
            if i < inner.len() {
                assert(inner[i] == d || front.contains(inner[i]));
                if front.contains(inner[i]) {
                    let k = choose|k: int| 0 <= k < front.len() && front[k] == inner[i];
                    assert(sorted[k] == r[i]);
                }
            } else {
                assert(sorted[sorted.len() - 1] == r[i]);
            }
        }
        assert(r.to_multiset() =~= sorted.to_multiset().insert(d));
    }
}

/// Ordering digests by length orders them, and neither adds nor drops one.
pub proof fn ordering_by_length_orders(list: Seq<Seq<u8>>)
    ensures
        ordered_by_length(by_length(list)),
        by_length(list).len() == list.len(),
        by_length(list).to_multiset() == list.to_multiset(),
    decreases list.len(),
{
    broadcast use vstd::seq_lib::group_to_multiset_ensures;

    if list.len() > 0 {
        ordering_by_length_orders(list.drop_last());
        placing_keeps_order(by_length(list.drop_last()), list.last());
        assert(list =~= list.drop_last().push(list.last()));
    } else {
        assert(by_length(list) =~= list);
    }
}

/// Whether no two digests are of one length, and none stands twice.
pub open spec fn lengths_differ(list: Seq<Seq<u8>>) -> bool {
    forall|i: int, j: int|
        0 <= i < list.len() && 0 <= j < list.len() && (#[trigger] list[i]).len() == (
        #[trigger] list[j]).len() ==> i == j
}

/// What is among some digests is somewhere in every list of them.
proof fn stands_somewhere(a: Seq<Seq<u8>>, b: Seq<Seq<u8>>, i: int) -> (j: int)
    requires
        a.to_multiset() == b.to_multiset(),
        0 <= i < a.len(),
    ensures
        0 <= j < b.len(),
        b[j] == a[i],
{
    broadcast use vstd::seq_lib::group_to_multiset_ensures;

    assert(a.contains(a[i]));
    assert(a.to_multiset().count(a[i]) > 0);
    assert(b.contains(a[i]));
    choose|j: int| 0 <= j < b.len() && b[j] == a[i]
}

/// Digests of different lengths are ordered by length in one way only.
proof fn one_order(a: Seq<Seq<u8>>, b: Seq<Seq<u8>>)
    requires
        a.to_multiset() == b.to_multiset(),
        ordered_by_length(a),
        ordered_by_length(b),
        lengths_differ(a),
    ensures
        a == b,
    decreases a.len(),
{
    broadcast use vstd::seq_lib::group_to_multiset_ensures;

    assert(a.len() == a.to_multiset().len());
    assert(b.len() == b.to_multiset().len());
    if a.len() > 0 {
        let n = a.len() - 1;
        let j = stands_somewhere(a, b, n);
        let i = stands_somewhere(b, a, n);
        assert(b[j].len() <= b[n].len());
        assert(a[i].len() <= a[n].len());
        assert(i == n);
        let x = a.drop_last();
        let y = b.drop_last();
        assert(a =~= x.push(a[n]));
        assert(b =~= y.push(a[n]));
        assert(x.to_multiset() =~= a.to_multiset().remove(a[n]));
        assert(y.to_multiset() =~= b.to_multiset().remove(a[n]));
        assert(lengths_differ(x)) by {
            assert forall|i: int, j: int|
                0 <= i < x.len() && 0 <= j < x.len() && (#[trigger] x[i]).len() == (
                #[trigger] x[j]).len() implies i == j by {
                assert(a[i] == x[i] && a[j] == x[j]);
            }
        }
        one_order(x, y);
    } else {
        assert(a =~= b);
    }
}

/// Putting digests of different lengths in order leaves their lengths different.
proof fn ordering_keeps_lengths_apart(list: Seq<Seq<u8>>)
    requires
        lengths_differ(list),
    ensures
        lengths_differ(by_length(list)),
{
    broadcast use vstd::seq_lib::group_to_multiset_ensures;

    ordering_by_length_orders(list);
    let sorted = by_length(list);
    assert forall|i: int, j: int|
        0 <= i < sorted.len() && 0 <= j < sorted.len() && (#[trigger] sorted[i]).len() == (
        #[trigger] sorted[j]).len() implies i == j by {
        let a = stands_somewhere(sorted, list, i);
        let b = stands_somewhere(sorted, list, j);
        assert(a == b);
        if i != j {
            // Standing twice in one list, it would stand twice in the other.
            let d = sorted[i];
            let (low, high) = if i < j {
                (i, j)
            } else {
                (j, i)
            };
            assert(sorted.take(high).contains(d)) by {
                assert(sorted.take(high)[low] == d);
            }
            counted_twice(sorted, d, low, high);
            counted_once(list, d, a);
        }
    }
}

/// What stands at two places is counted twice at least.
proof fn counted_twice(list: Seq<Seq<u8>>, d: Seq<u8>, low: int, high: int)
    requires
        0 <= low < high < list.len(),
        list[low] == d,
        list[high] == d,
    ensures
        list.to_multiset().count(d) >= 2,
    decreases list.len(),
{
    broadcast use vstd::seq_lib::group_to_multiset_ensures;

    let front = list.drop_last();
    assert(list =~= front.push(list.last()));
    if high == list.len() - 1 {
        assert(front.contains(d)) by {
            assert(front[low] == d);
        }
        assert(front.to_multiset().count(d) > 0);
    } else {
        counted_twice(front, d, low, high);
    }
}

/// What stands at one place only is counted once at most.
proof fn counted_once(list: Seq<Seq<u8>>, d: Seq<u8>, at: int)
    requires
        forall|i: int| 0 <= i < list.len() && #[trigger] list[i] == d ==> i == at,
    ensures
        list.to_multiset().count(d) <= 1,
    decreases list.len(),
{
    broadcast use vstd::seq_lib::group_to_multiset_ensures;

    if list.len() > 0 {
        let front = list.drop_last();
        assert(list =~= front.push(list.last()));
        assert forall|i: int| 0 <= i < front.len() && #[trigger] front[i] == d implies i == at by {
            assert(list[i] == d);
        }
        counted_once(front, d, at);
        if list.last() == d {
            assert(list[list.len() - 1] == d);
            assert(!front.contains(d)) by {
                if front.contains(d) {
                    let k = choose|k: int| 0 <= k < front.len() && front[k] == d;
                    assert(list[k] == d);
                }
            }
            assert(front.to_multiset().count(d) == 0);
        }
    }
}

/// The order in which digests of chunk digests are handed over does not matter to the
/// block map digest, where no two of them are of one length.
pub proof fn block_order_does_not_matter(
    a: Seq<Seq<u8>>,
    b: Seq<Seq<u8>>,
    map: MapDigestsView,
)
    requires
        a.to_multiset() == b.to_multiset(),
        lengths_differ(a),
    ensures
        composed_digest(a, map) == composed_digest(b, map),
{
    ordering_by_length_orders(a);
    ordering_by_length_orders(b);
    ordering_keeps_lengths_apart(a);
    one_order(by_length(a), by_length(b));
}

/// The block map digest: a SHA-512 over the digests of the chunk digests, shortest
/// first, then those of the three map segments.
pub open spec fn composed_digest(blocks: Seq<Seq<u8>>, map: MapDigestsView) -> Seq<u8> {
    sha512_digest(bytes::flattened(by_length(blocks)) + map.point + map.idx + map.path)
}

/// Digests ordered by length.
fn order_by_length(list: &Vec<Vec<u8>>) -> (r: Vec<Vec<u8>>)
    ensures
        bytes::views(r@) == by_length(bytes::views(list@)),
{
    let ghost all = bytes::views(list@);
    let mut out: Vec<Vec<u8>> = Vec::new();
    let mut i: usize = 0;
    proof {
        assert(bytes::views(out@) =~= Seq::<Seq<u8>>::empty());
    }
    while i < list.len()
        invariant
            i <= list.len(),
            all == bytes::views(list@),
            bytes::views(out@) == by_length(all.take(i as int)),
        decreases list.len() - i,
    {
        let d = bytes::copied(list[i].as_slice());
        let ghost sorted = bytes::views(out@);
        let mut at: usize = out.len();
        proof {
            assert(sorted.take(at as int) =~= sorted);
            assert(placed_by_length(sorted, d@) + sorted.skip(at as int) =~= placed_by_length(
                sorted,
                d@,
            ));
        }
        while at > 0 && out[at - 1].len() > d.len()
            invariant
                at <= out.len(),
                sorted == bytes::views(out@),
                placed_by_length(sorted, d@) == placed_by_length(sorted.take(at as int), d@)
                    + sorted.skip(at as int),
            decreases at,
        {
            proof {
                let front = sorted.take(at as int);
                assert(front.last() == out@[at - 1]@);
                assert(front.drop_last() =~= sorted.take(at - 1));
                assert(placed_by_length(sorted.take(at - 1), d@).push(front.last()) + sorted.skip(
                    at as int,
                ) =~= placed_by_length(sorted.take(at - 1), d@) + sorted.skip(at - 1));
            }
            at = at - 1;
        }
        proof {
            let front = sorted.take(at as int);
            if at > 0 {
                assert(front.last() == out@[at - 1]@);
            }
            assert(placed_by_length(front, d@) == front.push(d@));
            assert(all.take(i + 1).drop_last() =~= all.take(i as int));
            assert(all.take(i + 1).last() == d@);
        }
        let ghost before = out@;
        out.insert(at, d);
        proof {
            assert(bytes::views(out@) =~= sorted.take(at as int).push(d@) + sorted.skip(
                at as int,
            ));
        }
        i = i + 1;
    }
    proof {
        assert(all.take(i as int) =~= all);
    }
    out
}

/// Compose the block map digest from the digests of the chunk digests, raw, and
/// those of the map's segments.
pub fn compose_block_map_digest(block_hashes_digests: &Vec<Vec<u8>>, map_digests: &MapDigests) -> (r:
    Vec<u8>)
    ensures
        r@ == composed_digest(bytes::views(block_hashes_digests@), map_digests@),
{
    let ordered = order_by_length(block_hashes_digests);
    let ghost all = bytes::views(ordered@);
    let mut input: Vec<u8> = Vec::new();
    let mut i: usize = 0;
    proof {
        assert(all.take(0) =~= Seq::<Seq<u8>>::empty());
    }
    while i < ordered.len()
        invariant
            i <= ordered.len(),
            all == bytes::views(ordered@),
            input@ == bytes::flattened(all.take(i as int)),
        decreases ordered.len() - i,
    {
        bytes::append(&mut input, ordered[i].as_slice());
        proof {
            assert(all.take(i + 1) =~= all.take(i as int).push(ordered@[i as int]@));
            bytes::flattened_push(all.take(i as int), ordered@[i as int]@);
        }
        i = i + 1;
    }
    proof {
        assert(all.take(i as int) =~= all);
    }
    bytes::append(&mut input, map_digests.point.as_slice());
    bytes::append(&mut input, map_digests.idx.as_slice());
    bytes::append(&mut input, map_digests.path.as_slice());
    sha512_raw(input.as_slice())
}

/// The digests that hexadecimal texts spell.
pub open spec fn spelled_digests(blocks: Seq<(HashAlgorithm, Seq<char>)>) -> Seq<Seq<u8>> {
    Seq::new(blocks.len(), |i: int| hex_decoded(encode_utf8(blocks[i].1)))
}

/// The block map digest of a stream's chunk digests and a map, in hexadecimal;
/// nothing where the stream records none to compose.
pub open spec fn block_map_hex(blocks: Seq<(HashAlgorithm, Seq<char>)>, map: MapDigestsView) -> Option<
    Seq<char>,
> {
    if blocks.len() == 0 {
        None
    } else {
        Some(text::hex(composed_digest(spelled_digests(blocks), map)))
    }
}

/// The statements of a block map digest: on the image with the construction as
/// datatype, and on the map as a property of its own.
pub open spec fn block_map_triples(map_arn: Seq<char>, image_arn: Seq<char>, hex: Option<Seq<char>>) -> Seq<
    TripleView,
> {
    match hex {
        None => Seq::empty(),
        Some(hex) => seq![
            statement(
                image_arn,
                standard_iri("hash"@),
                TermView::Literal(hex, standard_iri("blockMapHashSHA512"@)),
            ),
            statement(
                map_arn,
                standard_iri("blockMapHash"@),
                TermView::Literal(hex, standard_iri("SHA512"@)),
            ),
        ],
    }
}

/// Record the block map digest on the image and on the map.
///
/// Nothing is written where the stream records no chunk digests: a value over
/// nothing would look like a real one while attesting nothing.
pub fn write_block_map_digest(
    writer: &mut ContainerWriter,
    map_arn: &str,
    image_arn: &str,
    block_hashes: &Vec<BlockHashDigest>,
    map_digests: &MapDigests,
) -> (r: Option<String>)
    ensures
        (match r {
            Some(hex) => block_map_hex(block_views(block_hashes@), map_digests@) == Some(hex@),
            None => block_map_hex(block_views(block_hashes@), map_digests@) is None,
        }),
        final(writer).view() == old(writer).view().state_all(
            block_map_triples(
                map_arn@,
                image_arn@,
                block_map_hex(block_views(block_hashes@), map_digests@),
            ),
        ),
{
    let ghost blocks = block_views(block_hashes@);
    let ghost w0 = writer.view();
    if block_hashes.len() == 0 {
        proof {
            assert(writer.view() =~= w0.state_all(Seq::empty()));
        }
        return None;
    }
    let mut composed: Vec<Vec<u8>> = Vec::new();
    let mut i: usize = 0;
    while i < block_hashes.len()
        invariant
            i <= block_hashes.len(),
            blocks == block_views(block_hashes@),
            bytes::views(composed@) == spelled_digests(blocks).take(i as int),
        decreases block_hashes.len() - i,
    {
        let ghost before = composed@;
        let raw = hex_to_bytes(block_hashes[i].hex.as_str());
        composed.push(raw);
        proof {
            assert(blocks[i as int].1 == block_hashes@[i as int].hex@);
            assert(raw@ == spelled_digests(blocks)[i as int]);
            assert(bytes::views(composed@) =~= bytes::views(before).push(raw@));
            assert(spelled_digests(blocks).take(i + 1) =~= spelled_digests(blocks).take(
                i as int,
            ).push(raw@));
        }
        i = i + 1;
    }
    proof {
        assert(spelled_digests(blocks).take(i as int) =~= spelled_digests(blocks));
    }
    let digest = compose_block_map_digest(&composed, map_digests);
    let hex = text::hex_lower(digest.as_slice());
    writer.add(
        image_arn,
        iri("hash").as_str(),
        Term::typed(hex.as_str(), iri("blockMapHashSHA512").as_str()),
    );
    writer.add(
        map_arn,
        iri("blockMapHash").as_str(),
        Term::typed(hex.as_str(), iri("SHA512").as_str()),
    );
    proof {
        assert(writer.view() =~= w0.state_all(
            block_map_triples(map_arn@, image_arn@, Some(hex@)),
        ));
    }
    Some(hex)
}

/// The member that an object's segments begin with, or why there is none.
pub open spec fn base_in(w: WriterView, label: Seq<char>, arn: Seq<char>, locus: LocusView) -> Result<
    Seq<char>,
    ErrorView,
> {
    if !names_resource(arn) {
        Err(malformed(locus, not_a_name_text(arn)))
    } else {
        match member_of(arn, w.volume, w.mapping) {
            None => Err(
                malformed(
                    locus,
                    label + " "@ + arn + " names no member of volume "@ + w.volume,
                ),
            ),
            Some(base) => Ok(base),
        }
    }
}

/// The member that an object's segments begin with.
pub(crate) fn find_base(writer: &ContainerWriter, label: &str, arn: &str, locus: &Locus) -> (r: Result<
    String,
    Error,
>)
    ensures
        (match r {
            Ok(base) => base_in(writer.view(), label@, arn@, locus@) == Ok::<
                Seq<char>,
                ErrorView,
            >(base@),
            Err(e) => base_in(writer.view(), label@, arn@, locus@) == Err::<Seq<char>, ErrorView>(
                e@,
            ),
        }),
{
    let name = match Arn::parse(arn, locus) {
        Ok(name) => name,
        Err(e) => return Err(e),
    };
    match name.member_name(writer.volume_arn(), writer.name_mapping()) {
        Some(base) => Ok(base),
        None => Err(
            Error::malformed(
                locus.clone(),
                text::cat5(
                    label,
                    " ",
                    arn,
                    " names no member of volume ",
                    writer.volume_arn().as_str(),
                ),
            ),
        ),
    }
}

/// Whether a target is a stream that the standard describes, rather than one that
/// a container stores.
pub open spec fn is_symbolic(target: Seq<char>) -> bool {
    text::has_prefix(target, standard_namespace())
}

/// The statements that tie a map to its targets: each is named, and each that is
/// stored points back.
pub open spec fn target_triples(map_arn: Seq<char>, targets: Seq<Seq<char>>) -> Seq<TripleView>
    decreases targets.len(),
{
    if targets.len() == 0 {
        Seq::empty()
    } else {
        let before = target_triples(map_arn, targets.drop_last());
        let target = targets.last();
        let named = before.push(
            statement(map_arn, standard_iri("dependentStream"@), TermView::Iri(target)),
        );
        if is_symbolic(target) {
            named
        } else {
            named.push(statement(target, standard_iri("target"@), TermView::Iri(map_arn)))
        }
    }
}

/// State what ties a map to its targets.
fn add_targets(writer: &mut ContainerWriter, map_arn: &str, targets: &Vec<String>)
    ensures
        final(writer).view() == old(writer).view().state_all(
            target_triples(map_arn@, text::texts(targets@)),
        ),
{
    let ghost all = text::texts(targets@);
    let ghost w0 = writer.view();
    let mut i: usize = 0;
    proof {
        assert(all.take(0) =~= Seq::<Seq<char>>::empty());
        assert(writer.view() =~= w0.state_all(target_triples(map_arn@, all.take(0))));
    }
    while i < targets.len()
        invariant
            i <= targets.len(),
            all == text::texts(targets@),
            writer.view() == w0.state_all(target_triples(map_arn@, all.take(i as int))),
        decreases targets.len() - i,
    {
        let target = targets[i].as_str();
        proof {
            assert(all.take(i + 1).drop_last() =~= all.take(i as int));
            assert(all.take(i + 1).last() == target@);
        }
        writer.add(map_arn, iri("dependentStream").as_str(), Term::iri(target));
        if !text::starts_with(target, "http://aff4.org/Schema#") {
            writer.add(target, iri("target").as_str(), Term::iri(map_arn));
        }
        proof {
            assert(writer.view() =~= w0.state_all(target_triples(map_arn@, all.take(i + 1))));
        }
        i = i + 1;
    }
    proof {
        assert(all.take(i as int) =~= all);
    }
}

/// The statements about an image and its map, after those about the targets.
pub open spec fn image_triples(
    map_arn: Seq<char>,
    image_arn: Seq<char>,
    volume: Seq<char>,
    size: u64,
) -> Seq<TripleView> {
    seq![
        stored_triple(map_arn, volume),
        statement(map_arn, standard_iri("target"@), TermView::Iri(image_arn)),
        typed_as(image_arn, standard_iri("DiskImage"@)),
        typed_as(image_arn, standard_iri("ContiguousImage"@)),
        typed_as(image_arn, standard_iri("Image"@)),
        size_triple(image_arn, size as nat),
        statement(image_arn, standard_iri("dataStream"@), TermView::Iri(map_arn)),
        stored_triple(image_arn, volume),
    ]
}

/// What a writer holds once a map and its image are written.
pub open spec fn map_written(
    w: WriterView,
    base: Seq<char>,
    map_arn: Seq<char>,
    image_arn: Seq<char>,
    entries: Seq<MapEntry>,
    targets: Seq<Seq<char>>,
    size: u64,
    blocks: Seq<(HashAlgorithm, Seq<char>)>,
) -> WriterView {
    let map = entries_bytes(entries);
    let idx = target_lines(targets);
    let hex = block_map_hex(blocks, segment_digests(map, idx, Seq::empty()));
    segments_written(w, base, map_arn, map, idx, Seq::empty()).state(
        typed_as(map_arn, standard_iri("Map"@)),
    ).state(size_triple(map_arn, size as nat)).state_all(
        target_triples(map_arn, targets),
    ).state_all(image_triples(map_arn, image_arn, w.volume, size)).state_all(
        block_map_triples(map_arn, image_arn, hex),
    )
}

/// The digests that a written map reports.
pub open spec fn reported_digests(
    entries: Seq<MapEntry>,
    targets: Seq<Seq<char>>,
    blocks: Seq<(HashAlgorithm, Seq<char>)>,
) -> Seq<(Seq<char>, Seq<char>)> {
    let map = entries_bytes(entries);
    let idx = target_lines(targets);
    let recorded = recorded_digests(map, idx, Seq::empty());
    match block_map_hex(blocks, segment_digests(map, idx, Seq::empty())) {
        Some(hex) => recorded.push(("blockMapHash"@, hex)),
        None => recorded,
    }
}

/// What a written map turned out to be.
#[derive(Debug)]
pub struct WrittenMap {
    /// The map's name.
    pub arn: String,
    /// The image's name.
    pub image_arn: String,
    /// The address space covered.
    pub size: u64,
    /// Every digest recorded over the map, each with its property.
    pub digests: Vec<(&'static str, String)>,
}

/// State what an image and its map are.
fn add_image(writer: &mut ContainerWriter, map_arn: &str, image_arn: &str, size: u64)
    ensures
        final(writer).view() == old(writer).view().state_all(
            image_triples(map_arn@, image_arn@, old(writer).view().volume, size),
        ),
{
    let ghost w0 = writer.view();
    let volume = text::owned(writer.volume_arn().as_str());
    add_stored(writer, map_arn, volume.as_str());
    writer.add(map_arn, iri("target").as_str(), Term::iri(image_arn));
    // The full chain of types, not only the most specific one.
    writer.add_type(image_arn, iri("DiskImage").as_str());
    writer.add_type(image_arn, iri("ContiguousImage").as_str());
    writer.add_type(image_arn, iri("Image").as_str());
    add_size(writer, image_arn, size);
    writer.add(image_arn, iri("dataStream").as_str(), Term::iri(map_arn));
    add_stored(writer, image_arn, volume.as_str());
    proof {
        assert(writer.view() =~= w0.state_all(
            image_triples(map_arn@, image_arn@, w0.volume, size),
        ));
    }
}

/// Write a map and its image under chosen names.
///
/// The parts of a set share one image, so its name cannot come from the volume
/// that happens to hold the map; and most targets of a part lie in other volumes.
pub fn write_map_as(
    writer: &mut ContainerWriter,
    map_arn: &str,
    image_arn: &str,
    entries: &Vec<MapEntry>,
    targets: &Vec<String>,
    size: u64,
    block_hashes: &Vec<BlockHashDigest>,
    locus: &Locus,
) -> (r: Result<WrittenMap, Error>)
    ensures
        (match base_in(old(writer).view(), "map"@, map_arn@, locus@) {
            Err(e) => r is Err && r->Err_0@ == e && final(writer).view() == old(writer).view(),
            Ok(base) => {
                &&& r is Ok
                &&& r->Ok_0.arn@ == map_arn@
                &&& r->Ok_0.image_arn@ == image_arn@
                &&& r->Ok_0.size == size
                &&& pair_views(r->Ok_0.digests@) == reported_digests(
                    entries@,
                    text::texts(targets@),
                    block_views(block_hashes@),
                )
                &&& final(writer).view() == map_written(
                    old(writer).view(),
                    base,
                    map_arn@,
                    image_arn@,
                    entries@,
                    text::texts(targets@),
                    size,
                    block_views(block_hashes@),
                )
            },
        }),
{
    let base = match find_base(writer, "map", map_arn, locus) {
        Ok(base) => base,
        Err(e) => return Err(e),
    };
    let map_bytes = encode_entries(entries);
    let idx_bytes = encode_targets(targets);
    let empty: Vec<u8> = Vec::new();
    proof {
        assert(empty@ =~= Seq::<u8>::empty());
    }
    let (digests, mut recorded) = write_map_segments(
        writer,
        base.as_str(),
        map_arn,
        map_bytes.as_slice(),
        idx_bytes.as_slice(),
        empty.as_slice(),
    );
    writer.add_type(map_arn, iri("Map").as_str());
    add_size(writer, map_arn, size);
    add_targets(writer, map_arn, targets);
    add_image(writer, map_arn, image_arn, size);
    let ghost before = recorded@;
    match write_block_map_digest(writer, map_arn, image_arn, block_hashes, &digests) {
        Some(hex) => {
            recorded.push(("blockMapHash", hex));
            proof {
                assert(pair_views(recorded@) =~= pair_views(before).push(
                    ("blockMapHash"@, hex@),
                ));
            }
        },
        None => {},
    }
    Ok(
        WrittenMap {
            arn: text::owned(map_arn),
            image_arn: text::owned(image_arn),
            size,
            digests: recorded,
        },
    )
}

/// Write a map and its image under the volume's own names for them.
pub fn write_map(
    writer: &mut ContainerWriter,
    entries: &Vec<MapEntry>,
    targets: &Vec<String>,
    size: u64,
    block_hashes: &Vec<BlockHashDigest>,
    locus: &Locus,
) -> (r: Result<WrittenMap, Error>)
    ensures
        ({
            let map_arn = old(writer).view().volume + "/map"@;
            let image_arn = old(writer).view().volume + "/image"@;
            match base_in(old(writer).view(), "map"@, map_arn, locus@) {
                Err(e) => r is Err && r->Err_0@ == e && final(writer).view()
                    == old(writer).view(),
                Ok(base) => {
                    &&& r is Ok
                    &&& r->Ok_0.arn@ == map_arn
                    &&& r->Ok_0.image_arn@ == image_arn
                    &&& r->Ok_0.size == size
                    &&& pair_views(r->Ok_0.digests@) == reported_digests(
                        entries@,
                        text::texts(targets@),
                        block_views(block_hashes@),
                    )
                    &&& final(writer).view() == map_written(
                        old(writer).view(),
                        base,
                        map_arn,
                        image_arn,
                        entries@,
                        text::texts(targets@),
                        size,
                        block_views(block_hashes@),
                    )
                },
            }
        }),
{
    let map_arn = text::cat2(writer.volume_arn().as_str(), "/map");
    let image_arn = text::cat2(writer.volume_arn().as_str(), "/image");
    write_map_as(
        writer,
        map_arn.as_str(),
        image_arn.as_str(),
        entries,
        targets,
        size,
        block_hashes,
        locus,
    )
}

/// How many bytes of a file its chunk number `i` covers.
pub open spec fn chunk_cover(i: int, size: u64, chunk_size: u64) -> int {
    let rest = if i * chunk_size < size { size - i * chunk_size } else { 0 };
    if chunk_size < rest { chunk_size as int } else { rest }
}

/// The chunks of a list that cover something of a file, up to the first that
/// covers nothing.
pub open spec fn covering(chunks: Seq<u32>, size: u64, chunk_size: u64) -> Seq<u32>
    decreases chunks.len(),
{
    if chunks.len() == 0 {
        Seq::empty()
    } else {
        let before = covering(chunks.drop_last(), size, chunk_size);
        if before.len() == chunks.len() - 1 && chunk_cover(chunks.len() - 1, size, chunk_size) > 0 {
            before.push(chunks.last())
        } else {
            before
        }
    }
}

/// The first of a list of targets that does not exist.
pub open spec fn first_missing(chunks: Seq<u32>, targets: nat) -> Option<u32>
    decreases chunks.len(),
{
    if chunks.len() == 0 {
        None
    } else {
        match first_missing(chunks.drop_last(), targets) {
            Some(t) => Some(t),
            None => if chunks.last() >= targets {
                Some(chunks.last())
            } else {
                None
            },
        }
    }
}

/// The first target that a file names and that does not exist: among those that
/// cover something of it, and the one where the cover ends.
pub open spec fn slice_fault(chunks: Seq<u32>, targets: nat, size: u64, chunk_size: u64) -> Option<
    u32,
> {
    let used = covering(chunks, size, chunk_size).len() as int;
    first_missing(
        if used < chunks.len() {
            chunks.take(used + 1)
        } else {
            chunks
        },
        targets,
    )
}

/// The different numbers of a list, in the order of their first use.
pub open spec fn first_uses(chunks: Seq<u32>) -> Seq<u32>
    decreases chunks.len(),
{
    if chunks.len() == 0 {
        Seq::empty()
    } else {
        let before = first_uses(chunks.drop_last());
        if before.contains(chunks.last()) {
            before
        } else {
            before.push(chunks.last())
        }
    }
}

/// The entries of a file made of chunks: each chunk at its place in the file, from
/// its own beginning, its target numbered by first use.
pub open spec fn slice_entries(used: Seq<u32>, size: u64, chunk_size: u64) -> Seq<MapEntry> {
    Seq::new(
        used.len(),
        |i: int|
            MapEntry {
                mapped_offset: (i * chunk_size) as u64,
                length: chunk_cover(i, size, chunk_size) as u64,
                target_offset: 0,
                target_id: first_uses(used).index_of(used[i]) as u32,
            },
    )
}

/// The targets of a file made of chunks.
pub open spec fn slice_targets(used: Seq<u32>, targets: Seq<Seq<char>>) -> Seq<Seq<char>> {
    Seq::new(first_uses(used).len(), |i: int| targets[first_uses(used)[i] as int])
}

/// Distinct numbers of thirty-two bits are at most as many as there are.
proof fn few_distinct(list: Seq<u32>)
    requires
        list.no_duplicates(),
    ensures
        list.len() <= 0x1_0000_0000,
{
    let wide = list.map_values(|x: u32| x as int);
    assert(wide.no_duplicates());
    wide.unique_seq_to_set();
    vstd::set_lib::lemma_int_range(0, 0x1_0000_0000);
    let all = vstd::set_lib::set_int_range(0, 0x1_0000_0000);
    assert forall|x: int| wide.to_set().contains(x) implies all.contains(x) by {
        let i = choose|i: int| 0 <= i < wide.len() && wide[i] == x;
        assert(wide[i] == list[i] as int);
    }
    vstd::set_lib::lemma_len_subset(wide.to_set(), all);
}

/// Numbers in the order of their first use are distinct, are those used, and keep
/// their places when more are used.
pub proof fn first_uses_number(chunks: Seq<u32>)
    ensures
        first_uses(chunks).no_duplicates(),
        first_uses(chunks).len() <= chunks.len(),
        first_uses(chunks).len() <= 0x1_0000_0000,
        forall|x: u32| #[trigger] first_uses(chunks).contains(x) <==> chunks.contains(x),
    decreases chunks.len(),
{
    if chunks.len() > 0 {
        let front = chunks.drop_last();
        first_uses_number(front);
        let before = first_uses(front);
        assert(chunks =~= front.push(chunks.last()));
        assert forall|x: u32| #[trigger] first_uses(chunks).contains(x) <==> chunks.contains(x) by {
            assert(before.contains(x) <==> front.contains(x));
            if chunks.contains(x) {
                let i = choose|i: int| 0 <= i < chunks.len() && chunks[i] == x;
                if i < front.len() {
                    assert(front[i] == x);
                }
                if x == chunks.last() && !before.contains(x) {
                    assert(before.push(x)[before.len() as int] == x);
                }
                if before.contains(x) && !before.contains(chunks.last()) {
                    let j = choose|j: int| 0 <= j < before.len() && before[j] == x;
                    assert(before.push(chunks.last())[j] == x);
                }
            }
            if first_uses(chunks).contains(x) {
                let i = choose|i: int| 0 <= i < first_uses(chunks).len() && first_uses(chunks)[i] == x;
                if i < before.len() {
                    assert(before[i] == x);
                    let j = choose|j: int| 0 <= j < front.len() && front[j] == x;
                    assert(chunks[j] == x);
                } else {
                    assert(chunks[chunks.len() - 1] == x);
                }
            }
        }
    }
    few_distinct(first_uses(chunks));
}

/// Using more keeps the numbers given before.
proof fn first_uses_grow(chunks: Seq<u32>, n: int)
    requires
        0 <= n <= chunks.len(),
    ensures
        first_uses(chunks.take(n)).len() <= first_uses(chunks).len(),
        first_uses(chunks).take(first_uses(chunks.take(n)).len() as int) == first_uses(
            chunks.take(n),
        ),
    decreases chunks.len(),
{
    if n == chunks.len() {
        assert(chunks.take(n) =~= chunks);
        assert(first_uses(chunks).take(first_uses(chunks).len() as int) =~= first_uses(chunks));
    } else {
        first_uses_grow(chunks.drop_last(), n);
        assert(chunks.drop_last().take(n) =~= chunks.take(n));
        assert(first_uses(chunks).take(first_uses(chunks.take(n)).len() as int) =~= first_uses(
            chunks.drop_last(),
        ).take(first_uses(chunks.take(n)).len() as int));
    }
}

/// The chunks that cover a file are the first of the list, each covers something,
/// and one more would not.
pub proof fn covering_is_a_prefix(chunks: Seq<u32>, size: u64, chunk_size: u64)
    ensures
        covering(chunks, size, chunk_size).len() <= chunks.len(),
        covering(chunks, size, chunk_size) == chunks.take(
            covering(chunks, size, chunk_size).len() as int,
        ),
        forall|i: int|
            0 <= i < covering(chunks, size, chunk_size).len() ==> #[trigger] chunk_cover(
                i,
                size,
                chunk_size,
            ) > 0,
        covering(chunks, size, chunk_size).len() < chunks.len() ==> chunk_cover(
            covering(chunks, size, chunk_size).len() as int,
            size,
            chunk_size,
        ) == 0,
    decreases chunks.len(),
{
    if chunks.len() > 0 {
        covering_is_a_prefix(chunks.drop_last(), size, chunk_size);
        let before = covering(chunks.drop_last(), size, chunk_size);
        assert(chunks.drop_last().take(before.len() as int) =~= chunks.take(before.len() as int));
        if before.len() == chunks.len() - 1 {
            assert(before.push(chunks.last()) =~= chunks.take(chunks.len() as int));
        }
    } else {
        assert(covering(chunks, size, chunk_size) =~= chunks.take(0));
    }
}

/// Cover that ended stays ended, and cover that lasted is a beginning.
proof fn covering_settles(chunks: Seq<u32>, n: int, size: u64, chunk_size: u64)
    requires
        0 <= n <= chunks.len(),
    ensures
        covering(chunks.take(n), size, chunk_size).len() <= covering(chunks, size, chunk_size).len(),
        covering(chunks.take(n), size, chunk_size).len() < n ==> covering(chunks, size, chunk_size)
            == covering(chunks.take(n), size, chunk_size),
    decreases chunks.len(),
{
    if n == chunks.len() {
        assert(chunks.take(n) =~= chunks);
    } else {
        covering_settles(chunks.drop_last(), n, size, chunk_size);
        assert(chunks.drop_last().take(n) =~= chunks.take(n));
    }
}

/// A target once missing stays the first that is.
proof fn missing_stays(chunks: Seq<u32>, n: int, targets: nat)
    requires
        0 <= n <= chunks.len(),
        first_missing(chunks.take(n), targets) is Some,
    ensures
        first_missing(chunks, targets) == first_missing(chunks.take(n), targets),
    decreases chunks.len(),
{
    if n == chunks.len() {
        assert(chunks.take(n) =~= chunks);
    } else {
        assert(chunks.drop_last().take(n) =~= chunks.take(n));
        missing_stays(chunks.drop_last(), n, targets);
    }
}

/// Where no target is missing, all exist.
proof fn none_missing(chunks: Seq<u32>, targets: nat)
    requires
        first_missing(chunks, targets) is None,
    ensures
        forall|i: int| 0 <= i < chunks.len() ==> (#[trigger] chunks[i]) < targets,
    decreases chunks.len(),
{
    if chunks.len() > 0 {
        none_missing(chunks.drop_last(), targets);
        assert forall|i: int| 0 <= i < chunks.len() implies (#[trigger] chunks[i]) < targets by {
            if i < chunks.len() - 1 {
                assert(chunks.drop_last()[i] == chunks[i]);
            }
        }
    }
}

/// Every entry of a file made of chunks names, among the file's targets, the chunk
/// at its place: renumbering changes no target.
pub proof fn renumbering_keeps_targets(
    chunks: Seq<u32>,
    targets: Seq<Seq<char>>,
    size: u64,
    chunk_size: u64,
    i: int,
)
    requires
        slice_fault(chunks, targets.len(), size, chunk_size) is None,
        0 <= i < covering(chunks, size, chunk_size).len(),
    ensures
        ({
            let used = covering(chunks, size, chunk_size);
            let e = slice_entries(used, size, chunk_size)[i];
            &&& chunks[i] < targets.len()
            &&& e.target_id < slice_targets(used, targets).len()
            &&& slice_targets(used, targets)[e.target_id as int] == targets[chunks[i] as int]
            &&& e.mapped_offset == i * chunk_size
            &&& e.length == chunk_cover(i, size, chunk_size)
            &&& 0 < e.length <= chunk_size
            &&& e.mapped_offset + e.length <= size
        }),
{
    let used = covering(chunks, size, chunk_size);
    covering_is_a_prefix(chunks, size, chunk_size);
    let reached = if used.len() < chunks.len() { chunks.take(used.len() as int + 1) } else { chunks };
    none_missing(reached, targets.len());
    assert(reached[i] == chunks[i]);
    assert(used[i] == chunks[i]);
    first_uses_number(used);
    assert(used.contains(used[i]));
    assert(first_uses(used).contains(used[i]));
    let at = first_uses(used).index_of(used[i]);
    assert(0 <= at < first_uses(used).len() && first_uses(used)[at] == used[i]);
    assert(chunk_cover(i, size, chunk_size) > 0);
    assert(i * chunk_size >= 0) by (nonlinear_arith)
        requires
            i >= 0,
    ;
}

/// The entries of a file do not leave a gap: each begins where the one before it
/// ends.
pub proof fn slices_are_contiguous(used: Seq<u32>, size: u64, chunk_size: u64, i: int)
    requires
        0 < i < used.len(),
        chunk_cover(i, size, chunk_size) > 0,
    ensures
        ({
            let e = slice_entries(used, size, chunk_size);
            e[i].mapped_offset == e[i - 1].mapped_offset + e[i - 1].length
        }),
{
    assert(i * chunk_size == (i - 1) * chunk_size + chunk_size) by (nonlinear_arith);
    assert((i - 1) * chunk_size >= 0) by (nonlinear_arith)
        requires
            i >= 1,
    ;
}

/// A number added to a list of distinct numbers goes last, where it is new, and
/// moves no other.
proof fn index_holds(list: Seq<u32>, target: u32, x: u32)
    requires
        list.no_duplicates(),
    ensures
        ({
            let grown = if list.contains(target) { list } else { list.push(target) };
            &&& list.contains(x) ==> grown.contains(x) && grown.index_of(x) == list.index_of(x)
            &&& x == target && !list.contains(x) ==> grown.contains(x) && grown.index_of(x)
                == list.len()
        }),
{
    let grown = if list.contains(target) { list } else { list.push(target) };
    assert(grown.no_duplicates());
    if list.contains(x) {
        let at = list.index_of(x);
        assert(grown[at] == x);
        let other = grown.index_of(x);
        assert(grown[other] == x);
    } else if x == target {
        assert(grown[list.len() as int] == x);
        let other = grown.index_of(x);
        assert(grown[other] == x);
    }
}

/// One more chunk leaves the entries before it as they are.
proof fn entries_stay(front: Seq<u32>, target: u32, size: u64, chunk_size: u64)
    ensures
        forall|i: int|
            0 <= i < front.len() ==> #[trigger] slice_entries(front.push(target), size, chunk_size)[i]
                == slice_entries(front, size, chunk_size)[i],
{
    let next = front.push(target);
    assert(next.drop_last() =~= front);
    first_uses_number(front);
    assert forall|i: int| 0 <= i < front.len() implies #[trigger] slice_entries(
        next,
        size,
        chunk_size,
    )[i] == slice_entries(front, size, chunk_size)[i] by {
        assert(front.contains(front[i]));
        assert(first_uses(front).contains(front[i]));
        index_holds(first_uses(front), target, front[i]);
    }
}

/// What a file made of chunks is mapped by.
struct Sliced {
    entries: Vec<MapEntry>,
    targets: Vec<String>,
}

/// The chunk targets of a file as its own entries and targets.
fn slice(chunk_targets: &[u32], targets: &Vec<String>, size: u64, chunk_size: u64) -> (r: Result<
    Sliced,
    u32,
>)
    ensures
        (match r {
            Err(t) => slice_fault(chunk_targets@, targets@.len(), size, chunk_size) == Some(t),
            Ok(s) => {
                let used = covering(chunk_targets@, size, chunk_size);
                &&& slice_fault(chunk_targets@, targets@.len(), size, chunk_size) is None
                &&& s.entries@ == slice_entries(used, size, chunk_size)
                &&& text::texts(s.targets@) == slice_targets(used, text::texts(targets@))
            },
        }),
{
    let ghost chunks = chunk_targets@;
    let ghost all = text::texts(targets@);
    let ghost n = targets@.len();
    let mut local_of: std::collections::HashMap<u32, u32> = std::collections::HashMap::new();
    let mut entries: Vec<MapEntry> = Vec::new();
    let mut locals: Vec<String> = Vec::new();
    let mut i: usize = 0;
    let mut ended: bool = false;
    proof {
        assert(chunks.take(0) =~= Seq::<u32>::empty());
        assert(entries@ =~= slice_entries(chunks.take(0), size, chunk_size));
        assert(text::texts(locals@) =~= slice_targets(chunks.take(0), all));
    }
    while i < chunk_targets.len() && !ended
        invariant
            i <= chunk_targets.len(),
            chunks == chunk_targets@,
            all == text::texts(targets@),
            n == targets@.len(),
            !ended ==> covering(chunks.take(i as int), size, chunk_size) == chunks.take(i as int),
            !ended ==> first_missing(chunks.take(i as int), n) is None,
            ended ==> i < chunks.len() && covering(chunks.take(i + 1), size, chunk_size)
                == chunks.take(i as int) && first_missing(chunks.take(i + 1), n) is None,
            entries@ == slice_entries(chunks.take(i as int), size, chunk_size),
            text::texts(locals@) == slice_targets(chunks.take(i as int), all),
            locals@.len() == first_uses(chunks.take(i as int)).len(),
            forall|x: u32| #[trigger]
                local_of@.contains_key(x) <==> first_uses(chunks.take(i as int)).contains(x),
            forall|x: u32| #[trigger]
                local_of@.contains_key(x) ==> local_of@[x] == first_uses(
                    chunks.take(i as int),
                ).index_of(x),
        decreases chunk_targets.len() - i, (if ended { 0int } else { 1int }),
    {
        let target: u32 = chunk_targets[i];
        let ghost front = chunks.take(i as int);
        let ghost next = chunks.take(i + 1);
        proof {
            assert(next.drop_last() =~= front);
            assert(next.last() == target);
        }
        if target as usize >= targets.len() {
            proof {
                covering_settles(chunks, i as int, size, chunk_size);
                let used = covering(chunks, size, chunk_size).len() as int;
                let reached = if used < chunks.len() { chunks.take(used + 1) } else { chunks };
                assert(reached.take(i + 1) =~= next);
                missing_stays(reached, i + 1, n);
            }
            return Err(target);
        }
        proof {
            assert(i * chunk_size <= 0xffff_ffff_ffff_ffff * 0xffff_ffff_ffff_ffff) by (nonlinear_arith)
                requires
                    0 <= i <= 0xffff_ffff_ffff_ffff,
                    0 <= chunk_size <= 0xffff_ffff_ffff_ffff,
            ;
        }
        let offset: u128 = i as u128 * chunk_size as u128;
        let rest: u64 = if offset < size as u128 { size - offset as u64 } else { 0 };
        let length: u64 = if chunk_size < rest { chunk_size } else { rest };
        proof {
            assert(length == chunk_cover(i as int, size, chunk_size));
        }
        if length == 0 {
            ended = true;
        } else {
            proof {
                first_uses_number(front);
                first_uses_number(next);
                first_uses_grow(next, i as int);
                assert(next.take(i as int) =~= front);
            }
            let ghost named = locals@;
            let local_id: u32 = match local_of.get(&target) {
                Some(id) => *id,
                None => {
                    proof {
                        few_distinct(first_uses(next));
                    }
                    let id: u32 = locals.len() as u32;
                    local_of.insert(target, id);
                    locals.push(text::owned(targets[target as usize].as_str()));
                    id
                },
            };
            entries.push(
                MapEntry {
                    mapped_offset: offset as u64,
                    length,
                    target_offset: 0,
                    target_id: local_id,
                },
            );
            proof {
                entries_stay(front, target, size, chunk_size);
                let uses = first_uses(next);
                assert(next =~= front.push(target));
                assert forall|x: u32| #[trigger] local_of@.contains_key(x) implies local_of@[x]
                    == uses.index_of(x) by {
                    index_holds(first_uses(front), target, x);
                }
                index_holds(first_uses(front), target, target);
                assert(entries@ =~= slice_entries(next, size, chunk_size));
                assert(text::texts(named) == slice_targets(front, all));
                assert forall|k: int| 0 <= k < named.len() implies locals@[k]@ == all[uses[k] as int] by {
                    assert(locals@[k] == named[k]);
                    assert(text::texts(named)[k] == slice_targets(front, all)[k]);
                    assert(uses[k] == first_uses(front)[k]);
                }
                assert(text::texts(locals@) =~= slice_targets(next, all));
            }
            i = i + 1;
        }
    }
    proof {
        if ended {
            covering_settles(chunks, i + 1, size, chunk_size);
        } else {
            assert(chunks.take(i as int) =~= chunks);
        }
    }
    Ok(Sliced { entries, targets: locals })
}

/// The fault of a file that names a target that does not exist.
pub open spec fn missing_target(
    file_arn: Seq<char>,
    target: u32,
    targets: nat,
    locus: LocusView,
) -> ErrorView {
    malformed(
        locus,
        file_arn + " references chunk target "@ + text::decimal(target as nat) + ", but only "@
            + text::decimal(targets) + " unique chunks were stored"@,
    )
}

/// What a writer holds once a file made of chunks is mapped.
pub open spec fn slices_written(
    w: WriterView,
    base: Seq<char>,
    file_arn: Seq<char>,
    entries: Seq<MapEntry>,
    targets: Seq<Seq<char>>,
) -> WriterView {
    segments_written(
        w,
        base,
        file_arn,
        entries_bytes(entries),
        target_lines(targets),
        Seq::empty(),
    ).state(typed_as(file_arn, standard_iri("Map"@))).state(
        statement(file_arn, standard_iri("dataStream"@), TermView::Iri(file_arn)),
    )
}

/// What mapping a file onto its chunks does to a writer, and why it fails.
pub open spec fn slice_outcome(
    w: WriterView,
    file_arn: Seq<char>,
    chunks: Seq<u32>,
    targets: Seq<Seq<char>>,
    size: u64,
    chunk_size: u64,
    locus: LocusView,
) -> Result<WriterView, ErrorView> {
    match base_in(w, "file"@, file_arn, locus) {
        Err(e) => Err(e),
        Ok(base) => match slice_fault(chunks, targets.len(), size, chunk_size) {
            Some(t) => Err(missing_target(file_arn, t, targets.len(), locus)),
            None => {
                let used = covering(chunks, size, chunk_size);
                Ok(
                    slices_written(
                        w,
                        base,
                        file_arn,
                        slice_entries(used, size, chunk_size),
                        slice_targets(used, targets),
                    ),
                )
            },
        },
    }
}

/// Write one file's map over the chunks it is made of.
///
/// `chunk_targets` holds, for each chunk of the file in order, the number of its
/// target among `targets`. The file's own list of targets holds only those it
/// uses, numbered by first use. The last chunk is stored padded; the entry for it
/// covers only what is the file's.
pub fn write_slice_map(
    writer: &mut ContainerWriter,
    file_arn: &str,
    chunk_targets: &[u32],
    targets: &Vec<String>,
    size: u64,
    chunk_size: u64,
    locus: &Locus,
) -> (r: Result<(), Error>)
    ensures
        (match slice_outcome(
            old(writer).view(),
            file_arn@,
            chunk_targets@,
            text::texts(targets@),
            size,
            chunk_size,
            locus@,
        ) {
            Ok(w) => r is Ok && final(writer).view() == w,
            Err(e) => r is Err && r->Err_0@ == e && final(writer).view() == old(writer).view(),
        }),
{
    let base = match find_base(writer, "file", file_arn, locus) {
        Ok(base) => base,
        Err(e) => return Err(e),
    };
    let sliced = match slice(chunk_targets, targets, size, chunk_size) {
        Ok(sliced) => sliced,
        Err(target) => return Err(
            Error::malformed(
                locus.clone(),
                text::cat6(
                    file_arn,
                    " references chunk target ",
                    text::dec(target as u64).as_str(),
                    ", but only ",
                    text::dec_usize(targets.len()).as_str(),
                    " unique chunks were stored",
                ),
            ),
        ),
    };
    let map_bytes = encode_entries(&sliced.entries);
    let idx_bytes = encode_targets(&sliced.targets);
    let empty: Vec<u8> = Vec::new();
    proof {
        assert(empty@ =~= Seq::<u8>::empty());
    }
    let _ = write_map_segments(
        writer,
        base.as_str(),
        file_arn,
        map_bytes.as_slice(),
        idx_bytes.as_slice(),
        empty.as_slice(),
    );
    writer.add_type(file_arn, iri("Map").as_str());
    writer.add(file_arn, iri("dataStream").as_str(), Term::iri(file_arn));
    Ok(())
}

/// The entry of a file that lies in one run of a stream; none where it is empty.
pub open spec fn run_bytes(size: u64, target_offset: u64) -> Seq<u8> {
    if size > 0 {
        entry_bytes(MapEntry { mapped_offset: 0, length: size, target_offset, target_id: 0 })
    } else {
        Seq::empty()
    }
}

/// The entry of a file that lies in one run of a stream.
fn encode_run(size: u64, target_offset: u64) -> (r: Vec<u8>)
    ensures
        r@ == run_bytes(size, target_offset),
{
    let mut out: Vec<u8> = Vec::new();
    if size > 0 {
        append_entry(
            &mut out,
            MapEntry { mapped_offset: 0, length: size, target_offset, target_id: 0 },
        );
    }
    proof {
        assert(out@ =~= run_bytes(size, target_offset));
    }
    out
}

/// What ties a map to its one stream.
pub open spec fn tied(w: WriterView, map_arn: Seq<char>, stream_arn: Seq<char>) -> WriterView {
    w.state(statement(map_arn, standard_iri("dependentStream"@), TermView::Iri(stream_arn))).state(
        statement(stream_arn, standard_iri("target"@), TermView::Iri(map_arn)),
    )
}

/// What a writer holds once a file is mapped onto a run of a stream that files
/// share.
pub open spec fn shared_written(
    w: WriterView,
    base: Seq<char>,
    file_arn: Seq<char>,
    stream_arn: Seq<char>,
    target_offset: u64,
    size: u64,
) -> WriterView {
    tied(
        segments_written(
            w,
            base,
            file_arn,
            run_bytes(size, target_offset),
            target_lines(seq![stream_arn]),
            Seq::empty(),
        ).state(typed_as(file_arn, standard_iri("Map"@))),
        file_arn,
        stream_arn,
    )
}

/// Map one file onto a contiguous run of a stream that files share.
///
/// A file in such a stream lies in one run, so one entry is its map. No block map
/// digest is recorded: it would cover every file in the stream.
pub fn write_shared_map(
    writer: &mut ContainerWriter,
    file_arn: &str,
    stream_arn: &str,
    target_offset: u64,
    size: u64,
    locus: &Locus,
) -> (r: Result<(), Error>)
    ensures
        (match base_in(old(writer).view(), "file"@, file_arn@, locus@) {
            Err(e) => r is Err && r->Err_0@ == e && final(writer).view() == old(writer).view(),
            Ok(base) => r is Ok && final(writer).view() == shared_written(
                old(writer).view(),
                base,
                file_arn@,
                stream_arn@,
                target_offset,
                size,
            ),
        }),
{
    let base = match find_base(writer, "file", file_arn, locus) {
        Ok(base) => base,
        Err(e) => return Err(e),
    };
    let map_bytes = encode_run(size, target_offset);
    let idx_bytes = encode_target(stream_arn);
    let empty: Vec<u8> = Vec::new();
    proof {
        assert(empty@ =~= Seq::<u8>::empty());
    }
    let _ = write_map_segments(
        writer,
        base.as_str(),
        file_arn,
        map_bytes.as_slice(),
        idx_bytes.as_slice(),
        empty.as_slice(),
    );
    writer.add_type(file_arn, iri("Map").as_str());
    writer.add(file_arn, iri("dependentStream").as_str(), Term::iri(stream_arn));
    writer.add(stream_arn, iri("target").as_str(), Term::iri(file_arn));
    Ok(())
}

/// What a writer holds once a map over a file's own stream is written under a
/// base, the file naming the map before that where it is a subject of its own.
pub open spec fn own_written(
    w: WriterView,
    base: Seq<char>,
    map_arn: Seq<char>,
    separate: bool,
    file_arn: Seq<char>,
    stream_arn: Seq<char>,
    size: u64,
    blocks: Seq<(HashAlgorithm, Seq<char>)>,
) -> WriterView {
    let map = run_bytes(size, 0);
    let idx = target_lines(seq![stream_arn]);
    let hex = block_map_hex(blocks, segment_digests(map, idx, Seq::empty()));
    let mapped = segments_written(w, base, map_arn, map, idx, Seq::empty()).state_all(
        block_map_triples(map_arn, file_arn, hex),
    ).state(typed_as(map_arn, standard_iri("Map"@)));
    let sized = if separate { mapped.state(size_triple(map_arn, size as nat)) } else { mapped };
    tied(sized, map_arn, stream_arn)
}

/// What mapping a file onto its own stream does to a writer, and why it fails. A
/// map of its own name is reached from the file.
pub open spec fn own_outcome(
    w: WriterView,
    file_arn: Seq<char>,
    stream_arn: Seq<char>,
    size: u64,
    blocks: Seq<(HashAlgorithm, Seq<char>)>,
    map: Option<Seq<char>>,
    https: bool,
    locus: LocusView,
) -> (WriterView, Option<ErrorView>) {
    match base_in(w, "file"@, file_arn, locus) {
        Err(e) => (w, Some(e)),
        Ok(base) => match map {
            None => (
                own_written(w, base, file_arn, false, file_arn, stream_arn, size, blocks),
                None,
            ),
            Some(map_arn) => {
                let named = w.state(
                    statement(file_arn, aff4l_iri("dataStream"@, https), TermView::Iri(map_arn)),
                );
                match base_in(named, "map"@, map_arn, locus) {
                    Err(e) => (named, Some(e)),
                    Ok(base) => (
                        own_written(
                            named,
                            base,
                            map_arn,
                            true,
                            file_arn,
                            stream_arn,
                            size,
                            blocks,
                        ),
                        None,
                    ),
                }
            },
        },
    }
}

/// The failure of a call, as a plain value.
pub open spec fn failure(r: Result<(), Error>) -> Option<ErrorView> {
    match r {
        Ok(_) => None,
        Err(e) => Some(e@),
    }
}

/// Write the map over a file's own stream under a base.
fn write_own_segments(
    writer: &mut ContainerWriter,
    base: &str,
    map_arn: &str,
    separate: bool,
    file_arn: &str,
    stream_arn: &str,
    size: u64,
    block_hashes: &Vec<BlockHashDigest>,
)
    ensures
        final(writer).view() == own_written(
            old(writer).view(),
            base@,
            map_arn@,
            separate,
            file_arn@,
            stream_arn@,
            size,
            block_views(block_hashes@),
        ),
{
    let map_bytes = encode_run(size, 0);
    let idx_bytes = encode_target(stream_arn);
    let empty: Vec<u8> = Vec::new();
    proof {
        assert(empty@ =~= Seq::<u8>::empty());
    }
    let (digests, _recorded) = write_map_segments(
        writer,
        base,
        map_arn,
        map_bytes.as_slice(),
        idx_bytes.as_slice(),
        empty.as_slice(),
    );
    let _ = write_block_map_digest(writer, map_arn, file_arn, block_hashes, &digests);
    writer.add_type(map_arn, iri("Map").as_str());
    if separate {
        add_size(writer, map_arn, size);
    }
    writer.add(map_arn, iri("dependentStream").as_str(), Term::iri(stream_arn));
    writer.add(stream_arn, iri("target").as_str(), Term::iri(map_arn));
}

/// Write a map over a stream that one file alone uses, under a chosen name: the
/// file's own, or one that the file reaches.
pub fn write_own_map_as(
    writer: &mut ContainerWriter,
    file_arn: &str,
    stream_arn: &str,
    size: u64,
    block_hashes: &Vec<BlockHashDigest>,
    map: Option<&str>,
    namespace_https: bool,
    locus: &Locus,
) -> (r: Result<(), Error>)
    ensures
        (final(writer).view(), failure(r)) == own_outcome(
            old(writer).view(),
            file_arn@,
            stream_arn@,
            size,
            block_views(block_hashes@),
            (match map {
                Some(m) => Some(m@),
                None => None,
            }),
            namespace_https,
            locus@,
        ),
{
    let base = match find_base(writer, "file", file_arn, locus) {
        Ok(base) => base,
        Err(e) => return Err(e),
    };
    match map {
        None => {
            write_own_segments(
                writer,
                base.as_str(),
                file_arn,
                false,
                file_arn,
                stream_arn,
                size,
                block_hashes,
            );
        },
        Some(map_arn) => {
            let predicate = text::cat2(namespace_for("dataStream", namespace_https), "dataStream");
            writer.add(file_arn, predicate.as_str(), Term::iri(map_arn));
            let base = match find_base(writer, "map", map_arn, locus) {
                Ok(base) => base,
                Err(e) => return Err(e),
            };
            write_own_segments(
                writer,
                base.as_str(),
                map_arn,
                true,
                file_arn,
                stream_arn,
                size,
                block_hashes,
            );
        },
    }
    Ok(())
}

/// Write a map over a stream that one file alone uses.
///
/// The file is the map, or, where `indirect`, the map is a subject of a fresh name
/// that the file reaches, and declares the size itself.
pub fn write_own_map(
    writer: &mut ContainerWriter,
    file_arn: &str,
    stream_arn: &str,
    size: u64,
    block_hashes: &Vec<BlockHashDigest>,
    indirect: bool,
    namespace_https: bool,
    locus: &Locus,
) -> (r: Result<(), Error>)
    ensures
        (match base_in(old(writer).view(), "file"@, file_arn@, locus@) {
            Err(e) => r is Err && r->Err_0@ == e && final(writer).view() == old(writer).view(),
            Ok(_) => if !indirect {
                (final(writer).view(), failure(r)) == own_outcome(
                    old(writer).view(),
                    file_arn@,
                    stream_arn@,
                    size,
                    block_views(block_hashes@),
                    None,
                    namespace_https,
                    locus@,
                )
            } else {
                ||| (exists|entropy: Seq<u8>|
                    entropy.len() == 16 && (final(writer).view(), failure(r)) == own_outcome(
                        old(writer).view(),
                        file_arn@,
                        stream_arn@,
                        size,
                        block_views(block_hashes@),
                        Some("aff4://"@ + #[trigger] uuid_of(entropy)),
                        namespace_https,
                        locus@,
                    ))
                ||| (exists|cause: Seq<char>|
                    r is Err && r->Err_0@ == #[trigger] entropy_failure(
                        old(writer).view().path,
                        cause,
                    ) && final(writer).view() == old(writer).view())
            },
        }),
{
    if !indirect {
        return write_own_map_as(
            writer,
            file_arn,
            stream_arn,
            size,
            block_hashes,
            None,
            namespace_https,
            locus,
        );
    }
    match find_base(writer, "file", file_arn, locus) {
        Ok(_) => {},
        Err(e) => return Err(e),
    }
    let uuid = match new_uuid(writer.path()) {
        Ok(uuid) => uuid,
        Err(e) => return Err(e),
    };
    let minted = Arn::of_id(uuid.as_str());
    write_own_map_as(
        writer,
        file_arn,
        stream_arn,
        size,
        block_hashes,
        Some(minted.as_str()),
        namespace_https,
        locus,
    )
}

} // verus!
