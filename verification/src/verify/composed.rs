//! What digests over other digests attest: those of maps, and those of images spread over
//! several volumes.

use vstd::prelude::*;

use crate::arn::{member_of, NameMapping};
use crate::bytes;
use crate::error::ErrorView;
use crate::hash::{same_but_for_case, sha512_digest};
use crate::model::{HashAlgorithm, ObjectRole, StoredHashView};
use crate::order;
use crate::rdf::object_of;
use crate::text;
use crate::verify::blocks::{block_segments, leaf, names_between};
use crate::verify::container::{ObjectView, Part};
use crate::verify::maps::{
    block_map_input, joined_segments, local_streams, map_check, map_checks, map_segments,
    stream_digests, streams_digests, MapSegmentsView,
};
use crate::verify::report::{Coverage, Declined, OutcomeView, ReportView};
use crate::verify::sound::{
    answers, checks_decide, is_answered, is_plain, records, spellings_tell_apart,
};
use crate::verify::stripes::{
    declaring_parts, digests_in_order, root_of, root_report, stripe_key, stripe_keys, stripe_of,
    stripes_of, StripeOrderKey, StripeView, DATA_STREAM_IRI,
};
use crate::volume::Volume;

verus! {

/// A name between two texts is one that begins and ends with them.
proof fn names_are_selected(list: Seq<Seq<char>>, prefix: Seq<char>, tail: Seq<char>, name: Seq<char>)
    ensures
        names_between(list, prefix, tail).contains(name) <==> list.contains(name)
            && text::has_prefix(name, prefix) && text::has_suffix(name, tail),
    decreases list.len(),
{
    let found = names_between(list, prefix, tail);
    if list.len() > 0 {
        let shorter = names_between(list.drop_last(), prefix, tail);
        names_are_selected(list.drop_last(), prefix, tail, name);
        if found.contains(name) {
            let k = choose|k: int| 0 <= k < found.len() && found[k] == name;
            if k < shorter.len() {
                assert(shorter[k] == name);
                assert(list.drop_last().contains(name));
                let m = choose|m: int| 0 <= m < list.len() - 1 && list.drop_last()[m] == name;
                assert(list[m] == name);
            } else {
                assert(list[list.len() - 1] == name);
            }
        }
        if list.contains(name) && text::has_prefix(name, prefix) && text::has_suffix(name, tail) {
            let m = choose|m: int| 0 <= m < list.len() && list[m] == name;
            if m < list.len() - 1 {
                assert(list.drop_last()[m] == name);
                assert(shorter.contains(name));
                let k = choose|k: int| 0 <= k < shorter.len() && shorter[k] == name;
                assert(found[k] == name);
            } else {
                assert(found[found.len() - 1] == name);
            }
        }
    }
}

/// The segments that record a stream's chunk digests are those of the volume that stand
/// under the stream and are named after the algorithm, no more and no less, in the order
/// of their names.
pub proof fn block_segments_are_found<V: Volume>(
    volume: &V,
    base: Seq<char>,
    suffix: Seq<char>,
    name: Seq<char>,
    between: Seq<char>,
)
    ensures
        ({
            let found = block_segments(volume, base, suffix);
            &&& name == base + "/"@ + between + ".blockHash."@ + suffix
                && volume.listing().contains(name) ==> found.contains(name)
            &&& found.contains(name) ==> volume.listing().contains(name) && text::has_prefix(
                name,
                base + "/"@,
            ) && text::has_suffix(name, ".blockHash."@ + suffix)
            &&& forall|i: int, j: int|
                0 <= i <= j < found.len() ==> !order::before(
                    #[trigger] found[j],
                    #[trigger] found[i],
                )
        }),
{
    let tail = ".blockHash."@ + suffix;
    let picked = names_between(volume.listing(), base + "/"@, tail);
    let found = block_segments(volume, base, suffix);
    let at = order::order_of(picked);
    names_are_selected(volume.listing(), base + "/"@, tail, name);
    order::sorting_sorts(picked, picked.len());
    if name == base + "/"@ + between + ".blockHash."@ + suffix {
        assert(name.take((base + "/"@).len() as int) =~= base + "/"@);
        assert(name.skip(name.len() - tail.len()) =~= tail);
    }
    if picked.contains(name) {
        let k = choose|k: int| 0 <= k < picked.len() && picked[k] == name;
        every_place_is_taken(at, picked.len());
        assert(at.contains(k));
        let m = choose|m: int| 0 <= m < at.len() && at[m] == k;
        assert(found[m] == name);
    }
    if found.contains(name) {
        let m = choose|m: int| 0 <= m < found.len() && found[m] == name;
        assert(picked[at[m]] == name);
    }
    assert forall|i: int, j: int| 0 <= i <= j < found.len() implies !order::before(
        #[trigger] found[j],
        #[trigger] found[i],
    ) by {
        assert(found[j] == picked[at[j]] && found[i] == picked[at[i]]);
    }
}

/// As many different places as there are take every one of them.
proof fn every_place_is_taken(at: Seq<int>, n: nat)
    requires
        at.len() == n,
        at.no_duplicates(),
        forall|i: int| 0 <= i < n ==> 0 <= #[trigger] at[i] < n,
    ensures
        forall|k: int| 0 <= k < n ==> #[trigger] at.contains(k),
{
    let taken = at.to_set();
    let all = vstd::set_lib::set_int_range(0, n as int);
    at.unique_seq_to_set();
    vstd::set_lib::lemma_int_range(0, n as int);
    assert(taken.subset_of(all)) by {
        assert forall|k: int| taken.contains(k) implies all.contains(k) by {
            let i = choose|i: int| 0 <= i < at.len() && at[i] == k;
            assert(0 <= at[i] < n);
        }
    }
    vstd::set_lib::lemma_subset_equality(taken, all);
    assert forall|k: int| 0 <= k < n implies #[trigger] at.contains(k) by {
        assert(all.contains(k));
        assert(taken.contains(k));
    }
}

/// The SHA-512 of the chunk digests of one stream under one algorithm, where it records
/// any.
pub open spec fn leaf_digest(held: Option<Seq<u8>>) -> Seq<u8> {
    match held {
        Some(digests) => sha512_digest(digests),
        None => Seq::empty(),
    }
}

/// The SHA-512 digests of one stream's chunk digests: MD5, SHA-1, SHA-256, SHA-512 and
/// BLAKE2b, in this order, as far as it records them.
pub open spec fn leaf_digests(held: Seq<Option<Seq<u8>>>) -> Seq<u8> {
    leaf_digest(held[0]) + leaf_digest(held[1]) + leaf_digest(held[2]) + leaf_digest(held[3])
        + leaf_digest(held[4])
}

/// What chunk digests are named after, in the order in which they are composed.
pub open spec fn leaf_suffix(k: int) -> Seq<char> {
    if k == 0 {
        "md5"@
    } else if k == 1 {
        "sha1"@
    } else if k == 2 {
        "sha256"@
    } else if k == 3 {
        "sha512"@
    } else {
        "blake2b"@
    }
}

/// Whether a volume records some chunk digests of a stream under an algorithm, or none.
pub open spec fn records_leaf<V: Volume>(
    volume: &V,
    base: Seq<char>,
    suffix: Seq<char>,
    held: Option<Seq<u8>>,
) -> bool {
    let names = block_segments(volume, base, suffix);
    match held {
        None => names.len() == 0,
        Some(digests) => names.len() > 0 && joined_segments(volume, names, names.len()) == Ok::<
            Seq<u8>,
            (Seq<char>, ErrorView),
        >(digests),
    }
}

/// Whether a volume records chunk digests of a stream, under each algorithm as given.
pub open spec fn records_leaves<V: Volume>(
    volume: &V,
    stream: Seq<char>,
    held: Seq<Option<Seq<u8>>>,
) -> bool {
    &&& held.len() == 5
    &&& member_of(stream, volume.name(), NameMapping::Escaped) matches Some(base) && (forall|k: int|
        0 <= k < 5 ==> records_leaf(volume, base, leaf_suffix(k), #[trigger] held[k]))
}

/// The digests of one stream's chunk digests are composed in the fixed order.
proof fn leaves_are_composed<V: Volume>(volume: &V, base: Seq<char>, held: Seq<Option<Seq<u8>>>)
    requires
        held.len() == 5,
        forall|k: int| 0 <= k < 5 ==> records_leaf(volume, base, leaf_suffix(k), #[trigger] held[k]),
    ensures
        stream_digests(volume, base, 5) == Ok::<Seq<u8>, Seq<char>>(leaf_digests(held)),
{
    reveal_with_fuel(stream_digests, 6);
    assert(records_leaf(volume, base, leaf_suffix(0), held[0]));
    assert(records_leaf(volume, base, leaf_suffix(1), held[1]));
    assert(records_leaf(volume, base, leaf_suffix(2), held[2]));
    assert(records_leaf(volume, base, leaf_suffix(3), held[3]));
    assert(records_leaf(volume, base, leaf_suffix(4), held[4]));
    let none = Seq::<u8>::empty();
    assert(none + leaf_digest(held[0]) =~= leaf_digest(held[0]));
    assert(leaf_digest(held[0]) + leaf_digest(held[1]) =~= (none + leaf_digest(held[0]))
        + leaf_digest(held[1]));
    let d0 = leaf_digest(held[0]);
    let d1 = d0 + leaf_digest(held[1]);
    let d2 = d1 + leaf_digest(held[2]);
    let d3 = d2 + leaf_digest(held[3]);
    assert(stream_digests(volume, base, 1) == Ok::<Seq<u8>, Seq<char>>(d0)) by {
        assert(none + sha512_digest(held[0]->Some_0) =~= sha512_digest(held[0]->Some_0));
    }
    assert(stream_digests(volume, base, 2) == Ok::<Seq<u8>, Seq<char>>(d1)) by {
        assert(d0 + none =~= d0);
    }
    assert(stream_digests(volume, base, 3) == Ok::<Seq<u8>, Seq<char>>(d2)) by {
        assert(d1 + none =~= d1);
    }
    assert(stream_digests(volume, base, 4) == Ok::<Seq<u8>, Seq<char>>(d3)) by {
        assert(d2 + none =~= d2);
    }
    assert(d3 + none =~= d3);
}

/// The digests of the chunk digests of several streams, one stream after the other.
pub open spec fn all_leaves(held: Seq<Seq<Option<Seq<u8>>>>) -> Seq<Seq<u8>> {
    Seq::new(held.len(), |j: int| leaf_digests(held[j]))
}

/// The digests of the chunk digests of several streams are composed stream by stream.
proof fn streams_are_composed<V: Volume>(
    volume: &V,
    streams: Seq<Seq<char>>,
    held: Seq<Seq<Option<Seq<u8>>>>,
    n: nat,
)
    requires
        held.len() == streams.len(),
        n <= streams.len(),
        forall|j: int|
            0 <= j < streams.len() ==> records_leaves(volume, #[trigger] streams[j], held[j]),
    ensures
        streams_digests(volume, streams, n) == Ok::<Seq<u8>, Seq<char>>(
            bytes::flattened(all_leaves(held).take(n as int)),
        ),
    decreases n,
{
    if n == 0 {
        assert(all_leaves(held).take(0) =~= Seq::<Seq<u8>>::empty());
    } else {
        streams_are_composed(volume, streams, held, (n - 1) as nat);
        let j = n - 1;
        assert(records_leaves(volume, streams[j], held[j]));
        let base = member_of(streams[j], volume.name(), NameMapping::Escaped)->Some_0;
        leaves_are_composed(volume, base, held[j]);
        assert(all_leaves(held).take(n as int).drop_last() =~= all_leaves(held).take(j));
        assert(all_leaves(held).take(n as int).last() == leaf_digests(held[j]));
    }
}

/// The block map digest of a map in a volume: the SHA-512 over the digests of the chunk
/// digests of the streams that the volume holds, and then over the digests of the map's
/// three segments.
pub open spec fn block_map_digest(
    held: Seq<Seq<Option<Seq<u8>>>>,
    map: Seq<u8>,
    idx: Seq<u8>,
    path: Seq<u8>,
) -> Seq<u8> {
    sha512_digest(
        bytes::flattened(all_leaves(held)) + sha512_digest(map) + sha512_digest(idx)
            + sha512_digest(path),
    )
}

/// Whether a volume holds a map's three segments, the path where there is one.
pub open spec fn holds_map<V: Volume>(
    volume: &V,
    base: Seq<char>,
    map: Seq<u8>,
    idx: Seq<u8>,
    path: Seq<u8>,
) -> bool {
    &&& volume.outcome(base + "/map"@) == Ok::<Seq<u8>, ErrorView>(map)
    &&& volume.outcome(base + "/idx"@) == Ok::<Seq<u8>, ErrorView>(idx)
    &&& if volume.lists(base + "/mapPath"@) {
        volume.outcome(base + "/mapPath"@) == Ok::<Seq<u8>, ErrorView>(path)
    } else {
        path.len() == 0
    }
}

/// A map's segments are those of its name.
proof fn map_is_read<V: Volume>(
    volume: &V,
    base: Seq<char>,
    map: Seq<u8>,
    idx: Seq<u8>,
    path: Seq<u8>,
)
    requires
        holds_map(volume, base, map, idx, path),
    ensures
        map_segments(base, volume) == Ok::<MapSegmentsView, ErrorView>(
            MapSegmentsView { map, idx, path },
        ),
{
    reveal_strlit("/");
    reveal_strlit("map");
    reveal_strlit("/map");
    reveal_strlit("idx");
    reveal_strlit("/idx");
    reveal_strlit("mapPath");
    reveal_strlit("/mapPath");
    assert(base + "/"@ + "map"@ =~= base + "/map"@);
    assert(base + "/"@ + "idx"@ =~= base + "/idx"@);
    assert(base + "/"@ + "mapPath"@ =~= base + "/mapPath"@);
    assert(path.len() == 0 ==> path =~= Seq::<u8>::empty());
}

/// What a digest that a map records is a digest of, by its property: the entries, the
/// targets, the path, or the three one after the other.
pub open spec fn map_input(
    predicate: Seq<char>,
    map: Seq<u8>,
    idx: Seq<u8>,
    path: Seq<u8>,
) -> Option<Seq<u8>> {
    if predicate == "mapPointHash"@ {
        Some(map)
    } else if predicate == "mapIdxHash"@ {
        Some(idx)
    } else if predicate == "mapPathHash"@ {
        Some(path)
    } else if predicate == "mapHash"@ {
        Some(map + idx + path)
    } else {
        None
    }
}

/// Every digest that a map records is answered for: those of its segments match where
/// they are the digests of the segments, and that of the whole tree matches where it is
/// the SHA-512 over the digests below it. Where it is another, the check says so.
pub proof fn map_digests_are_answered<V: Volume>(
    report: ReportView,
    object: ObjectView,
    volume: &V,
    base: Seq<char>,
    map: Seq<u8>,
    idx: Seq<u8>,
    path: Seq<u8>,
    held: Seq<Seq<Option<Seq<u8>>>>,
    i: int,
)
    requires
        member_of(object.arn, volume.name(), NameMapping::Escaped) == Some(base),
        holds_map(volume, base, map, idx, path),
        0 <= i < object.hashes.len(),
    ensures
        map_input(object.hashes[i].predicate, map, idx, path) matches Some(input) && is_plain(
            object.hashes[i],
        ) ==> is_answered(
            report,
            report.all_checks(map_checks(object, volume)),
            object.arn,
            object.hashes[i],
            records(
                object.hashes[i],
                map_input(object.hashes[i].predicate, map, idx, path)->Some_0,
            ),
        ),
        object.hashes[i].predicate == "blockMapHash"@ && held.len() == local_streams(
            idx,
            volume,
        ).len() && (forall|j: int|
            0 <= j < held.len() ==> records_leaves(
                volume,
                local_streams(idx, volume)[j],
                #[trigger] held[j],
            )) ==> is_answered(
            report,
            report.all_checks(map_checks(object, volume)),
            object.arn,
            object.hashes[i],
            same_but_for_case(
                text::hex(block_map_digest(held, map, idx, path)),
                object.hashes[i].hex,
            ),
        ),
{
    let hash = object.hashes[i];
    let segments = MapSegmentsView { map, idx, path };
    map_is_read(volume, base, map, idx, path);
    let checks = map_checks(object, volume);
    let after = report.all_checks(checks);
    let c = map_check(object, hash, segments, volume);
    let k = report.checks.len() + i;
    assert(checks[i] == c);
    assert(after.checks[k] == c);
    predicates_differ();
    if map_input(hash.predicate, map, idx, path) is Some && is_plain(hash) {
        let input = map_input(hash.predicate, map, idx, path)->Some_0;
        checks_decide(object.arn, object.role, hash, Coverage::Segment, input);
        checks_decide(object.arn, object.role, hash, Coverage::Composite, input);
        assert(answers(after.checks[k], object.arn, hash, records(hash, input)));
    }
    let streams = local_streams(idx, volume);
    if hash.predicate == "blockMapHash"@ && held.len() == streams.len() && (forall|j: int|
        0 <= j < held.len() ==> records_leaves(volume, streams[j], #[trigger] held[j])) {
        assert forall|j: int| 0 <= j < streams.len() implies records_leaves(
            volume,
            #[trigger] streams[j],
            held[j],
        ) by {
            assert(records_leaves(volume, streams[j], held[j]));
        }
        streams_are_composed(volume, streams, held, streams.len());
        assert(all_leaves(held).take(streams.len() as int) =~= all_leaves(held));
        let right = same_but_for_case(
            text::hex(block_map_digest(held, map, idx, path)),
            hash.hex,
        );
        assert(answers(after.checks[k], object.arn, hash, right));
    }
}

/// The properties of a map's digests are told apart.
proof fn predicates_differ()
    ensures
        "mapPointHash"@ != "mapIdxHash"@,
        "mapPointHash"@ != "mapPathHash"@,
        "mapPointHash"@ != "mapHash"@,
        "mapPointHash"@ != "blockMapHash"@,
        "mapIdxHash"@ != "mapPathHash"@,
        "mapIdxHash"@ != "mapHash"@,
        "mapIdxHash"@ != "blockMapHash"@,
        "mapPathHash"@ != "mapHash"@,
        "mapPathHash"@ != "blockMapHash"@,
        "mapHash"@ != "blockMapHash"@,
{
    reveal_strlit("mapPointHash");
    reveal_strlit("mapIdxHash");
    reveal_strlit("mapPathHash");
    reveal_strlit("mapHash");
    reveal_strlit("blockMapHash");
    assert("mapPointHash"@.len() == 12);
    assert("mapIdxHash"@.len() == 10);
    assert("mapPathHash"@.len() == 11);
    assert("mapPointHash"@[1] == 'a' && "blockMapHash"@[1] == 'l');
}

/// A map that records one value as the digest of its tree.
pub open spec fn map_recording(map: Seq<char>, value: Seq<u8>) -> ObjectView {
    ObjectView {
        arn: map,
        role: ObjectRole::MapObject,
        size: None,
        types: Seq::empty(),
        hashes: seq![
            StoredHashView {
                algorithm: HashAlgorithm::Sha512,
                hex: text::hex(value),
                predicate: "blockMapHash"@,
            },
        ],
    }
}

/// Whether verifying a volume's map alone finds a value to be the digest of its tree.
pub open spec fn attests<V: Volume>(part: Part<V>, value: Seq<u8>) -> bool {
    part.local_map matches Some(map) && map_checks(
        map_recording(map@, value),
        &part.volume,
    )[0].outcome == OutcomeView::Match
}

/// A volume's share in an image spread over several is what verifying the volume's map
/// alone compares: the same value, found to be right or not for the same recorded values.
pub proof fn stripes_are_their_maps<V: Volume>(
    part: Part<V>,
    object: ObjectView,
    value: Seq<u8>,
    i: int,
)
    requires
        part.local_map matches Some(map) && object.arn == map@,
        0 <= i < object.hashes.len(),
        object.hashes[i].predicate == "blockMapHash"@,
    ensures
        stripe_of(part) matches Ok(stripe) ==> {
            let c = map_checks(object, &part.volume)[i];
            &&& c.actual == text::hex(stripe.digest)
            &&& c.outcome == OutcomeView::Match <==> same_but_for_case(c.actual, c.expected)
            &&& c.expected == object.hashes[i].hex
        },
        attests(part, value) <==> stripe_of(part) is Ok && stripe_of(part)->Ok_0.digest == value,
{
    predicates_differ();
    let name = part.volume.name();
    let map = part.local_map->Some_0@;
    let recording = map_recording(map, value);
    match member_of(map, name, NameMapping::Escaped) {
        None => {},
        Some(base) => match map_segments(base, &part.volume) {
            Err(_) => {},
            Ok(segments) => {
                let c = map_check(recording, recording.hashes[0], segments, &part.volume);
                assert(map_checks(recording, &part.volume)[0] == c);
                match block_map_input(
                    &part.volume,
                    local_streams(segments.idx, &part.volume),
                    segments,
                ) {
                    Err(_) => {},
                    Ok(input) => {
                        spellings_tell_apart(sha512_digest(input), value);
                    },
                }
            },
        },
    }
}

/// A volume's share in an image is the SHA-512 over the digests of the chunk digests that
/// it holds and of its map's segments.
pub proof fn stripes_are_composed<V: Volume>(
    part: Part<V>,
    base: Seq<char>,
    map: Seq<u8>,
    idx: Seq<u8>,
    path: Seq<u8>,
    held: Seq<Seq<Option<Seq<u8>>>>,
)
    requires
        part.local_map matches Some(own) && member_of(
            own@,
            part.volume.name(),
            NameMapping::Escaped,
        ) == Some(base),
        holds_map(&part.volume, base, map, idx, path),
        held.len() == local_streams(idx, &part.volume).len(),
        forall|j: int|
            0 <= j < held.len() ==> records_leaves(
                &part.volume,
                local_streams(idx, &part.volume)[j],
                #[trigger] held[j],
            ),
    ensures
        attests(part, block_map_digest(held, map, idx, path)),
        stripe_of(part) is Ok,
        stripe_of(part)->Ok_0.digest == block_map_digest(held, map, idx, path),
        stripe_of(part)->Ok_0.path == part.path@,
        stripe_of(part)->Ok_0.map == part.local_map->Some_0@,
{
    let value = block_map_digest(held, map, idx, path);
    let own = part.local_map->Some_0@;
    let streams = local_streams(idx, &part.volume);
    map_is_read(&part.volume, base, map, idx, path);
    assert forall|j: int| 0 <= j < streams.len() implies records_leaves(
        &part.volume,
        #[trigger] streams[j],
        held[j],
    ) by {
        assert(records_leaves(&part.volume, streams[j], held[j]));
    }
    streams_are_composed(&part.volume, streams, held, streams.len());
    assert(all_leaves(held).take(streams.len() as int) =~= all_leaves(held));
    stripes_are_their_maps(part, map_recording(own, value), value, 0);
}

/// Whether some volumes are those that declare an image, in the order of the set.
pub open spec fn are_stripes<V: Volume>(parts: Seq<Part<V>>, arn: Seq<char>, members: Seq<int>) -> bool {
    &&& forall|i: int| 0 <= i < members.len() ==> 0 <= #[trigger] members[i] < parts.len()
    &&& forall|i: int, j: int|
        0 <= i < j < members.len() ==> #[trigger] members[i] < #[trigger] members[j]
    &&& forall|p: int|
        0 <= p < parts.len() ==> (members.contains(p) <==> object_of(
            #[trigger] parts[p].graph@,
            arn,
            "http://aff4.org/Schema#dataStream"@,
        ) is Some)
}

/// The volumes that declare an image are found, each once and in the order of the set.
proof fn stripes_are_found<V: Volume>(parts: Seq<Part<V>>, arn: Seq<char>, n: nat)
    requires
        n <= parts.len(),
    ensures
        ({
            let found = declaring_parts(parts, arn, n);
            &&& forall|i: int| 0 <= i < found.len() ==> 0 <= #[trigger] found[i] < n
            &&& forall|i: int, j: int|
                0 <= i < j < found.len() ==> #[trigger] found[i] < #[trigger] found[j]
            &&& forall|p: int|
                0 <= p < n ==> (found.contains(p) <==> object_of(
                    #[trigger] parts[p].graph@,
                    arn,
                    DATA_STREAM_IRI@,
                ) is Some)
        }),
    decreases n,
{
    if n > 0 {
        stripes_are_found(parts, arn, (n - 1) as nat);
        let found = declaring_parts(parts, arn, n);
        let fewer = declaring_parts(parts, arn, (n - 1) as nat);
        assert forall|p: int| 0 <= p < n implies (found.contains(p) <==> object_of(
            #[trigger] parts[p].graph@,
            arn,
            DATA_STREAM_IRI@,
        ) is Some) by {
            if p < n - 1 {
                assert(fewer.contains(p) <==> object_of(
                    parts[p].graph@,
                    arn,
                    DATA_STREAM_IRI@,
                ) is Some);
                if fewer.contains(p) {
                    let k = choose|k: int| 0 <= k < fewer.len() && fewer[k] == p;
                    assert(found[k] == p);
                }
                if found.contains(p) {
                    let k = choose|k: int| 0 <= k < found.len() && found[k] == p;
                    assert(k < fewer.len());
                    assert(fewer[k] == p);
                }
            } else {
                if object_of(parts[p].graph@, arn, DATA_STREAM_IRI@) is Some {
                    assert(found[found.len() - 1] == p);
                } else if found.contains(p) {
                    let k = choose|k: int| 0 <= k < found.len() && found[k] == p;
                    assert(fewer[k] == p);
                }
            }
        }
    }
}

/// Two ascending lists of the same numbers are one.
proof fn ascending_lists_agree(a: Seq<int>, b: Seq<int>)
    requires
        forall|i: int, j: int| 0 <= i < j < a.len() ==> #[trigger] a[i] < #[trigger] a[j],
        forall|i: int, j: int| 0 <= i < j < b.len() ==> #[trigger] b[i] < #[trigger] b[j],
        forall|x: int| a.contains(x) <==> b.contains(x),
    ensures
        a == b,
    decreases a.len(),
{
    if a.len() == 0 {
        if b.len() > 0 {
            assert(b.contains(b[0]));
            assert(a.contains(b[0]));
        }
        assert(a =~= b);
    } else {
        assert(a.contains(a.last()));
        assert(b.contains(a.last()));
        assert(b.len() > 0);
        assert(b.contains(b.last()));
        assert(a.contains(b.last()));
        let i = choose|i: int| 0 <= i < b.len() && b[i] == a.last();
        let j = choose|j: int| 0 <= j < a.len() && a[j] == b.last();
        assert(a.last() == b.last());
        let x = a.drop_last();
        let y = b.drop_last();
        assert forall|k: int| x.contains(k) <==> y.contains(k) by {
            if x.contains(k) {
                let m = choose|m: int| 0 <= m < x.len() && x[m] == k;
                assert(a[m] == k && a.contains(k));
                let q = choose|q: int| 0 <= q < b.len() && b[q] == k;
                assert(q < b.len() - 1);
                assert(y[q] == k);
            }
            if y.contains(k) {
                let m = choose|m: int| 0 <= m < y.len() && y[m] == k;
                assert(b[m] == k && b.contains(k));
                let q = choose|q: int| 0 <= q < a.len() && a[q] == k;
                assert(q < a.len() - 1);
                assert(x[q] == k);
            }
        }
        ascending_lists_agree(x, y);
        assert(a =~= x.push(a.last()));
        assert(b =~= y.push(b.last()));
    }
}

/// The volumes found are those that declare the image.
proof fn members_are_found<V: Volume>(parts: Seq<Part<V>>, arn: Seq<char>, members: Seq<int>)
    requires
        are_stripes(parts, arn, members),
    ensures
        declaring_parts(parts, arn, parts.len()) == members,
{
    let found = declaring_parts(parts, arn, parts.len());
    stripes_are_found(parts, arn, parts.len());
    assert forall|x: int| found.contains(x) <==> members.contains(x) by {
        if found.contains(x) {
            let k = choose|k: int| 0 <= k < found.len() && found[k] == x;
            assert(0 <= found[k] < parts.len());
            assert(object_of(parts[x].graph@, arn, DATA_STREAM_IRI@) is Some);
        }
        if members.contains(x) {
            let k = choose|k: int| 0 <= k < members.len() && members[k] == x;
            assert(0 <= members[k] < parts.len());
            assert(object_of(parts[x].graph@, arn, DATA_STREAM_IRI@) is Some);
        }
    }
    ascending_lists_agree(found, members);
}

/// The shares of volumes that attest values are those values.
proof fn shares_are_attested<V: Volume>(
    parts: Seq<Part<V>>,
    members: Seq<int>,
    values: Seq<Seq<u8>>,
    n: nat,
)
    requires
        n <= members.len(),
        values.len() == members.len(),
        forall|i: int| 0 <= i < members.len() ==> attests(parts[#[trigger] members[i]], values[i]),
    ensures
        stripes_of(parts, members, n) is Ok,
        ({
            let stripes = stripes_of(parts, members, n)->Ok_0;
            &&& stripes.len() == n
            &&& forall|i: int|
                0 <= i < n ==> (#[trigger] stripes[i]) == stripe_of(parts[members[i]])->Ok_0
                    && stripes[i].digest == values[i] && stripes[i].path
                    == parts[members[i]].path@ && stripes[i].map
                    == parts[members[i]].local_map->Some_0@
        }),
    decreases n,
{
    if n > 0 {
        shares_are_attested(parts, members, values, (n - 1) as nat);
        let part = parts[members[n - 1]];
        assert(attests(part, values[n - 1]));
        let own = part.local_map->Some_0@;
        stripes_are_their_maps(part, map_recording(own, values[n - 1]), values[n - 1], 0);
    }
}

/// What the volumes of an image are called: by the files they are.
pub open spec fn file_names<V: Volume>(parts: Seq<Part<V>>, members: Seq<int>) -> Seq<Seq<char>> {
    Seq::new(members.len(), |i: int| leaf(parts[members[i]].path@))
}

/// What the maps of an image's volumes are called.
pub open spec fn map_names<V: Volume>(parts: Seq<Part<V>>, members: Seq<int>) -> Seq<Seq<char>> {
    Seq::new(members.len(), |i: int| parts[members[i]].local_map->Some_0@)
}

/// What the first streams of an image's volumes are called.
pub open spec fn stream_names<V: Volume>(parts: Seq<Part<V>>, members: Seq<int>) -> Seq<Seq<char>> {
    Seq::new(members.len(), |i: int| stripe_of(parts[members[i]])->Ok_0.stream)
}

/// The root over some values in the order of some names: the SHA-512 of the values, one
/// after the other.
pub open spec fn root_over(values: Seq<Seq<u8>>, names: Seq<Seq<char>>) -> Seq<u8> {
    sha512_digest(
        bytes::flattened(
            Seq::new(values.len(), |i: int| values[order::order_of(names)[i]]),
        ),
    )
}

/// The root of an image spread over several volumes is answered for. Where each volume's
/// own value is found to be right, and the recorded root is the SHA-512 over these values
/// in the order of the files, of the maps or of the streams, the check matches; where it
/// matches, the root is one of these; and an intact set never yields a mismatch.
pub proof fn roots_are_answered<V: Volume>(
    report: ReportView,
    object: ObjectView,
    parts: Seq<Part<V>>,
    hash: StoredHashView,
    members: Seq<int>,
    values: Seq<Seq<u8>>,
)
    requires
        are_stripes(parts, object.arn, members),
        members.len() > 1,
        values.len() == members.len(),
        forall|i: int| 0 <= i < members.len() ==> attests(parts[#[trigger] members[i]], values[i]),
    ensures
        ({
            let after = root_report(report, object, parts, hash);
            let by_file = text::hex(root_over(values, file_names(parts, members)));
            let by_map = text::hex(root_over(values, map_names(parts, members)));
            let by_stream = text::hex(root_over(values, stream_names(parts, members)));
            let right = same_but_for_case(by_file, hash.hex) || same_but_for_case(by_map, hash.hex)
                || same_but_for_case(by_stream, hash.hex);
            let c = after.checks.last();
            &&& after.checks.len() == report.checks.len() + 1
            &&& report.checks.is_prefix_of(after.checks)
            &&& right ==> is_answered(report, after, object.arn, hash, true)
            &&& c.outcome == OutcomeView::Match <==> right
            &&& c.subject == object.arn && c.expected == hash.hex
            &&& !right && (forall|i: int|
                0 <= i < report.checks.len() && (#[trigger] report.checks[i]).predicate
                    == "blockMapHash"@ ==> report.checks[i].outcome == OutcomeView::Match)
                ==> c.outcome is NotVerifiable && c.outcome->cause == Declined::NotSupported
            &&& !right && (exists|i: int|
                0 <= i < report.checks.len() && (#[trigger] report.checks[i]).predicate
                    == "blockMapHash"@ && report.checks[i].outcome == OutcomeView::Mismatch)
                ==> is_answered(report, after, object.arn, hash, false)
        }),
{
    members_are_found(parts, object.arn, members);
    shares_are_attested(parts, members, values, members.len());
    let stripes = stripes_of(parts, members, members.len())->Ok_0;
    let after = root_report(report, object, parts, hash);
    roots_are_ordered(stripes, values, StripeOrderKey::Filename, file_names(parts, members));
    roots_are_ordered(stripes, values, StripeOrderKey::MapArn, map_names(parts, members));
    roots_are_ordered(stripes, values, StripeOrderKey::StreamArn, stream_names(parts, members));
    let k = report.checks.len() as int;
    assert(after.checks[k] == after.checks.last());
    if after.checks.last().outcome == OutcomeView::Match {
        assert(answers(after.checks[k], object.arn, hash, true));
    }
    if after.checks.last().outcome == OutcomeView::Mismatch {
        assert(answers(after.checks[k], object.arn, hash, false));
    }
}

/// The root of stripes in an order is that of their values in the order of the names.
proof fn roots_are_ordered(
    stripes: Seq<StripeView>,
    values: Seq<Seq<u8>>,
    by: StripeOrderKey,
    names: Seq<Seq<char>>,
)
    requires
        stripes.len() == values.len(),
        names.len() == values.len(),
        forall|i: int| 0 <= i < stripes.len() ==> (#[trigger] stripes[i]).digest == values[i],
        forall|i: int|
            0 <= i < stripes.len() ==> stripe_key(#[trigger] stripes[i], by) == names[i],
    ensures
        root_of(stripes, by) == text::hex(root_over(values, names)),
{
    assert(stripe_keys(stripes, by) =~= names);
    let at = order::order_of(names);
    order::sorting_sorts(names, names.len());
    assert(digests_in_order(stripes, at) =~= Seq::new(values.len(), |i: int| values[at[i]]));
}

/// The root of an image that one volume of a set declares is the volume's own value.
pub proof fn lone_roots_are_answered<V: Volume>(
    report: ReportView,
    object: ObjectView,
    parts: Seq<Part<V>>,
    hash: StoredHashView,
    member: int,
    value: Seq<u8>,
)
    requires
        are_stripes(parts, object.arn, seq![member]),
        attests(parts[member], value),
    ensures
        is_answered(
            report,
            root_report(report, object, parts, hash),
            object.arn,
            hash,
            same_but_for_case(text::hex(value), hash.hex),
        ),
{
    members_are_found(parts, object.arn, seq![member]);
    let own = parts[member].local_map->Some_0@;
    stripes_are_their_maps(parts[member], map_recording(own, value), value, 0);
    let after = root_report(report, object, parts, hash);
    let k = report.checks.len() as int;
    assert(answers(
        after.checks[k],
        object.arn,
        hash,
        same_but_for_case(text::hex(value), hash.hex),
    ));
}

} // verus!
