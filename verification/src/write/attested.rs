//! What a reader finds of streams and maps as a writer describes them, and what verifying
//! makes of the digests that it records of them.

use vstd::prelude::*;

use crate::arn::{member_of, NameMapping};
use crate::codec::{codec_iri, codec_of_iri, Codec};
use crate::error::{ErrorView, LocusView};
use crate::hash::{computable, digests_under, sha512_digest, DigestView};
use crate::lexicon::{aff4l_iri, standard_iri, Lexicon};
use crate::model::HashAlgorithm;
use crate::rdf::{object_of, statement, type_predicate, typed_as, TermView, TripleView};
use crate::stream::{stream_declared, StreamView};
use crate::text;
use crate::verify::composed::{map_digests_are_answered, map_input};
use crate::verify::container::ObjectView;
use crate::verify::maps::{map_checks, IDX_SEGMENT, MAP_PATH_SEGMENT, MAP_SEGMENT};
use crate::verify::report::ReportView;
use crate::verify::sound::{is_answered, records, stream_digests_are_answered};
use crate::verify::streams::{stream_outcome, VerifyOptions};
use crate::volume::Volume;
use crate::write::container_writer::{MemberView, WriterView};
use crate::write::logical::read_back::{
    datatype_of, datatypes_tell_apart, digests_are_stated, hash_term, stated_digest,
};
use crate::write::logical::stated::{
    first_value_is_read, grew_without, other_terms_keep, stated, stated_in_order, unnamed_is_unsaid,
};
use crate::write::map_writer::{
    entries_bytes, entry_bytes, map_written, own_written, run_bytes, segments_written,
    sha512_triple, shared_written, slices_written, target_lines, target_triples, MapEntry,
};
use crate::write::stream_writer::{
    block_digests, block_suffix, block_triples, described, digest_triples, holds, layout_triples, serves,
    stream_of, stream_written, written_stream_reads_back, BuilderView, StreamOptions,
};

verus! {

/// What one more statement says.
pub proof fn said_with_one_more(
    g: Seq<TripleView>,
    t: TripleView,
    subject: Seq<char>,
    p: Seq<char>,
)
    ensures
        stated(g.push(t), subject, p) == (if t.subject == subject && t.predicate == p {
            stated(g, subject, p).push(t.object)
        } else {
            stated(g, subject, p)
        }),
{
    assert(g.push(t).drop_last() =~= g);
}

/// The terms under which a map's digests are stated.
pub open spec fn map_term(property: Seq<char>) -> Seq<char> {
    "http://aff4.org/Schema#"@ + property
}

/// Whether a property is one under which a map records a digest of its segments.
pub open spec fn is_map_property(property: Seq<char>) -> bool {
    property == "mapPointHash"@ || property == "mapIdxHash"@ || property == "mapPathHash"@
        || property == "mapHash"@
}

/// The properties of maps, each told from every other term.
proof fn map_terms_stand_apart(property: Seq<char>, https: bool)
    requires
        is_map_property(property),
    ensures
        map_term(property) == standard_iri(property),
        "mapPointHash"@ != "mapIdxHash"@,
        "mapPointHash"@ != "mapPathHash"@,
        "mapPointHash"@ != "mapHash"@,
        "mapIdxHash"@ != "mapPathHash"@,
        "mapIdxHash"@ != "mapHash"@,
        "mapPathHash"@ != "mapHash"@,
        standard_iri("mapPointHash"@) == map_term(property) ==> property == "mapPointHash"@,
        standard_iri("mapIdxHash"@) == map_term(property) ==> property == "mapIdxHash"@,
        standard_iri("mapPathHash"@) == map_term(property) ==> property == "mapPathHash"@,
        standard_iri("mapHash"@) == map_term(property) ==> property == "mapHash"@,
        map_term(property) != type_predicate(),
        map_term(property) != standard_iri("size"@),
        map_term(property) != standard_iri("stored"@),
        map_term(property) != standard_iri("target"@),
        map_term(property) != standard_iri("hash"@),
        map_term(property) != standard_iri("dependentStream"@),
        map_term(property) != standard_iri("dataStream"@),
        map_term(property) != standard_iri("blockMapHash"@),
        map_term(property) != aff4l_iri("dataStream"@, https),
{
    reveal_strlit("http://aff4.org/Schema#");
    reveal_strlit("http://aff4.org/Schema/AFF4-L#");
    reveal_strlit("https://aff4.org/Schema/AFF4-L#");
    reveal_strlit("http://www.w3.org/1999/02/22-rdf-syntax-ns#type");
    reveal_strlit("mapPointHash");
    reveal_strlit("mapIdxHash");
    reveal_strlit("mapPathHash");
    reveal_strlit("mapHash");
    reveal_strlit("size");
    reveal_strlit("stored");
    reveal_strlit("target");
    reveal_strlit("hash");
    reveal_strlit("dependentStream");
    reveal_strlit("dataStream");
    reveal_strlit("blockMapHash");
    assert("mapPointHash"@.len() == 12);
    assert("mapIdxHash"@.len() == 10);
    assert("mapPathHash"@.len() == 11);
    assert("mapHash"@.len() == 7);
    let p = map_term(property);
    assert(p[23] == 'm');
    assert(p[4] == ':' && p[7] == 'a' && p[22] == '#');
    assert(p.skip(23) =~= property);
    assert(standard_iri("mapPointHash"@).skip(23) =~= "mapPointHash"@);
    assert(standard_iri("mapIdxHash"@).skip(23) =~= "mapIdxHash"@);
    assert(standard_iri("mapPathHash"@).skip(23) =~= "mapPathHash"@);
    assert(standard_iri("mapHash"@).skip(23) =~= "mapHash"@);
    assert(standard_iri("size"@)[23] == 's');
    assert(standard_iri("stored"@)[23] == 's');
    assert(standard_iri("target"@)[23] == 't');
    assert(standard_iri("hash"@)[23] == 'h');
    assert(standard_iri("dependentStream"@)[23] == 'd');
    assert(standard_iri("dataStream"@)[23] == 'd');
    assert(standard_iri("blockMapHash"@)[23] == 'b');
    assert(aff4l_iri("dataStream"@, true)[4] == 's' || aff4l_iri("dataStream"@, true)[23] == 'd');
    assert(aff4l_iri("dataStream"@, false)[22] == '/' || aff4l_iri("dataStream"@, false)[23]
        == 'd');
}

/// Whether a writer, since before, has described a map by its segments: the three are
/// members of the volume, and under each property of a map one digest was stated, the
/// SHA-512 of what the property is a digest of.
pub open spec fn tells_map(
    before: WriterView,
    after: WriterView,
    base: Seq<char>,
    arn: Seq<char>,
    map: Seq<u8>,
    idx: Seq<u8>,
) -> bool {
    &&& before.members.is_prefix_of(after.members)
    &&& after.members.contains(MemberView { name: base + "/map"@, data: map, deflated: false })
    &&& after.members.contains(MemberView { name: base + "/idx"@, data: idx, deflated: false })
    &&& after.members.contains(
        MemberView { name: base + "/mapPath"@, data: Seq::empty(), deflated: false },
    )
    &&& forall|property: Seq<char>| #[trigger]
        is_map_property(property) ==> stated(after.graph, arn, map_term(property)) == stated(
            before.graph,
            arn,
            map_term(property),
        ).push(
            TermView::Literal(
                text::hex(
                    sha512_digest(map_input(property, map, idx, Seq::empty())->Some_0),
                ),
                "http://aff4.org/Schema#SHA512"@,
            ),
        )
}

/// Writing a map's segments describes it.
proof fn segments_tell_map(
    w: WriterView,
    base: Seq<char>,
    arn: Seq<char>,
    map: Seq<u8>,
    idx: Seq<u8>,
)
    ensures
        tells_map(
            w,
            segments_written(w, base, arn, map, idx, Seq::empty()),
            base,
            arn,
            map,
            idx,
        ),
{
    let after = segments_written(w, base, arn, map, idx, Seq::empty());
    let n = w.members.len() as int;
    assert(base + "/map"@ =~= base + "/"@ + MAP_SEGMENT@ && base + "/idx"@ =~= base + "/"@
        + IDX_SEGMENT@ && base + "/mapPath"@ =~= base + "/"@ + MAP_PATH_SEGMENT@) by {
        reveal_strlit("/");
        reveal_strlit("map");
        reveal_strlit("idx");
        reveal_strlit("mapPath");
        reveal_strlit("/map");
        reveal_strlit("/idx");
        reveal_strlit("/mapPath");
        assert("/map"@ =~= "/"@ + MAP_SEGMENT@);
        assert("/idx"@ =~= "/"@ + IDX_SEGMENT@);
        assert("/mapPath"@ =~= "/"@ + MAP_PATH_SEGMENT@);
    }
    assert(after.members[n].data == map);
    assert(after.members[n + 1].data == idx);
    assert(after.members[n + 2].data == Seq::<u8>::empty());
    assert("http://aff4.org/Schema#SHA512"@ == standard_iri("SHA512"@)) by {
        reveal_strlit("http://aff4.org/Schema#");
        reveal_strlit("SHA512");
        reveal_strlit("http://aff4.org/Schema#SHA512");
        assert("http://aff4.org/Schema#SHA512"@ =~= standard_iri("SHA512"@));
    }
    let path = Seq::<u8>::empty();
    let a = sha512_triple(arn, "mapPointHash"@, sha512_digest(map));
    let b = sha512_triple(arn, "mapIdxHash"@, sha512_digest(idx));
    let c = sha512_triple(arn, "mapPathHash"@, sha512_digest(path));
    let d = sha512_triple(arn, "mapHash"@, sha512_digest(map + idx + path));
    let g = w.graph;
    assert(after.graph == g.push(a).push(b).push(c).push(d));
    assert forall|property: Seq<char>| #[trigger] is_map_property(property) implies stated(
        after.graph,
        arn,
        map_term(property),
    ) == stated(w.graph, arn, map_term(property)).push(
        TermView::Literal(
            text::hex(sha512_digest(map_input(property, map, idx, path)->Some_0)),
            "http://aff4.org/Schema#SHA512"@,
        ),
    ) by {
        let p = map_term(property);
        map_terms_stand_apart(property, false);
        said_with_one_more(g, a, arn, p);
        said_with_one_more(g.push(a), b, arn, p);
        said_with_one_more(g.push(a).push(b), c, arn, p);
        said_with_one_more(g.push(a).push(b).push(c), d, arn, p);
    }
}

/// Statements under other terms leave a map described.
proof fn map_stays_told(
    before: WriterView,
    between: WriterView,
    after: WriterView,
    base: Seq<char>,
    arn: Seq<char>,
    map: Seq<u8>,
    idx: Seq<u8>,
)
    requires
        tells_map(before, between, base, arn, map, idx),
        between.members == after.members,
        forall|property: Seq<char>| #[trigger]
            is_map_property(property) ==> grew_without(
                between.graph,
                after.graph,
                map_term(property),
            ),
    ensures
        tells_map(before, after, base, arn, map, idx),
{
    assert forall|property: Seq<char>| #[trigger] is_map_property(property) implies stated(
        after.graph,
        arn,
        map_term(property),
    ) == stated(between.graph, arn, map_term(property)) by {
        other_terms_keep(between.graph, after.graph, arn, map_term(property));
    }
}

/// Naming a map's targets states nothing under the properties of its digests.
proof fn targets_say_little(map_arn: Seq<char>, targets: Seq<Seq<char>>, p: Seq<char>, i: int)
    requires
        p != standard_iri("dependentStream"@),
        p != standard_iri("target"@),
        0 <= i < target_triples(map_arn, targets).len(),
    ensures
        target_triples(map_arn, targets)[i].predicate != p,
    decreases targets.len(),
{
    if targets.len() > 0 {
        let before = target_triples(map_arn, targets.drop_last());
        if i < before.len() {
            targets_say_little(map_arn, targets.drop_last(), p, i);
        }
    }
}

/// Writing a map describes it by its entries and its targets.
pub proof fn maps_are_told(
    w: WriterView,
    base: Seq<char>,
    map_arn: Seq<char>,
    image_arn: Seq<char>,
    entries: Seq<MapEntry>,
    targets: Seq<Seq<char>>,
    size: u64,
    blocks: Seq<(HashAlgorithm, Seq<char>)>,
)
    ensures
        tells_map(
            w,
            map_written(w, base, map_arn, image_arn, entries, targets, size, blocks),
            base,
            map_arn,
            entries_bytes(entries),
            target_lines(targets),
        ),
        tells_map(
            w,
            slices_written(w, base, map_arn, entries, targets),
            base,
            map_arn,
            entries_bytes(entries),
            target_lines(targets),
        ),
{
    let map = entries_bytes(entries);
    let idx = target_lines(targets);
    let between = segments_written(w, base, map_arn, map, idx, Seq::empty());
    segments_tell_map(w, base, map_arn, map, idx);
    let after = map_written(w, base, map_arn, image_arn, entries, targets, size, blocks);
    let sliced = slices_written(w, base, map_arn, entries, targets);
    let named = target_triples(map_arn, targets);
    assert forall|property: Seq<char>| #[trigger] is_map_property(property) implies grew_without(
        between.graph,
        after.graph,
        map_term(property),
    ) && grew_without(between.graph, sliced.graph, map_term(property)) by {
        let p = map_term(property);
        map_terms_stand_apart(property, false);
        let n = between.graph.len() as int;
        assert forall|i: int| n <= i < after.graph.len() implies (
        #[trigger] after.graph[i]).predicate != p by {
            let j = i - n - 2;
            if 0 <= j < named.len() {
                assert(after.graph[i] == named[j]);
                targets_say_little(map_arn, targets, p, j);
            }
        }
    }
    map_stays_told(w, between, after, base, map_arn, map, idx);
    map_stays_told(w, between, sliced, base, map_arn, map, idx);
}

/// The entry of a file that is one run of a stream: all of it, or none where it is empty.
pub open spec fn single_run(size: u64, target_offset: u64) -> Seq<MapEntry> {
    if size > 0 {
        seq![MapEntry { mapped_offset: 0, length: size, target_offset, target_id: 0 }]
    } else {
        Seq::empty()
    }
}

/// Writing the map of a file that is one run of a stream describes it by that run.
pub proof fn runs_are_told(
    w: WriterView,
    base: Seq<char>,
    map_arn: Seq<char>,
    separate: bool,
    file_arn: Seq<char>,
    stream_arn: Seq<char>,
    target_offset: u64,
    size: u64,
    blocks: Seq<(HashAlgorithm, Seq<char>)>,
)
    ensures
        tells_map(
            w,
            shared_written(w, base, map_arn, stream_arn, target_offset, size),
            base,
            map_arn,
            entries_bytes(single_run(size, target_offset)),
            target_lines(seq![stream_arn]),
        ),
        tells_map(
            w,
            own_written(w, base, map_arn, separate, file_arn, stream_arn, size, blocks),
            base,
            map_arn,
            entries_bytes(single_run(size, 0)),
            target_lines(seq![stream_arn]),
        ),
{
    let idx = target_lines(seq![stream_arn]);
    run_is_spelled(size, target_offset);
    run_is_spelled(size, 0);
    let a = run_bytes(size, target_offset);
    let b = run_bytes(size, 0);
    let first = segments_written(w, base, map_arn, a, idx, Seq::empty());
    let second = segments_written(w, base, map_arn, b, idx, Seq::empty());
    segments_tell_map(w, base, map_arn, a, idx);
    segments_tell_map(w, base, map_arn, b, idx);
    let shared = shared_written(w, base, map_arn, stream_arn, target_offset, size);
    let own = own_written(w, base, map_arn, separate, file_arn, stream_arn, size, blocks);
    assert forall|property: Seq<char>| #[trigger] is_map_property(property) implies grew_without(
        first.graph,
        shared.graph,
        map_term(property),
    ) && grew_without(second.graph, own.graph, map_term(property)) by {
        map_terms_stand_apart(property, false);
    }
    map_stays_told(w, first, shared, base, map_arn, a, idx);
    map_stays_told(w, second, own, base, map_arn, b, idx);
}

/// One entry is spelled by itself.
proof fn run_is_spelled(size: u64, target_offset: u64)
    ensures
        run_bytes(size, target_offset) == entries_bytes(single_run(size, target_offset)),
{
    if size > 0 {
        let e = MapEntry { mapped_offset: 0, length: size, target_offset, target_id: 0 };
        assert(seq![e].drop_last() =~= Seq::empty());
        assert(seq![e].last() == e);
        assert(entries_bytes(seq![e].drop_last()) =~= Seq::empty());
        assert(entries_bytes(seq![e]) =~= entry_bytes(e));
    }
}

/// A map that nothing was said of before it was described verifies: each digest that is
/// stated of it under one of its properties matches.
pub proof fn told_maps_verify<V: Volume>(
    before: WriterView,
    after: WriterView,
    base: Seq<char>,
    map: Seq<u8>,
    idx: Seq<u8>,
    report: ReportView,
    object: ObjectView,
    volume: &V,
    i: int,
)
    requires
        tells_map(before, after, base, object.arn, map, idx),
        forall|k: int|
            0 <= k < before.graph.len() ==> (#[trigger] before.graph[k]).subject != object.arn,
        serves(volume, after.members),
        member_of(object.arn, volume.name(), NameMapping::Escaped) == Some(base),
        0 <= i < object.hashes.len(),
        is_map_property(object.hashes[i].predicate),
        stated(after.graph, object.arn, map_term(object.hashes[i].predicate)).contains(
            TermView::Literal(
                object.hashes[i].hex,
                datatype_of(object.hashes[i].algorithm),
            ),
        ),
    ensures
        is_answered(
            report,
            report.all_checks(map_checks(object, volume)),
            object.arn,
            object.hashes[i],
            true,
        ),
{
    let hash = object.hashes[i];
    let p = map_term(hash.predicate);
    let path = Seq::<u8>::empty();
    unnamed_is_unsaid(before.graph, object.arn, p);
    datatypes_tell_apart(hash.algorithm, HashAlgorithm::Sha512);
    member_is_served(volume, after.members, base + "/map"@, map);
    member_is_served(volume, after.members, base + "/idx"@, idx);
    member_is_served(volume, after.members, base + "/mapPath"@, path);
    map_terms_stand_apart(hash.predicate, false);
    map_digests_are_answered(
        report,
        object,
        volume,
        base,
        map,
        idx,
        path,
        Seq::empty(),
        i,
    );
    let said = stated(after.graph, object.arn, p);
    assert(said.len() == 1);
    assert(said[0] == TermView::Literal(hash.hex, datatype_of(hash.algorithm)));
    assert(records(hash, map_input(hash.predicate, map, idx, path)->Some_0));
}

/// A volume that serves members gives back what one of them holds.
proof fn member_is_served<V: Volume>(
    volume: &V,
    members: Seq<MemberView>,
    name: Seq<char>,
    data: Seq<u8>,
)
    requires
        serves(volume, members),
        members.contains(MemberView { name, data, deflated: false }),
    ensures
        volume.outcome(name) == Ok::<Seq<u8>, ErrorView>(data),
{
    let k = choose|k: int|
        0 <= k < members.len() && members[k] == (MemberView { name, data, deflated: false });
    assert(members[k].name == name);
}

/// The name of a codec names that codec.
pub proof fn codecs_are_named(c: Codec)
    ensures
        codec_of_iri(codec_iri(c)) == Some(c),
{
    reveal_strlit("http://code.google.com/p/snappy/");
    reveal_strlit("https://code.google.com/p/lz4/");
    reveal_strlit("https://www.ietf.org/rfc/rfc1950.txt");
    reveal_strlit("http://aff4.org/Schema#NullCompressor");
    reveal_strlit("https://tools.ietf.org/html/rfc1951");
    reveal_strlit("https://github.com/google/snappy");
    assert("http://code.google.com/p/snappy/"@.len() == 32);
    assert("https://code.google.com/p/lz4/"@.len() == 30);
    assert("https://www.ietf.org/rfc/rfc1950.txt"@.len() == 36);
    assert("http://aff4.org/Schema#NullCompressor"@.len() == 37);
    assert("https://tools.ietf.org/html/rfc1951"@.len() == 35);
    assert("https://github.com/google/snappy"@.len() == 32);
    assert("http://code.google.com/p/snappy/"@[4] == ':');
    assert("https://github.com/google/snappy"@[4] == 's');
}

/// The terms under which a stream's layout is stated.
pub proof fn layout_terms_stand_apart()
    ensures
        standard_iri("size"@) != standard_iri("chunkSize"@),
        standard_iri("size"@) != standard_iri("chunksInSegment"@),
        standard_iri("size"@) != standard_iri("compressionMethod"@),
        standard_iri("size"@) != standard_iri("stored"@),
        standard_iri("size"@) != standard_iri("hash"@),
        standard_iri("size"@) != type_predicate(),
        standard_iri("chunkSize"@) != standard_iri("chunksInSegment"@),
        standard_iri("chunkSize"@) != standard_iri("compressionMethod"@),
        standard_iri("chunkSize"@) != standard_iri("stored"@),
        standard_iri("chunkSize"@) != standard_iri("hash"@),
        standard_iri("chunkSize"@) != type_predicate(),
        standard_iri("chunksInSegment"@) != standard_iri("compressionMethod"@),
        standard_iri("chunksInSegment"@) != standard_iri("stored"@),
        standard_iri("chunksInSegment"@) != standard_iri("hash"@),
        standard_iri("chunksInSegment"@) != type_predicate(),
        standard_iri("compressionMethod"@) != standard_iri("stored"@),
        standard_iri("compressionMethod"@) != standard_iri("hash"@),
        standard_iri("compressionMethod"@) != type_predicate(),
        standard_iri("stored"@) != standard_iri("hash"@),
        standard_iri("stored"@) != type_predicate(),
        standard_iri("hash"@) != type_predicate(),
        standard_iri("hash"@) == hash_term(),
{
    reveal_strlit("http://aff4.org/Schema#");
    reveal_strlit("http://aff4.org/Schema#hash");
    reveal_strlit("http://www.w3.org/1999/02/22-rdf-syntax-ns#type");
    reveal_strlit("size");
    reveal_strlit("chunkSize");
    reveal_strlit("chunksInSegment");
    reveal_strlit("compressionMethod");
    reveal_strlit("stored");
    reveal_strlit("hash");
    assert(standard_iri("size"@).len() == 27 && standard_iri("size"@)[23] == 's');
    assert(standard_iri("hash"@).len() == 27 && standard_iri("hash"@)[23] == 'h');
    assert(standard_iri("chunkSize"@).len() == 32);
    assert(standard_iri("chunksInSegment"@).len() == 38);
    assert(standard_iri("compressionMethod"@).len() == 40);
    assert(standard_iri("stored"@).len() == 29);
    assert(type_predicate().len() == 47);
    assert(standard_iri("hash"@) =~= hash_term());
}

/// What the statements about a stream's layout say of it under a term.
pub proof fn layout_in_turn(
    arn: Seq<char>,
    volume: Seq<char>,
    o: StreamOptions,
    size: nat,
    p: Seq<char>,
)
    ensures
        p == standard_iri("size"@) ==> stated(layout_triples(arn, volume, o, size), arn, p)
            == seq![
            TermView::Literal(
                text::decimal(size),
                "http://www.w3.org/2001/XMLSchema#long"@,
            ),
        ],
        p == standard_iri("chunkSize"@) ==> stated(layout_triples(arn, volume, o, size), arn, p)
            == seq![
            TermView::Literal(
                text::decimal(o.chunk_size as nat),
                "http://www.w3.org/2001/XMLSchema#long"@,
            ),
        ],
        p == standard_iri("chunksInSegment"@) ==> stated(
            layout_triples(arn, volume, o, size),
            arn,
            p,
        ) == seq![
            TermView::Literal(
                text::decimal(o.chunks_per_segment as nat),
                "http://www.w3.org/2001/XMLSchema#long"@,
            ),
        ],
        p == standard_iri("compressionMethod"@) ==> stated(
            layout_triples(arn, volume, o, size),
            arn,
            p,
        ) == seq![TermView::Iri(codec_iri(o.codec))],
        p == standard_iri("stored"@) ==> stated(layout_triples(arn, volume, o, size), arn, p)
            == seq![TermView::Iri(volume)],
        p == type_predicate() ==> stated(layout_triples(arn, volume, o, size), arn, p) == seq![
            TermView::Iri(standard_iri("ImageStream"@)),
        ],
        p == standard_iri("hash"@) ==> stated(layout_triples(arn, volume, o, size), arn, p)
            == Seq::<TermView>::empty(),
{
    layout_terms_stand_apart();
    let l = layout_triples(arn, volume, o, size);
    let e = Seq::<TripleView>::empty();
    said_with_one_more(e, l[0], arn, p);
    said_with_one_more(e.push(l[0]), l[1], arn, p);
    said_with_one_more(e.push(l[0]).push(l[1]), l[2], arn, p);
    said_with_one_more(e.push(l[0]).push(l[1]).push(l[2]), l[3], arn, p);
    said_with_one_more(e.push(l[0]).push(l[1]).push(l[2]).push(l[3]), l[4], arn, p);
    said_with_one_more(
        e.push(l[0]).push(l[1]).push(l[2]).push(l[3]).push(l[4]),
        l[5],
        arn,
        p,
    );
    assert(l =~= e.push(l[0]).push(l[1]).push(l[2]).push(l[3]).push(l[4]).push(l[5]));
    assert(stated(e, arn, p) =~= Seq::empty());
}

/// The digests of chunk digests are stated of other resources, and under two terms.
proof fn blocks_in_turn(
    arn: Seq<char>,
    blocks: Seq<(HashAlgorithm, Seq<char>)>,
    p: Seq<char>,
)
    ensures
        stated(block_triples(arn, blocks), arn, p) == Seq::<TermView>::empty(),
    decreases blocks.len(),
{
    if blocks.len() > 0 {
        blocks_in_turn(arn, blocks.drop_last(), p);
        let (a, hex) = blocks.last();
        let subject = arn + "/blockhash."@ + block_suffix(a);
        assert(subject.len() > arn.len()) by {
            reveal_strlit("/blockhash.");
        }
        let before = block_triples(arn, blocks.drop_last());
        let t = typed_as(subject, standard_iri("BlockHashes"@));
        let u = statement(
            subject,
            standard_iri("hash"@),
            TermView::Literal(hex, standard_iri("SHA512"@)),
        );
        said_with_one_more(before, t, arn, p);
        said_with_one_more(before.push(t), u, arn, p);
    }
}

/// What statements of digests say under other terms.
proof fn digests_say_little(
    arn: Seq<char>,
    digests: Seq<DigestView>,
    p: Seq<char>,
    n: nat,
)
    requires
        n <= digests.len(),
        p != standard_iri("hash"@),
    ensures
        stated(digest_triples(arn, digests).take(n as int), arn, p) == Seq::<TermView>::empty(),
    decreases n,
{
    let all = digest_triples(arn, digests);
    if n > 0 {
        digests_say_little(arn, digests, p, (n - 1) as nat);
        assert(all.take(n as int).drop_last() =~= all.take(n - 1));
        assert(all.take(n as int).last() == all[n - 1]);
    }
}

/// What writing a stream says of it under a term.
pub proof fn stream_in_turn(
    w: WriterView,
    begun: BuilderView,
    data: Seq<u8>,
    algorithms: Seq<HashAlgorithm>,
    p: Seq<char>,
)
    ensures
        ({
            let g = stream_written(w, begun, data, algorithms).graph;
            let said = stated(w.graph, begun.arn, p) + stated(
                layout_triples(begun.arn, w.volume, begun.options, data.len()),
                begun.arn,
                p,
            );
            &&& p != standard_iri("hash"@) ==> stated(g, begun.arn, p) == said
            &&& p == standard_iri("hash"@) ==> stated(g, begun.arn, p) == said + stated(
                digest_triples(begun.arn, digests_under(algorithms, data)),
                begun.arn,
                p,
            )
        }),
{
    let arn = begun.arn;
    let layout = layout_triples(arn, w.volume, begun.options, data.len());
    let digests = digests_under(algorithms, data);
    let listed = digest_triples(arn, digests);
    let blocks = block_triples(arn, block_digests(begun.options, data));
    stated_in_order(w.graph, layout + listed + blocks, arn, p);
    stated_in_order(layout + listed, blocks, arn, p);
    stated_in_order(layout, listed, arn, p);
    blocks_in_turn(arn, block_digests(begun.options, data), p);
    if p != standard_iri("hash"@) {
        digests_say_little(arn, digests, p, digests.len());
        assert(listed.take(digests.len() as int) =~= listed);
    }
    assert(stated(layout + listed + blocks, arn, p) =~= stated(layout, arn, p) + stated(
        listed,
        arn,
        p,
    ));
    assert(stated(stream_written(w, begun, data, algorithms).graph, arn, p) =~= stated(
        w.graph,
        arn,
        p,
    ) + (stated(layout, arn, p) + stated(listed, arn, p)));
}

/// Whether a lexicon is that of the standard, spelled out.
pub open spec fn is_standard(lexicon: Lexicon) -> bool {
    &&& lexicon.namespace@ == "http://aff4.org/Schema#"@
    &&& lexicon.size@ == "size"@
    &&& lexicon.chunk_size@ == "chunkSize"@
    &&& lexicon.chunks_in_segment@ == "chunksInSegment"@
    &&& lexicon.compression_method@ == "compressionMethod"@
}

/// Whether nothing was said of a resource that a stream's description says.
pub open spec fn is_undescribed(g: Seq<TripleView>, arn: Seq<char>) -> bool {
    &&& stated(g, arn, "http://aff4.org/Schema#size"@).len() == 0
    &&& stated(g, arn, "http://aff4.org/Schema#chunkSize"@).len() == 0
    &&& stated(g, arn, "http://aff4.org/Schema#chunksInSegment"@).len() == 0
    &&& stated(g, arn, "http://aff4.org/Schema#compressionMethod"@).len() == 0
    &&& stated(g, arn, "http://aff4.org/Schema#hash"@).len() == 0
}

/// The terms of a stream's description, spelled out.
pub proof fn layout_terms_are_spelled()
    ensures
        standard_iri("size"@) == "http://aff4.org/Schema#size"@,
        standard_iri("chunkSize"@) == "http://aff4.org/Schema#chunkSize"@,
        standard_iri("chunksInSegment"@) == "http://aff4.org/Schema#chunksInSegment"@,
        standard_iri("compressionMethod"@) == "http://aff4.org/Schema#compressionMethod"@,
        standard_iri("hash"@) == "http://aff4.org/Schema#hash"@,
{
    reveal_strlit("http://aff4.org/Schema#");
    reveal_strlit("size");
    reveal_strlit("chunkSize");
    reveal_strlit("chunksInSegment");
    reveal_strlit("compressionMethod");
    reveal_strlit("hash");
    reveal_strlit("http://aff4.org/Schema#size");
    reveal_strlit("http://aff4.org/Schema#chunkSize");
    reveal_strlit("http://aff4.org/Schema#chunksInSegment");
    reveal_strlit("http://aff4.org/Schema#compressionMethod");
    reveal_strlit("http://aff4.org/Schema#hash");
    assert(standard_iri("size"@) =~= "http://aff4.org/Schema#size"@);
    assert(standard_iri("chunkSize"@) =~= "http://aff4.org/Schema#chunkSize"@);
    assert(standard_iri("chunksInSegment"@) =~= "http://aff4.org/Schema#chunksInSegment"@);
    assert(standard_iri("compressionMethod"@) =~= "http://aff4.org/Schema#compressionMethod"@);
    assert(standard_iri("hash"@) =~= "http://aff4.org/Schema#hash"@);
}

/// A stream that was not described before it was written is declared as it was written: a
/// reader finds its length, its chunk length, its chunks per bevy and its codec.
pub proof fn written_streams_are_declared(
    w: WriterView,
    begun: BuilderView,
    data: Seq<u8>,
    algorithms: Seq<HashAlgorithm>,
    lexicon: Lexicon,
    at: LocusView,
)
    requires
        is_undescribed(w.graph, begun.arn),
        is_standard(lexicon),
        begun.options.chunk_size > 0,
        begun.options.chunks_per_segment > 0,
        data.len() <= u64::MAX,
    ensures
        stream_declared(
            begun.arn,
            stream_written(w, begun, data, algorithms).graph,
            lexicon,
            at,
        ) == Ok::<StreamView, ErrorView>(
            StreamView {
                arn: begun.arn,
                size: data.len() as u64,
                chunk_size: begun.options.chunk_size,
                chunks_in_segment: begun.options.chunks_per_segment,
                codec: begun.options.codec,
            },
        ),
{
    let arn = begun.arn;
    let o = begun.options;
    let g = stream_written(w, begun, data, algorithms).graph;
    layout_terms_stand_apart();
    let a = standard_iri("size"@);
    let b = standard_iri("chunkSize"@);
    let c = standard_iri("chunksInSegment"@);
    let d = standard_iri("compressionMethod"@);
    layout_terms_are_spelled();
    stream_in_turn(w, begun, data, algorithms, a);
    stream_in_turn(w, begun, data, algorithms, b);
    stream_in_turn(w, begun, data, algorithms, c);
    stream_in_turn(w, begun, data, algorithms, d);
    layout_in_turn(arn, w.volume, o, data.len(), a);
    layout_in_turn(arn, w.volume, o, data.len(), b);
    layout_in_turn(arn, w.volume, o, data.len(), c);
    layout_in_turn(arn, w.volume, o, data.len(), d);
    first_value_is_read(g, arn, a);
    first_value_is_read(g, arn, b);
    first_value_is_read(g, arn, c);
    first_value_is_read(g, arn, d);
    text::numbers_come_back(data.len(), u64::MAX as nat);
    text::numbers_come_back(o.chunk_size as nat, u64::MAX as nat);
    text::numbers_come_back(o.chunks_per_segment as nat, u64::MAX as nat);
    codecs_are_named(o.codec);
    assert(object_of(g, arn, a) == Some(
        TermView::Literal(text::decimal(data.len()), "http://www.w3.org/2001/XMLSchema#long"@),
    ));
    assert(object_of(g, arn, b) == Some(
        TermView::Literal(
            text::decimal(o.chunk_size as nat),
            "http://www.w3.org/2001/XMLSchema#long"@,
        ),
    ));
    assert(object_of(g, arn, c) == Some(
        TermView::Literal(
            text::decimal(o.chunks_per_segment as nat),
            "http://www.w3.org/2001/XMLSchema#long"@,
        ),
    ));
    assert(object_of(g, arn, d) == Some(TermView::Iri(codec_iri(o.codec))));
}

/// A stream that was not described before it was written verifies: each digest that is
/// stated of it matches, and is of an algorithm that was asked for.
pub proof fn written_streams_verify<V: Volume>(
    w: WriterView,
    begun: BuilderView,
    data: Seq<u8>,
    algorithms: Seq<HashAlgorithm>,
    lexicon: Lexicon,
    locus: LocusView,
    report: ReportView,
    object: ObjectView,
    volume: &V,
    options: VerifyOptions,
    i: int,
)
    requires
        is_undescribed(w.graph, begun.arn),
        is_standard(lexicon),
        holds(volume, stream_of(begun, data)),
        object.arn == begun.arn,
        0 <= i < object.hashes.len(),
        object.hashes[i].predicate == "hash"@,
        stated(
            stream_written(w, begun, data, algorithms).graph,
            begun.arn,
            hash_term(),
        ).contains(
            TermView::Literal(
                object.hashes[i].hex,
                datatype_of(object.hashes[i].algorithm),
            ),
        ),
    ensures
        is_answered(
            report,
            stream_outcome(
                report,
                None,
                object,
                volume,
                stream_written(w, begun, data, algorithms).graph,
                lexicon,
                locus,
                options,
            ).0,
            object.arn,
            object.hashes[i],
            true,
        ),
        algorithms.contains(object.hashes[i].algorithm),
{
    let g = stream_written(w, begun, data, algorithms).graph;
    let b = stream_of(begun, data);
    let hash = object.hashes[i];
    let h = hash_term();
    layout_terms_stand_apart();
    layout_terms_are_spelled();
    stream_in_turn(w, begun, data, algorithms, h);
    layout_in_turn(begun.arn, w.volume, begun.options, data.len(), h);
    digests_are_stated(begun.arn, algorithms, data, Seq::empty());
    let said = stated(g, begun.arn, h);
    let fresh = stated(digest_triples(begun.arn, digests_under(algorithms, data)), begun.arn, h);
    assert(said =~= Seq::<TermView>::empty() + fresh);
    let k = choose|k: int|
        0 <= k < said.len() && said[k] == TermView::Literal(
            hash.hex,
            datatype_of(hash.algorithm),
        );
    let a = choose|a: HashAlgorithm|
        algorithms.contains(a) && computable(a) && #[trigger] said[k] == #[trigger]
        stated_digest(a, data);
    assert(said[k] == stated_digest(a, data));
    datatypes_tell_apart(a, hash.algorithm);
    written_streams_are_declared(w, begun, data, algorithms, lexicon, locus);
    written_stream_reads_back(b, volume, locus);
    stream_digests_are_answered(
        report,
        None,
        object,
        volume,
        g,
        lexicon,
        locus,
        options,
        described(b),
        data,
        i,
    );
    assert(records(hash, data));
}

} // verus!
