//! What a reader finds of an image as a writer describes it: its length, its types, its map
//! and what the map draws on, and the digest over all of it.

use vstd::prelude::*;

use crate::bytes;
use crate::hash::{md5_digest, sha1_digest, sha512_digest};
use crate::lexicon::standard_iri;
use crate::model::HashAlgorithm;
use crate::rdf::{statement, type_predicate, typed_as, TermView, TripleView};
use crate::stream::bevy_member_name;
use crate::text;
use crate::verify::blocks::{cut, hex_comes_back, pieces_go_on, remainder};
use crate::verify::composed::{all_leaves, block_map_digest, leaf_digests};
use crate::verify::sound::{chunk_of, chunks_held, cut_is_chunks};
use crate::write::attested::said_with_one_more;
use crate::write::bevy::{index_bytes, md5_of_each, sha1_of_each, stored_chunks};
use crate::write::container_writer::{MemberView, WriterView};
use crate::write::logical::stated::{grew_without, other_terms_keep, stated, stated_in_order};
use crate::write::logical::tree::resources;
use crate::write::map_writer::{
    block_map_hex, block_map_triples, by_length, entries_bytes, image_triples, map_written,
    segment_digests, segments_written, spelled_digests, target_lines, target_triples, MapEntry,
};
use crate::write::stream_writer::{
    all_bevies, bevies_between, bevy_members, bevy_slice, block_digests, md5_leaves, options_ok,
    sha1_leaves, size_triple, span_is_positive, span_of, wants, StreamOptions,
};

verus! {

/// Statements of which none is about a resource under a term say nothing of it.
pub proof fn says_nothing(g: Seq<TripleView>, subject: Seq<char>, p: Seq<char>)
    requires
        forall|k: int|
            0 <= k < g.len() ==> (#[trigger] g[k]).subject != subject || g[k].predicate != p,
    ensures
        stated(g, subject, p) == Seq::<TermView>::empty(),
    decreases g.len(),
{
    if g.len() > 0 {
        let shorter = g.drop_last();
        assert forall|k: int| 0 <= k < shorter.len() implies (#[trigger] shorter[k]).subject
            != subject || shorter[k].predicate != p by {
            assert(shorter[k] == g[k]);
        }
        says_nothing(shorter, subject, p);
        assert(g.last() == g[g.len() - 1]);
    }
}

/// Statements of which one is about a resource under a term say that of it.
pub proof fn says_one_thing(g: Seq<TripleView>, subject: Seq<char>, p: Seq<char>, i: int)
    requires
        0 <= i < g.len(),
        g[i].subject == subject,
        g[i].predicate == p,
        forall|k: int|
            0 <= k < g.len() && k != i ==> (#[trigger] g[k]).subject != subject
                || g[k].predicate != p,
    ensures
        stated(g, subject, p) == seq![g[i].object],
{
    let a = g.take(i);
    let b = seq![g[i]];
    let c = g.skip(i + 1);
    assert(g =~= a + b + c);
    stated_in_order(a + b, c, subject, p);
    stated_in_order(a, b, subject, p);
    assert forall|k: int| 0 <= k < a.len() implies (#[trigger] a[k]).subject != subject
        || a[k].predicate != p by {
        assert(a[k] == g[k]);
    }
    assert forall|k: int| 0 <= k < c.len() implies (#[trigger] c[k]).subject != subject
        || c[k].predicate != p by {
        assert(c[k] == g[k + i + 1]);
    }
    says_nothing(a, subject, p);
    says_nothing(c, subject, p);
    assert(b =~= Seq::<TripleView>::empty().push(g[i]));
    said_with_one_more(Seq::empty(), g[i], subject, p);
    assert(stated(Seq::<TripleView>::empty(), subject, p) =~= Seq::empty());
    assert(stated(g, subject, p) =~= seq![g[i].object]);
}

/// The terms of an image and its map, spelled out and told apart.
proof fn image_terms_stand_apart()
    ensures
        standard_iri("size"@) == "http://aff4.org/Schema#size"@,
        standard_iri("dataStream"@) == "http://aff4.org/Schema#dataStream"@,
        standard_iri("dependentStream"@) == "http://aff4.org/Schema#dependentStream"@,
        standard_iri("stored"@) == "http://aff4.org/Schema#stored"@,
        standard_iri("blockMapHash"@) == "http://aff4.org/Schema#blockMapHash"@,
        standard_iri("size"@).len() == 27,
        standard_iri("size"@)[23] == 's',
        standard_iri("hash"@).len() == 27,
        standard_iri("hash"@)[23] == 'h',
        standard_iri("target"@).len() == 29,
        standard_iri("target"@)[23] == 't',
        standard_iri("stored"@).len() == 29,
        standard_iri("stored"@)[23] == 's',
        standard_iri("mapHash"@).len() == 30,
        standard_iri("dataStream"@).len() == 33,
        standard_iri("dataStream"@)[23] == 'd',
        standard_iri("mapIdxHash"@).len() == 33,
        standard_iri("mapIdxHash"@)[23] == 'm',
        standard_iri("mapPathHash"@).len() == 34,
        standard_iri("blockMapHash"@).len() == 35,
        standard_iri("blockMapHash"@)[23] == 'b',
        standard_iri("mapPointHash"@).len() == 35,
        standard_iri("mapPointHash"@)[23] == 'm',
        standard_iri("dependentStream"@).len() == 38,
        type_predicate().len() == 47,
{
    reveal_strlit("http://aff4.org/Schema#");
    reveal_strlit("http://www.w3.org/1999/02/22-rdf-syntax-ns#type");
    reveal_strlit("size");
    reveal_strlit("hash");
    reveal_strlit("target");
    reveal_strlit("stored");
    reveal_strlit("mapHash");
    reveal_strlit("dataStream");
    reveal_strlit("mapIdxHash");
    reveal_strlit("mapPathHash");
    reveal_strlit("blockMapHash");
    reveal_strlit("mapPointHash");
    reveal_strlit("dependentStream");
    reveal_strlit("http://aff4.org/Schema#size");
    reveal_strlit("http://aff4.org/Schema#dataStream");
    reveal_strlit("http://aff4.org/Schema#dependentStream");
    reveal_strlit("http://aff4.org/Schema#stored");
    reveal_strlit("http://aff4.org/Schema#blockMapHash");
    assert(standard_iri("size"@) =~= "http://aff4.org/Schema#size"@);
    assert(standard_iri("dataStream"@) =~= "http://aff4.org/Schema#dataStream"@);
    assert(standard_iri("dependentStream"@) =~= "http://aff4.org/Schema#dependentStream"@);
    assert(standard_iri("stored"@) =~= "http://aff4.org/Schema#stored"@);
    assert(standard_iri("blockMapHash"@) =~= "http://aff4.org/Schema#blockMapHash"@);
}

/// The statements of what a map draws on, under their terms.
proof fn targets_in_turn(map_arn: Seq<char>, targets: Seq<Seq<char>>)
    ensures
        stated(target_triples(map_arn, targets), map_arn, standard_iri("dependentStream"@))
            == resources(targets),
        forall|k: int|
            0 <= k < target_triples(map_arn, targets).len() ==> ((#[trigger] target_triples(
                map_arn,
                targets,
            )[k]).predicate == standard_iri("dependentStream"@) || target_triples(
                map_arn,
                targets,
            )[k].predicate == standard_iri("target"@)),
    decreases targets.len(),
{
    let p = standard_iri("dependentStream"@);
    image_terms_stand_apart();
    if targets.len() > 0 {
        targets_in_turn(map_arn, targets.drop_last());
        let before = target_triples(map_arn, targets.drop_last());
        let target = targets.last();
        let t = statement(map_arn, p, TermView::Iri(target));
        let u = statement(target, standard_iri("target"@), TermView::Iri(map_arn));
        said_with_one_more(before, t, map_arn, p);
        said_with_one_more(before.push(t), u, map_arn, p);
        assert(resources(targets) =~= resources(targets.drop_last()).push(TermView::Iri(target)));
    } else {
        assert(resources(targets) =~= Seq::empty());
    }
}

/// Writing an image's map says of the image that the map is where its data is, how long it
/// is and that it is a contiguous image of a disk; and of the map how long it is and what
/// it draws on, in the order in which its entries number it.
pub proof fn images_are_described(
    w: WriterView,
    base: Seq<char>,
    map_arn: Seq<char>,
    image_arn: Seq<char>,
    entries: Seq<MapEntry>,
    targets: Seq<Seq<char>>,
    size: u64,
    blocks: Seq<(HashAlgorithm, Seq<char>)>,
)
    requires
        map_arn != image_arn,
    ensures
        ({
            let g = map_written(
                w,
                base,
                map_arn,
                image_arn,
                entries,
                targets,
                size,
                blocks,
            ).graph;
            let length = TermView::Literal(
                text::decimal(size as nat),
                "http://www.w3.org/2001/XMLSchema#long"@,
            );
            let size_term = "http://aff4.org/Schema#size"@;
            let data_term = "http://aff4.org/Schema#dataStream"@;
            let draws_term = "http://aff4.org/Schema#dependentStream"@;
            let stored_term = "http://aff4.org/Schema#stored"@;
            &&& stated(g, image_arn, size_term) == stated(w.graph, image_arn, size_term).push(
                length,
            )
            &&& stated(g, map_arn, size_term) == stated(w.graph, map_arn, size_term).push(length)
            &&& stated(g, image_arn, data_term) == stated(w.graph, image_arn, data_term).push(
                TermView::Iri(map_arn),
            )
            &&& stated(g, map_arn, draws_term) == stated(w.graph, map_arn, draws_term)
                + resources(targets)
            &&& stated(g, image_arn, stored_term) == stated(
                w.graph,
                image_arn,
                stored_term,
            ).push(TermView::Iri(w.volume))
            &&& stated(g, map_arn, stored_term) == stated(w.graph, map_arn, stored_term).push(
                TermView::Iri(w.volume),
            )
        }),
{
    image_terms_stand_apart();
    image_says(w, base, map_arn, image_arn, entries, targets, size, blocks, image_arn, standard_iri("size"@));
    image_says(w, base, map_arn, image_arn, entries, targets, size, blocks, map_arn, standard_iri("size"@));
    image_says(w, base, map_arn, image_arn, entries, targets, size, blocks, image_arn, standard_iri("dataStream"@));
    image_says(w, base, map_arn, image_arn, entries, targets, size, blocks, map_arn, standard_iri("dependentStream"@));
    image_says(w, base, map_arn, image_arn, entries, targets, size, blocks, image_arn, standard_iri("stored"@));
    image_says(w, base, map_arn, image_arn, entries, targets, size, blocks, map_arn, standard_iri("stored"@));
    let i = image_triples(map_arn, image_arn, w.volume, size);
    let m = seq![typed_as(map_arn, standard_iri("Map"@)), size_triple(map_arn, size as nat)];
    targets_in_turn(map_arn, targets);
    let t = target_triples(map_arn, targets);
    says_one_thing(i, image_arn, standard_iri("size"@), 5);
    says_nothing(m, image_arn, standard_iri("size"@));
    says_nothing(t, image_arn, standard_iri("size"@));
    says_one_thing(m, map_arn, standard_iri("size"@), 1);
    says_nothing(i, map_arn, standard_iri("size"@));
    says_nothing(t, map_arn, standard_iri("size"@));
    says_one_thing(i, image_arn, standard_iri("dataStream"@), 6);
    says_nothing(m, image_arn, standard_iri("dataStream"@));
    says_nothing(t, image_arn, standard_iri("dataStream"@));
    says_nothing(i, map_arn, standard_iri("dependentStream"@));
    says_nothing(m, map_arn, standard_iri("dependentStream"@));
    says_one_thing(i, image_arn, standard_iri("stored"@), 7);
    says_nothing(m, image_arn, standard_iri("stored"@));
    says_nothing(t, image_arn, standard_iri("stored"@));
    says_one_thing(i, map_arn, standard_iri("stored"@), 0);
    says_nothing(m, map_arn, standard_iri("stored"@));
    says_nothing(t, map_arn, standard_iri("stored"@));
}

/// What writing an image's map says under a term, part by part.
proof fn image_says(
    w: WriterView,
    base: Seq<char>,
    map_arn: Seq<char>,
    image_arn: Seq<char>,
    entries: Seq<MapEntry>,
    targets: Seq<Seq<char>>,
    size: u64,
    blocks: Seq<(HashAlgorithm, Seq<char>)>,
    subject: Seq<char>,
    p: Seq<char>,
)
    requires
        p == standard_iri("size"@) || p == standard_iri("dataStream"@) || p == standard_iri(
            "dependentStream"@,
        ) || p == standard_iri("stored"@),
    ensures
        ({
            let g = map_written(
                w,
                base,
                map_arn,
                image_arn,
                entries,
                targets,
                size,
                blocks,
            ).graph;
            let m = seq![
                typed_as(map_arn, standard_iri("Map"@)),
                size_triple(map_arn, size as nat),
            ];
            stated(g, subject, p) == stated(w.graph, subject, p) + stated(m, subject, p) + stated(
                target_triples(map_arn, targets),
                subject,
                p,
            ) + stated(image_triples(map_arn, image_arn, w.volume, size), subject, p)
        }),
{
    image_terms_stand_apart();
    let g = map_written(w, base, map_arn, image_arn, entries, targets, size, blocks).graph;
    let map = entries_bytes(entries);
    let idx = target_lines(targets);
    let between = segments_written(w, base, map_arn, map, idx, Seq::empty()).graph;
    let hex = block_map_hex(blocks, segment_digests(map, idx, Seq::empty()));
    let m = seq![typed_as(map_arn, standard_iri("Map"@)), size_triple(map_arn, size as nat)];
    let t = target_triples(map_arn, targets);
    let i = image_triples(map_arn, image_arn, w.volume, size);
    let b = block_map_triples(map_arn, image_arn, hex);
    assert(g =~= between + m + t + i + b);
    assert(grew_without(w.graph, between, p));
    other_terms_keep(w.graph, between, subject, p);
    stated_in_order(between + m + t + i, b, subject, p);
    stated_in_order(between + m + t, i, subject, p);
    stated_in_order(between + m, t, subject, p);
    stated_in_order(between, m, subject, p);
    says_nothing(b, subject, p);
    assert(stated(g, subject, p) =~= stated(w.graph, subject, p) + stated(m, subject, p) + stated(
        t,
        subject,
        p,
    ) + stated(i, subject, p));
}

/// Digests of chunks one after the other.
proof fn digests_join(a: Seq<Seq<u8>>, b: Seq<Seq<u8>>)
    ensures
        md5_of_each(a + b) == md5_of_each(a) + md5_of_each(b),
        sha1_of_each(a + b) == sha1_of_each(a) + sha1_of_each(b),
    decreases b.len(),
{
    if b.len() == 0 {
        assert(a + b =~= a);
        assert(md5_of_each(a) + md5_of_each(b) =~= md5_of_each(a));
        assert(sha1_of_each(a) + sha1_of_each(b) =~= sha1_of_each(a));
    } else {
        digests_join(a, b.drop_last());
        assert((a + b).drop_last() =~= a + b.drop_last());
        assert((a + b).last() == b.last());
        assert(md5_of_each(a + b) =~= md5_of_each(a) + md5_of_each(b));
        assert(sha1_of_each(a + b) =~= sha1_of_each(a) + sha1_of_each(b));
    }
}

/// Cutting bytes off at a whole number of chunks leaves their chunks as they are.
proof fn cuts_join(a: Seq<u8>, b: Seq<u8>, n: nat)
    requires
        n > 0,
        a.len() % n == 0,
    ensures
        cut(a + b, n) == cut(a, n) + cut(b, n),
{
    pieces_go_on(a, b, n);
    vstd::arithmetic::div_mod::lemma_fundamental_div_mod(a.len() as int, n as int);
    assert((a.len() / n) * n as int == a.len()) by (nonlinear_arith)
        requires
            a.len() as int == n as int * (a.len() as int / n as int) + a.len() as int % n as int,
            a.len() % n == 0,
    ;
    assert(remainder(a, n).len() == 0);
    assert(remainder(a, n) + b =~= b);
    assert(cut(a + b, n) =~= cut(a, n) + cut(b, n));
}

/// The chunk digests of the first bevies are those of the chunks of the bytes before the
/// next.
proof fn leaves_so_far(o: StreamOptions, content: Seq<u8>, n: nat)
    requires
        options_ok(o),
        n <= all_bevies(content.len(), o),
    ensures
        ({
            let reach = if n * span_of(o) <= content.len() {
                (n * span_of(o)) as int
            } else {
                content.len() as int
            };
            let chunks = cut(content.take(reach), o.chunk_size as nat);
            &&& md5_leaves(o, content, n) == md5_of_each(chunks)
            &&& sha1_leaves(o, content, n) == sha1_of_each(chunks)
        }),
    decreases n,
{
    let span = span_of(o);
    let c = o.chunk_size as nat;
    span_is_positive(o);
    if n == 0 {
        let none = content.take(0);
        assert(none.len() == 0);
        assert(0nat / c == 0 && (0nat / c) * c as int == 0) by (nonlinear_arith)
            requires
                c > 0,
        ;
        assert(0 * span == 0);
        assert(remainder(none, c).len() == 0);
        assert(cut(none, c) =~= Seq::empty());
    } else {
        let m = (n - 1) as nat;
        leaves_so_far(o, content, m);
        let len = content.len();
        assert(m * span <= len && m * span + span == n * span) by (nonlinear_arith)
            requires
                m == n - 1,
                n <= (if len % span == 0 {
                    len / span
                } else {
                    len / span + 1
                }),
                span > 0,
                n > 0,
        ;
        let reach = if n * span <= len {
            (n * span) as int
        } else {
            len as int
        };
        let a = content.take((m * span) as int);
        let b = bevy_slice(content, o, m);
        let per = o.chunks_per_segment as nat;
        assert(m * span == (m * per) * c) by (nonlinear_arith)
            requires
                span == c * per,
        ;
        vstd::arithmetic::div_mod::lemma_mod_multiples_basic((m * per) as int, c as int);
        assert((m * span) % c == 0);
        assert((m + 1) * span == n * span);
        assert(content.take(reach) =~= a + b);
        cuts_join(a, b, c);
        digests_join(cut(a, c), cut(b, c));
    }
}

/// The digests of a stream's chunks that a writer records are those of the chunks of its
/// bytes, in their order, however its bevies are filled.
pub proof fn leaves_are_chunk_digests(o: StreamOptions, content: Seq<u8>)
    requires
        options_ok(o),
    ensures
        md5_leaves(o, content, all_bevies(content.len(), o)) == bytes::flattened(
            Seq::new(
                chunks_held(content, o.chunk_size as nat),
                |i: int| md5_digest(chunk_of(content, o.chunk_size as nat, i)),
            ),
        ),
        sha1_leaves(o, content, all_bevies(content.len(), o)) == bytes::flattened(
            Seq::new(
                chunks_held(content, o.chunk_size as nat),
                |i: int| sha1_digest(chunk_of(content, o.chunk_size as nat, i)),
            ),
        ),
{
    let n = all_bevies(content.len(), o);
    let span = span_of(o);
    let c = o.chunk_size as nat;
    let len = content.len();
    span_is_positive(o);
    leaves_so_far(o, content, n);
    assert(n * span >= len) by (nonlinear_arith)
        requires
            n == (if len % span == 0 {
                len / span
            } else {
                len / span + 1
            }),
            span > 0,
    ;
    assert(content.take(len as int) =~= content);
    cut_is_chunks(content, c);
    let chunks = cut(content, c);
    each_is_listed(chunks);
    assert(Seq::new(chunks.len(), |i: int| md5_digest(chunks[i])) =~= Seq::new(
        chunks_held(content, c),
        |i: int| md5_digest(chunk_of(content, c, i)),
    ));
    assert(Seq::new(chunks.len(), |i: int| sha1_digest(chunks[i])) =~= Seq::new(
        chunks_held(content, c),
        |i: int| sha1_digest(chunk_of(content, c, i)),
    ));
}

/// Digests of chunks are a list, one after the other.
proof fn each_is_listed(chunks: Seq<Seq<u8>>)
    ensures
        md5_of_each(chunks) == bytes::flattened(
            Seq::new(chunks.len(), |i: int| md5_digest(chunks[i])),
        ),
        sha1_of_each(chunks) == bytes::flattened(
            Seq::new(chunks.len(), |i: int| sha1_digest(chunks[i])),
        ),
    decreases chunks.len(),
{
    let a = Seq::new(chunks.len(), |i: int| md5_digest(chunks[i]));
    let b = Seq::new(chunks.len(), |i: int| sha1_digest(chunks[i]));
    if chunks.len() > 0 {
        let fewer = chunks.drop_last();
        each_is_listed(fewer);
        assert(a.drop_last() =~= Seq::new(fewer.len(), |i: int| md5_digest(fewer[i])));
        assert(b.drop_last() =~= Seq::new(fewer.len(), |i: int| sha1_digest(fewer[i])));
        assert(a.last() == md5_digest(chunks.last()));
        assert(b.last() == sha1_digest(chunks.last()));
    }
}

/// The chunk digests that a stream's options have it record, under each algorithm.
pub open spec fn held_leaves(o: StreamOptions, content: Seq<u8>) -> Seq<Option<Seq<u8>>> {
    let n = all_bevies(content.len(), o);
    seq![
        if wants(o, HashAlgorithm::Md5) {
            Some(md5_leaves(o, content, n))
        } else {
            None
        },
        if wants(o, HashAlgorithm::Sha1) {
            Some(sha1_leaves(o, content, n))
        } else {
            None
        },
        None,
        None,
        None,
    ]
}

/// The digest that a writer records over the tree of a map and one stream is the one that
/// verifying that map recomputes.
pub proof fn written_trees_are_verified(
    o: StreamOptions,
    content: Seq<u8>,
    map: Seq<u8>,
    idx: Seq<u8>,
)
    requires
        forall|x: Seq<u8>| (#[trigger] sha512_digest(x)).len() == 64,
        wants(o, HashAlgorithm::Md5) || wants(o, HashAlgorithm::Sha1),
    ensures
        block_map_hex(block_digests(o, content), segment_digests(map, idx, Seq::empty()))
            == Some(
            text::hex(
                block_map_digest(seq![held_leaves(o, content)], map, idx, Seq::empty()),
            ),
        ),
{
    let blocks = block_digests(o, content);
    let n = all_bevies(content.len(), o);
    let a = sha512_digest(md5_leaves(o, content, n));
    let b = sha512_digest(sha1_leaves(o, content, n));
    hex_comes_back(a);
    hex_comes_back(b);
    let spelled = spelled_digests(blocks);
    let held = held_leaves(o, content);
    let leaves = all_leaves(seq![held]);
    assert(leaves =~= seq![leaf_digests(held)]);
    assert(bytes::flattened(leaves) =~= leaf_digests(held)) by {
        assert(leaves.drop_last() =~= Seq::empty());
        assert(leaves.last() == leaf_digests(held));
        assert(bytes::flattened(leaves.drop_last()) =~= Seq::empty());
    }
    if wants(o, HashAlgorithm::Md5) && wants(o, HashAlgorithm::Sha1) {
        assert(spelled =~= seq![a, b]);
        two_in_order(a, b);
        assert(bytes::flattened(by_length(spelled)) =~= leaf_digests(held));
    } else {
        let d = if wants(o, HashAlgorithm::Md5) {
            a
        } else {
            b
        };
        assert(spelled =~= seq![d]);
        one_in_order(d);
        assert(bytes::flattened(by_length(spelled)) =~= leaf_digests(held));
    }
}

/// One digest is in order.
proof fn one_in_order(d: Seq<u8>)
    ensures
        by_length(seq![d]) == seq![d],
        bytes::flattened(by_length(seq![d])) == d,
{
    assert(seq![d].drop_last() =~= Seq::empty());
    assert(seq![d].last() == d);
    assert(by_length(seq![d].drop_last()) =~= Seq::empty());
    assert(by_length(seq![d]) =~= seq![d]);
    assert(bytes::flattened(seq![d].drop_last()) =~= Seq::empty());
    assert(bytes::flattened(seq![d]) =~= d);
}

/// Two digests of one length keep their order.
proof fn two_in_order(a: Seq<u8>, b: Seq<u8>)
    requires
        a.len() == b.len(),
    ensures
        bytes::flattened(by_length(seq![a, b])) == a + b,
{
    assert(seq![a, b].drop_last() =~= seq![a]);
    assert(seq![a, b].last() == b);
    one_in_order(a);
    assert(seq![a].last() == a);
    assert(by_length(seq![a, b]) =~= seq![a, b]);
    assert(bytes::flattened(seq![a]) =~= a);
    assert(bytes::flattened(seq![a, b]) =~= a + b);
}

/// Whether members have one that holds some bytes as they are, under a name.
pub open spec fn have_plain(members: Seq<MemberView>, name: Seq<char>, data: Seq<u8>) -> bool {
    members.contains(MemberView { name, data, deflated: false })
}

/// The members that one bevy makes, by their names.
proof fn bevy_is_named(base: Seq<char>, o: StreamOptions, data: Seq<u8>, number: nat)
    requires
        o.chunk_size > 0,
    ensures
        ({
            let c = o.chunk_size as nat;
            let members = bevy_members(base, o, data, number);
            let name = base + "/"@ + text::zero_padded(text::decimal(number), 8);
            let stored = stored_chunks(o.codec, c, cut(data, c));
            &&& have_plain(members, name, bytes::flattened(stored))
            &&& have_plain(members, name + ".index"@, index_bytes(stored))
            &&& wants(o, HashAlgorithm::Md5) ==> have_plain(
                members,
                name + ".blockHash.md5"@,
                bytes::flattened(
                    Seq::new(chunks_held(data, c), |i: int| md5_digest(chunk_of(data, c, i))),
                ),
            )
            &&& wants(o, HashAlgorithm::Sha1) ==> have_plain(
                members,
                name + ".blockHash.sha1"@,
                bytes::flattened(
                    Seq::new(chunks_held(data, c), |i: int| sha1_digest(chunk_of(data, c, i))),
                ),
            )
        }),
{
    let c = o.chunk_size as nat;
    let members = bevy_members(base, o, data, number);
    let name = bevy_member_name(base, number);
    let chunks = cut(data, c);
    cut_is_chunks(data, c);
    each_is_listed(chunks);
    assert(Seq::new(chunks.len(), |i: int| md5_digest(chunks[i])) =~= Seq::new(
        chunks_held(data, c),
        |i: int| md5_digest(chunk_of(data, c, i)),
    ));
    assert(Seq::new(chunks.len(), |i: int| sha1_digest(chunks[i])) =~= Seq::new(
        chunks_held(data, c),
        |i: int| sha1_digest(chunk_of(data, c, i)),
    ));
    reveal_strlit(".blockHash.");
    reveal_strlit("md5");
    reveal_strlit("sha1");
    reveal_strlit(".blockHash.md5");
    reveal_strlit(".blockHash.sha1");
    assert(name + ".blockHash.md5"@ =~= name + ".blockHash."@ + "md5"@);
    assert(name + ".blockHash.sha1"@ =~= name + ".blockHash."@ + "sha1"@);
    assert(members[0].name == name);
    assert(members[1].name == name + ".index"@);
    if wants(o, HashAlgorithm::Md5) {
        assert(members[2].name == name + ".blockHash.md5"@);
    }
    if wants(o, HashAlgorithm::Sha1) {
        assert(members[members.len() - 1].name == name + ".blockHash.sha1"@);
    }
}

/// Each bevy of a stream is written under the stream's name and its own number: its chunks
/// as they are stored, where they stand, and the digest of each of them, under each
/// algorithm that is asked for.
pub proof fn bevies_are_named(
    base: Seq<char>,
    o: StreamOptions,
    content: Seq<u8>,
    n: nat,
    b: nat,
)
    requires
        o.chunk_size > 0,
        b < n,
    ensures
        ({
            let c = o.chunk_size as nat;
            let data = bevy_slice(content, o, b);
            let members = bevies_between(base, o, content, 0, n);
            let name = base + "/"@ + text::zero_padded(text::decimal(b), 8);
            let stored = stored_chunks(o.codec, c, cut(data, c));
            &&& have_plain(members, name, bytes::flattened(stored))
            &&& have_plain(members, name + ".index"@, index_bytes(stored))
            &&& wants(o, HashAlgorithm::Md5) ==> have_plain(
                members,
                name + ".blockHash.md5"@,
                bytes::flattened(
                    Seq::new(chunks_held(data, c), |i: int| md5_digest(chunk_of(data, c, i))),
                ),
            )
            &&& wants(o, HashAlgorithm::Sha1) ==> have_plain(
                members,
                name + ".blockHash.sha1"@,
                bytes::flattened(
                    Seq::new(chunks_held(data, c), |i: int| sha1_digest(chunk_of(data, c, i))),
                ),
            )
        }),
    decreases n,
{
    let m = (n - 1) as nat;
    let before = bevies_between(base, o, content, 0, m);
    let last = bevy_members(base, o, bevy_slice(content, o, m), m);
    let all = bevies_between(base, o, content, 0, n);
    assert(all == before + last);
    if b == m {
        bevy_is_named(base, o, bevy_slice(content, o, m), m);
        assert forall|name: Seq<char>, data: Seq<u8>| #[trigger]
            have_plain(last, name, data) implies have_plain(all, name, data) by {
            let k = choose|k: int|
                0 <= k < last.len() && last[k] == (MemberView { name, data, deflated: false });
            assert(all[before.len() + k] == last[k]);
        }
    } else {
        bevies_are_named(base, o, content, m, b);
        assert forall|name: Seq<char>, data: Seq<u8>| #[trigger]
            have_plain(before, name, data) implies have_plain(all, name, data) by {
            let k = choose|k: int|
                0 <= k < before.len() && before[k] == (MemberView { name, data, deflated: false });
            assert(all[k] == before[k]);
        }
    }
}

} // verus!
