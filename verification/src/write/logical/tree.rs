//! What an acquisition says of the tree that it acquired: folders and what they contain,
//! roots, extended attributes, and how many there were.

use vstd::prelude::*;

use crate::arn::member_of;
use crate::error::{ErrorView, LocusView};
use crate::hash::{digests_under, DigestView};
use crate::lexicon::{aff4l_iri, standard_iri, Lexicon};
use crate::model::HashAlgorithm;
use crate::naming::base64;
use crate::rdf::{statement, type_predicate, TermView, TripleView};
use crate::stream::{stream_declared, StreamView};
use crate::text;
use crate::write::attested::{
    is_standard, is_undescribed, maps_are_told, said_with_one_more, written_streams_are_declared,
};
use crate::write::container_writer::{MemberView, WriterView};
use crate::write::dedupe::{block_names, place_triples, pool_written, slice_name, PoolView};
use crate::write::logical::acquire::{
    acquisition_finished, child_triples, folder_entered, item_acquired, pending_mapped,
    root_acquired, root_triples, stream_acquired, AcquireView,
};
use crate::write::logical::names::{segment_name, LogicalProfile, PathView};
use crate::write::logical::record::{
    attribute_arn, attribute_written, attributes_written, file_recorded, FactsView, MintedView,
    PendingView, StoreView,
};
use crate::write::logical::stated::{stated, stated_in_order};
use crate::write::logical::storage::OptionsView;
use crate::write::logical::terms;
use crate::write::map_writer::{
    covering, entries_bytes, slice_entries, slice_fault, slice_targets, target_lines,
};
use crate::write::scan::ItemView;
use crate::write::stream_writer::{stream_written, BuilderView, StreamOptions};

verus! {

/// A resource for each of some names.
pub open spec fn resources(names: Seq<Seq<char>>) -> Seq<TermView> {
    Seq::new(names.len(), |i: int| TermView::Iri(names[i]))
}

/// What a list of statements about one resource under one term says.
proof fn list_in_turn(
    triples: Seq<TripleView>,
    subject: Seq<char>,
    p: Seq<char>,
    names: Seq<Seq<char>>,
    about: Seq<char>,
    n: nat,
)
    requires
        n <= names.len(),
        triples.len() == names.len(),
        forall|i: int|
            0 <= i < names.len() ==> #[trigger] triples[i] == statement(
                subject,
                p,
                TermView::Iri(names[i]),
            ),
    ensures
        stated(triples.take(n as int), about, p) == (if about == subject {
            resources(names).take(n as int)
        } else {
            Seq::empty()
        }),
    decreases n,
{
    if n > 0 {
        list_in_turn(triples, subject, p, names, about, (n - 1) as nat);
        assert(triples.take(n as int).drop_last() =~= triples.take(n - 1));
        assert(triples.take(n as int).last() == triples[n - 1]);
        assert(resources(names).take(n as int) =~= resources(names).take(n - 1).push(
            TermView::Iri(names[n - 1]),
        ));
    } else {
        assert(triples.take(0) =~= Seq::empty());
        assert(resources(names).take(0) =~= Seq::empty());
    }
}

/// The term for what a folder contains, and that for the roots, spelled out.
proof fn tree_terms_are_spelled()
    ensures
        standard_iri(terms::CHILD@) == "http://aff4.org/Schema#child"@,
        standard_iri(terms::FILESYSTEM_ROOT@) == "http://aff4.org/Schema#filesystemRoot"@,
{
    reveal_strlit("http://aff4.org/Schema#");
    reveal_strlit("child");
    reveal_strlit("filesystemRoot");
    reveal_strlit("http://aff4.org/Schema#child");
    reveal_strlit("http://aff4.org/Schema#filesystemRoot");
    assert(standard_iri(terms::CHILD@) =~= "http://aff4.org/Schema#child"@);
    assert(standard_iri(terms::FILESYSTEM_ROOT@) =~= "http://aff4.org/Schema#filesystemRoot"@);
}

/// Entering a folder counts it, and it is the innermost one, with nothing in it yet.
pub proof fn folders_are_entered(
    s: AcquireView,
    path: PathView,
    arn: Seq<char>,
    facts: FactsView,
    o: OptionsView,
)
    requires
        s.store.standing.result.folders < u64::MAX,
    ensures
        ({
            let after = folder_entered(s, path, arn, facts, o);
            let before = s.store.standing;
            &&& after.store.standing.result.folders == before.result.folders + 1
            &&& after.store.standing.result.files == before.result.files
            &&& after.store.standing.result.bytes == before.result.bytes
            &&& after.store.standing.result.skipped == before.result.skipped
            &&& after.store.standing.writer.members == before.writer.members
            &&& after.stack.len() == s.stack.len() + 1
            &&& after.stack.last().arn == arn
            &&& after.stack.last().path == path
            &&& after.stack.last().children.len() == 0
            &&& after.stack.drop_last() == s.stack
            &&& after.roots == s.roots
        }),
{
    assert(folder_entered(s, path, arn, facts, o).stack.drop_last() =~= s.stack);
}

/// Leaving a folder says of it what it contains, each entry once and in the order in which
/// they were acquired, where the profile has a term for that; the folder is then an entry
/// of the one around it, or a root.
pub proof fn folders_say_what_they_contain(
    s: AcquireView,
    facts: FactsView,
    names: MintedView,
    o: OptionsView,
    about: Seq<char>,
)
    requires
        s.stack.len() > 0,
    ensures
        ({
            let dir = s.stack.last();
            let (after, e) = item_acquired(s, ItemView::DirEnd, facts, names, o);
            let before = s.store.standing.writer;
            let w = after.store.standing.writer;
            let p = "http://aff4.org/Schema#child"@;
            &&& e is None
            &&& stated(w.graph, about, p) == stated(before.graph, about, p) + (if about
                == dir.arn && o.profile == LogicalProfile::Legacy {
                resources(dir.children)
            } else {
                Seq::empty()
            })
            &&& w.members == before.members
            &&& after.store.standing.result == s.store.standing.result
            &&& s.stack.len() == 1 ==> after.roots == s.roots.push(dir.arn)
                && after.stack.len() == 0
            &&& s.stack.len() > 1 ==> after.roots == s.roots && after.stack.len()
                == s.stack.len() - 1 && after.stack.last().children == s.stack[s.stack.len()
                - 2].children.push(dir.arn) && after.stack.last().arn == s.stack[s.stack.len()
                - 2].arn
        }),
{
    reveal(item_acquired);
    tree_terms_are_spelled();
    let dir = s.stack.last();
    let p = "http://aff4.org/Schema#child"@;
    let before = s.store.standing.writer;
    let triples = child_triples(dir, o.profile);
    stated_in_order(before.graph, triples, about, p);
    if o.profile == LogicalProfile::Legacy {
        list_in_turn(triples, dir.arn, p, dir.children, about, dir.children.len());
        assert(triples.take(dir.children.len() as int) =~= triples);
        assert(resources(dir.children).take(dir.children.len() as int) =~= resources(
            dir.children,
        ));
    } else {
        assert(stated(triples, about, p) =~= Seq::empty());
    }
}

/// The roots that were acquired are said to be those of the acquisition, in their order.
pub proof fn roots_are_said(
    store: StoreView,
    items: Seq<(ItemView, FactsView)>,
    names: Seq<MintedView>,
    o: OptionsView,
    task: Seq<char>,
    about: Seq<char>,
)
    ensures
        ({
            let (end, e) = stream_acquired(store, items, names, o);
            let (after, f) = root_acquired(store, items, names, o, task);
            let p = "http://aff4.org/Schema#filesystemRoot"@;
            &&& f == e
            &&& e is None ==> stated(after.standing.writer.graph, about, p) == stated(
                end.store.standing.writer.graph,
                about,
                p,
            ) + (if about == task {
                resources(end.roots)
            } else {
                Seq::empty()
            })
            &&& after.standing.writer.members == end.store.standing.writer.members
            &&& after.standing.result == end.store.standing.result
        }),
{
    tree_terms_are_spelled();
    let (end, e) = stream_acquired(store, items, names, o);
    let p = "http://aff4.org/Schema#filesystemRoot"@;
    let triples = root_triples(task, end.roots);
    stated_in_order(end.store.standing.writer.graph, triples, about, p);
    list_in_turn(triples, task, p, end.roots, about, end.roots.len());
    assert(triples.take(end.roots.len() as int) =~= triples);
    assert(resources(end.roots).take(end.roots.len() as int) =~= resources(end.roots));
}

/// A file that is counted has the bytes that were read of it, and they are counted too.
pub proof fn counted_files_count_their_bytes(
    s: StoreView,
    path: PathView,
    arn: Seq<char>,
    size: u64,
    facts: FactsView,
    names: MintedView,
    o: OptionsView,
)
    requires
        s.standing.result.files < u64::MAX,
        s.pool matches Some(p) ==> p.chunk_size > 0,
    ensures
        ({
            let before = s.standing.result;
            let after = file_recorded(s, path, arn, size, facts, names, o).standing.result;
            &&& after.files > before.files ==> (facts.content matches Ok(data) && (data.len()
                <= u64::MAX && before.bytes + data.len() <= u64::MAX ==> after.bytes
                == before.bytes + data.len()))
            &&& facts.content is Err ==> after.files == before.files && after.skipped.len()
                == before.skipped.len() + 1 && after.skipped.last() == (
                path,
                facts.content->Err_0,
            )
            &&& after.folders == before.folders
        }),
{
}

/// The namespace of the terms that the logical standard introduces.
pub open spec fn logical_namespace(https: bool) -> Seq<char> {
    if https {
        "https://aff4.org/Schema/AFF4-L#"@
    } else {
        "http://aff4.org/Schema/AFF4-L#"@
    }
}

/// The terms of an extended attribute, spelled out and told apart.
proof fn attribute_terms_stand_apart(https: bool)
    ensures
        aff4l_iri(terms::NAME@, https) == logical_namespace(https) + "name"@,
        aff4l_iri(terms::DATA_STREAM@, https) == logical_namespace(https) + "dataStream"@,
        aff4l_iri(terms::EXTENDED_ATTRIBUTE@, https) == logical_namespace(https)
            + "extendedAttribute"@,
        standard_iri("size"@) == "http://aff4.org/Schema#size"@,
        standard_iri("target"@) == "http://aff4.org/Schema#target"@,
        aff4l_iri(terms::NAME@, https).len() <= 35,
        aff4l_iri(terms::NAME@, https).len() >= 34,
        aff4l_iri(terms::DATA_STREAM@, https).len() <= 41,
        aff4l_iri(terms::DATA_STREAM@, https).len() >= 40,
        aff4l_iri(terms::EXTENDED_ATTRIBUTE@, https).len() <= 48,
        aff4l_iri(terms::EXTENDED_ATTRIBUTE@, https).len() >= 47,
        aff4l_iri(terms::EXTENDED_ATTRIBUTE@, https) != type_predicate(),
        standard_iri("size"@).len() == 27,
        standard_iri("target"@).len() == 29,
        type_predicate().len() == 47,
{
    reveal_strlit("http://aff4.org/Schema#");
    reveal_strlit("http://aff4.org/Schema/AFF4-L#");
    reveal_strlit("https://aff4.org/Schema/AFF4-L#");
    reveal_strlit("http://www.w3.org/1999/02/22-rdf-syntax-ns#type");
    reveal_strlit("name");
    reveal_strlit("dataStream");
    reveal_strlit("extendedAttribute");
    reveal_strlit("size");
    reveal_strlit("target");
    reveal_strlit("http://aff4.org/Schema#size");
    reveal_strlit("http://aff4.org/Schema#target");
    assert(standard_iri("size"@) =~= "http://aff4.org/Schema#size"@);
    assert(standard_iri("target"@) =~= "http://aff4.org/Schema#target"@);
    let x = aff4l_iri(terms::EXTENDED_ATTRIBUTE@, https);
    assert(x[8] != 'w' || x[7] != 'w');
    assert(type_predicate()[7] == 'w' && type_predicate()[8] == 'w');
}

/// Writing an extended attribute says of it its name, its length and the file it belongs
/// to, and of the file that it has it. Its bytes stand in the metadata where they are few,
/// and in a member of their own where they are not.
pub proof fn attributes_are_described(
    w: WriterView,
    parent: Seq<char>,
    index: nat,
    attribute: (Seq<char>, Seq<u8>),
    o: OptionsView,
)
    requires
        attribute.1.len() <= u64::MAX,
        o.profile == LogicalProfile::V1Alpha,
    ensures
        ({
            let after = attribute_written(w, parent, index, attribute, o);
            let child = parent + "/xattr/"@ + text::decimal(index);
            let ns = logical_namespace(o.namespace_https);
            &&& stated(after.graph, child, ns + "name"@) == stated(
                w.graph,
                child,
                ns + "name"@,
            ).push(
                TermView::Literal(attribute.0, "http://www.w3.org/2001/XMLSchema#string"@),
            )
            &&& stated(after.graph, child, "http://aff4.org/Schema#size"@) == stated(
                w.graph,
                child,
                "http://aff4.org/Schema#size"@,
            ).push(
                TermView::Literal(
                    text::decimal(attribute.1.len()),
                    "http://www.w3.org/2001/XMLSchema#long"@,
                ),
            )
            &&& stated(after.graph, child, "http://aff4.org/Schema#target"@) == stated(
                w.graph,
                child,
                "http://aff4.org/Schema#target"@,
            ).push(TermView::Iri(parent))
            &&& stated(after.graph, parent, ns + "extendedAttribute"@) == stated(
                w.graph,
                parent,
                ns + "extendedAttribute"@,
            ).push(TermView::Iri(child))
            &&& attribute.1.len() <= 1024 ==> stated(after.graph, child, ns + "dataStream"@)
                == stated(w.graph, child, ns + "dataStream"@).push(
                TermView::Literal(
                    base64(attribute.1),
                    "http://www.w3.org/2001/XMLSchema#base64Binary"@,
                ),
            ) && after.members == w.members
            &&& attribute.1.len() > 1024 ==> after.members.len() == w.members.len() + 1
                && after.members.last().data == attribute.1 && after.members.last().name
                == segment_name(w.volume, child, o.profile)
        }),
{
    let https = o.namespace_https;
    let after = attribute_written(w, parent, index, attribute, o);
    let child = attribute_arn(parent, index);
    let ns = logical_namespace(https);
    attribute_terms_stand_apart(https);
    assert(child.len() > parent.len()) by {
        reveal_strlit("/xattr/");
    }
    let g0 = w.graph;
    let n = g0.len() as int;
    let t0 = after.graph[n];
    let t1 = after.graph[n + 1];
    let t2 = after.graph[n + 2];
    let t3 = after.graph[n + 3];
    let t4 = after.graph[n + 4];
    let t5 = after.graph[n + 5];
    assert(after.graph =~= g0.push(t0).push(t1).push(t2).push(t3).push(t4).push(t5));
    six_more(g0, t0, t1, t2, t3, t4, t5, child, ns + "name"@);
    six_more(g0, t0, t1, t2, t3, t4, t5, child, ns + "dataStream"@);
    six_more(g0, t0, t1, t2, t3, t4, t5, child, "http://aff4.org/Schema#size"@);
    six_more(g0, t0, t1, t2, t3, t4, t5, child, "http://aff4.org/Schema#target"@);
    six_more(g0, t0, t1, t2, t3, t4, t5, parent, ns + "extendedAttribute"@);
}

/// What a statement adds under a term.
spec fn adds(t: TripleView, subject: Seq<char>, p: Seq<char>) -> Seq<TermView> {
    if t.subject == subject && t.predicate == p {
        seq![t.object]
    } else {
        Seq::empty()
    }
}

/// What six more statements say.
proof fn six_more(
    g: Seq<TripleView>,
    t0: TripleView,
    t1: TripleView,
    t2: TripleView,
    t3: TripleView,
    t4: TripleView,
    t5: TripleView,
    subject: Seq<char>,
    p: Seq<char>,
)
    ensures
        stated(g.push(t0).push(t1).push(t2).push(t3).push(t4).push(t5), subject, p) == stated(
            g,
            subject,
            p,
        ) + adds(t0, subject, p) + adds(t1, subject, p) + adds(t2, subject, p) + adds(
            t3,
            subject,
            p,
        ) + adds(t4, subject, p) + adds(t5, subject, p),
{
    said_with_one_more(g, t0, subject, p);
    said_with_one_more(g.push(t0), t1, subject, p);
    said_with_one_more(g.push(t0).push(t1), t2, subject, p);
    said_with_one_more(g.push(t0).push(t1).push(t2), t3, subject, p);
    said_with_one_more(g.push(t0).push(t1).push(t2).push(t3), t4, subject, p);
    said_with_one_more(g.push(t0).push(t1).push(t2).push(t3).push(t4), t5, subject, p);
    assert(stated(g.push(t0).push(t1).push(t2).push(t3).push(t4).push(t5), subject, p)
        =~= stated(g, subject, p) + adds(t0, subject, p) + adds(t1, subject, p) + adds(
        t2,
        subject,
        p,
    ) + adds(t3, subject, p) + adds(t4, subject, p) + adds(t5, subject, p));
}

/// Every extended attribute of a file is said to be one of it, in their order.
pub proof fn attributes_are_listed(
    w: WriterView,
    parent: Seq<char>,
    attributes: Seq<(Seq<char>, Seq<u8>)>,
    o: OptionsView,
)
    requires
        o.profile == LogicalProfile::V1Alpha,
        forall|i: int|
            0 <= i < attributes.len() ==> (#[trigger] attributes[i]).1.len() <= u64::MAX,
    ensures
        ({
            let p = logical_namespace(o.namespace_https) + "extendedAttribute"@;
            stated(attributes_written(w, parent, attributes, o).graph, parent, p) == stated(
                w.graph,
                parent,
                p,
            ) + Seq::new(
                attributes.len(),
                |i: int| TermView::Iri(parent + "/xattr/"@ + text::decimal(i as nat)),
            )
        }),
    decreases attributes.len(),
{
    let p = logical_namespace(o.namespace_https) + "extendedAttribute"@;
    let names = Seq::new(
        attributes.len(),
        |i: int| TermView::Iri(parent + "/xattr/"@ + text::decimal(i as nat)),
    );
    if attributes.len() > 0 {
        let shorter = attributes.drop_last();
        assert forall|i: int| 0 <= i < shorter.len() implies (#[trigger] shorter[i]).1.len()
            <= u64::MAX by {
            assert(shorter[i] == attributes[i]);
        }
        attributes_are_listed(w, parent, shorter, o);
        assert(attributes.last() == attributes[attributes.len() - 1]);
        attributes_are_described(
            attributes_written(w, parent, shorter, o),
            parent,
            (attributes.len() - 1) as nat,
            attributes.last(),
            o,
        );
        let fewer = Seq::new(
            shorter.len(),
            |i: int| TermView::Iri(parent + "/xattr/"@ + text::decimal(i as nat)),
        );
        assert(names =~= fewer.push(
            TermView::Iri(
                parent + "/xattr/"@ + text::decimal((attributes.len() - 1) as nat),
            ),
        ));
        assert(stated(w.graph, parent, p) + names =~= (stated(w.graph, parent, p) + fewer).push(
            TermView::Iri(
                parent + "/xattr/"@ + text::decimal((attributes.len() - 1) as nat),
            ),
        ));
    } else {
        assert(stated(w.graph, parent, p) + names =~= stated(w.graph, parent, p));
    }
}

/// A file that goes to a pool of chunks waits for its map with its own name, its own length
/// and the number of each of its chunks.
pub proof fn pooled_files_wait(
    s: StoreView,
    path: PathView,
    arn: Seq<char>,
    size: u64,
    facts: FactsView,
    names: MintedView,
    o: OptionsView,
    pool: PoolView,
    data: Seq<u8>,
)
    requires
        s.pool == Some(pool),
        pool.chunk_size > 0,
        data.len() <= u64::MAX,
        facts.content == Ok::<Seq<u8>, Seq<char>>(data),
    ensures
        ({
            let after = file_recorded(s, path, arn, size, facts, names, o);
            &&& after.pool == Some(pool.with_file(data).0)
            &&& after.shared == s.shared
            &&& after.standing.result.deduped == s.standing.result.deduped.push(
                PendingView {
                    arn,
                    target_ids: pool.with_file(data).1,
                    size: data.len() as u64,
                },
            )
        }),
{
    assert(data.take(data.len() as int) =~= data);
}

/// Each file that waited for its map gets it once the pool is written: a member whose
/// entries are the file's chunks, in their order, and one that names their targets.
pub proof fn waiting_files_are_mapped(
    w: WriterView,
    pending: Seq<PendingView>,
    targets: Seq<Seq<char>>,
    chunk_size: u64,
    locus: LocusView,
    j: int,
)
    requires
        pending_mapped(w, pending, targets, chunk_size, locus).1 is None,
        0 <= j < pending.len(),
    ensures
        ({
            let after = pending_mapped(w, pending, targets, chunk_size, locus).0;
            let file = pending[j];
            let used = covering(file.target_ids, file.size, chunk_size);
            &&& after.volume == w.volume
            &&& after.mapping == w.mapping
            &&& slice_fault(file.target_ids, targets.len(), file.size, chunk_size) is None
            &&& member_of(file.arn, w.volume, w.mapping) matches Some(base) && after.members.contains(
                MemberView {
                    name: base + "/map"@,
                    data: entries_bytes(slice_entries(used, file.size, chunk_size)),
                    deflated: false,
                },
            ) && after.members.contains(
                MemberView {
                    name: base + "/idx"@,
                    data: target_lines(slice_targets(used, targets)),
                    deflated: false,
                },
            )
        }),
    decreases pending.len(),
{
    let (before, e) = pending_mapped(w, pending.drop_last(), targets, chunk_size, locus);
    let after = pending_mapped(w, pending, targets, chunk_size, locus).0;
    let last = pending.last();
    if e is None {
        if pending.len() > 1 {
            waiting_files_are_mapped(w, pending.drop_last(), targets, chunk_size, locus, 0);
        }
        let used = covering(last.target_ids, last.size, chunk_size);
        let base = member_of(last.arn, before.volume, before.mapping)->Some_0;
        let entries = slice_entries(used, last.size, chunk_size);
        let named = slice_targets(used, targets);
        maps_are_told(before, base, last.arn, last.arn, entries, named, 0, Seq::empty());
        if j < pending.len() - 1 {
            waiting_files_are_mapped(w, pending.drop_last(), targets, chunk_size, locus, j);
            let file = pending[j];
            let own = member_of(file.arn, w.volume, w.mapping)->Some_0;
            let theirs = covering(file.target_ids, file.size, chunk_size);
            member_stays(
                before.members,
                after.members,
                MemberView {
                    name: own + "/map"@,
                    data: entries_bytes(slice_entries(theirs, file.size, chunk_size)),
                    deflated: false,
                },
            );
            member_stays(
                before.members,
                after.members,
                MemberView {
                    name: own + "/idx"@,
                    data: target_lines(slice_targets(theirs, targets)),
                    deflated: false,
                },
            );
        }
    }
}

/// A member stays one where only others are added.
proof fn member_stays(before: Seq<MemberView>, after: Seq<MemberView>, m: MemberView)
    requires
        before.is_prefix_of(after),
        before.contains(m),
    ensures
        after.contains(m),
{
    let k = choose|k: int| 0 <= k < before.len() && before[k] == m;
    assert(after[k] == m);
}

/// Once a pool is written, the name of each chunk is said to be the slice of the pool's
/// stream that the chunk is.
pub proof fn chunks_say_where_they_are(
    w: WriterView,
    p: PoolView,
    o: StreamOptions,
    locus: LocusView,
    i: int,
)
    requires
        pool_written(w, p, o, locus) is Ok,
        0 <= i < p.unique.len(),
    ensures
        pool_written(w, p, o, locus)->Ok_0.graph.contains(
            statement(
                block_names(p.unique)[i],
                "http://aff4.org/Schema#dataStream"@,
                TermView::Iri(
                    slice_name(w.volume + "/blocks"@, (i * p.chunk_size) as nat, p.chunk_size),
                ),
            ),
        ),
{
    reveal_strlit("http://aff4.org/Schema#");
    reveal_strlit("dataStream");
    reveal_strlit("http://aff4.org/Schema#dataStream");
    assert(standard_iri("dataStream"@) =~= "http://aff4.org/Schema#dataStream"@);
    let after = pool_written(w, p, o, locus)->Ok_0.graph;
    let places = place_triples(p, w.volume + "/blocks"@);
    let k = after.len() - places.len() + i;
    assert(after[k] == places[i]);
}

/// What an acquisition is said to have done when it is finished is what it had counted; of
/// a pool it says how many different chunks it holds, how many bytes these are and how many
/// were presented, and no file waits any more.
pub proof fn finished_acquisitions_are_counted(
    store: StoreView,
    task: Seq<char>,
    o: OptionsView,
    locus: LocusView,
)
    requires
        acquisition_finished(store, task, o, locus).1 is Ok,
        store.pool matches Some(p) ==> p.unique.len() <= usize::MAX,
    ensures
        ({
            let a = acquisition_finished(store, task, o, locus).1->Ok_0;
            let counted = store.standing.result;
            &&& a.files == counted.files
            &&& a.folders == counted.folders
            &&& a.bytes == counted.bytes
            &&& a.substreams == counted.substreams
            &&& a.skipped == counted.skipped
            &&& a.changed == counted.changed
            &&& store.pool matches Some(p) ==> (a.dedupe matches Some(d) && d.unique_chunks
                == p.unique.len() && d.stored == p.stored && d.presented == p.presented)
                && a.deduped.len() == 0
            &&& store.pool is None ==> a.dedupe == counted.dedupe && a.deduped == counted.deduped
        }),
{
}

/// A stream that files shared, and that was not described before, is declared once it is
/// closed: of the length of all that was added to it, cut and compressed as it was begun.
pub proof fn shared_streams_are_declared(
    w: WriterView,
    b: BuilderView,
    lexicon: Lexicon,
    at: LocusView,
)
    requires
        is_undescribed(w.graph, b.arn),
        is_standard(lexicon),
        b.options.chunk_size > 0,
        b.options.chunks_per_segment > 0,
        b.content.len() <= u64::MAX,
    ensures
        stream_declared(
            b.arn,
            b.closed_in(w, Seq::<DigestView>::empty()).graph,
            lexicon,
            at,
        ) == Ok::<StreamView, ErrorView>(
            StreamView {
                arn: b.arn,
                size: b.content.len() as u64,
                chunk_size: b.options.chunk_size,
                chunks_in_segment: b.options.chunks_per_segment,
                codec: b.options.codec,
            },
        ),
{
    let none = Seq::<HashAlgorithm>::empty();
    written_streams_are_declared(w, b, b.content, none, lexicon, at);
    assert(digests_under(none, b.content) =~= Seq::empty());
    assert(b.closed_in(w, Seq::<DigestView>::empty()).graph =~= stream_written(
        w,
        b,
        b.content,
        none,
    ).graph);
}

} // verus!
