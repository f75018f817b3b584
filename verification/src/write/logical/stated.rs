//! What the statements about an acquired entry say of it, term by term.

use vstd::prelude::*;

use crate::error::{ErrorView, LocusView};
use crate::hash::digests_under;
use crate::lexicon::{
    aff4l_iri, standard_iri, standard_namespace, AFF4L_NAMESPACE, AFF4L_NAMESPACE_HTTPS,
    XSD_BASE64_BINARY, XSD_DATE_TIME, XSD_LONG, XSD_STRING,
};
use crate::model::HashAlgorithm;
use crate::naming::NameView;
use crate::rdf::{object_of, type_predicate, typed_as, TermView, TripleView};
use crate::text;
use crate::write::container_writer::WriterView;
use crate::write::logical::acquire::{entry_name, folder_entered, item_acquired, AcquireView};
use crate::write::logical::names::{entry_names, LogicalProfile, PathView};
use crate::write::logical::record::{
    attributes_written, buffered_recorded, deduplicated_recorded, entry_triples, file_recorded,
    introduced_file, large_recorded, literal, mode_triples, name_triples, optional_literal,
    own_map_mapped, own_map_recorded, path_triples, shared_recorded, states_place, time_triples,
    with_block_hashes, FactsView, MintedView, Standing, StoreView,
};
use crate::write::logical::stamps::StampsView;
use crate::write::logical::storage::{storage_for, OptionsView, StreamKind};
use crate::write::logical::terms;
use crate::write::scan::ItemView;
use crate::write::stream_writer::{
    block_digests, block_triples, digest_triples, layout_triples, stream_begun, stream_of,
    stream_written, BuilderView,
};

verus! {

/// Every value that statements give a property of a resource, in the order they were made.
pub open spec fn stated(g: Seq<TripleView>, subject: Seq<char>, predicate: Seq<char>) -> Seq<
    TermView,
>
    decreases g.len(),
{
    if g.len() == 0 {
        Seq::empty()
    } else {
        let before = stated(g.drop_last(), subject, predicate);
        if g.last().subject == subject && g.last().predicate == predicate {
            before.push(g.last().object)
        } else {
            before
        }
    }
}

/// What statements say one after the other, they say together.
pub proof fn stated_in_order(
    a: Seq<TripleView>,
    b: Seq<TripleView>,
    subject: Seq<char>,
    predicate: Seq<char>,
)
    ensures
        stated(a + b, subject, predicate) == stated(a, subject, predicate) + stated(
            b,
            subject,
            predicate,
        ),
    decreases b.len(),
{
    if b.len() == 0 {
        assert(a + b =~= a);
    } else {
        stated_in_order(a, b.drop_last(), subject, predicate);
        assert((a + b).drop_last() =~= a + b.drop_last());
        assert((a + b).last() == b.last());
    }
}

/// What a reader finds of a property is the first of its values.
pub proof fn first_value_is_read(
    g: Seq<TripleView>,
    subject: Seq<char>,
    predicate: Seq<char>,
)
    ensures
        object_of(g, subject, predicate) == (if stated(g, subject, predicate).len() > 0 {
            Some(stated(g, subject, predicate)[0])
        } else {
            None
        }),
    decreases g.len(),
{
    if g.len() > 0 {
        let first = seq![g[0]];
        let rest = g.skip(1);
        first_value_is_read(rest, subject, predicate);
        stated_in_order(first, rest, subject, predicate);
        assert(first + rest =~= g);
        assert(first.drop_last() =~= Seq::empty());
        assert(stated(first.drop_last(), subject, predicate) =~= Seq::empty());
    }
}

/// A value that there may be.
pub open spec fn perhaps(value: Option<Seq<char>>, datatype: Seq<char>) -> Seq<TermView> {
    match value {
        Some(v) => seq![TermView::Literal(v, datatype)],
        None => Seq::empty(),
    }
}

/// The terms that say what an entry was on its filesystem.
pub open spec fn is_entry_term(p: Seq<char>) -> bool {
    ||| p == "http://aff4.org/Schema#birthTime"@
    ||| p == "http://aff4.org/Schema#lastWritten"@
    ||| p == "http://aff4.org/Schema#lastAccessed"@
    ||| p == "http://aff4.org/Schema#recordChanged"@
    ||| p == "http://aff4.org/Schema#fileMode"@
    ||| p == "http://aff4.org/Schema#originalFileName"@
    ||| p == "http://aff4.org/Schema#originalPathName"@
    ||| p == "http://aff4.org/Schema#originalPathNameRaw"@
    ||| p == "http://aff4.org/Schema#fileName"@
    ||| p == "http://aff4.org/Schema#fileNameRaw"@
}

/// What every entry term has in common.
spec fn looks_like_entry(p: Seq<char>) -> bool {
    &&& p.len() > 23
    &&& p[4] == ':'
    &&& p[7] == 'a'
    &&& p[22] == '#'
    &&& p[23] == 'b' || p[23] == 'l' || p[23] == 'r' || p[23] == 'f' || p[23] == 'o'
    &&& p[23] == 'b' ==> p.len() == 32
    &&& p[23] == 'f' ==> p[24] == 'i' && p[25] == 'l' && p[26] == 'e'
}

/// What no entry term is called.
spec fn is_other(local: Seq<char>) -> bool {
    &&& local.len() > 3
    &&& local[0] != 'l' && local[0] != 'r' && local[0] != 'o'
    &&& local[0] == 'b' ==> local.len() == 12
    &&& local[0] == 'f' ==> local[3] != 'e'
}

/// Every entry term is in the standard's namespace.
proof fn entry_terms_look_alike(p: Seq<char>)
    requires
        is_entry_term(p),
    ensures
        looks_like_entry(p),
{
    reveal_strlit("http://aff4.org/Schema#birthTime");
    reveal_strlit("http://aff4.org/Schema#lastWritten");
    reveal_strlit("http://aff4.org/Schema#lastAccessed");
    reveal_strlit("http://aff4.org/Schema#recordChanged");
    reveal_strlit("http://aff4.org/Schema#fileMode");
    reveal_strlit("http://aff4.org/Schema#originalFileName");
    reveal_strlit("http://aff4.org/Schema#originalPathName");
    reveal_strlit("http://aff4.org/Schema#originalPathNameRaw");
    reveal_strlit("http://aff4.org/Schema#fileName");
    reveal_strlit("http://aff4.org/Schema#fileNameRaw");
}

/// An entry term is not one of another kind.
proof fn stands_apart(p: Seq<char>, local: Seq<char>, https: bool)
    requires
        looks_like_entry(p),
        is_other(local),
    ensures
        p != standard_iri(local),
        p != aff4l_iri(local, https),
        p != type_predicate(),
{
    reveal_strlit("http://aff4.org/Schema#");
    reveal_strlit("http://aff4.org/Schema/AFF4-L#");
    reveal_strlit("https://aff4.org/Schema/AFF4-L#");
    reveal_strlit("http://www.w3.org/1999/02/22-rdf-syntax-ns#type");
    let q = standard_iri(local);
    assert(standard_namespace().len() == 23);
    assert(q[23] == local[0]);
    assert(q[26] == local[3]);
    assert(q.len() == 23 + local.len());
    let a = AFF4L_NAMESPACE@ + local;
    assert(a[22] == '/');
    let b = AFF4L_NAMESPACE_HTTPS@ + local;
    assert(b[4] == 's');
}

/// Whether statements were added, none of them under a term.
pub open spec fn grew_without(
    before: Seq<TripleView>,
    after: Seq<TripleView>,
    p: Seq<char>,
) -> bool {
    &&& before.len() <= after.len()
    &&& forall|i: int| 0 <= i < before.len() ==> #[trigger] after[i] == before[i]
    &&& forall|i: int|
        before.len() <= i < after.len() ==> (#[trigger] after[i]).predicate != p
}

/// Statements under other terms say nothing under a term.
pub proof fn other_terms_keep(
    before: Seq<TripleView>,
    after: Seq<TripleView>,
    subject: Seq<char>,
    p: Seq<char>,
)
    requires
        grew_without(before, after, p),
    ensures
        stated(after, subject, p) == stated(before, subject, p),
    decreases after.len(),
{
    if after.len() == before.len() {
        assert(after =~= before);
    } else {
        other_terms_keep(before, after.drop_last(), subject, p);
    }
}

/// The names of the terms of other kinds.
proof fn others_are_called()
    ensures
        is_other("hash"@),
        is_other("size"@),
        is_other("stored"@),
        is_other("chunkSize"@),
        is_other("chunksInSegment"@),
        is_other("compressionMethod"@),
        is_other("target"@),
        is_other("dependentStream"@),
        is_other("dataStream"@),
        is_other("mapPointHash"@),
        is_other("mapIdxHash"@),
        is_other("mapPathHash"@),
        is_other("mapHash"@),
        is_other("blockMapHash"@),
        is_other("name"@),
        is_other("extendedAttribute"@),
        is_other("child"@),
{
    reveal_strlit("hash");
    reveal_strlit("size");
    reveal_strlit("stored");
    reveal_strlit("chunkSize");
    reveal_strlit("chunksInSegment");
    reveal_strlit("compressionMethod");
    reveal_strlit("target");
    reveal_strlit("dependentStream");
    reveal_strlit("dataStream");
    reveal_strlit("mapPointHash");
    reveal_strlit("mapIdxHash");
    reveal_strlit("mapPathHash");
    reveal_strlit("mapHash");
    reveal_strlit("blockMapHash");
    reveal_strlit("name");
    reveal_strlit("extendedAttribute");
    reveal_strlit("child");
}

/// The terms that say how an entry's bytes are stored.
spec fn is_storage_term(p: Seq<char>, https: bool) -> bool {
    ||| p == type_predicate()
    ||| p == standard_iri("hash"@)
    ||| p == standard_iri("size"@)
    ||| p == standard_iri("stored"@)
    ||| p == standard_iri("chunkSize"@)
    ||| p == standard_iri("chunksInSegment"@)
    ||| p == standard_iri("compressionMethod"@)
    ||| p == standard_iri("target"@)
    ||| p == standard_iri("dependentStream"@)
    ||| p == standard_iri("dataStream"@)
    ||| p == standard_iri("mapPointHash"@)
    ||| p == standard_iri("mapIdxHash"@)
    ||| p == standard_iri("mapPathHash"@)
    ||| p == standard_iri("mapHash"@)
    ||| p == standard_iri("blockMapHash"@)
    ||| p == standard_iri("child"@)
    ||| p == aff4l_iri("name"@, https)
    ||| p == aff4l_iri("extendedAttribute"@, https)
    ||| p == aff4l_iri("dataStream"@, https)
}

/// An entry term says nothing of storage.
proof fn entry_terms_stand_apart(p: Seq<char>, https: bool)
    requires
        is_entry_term(p),
    ensures
        !is_storage_term(p, https),
{
    others_are_called();
    entry_terms_look_alike(p);
    stands_apart(p, "hash"@, https);
    stands_apart(p, "size"@, https);
    stands_apart(p, "stored"@, https);
    stands_apart(p, "chunkSize"@, https);
    stands_apart(p, "chunksInSegment"@, https);
    stands_apart(p, "compressionMethod"@, https);
    stands_apart(p, "target"@, https);
    stands_apart(p, "dependentStream"@, https);
    stands_apart(p, "dataStream"@, https);
    stands_apart(p, "mapPointHash"@, https);
    stands_apart(p, "mapIdxHash"@, https);
    stands_apart(p, "mapPathHash"@, https);
    stands_apart(p, "mapHash"@, https);
    stands_apart(p, "blockMapHash"@, https);
    stands_apart(p, "name"@, https);
    stands_apart(p, "extendedAttribute"@, https);
    stands_apart(p, "child"@, https);
}

/// An extended attribute says nothing of its file under an entry term.
proof fn attributes_say_little(
    w: WriterView,
    parent: Seq<char>,
    attributes: Seq<(Seq<char>, Seq<u8>)>,
    o: OptionsView,
    p: Seq<char>,
)
    requires
        !is_storage_term(p, o.namespace_https),
    ensures
        grew_without(w.graph, attributes_written(w, parent, attributes, o).graph, p),
    decreases attributes.len(),
{
    if attributes.len() > 0 {
        attributes_say_little(w, parent, attributes.drop_last(), o, p);
    }
}

/// Digests of chunk digests are stated under other terms.
proof fn block_terms(arn: Seq<char>, blocks: Seq<(HashAlgorithm, Seq<char>)>, i: int)
    requires
        0 <= i < block_triples(arn, blocks).len(),
    ensures
        block_triples(arn, blocks)[i].predicate == type_predicate() || block_triples(
            arn,
            blocks,
        )[i].predicate == standard_iri("hash"@),
    decreases blocks.len(),
{
    if blocks.len() > 0 && i < block_triples(arn, blocks.drop_last()).len() {
        block_terms(arn, blocks.drop_last(), i);
    }
}

/// A stream's statements are under other terms.
proof fn streams_say_little(
    w: WriterView,
    begun: BuilderView,
    data: Seq<u8>,
    algorithms: Seq<HashAlgorithm>,
    p: Seq<char>,
    https: bool,
)
    requires
        !is_storage_term(p, https),
    ensures
        grew_without(w.graph, stream_written(w, begun, data, algorithms).graph, p),
{
    let b = stream_of(begun, data);
    let layout = layout_triples(b.arn, w.volume, b.options, data.len());
    let digests = digest_triples(b.arn, digests_under(algorithms, data));
    let list = block_digests(b.options, data);
    let blocks = block_triples(b.arn, list);
    let after = stream_written(w, begun, data, algorithms).graph;
    assert(after == w.graph + (layout + digests + blocks));
    assert forall|i: int| w.graph.len() <= i < after.len() implies (
    #[trigger] after[i]).predicate != p by {
        let j = i - w.graph.len();
        if j < layout.len() {
            assert(after[i] == layout[j]);
        } else if j < layout.len() + digests.len() {
            assert(after[i] == digests[j - layout.len()]);
        } else {
            let k = j - layout.len() - digests.len();
            assert(after[i] == blocks[k]);
            block_terms(b.arn, list, k);
        }
    }
}

/// A map's statements are under other terms.
proof fn maps_say_little(
    s: Standing,
    path: PathView,
    arn: Seq<char>,
    stream: Seq<char>,
    length: nat,
    blocks: Seq<(HashAlgorithm, Seq<char>)>,
    map: Option<Seq<char>>,
    o: OptionsView,
    p: Seq<char>,
)
    requires
        !is_storage_term(p, o.namespace_https),
    ensures
        grew_without(
            s.writer.graph,
            own_map_mapped(s, path, arn, stream, length, blocks, map, o).writer.graph,
            p,
        ),
{
}

/// A file's digests and length are stated under other terms.
proof fn descriptions_say_little(
    s: Standing,
    path: PathView,
    arn: Seq<char>,
    size: u64,
    data: Seq<u8>,
    o: OptionsView,
    p: Seq<char>,
)
    requires
        !is_storage_term(p, o.namespace_https),
    ensures
        grew_without(s.writer.graph, s.described(path, arn, size, data, o).writer.graph, p),
{
}

/// A step after a step.
proof fn grew_in_turn(
    a: Seq<TripleView>,
    b: Seq<TripleView>,
    c: Seq<TripleView>,
    p: Seq<char>,
)
    requires
        grew_without(a, b, p),
        grew_without(b, c, p),
    ensures
        grew_without(a, c, p),
{
    assert forall|i: int| 0 <= i < a.len() implies #[trigger] c[i] == a[i] by {
        assert(b[i] == a[i]);
        assert(c[i] == b[i]);
    }
    assert forall|i: int| a.len() <= i < c.len() implies (#[trigger] c[i]).predicate != p by {
        if i < b.len() {
            assert(c[i] == b[i]);
        }
    }
}

/// A file's own stream, with or without a map, is stated under other terms.
#[verifier::rlimit(40)]
proof fn own_streams_say_little(
    s: Standing,
    path: PathView,
    arn: Seq<char>,
    size: u64,
    content: Result<Seq<u8>, Seq<char>>,
    names: MintedView,
    o: OptionsView,
    p: Seq<char>,
)
    requires
        !is_storage_term(p, o.namespace_https),
    ensures
        grew_without(
            s.writer.graph,
            large_recorded(s, path, arn, size, content, o).writer.graph,
            p,
        ),
        grew_without(
            s.writer.graph,
            own_map_recorded(s, path, arn, size, content, names, o).writer.graph,
            p,
        ),
{
    let locus = LocusView::file(path.display);
    let so = with_block_hashes(o.stream);
    let g = s.writer.graph;
    match content {
        Err(_) => {},
        Ok(data) => {
            match stream_begun(s.writer, arn, so, locus) {
                Err(_) => {},
                Ok(begun) => {
                    streams_say_little(
                        s.writer,
                        begun,
                        data,
                        o.recorded_algorithms(),
                        p,
                        o.namespace_https,
                    );
                },
            }
            match names.stream {
                Err(_) => {},
                Ok(stream) => match stream_begun(
                    s.writer,
                    stream,
                    so,
                    locus,
                ) {
                    Err(_) => {},
                    Ok(begun) => {
                        let w = stream_written(s.writer, begun, data, o.recorded_algorithms());
                        streams_say_little(
                            s.writer,
                            begun,
                            data,
                            o.recorded_algorithms(),
                            p,
                            o.namespace_https,
                        );
                        let written = Standing { writer: w, ..s };
                        let described = written.described(path, arn, size, data, o);
                        descriptions_say_little(written, path, arn, size, data, o, p);
                        grew_in_turn(g, w.graph, described.writer.graph, p);
                        let blocks = block_digests(so, data);
                        let map = if o.datastream_indirect {
                            match names.map {
                                Ok(map) => Some(map),
                                Err(_) => None,
                            }
                        } else {
                            None
                        };
                        maps_say_little(
                            described,
                            path,
                            arn,
                            stream,
                            data.len(),
                            blocks,
                            map,
                            o,
                            p,
                        );
                        let mapped = own_map_mapped(
                            described,
                            path,
                            arn,
                            stream,
                            data.len(),
                            blocks,
                            map,
                            o,
                        );
                        grew_in_turn(g, described.writer.graph, mapped.writer.graph, p);
                    },
                },
            }
        },
    }
}

/// A run of a shared stream is stated under other terms.
proof fn shared_runs_say_little(
    s: Standing,
    shared: Option<BuilderView>,
    path: PathView,
    arn: Seq<char>,
    size: u64,
    content: Result<Seq<u8>, Seq<char>>,
    o: OptionsView,
    p: Seq<char>,
)
    requires
        !is_storage_term(p, o.namespace_https),
    ensures
        grew_without(
            s.writer.graph,
            shared_recorded(s, shared, path, arn, size, content, o).0.writer.graph,
            p,
        ),
{
}

/// How a file's bytes are stored is stated under other terms.
#[verifier::rlimit(40)]
proof fn storage_says_little(
    s: StoreView,
    begun: Standing,
    path: PathView,
    arn: Seq<char>,
    size: u64,
    facts: FactsView,
    names: MintedView,
    o: OptionsView,
    p: Seq<char>,
)
    requires
        !is_storage_term(p, o.namespace_https),
        begun == introduced_file(
            s.standing,
            path,
            arn,
            states_place(
                storage_for(StreamKind::Primary, size, o.profile, o.storage_form),
                s.pool is Some,
            ),
            facts,
            o,
        ),
    ensures
        grew_without(
            begun.writer.graph,
            file_recorded(s, path, arn, size, facts, names, o).standing.writer.graph,
            p,
        ),
{
    let form = storage_for(StreamKind::Primary, size, o.profile, o.storage_form);
    own_streams_say_little(begun, path, arn, size, facts.content, names, o, p);
    shared_runs_say_little(begun, s.shared, path, arn, size, facts.content, o, p);
    assert(grew_without(
        begun.writer.graph,
        buffered_recorded(begun, path, arn, size, form, facts.content, o).writer.graph,
        p,
    ));
    match s.pool {
        Some(pool) => {
            assert(grew_without(
                begun.writer.graph,
                deduplicated_recorded(
                    begun,
                    pool,
                    path,
                    arn,
                    size,
                    facts.content,
                    o,
                ).0.writer.graph,
                p,
            ));
        },
        None => {},
    }
}

/// What an entry's metadata says under an entry term is all that recording a file says
/// under it.
#[verifier::rlimit(40)]
proof fn files_state_entries(
    s: StoreView,
    path: PathView,
    arn: Seq<char>,
    size: u64,
    facts: FactsView,
    names: MintedView,
    o: OptionsView,
    subject: Seq<char>,
    p: Seq<char>,
)
    requires
        is_entry_term(p),
    ensures
        ({
            let before = s.standing.writer;
            let after = file_recorded(s, path, arn, size, facts, names, o).standing.writer;
            stated(after.graph, subject, p) == stated(before.graph, subject, p) + stated(
                path_triples(arn, path, o.profile) + time_triples(arn, facts.stamps)
                    + mode_triples(arn, facts.stamps, o.profile),
                subject,
                p,
            )
        }),
{
    let form = storage_for(StreamKind::Primary, size, o.profile, o.storage_form);
    let placed = states_place(form, s.pool is Some);
    let before = s.standing.writer;
    let begun = introduced_file(s.standing, path, arn, placed, facts, o);
    let after = file_recorded(s, path, arn, size, facts, names, o).standing.writer;
    let entry = path_triples(arn, path, o.profile) + time_triples(arn, facts.stamps)
        + mode_triples(arn, facts.stamps, o.profile);
    entry_terms_stand_apart(p, o.namespace_https);
    let stated_so_far = before.graph + entry;
    let typed = before.state_all(
        entry_triples(arn, path, facts.stamps, before.volume, o.profile, placed),
    ).state(typed_as(arn, standard_iri(terms::FILE_IMAGE@))).state(
        typed_as(arn, standard_iri("Image"@)),
    );
    assert(grew_without(stated_so_far, typed.graph, p));
    attributes_say_little(typed, arn, facts.attributes, o, p);
    grew_in_turn(stated_so_far, typed.graph, begun.writer.graph, p);
    storage_says_little(s, begun, path, arn, size, facts, names, o, p);
    grew_in_turn(stated_so_far, begun.writer.graph, after.graph, p);
    other_terms_keep(stated_so_far, after.graph, subject, p);
    stated_in_order(before.graph, entry, subject, p);
}

/// The entry terms, spelled out.
pub proof fn entry_terms_are_spelled()
    ensures
        standard_iri(terms::BIRTH_TIME@) == "http://aff4.org/Schema#birthTime"@,
        standard_iri(terms::LAST_WRITTEN@) == "http://aff4.org/Schema#lastWritten"@,
        standard_iri(terms::LAST_ACCESSED@) == "http://aff4.org/Schema#lastAccessed"@,
        standard_iri(terms::RECORD_CHANGED@) == "http://aff4.org/Schema#recordChanged"@,
        standard_iri(terms::FILE_MODE@) == "http://aff4.org/Schema#fileMode"@,
        standard_iri(terms::ORIGINAL_FILE_NAME@) == "http://aff4.org/Schema#originalFileName"@,
        standard_iri(terms::ORIGINAL_PATH_NAME@) == "http://aff4.org/Schema#originalPathName"@,
        standard_iri(terms::ORIGINAL_PATH_NAME_RAW@)
            == "http://aff4.org/Schema#originalPathNameRaw"@,
        standard_iri(terms::FILE_NAME@) == "http://aff4.org/Schema#fileName"@,
        standard_iri(terms::FILE_NAME_RAW@) == "http://aff4.org/Schema#fileNameRaw"@,
{
    reveal_strlit("http://aff4.org/Schema#");
    reveal_strlit("birthTime");
    reveal_strlit("lastWritten");
    reveal_strlit("lastAccessed");
    reveal_strlit("recordChanged");
    reveal_strlit("fileMode");
    reveal_strlit("originalFileName");
    reveal_strlit("originalPathName");
    reveal_strlit("originalPathNameRaw");
    reveal_strlit("fileName");
    reveal_strlit("fileNameRaw");
    reveal_strlit("http://aff4.org/Schema#birthTime");
    reveal_strlit("http://aff4.org/Schema#lastWritten");
    reveal_strlit("http://aff4.org/Schema#lastAccessed");
    reveal_strlit("http://aff4.org/Schema#recordChanged");
    reveal_strlit("http://aff4.org/Schema#fileMode");
    reveal_strlit("http://aff4.org/Schema#originalFileName");
    reveal_strlit("http://aff4.org/Schema#originalPathName");
    reveal_strlit("http://aff4.org/Schema#originalPathNameRaw");
    reveal_strlit("http://aff4.org/Schema#fileName");
    reveal_strlit("http://aff4.org/Schema#fileNameRaw");
    assert(standard_iri(terms::BIRTH_TIME@) =~= "http://aff4.org/Schema#birthTime"@);
    assert(standard_iri(terms::LAST_WRITTEN@) =~= "http://aff4.org/Schema#lastWritten"@);
    assert(standard_iri(terms::LAST_ACCESSED@) =~= "http://aff4.org/Schema#lastAccessed"@);
    assert(standard_iri(terms::RECORD_CHANGED@) =~= "http://aff4.org/Schema#recordChanged"@);
    assert(standard_iri(terms::FILE_MODE@) =~= "http://aff4.org/Schema#fileMode"@);
    assert(standard_iri(terms::ORIGINAL_FILE_NAME@)
        =~= "http://aff4.org/Schema#originalFileName"@);
    assert(standard_iri(terms::ORIGINAL_PATH_NAME@)
        =~= "http://aff4.org/Schema#originalPathName"@);
    assert(standard_iri(terms::ORIGINAL_PATH_NAME_RAW@)
        =~= "http://aff4.org/Schema#originalPathNameRaw"@);
    assert(standard_iri(terms::FILE_NAME@) =~= "http://aff4.org/Schema#fileName"@);
    assert(standard_iri(terms::FILE_NAME_RAW@) =~= "http://aff4.org/Schema#fileNameRaw"@);
}

/// The number of an entry term.
spec fn term_number(p: Seq<char>) -> int {
    if p.len() == 31 {
        if p[27] == 'M' {
            1
        } else {
            2
        }
    } else if p.len() == 34 {
        if p[23] == 'l' {
            3
        } else {
            4
        }
    } else if p.len() == 39 {
        if p[31] == 'F' {
            5
        } else {
            6
        }
    } else {
        p.len() as int
    }
}

/// No two entry terms are the same.
proof fn entry_terms_differ()
    ensures
        term_number("http://aff4.org/Schema#fileMode"@) == 1,
        term_number("http://aff4.org/Schema#fileName"@) == 2,
        term_number("http://aff4.org/Schema#lastWritten"@) == 3,
        term_number("http://aff4.org/Schema#fileNameRaw"@) == 4,
        term_number("http://aff4.org/Schema#originalFileName"@) == 5,
        term_number("http://aff4.org/Schema#originalPathName"@) == 6,
        term_number("http://aff4.org/Schema#birthTime"@) == 32,
        term_number("http://aff4.org/Schema#lastAccessed"@) == 35,
        term_number("http://aff4.org/Schema#recordChanged"@) == 36,
        term_number("http://aff4.org/Schema#originalPathNameRaw"@) == 42,
{
    reveal_strlit("http://aff4.org/Schema#birthTime");
    reveal_strlit("http://aff4.org/Schema#lastWritten");
    reveal_strlit("http://aff4.org/Schema#lastAccessed");
    reveal_strlit("http://aff4.org/Schema#recordChanged");
    reveal_strlit("http://aff4.org/Schema#fileMode");
    reveal_strlit("http://aff4.org/Schema#originalFileName");
    reveal_strlit("http://aff4.org/Schema#originalPathName");
    reveal_strlit("http://aff4.org/Schema#originalPathNameRaw");
    reveal_strlit("http://aff4.org/Schema#fileName");
    reveal_strlit("http://aff4.org/Schema#fileNameRaw");
}

/// What one statement says.
proof fn one_statement(t: TripleView, subject: Seq<char>, p: Seq<char>)
    ensures
        stated(seq![t], subject, p) == (if t.subject == subject && t.predicate == p {
            seq![t.object]
        } else {
            Seq::empty()
        }),
{
    assert(seq![t].drop_last() =~= Seq::empty());
    assert(seq![t].last() == t);
    assert(stated(seq![t].drop_last(), subject, p) =~= Seq::empty());
}

/// What a statement that there may be says.
proof fn optional_statement(
    arn: Seq<char>,
    local: Seq<char>,
    value: Option<Seq<char>>,
    datatype: Seq<char>,
    subject: Seq<char>,
    p: Seq<char>,
)
    ensures
        stated(optional_literal(arn, local, value, datatype), subject, p) == (if arn == subject
            && standard_iri(local) == p {
            perhaps(value, datatype)
        } else {
            Seq::empty()
        }),
{
    match value {
        Some(v) => {
            one_statement(literal(arn, local, v, datatype), subject, p);
        },
        None => {},
    }
}

/// What the statements of an entry's times say under a term.
proof fn times_in_turn(arn: Seq<char>, stamps: StampsView, subject: Seq<char>, p: Seq<char>)
    ensures
        subject != arn ==> stated(time_triples(arn, stamps), subject, p) == Seq::<
            TermView,
        >::empty(),
        stated(time_triples(arn, stamps), arn, p) == (if p
            == "http://aff4.org/Schema#birthTime"@ {
            perhaps(stamps.birth, XSD_DATE_TIME@)
        } else if p == "http://aff4.org/Schema#lastWritten"@ {
            perhaps(stamps.written, XSD_DATE_TIME@)
        } else if p == "http://aff4.org/Schema#lastAccessed"@ {
            perhaps(stamps.accessed, XSD_DATE_TIME@)
        } else if p == "http://aff4.org/Schema#recordChanged"@ {
            perhaps(stamps.changed, XSD_DATE_TIME@)
        } else {
            Seq::empty()
        }),
{
    entry_terms_are_spelled();
    entry_terms_differ();
    let a = optional_literal(arn, terms::BIRTH_TIME@, stamps.birth, XSD_DATE_TIME@);
    let b = optional_literal(arn, terms::LAST_WRITTEN@, stamps.written, XSD_DATE_TIME@);
    let c = optional_literal(arn, terms::LAST_ACCESSED@, stamps.accessed, XSD_DATE_TIME@);
    let d = optional_literal(arn, terms::RECORD_CHANGED@, stamps.changed, XSD_DATE_TIME@);
    stated_in_order(a, b, subject, p);
    stated_in_order(a + b, c, subject, p);
    stated_in_order(a + b + c, d, subject, p);
    stated_in_order(a, b, arn, p);
    stated_in_order(a + b, c, arn, p);
    stated_in_order(a + b + c, d, arn, p);
    optional_statement(arn, terms::BIRTH_TIME@, stamps.birth, XSD_DATE_TIME@, subject, p);
    optional_statement(arn, terms::LAST_WRITTEN@, stamps.written, XSD_DATE_TIME@, subject, p);
    optional_statement(arn, terms::LAST_ACCESSED@, stamps.accessed, XSD_DATE_TIME@, subject, p);
    optional_statement(arn, terms::RECORD_CHANGED@, stamps.changed, XSD_DATE_TIME@, subject, p);
    optional_statement(arn, terms::BIRTH_TIME@, stamps.birth, XSD_DATE_TIME@, arn, p);
    optional_statement(arn, terms::LAST_WRITTEN@, stamps.written, XSD_DATE_TIME@, arn, p);
    optional_statement(arn, terms::LAST_ACCESSED@, stamps.accessed, XSD_DATE_TIME@, arn, p);
    optional_statement(arn, terms::RECORD_CHANGED@, stamps.changed, XSD_DATE_TIME@, arn, p);
    assert(stated(a + b + c + d, arn, p) =~= stated(a, arn, p) + stated(b, arn, p) + stated(
        c,
        arn,
        p,
    ) + stated(d, arn, p));
}

/// What a name's statements say under a term.
proof fn name_in_turn(
    arn: Seq<char>,
    term: Seq<char>,
    raw_term: Seq<char>,
    name: NameView,
    subject: Seq<char>,
    p: Seq<char>,
)
    requires
        standard_iri(term) != standard_iri(raw_term),
    ensures
        stated(name_triples(arn, term, raw_term, name), subject, p) == (if subject != arn {
            Seq::empty()
        } else if p == standard_iri(term) {
            seq![TermView::Literal(name.display, XSD_STRING@)]
        } else if p == standard_iri(raw_term) {
            perhaps(name.raw, XSD_BASE64_BINARY@)
        } else {
            Seq::empty()
        }),
{
    let a = seq![literal(arn, term, name.display, XSD_STRING@)];
    let b = optional_literal(arn, raw_term, name.raw, XSD_BASE64_BINARY@);
    stated_in_order(a, b, subject, p);
    one_statement(literal(arn, term, name.display, XSD_STRING@), subject, p);
    optional_statement(arn, raw_term, name.raw, XSD_BASE64_BINARY@, subject, p);
    assert(stated(a + b, subject, p) =~= stated(a, subject, p) + stated(b, subject, p));
}

/// What the statements of an entry's path say under a term.
proof fn path_in_turn(
    arn: Seq<char>,
    path: PathView,
    profile: LogicalProfile,
    subject: Seq<char>,
    p: Seq<char>,
)
    ensures
        stated(path_triples(arn, path, profile), subject, p) == (if subject != arn {
            Seq::empty()
        } else if profile == LogicalProfile::Legacy {
            if p == "http://aff4.org/Schema#originalFileName"@ {
                seq![TermView::Literal(path.display, XSD_STRING@)]
            } else {
                Seq::empty()
            }
        } else if p == "http://aff4.org/Schema#originalPathName"@ {
            seq![TermView::Literal(entry_names(path).0.display, XSD_STRING@)]
        } else if p == "http://aff4.org/Schema#originalPathNameRaw"@ {
            perhaps(entry_names(path).0.raw, XSD_BASE64_BINARY@)
        } else if p == "http://aff4.org/Schema#fileName"@ {
            seq![TermView::Literal(entry_names(path).1.display, XSD_STRING@)]
        } else if p == "http://aff4.org/Schema#fileNameRaw"@ {
            perhaps(entry_names(path).1.raw, XSD_BASE64_BINARY@)
        } else {
            Seq::empty()
        }),
{
    entry_terms_are_spelled();
    entry_terms_differ();
    if profile == LogicalProfile::V1Alpha {
        let a = name_triples(
            arn,
            terms::ORIGINAL_PATH_NAME@,
            terms::ORIGINAL_PATH_NAME_RAW@,
            entry_names(path).0,
        );
        let b = name_triples(
            arn,
            terms::FILE_NAME@,
            terms::FILE_NAME_RAW@,
            entry_names(path).1,
        );
        stated_in_order(a, b, subject, p);
        name_in_turn(
            arn,
            terms::ORIGINAL_PATH_NAME@,
            terms::ORIGINAL_PATH_NAME_RAW@,
            entry_names(path).0,
            subject,
            p,
        );
        name_in_turn(
            arn,
            terms::FILE_NAME@,
            terms::FILE_NAME_RAW@,
            entry_names(path).1,
            subject,
            p,
        );
        assert(stated(a + b, subject, p) =~= stated(a, subject, p) + stated(b, subject, p));
    } else {
        one_statement(
            literal(arn, terms::ORIGINAL_FILE_NAME@, path.display, XSD_STRING@),
            subject,
            p,
        );
    }
}

/// What the statement of an entry's mode says under a term.
proof fn mode_in_turn(
    arn: Seq<char>,
    stamps: StampsView,
    profile: LogicalProfile,
    subject: Seq<char>,
    p: Seq<char>,
)
    ensures
        stated(mode_triples(arn, stamps, profile), subject, p) == (if subject == arn && p
            == "http://aff4.org/Schema#fileMode"@ && profile == LogicalProfile::V1Alpha {
            match stamps.mode {
                Some(mode) => seq![TermView::Literal(text::decimal(mode as nat), XSD_LONG@)],
                None => Seq::empty(),
            }
        } else {
            Seq::empty()
        }),
{
    entry_terms_are_spelled();
    match stamps.mode {
        Some(mode) => {
            one_statement(
                literal(arn, terms::FILE_MODE@, text::decimal(mode as nat), XSD_LONG@),
                subject,
                p,
            );
        },
        None => {},
    }
}

/// What is said of an entry under a term that says what it was on its filesystem.
pub open spec fn said_of(
    path: PathView,
    stamps: StampsView,
    profile: LogicalProfile,
    p: Seq<char>,
) -> Seq<TermView> {
    let moment = "http://www.w3.org/2001/XMLSchema#dateTime"@;
    let string = "http://www.w3.org/2001/XMLSchema#string"@;
    let raw = "http://www.w3.org/2001/XMLSchema#base64Binary"@;
    let number = "http://www.w3.org/2001/XMLSchema#long"@;
    let alpha = profile == LogicalProfile::V1Alpha;
    if p == "http://aff4.org/Schema#birthTime"@ {
        perhaps(stamps.birth, moment)
    } else if p == "http://aff4.org/Schema#lastWritten"@ {
        perhaps(stamps.written, moment)
    } else if p == "http://aff4.org/Schema#lastAccessed"@ {
        perhaps(stamps.accessed, moment)
    } else if p == "http://aff4.org/Schema#recordChanged"@ {
        perhaps(stamps.changed, moment)
    } else if p == "http://aff4.org/Schema#fileMode"@ && alpha && stamps.mode is Some {
        seq![TermView::Literal(text::decimal(stamps.mode->Some_0 as nat), number)]
    } else if p == "http://aff4.org/Schema#originalFileName"@ && !alpha {
        seq![TermView::Literal(path.display, string)]
    } else if p == "http://aff4.org/Schema#originalPathName"@ && alpha {
        seq![TermView::Literal(entry_names(path).0.display, string)]
    } else if p == "http://aff4.org/Schema#originalPathNameRaw"@ && alpha {
        perhaps(entry_names(path).0.raw, raw)
    } else if p == "http://aff4.org/Schema#fileName"@ && alpha {
        seq![TermView::Literal(entry_names(path).1.display, string)]
    } else if p == "http://aff4.org/Schema#fileNameRaw"@ && alpha {
        perhaps(entry_names(path).1.raw, raw)
    } else {
        Seq::empty()
    }
}

/// What an entry's metadata says under a term.
proof fn entry_in_turn(
    arn: Seq<char>,
    path: PathView,
    stamps: StampsView,
    profile: LogicalProfile,
    subject: Seq<char>,
    p: Seq<char>,
)
    ensures
        stated(
            path_triples(arn, path, profile) + time_triples(arn, stamps) + mode_triples(
                arn,
                stamps,
                profile,
            ),
            subject,
            p,
        ) == (if subject == arn {
            said_of(path, stamps, profile, p)
        } else {
            Seq::empty()
        }),
{
    let a = path_triples(arn, path, profile);
    let b = time_triples(arn, stamps);
    let c = mode_triples(arn, stamps, profile);
    stated_in_order(a, b, subject, p);
    stated_in_order(a + b, c, subject, p);
    path_in_turn(arn, path, profile, subject, p);
    times_in_turn(arn, stamps, subject, p);
    mode_in_turn(arn, stamps, profile, subject, p);
    entry_terms_differ();
    assert(stated(a + b + c, subject, p) =~= stated(a, subject, p) + stated(b, subject, p)
        + stated(c, subject, p));
}

/// Recording a file says of it, under each of the terms that say what an entry was on its
/// filesystem, what was read of it, and nothing of any other resource.
pub proof fn files_say_what_they_were(
    s: StoreView,
    path: PathView,
    arn: Seq<char>,
    size: u64,
    facts: FactsView,
    names: MintedView,
    o: OptionsView,
    subject: Seq<char>,
    p: Seq<char>,
)
    requires
        is_entry_term(p),
    ensures
        ({
            let before = s.standing.writer.graph;
            let after = file_recorded(s, path, arn, size, facts, names, o).standing.writer.graph;
            stated(after, subject, p) == stated(before, subject, p) + (if subject == arn {
                said_of(path, facts.stamps, o.profile, p)
            } else {
                Seq::empty()
            })
        }),
{
    files_state_entries(s, path, arn, size, facts, names, o, subject, p);
    entry_in_turn(arn, path, facts.stamps, o.profile, subject, p);
}

/// Entering a folder says of it, under each of the terms that say what an entry was on its
/// filesystem, what was read of it, and nothing of any other resource.
pub proof fn folders_say_what_they_were(
    s: AcquireView,
    path: PathView,
    arn: Seq<char>,
    facts: FactsView,
    o: OptionsView,
    subject: Seq<char>,
    p: Seq<char>,
)
    requires
        is_entry_term(p),
    ensures
        ({
            let before = s.store.standing.writer.graph;
            let after = folder_entered(s, path, arn, facts, o).store.standing.writer.graph;
            stated(after, subject, p) == stated(before, subject, p) + (if subject == arn {
                said_of(path, facts.stamps, o.profile, p)
            } else {
                Seq::empty()
            })
        }),
{
    let before = s.store.standing.writer;
    let after = folder_entered(s, path, arn, facts, o).store.standing.writer;
    let entry = path_triples(arn, path, o.profile) + time_triples(arn, facts.stamps)
        + mode_triples(arn, facts.stamps, o.profile);
    entry_terms_stand_apart(p, o.namespace_https);
    assert(grew_without(before.graph + entry, after.graph, p));
    other_terms_keep(before.graph + entry, after.graph, subject, p);
    stated_in_order(before.graph, entry, subject, p);
    entry_in_turn(arn, path, facts.stamps, o.profile, subject, p);
}

/// What a reader finds of a moment that there may be.
pub open spec fn moment_of(value: Option<Seq<char>>) -> Option<TermView> {
    match value {
        Some(v) => Some(
            TermView::Literal(v, "http://www.w3.org/2001/XMLSchema#dateTime"@),
        ),
        None => None,
    }
}

/// Once a file that nothing was said of is recorded, a reader finds as its last
/// modification, its last access, its birth and its last change of metadata the moments
/// that were read of it, each under its own term, and none where none was read.
pub proof fn times_are_read_back(
    s: StoreView,
    path: PathView,
    arn: Seq<char>,
    size: u64,
    facts: FactsView,
    names: MintedView,
    o: OptionsView,
)
    requires
        forall|i: int|
            0 <= i < s.standing.writer.graph.len() ==> (
            #[trigger] s.standing.writer.graph[i]).subject != arn,
    ensures
        ({
            let g = file_recorded(s, path, arn, size, facts, names, o).standing.writer.graph;
            &&& object_of(g, arn, "http://aff4.org/Schema#lastWritten"@) == moment_of(
                facts.stamps.written,
            )
            &&& object_of(g, arn, "http://aff4.org/Schema#lastAccessed"@) == moment_of(
                facts.stamps.accessed,
            )
            &&& object_of(g, arn, "http://aff4.org/Schema#birthTime"@) == moment_of(
                facts.stamps.birth,
            )
            &&& object_of(g, arn, "http://aff4.org/Schema#recordChanged"@) == moment_of(
                facts.stamps.changed,
            )
        }),
{
    let before = s.standing.writer.graph;
    let g = file_recorded(s, path, arn, size, facts, names, o).standing.writer.graph;
    let a = "http://aff4.org/Schema#lastWritten"@;
    let b = "http://aff4.org/Schema#lastAccessed"@;
    let c = "http://aff4.org/Schema#birthTime"@;
    let d = "http://aff4.org/Schema#recordChanged"@;
    entry_terms_differ();
    files_say_what_they_were(s, path, arn, size, facts, names, o, arn, a);
    files_say_what_they_were(s, path, arn, size, facts, names, o, arn, b);
    files_say_what_they_were(s, path, arn, size, facts, names, o, arn, c);
    files_say_what_they_were(s, path, arn, size, facts, names, o, arn, d);
    unnamed_is_unsaid(before, arn, a);
    unnamed_is_unsaid(before, arn, b);
    unnamed_is_unsaid(before, arn, c);
    unnamed_is_unsaid(before, arn, d);
    first_value_is_read(g, arn, a);
    first_value_is_read(g, arn, b);
    first_value_is_read(g, arn, c);
    first_value_is_read(g, arn, d);
}

/// Of a resource that no statement is about, nothing is said.
pub proof fn unnamed_is_unsaid(g: Seq<TripleView>, subject: Seq<char>, p: Seq<char>)
    requires
        forall|i: int| 0 <= i < g.len() ==> (#[trigger] g[i]).subject != subject,
    ensures
        stated(g, subject, p) == Seq::<TermView>::empty(),
    decreases g.len(),
{
    if g.len() > 0 {
        assert forall|i: int| 0 <= i < g.drop_last().len() implies (
        #[trigger] g.drop_last()[i]).subject != subject by {
            assert(g.drop_last()[i] == g[i]);
        }
        unnamed_is_unsaid(g.drop_last(), subject, p);
        assert(g.last() == g[g.len() - 1]);
    }
}

/// Acquiring a file says of it, and of nothing else, what was read of it, under the name
/// that it is acquired by.
#[verifier::rlimit(40)]
pub proof fn acquired_files_say_what_they_were(
    s: AcquireView,
    path: PathView,
    size: u64,
    arn: Seq<char>,
    facts: FactsView,
    names: MintedView,
    o: OptionsView,
    subject: Seq<char>,
    p: Seq<char>,
)
    requires
        is_entry_term(p),
        entry_name(s.store.standing.writer.volume, path, o.profile, names) == Ok::<
            Seq<char>,
            ErrorView,
        >(arn),
    ensures
        ({
            let before = s.store.standing.writer.graph;
            let (end, e) = item_acquired(s, ItemView::File(path, size), facts, names, o);
            let after = end.store.standing.writer.graph;
            &&& e is None
            &&& stated(after, subject, p) == stated(before, subject, p) + (if subject == arn {
                said_of(path, facts.stamps, o.profile, p)
            } else {
                Seq::empty()
            })
            &&& s.stack.len() == 0 ==> end.roots == s.roots.push(arn)
            &&& s.stack.len() > 0 ==> end.stack.last().children == s.stack.last().children.push(
                arn,
            )
        }),
{
    reveal(item_acquired);
    files_say_what_they_were(s.store, path, arn, size, facts, names, o, subject, p);
}

} // verus!
