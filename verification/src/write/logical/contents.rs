//! What a reader finds of the contents of acquired files, by the form they are stored in.

use vstd::prelude::*;

use crate::arn::{member_of, names_resource, NameMapping};
use crate::error::{ErrorView, LocusView};
use crate::hash::{digests_under, sha512_digest};
use crate::lexicon::{aff4l_iri, standard_iri, Lexicon};
use crate::model::HashAlgorithm;
use crate::rdf::{statement, type_predicate, typed_as, TermView, TripleView};
use crate::storage_form::StorageForm;
use crate::stream::{stream_declared, StreamView};
use crate::text;
use crate::verify::composed::map_input;
use crate::verify::container::ObjectView;
use crate::verify::report::ReportView;
use crate::verify::sound::is_answered;
use crate::verify::streams::{stream_outcome, VerifyOptions};
use crate::volume::Volume;
use crate::write::attested::{
    is_map_property, is_standard, is_undescribed, layout_in_turn, layout_terms_are_spelled,
    layout_terms_stand_apart, map_term, runs_are_told, said_with_one_more, single_run,
    stream_in_turn, written_streams_are_declared, written_streams_verify,
};
use crate::write::container_writer::{MemberView, WriterView};
use crate::write::dedupe::PoolView;
use crate::write::logical::acquire::{folder_entered, AcquireView};
use crate::write::logical::names::{LogicalProfile, PathView};
use crate::write::logical::read_back::datatype_of;
use crate::write::logical::record::{
    appended_recorded, attribute_arn, attributes_written, buffered_recorded, deduplicated_recorded,
    entry_triples, file_recorded, introduced_file, mode_triples, own_map_mapped, path_triples,
    states_place, time_triples, with_block_hashes, FactsView, MintedView, Standing, StoreView,
};
use crate::write::logical::stamps::StampsView;
use crate::write::logical::stated::{
    entry_terms_are_spelled, is_entry_term, stated, unnamed_is_unsaid,
};
use crate::write::logical::storage::{storage_for, OptionsView, StreamKind};
use crate::write::logical::terms;
use crate::write::map_writer::{entries_bytes, own_written, shared_written, target_lines};
use crate::write::round_trip::written_streams_are_held;
use crate::write::stream_writer::{
    bevies_between, block_digests, decodes_back, digest_triples, serves, size_triple, stored_triple,
    stream_begun, stream_written, BuilderView,
};

verus! {

/// Whether a term is one under which introducing a file says nothing of it.
pub open spec fn is_content_term(p: Seq<char>, https: bool) -> bool {
    &&& !is_entry_term(p)
    &&& p != type_predicate()
    &&& p != standard_iri("stored"@)
    &&& p != aff4l_iri(terms::EXTENDED_ATTRIBUTE@, https)
}

/// Whether statements were added, none of them about a resource under a term.
spec fn grew_apart(
    before: Seq<TripleView>,
    after: Seq<TripleView>,
    subject: Seq<char>,
    p: Seq<char>,
) -> bool {
    &&& before.len() <= after.len()
    &&& forall|i: int| 0 <= i < before.len() ==> #[trigger] after[i] == before[i]
    &&& forall|i: int|
        before.len() <= i < after.len() ==> (#[trigger] after[i]).predicate != p
            || after[i].subject != subject
}

/// Statements about others say nothing of a resource.
proof fn others_keep(
    before: Seq<TripleView>,
    after: Seq<TripleView>,
    subject: Seq<char>,
    p: Seq<char>,
)
    requires
        grew_apart(before, after, subject, p),
    ensures
        stated(after, subject, p) == stated(before, subject, p),
    decreases after.len(),
{
    if after.len() == before.len() {
        assert(after =~= before);
    } else {
        others_keep(before, after.drop_last(), subject, p);
    }
}

/// Extended attributes are described as resources of their own.
proof fn attributes_are_apart(
    w: WriterView,
    parent: Seq<char>,
    attributes: Seq<(Seq<char>, Seq<u8>)>,
    o: OptionsView,
    p: Seq<char>,
)
    requires
        p != aff4l_iri(terms::EXTENDED_ATTRIBUTE@, o.namespace_https),
    ensures
        grew_apart(w.graph, attributes_written(w, parent, attributes, o).graph, parent, p),
    decreases attributes.len(),
{
    if attributes.len() > 0 {
        attributes_are_apart(w, parent, attributes.drop_last(), o, p);
        let child = attribute_arn(parent, (attributes.len() - 1) as nat);
        assert(child.len() > parent.len()) by {
            reveal_strlit("/xattr/");
        }
    }
}

/// Introducing a file says nothing of it under other terms.
pub proof fn introductions_say_little(
    s: Standing,
    path: PathView,
    arn: Seq<char>,
    placed: bool,
    facts: FactsView,
    o: OptionsView,
    p: Seq<char>,
)
    requires
        is_content_term(p, o.namespace_https),
    ensures
        stated(introduced_file(s, path, arn, placed, facts, o).writer.graph, arn, p) == stated(
            s.writer.graph,
            arn,
            p,
        ),
{
    entry_terms_are_spelled();
    let typed = s.writer.state_all(
        entry_triples(arn, path, facts.stamps, s.writer.volume, o.profile, placed),
    ).state(typed_as(arn, standard_iri(terms::FILE_IMAGE@))).state(
        typed_as(arn, standard_iri("Image"@)),
    );
    assert(grew_apart(s.writer.graph, typed.graph, arn, p));
    others_keep(s.writer.graph, typed.graph, arn, p);
    attributes_are_apart(typed, arn, facts.attributes, o, p);
    others_keep(
        typed.graph,
        attributes_written(typed, arn, facts.attributes, o).graph,
        arn,
        p,
    );
}

/// The terms of a stream's description are none of those that introduce a file.
proof fn layout_terms_are_of_content(https: bool)
    ensures
        is_content_term("http://aff4.org/Schema#size"@, https),
        is_content_term("http://aff4.org/Schema#chunkSize"@, https),
        is_content_term("http://aff4.org/Schema#chunksInSegment"@, https),
        is_content_term("http://aff4.org/Schema#compressionMethod"@, https),
        is_content_term("http://aff4.org/Schema#hash"@, https),
{
    reveal_strlit("http://aff4.org/Schema#");
    reveal_strlit("http://aff4.org/Schema/AFF4-L#");
    reveal_strlit("https://aff4.org/Schema/AFF4-L#");
    reveal_strlit("http://www.w3.org/1999/02/22-rdf-syntax-ns#type");
    reveal_strlit("stored");
    reveal_strlit("extendedAttribute");
    reveal_strlit("http://aff4.org/Schema#size");
    reveal_strlit("http://aff4.org/Schema#chunkSize");
    reveal_strlit("http://aff4.org/Schema#chunksInSegment");
    reveal_strlit("http://aff4.org/Schema#compressionMethod");
    reveal_strlit("http://aff4.org/Schema#hash");
    reveal_strlit("http://aff4.org/Schema#birthTime");
    reveal_strlit("http://aff4.org/Schema#lastWritten");
    reveal_strlit("http://aff4.org/Schema#lastAccessed");
    reveal_strlit("http://aff4.org/Schema#recordChanged");
    reveal_strlit("http://aff4.org/Schema#fileMode");
    reveal_strlit("http://aff4.org/Schema#originalFileName");
    reveal_strlit("http://aff4.org/Schema#originalPathName");
    reveal_strlit("http://aff4.org/Schema#originalPathNameRaw");
    reveal_strlit("http://aff4.org/Schema#fileName");
    reveal_strlit("http://aff4.org/Schema#fileNameRaw");
    assert("http://aff4.org/Schema#birthTime"@[23] == 'b');
    assert("http://aff4.org/Schema#lastWritten"@[23] == 'l');
    assert("http://aff4.org/Schema#lastAccessed"@[23] == 'l');
    assert("http://aff4.org/Schema#recordChanged"@[23] == 'r');
    assert("http://aff4.org/Schema#fileMode"@[23] == 'f');
    assert("http://aff4.org/Schema#originalFileName"@[23] == 'o');
    assert("http://aff4.org/Schema#originalPathName"@[23] == 'o');
    assert("http://aff4.org/Schema#originalPathNameRaw"@[23] == 'o');
    assert("http://aff4.org/Schema#fileName"@[23] == 'f');
    assert("http://aff4.org/Schema#fileNameRaw"@[23] == 'f');
    assert("http://aff4.org/Schema#size"@[23] == 's');
    assert("http://aff4.org/Schema#chunkSize"@[23] == 'c');
    assert("http://aff4.org/Schema#chunksInSegment"@[23] == 'c');
    assert("http://aff4.org/Schema#compressionMethod"@[23] == 'c');
    assert("http://aff4.org/Schema#hash"@[23] == 'h');
    assert(standard_iri("stored"@).len() == 29);
    let x = aff4l_iri(terms::EXTENDED_ATTRIBUTE@, https);
    assert(x.len() >= 40);
    assert(x[22] == '/' || x[4] == 's' || x[23] == 'e');
    assert(type_predicate()[7] == 'w');
}

/// Whether a file of a length becomes a stream of its own name.
pub open spec fn becomes_stream(s: StoreView, size: u64, o: OptionsView) -> bool {
    s.pool is None && storage_for(StreamKind::Primary, size, o.profile, o.storage_form)
        == StorageForm::OwnImageStream
}

/// A file that nothing was said of, and that becomes a stream of its own name, is declared
/// to be a stream of its length, cut and compressed as the options say, and every digest
/// that is stated of it is of an algorithm that is asked for and verifies.
#[verifier::rlimit(40)]
pub proof fn stream_files_verify<V: Volume>(
    s: StoreView,
    path: PathView,
    arn: Seq<char>,
    size: u64,
    facts: FactsView,
    names: MintedView,
    o: OptionsView,
    data: Seq<u8>,
    lexicon: Lexicon,
    locus: LocusView,
    report: ReportView,
    object: ObjectView,
    volume: &V,
    options: VerifyOptions,
    i: int,
)
    requires
        becomes_stream(s, size, o),
        facts.content == Ok::<Seq<u8>, Seq<char>>(data),
        data.len() == size,
        forall|k: int|
            0 <= k < s.standing.writer.graph.len() ==> (
            #[trigger] s.standing.writer.graph[k]).subject != arn,
        stream_begun(
            introduced_file(s.standing, path, arn, false, facts, o).writer,
            arn,
            with_block_hashes(o.stream),
            LocusView::file(path.display),
        ) is Ok,
        is_standard(lexicon),
        s.standing.writer.mapping == NameMapping::Escaped,
        volume.name() == s.standing.writer.volume,
        decodes_back(with_block_hashes(o.stream), data),
        serves(
            volume,
            file_recorded(s, path, arn, size, facts, names, o).standing.writer.members,
        ),
        object.arn == arn,
        0 <= i < object.hashes.len(),
        object.hashes[i].predicate == "hash"@,
        stated(
            file_recorded(s, path, arn, size, facts, names, o).standing.writer.graph,
            arn,
            "http://aff4.org/Schema#hash"@,
        ).contains(
            TermView::Literal(
                object.hashes[i].hex,
                datatype_of(object.hashes[i].algorithm),
            ),
        ),
    ensures
        ({
            let after = file_recorded(s, path, arn, size, facts, names, o).standing;
            &&& stream_declared(arn, after.writer.graph, lexicon, locus) == Ok::<
                StreamView,
                ErrorView,
            >(
                StreamView {
                    arn,
                    size,
                    chunk_size: o.stream.chunk_size,
                    chunks_in_segment: o.stream.chunks_per_segment,
                    codec: o.stream.codec,
                },
            )
            &&& is_answered(
                report,
                stream_outcome(
                    report,
                    None,
                    object,
                    volume,
                    after.writer.graph,
                    lexicon,
                    locus,
                    options,
                ).0,
                arn,
                object.hashes[i],
                true,
            )
            &&& o.recorded_algorithms().contains(object.hashes[i].algorithm)
        }),
{
    let so = with_block_hashes(o.stream);
    let w = introduced_file(s.standing, path, arn, false, facts, o).writer;
    let begun = stream_begun(w, arn, so, LocusView::file(path.display))->Ok_0;
    let algorithms = o.recorded_algorithms();
    let after = file_recorded(s, path, arn, size, facts, names, o).standing.writer;
    introductions_keep_place(s.standing, path, arn, false, facts, o);
    assert(after == stream_written(w, begun, data, algorithms));
    content_is_unsaid(s.standing, path, arn, false, facts, o);
    written_streams_are_held(
        w,
        arn,
        so,
        data,
        algorithms,
        LocusView::file(path.display),
        volume,
    );
    written_streams_are_declared(w, begun, data, algorithms, lexicon, locus);
    written_streams_verify(
        w,
        begun,
        data,
        algorithms,
        lexicon,
        locus,
        report,
        object,
        volume,
        options,
        i,
    );
}

/// Introducing a file that nothing was said of says nothing of its content.
proof fn content_is_unsaid(
    s: Standing,
    path: PathView,
    arn: Seq<char>,
    placed: bool,
    facts: FactsView,
    o: OptionsView,
)
    requires
        forall|k: int|
            0 <= k < s.writer.graph.len() ==> (#[trigger] s.writer.graph[k]).subject != arn,
    ensures
        is_undescribed(introduced_file(s, path, arn, placed, facts, o).writer.graph, arn),
{
    let a = "http://aff4.org/Schema#size"@;
    let b = "http://aff4.org/Schema#chunkSize"@;
    let c = "http://aff4.org/Schema#chunksInSegment"@;
    let d = "http://aff4.org/Schema#compressionMethod"@;
    let e = "http://aff4.org/Schema#hash"@;
    layout_terms_are_of_content(o.namespace_https);
    introductions_say_little(s, path, arn, placed, facts, o, a);
    introductions_say_little(s, path, arn, placed, facts, o, b);
    introductions_say_little(s, path, arn, placed, facts, o, c);
    introductions_say_little(s, path, arn, placed, facts, o, d);
    introductions_say_little(s, path, arn, placed, facts, o, e);
    unnamed_is_unsaid(s.writer.graph, arn, a);
    unnamed_is_unsaid(s.writer.graph, arn, b);
    unnamed_is_unsaid(s.writer.graph, arn, c);
    unnamed_is_unsaid(s.writer.graph, arn, d);
    unnamed_is_unsaid(s.writer.graph, arn, e);
}

/// Introducing a file leaves the volume as it is.
proof fn introductions_keep_place(
    s: Standing,
    path: PathView,
    arn: Seq<char>,
    placed: bool,
    facts: FactsView,
    o: OptionsView,
)
    ensures
        introduced_file(s, path, arn, placed, facts, o).writer.volume == s.writer.volume,
        introduced_file(s, path, arn, placed, facts, o).writer.mapping == s.writer.mapping,
{
    let typed = s.writer.state_all(
        entry_triples(arn, path, facts.stamps, s.writer.volume, o.profile, placed),
    ).state(typed_as(arn, standard_iri(terms::FILE_IMAGE@))).state(
        typed_as(arn, standard_iri("Image"@)),
    );
    attributes_keep_place(typed, arn, facts.attributes, o);
}

/// Extended attributes leave the volume as it is.
proof fn attributes_keep_place(
    w: WriterView,
    parent: Seq<char>,
    attributes: Seq<(Seq<char>, Seq<u8>)>,
    o: OptionsView,
)
    ensures
        attributes_written(w, parent, attributes, o).volume == w.volume,
        attributes_written(w, parent, attributes, o).mapping == w.mapping,
    decreases attributes.len(),
{
    if attributes.len() > 0 {
        attributes_keep_place(w, parent, attributes.drop_last(), o);
    }
}

/// Whether a volume under way maps a file: the three segments of its map are members, and
/// the last digest under each property of a map is that of what it is a digest of.
pub open spec fn maps_file(
    w: WriterView,
    base: Seq<char>,
    arn: Seq<char>,
    map: Seq<u8>,
    idx: Seq<u8>,
) -> bool {
    &&& w.members.contains(MemberView { name: base + "/map"@, data: map, deflated: false })
    &&& w.members.contains(MemberView { name: base + "/idx"@, data: idx, deflated: false })
    &&& w.members.contains(
        MemberView { name: base + "/mapPath"@, data: Seq::empty(), deflated: false },
    )
    &&& forall|property: Seq<char>| #[trigger]
        is_map_property(property) ==> stated(w.graph, arn, map_term(property)).len() > 0
            && stated(w.graph, arn, map_term(property)).last() == TermView::Literal(
            text::hex(sha512_digest(map_input(property, map, idx, Seq::empty())->Some_0)),
            "http://aff4.org/Schema#SHA512"@,
        )
}

/// A file that shares a stream with others adds its bytes at the end of the stream, and is
/// mapped to them: its map has one run, of the file's length, that begins where the stream
/// ended before.
#[verifier::rlimit(40)]
pub proof fn shared_files_are_mapped(
    s: StoreView,
    path: PathView,
    arn: Seq<char>,
    size: u64,
    facts: FactsView,
    names: MintedView,
    o: OptionsView,
    data: Seq<u8>,
    b: BuilderView,
    base: Seq<char>,
)
    requires
        s.pool is None,
        storage_for(StreamKind::Primary, size, o.profile, o.storage_form)
            == StorageForm::SharedMap,
        facts.content == Ok::<Seq<u8>, Seq<char>>(data),
        s.shared == Some(b),
        b.content.len() + data.len() <= u64::MAX,
        names_resource(arn),
        member_of(arn, s.standing.writer.volume, s.standing.writer.mapping) == Some(base),
    ensures
        ({
            let after = file_recorded(s, path, arn, size, facts, names, o);
            &&& after.shared matches Some(grown) && grown.content == b.content + data
                && grown.arn == b.arn
            &&& maps_file(
                after.standing.writer,
                base,
                arn,
                entries_bytes(single_run(data.len() as u64, b.content.len() as u64)),
                target_lines(seq![b.arn]),
            )
        }),
{
    let begun = introduced_file(s.standing, path, arn, true, facts, o);
    introductions_keep_place(s.standing, path, arn, true, facts, o);
    let grown = b.with(data);
    let described = Standing {
        writer: begun.writer.with_members(
            bevies_between(
                grown.base,
                grown.options,
                grown.content,
                b.whole(),
                grown.whole(),
            ),
        ),
        ..begun
    }.described(path, arn, size, data, o);
    let after = file_recorded(s, path, arn, size, facts, names, o).standing.writer;
    assert(after == shared_written(
        described.writer,
        base,
        arn,
        b.arn,
        b.content.len() as u64,
        data.len() as u64,
    ));
    runs_are_told(
        described.writer,
        base,
        arn,
        false,
        arn,
        b.arn,
        b.content.len() as u64,
        data.len() as u64,
        Seq::empty(),
    );
}

/// A file that has a stream to itself and is a map over it writes that stream and is mapped
/// to all of it; where a map of its own stands for the file, that map is, and the file names
/// it.
#[verifier::rlimit(40)]
pub proof fn own_files_are_mapped(
    s: StoreView,
    path: PathView,
    arn: Seq<char>,
    size: u64,
    facts: FactsView,
    names: MintedView,
    o: OptionsView,
    data: Seq<u8>,
    stream: Seq<char>,
    map_arn: Seq<char>,
    base: Seq<char>,
)
    requires
        s.pool is None,
        storage_for(StreamKind::Primary, size, o.profile, o.storage_form) == StorageForm::OwnMap,
        facts.content == Ok::<Seq<u8>, Seq<char>>(data),
        data.len() <= u64::MAX,
        names.stream == Ok::<Seq<char>, ErrorView>(stream),
        stream_begun(
            introduced_file(s.standing, path, arn, true, facts, o).writer,
            stream,
            with_block_hashes(o.stream),
            LocusView::file(path.display),
        ) is Ok,
        names_resource(arn),
        member_of(arn, s.standing.writer.volume, s.standing.writer.mapping) is Some,
        if o.datastream_indirect {
            names.map == Ok::<Seq<char>, ErrorView>(map_arn)
        } else {
            map_arn == arn
        },
        names_resource(map_arn),
        member_of(map_arn, s.standing.writer.volume, s.standing.writer.mapping) == Some(base),
    ensures
        ({
            let after = file_recorded(s, path, arn, size, facts, names, o).standing.writer;
            let w = introduced_file(s.standing, path, arn, true, facts, o).writer;
            let begun = stream_begun(
                w,
                stream,
                with_block_hashes(o.stream),
                LocusView::file(path.display),
            )->Ok_0;
            &&& stream_written(w, begun, data, o.recorded_algorithms()).members.is_prefix_of(
                after.members,
            )
            &&& maps_file(
                after,
                base,
                map_arn,
                entries_bytes(single_run(data.len() as u64, 0)),
                target_lines(seq![stream]),
            )
            &&& o.datastream_indirect ==> after.graph.contains(
                statement(
                    arn,
                    aff4l_iri("dataStream"@, o.namespace_https),
                    TermView::Iri(map_arn),
                ),
            )
        }),
{
    introductions_keep_place(s.standing, path, arn, true, facts, o);
    let begun = introduced_file(s.standing, path, arn, true, facts, o);
    let so = with_block_hashes(o.stream);
    let locus = LocusView::file(path.display);
    let built = stream_begun(begun.writer, stream, so, locus)->Ok_0;
    let w = stream_written(begun.writer, built, data, o.recorded_algorithms());
    let described = Standing { writer: w, ..begun }.described(path, arn, size, data, o);
    let blocks = block_digests(so, data);
    let named = if o.datastream_indirect {
        described.writer.state(
            statement(
                arn,
                aff4l_iri("dataStream"@, o.namespace_https),
                TermView::Iri(map_arn),
            ),
        )
    } else {
        described.writer
    };
    let after = file_recorded(s, path, arn, size, facts, names, o).standing.writer;
    assert(after == own_written(
        named,
        base,
        map_arn,
        o.datastream_indirect,
        arn,
        stream,
        data.len() as u64,
        blocks,
    ));
    runs_are_told(
        named,
        base,
        map_arn,
        o.datastream_indirect,
        arn,
        stream,
        0,
        data.len() as u64,
        blocks,
    );
    assert(w.members == named.members);
    if o.datastream_indirect {
        let n = described.writer.graph.len() as int;
        assert(after.graph[n] == named.graph[n]);
    }
}

/// Whether the last that is said of a resource's length is a number.
pub open spec fn says_length(g: Seq<TripleView>, arn: Seq<char>, n: nat) -> bool {
    let said = stated(g, arn, "http://aff4.org/Schema#size"@);
    said.len() > 0 && said.last() == TermView::Literal(
        text::decimal(n),
        "http://www.w3.org/2001/XMLSchema#long"@,
    )
}

/// Whether statements were added, and any of them that says a resource's length says it is
/// a number.
spec fn grew_agreeing(
    before: Seq<TripleView>,
    after: Seq<TripleView>,
    arn: Seq<char>,
    n: nat,
) -> bool {
    &&& before.len() <= after.len()
    &&& forall|i: int| 0 <= i < before.len() ==> #[trigger] after[i] == before[i]
    &&& forall|i: int|
        before.len() <= i < after.len() ==> (#[trigger] after[i]).subject != arn
            || after[i].predicate != standard_iri("size"@) || after[i] == size_triple(arn, n)
}

/// A length that was said stays said.
proof fn length_stays(before: Seq<TripleView>, after: Seq<TripleView>, arn: Seq<char>, n: nat)
    requires
        says_length(before, arn, n),
        grew_agreeing(before, after, arn, n),
    ensures
        says_length(after, arn, n),
    decreases after.len(),
{
    layout_terms_are_spelled();
    if after.len() == before.len() {
        assert(after =~= before);
    } else {
        length_stays(before, after.drop_last(), arn, n);
        assert(after.last() == after[after.len() - 1]);
    }
}

/// Describing a file says its length.
proof fn descriptions_say_length(
    s: Standing,
    path: PathView,
    arn: Seq<char>,
    size: u64,
    data: Seq<u8>,
    o: OptionsView,
)
    ensures
        says_length(s.described(path, arn, size, data, o).writer.graph, arn, data.len()),
{
    layout_terms_are_spelled();
    let g = s.writer.graph + digest_triples(arn, digests_under(o.recorded_algorithms(), data));
    said_with_one_more(
        g,
        size_triple(arn, data.len()),
        arn,
        "http://aff4.org/Schema#size"@,
    );
}

/// The terms of a map are none of a length.
proof fn lengths_stand_apart(https: bool)
    ensures
        standard_iri("size"@) != type_predicate(),
        standard_iri("size"@) != standard_iri("hash"@),
        standard_iri("size"@) != standard_iri("target"@),
        standard_iri("size"@) != standard_iri("dependentStream"@),
        standard_iri("size"@) != standard_iri("mapPointHash"@),
        standard_iri("size"@) != standard_iri("mapIdxHash"@),
        standard_iri("size"@) != standard_iri("mapPathHash"@),
        standard_iri("size"@) != standard_iri("mapHash"@),
        standard_iri("size"@) != standard_iri("blockMapHash"@),
        standard_iri("size"@) != aff4l_iri("dataStream"@, https),
{
    reveal_strlit("http://aff4.org/Schema#");
    reveal_strlit("http://aff4.org/Schema/AFF4-L#");
    reveal_strlit("https://aff4.org/Schema/AFF4-L#");
    reveal_strlit("http://www.w3.org/1999/02/22-rdf-syntax-ns#type");
    reveal_strlit("size");
    reveal_strlit("hash");
    reveal_strlit("target");
    reveal_strlit("dependentStream");
    reveal_strlit("mapPointHash");
    reveal_strlit("mapIdxHash");
    reveal_strlit("mapPathHash");
    reveal_strlit("mapHash");
    reveal_strlit("blockMapHash");
    reveal_strlit("dataStream");
    assert(standard_iri("size"@).len() == 27 && standard_iri("size"@)[23] == 's');
    assert(standard_iri("hash"@)[23] == 'h');
    assert(standard_iri("target"@).len() == 29);
    assert(standard_iri("dependentStream"@).len() == 38);
    assert(standard_iri("mapPointHash"@).len() == 35);
    assert(standard_iri("mapIdxHash"@).len() == 33);
    assert(standard_iri("mapPathHash"@).len() == 34);
    assert(standard_iri("mapHash"@).len() == 30);
    assert(standard_iri("blockMapHash"@).len() == 35);
    assert(aff4l_iri("dataStream"@, https).len() >= 33);
    assert(type_predicate().len() == 47);
}

/// A file that is stored as a member, in the metadata or in a pool says its length.
proof fn buffered_files_say_length(
    s: Standing,
    pool: PoolView,
    path: PathView,
    arn: Seq<char>,
    size: u64,
    form: StorageForm,
    data: Seq<u8>,
    o: OptionsView,
)
    requires
        pool.chunk_size > 0,
    ensures
        ({
            let content = Ok::<Seq<u8>, Seq<char>>(data);
            &&& says_length(
                buffered_recorded(s, path, arn, size, form, content, o).writer.graph,
                arn,
                data.len(),
            )
            &&& says_length(
                deduplicated_recorded(s, pool, path, arn, size, content, o).0.writer.graph,
                arn,
                data.len(),
            )
        }),
{
    let content = Ok::<Seq<u8>, Seq<char>>(data);
    lengths_stand_apart(o.namespace_https);
    descriptions_say_length(s, path, arn, size, data, o);
    assert(data.take(data.len() as int) =~= data);
    let described = s.described(path, arn, size, data, o).writer.graph;
    let after = buffered_recorded(s, path, arn, size, form, content, o).writer.graph;
    assert(grew_agreeing(described, after, arn, data.len()));
    length_stays(described, after, arn, data.len());
}

/// A file that is a run of a shared stream says its length.
proof fn shared_files_say_length(
    s: Standing,
    b: BuilderView,
    path: PathView,
    arn: Seq<char>,
    size: u64,
    data: Seq<u8>,
    o: OptionsView,
)
    requires
        b.content.len() + data.len() <= u64::MAX,
    ensures
        says_length(
            appended_recorded(s, b, path, arn, size, data, o).0.writer.graph,
            arn,
            data.len(),
        ),
{
    lengths_stand_apart(o.namespace_https);
    let grown = b.with(data);
    let before = Standing {
        writer: s.writer.with_members(
            bevies_between(
                grown.base,
                grown.options,
                grown.content,
                b.whole(),
                grown.whole(),
            ),
        ),
        ..s
    };
    descriptions_say_length(before, path, arn, size, data, o);
    let described = before.described(path, arn, size, data, o).writer.graph;
    let after = appended_recorded(s, b, path, arn, size, data, o).0.writer.graph;
    assert(grew_agreeing(described, after, arn, data.len()));
    length_stays(described, after, arn, data.len());
}

/// A file that is a map over its own stream says its length.
proof fn own_files_say_length(
    s: Standing,
    path: PathView,
    arn: Seq<char>,
    stream: Seq<char>,
    data: Seq<u8>,
    blocks: Seq<(HashAlgorithm, Seq<char>)>,
    map: Option<Seq<char>>,
    o: OptionsView,
)
    requires
        data.len() <= u64::MAX,
        says_length(s.writer.graph, arn, data.len()),
    ensures
        says_length(
            own_map_mapped(s, path, arn, stream, data.len(), blocks, map, o).writer.graph,
            arn,
            data.len(),
        ),
{
    lengths_stand_apart(o.namespace_https);
    let after = own_map_mapped(s, path, arn, stream, data.len(), blocks, map, o).writer.graph;
    assert(grew_agreeing(s.writer.graph, after, arn, data.len()));
    length_stays(s.writer.graph, after, arn, data.len());
}

/// A file that is a stream says its length.
proof fn stream_files_say_length(
    w: WriterView,
    begun: BuilderView,
    data: Seq<u8>,
    algorithms: Seq<HashAlgorithm>,
)
    ensures
        says_length(stream_written(w, begun, data, algorithms).graph, begun.arn, data.len()),
        says_length(
            stream_written(w, begun, data, algorithms).state(
                size_triple(begun.arn, data.len()),
            ).graph,
            begun.arn,
            data.len(),
        ),
{
    let p = standard_iri("size"@);
    layout_terms_are_spelled();
    layout_terms_stand_apart();
    stream_in_turn(w, begun, data, algorithms, p);
    layout_in_turn(begun.arn, w.volume, begun.options, data.len(), p);
    said_with_one_more(
        stream_written(w, begun, data, algorithms).graph,
        size_triple(begun.arn, data.len()),
        begun.arn,
        p,
    );
}

/// The last that is said of the length of a file whose content was read is the number of
/// bytes that were read of it, whatever length was expected and however it is stored, unless
/// it was passed over.
#[verifier::rlimit(60)]
pub proof fn files_say_their_length(
    s: StoreView,
    path: PathView,
    arn: Seq<char>,
    size: u64,
    facts: FactsView,
    names: MintedView,
    o: OptionsView,
    data: Seq<u8>,
)
    requires
        facts.content == Ok::<Seq<u8>, Seq<char>>(data),
        data.len() <= u64::MAX,
        s.pool matches Some(p) ==> p.chunk_size > 0,
        file_recorded(s, path, arn, size, facts, names, o).standing.result.skipped.len()
            == s.standing.result.skipped.len(),
    ensures
        says_length(
            file_recorded(s, path, arn, size, facts, names, o).standing.writer.graph,
            arn,
            data.len(),
        ),
{
    let form = storage_for(StreamKind::Primary, size, o.profile, o.storage_form);
    let placed = states_place(form, s.pool is Some);
    let begun = introduced_file(s.standing, path, arn, placed, facts, o);
    let locus = LocusView::file(path.display);
    let so = with_block_hashes(o.stream);
    let after = file_recorded(s, path, arn, size, facts, names, o).standing;
    assert(begun.result.skipped == s.standing.result.skipped);
    match s.pool {
        Some(pool) => {
            buffered_files_say_length(begun, pool, path, arn, size, form, data, o);
            assert(after == deduplicated_recorded(
                begun,
                pool,
                path,
                arn,
                size,
                facts.content,
                o,
            ).0);
        },
        None => match form {
            StorageForm::OwnImageStream => match stream_begun(begun.writer, arn, so, locus) {
                Ok(built) => {
                    stream_files_say_length(
                        begun.writer,
                        built,
                        data,
                        o.recorded_algorithms(),
                    );
                },
                Err(_) => {},
            },
            StorageForm::SharedMap => {
                let opened = match s.shared {
                    Some(b) => Ok(b),
                    None => stream_begun(
                        begun.writer,
                        begun.writer.volume + "/shared"@,
                        o.stream,
                        locus,
                    ),
                };
                match opened {
                    Ok(b) => {
                        if b.content.len() + data.len() <= u64::MAX {
                            shared_files_say_length(begun, b, path, arn, size, data, o);
                        }
                    },
                    Err(_) => {},
                }
            },
            StorageForm::OwnMap => match names.stream {
                Ok(stream) => match stream_begun(begun.writer, stream, so, locus) {
                    Ok(built) => {
                        let w = stream_written(
                            begun.writer,
                            built,
                            data,
                            o.recorded_algorithms(),
                        );
                        let written = Standing { writer: w, ..begun };
                        descriptions_say_length(written, path, arn, size, data, o);
                        let described = written.described(path, arn, size, data, o);
                        let blocks = block_digests(so, data);
                        own_files_say_length(
                            described,
                            path,
                            arn,
                            stream,
                            data,
                            blocks,
                            None,
                            o,
                        );
                        if let Ok(map) = names.map {
                            own_files_say_length(
                                described,
                                path,
                                arn,
                                stream,
                                data,
                                blocks,
                                Some(map),
                                o,
                            );
                        }
                    },
                    Err(_) => {},
                },
                Err(_) => {},
            },
            _ => {
                let any = PoolView {
                    chunk_size: 1,
                    unique: Seq::empty(),
                    stored: 0,
                    presented: 0,
                };
                buffered_files_say_length(begun, any, path, arn, size, form, data, o);
            },
        },
    }
}

/// The terms of an entry's type and place are none of what it was on its filesystem.
proof fn types_stand_apart(https: bool)
    ensures
        !is_entry_term(type_predicate()),
        !is_entry_term(standard_iri("stored"@)),
        type_predicate() != standard_iri("stored"@),
        type_predicate() != aff4l_iri(terms::EXTENDED_ATTRIBUTE@, https),
        standard_iri("stored"@) != aff4l_iri(terms::EXTENDED_ATTRIBUTE@, https),
        standard_iri("stored"@) == "http://aff4.org/Schema#stored"@,
        standard_iri(terms::FILE_IMAGE@) == "http://aff4.org/Schema#FileImage"@,
        standard_iri("Image"@) == "http://aff4.org/Schema#Image"@,
        standard_iri(terms::FOLDER@) == "http://aff4.org/Schema#Folder"@,
        standard_iri(terms::FOLDER_IMAGE@) == "http://aff4.org/Schema#FolderImage"@,
{
    reveal_strlit("http://aff4.org/Schema#");
    reveal_strlit("http://aff4.org/Schema/AFF4-L#");
    reveal_strlit("https://aff4.org/Schema/AFF4-L#");
    reveal_strlit("http://www.w3.org/1999/02/22-rdf-syntax-ns#type");
    reveal_strlit("stored");
    reveal_strlit("extendedAttribute");
    reveal_strlit("FileImage");
    reveal_strlit("Image");
    reveal_strlit("Folder");
    reveal_strlit("FolderImage");
    reveal_strlit("http://aff4.org/Schema#stored");
    reveal_strlit("http://aff4.org/Schema#FileImage");
    reveal_strlit("http://aff4.org/Schema#Image");
    reveal_strlit("http://aff4.org/Schema#Folder");
    reveal_strlit("http://aff4.org/Schema#FolderImage");
    reveal_strlit("http://aff4.org/Schema#birthTime");
    reveal_strlit("http://aff4.org/Schema#lastWritten");
    reveal_strlit("http://aff4.org/Schema#lastAccessed");
    reveal_strlit("http://aff4.org/Schema#recordChanged");
    reveal_strlit("http://aff4.org/Schema#fileMode");
    reveal_strlit("http://aff4.org/Schema#originalFileName");
    reveal_strlit("http://aff4.org/Schema#originalPathName");
    reveal_strlit("http://aff4.org/Schema#originalPathNameRaw");
    reveal_strlit("http://aff4.org/Schema#fileName");
    reveal_strlit("http://aff4.org/Schema#fileNameRaw");
    let t = type_predicate();
    let s = standard_iri("stored"@);
    assert(t.len() == 47);
    assert(t[7] == 'w' && t[8] == 'w');
    assert(s.len() == 29);
    let x = aff4l_iri(terms::EXTENDED_ATTRIBUTE@, https);
    assert(x.len() >= 40);
    assert(x[7] != 'w' || x[8] != 'w');
    assert("http://aff4.org/Schema#birthTime"@.len() == 32);
    assert("http://aff4.org/Schema#lastWritten"@.len() == 34);
    assert("http://aff4.org/Schema#lastAccessed"@.len() == 35);
    assert("http://aff4.org/Schema#recordChanged"@.len() == 36);
    assert("http://aff4.org/Schema#fileMode"@.len() == 31);
    assert("http://aff4.org/Schema#originalFileName"@.len() == 39);
    assert("http://aff4.org/Schema#originalPathName"@.len() == 39);
    assert("http://aff4.org/Schema#originalPathNameRaw"@.len() == 42);
    assert("http://aff4.org/Schema#fileName"@.len() == 31);
    assert("http://aff4.org/Schema#fileNameRaw"@.len() == 34);
    assert(s =~= "http://aff4.org/Schema#stored"@);
    assert(standard_iri(terms::FILE_IMAGE@) =~= "http://aff4.org/Schema#FileImage"@);
    assert(standard_iri("Image"@) =~= "http://aff4.org/Schema#Image"@);
    assert(standard_iri(terms::FOLDER@) =~= "http://aff4.org/Schema#Folder"@);
    assert(standard_iri(terms::FOLDER_IMAGE@) =~= "http://aff4.org/Schema#FolderImage"@);
}

/// What an entry was on its filesystem.
spec fn entry_part(
    arn: Seq<char>,
    path: PathView,
    stamps: StampsView,
    profile: LogicalProfile,
) -> Seq<TripleView> {
    path_triples(arn, path, profile) + time_triples(arn, stamps) + mode_triples(
        arn,
        stamps,
        profile,
    )
}

/// What an entry was on its filesystem is said under the terms for that.
proof fn entry_part_is_of_entry(
    arn: Seq<char>,
    path: PathView,
    stamps: StampsView,
    profile: LogicalProfile,
    i: int,
)
    requires
        0 <= i < entry_part(arn, path, stamps, profile).len(),
    ensures
        is_entry_term(entry_part(arn, path, stamps, profile)[i].predicate),
{
    entry_terms_are_spelled();
    let a = path_triples(arn, path, profile);
    let b = time_triples(arn, stamps);
    let c = mode_triples(arn, stamps, profile);
    let all = entry_part(arn, path, stamps, profile);
    if i < a.len() {
        assert(all[i] == a[i]);
    } else if i < a.len() + b.len() {
        assert(all[i] == b[i - a.len()]);
    } else {
        assert(all[i] == c[i - a.len() - b.len()]);
    }
}

/// What an entry's metadata and two types say of what and where it is.
proof fn entry_is_placed(
    g: Seq<TripleView>,
    path: PathView,
    arn: Seq<char>,
    stamps: StampsView,
    volume: Seq<char>,
    profile: LogicalProfile,
    placed: bool,
    first: Seq<char>,
    second: Seq<char>,
    https: bool,
)
    ensures
        ({
            let after = (g + entry_triples(arn, path, stamps, volume, profile, placed)).push(
                typed_as(arn, first),
            ).push(typed_as(arn, second));
            &&& stated(after, arn, type_predicate()) == stated(g, arn, type_predicate()).push(
                TermView::Iri(first),
            ).push(TermView::Iri(second))
            &&& stated(after, arn, standard_iri("stored"@)) == stated(
                g,
                arn,
                standard_iri("stored"@),
            ) + (if placed {
                seq![TermView::Iri(volume)]
            } else {
                Seq::empty()
            })
        }),
{
    types_stand_apart(https);
    let t = type_predicate();
    let p = standard_iri("stored"@);
    let part = entry_part(arn, path, stamps, profile);
    let plain = g + part;
    let all = g + entry_triples(arn, path, stamps, volume, profile, placed);
    assert forall|i: int| g.len() <= i < plain.len() implies (#[trigger] plain[i]).predicate != p
        && plain[i].predicate != t by {
        assert(plain[i] == part[i - g.len()]);
        entry_part_is_of_entry(arn, path, stamps, profile, i - g.len());
    }
    others_keep(g, plain, arn, p);
    others_keep(g, plain, arn, t);
    if placed {
        assert(all =~= plain.push(stored_triple(arn, volume)));
        said_with_one_more(plain, stored_triple(arn, volume), arn, p);
        said_with_one_more(plain, stored_triple(arn, volume), arn, t);
    } else {
        assert(all =~= plain);
    }
    let a = typed_as(arn, first);
    let b = typed_as(arn, second);
    said_with_one_more(all, a, arn, t);
    said_with_one_more(all.push(a), b, arn, t);
    said_with_one_more(all, a, arn, p);
    said_with_one_more(all.push(a), b, arn, p);
}

/// Introducing a file says that it is the image of a file, and where it is stored, unless
/// its own stream will say so.
pub proof fn files_say_what_they_are(
    s: Standing,
    path: PathView,
    arn: Seq<char>,
    placed: bool,
    facts: FactsView,
    o: OptionsView,
)
    ensures
        ({
            let before = s.writer.graph;
            let after = introduced_file(s, path, arn, placed, facts, o).writer.graph;
            let types = "http://www.w3.org/1999/02/22-rdf-syntax-ns#type"@;
            let place = "http://aff4.org/Schema#stored"@;
            &&& stated(after, arn, types) == stated(before, arn, types).push(
                TermView::Iri("http://aff4.org/Schema#FileImage"@),
            ).push(TermView::Iri("http://aff4.org/Schema#Image"@))
            &&& stated(after, arn, place) == stated(before, arn, place) + (if placed {
                seq![TermView::Iri(s.writer.volume)]
            } else {
                Seq::empty()
            })
        }),
{
    types_stand_apart(o.namespace_https);
    let typed = s.writer.state_all(
        entry_triples(arn, path, facts.stamps, s.writer.volume, o.profile, placed),
    ).state(typed_as(arn, standard_iri(terms::FILE_IMAGE@))).state(
        typed_as(arn, standard_iri("Image"@)),
    );
    let after = attributes_written(typed, arn, facts.attributes, o).graph;
    entry_is_placed(
        s.writer.graph,
        path,
        arn,
        facts.stamps,
        s.writer.volume,
        o.profile,
        placed,
        standard_iri(terms::FILE_IMAGE@),
        standard_iri("Image"@),
        o.namespace_https,
    );
    attributes_are_apart(typed, arn, facts.attributes, o, type_predicate());
    attributes_are_apart(typed, arn, facts.attributes, o, standard_iri("stored"@));
    others_keep(typed.graph, after, arn, type_predicate());
    others_keep(typed.graph, after, arn, standard_iri("stored"@));
}

/// Entering a folder says that it is one, and where it is stored.
pub proof fn folders_say_what_they_are(
    s: AcquireView,
    path: PathView,
    arn: Seq<char>,
    facts: FactsView,
    o: OptionsView,
)
    ensures
        ({
            let before = s.store.standing.writer;
            let after = folder_entered(s, path, arn, facts, o).store.standing.writer.graph;
            let types = "http://www.w3.org/1999/02/22-rdf-syntax-ns#type"@;
            let place = "http://aff4.org/Schema#stored"@;
            &&& stated(after, arn, types) == stated(before.graph, arn, types).push(
                TermView::Iri("http://aff4.org/Schema#Folder"@),
            ).push(TermView::Iri("http://aff4.org/Schema#FolderImage"@))
            &&& stated(after, arn, place) == stated(before.graph, arn, place).push(
                TermView::Iri(before.volume),
            )
        }),
{
    types_stand_apart(o.namespace_https);
    let before = s.store.standing.writer;
    entry_is_placed(
        before.graph,
        path,
        arn,
        facts.stamps,
        before.volume,
        o.profile,
        true,
        standard_iri(terms::FOLDER@),
        standard_iri(terms::FOLDER_IMAGE@),
        o.namespace_https,
    );
    assert(stated(before.graph, arn, standard_iri("stored"@)).push(TermView::Iri(before.volume))
        =~= stated(before.graph, arn, standard_iri("stored"@)) + seq![
        TermView::Iri(before.volume),
    ]);
}

} // verus!
