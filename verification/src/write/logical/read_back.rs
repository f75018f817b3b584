//! What verifying makes of files as an acquisition stores them.

use vstd::prelude::*;

use crate::arn::{member_of, NameMapping};
use crate::error::{ErrorView, LocusView};
use crate::hash::{
    computable, digests_under, md5_digest, sha1_digest, sha256_digest, sha512_digest, DigestView,
};
use crate::lexicon::{aff4l_iri, standard_iri, Lexicon};
use crate::model::{algorithm_name, HashAlgorithm};
use crate::rdf::{type_predicate, typed_as, TermView, TripleView};
use crate::storage_form::StorageForm;
use crate::text;
use crate::verify::attested::{says_segment, segment_files_are_answered};
use crate::verify::container::{ImageEntry, ObjectView, Part};
use crate::verify::images::image_report;
use crate::verify::report::ReportView;
use crate::verify::sound::{is_answered, is_plain, records};
use crate::verify::streams::VerifyOptions;
use crate::volume::Volume;
use crate::write::container_writer::WriterView;
use crate::write::logical::names::{reserved, segment_name, LogicalProfile, PathView};
use crate::write::logical::record::{
    attributes_written, buffered_recorded, entry_triples, file_recorded, introduced_file, FactsView,
    MintedView, Standing, StoreView,
};
use crate::write::logical::stated::{
    grew_without, other_terms_keep, stated, stated_in_order, unnamed_is_unsaid,
};
use crate::write::logical::storage::{storage_for, OptionsView, StreamKind};
use crate::write::logical::terms;
use crate::write::stream_writer::{digest_triples, serves};

verus! {

/// The property under which a digest of a file's bytes is stated.
pub open spec fn hash_term() -> Seq<char> {
    "http://aff4.org/Schema#hash"@
}

/// The datatype that says under which algorithm a digest was made.
pub open spec fn datatype_of(a: HashAlgorithm) -> Seq<char> {
    match a {
        HashAlgorithm::Md5 => "http://aff4.org/Schema#MD5"@,
        HashAlgorithm::Sha1 => "http://aff4.org/Schema#SHA1"@,
        HashAlgorithm::Sha256 => "http://aff4.org/Schema#SHA256"@,
        HashAlgorithm::Sha512 => "http://aff4.org/Schema#SHA512"@,
        HashAlgorithm::Blake2b => "http://aff4.org/Schema#Blake2b"@,
        HashAlgorithm::Blake3 => "http://aff4.org/Schema#BLAKE3"@,
        HashAlgorithm::BlockMapSha512 => "http://aff4.org/Schema#blockMapHashSHA512"@,
    }
}

/// The digest of some bytes as it is stated.
pub open spec fn stated_digest(a: HashAlgorithm, data: Seq<u8>) -> TermView {
    TermView::Literal(
        text::hex(
            match a {
                HashAlgorithm::Md5 => md5_digest(data),
                HashAlgorithm::Sha1 => sha1_digest(data),
                HashAlgorithm::Sha256 => sha256_digest(data),
                _ => sha512_digest(data),
            },
        ),
        datatype_of(a),
    )
}

/// The datatypes, spelled out.
pub proof fn datatypes_are_spelled(a: HashAlgorithm)
    ensures
        standard_iri(algorithm_name(a)) == datatype_of(a),
{
    reveal_strlit("http://aff4.org/Schema#");
    reveal_strlit("MD5");
    reveal_strlit("SHA1");
    reveal_strlit("SHA256");
    reveal_strlit("SHA512");
    reveal_strlit("Blake2b");
    reveal_strlit("BLAKE3");
    reveal_strlit("blockMapHashSHA512");
    reveal_strlit("http://aff4.org/Schema#MD5");
    reveal_strlit("http://aff4.org/Schema#SHA1");
    reveal_strlit("http://aff4.org/Schema#SHA256");
    reveal_strlit("http://aff4.org/Schema#SHA512");
    reveal_strlit("http://aff4.org/Schema#Blake2b");
    reveal_strlit("http://aff4.org/Schema#BLAKE3");
    reveal_strlit("http://aff4.org/Schema#blockMapHashSHA512");
    assert(standard_iri(algorithm_name(a)) =~= datatype_of(a));
}

/// A datatype names one algorithm.
pub proof fn datatypes_tell_apart(a: HashAlgorithm, b: HashAlgorithm)
    ensures
        datatype_of(a) == datatype_of(b) <==> a == b,
{
    reveal_strlit("http://aff4.org/Schema#MD5");
    reveal_strlit("http://aff4.org/Schema#SHA1");
    reveal_strlit("http://aff4.org/Schema#SHA256");
    reveal_strlit("http://aff4.org/Schema#SHA512");
    reveal_strlit("http://aff4.org/Schema#Blake2b");
    reveal_strlit("http://aff4.org/Schema#BLAKE3");
    reveal_strlit("http://aff4.org/Schema#blockMapHashSHA512");
    let x = datatype_of(a);
    let y = datatype_of(b);
    if x == y {
        assert(x.len() == y.len());
        if x.len() == 29 {
            assert(x[26] == y[26]);
            assert(x[23] == y[23]);
        }
    }
}

/// What statements of digests say.
proof fn digests_in_turn(arn: Seq<char>, digests: Seq<DigestView>, n: nat)
    requires
        n <= digests.len(),
    ensures
        stated(digest_triples(arn, digests).take(n as int), arn, hash_term()).len() == n,
        forall|k: int|
            0 <= k < n ==> #[trigger] stated(
                digest_triples(arn, digests).take(n as int),
                arn,
                hash_term(),
            )[k] == TermView::Literal(digests[k].hex, datatype_of(digests[k].algorithm)),
    decreases n,
{
    let all = digest_triples(arn, digests);
    if n > 0 {
        digests_in_turn(arn, digests, (n - 1) as nat);
        assert(all.take(n as int).drop_last() =~= all.take(n - 1));
        assert(all.take(n as int).last() == all[n - 1]);
        hash_is_spelled();
        datatypes_are_spelled(digests[n - 1].algorithm);
        let before = stated(all.take(n - 1), arn, hash_term());
        let after = stated(all.take(n as int), arn, hash_term());
        assert(after == before.push(all[n - 1].object));
    }
}

/// The property of digests, spelled out.
proof fn hash_is_spelled()
    ensures
        standard_iri("hash"@) == hash_term(),
{
    reveal_strlit("http://aff4.org/Schema#");
    reveal_strlit("hash");
    reveal_strlit("http://aff4.org/Schema#hash");
    assert(standard_iri("hash"@) =~= hash_term());
}

/// The digests of some bytes, one for each algorithm that there is an implementation of.
proof fn digests_are_made(algorithms: Seq<HashAlgorithm>, data: Seq<u8>)
    ensures
        forall|k: int|
            0 <= k < digests_under(algorithms, data).len() ==> ({
                let d = #[trigger] digests_under(algorithms, data)[k];
                &&& algorithms.contains(d.algorithm)
                &&& computable(d.algorithm)
                &&& TermView::Literal(d.hex, datatype_of(d.algorithm)) == stated_digest(
                    d.algorithm,
                    data,
                )
            }),
        forall|i: int|
            0 <= i < algorithms.len() && computable(#[trigger] algorithms[i]) ==> exists|k: int|
                0 <= k < digests_under(algorithms, data).len() && (#[trigger] digests_under(
                    algorithms,
                    data,
                )[k]).algorithm == algorithms[i],
    decreases algorithms.len(),
{
    if algorithms.len() > 0 {
        let shorter = algorithms.drop_last();
        let before = digests_under(shorter, data);
        let after = digests_under(algorithms, data);
        digests_are_made(shorter, data);
        assert forall|k: int| 0 <= k < after.len() implies ({
            let d = #[trigger] after[k];
            &&& algorithms.contains(d.algorithm)
            &&& computable(d.algorithm)
            &&& TermView::Literal(d.hex, datatype_of(d.algorithm)) == stated_digest(
                d.algorithm,
                data,
            )
        }) by {
            if k < before.len() {
                assert(after[k] == before[k]);
                assert(shorter.contains(before[k].algorithm));
                let j = choose|j: int|
                    0 <= j < shorter.len() && shorter[j] == before[k].algorithm;
                assert(algorithms[j] == before[k].algorithm);
            } else {
                assert(algorithms[algorithms.len() - 1] == algorithms.last());
            }
        }
        assert forall|i: int|
            0 <= i < algorithms.len() && computable(#[trigger] algorithms[i]) implies exists|k:
            int|
            0 <= k < after.len() && (#[trigger] after[k]).algorithm == algorithms[i] by {
            if i < shorter.len() {
                assert(shorter[i] == algorithms[i]);
                let k = choose|k: int|
                    0 <= k < before.len() && (#[trigger] before[k]).algorithm == shorter[i];
                assert(after[k] == before[k]);
            } else {
                assert(after[after.len() - 1].algorithm == algorithms[i]);
            }
        }
    }
}

/// The property of digests is no other.
proof fn digests_stand_apart(https: bool)
    ensures
        hash_term() != type_predicate(),
        hash_term() != standard_iri("size"@),
        hash_term() != standard_iri("stored"@),
        hash_term() != standard_iri("target"@),
        hash_term() != standard_iri(terms::BIRTH_TIME@),
        hash_term() != standard_iri(terms::LAST_WRITTEN@),
        hash_term() != standard_iri(terms::LAST_ACCESSED@),
        hash_term() != standard_iri(terms::RECORD_CHANGED@),
        hash_term() != standard_iri(terms::FILE_MODE@),
        hash_term() != standard_iri(terms::ORIGINAL_FILE_NAME@),
        hash_term() != standard_iri(terms::ORIGINAL_PATH_NAME@),
        hash_term() != standard_iri(terms::ORIGINAL_PATH_NAME_RAW@),
        hash_term() != standard_iri(terms::FILE_NAME@),
        hash_term() != standard_iri(terms::FILE_NAME_RAW@),
        hash_term() != aff4l_iri(terms::NAME@, https),
        hash_term() != aff4l_iri(terms::DATA_STREAM@, https),
        hash_term() != aff4l_iri(terms::EXTENDED_ATTRIBUTE@, https),
{
    reveal_strlit("http://aff4.org/Schema#");
    reveal_strlit("http://aff4.org/Schema/AFF4-L#");
    reveal_strlit("https://aff4.org/Schema/AFF4-L#");
    reveal_strlit("http://www.w3.org/1999/02/22-rdf-syntax-ns#type");
    reveal_strlit("http://aff4.org/Schema#hash");
    reveal_strlit("size");
    reveal_strlit("stored");
    reveal_strlit("target");
    reveal_strlit("birthTime");
    reveal_strlit("lastWritten");
    reveal_strlit("lastAccessed");
    reveal_strlit("recordChanged");
    reveal_strlit("fileMode");
    reveal_strlit("originalFileName");
    reveal_strlit("originalPathName");
    reveal_strlit("originalPathNameRaw");
    reveal_strlit("fileName");
    reveal_strlit("fileNameRaw");
    reveal_strlit("name");
    reveal_strlit("dataStream");
    reveal_strlit("extendedAttribute");
    let h = hash_term();
    assert(h.len() == 27);
    assert(standard_iri("size"@)[23] == 's');
    assert(h[23] == 'h');
    assert(aff4l_iri(terms::NAME@, https)[22] != '#' || aff4l_iri(terms::NAME@, https)[23] == 'n');
}

/// Extended attributes state no digest.
proof fn attributes_state_no_digest(
    w: WriterView,
    parent: Seq<char>,
    attributes: Seq<(Seq<char>, Seq<u8>)>,
    o: OptionsView,
)
    ensures
        grew_without(
            w.graph,
            attributes_written(w, parent, attributes, o).graph,
            hash_term(),
        ),
    decreases attributes.len(),
{
    digests_stand_apart(o.namespace_https);
    if attributes.len() > 0 {
        attributes_state_no_digest(w, parent, attributes.drop_last(), o);
    }
}

/// Introducing a file states no digest.
#[verifier::rlimit(40)]
proof fn introductions_state_no_digest(
    s: Standing,
    path: PathView,
    arn: Seq<char>,
    placed: bool,
    facts: FactsView,
    o: OptionsView,
)
    ensures
        grew_without(
            s.writer.graph,
            introduced_file(s, path, arn, placed, facts, o).writer.graph,
            hash_term(),
        ),
        introduced_file(s, path, arn, placed, facts, o).writer.volume == s.writer.volume,
{
    digests_stand_apart(o.namespace_https);
    let typed = s.writer.state_all(
        entry_triples(arn, path, facts.stamps, s.writer.volume, o.profile, placed),
    ).state(typed_as(arn, standard_iri(terms::FILE_IMAGE@))).state(
        typed_as(arn, standard_iri("Image"@)),
    );
    assert(grew_without(s.writer.graph, typed.graph, hash_term()));
    attributes_state_no_digest(typed, arn, facts.attributes, o);
    attributes_keep_volume(typed, arn, facts.attributes, o);
    let after = attributes_written(typed, arn, facts.attributes, o).graph;
    assert forall|i: int| 0 <= i < s.writer.graph.len() implies #[trigger] after[i]
        == s.writer.graph[i] by {
        assert(typed.graph[i] == s.writer.graph[i]);
    }
    assert forall|i: int| s.writer.graph.len() <= i < after.len() implies (
    #[trigger] after[i]).predicate != hash_term() by {
        if i < typed.graph.len() {
            assert(after[i] == typed.graph[i]);
        }
    }
}

/// Extended attributes leave the volume's name as it is.
proof fn attributes_keep_volume(
    w: WriterView,
    parent: Seq<char>,
    attributes: Seq<(Seq<char>, Seq<u8>)>,
    o: OptionsView,
)
    ensures
        attributes_written(w, parent, attributes, o).volume == w.volume,
    decreases attributes.len(),
{
    if attributes.len() > 0 {
        attributes_keep_volume(w, parent, attributes.drop_last(), o);
    }
}

/// Whether a file of a length is stored as a member of the volume.
pub open spec fn becomes_member(s: StoreView, size: u64, o: OptionsView) -> bool {
    s.pool is None && storage_for(StreamKind::Primary, size, o.profile, o.storage_form)
        == StorageForm::ZipSegment
}

/// A file that is stored as a member adds, as the last one, a member that holds its bytes,
/// says that it is one, and states of it the digest of its bytes under each algorithm that
/// is asked for, SHA-1 and MD5 where none is, and no other digest.
#[verifier::rlimit(40)]
pub proof fn member_files_are_described(
    s: StoreView,
    path: PathView,
    arn: Seq<char>,
    size: u64,
    facts: FactsView,
    names: MintedView,
    o: OptionsView,
    data: Seq<u8>,
)
    requires
        becomes_member(s, size, o),
        facts.content == Ok::<Seq<u8>, Seq<char>>(data),
        !reserved(segment_name(s.standing.writer.volume, arn, o.profile)),
    ensures
        ({
            let before = s.standing.writer;
            let after = file_recorded(s, path, arn, size, facts, names, o).standing.writer;
            let asked = if o.algorithms.len() == 0 {
                seq![HashAlgorithm::Sha1, HashAlgorithm::Md5]
            } else {
                o.algorithms
            };
            let earlier = stated(before.graph, arn, hash_term());
            let all = stated(after.graph, arn, hash_term());
            &&& after.members.len() > before.members.len()
            &&& after.members.last().name == segment_name(before.volume, arn, o.profile)
            &&& after.members.last().data == data
            &&& stated(after.graph, arn, type_predicate()).contains(
                TermView::Iri(
                    if o.profile == LogicalProfile::V1Alpha {
                        "http://aff4.org/Schema#ZipSegment"@
                    } else {
                        "http://aff4.org/Schema#zip_segment"@
                    },
                ),
            )
            &&& earlier.is_prefix_of(all)
            &&& forall|k: int|
                earlier.len() <= k < all.len() ==> exists|a: HashAlgorithm|
                    asked.contains(a) && computable(a) && #[trigger] all[k] == #[trigger]
                    stated_digest(a, data)
            &&& forall|i: int|
                0 <= i < asked.len() && computable(#[trigger] asked[i]) ==> exists|k: int|
                    earlier.len() <= k < all.len() && #[trigger] all[k] == stated_digest(
                        asked[i],
                        data,
                    )
        }),
{
    let before = s.standing.writer;
    let after = file_recorded(s, path, arn, size, facts, names, o).standing.writer;
    let asked = o.recorded_algorithms();
    let digests = digests_under(asked, data);
    let triples = digest_triples(arn, digests);
    let h = hash_term();
    let begun = introduced_file(s.standing, path, arn, true, facts, o);
    member_is_written(s, path, arn, size, facts, names, o, data);
    introductions_state_no_digest(s.standing, path, arn, true, facts, o);
    introductions_keep_members(s.standing, path, arn, true, facts, o);
    other_terms_keep(before.graph, begun.writer.graph, arn, h);
    stated_in_order(begun.writer.graph, triples, arn, h);
    other_terms_keep(begun.writer.graph + triples, after.graph, arn, h);
    digests_are_stated(arn, asked, data, stated(before.graph, arn, h));
}

/// What stating digests adds to what was stated before.
pub proof fn digests_are_stated(
    arn: Seq<char>,
    asked: Seq<HashAlgorithm>,
    data: Seq<u8>,
    earlier: Seq<TermView>,
)
    ensures
        ({
            let all = earlier + stated(
                digest_triples(arn, digests_under(asked, data)),
                arn,
                hash_term(),
            );
            &&& forall|k: int|
                earlier.len() <= k < all.len() ==> exists|a: HashAlgorithm|
                    asked.contains(a) && computable(a) && #[trigger] all[k] == #[trigger]
                    stated_digest(a, data)
            &&& forall|i: int|
                0 <= i < asked.len() && computable(#[trigger] asked[i]) ==> exists|k: int|
                    earlier.len() <= k < all.len() && #[trigger] all[k] == stated_digest(
                        asked[i],
                        data,
                    )
        }),
{
    let digests = digests_under(asked, data);
    let triples = digest_triples(arn, digests);
    digests_in_turn(arn, digests, digests.len());
    assert(triples.take(digests.len() as int) =~= triples);
    digests_are_made(asked, data);
    let fresh = stated(triples, arn, hash_term());
    let all = earlier + fresh;
    assert forall|k: int| earlier.len() <= k < all.len() implies exists|a: HashAlgorithm|
        asked.contains(a) && computable(a) && #[trigger] all[k] == #[trigger] stated_digest(
            a,
            data,
        ) by {
        let d = digests[k - earlier.len()];
        assert(all[k] == fresh[k - earlier.len()]);
        assert(all[k] == stated_digest(d.algorithm, data));
    }
    assert forall|i: int| 0 <= i < asked.len() && computable(#[trigger] asked[i]) implies exists|
        k: int,
    |
        earlier.len() <= k < all.len() && #[trigger] all[k] == stated_digest(asked[i], data) by {
        let k = choose|k: int|
            0 <= k < digests.len() && (#[trigger] digests[k]).algorithm == asked[i];
        assert(all[earlier.len() + k] == fresh[k]);
        assert(all[earlier.len() + k] == stated_digest(asked[i], data));
    }
}

/// What is written of a file that is stored as a member.
#[verifier::rlimit(40)]
proof fn member_is_written(
    s: StoreView,
    path: PathView,
    arn: Seq<char>,
    size: u64,
    facts: FactsView,
    names: MintedView,
    o: OptionsView,
    data: Seq<u8>,
)
    requires
        becomes_member(s, size, o),
        facts.content == Ok::<Seq<u8>, Seq<char>>(data),
        !reserved(segment_name(s.standing.writer.volume, arn, o.profile)),
    ensures
        ({
            let begun = introduced_file(s.standing, path, arn, true, facts, o).writer;
            let after = file_recorded(s, path, arn, size, facts, names, o).standing.writer;
            &&& grew_without(
                begun.graph + digest_triples(
                    arn,
                    digests_under(o.recorded_algorithms(), data),
                ),
                after.graph,
                hash_term(),
            )
            &&& after.members.len() == begun.members.len() + 1
            &&& after.members.last().name == segment_name(
                s.standing.writer.volume,
                arn,
                o.profile,
            )
            &&& after.members.last().data == data
            &&& stated(after.graph, arn, type_predicate()).contains(
                TermView::Iri(
                    if o.profile == LogicalProfile::V1Alpha {
                        "http://aff4.org/Schema#ZipSegment"@
                    } else {
                        "http://aff4.org/Schema#zip_segment"@
                    },
                ),
            )
        }),
{
    let begun = introduced_file(s.standing, path, arn, true, facts, o);
    introductions_state_no_digest(s.standing, path, arn, true, facts, o);
    assert(file_recorded(s, path, arn, size, facts, names, o).standing == buffered_recorded(
        begun,
        path,
        arn,
        size,
        StorageForm::ZipSegment,
        facts.content,
        o,
    ));
    buffered_is_written(begun, path, arn, size, o, data);
}

/// The types of members, spelled out.
proof fn member_types_are_spelled()
    ensures
        standard_iri(terms::ZIP_SEGMENT_V21@) == "http://aff4.org/Schema#ZipSegment"@,
        standard_iri(terms::ZIP_SEGMENT@) == "http://aff4.org/Schema#zip_segment"@,
{
    reveal_strlit("http://aff4.org/Schema#");
    reveal_strlit("ZipSegment");
    reveal_strlit("zip_segment");
    reveal_strlit("http://aff4.org/Schema#ZipSegment");
    reveal_strlit("http://aff4.org/Schema#zip_segment");
    assert("http://aff4.org/Schema#ZipSegment"@ =~= standard_iri("ZipSegment"@));
    assert("http://aff4.org/Schema#zip_segment"@ =~= standard_iri("zip_segment"@));
}

/// What is written of a file's bytes that are stored as a member.
proof fn buffered_is_written(
    begun: Standing,
    path: PathView,
    arn: Seq<char>,
    size: u64,
    o: OptionsView,
    data: Seq<u8>,
)
    requires
        !reserved(segment_name(begun.writer.volume, arn, o.profile)),
    ensures
        ({
            let after = buffered_recorded(
                begun,
                path,
                arn,
                size,
                StorageForm::ZipSegment,
                Ok::<Seq<u8>, Seq<char>>(data),
                o,
            ).writer;
            &&& grew_without(
                begun.writer.graph + digest_triples(
                    arn,
                    digests_under(o.recorded_algorithms(), data),
                ),
                after.graph,
                hash_term(),
            )
            &&& after.members.len() == begun.writer.members.len() + 1
            &&& after.members.last().name == segment_name(begun.writer.volume, arn, o.profile)
            &&& after.members.last().data == data
            &&& stated(after.graph, arn, type_predicate()).contains(
                TermView::Iri(
                    if o.profile == LogicalProfile::V1Alpha {
                        "http://aff4.org/Schema#ZipSegment"@
                    } else {
                        "http://aff4.org/Schema#zip_segment"@
                    },
                ),
            )
        }),
{
    let after = buffered_recorded(
        begun,
        path,
        arn,
        size,
        StorageForm::ZipSegment,
        Ok::<Seq<u8>, Seq<char>>(data),
        o,
    ).writer;
    digests_stand_apart(o.namespace_https);
    member_types_are_spelled();
    let class = if o.profile == LogicalProfile::V1Alpha {
        "http://aff4.org/Schema#ZipSegment"@
    } else {
        "http://aff4.org/Schema#zip_segment"@
    };
    let types = stated(after.graph, arn, type_predicate());
    assert(after.graph.last() == typed_as(arn, class));
    assert(types[types.len() - 1] == TermView::Iri(class));
}

/// Introducing a file only adds members.
proof fn introductions_keep_members(
    s: Standing,
    path: PathView,
    arn: Seq<char>,
    placed: bool,
    facts: FactsView,
    o: OptionsView,
)
    ensures
        s.writer.members.len() <= introduced_file(
            s,
            path,
            arn,
            placed,
            facts,
            o,
        ).writer.members.len(),
{
    let typed = s.writer.state_all(
        entry_triples(arn, path, facts.stamps, s.writer.volume, o.profile, placed),
    ).state(typed_as(arn, standard_iri(terms::FILE_IMAGE@))).state(
        typed_as(arn, standard_iri("Image"@)),
    );
    attributes_keep_members(typed, arn, facts.attributes, o);
}

/// Extended attributes only add members.
proof fn attributes_keep_members(
    w: WriterView,
    parent: Seq<char>,
    attributes: Seq<(Seq<char>, Seq<u8>)>,
    o: OptionsView,
)
    ensures
        w.members.len() <= attributes_written(w, parent, attributes, o).members.len(),
    decreases attributes.len(),
{
    if attributes.len() > 0 {
        attributes_keep_members(w, parent, attributes.drop_last(), o);
    }
}

/// Whether an object is a resource as statements describe it: it has every type that they
/// give it, and its digests are among those that they state.
pub open spec fn is_read_from(object: ObjectView, g: Seq<TripleView>) -> bool {
    &&& forall|k: int|
        0 <= k < stated(g, object.arn, type_predicate()).len() ==> ((#[trigger] stated(
            g,
            object.arn,
            type_predicate(),
        )[k]) matches TermView::Iri(class) ==> object.types.contains(class))
    &&& forall|i: int|
        0 <= i < object.hashes.len() ==> exists|k: int|
            0 <= k < stated(g, object.arn, hash_term()).len() && #[trigger] stated(
                g,
                object.arn,
                hash_term(),
            )[k] == TermView::Literal(
                (#[trigger] object.hashes[i]).hex,
                datatype_of(object.hashes[i].algorithm),
            )
}

/// A file that an acquisition stored as a member of a volume, and that nothing was said of
/// before, verifies with matches only, one for each digest that is stated of it.
#[verifier::rlimit(40)]
pub proof fn member_files_verify<V: Volume>(
    s: StoreView,
    path: PathView,
    arn: Seq<char>,
    size: u64,
    facts: FactsView,
    names: MintedView,
    o: OptionsView,
    data: Seq<u8>,
    report: ReportView,
    object: ObjectView,
    images: Seq<ImageEntry>,
    parts: Seq<Part<V>>,
    lexicon: Lexicon,
    locus: LocusView,
    options: VerifyOptions,
)
    requires
        becomes_member(s, size, o),
        facts.content == Ok::<Seq<u8>, Seq<char>>(data),
        !reserved(segment_name(s.standing.writer.volume, arn, o.profile)),
        forall|i: int|
            0 <= i < s.standing.writer.graph.len() ==> (
            #[trigger] s.standing.writer.graph[i]).subject != arn,
        object.arn == arn,
        is_read_from(
            object,
            file_recorded(s, path, arn, size, facts, names, o).standing.writer.graph,
        ),
        serves(
            &parts[0].volume,
            file_recorded(s, path, arn, size, facts, names, o).standing.writer.members,
        ),
        member_of(arn, parts[0].volume.name(), NameMapping::Escaped) == Some(
            segment_name(s.standing.writer.volume, arn, o.profile),
        ),
        parts[0].volume.lists(segment_name(s.standing.writer.volume, arn, o.profile)),
    ensures
        ({
            let after = image_report(report, object, images, parts, lexicon, locus, options);
            &&& after.checks.len() == report.checks.len() + object.hashes.len()
            &&& forall|i: int|
                0 <= i < object.hashes.len() ==> is_answered(
                    report,
                    after,
                    arn,
                    #[trigger] object.hashes[i],
                    true,
                )
        }),
{
    let w = file_recorded(s, path, arn, size, facts, names, o).standing.writer;
    let member = segment_name(s.standing.writer.volume, arn, o.profile);
    member_files_are_described(s, path, arn, size, facts, names, o, data);
    let last = w.members.len() - 1;
    assert(w.members[last].name == member);
    assert(parts[0].volume.outcome(w.members[last].name) == Ok::<Seq<u8>, ErrorView>(data));
    let types = stated(w.graph, arn, type_predicate());
    let class = if o.profile == LogicalProfile::V1Alpha {
        "http://aff4.org/Schema#ZipSegment"@
    } else {
        "http://aff4.org/Schema#zip_segment"@
    };
    let k = choose|k: int| 0 <= k < types.len() && types[k] == TermView::Iri(class);
    assert(object.types.contains(class));
    assert(says_segment(object.types));
    let earlier = stated(s.standing.writer.graph, arn, hash_term());
    unnamed_is_unsaid(s.standing.writer.graph, arn, hash_term());
    let all = stated(w.graph, arn, hash_term());
    assert forall|i: int| 0 <= i < object.hashes.len() implies is_plain(
        #[trigger] object.hashes[i],
    ) && records(object.hashes[i], data) by {
        let hash = object.hashes[i];
        let k = choose|k: int|
            0 <= k < all.len() && #[trigger] all[k] == TermView::Literal(
                hash.hex,
                datatype_of(hash.algorithm),
            );
        let a = choose|a: HashAlgorithm|
            computable(a) && #[trigger] all[k] == #[trigger] stated_digest(a, data);
        assert(all[k] == stated_digest(a, data));
        datatypes_tell_apart(a, hash.algorithm);
    }
    segment_files_are_answered(
        report,
        object,
        images,
        parts,
        lexicon,
        locus,
        options,
        member,
        data,
    );
}

} // verus!
