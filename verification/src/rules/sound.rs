//! What holds of the catalog as a whole: every rule is a sentence, the rules stand in the
//! order of their clauses, and none shares its identifier with another.

use vstd::prelude::*;

use crate::rules::catalog::{
    alpha_rules, catalog, file_rules, identity_rules, integrity_rules, lexicon_rules,
    metadata_rules, name_rules, paper_rules, protection_rules, standard_rules, storage_rules,
    store_rules, stripe_rules, unlegislated_rules, volume_rules,
};
use crate::rules::{Document, RuleId, RuleInfo};
use crate::text;

verus! {

/// Whether a statement is a sentence: longer than a few words, and with a full stop.
pub open spec fn is_sentence(statement: Seq<char>) -> bool {
    statement.len() > 20 && statement.last() == '.'
}

/// Whether the statements of some rules are sentences.
pub open spec fn all_sentences(rules: Seq<RuleInfo>) -> bool {
    forall|i: int| 0 <= i < rules.len() ==> is_sentence((#[trigger] rules[i]).statement@)
}

/// The number of a character of a clause, zero behind its end.
pub open spec fn clause_char(clause: Seq<char>, i: int) -> int {
    if i < clause.len() {
        clause[i] as int
    } else {
        0
    }
}

/// Where a rule's document stands in the catalog; what no clause says stands at the end.
pub open spec fn document_place(id: RuleId) -> int {
    if clause_char(id.clause@, 0) != '§' as int {
        3
    } else {
        match id.document {
            Document::Aff4Standard10a => 0,
            Document::Aff4LPaper2019 => 1,
            Document::Aff4LStandard10Alpha => 2,
        }
    }
}

/// Whether a clause lies in a section of two digits.
pub open spec fn in_late_section(clause: Seq<char>) -> bool {
    clause.len() > 2 && text::is_digit(clause[2])
}

/// Where a clause stands in its document, by its section sign and six characters more.
pub open spec fn clause_place(clause: Seq<char>) -> int {
    (if in_late_section(clause) {
        72057594037927936
    } else {
        0int
    }) + clause_char(clause, 0) * 281474976710656 + clause_char(clause, 1) * 1099511627776
        + clause_char(clause, 2) * 4294967296 + clause_char(clause, 3) * 16777216 + clause_char(
        clause,
        4,
    ) * 65536 + clause_char(clause, 5) * 256 + clause_char(clause, 6)
}

/// Whether a rule stands before another: in an earlier document, in an earlier clause of
/// the same, or earlier in the same clause.
pub open spec fn stands_before(a: RuleId, b: RuleId) -> bool {
    document_place(a) < document_place(b) || document_place(a) == document_place(b) && (
    clause_place(a.clause@) < clause_place(b.clause@) || clause_place(a.clause@) == clause_place(
        b.clause@,
    ) && a.ordinal < b.ordinal)
}

/// Whether each of some rules stands before the next.
#[verifier::opaque]
pub open spec fn in_order(rules: Seq<RuleInfo>) -> bool {
    forall|i: int|
        0 < i < rules.len() ==> stands_before(rules[i - 1].id, (#[trigger] rules[i]).id)
}

/// Of rules each of which stands before the next, each stands before all that follow.
proof fn order_carries(rules: Seq<RuleInfo>, i: int, j: int)
    requires
        in_order(rules),
        0 <= i < j < rules.len(),
    ensures
        stands_before(rules[i].id, rules[j].id),
    decreases j,
{
    assert(stands_before(rules[j - 1].id, rules[j].id)) by {
        reveal(in_order);
    }
    if i < j - 1 {
        order_carries(rules, i, j - 1);
    }
}

/// Rules in order, followed by rules in order, are in order.
proof fn orders_join(a: Seq<RuleInfo>, b: Seq<RuleInfo>)
    requires
        in_order(a),
        in_order(b),
        a.len() > 0,
        b.len() > 0,
        stands_before(a.last().id, b[0].id),
    ensures
        in_order(a + b),
{
    reveal(in_order);
    let s = a + b;
    assert forall|i: int| 0 < i < s.len() implies stands_before(
        s[i - 1].id,
        (#[trigger] s[i]).id,
    ) by {
        if i < a.len() {
            assert(a[i] == s[i]);
        } else if i > a.len() {
            assert(b[i - a.len()] == s[i]);
        }
    }
}

/// Sentences followed by sentences are sentences.
proof fn sentences_join(a: Seq<RuleInfo>, b: Seq<RuleInfo>)
    requires
        all_sentences(a),
        all_sentences(b),
    ensures
        all_sentences(a + b),
{
    let s = a + b;
    assert forall|i: int| 0 <= i < s.len() implies is_sentence((#[trigger] s[i]).statement@) by {
        if i < a.len() {
            assert(a[i] == s[i]);
        } else {
            assert(b[i - a.len()] == s[i]);
        }
    }
}

/// The metadata rules are sentences.
proof fn metadata_rules_are_sentences()
    ensures
        all_sentences(metadata_rules()),
{
    reveal_strlit("A container declares its format version in a version.txt segment at its root, giving a major and a minor number.");
    reveal_strlit("A reader refuses a container whose version.txt is missing or gives no major and minor number.");
    reveal_strlit("Numeric literals carry an explicit datatype, as the standard's own containers write them.");
    reveal_strlit("Datatype IRIs are spelled as the standard defines them, not in a variant case.");
    reveal_strlit("A literal's datatype is the one its property expects.");
    reveal_strlit("A discontiguous map's holes are filled from its declared gap stream.");
}

/// The metadata rules are in order.
proof fn metadata_rules_are_in_order()
    ensures
        in_order(metadata_rules()),
{
    reveal(in_order);
    reveal_strlit("§1.1");
    reveal_strlit("§2.2");
    reveal_strlit("§4");
    let r = metadata_rules();
    assert(stands_before(r[0].id, r[1].id));
    assert(stands_before(r[1].id, r[2].id));
    assert(stands_before(r[2].id, r[3].id));
    assert(stands_before(r[3].id, r[4].id));
    assert(stands_before(r[4].id, r[5].id));
}

/// The volume rules are sentences.
proof fn volume_rules_are_sentences()
    ensures
        all_sentences(volume_rules()),
{
    reveal_strlit("Each storage path holds one segment, so a repeated member name leaves the earlier one unreachable.");
    reveal_strlit("An ARN maps to a storage path by the URI-to-path rules, which admit no byte-range suffix.");
    reveal_strlit("The ZIP comment carries the volume ARN starting at offset 0, with nothing appended.");
    reveal_strlit("The ZIP comment and container.description agree on the volume ARN.");
    reveal_strlit("Every object the volume holds appears in its own aff4:contains manifest.");
}

/// The volume rules are in order.
proof fn volume_rules_are_in_order()
    ensures
        in_order(volume_rules()),
{
    reveal(in_order);
    reveal_strlit("§5");
    reveal_strlit("§5.1");
    reveal_strlit("§5.4");
    let r = volume_rules();
    assert(stands_before(r[0].id, r[1].id));
    assert(stands_before(r[1].id, r[2].id));
    assert(stands_before(r[2].id, r[3].id));
    assert(stands_before(r[3].id, r[4].id));
}

/// The integrity rules are sentences.
proof fn integrity_rules_are_sentences()
    ensures
        all_sentences(integrity_rules()),
{
    reveal_strlit("A digest's length matches the algorithm its datatype declares.");
    reveal_strlit("An image records its block map digest in its hash property, under a datatype that names the algorithm.");
    reveal_strlit("The block map digest and the digests of a map's segments use SHA-512 or SHA-256.");
    reveal_strlit("A map may record the block map digest as well, in the property named for it.");
    reveal_strlit("A map records a digest over each of its segments and one over all of them together.");
}

/// The integrity rules are in order.
proof fn integrity_rules_are_in_order()
    ensures
        in_order(integrity_rules()),
{
    reveal(in_order);
    reveal_strlit("§6.1");
    reveal_strlit("§6.2");
    let r = integrity_rules();
    assert(stands_before(r[0].id, r[1].id));
    assert(stands_before(r[1].id, r[2].id));
    assert(stands_before(r[2].id, r[3].id));
    assert(stands_before(r[3].id, r[4].id));
}

/// The stripe rules are sentences.
proof fn stripe_rules_are_sentences()
    ensures
        all_sentences(stripe_rules()),
{
    reveal_strlit("A stripe may reference streams held in a sibling volume of the same set.");
    reveal_strlit("Volumes of one striped set agree on every property of a commonly-named stream.");
}

/// The stripe rules are in order.
proof fn stripe_rules_are_in_order()
    ensures
        in_order(stripe_rules()),
{
    reveal(in_order);
    reveal_strlit("§7.1");
    let r = stripe_rules();
    assert(stands_before(r[0].id, r[1].id));
}

/// The paper rules are sentences.
proof fn paper_rules_are_sentences()
    ensures
        all_sentences(paper_rules()),
{
    reveal_strlit("A file stored directly as a ZIP segment declares aff4:zip_segment in its type list.");
}

/// The paper rules are in order.
proof fn paper_rules_are_in_order()
    ensures
        in_order(paper_rules()),
{
    reveal(in_order);
    reveal_strlit("§3.8");
    let r = paper_rules();
}

/// The identity rules are sentences.
proof fn identity_rules_are_sentences()
    ensures
        all_sentences(identity_rules()),
{
    reveal_strlit("AFF4 objects are named by ARN, with the suspect's path and file name carried in properties rather than encoded into the name.");
    reveal_strlit("A logical file records its name and path in properties, since its resource name no longer carries them.");
    reveal_strlit("A segment name derived from an object's resource name leaves the scheme and authority unescaped.");
    reveal_strlit("An object's resource name is the AFF4 scheme followed by a lower-case GUID.");
    reveal_strlit("A resource name may carry a further part after its GUID, provided the whole remains a valid IRI.");
}

/// The identity rules are in order.
proof fn identity_rules_are_in_order()
    ensures
        in_order(identity_rules()),
{
    reveal(in_order);
    reveal_strlit("§1.1");
    reveal_strlit("§1.2");
    reveal_strlit("§2");
    let r = identity_rules();
    assert(stands_before(r[0].id, r[1].id));
    assert(stands_before(r[1].id, r[2].id));
    assert(stands_before(r[2].id, r[3].id));
    assert(stands_before(r[3].id, r[4].id));
}

/// The lexicon rules are sentences.
proof fn lexicon_rules_are_sentences()
    ensures
        all_sentences(lexicon_rules()),
{
    reveal_strlit("A writer emits new lexicon terms under the namespace its governing standard assigns them.");
    reveal_strlit("A reader may accept either namespace prefix for a lexicon term, so that containers written against the earlier schema still read.");
    reveal_strlit("A writer describes acquired files, folders and the acquisition itself with the classes this clause supplies.");
    reveal_strlit("A writer describes a file's non-primary data streams and extended attributes with the classes this clause supplies.");
    reveal_strlit("A writer records an acquired object's filesystem timestamps and an acquisition's roots with the properties this clause supplies.");
    reveal_strlit("Two of the timestamp properties carry the same description, so which moment each records cannot be judged from the document.");
    reveal_strlit("A writer records the separator its acquisition's paths use, with the property this clause supplies.");
    reveal_strlit("A writer records an acquired object's Unix file mode, with the property this clause supplies.");
    reveal_strlit("A writer references a file's alternate data streams and extended attributes with the properties this clause supplies.");
    reveal_strlit("The naming and content properties of a substream appear twice under different contexts, so whether they are one term or two cannot be judged from the document.");
    reveal_strlit("A digest property may carry any of the additional algorithms this clause names, and a reader computes each of them.");
    reveal_strlit("The clause names two extendable-output functions without fixing an output length, so the length a container uses cannot be judged.");
    reveal_strlit("A writer may record a digest under any of the additional algorithms this clause names.");
}

/// The lexicon rules are in order.
proof fn lexicon_rules_are_in_order()
    ensures
        in_order(lexicon_rules()),
{
    reveal(in_order);
    reveal_strlit("§4.1");
    reveal_strlit("§4.2");
    reveal_strlit("§4.3");
    reveal_strlit("§4.4");
    let r = lexicon_rules();
    assert(stands_before(r[0].id, r[1].id));
    assert(stands_before(r[1].id, r[2].id));
    assert(stands_before(r[2].id, r[3].id));
    assert(stands_before(r[3].id, r[4].id));
    assert(stands_before(r[4].id, r[5].id));
    assert(stands_before(r[5].id, r[6].id));
    assert(stands_before(r[6].id, r[7].id));
    assert(stands_before(r[7].id, r[8].id));
    assert(stands_before(r[8].id, r[9].id));
    assert(stands_before(r[9].id, r[10].id));
    assert(stands_before(r[10].id, r[11].id));
    assert(stands_before(r[11].id, r[12].id));
}

/// The name rules are sentences.
proof fn name_rules_are_sentences()
    ensures
        all_sentences(name_rules()),
{
    reveal_strlit("A name that is valid UTF-8 without control characters is recorded as it is, with no raw form.");
    reveal_strlit("A name that is not valid UTF-8, or carries a control character, records its raw bytes base64-encoded alongside the display form.");
    reveal_strlit("A raw name is well-formed base64, so the bytes it records can be read.");
    reveal_strlit("A name's raw form and display form describe the same name, so the two never contradict each other.");
    reveal_strlit("Percent escapes in a display name use uppercase hexadecimal.");
    reveal_strlit("Two encoded names in one folder may share a display form, so a reader must not assume a display name is unique.");
    reveal_strlit("A name is recorded byte for byte on a platform whose paths are not byte-oriented, in the encoding the standard names.");
}

/// The name rules are in order.
proof fn name_rules_are_in_order()
    ensures
        in_order(name_rules()),
{
    reveal(in_order);
    reveal_strlit("§5");
    let r = name_rules();
    assert(stands_before(r[0].id, r[1].id));
    assert(stands_before(r[1].id, r[2].id));
    assert(stands_before(r[2].id, r[3].id));
    assert(stands_before(r[3].id, r[4].id));
    assert(stands_before(r[4].id, r[5].id));
    assert(stands_before(r[5].id, r[6].id));
}

/// The storage rules are sentences.
proof fn storage_rules_are_sentences()
    ensures
        all_sentences(storage_rules()),
{
    reveal_strlit("A reader handles every storage stream form this section describes, not a chosen subset.");
    reveal_strlit("A writer implements at least one of the storage stream forms this section describes.");
    reveal_strlit("A stored stream names the form it is stored in, so a reader can tell where its bytes are.");
    reveal_strlit("A stored stream names no more than one form, so where its bytes are is never ambiguous.");
    reveal_strlit("A stream held as a ZIP segment is compressed with Stored or Deflate and no other method.");
    reveal_strlit("A ZIP segment storage stream holds no stream of one gibibyte or more.");
    reveal_strlit("A writer records a linear digest of each ZIP segment storage stream in that stream's hash property.");
    reveal_strlit("An in-metadata storage stream holds no stream larger than one kilobyte.");
    reveal_strlit("A stream carried inside the metadata need not record its own digests, since the metadata integrity hash covers it.");
    reveal_strlit("A writer computes and records a block map digest for every map, under either of the two property spellings the standard allows.");
    reveal_strlit("A reader accepts either block map digest spelling and can verify the block map digests of every map and dependent image stream.");
    reveal_strlit("A file image may additionally be typed as an image stream, storing its primary stream that way.");
}

/// The storage rules are in order.
proof fn storage_rules_are_in_order()
    ensures
        in_order(storage_rules()),
{
    reveal(in_order);
    reveal_strlit("§6");
    reveal_strlit("§6.1");
    reveal_strlit("§6.2");
    reveal_strlit("§6.3.1");
    reveal_strlit("§6.4");
    let r = storage_rules();
    assert(stands_before(r[0].id, r[1].id));
    assert(stands_before(r[1].id, r[2].id));
    assert(stands_before(r[2].id, r[3].id));
    assert(stands_before(r[3].id, r[4].id));
    assert(stands_before(r[4].id, r[5].id));
    assert(stands_before(r[5].id, r[6].id));
    assert(stands_before(r[6].id, r[7].id));
    assert(stands_before(r[7].id, r[8].id));
    assert(stands_before(r[8].id, r[9].id));
    assert(stands_before(r[9].id, r[10].id));
    assert(stands_before(r[10].id, r[11].id));
}

/// The file rules are sentences.
proof fn file_rules_are_sentences()
    ensures
        all_sentences(file_rules()),
{
    reveal_strlit("A container may signal its format by file extension, which is a hint and never decides how the container is read.");
    reveal_strlit("Parts of a multi-part container signal their membership by sharing one file name, the second and later parts carrying an ordinal suffix counting from one.");
}

/// The file rules are in order.
proof fn file_rules_are_in_order()
    ensures
        in_order(file_rules()),
{
    reveal(in_order);
    reveal_strlit("§7");
    reveal_strlit("§8");
    let r = file_rules();
    assert(stands_before(r[0].id, r[1].id));
}

/// The store rules are sentences.
proof fn store_rules_are_sentences()
    ensures
        all_sentences(store_rules()),
{
    reveal_strlit("Triples from the primary metadata segment and from every store it imports are read as one graph.");
    reveal_strlit("A container may carry an accelerated metadata store beside the primary one, holding everything the primary and any secondary stores hold.");
    reveal_strlit("A reader may take its metadata from the accelerated store in place of the primary and secondary stores.");
    reveal_strlit("An implementation of the accelerated serialization confines itself to the triple, dictionary, and dictionary-section encodings the standard names.");
}

/// The store rules are in order.
proof fn store_rules_are_in_order()
    ensures
        in_order(store_rules()),
{
    reveal(in_order);
    reveal_strlit("§9");
    reveal_strlit("§9a");
    reveal_strlit("§9a.1");
    let r = store_rules();
    assert(stands_before(r[0].id, r[1].id));
    assert(stands_before(r[1].id, r[2].id));
    assert(stands_before(r[2].id, r[3].id));
}

/// The protection rules are sentences.
proof fn protection_rules_are_sentences()
    ensures
        all_sentences(protection_rules()),
{
    reveal_strlit("The digest of the primary metadata segment is recorded in a companion segment beside it, written in the turtle datatype syntax.");
    reveal_strlit("That digest uses SHA-256, SHA-512, or a stronger algorithm the standard supports.");
    reveal_strlit("A container may carry an X509 signature of the primary metadata segment in a companion segment beside it.");
    reveal_strlit("A signature is PEM encoded, and the certificate chain stored with it is complete down to the root and likewise PEM encoded.");
    reveal_strlit("Where several keys sign the metadata, each signature and certificate segment is named by the pattern the standard fixes.");
    reveal_strlit("A signature and its certificate chain share one extensible name part, itself valid UTF-8.");
    reveal_strlit("The digest of each secondary metadata store is recorded in the primary store, against that secondary store's own resource name.");
    reveal_strlit("A digest recorded for a secondary metadata store uses SHA-256, SHA-512, or a stronger algorithm the standard supports.");
}

/// The protection rules are in order.
proof fn protection_rules_are_in_order()
    ensures
        in_order(protection_rules()),
{
    reveal(in_order);
    reveal_strlit("§10.1");
    reveal_strlit("§10.2");
    reveal_strlit("§10.3");
    let r = protection_rules();
    assert(stands_before(r[0].id, r[1].id));
    assert(stands_before(r[1].id, r[2].id));
    assert(stands_before(r[2].id, r[3].id));
    assert(stands_before(r[3].id, r[4].id));
    assert(stands_before(r[4].id, r[5].id));
    assert(stands_before(r[5].id, r[6].id));
    assert(stands_before(r[6].id, r[7].id));
}

/// The unlegislated rules are sentences.
proof fn unlegislated_rules_are_sentences()
    ensures
        all_sentences(unlegislated_rules()),
{
    reveal_strlit("Content-addressed dedupe subjects are an extension no clause prohibits.");
    reveal_strlit("A reference to an undescribed ARN with no aff4:stored pointer cannot be resolved or attributed.");
}

/// The unlegislated rules are in order.
proof fn unlegislated_rules_are_in_order()
    ensures
        in_order(unlegislated_rules()),
{
    reveal(in_order);
    reveal_strlit("none");
    let r = unlegislated_rules();
    assert(stands_before(r[0].id, r[1].id));
}

/// Every statement of the catalog is a sentence.
pub proof fn statements_are_sentences()
    ensures
        all_sentences(catalog()),
{
    metadata_rules_are_sentences();
    volume_rules_are_sentences();
    integrity_rules_are_sentences();
    stripe_rules_are_sentences();
    paper_rules_are_sentences();
    identity_rules_are_sentences();
    lexicon_rules_are_sentences();
    name_rules_are_sentences();
    storage_rules_are_sentences();
    file_rules_are_sentences();
    store_rules_are_sentences();
    protection_rules_are_sentences();
    unlegislated_rules_are_sentences();
    sentences_join(metadata_rules(), volume_rules());
    sentences_join(metadata_rules() + volume_rules(), integrity_rules());
    sentences_join(metadata_rules() + volume_rules() + integrity_rules(), stripe_rules());
    sentences_join(identity_rules(), lexicon_rules());
    sentences_join(identity_rules() + lexicon_rules(), name_rules());
    sentences_join(identity_rules() + lexicon_rules() + name_rules(), storage_rules());
    sentences_join(identity_rules() + lexicon_rules() + name_rules() + storage_rules(), file_rules());
    sentences_join(identity_rules() + lexicon_rules() + name_rules() + storage_rules() + file_rules(), store_rules());
    sentences_join(identity_rules() + lexicon_rules() + name_rules() + storage_rules() + file_rules() + store_rules(), protection_rules());
    sentences_join(standard_rules(), paper_rules());
    sentences_join(standard_rules() + paper_rules(), alpha_rules());
    sentences_join(standard_rules() + paper_rules() + alpha_rules(), unlegislated_rules());
}

/// Rules in order go on in order with rules that the last of them stands before.
proof fn orders_go_on(a: Seq<RuleInfo>, b: Seq<RuleInfo>, c: Seq<RuleInfo>)
    requires
        in_order(a + b),
        in_order(c),
        meet(b, c),
    ensures
        in_order(a + b + c),
{
    assert((a + b).last() == b.last());
    orders_join(a + b, c);
}

/// Whether there are rules on both sides, and the last of the one stands before the
/// first of the other.
pub open spec fn meet(a: Seq<RuleInfo>, b: Seq<RuleInfo>) -> bool {
    a.len() > 0 && b.len() > 0 && stands_before(a.last().id, b[0].id)
}

/// Rules in order, list by list, are in order.
proof fn order_of_four(
    a: Seq<RuleInfo>,
    b: Seq<RuleInfo>,
    c: Seq<RuleInfo>,
    d: Seq<RuleInfo>,
)
    requires
        in_order(a),
        in_order(b),
        in_order(c),
        in_order(d),
        meet(a, b),
        meet(b, c),
        meet(c, d),
    ensures
        in_order(a + b + c + d),
{
    orders_join(a, b);
    orders_go_on(a, b, c);
    orders_go_on(a + b, c, d);
}

/// Rules in order, list by list, are in order.
proof fn order_of_seven(
    a: Seq<RuleInfo>,
    b: Seq<RuleInfo>,
    c: Seq<RuleInfo>,
    d: Seq<RuleInfo>,
    e: Seq<RuleInfo>,
    f: Seq<RuleInfo>,
    g: Seq<RuleInfo>,
)
    requires
        in_order(a),
        in_order(b),
        in_order(c),
        in_order(d),
        in_order(e),
        in_order(f),
        in_order(g),
        meet(a, b),
        meet(b, c),
        meet(c, d),
        meet(d, e),
        meet(e, f),
        meet(f, g),
    ensures
        in_order(a + b + c + d + e + f + g),
{
    orders_join(a, b);
    orders_go_on(a, b, c);
    orders_go_on(a + b, c, d);
    orders_go_on(a + b + c, d, e);
    orders_go_on(a + b + c + d, e, f);
    orders_go_on(a + b + c + d + e, f, g);
}

/// The metadata rules stand before the volume rules.
proof fn metadata_rules_meet_volume_rules()
    ensures
        meet(metadata_rules(), volume_rules()),
{
    reveal_strlit("§4");
    reveal_strlit("§5");
}

/// The volume rules stand before the integrity rules.
proof fn volume_rules_meet_integrity_rules()
    ensures
        meet(volume_rules(), integrity_rules()),
{
    reveal_strlit("§5.4");
    reveal_strlit("§6.1");
}

/// The integrity rules stand before the stripe rules.
proof fn integrity_rules_meet_stripe_rules()
    ensures
        meet(integrity_rules(), stripe_rules()),
{
    reveal_strlit("§6.2");
    reveal_strlit("§7.1");
}

/// The identity rules stand before the lexicon rules.
proof fn identity_rules_meet_lexicon_rules()
    ensures
        meet(identity_rules(), lexicon_rules()),
{
    reveal_strlit("§2");
    reveal_strlit("§4.1");
}

/// The lexicon rules stand before the name rules.
proof fn lexicon_rules_meet_name_rules()
    ensures
        meet(lexicon_rules(), name_rules()),
{
    reveal_strlit("§4.4");
    reveal_strlit("§5");
}

/// The name rules stand before the storage rules.
proof fn name_rules_meet_storage_rules()
    ensures
        meet(name_rules(), storage_rules()),
{
    reveal_strlit("§5");
    reveal_strlit("§6");
}

/// The storage rules stand before the file rules.
proof fn storage_rules_meet_file_rules()
    ensures
        meet(storage_rules(), file_rules()),
{
    reveal_strlit("§6.4");
    reveal_strlit("§7");
}

/// The file rules stand before the store rules.
proof fn file_rules_meet_store_rules()
    ensures
        meet(file_rules(), store_rules()),
{
    reveal_strlit("§8");
    reveal_strlit("§9");
}

/// The store rules stand before the protection rules.
proof fn store_rules_meet_protection_rules()
    ensures
        meet(store_rules(), protection_rules()),
{
    reveal_strlit("§9a.1");
    reveal_strlit("§10.1");
}

/// The stripe rules stand before the paper rules.
proof fn stripe_rules_meet_paper_rules()
    ensures
        meet(stripe_rules(), paper_rules()),
{
    reveal_strlit("§7.1");
    reveal_strlit("§3.8");
}

/// The paper rules stand before the identity rules.
proof fn paper_rules_meet_identity_rules()
    ensures
        meet(paper_rules(), identity_rules()),
{
    reveal_strlit("§3.8");
    reveal_strlit("§1.1");
}

/// The protection rules stand before the unlegislated rules.
proof fn protection_rules_meet_unlegislated_rules()
    ensures
        meet(protection_rules(), unlegislated_rules()),
{
    reveal_strlit("§10.3");
    reveal_strlit("none");
}

/// The rules of the base document are in order.
proof fn standard_rules_are_in_order()
    ensures
        in_order(standard_rules()),
{
    metadata_rules_are_in_order();
    volume_rules_are_in_order();
    integrity_rules_are_in_order();
    stripe_rules_are_in_order();
    metadata_rules_meet_volume_rules();
    volume_rules_meet_integrity_rules();
    integrity_rules_meet_stripe_rules();
    order_of_four(metadata_rules(), volume_rules(), integrity_rules(), stripe_rules());
}

/// The rules of the logical standard are in order.
proof fn alpha_rules_are_in_order()
    ensures
        in_order(alpha_rules()),
{
    identity_rules_are_in_order();
    lexicon_rules_are_in_order();
    name_rules_are_in_order();
    storage_rules_are_in_order();
    file_rules_are_in_order();
    store_rules_are_in_order();
    protection_rules_are_in_order();
    identity_rules_meet_lexicon_rules();
    lexicon_rules_meet_name_rules();
    name_rules_meet_storage_rules();
    storage_rules_meet_file_rules();
    file_rules_meet_store_rules();
    store_rules_meet_protection_rules();
    order_of_seven(
        identity_rules(),
        lexicon_rules(),
        name_rules(),
        storage_rules(),
        file_rules(),
        store_rules(),
        protection_rules(),
    );
}

/// Where lists meet, so do lists that end with the one and begin with the other.
proof fn longer_lists_meet(
    before: Seq<RuleInfo>,
    a: Seq<RuleInfo>,
    b: Seq<RuleInfo>,
    after: Seq<RuleInfo>,
)
    requires
        meet(a, b),
    ensures
        meet(before + a, b + after),
{
    assert((before + a).last() == a.last());
    assert((b + after)[0] == b[0]);
}

/// The rules of the catalog stand in the order of their documents and clauses.
pub proof fn rules_are_in_reading_order()
    ensures
        in_order(catalog()),
{
    standard_rules_are_in_order();
    paper_rules_are_in_order();
    alpha_rules_are_in_order();
    unlegislated_rules_are_in_order();
    stripe_rules_meet_paper_rules();
    paper_rules_meet_identity_rules();
    protection_rules_meet_unlegislated_rules();
    let none = Seq::<RuleInfo>::empty();
    longer_lists_meet(
        metadata_rules() + volume_rules() + integrity_rules(),
        stripe_rules(),
        paper_rules(),
        none,
    );
    assert(paper_rules() + none =~= paper_rules());
    let later = lexicon_rules() + name_rules() + storage_rules() + file_rules() + store_rules()
        + protection_rules();
    longer_lists_meet(none, paper_rules(), identity_rules(), later);
    assert(none + paper_rules() =~= paper_rules());
    assert(identity_rules() + later =~= alpha_rules());
    longer_lists_meet(
        identity_rules() + lexicon_rules() + name_rules() + storage_rules() + file_rules()
            + store_rules(),
        protection_rules(),
        unlegislated_rules(),
        none,
    );
    assert(unlegislated_rules() + none =~= unlegislated_rules());
    order_of_four(standard_rules(), paper_rules(), alpha_rules(), unlegislated_rules());
}

/// Of rules in order no two share an identifier.
proof fn ordered_ids_differ(rules: Seq<RuleInfo>)
    requires
        in_order(rules),
    ensures
        ids_differ(rules),
{
    assert forall|i: int, j: int|
        0 <= i < j < rules.len() implies (#[trigger] rules[i]).id != (#[trigger] rules[j]).id by {
        order_carries(rules, i, j);
    }
}

/// Whether no two of some rules share an identifier.
pub open spec fn ids_differ(rules: Seq<RuleInfo>) -> bool {
    forall|i: int, j: int|
        0 <= i < j < rules.len() ==> (#[trigger] rules[i]).id != (#[trigger] rules[j]).id
}

/// No two rules of the catalog share an identifier.
pub proof fn rule_ids_are_unique()
    ensures
        ids_differ(catalog()),
{
    rules_are_in_reading_order();
    ordered_ids_differ(catalog());
}

} // verus!
