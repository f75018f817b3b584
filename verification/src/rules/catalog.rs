//! The rules, grouped by the document that states them.
//!
//! The statements are in words of their own; the documents are cited by clause.

use vstd::prelude::*;

use crate::error::DeviationKind;
use crate::rules::{declare_rule, Document, Governs, Requirement, RuleInfo, RuleState};

verus! {

/// AFF4 Standard v1.0a §1.1/1.
pub const VERSION_DECLARED: &'static str = "A container declares its format version in a version.txt segment at its root, giving a major and a minor number.";

/// AFF4 Standard v1.0a §1.1/2.
pub const VERSION_REQUIRED: &'static str = "A reader refuses a container whose version.txt is missing or gives no major and minor number.";

/// AFF4 Standard v1.0a §2.2/1.
pub const NUMBERS_TYPED: &'static str = "Numeric literals carry an explicit datatype, as the standard's own containers write them.";

/// AFF4 Standard v1.0a §2.2/2.
pub const DATATYPES_SPELLED: &'static str = "Datatype IRIs are spelled as the standard defines them, not in a variant case.";

/// AFF4 Standard v1.0a §2.2/3.
pub const DATATYPES_EXPECTED: &'static str = "A literal's datatype is the one its property expects.";

/// AFF4 Standard v1.0a §4/1.
pub const GAPS_FILLED: &'static str = "A discontiguous map's holes are filled from its declared gap stream.";

/// AFF4 Standard v1.0a §5/1.
pub const NAMES_DISTINCT: &'static str = "Each storage path holds one segment, so a repeated member name leaves the earlier one unreachable.";

/// AFF4 Standard v1.0a §5.1/1.
pub const PATHS_WITHOUT_RANGE: &'static str = "An ARN maps to a storage path by the URI-to-path rules, which admit no byte-range suffix.";

/// AFF4 Standard v1.0a §5.4/1.
pub const COMMENT_NAMES_VOLUME: &'static str = "The ZIP comment carries the volume ARN starting at offset 0, with nothing appended.";

/// AFF4 Standard v1.0a §5.4/2.
pub const VOLUME_NAMES_AGREE: &'static str = "The ZIP comment and container.description agree on the volume ARN.";

/// AFF4 Standard v1.0a §5.4/3.
pub const OBJECTS_LISTED: &'static str = "Every object the volume holds appears in its own aff4:contains manifest.";

/// AFF4 Standard v1.0a §6.1/1.
pub const DIGESTS_AS_LONG: &'static str = "A digest's length matches the algorithm its datatype declares.";

/// AFF4 Standard v1.0a §6.2/1.
pub const BLOCK_MAP_DIGEST_RECORDED: &'static str = "An image records its block map digest in its hash property, under a datatype that names the algorithm.";

/// AFF4 Standard v1.0a §6.2/2.
pub const MAP_DIGESTS_STRONG: &'static str = "The block map digest and the digests of a map's segments use SHA-512 or SHA-256.";

/// AFF4 Standard v1.0a §6.2/3.
pub const MAP_REPEATS_DIGEST: &'static str = "A map may record the block map digest as well, in the property named for it.";

/// AFF4 Standard v1.0a §6.2/4.
pub const MAP_SEGMENTS_DIGESTED: &'static str = "A map records a digest over each of its segments and one over all of them together.";

/// AFF4 Standard v1.0a §7.1/1.
pub const SIBLINGS_REFERENCED: &'static str = "A stripe may reference streams held in a sibling volume of the same set.";

/// AFF4 Standard v1.0a §7.1/2.
pub const STRIPES_AGREE: &'static str = "Volumes of one striped set agree on every property of a commonly-named stream.";

/// AFF4-L paper of 2019 §3.8/1.
pub const SEGMENT_FILES_TYPED: &'static str = "A file stored directly as a ZIP segment declares aff4:zip_segment in its type list.";

/// AFF4-L v1.0-ALPHA §1.1/1.
pub const PATHS_IN_PROPERTIES: &'static str = "AFF4 objects are named by ARN, with the suspect's path and file name carried in properties rather than encoded into the name.";

/// AFF4-L v1.0-ALPHA §1.1/2.
pub const NAMES_RECORDED: &'static str = "A logical file records its name and path in properties, since its resource name no longer carries them.";

/// AFF4-L v1.0-ALPHA §1.2/1.
pub const SCHEME_UNESCAPED: &'static str = "A segment name derived from an object's resource name leaves the scheme and authority unescaped.";

/// AFF4-L v1.0-ALPHA §2/1.
pub const GUIDS_LOWER_CASE: &'static str = "An object's resource name is the AFF4 scheme followed by a lower-case GUID.";

/// AFF4-L v1.0-ALPHA §2/2.
pub const NAMES_EXTENDED: &'static str = "A resource name may carry a further part after its GUID, provided the whole remains a valid IRI.";

/// AFF4-L v1.0-ALPHA §4.1/1.
pub const TERMS_IN_NAMESPACE: &'static str = "A writer emits new lexicon terms under the namespace its governing standard assigns them.";

/// AFF4-L v1.0-ALPHA §4.1/2.
pub const NAMESPACES_ACCEPTED: &'static str = "A reader may accept either namespace prefix for a lexicon term, so that containers written against the earlier schema still read.";

/// AFF4-L v1.0-ALPHA §4.2/1.
pub const CLASSES_USED: &'static str = "A writer describes acquired files, folders and the acquisition itself with the classes this clause supplies.";

/// AFF4-L v1.0-ALPHA §4.2/2.
pub const SUBSTREAM_CLASSES_USED: &'static str = "A writer describes a file's non-primary data streams and extended attributes with the classes this clause supplies.";

/// AFF4-L v1.0-ALPHA §4.3/1.
pub const TIMES_AND_ROOTS_RECORDED: &'static str = "A writer records an acquired object's filesystem timestamps and an acquisition's roots with the properties this clause supplies.";

/// AFF4-L v1.0-ALPHA §4.3/2.
pub const TIMES_AMBIGUOUS: &'static str = "Two of the timestamp properties carry the same description, so which moment each records cannot be judged from the document.";

/// AFF4-L v1.0-ALPHA §4.3/3.
pub const SEPARATOR_RECORDED: &'static str = "A writer records the separator its acquisition's paths use, with the property this clause supplies.";

/// AFF4-L v1.0-ALPHA §4.3/4.
pub const MODE_RECORDED: &'static str = "A writer records an acquired object's Unix file mode, with the property this clause supplies.";

/// AFF4-L v1.0-ALPHA §4.3/5.
pub const SUBSTREAMS_REFERENCED: &'static str = "A writer references a file's alternate data streams and extended attributes with the properties this clause supplies.";

/// AFF4-L v1.0-ALPHA §4.3/6.
pub const SUBSTREAM_TERMS_AMBIGUOUS: &'static str = "The naming and content properties of a substream appear twice under different contexts, so whether they are one term or two cannot be judged from the document.";

/// AFF4-L v1.0-ALPHA §4.4/1.
pub const DIGESTS_COMPUTED: &'static str = "A digest property may carry any of the additional algorithms this clause names, and a reader computes each of them.";

/// AFF4-L v1.0-ALPHA §4.4/2.
pub const OUTPUT_LENGTH_OPEN: &'static str = "The clause names two extendable-output functions without fixing an output length, so the length a container uses cannot be judged.";

/// AFF4-L v1.0-ALPHA §4.4/3.
pub const DIGESTS_WRITTEN: &'static str = "A writer may record a digest under any of the additional algorithms this clause names.";

/// AFF4-L v1.0-ALPHA §5/1.
pub const CLEAN_NAMES_ALONE: &'static str = "A name that is valid UTF-8 without control characters is recorded as it is, with no raw form.";

/// AFF4-L v1.0-ALPHA §5/2.
pub const UNCLEAN_NAMES_RAW: &'static str = "A name that is not valid UTF-8, or carries a control character, records its raw bytes base64-encoded alongside the display form.";

/// AFF4-L v1.0-ALPHA §5/3.
pub const RAW_NAMES_FORMED: &'static str = "A raw name is well-formed base64, so the bytes it records can be read.";

/// AFF4-L v1.0-ALPHA §5/4.
pub const RAW_NAMES_AGREE: &'static str = "A name's raw form and display form describe the same name, so the two never contradict each other.";

/// AFF4-L v1.0-ALPHA §5/5.
pub const ESCAPES_UPPER_CASE: &'static str = "Percent escapes in a display name use uppercase hexadecimal.";

/// AFF4-L v1.0-ALPHA §5/6.
pub const DISPLAY_NAMES_SHARED: &'static str = "Two encoded names in one folder may share a display form, so a reader must not assume a display name is unique.";

/// AFF4-L v1.0-ALPHA §5/7.
pub const NAMES_BYTE_FOR_BYTE: &'static str = "A name is recorded byte for byte on a platform whose paths are not byte-oriented, in the encoding the standard names.";

/// AFF4-L v1.0-ALPHA §6/1.
pub const FORMS_READ: &'static str = "A reader handles every storage stream form this section describes, not a chosen subset.";

/// AFF4-L v1.0-ALPHA §6/2.
pub const FORMS_WRITTEN: &'static str = "A writer implements at least one of the storage stream forms this section describes.";

/// AFF4-L v1.0-ALPHA §6/3.
pub const FORM_DECLARED: &'static str = "A stored stream names the form it is stored in, so a reader can tell where its bytes are.";

/// AFF4-L v1.0-ALPHA §6/4.
pub const FORM_SINGLE: &'static str = "A stored stream names no more than one form, so where its bytes are is never ambiguous.";

/// AFF4-L v1.0-ALPHA §6.1/1.
pub const SEGMENT_METHODS: &'static str = "A stream held as a ZIP segment is compressed with Stored or Deflate and no other method.";

/// AFF4-L v1.0-ALPHA §6.1/2.
pub const SEGMENT_SIZE: &'static str = "A ZIP segment storage stream holds no stream of one gibibyte or more.";

/// AFF4-L v1.0-ALPHA §6.1/3.
pub const SEGMENTS_DIGESTED: &'static str = "A writer records a linear digest of each ZIP segment storage stream in that stream's hash property.";

/// AFF4-L v1.0-ALPHA §6.2/1.
pub const METADATA_SIZE: &'static str = "An in-metadata storage stream holds no stream larger than one kilobyte.";

/// AFF4-L v1.0-ALPHA §6.2/2.
pub const METADATA_UNDIGESTED: &'static str = "A stream carried inside the metadata need not record its own digests, since the metadata integrity hash covers it.";

/// AFF4-L v1.0-ALPHA §6.3.1/1.
pub const MAPS_DIGESTED: &'static str = "A writer computes and records a block map digest for every map, under either of the two property spellings the standard allows.";

/// AFF4-L v1.0-ALPHA §6.3.1/2.
pub const MAP_DIGESTS_VERIFIED: &'static str = "A reader accepts either block map digest spelling and can verify the block map digests of every map and dependent image stream.";

/// AFF4-L v1.0-ALPHA §6.4/1.
pub const FILES_AS_STREAMS: &'static str = "A file image may additionally be typed as an image stream, storing its primary stream that way.";

/// AFF4-L v1.0-ALPHA §7/1.
pub const EXTENSION_HINTS: &'static str = "A container may signal its format by file extension, which is a hint and never decides how the container is read.";

/// AFF4-L v1.0-ALPHA §8/1.
pub const PARTS_NUMBERED: &'static str = "Parts of a multi-part container signal their membership by sharing one file name, the second and later parts carrying an ordinal suffix counting from one.";

/// AFF4-L v1.0-ALPHA §9/1.
pub const STORES_ONE_GRAPH: &'static str = "Triples from the primary metadata segment and from every store it imports are read as one graph.";

/// AFF4-L v1.0-ALPHA §9a/1.
pub const ACCELERATED_STORE: &'static str = "A container may carry an accelerated metadata store beside the primary one, holding everything the primary and any secondary stores hold.";

/// AFF4-L v1.0-ALPHA §9a/2.
pub const ACCELERATED_READING: &'static str = "A reader may take its metadata from the accelerated store in place of the primary and secondary stores.";

/// AFF4-L v1.0-ALPHA §9a.1/1.
pub const ACCELERATED_ENCODING: &'static str = "An implementation of the accelerated serialization confines itself to the triple, dictionary, and dictionary-section encodings the standard names.";

/// AFF4-L v1.0-ALPHA §10.1/1.
pub const METADATA_DIGESTED: &'static str = "The digest of the primary metadata segment is recorded in a companion segment beside it, written in the turtle datatype syntax.";

/// AFF4-L v1.0-ALPHA §10.1/2.
pub const METADATA_DIGEST_STRONG: &'static str = "That digest uses SHA-256, SHA-512, or a stronger algorithm the standard supports.";

/// AFF4-L v1.0-ALPHA §10.2/1.
pub const METADATA_SIGNED: &'static str = "A container may carry an X509 signature of the primary metadata segment in a companion segment beside it.";

/// AFF4-L v1.0-ALPHA §10.2/2.
pub const SIGNATURE_ENCODED: &'static str = "A signature is PEM encoded, and the certificate chain stored with it is complete down to the root and likewise PEM encoded.";

/// AFF4-L v1.0-ALPHA §10.2/3.
pub const SIGNATURE_NAMED: &'static str = "Where several keys sign the metadata, each signature and certificate segment is named by the pattern the standard fixes.";

/// AFF4-L v1.0-ALPHA §10.2/4.
pub const SIGNATURE_NAME_SHARED: &'static str = "A signature and its certificate chain share one extensible name part, itself valid UTF-8.";

/// AFF4-L v1.0-ALPHA §10.3/1.
pub const SECONDARY_DIGESTED: &'static str = "The digest of each secondary metadata store is recorded in the primary store, against that secondary store's own resource name.";

/// AFF4-L v1.0-ALPHA §10.3/2.
pub const SECONDARY_DIGEST_STRONG: &'static str = "A digest recorded for a secondary metadata store uses SHA-256, SHA-512, or a stronger algorithm the standard supports.";

/// No clause says this.
pub const CONTENT_ADDRESSED: &'static str = "Content-addressed dedupe subjects are an extension no clause prohibits.";

/// No clause says this.
pub const DANGLING: &'static str = "A reference to an undescribed ARN with no aff4:stored pointer cannot be resolved or attributed.";

/// Rules from the AFF4 Standard v1.0a, on versions, literals and maps.
pub open spec fn metadata_rules() -> Seq<RuleInfo> {
    seq![
        declare_rule(
            Document::Aff4Standard10a,
            "§1.1",
            1,
            Requirement::Must,
            RuleState::Honored,
            Governs::Writer,
            VERSION_DECLARED,
            None,
            false,
        ),
        declare_rule(
            Document::Aff4Standard10a,
            "§1.1",
            2,
            Requirement::Must,
            RuleState::Enforced,
            Governs::Reader,
            VERSION_REQUIRED,
            None,
            false,
        ),
        declare_rule(
            Document::Aff4Standard10a,
            "§2.2",
            1,
            Requirement::Should,
            RuleState::NotImplemented,
            Governs::Container,
            NUMBERS_TYPED,
            Some(DeviationKind::UntypedNumericLiteral),
            false,
        ),
        declare_rule(
            Document::Aff4Standard10a,
            "§2.2",
            2,
            Requirement::Should,
            RuleState::NotImplemented,
            Governs::Container,
            DATATYPES_SPELLED,
            Some(DeviationKind::NonstandardDatatype),
            false,
        ),
        declare_rule(
            Document::Aff4Standard10a,
            "§2.2",
            3,
            Requirement::Must,
            RuleState::Detected,
            Governs::Container,
            DATATYPES_EXPECTED,
            Some(DeviationKind::UnexpectedDatatype),
            false,
        ),
        declare_rule(
            Document::Aff4Standard10a,
            "§4",
            1,
            Requirement::May,
            RuleState::Detected,
            Governs::Container,
            GAPS_FILLED,
            Some(DeviationKind::MapGap),
            false,
        ),
    ]
}

/// Rules from the AFF4 Standard v1.0a, on versions, literals and maps.
fn list_metadata_rules() -> (r: Vec<RuleInfo>)
    ensures
        r@ == metadata_rules(),
{
    vec![
        declare_rule(
            Document::Aff4Standard10a,
            "§1.1",
            1,
            Requirement::Must,
            RuleState::Honored,
            Governs::Writer,
            VERSION_DECLARED,
            None,
            false,
        ),
        declare_rule(
            Document::Aff4Standard10a,
            "§1.1",
            2,
            Requirement::Must,
            RuleState::Enforced,
            Governs::Reader,
            VERSION_REQUIRED,
            None,
            false,
        ),
        declare_rule(
            Document::Aff4Standard10a,
            "§2.2",
            1,
            Requirement::Should,
            RuleState::NotImplemented,
            Governs::Container,
            NUMBERS_TYPED,
            Some(DeviationKind::UntypedNumericLiteral),
            false,
        ),
        declare_rule(
            Document::Aff4Standard10a,
            "§2.2",
            2,
            Requirement::Should,
            RuleState::NotImplemented,
            Governs::Container,
            DATATYPES_SPELLED,
            Some(DeviationKind::NonstandardDatatype),
            false,
        ),
        declare_rule(
            Document::Aff4Standard10a,
            "§2.2",
            3,
            Requirement::Must,
            RuleState::Detected,
            Governs::Container,
            DATATYPES_EXPECTED,
            Some(DeviationKind::UnexpectedDatatype),
            false,
        ),
        declare_rule(
            Document::Aff4Standard10a,
            "§4",
            1,
            Requirement::May,
            RuleState::Detected,
            Governs::Container,
            GAPS_FILLED,
            Some(DeviationKind::MapGap),
            false,
        ),
    ]
}

/// Rules from the AFF4 Standard v1.0a, on volumes and their members.
pub open spec fn volume_rules() -> Seq<RuleInfo> {
    seq![
        declare_rule(
            Document::Aff4Standard10a,
            "§5",
            1,
            Requirement::Must,
            RuleState::Detected,
            Governs::Container,
            NAMES_DISTINCT,
            Some(DeviationKind::DuplicateSegmentName),
            false,
        ),
        declare_rule(
            Document::Aff4Standard10a,
            "§5.1",
            1,
            Requirement::Must,
            RuleState::Detected,
            Governs::Container,
            PATHS_WITHOUT_RANGE,
            Some(DeviationKind::ByteRangeArn),
            false,
        ),
        declare_rule(
            Document::Aff4Standard10a,
            "§5.4",
            1,
            Requirement::Must,
            RuleState::Detected,
            Governs::Container,
            COMMENT_NAMES_VOLUME,
            Some(DeviationKind::NulPaddedComment),
            true,
        ),
        declare_rule(
            Document::Aff4Standard10a,
            "§5.4",
            2,
            Requirement::Must,
            RuleState::Detected,
            Governs::Container,
            VOLUME_NAMES_AGREE,
            Some(DeviationKind::InconsistentVolumeArn),
            false,
        ),
        declare_rule(
            Document::Aff4Standard10a,
            "§5.4",
            3,
            Requirement::Must,
            RuleState::Detected,
            Governs::Container,
            OBJECTS_LISTED,
            Some(DeviationKind::UndeclaredObject),
            false,
        ),
    ]
}

/// Rules from the AFF4 Standard v1.0a, on volumes and their members.
fn list_volume_rules() -> (r: Vec<RuleInfo>)
    ensures
        r@ == volume_rules(),
{
    vec![
        declare_rule(
            Document::Aff4Standard10a,
            "§5",
            1,
            Requirement::Must,
            RuleState::Detected,
            Governs::Container,
            NAMES_DISTINCT,
            Some(DeviationKind::DuplicateSegmentName),
            false,
        ),
        declare_rule(
            Document::Aff4Standard10a,
            "§5.1",
            1,
            Requirement::Must,
            RuleState::Detected,
            Governs::Container,
            PATHS_WITHOUT_RANGE,
            Some(DeviationKind::ByteRangeArn),
            false,
        ),
        declare_rule(
            Document::Aff4Standard10a,
            "§5.4",
            1,
            Requirement::Must,
            RuleState::Detected,
            Governs::Container,
            COMMENT_NAMES_VOLUME,
            Some(DeviationKind::NulPaddedComment),
            true,
        ),
        declare_rule(
            Document::Aff4Standard10a,
            "§5.4",
            2,
            Requirement::Must,
            RuleState::Detected,
            Governs::Container,
            VOLUME_NAMES_AGREE,
            Some(DeviationKind::InconsistentVolumeArn),
            false,
        ),
        declare_rule(
            Document::Aff4Standard10a,
            "§5.4",
            3,
            Requirement::Must,
            RuleState::Detected,
            Governs::Container,
            OBJECTS_LISTED,
            Some(DeviationKind::UndeclaredObject),
            false,
        ),
    ]
}

/// Rules from the AFF4 Standard v1.0a, on digests.
pub open spec fn integrity_rules() -> Seq<RuleInfo> {
    seq![
        declare_rule(
            Document::Aff4Standard10a,
            "§6.1",
            1,
            Requirement::Must,
            RuleState::Detected,
            Governs::Container,
            DIGESTS_AS_LONG,
            Some(DeviationKind::DigestLengthMismatch),
            false,
        ),
        declare_rule(
            Document::Aff4Standard10a,
            "§6.2",
            1,
            Requirement::Must,
            RuleState::NotImplemented,
            Governs::Container,
            BLOCK_MAP_DIGEST_RECORDED,
            None,
            false,
        ),
        declare_rule(
            Document::Aff4Standard10a,
            "§6.2",
            2,
            Requirement::Must,
            RuleState::NotImplemented,
            Governs::Container,
            MAP_DIGESTS_STRONG,
            None,
            false,
        ),
        declare_rule(
            Document::Aff4Standard10a,
            "§6.2",
            3,
            Requirement::May,
            RuleState::NotImplemented,
            Governs::Container,
            MAP_REPEATS_DIGEST,
            None,
            false,
        ),
        declare_rule(
            Document::Aff4Standard10a,
            "§6.2",
            4,
            Requirement::Must,
            RuleState::Detected,
            Governs::Container,
            MAP_SEGMENTS_DIGESTED,
            Some(DeviationKind::MissingMapSegmentDigest),
            false,
        ),
    ]
}

/// Rules from the AFF4 Standard v1.0a, on digests.
fn list_integrity_rules() -> (r: Vec<RuleInfo>)
    ensures
        r@ == integrity_rules(),
{
    vec![
        declare_rule(
            Document::Aff4Standard10a,
            "§6.1",
            1,
            Requirement::Must,
            RuleState::Detected,
            Governs::Container,
            DIGESTS_AS_LONG,
            Some(DeviationKind::DigestLengthMismatch),
            false,
        ),
        declare_rule(
            Document::Aff4Standard10a,
            "§6.2",
            1,
            Requirement::Must,
            RuleState::NotImplemented,
            Governs::Container,
            BLOCK_MAP_DIGEST_RECORDED,
            None,
            false,
        ),
        declare_rule(
            Document::Aff4Standard10a,
            "§6.2",
            2,
            Requirement::Must,
            RuleState::NotImplemented,
            Governs::Container,
            MAP_DIGESTS_STRONG,
            None,
            false,
        ),
        declare_rule(
            Document::Aff4Standard10a,
            "§6.2",
            3,
            Requirement::May,
            RuleState::NotImplemented,
            Governs::Container,
            MAP_REPEATS_DIGEST,
            None,
            false,
        ),
        declare_rule(
            Document::Aff4Standard10a,
            "§6.2",
            4,
            Requirement::Must,
            RuleState::Detected,
            Governs::Container,
            MAP_SEGMENTS_DIGESTED,
            Some(DeviationKind::MissingMapSegmentDigest),
            false,
        ),
    ]
}

/// Rules from the AFF4 Standard v1.0a, on striped sets.
pub open spec fn stripe_rules() -> Seq<RuleInfo> {
    seq![
        declare_rule(
            Document::Aff4Standard10a,
            "§7.1",
            1,
            Requirement::May,
            RuleState::Detected,
            Governs::Container,
            SIBLINGS_REFERENCED,
            Some(DeviationKind::ExternalReference),
            true,
        ),
        declare_rule(
            Document::Aff4Standard10a,
            "§7.1",
            2,
            Requirement::Must,
            RuleState::Detected,
            Governs::Container,
            STRIPES_AGREE,
            Some(DeviationKind::ConflictingStreamValue),
            false,
        ),
    ]
}

/// Rules from the AFF4 Standard v1.0a, on striped sets.
fn list_stripe_rules() -> (r: Vec<RuleInfo>)
    ensures
        r@ == stripe_rules(),
{
    vec![
        declare_rule(
            Document::Aff4Standard10a,
            "§7.1",
            1,
            Requirement::May,
            RuleState::Detected,
            Governs::Container,
            SIBLINGS_REFERENCED,
            Some(DeviationKind::ExternalReference),
            true,
        ),
        declare_rule(
            Document::Aff4Standard10a,
            "§7.1",
            2,
            Requirement::Must,
            RuleState::Detected,
            Governs::Container,
            STRIPES_AGREE,
            Some(DeviationKind::ConflictingStreamValue),
            false,
        ),
    ]
}

/// Rules from the AFF4 Standard v1.0a.
pub open spec fn standard_rules() -> Seq<RuleInfo> {
    metadata_rules() + volume_rules() + integrity_rules() + stripe_rules()
}

/// Rules from the AFF4-L paper of 2019.
pub open spec fn paper_rules() -> Seq<RuleInfo> {
    seq![
        declare_rule(
            Document::Aff4LPaper2019,
            "§3.8",
            1,
            Requirement::Must,
            RuleState::Detected,
            Governs::Container,
            SEGMENT_FILES_TYPED,
            Some(DeviationKind::MissingZipSegmentType),
            false,
        ),
    ]
}

/// Rules from the AFF4-L paper of 2019.
fn list_paper_rules() -> (r: Vec<RuleInfo>)
    ensures
        r@ == paper_rules(),
{
    vec![
        declare_rule(
            Document::Aff4LPaper2019,
            "§3.8",
            1,
            Requirement::Must,
            RuleState::Detected,
            Governs::Container,
            SEGMENT_FILES_TYPED,
            Some(DeviationKind::MissingZipSegmentType),
            false,
        ),
    ]
}

/// Rules from the AFF4-L Standard v1.0-ALPHA, on resource names.
pub open spec fn identity_rules() -> Seq<RuleInfo> {
    seq![
        declare_rule(
            Document::Aff4LStandard10Alpha,
            "§1.1",
            1,
            Requirement::Must,
            RuleState::Detected,
            Governs::Container,
            PATHS_IN_PROPERTIES,
            Some(DeviationKind::NonGuidArn),
            false,
        ),
        declare_rule(
            Document::Aff4LStandard10Alpha,
            "§1.1",
            2,
            Requirement::Must,
            RuleState::Detected,
            Governs::Container,
            NAMES_RECORDED,
            Some(DeviationKind::MissingRecordedPath),
            false,
        ),
        declare_rule(
            Document::Aff4LStandard10Alpha,
            "§1.2",
            1,
            Requirement::Must,
            RuleState::Detected,
            Governs::Container,
            SCHEME_UNESCAPED,
            Some(DeviationKind::EscapedV21MemberName),
            false,
        ),
        declare_rule(
            Document::Aff4LStandard10Alpha,
            "§2",
            1,
            Requirement::Must,
            RuleState::Detected,
            Governs::Container,
            GUIDS_LOWER_CASE,
            Some(DeviationKind::UppercaseGuidArn),
            false,
        ),
        declare_rule(
            Document::Aff4LStandard10Alpha,
            "§2",
            2,
            Requirement::May,
            RuleState::NotCheckable,
            Governs::Unsettled,
            NAMES_EXTENDED,
            None,
            false,
        ),
    ]
}

/// Rules from the AFF4-L Standard v1.0-ALPHA, on resource names.
fn list_identity_rules() -> (r: Vec<RuleInfo>)
    ensures
        r@ == identity_rules(),
{
    vec![
        declare_rule(
            Document::Aff4LStandard10Alpha,
            "§1.1",
            1,
            Requirement::Must,
            RuleState::Detected,
            Governs::Container,
            PATHS_IN_PROPERTIES,
            Some(DeviationKind::NonGuidArn),
            false,
        ),
        declare_rule(
            Document::Aff4LStandard10Alpha,
            "§1.1",
            2,
            Requirement::Must,
            RuleState::Detected,
            Governs::Container,
            NAMES_RECORDED,
            Some(DeviationKind::MissingRecordedPath),
            false,
        ),
        declare_rule(
            Document::Aff4LStandard10Alpha,
            "§1.2",
            1,
            Requirement::Must,
            RuleState::Detected,
            Governs::Container,
            SCHEME_UNESCAPED,
            Some(DeviationKind::EscapedV21MemberName),
            false,
        ),
        declare_rule(
            Document::Aff4LStandard10Alpha,
            "§2",
            1,
            Requirement::Must,
            RuleState::Detected,
            Governs::Container,
            GUIDS_LOWER_CASE,
            Some(DeviationKind::UppercaseGuidArn),
            false,
        ),
        declare_rule(
            Document::Aff4LStandard10Alpha,
            "§2",
            2,
            Requirement::May,
            RuleState::NotCheckable,
            Governs::Unsettled,
            NAMES_EXTENDED,
            None,
            false,
        ),
    ]
}

/// Rules from the AFF4-L Standard v1.0-ALPHA, on its vocabulary.
pub open spec fn lexicon_rules() -> Seq<RuleInfo> {
    seq![
        declare_rule(
            Document::Aff4LStandard10Alpha,
            "§4.1",
            1,
            Requirement::Must,
            RuleState::Detected,
            Governs::Container,
            TERMS_IN_NAMESPACE,
            Some(DeviationKind::WrongTermNamespace),
            false,
        ),
        declare_rule(
            Document::Aff4LStandard10Alpha,
            "§4.1",
            2,
            Requirement::May,
            RuleState::Honored,
            Governs::Reader,
            NAMESPACES_ACCEPTED,
            None,
            false,
        ),
        declare_rule(
            Document::Aff4LStandard10Alpha,
            "§4.2",
            1,
            Requirement::May,
            RuleState::Honored,
            Governs::Writer,
            CLASSES_USED,
            None,
            false,
        ),
        declare_rule(
            Document::Aff4LStandard10Alpha,
            "§4.2",
            2,
            Requirement::May,
            RuleState::NotImplemented,
            Governs::Writer,
            SUBSTREAM_CLASSES_USED,
            None,
            false,
        ),
        declare_rule(
            Document::Aff4LStandard10Alpha,
            "§4.3",
            1,
            Requirement::May,
            RuleState::Honored,
            Governs::Writer,
            TIMES_AND_ROOTS_RECORDED,
            None,
            false,
        ),
        declare_rule(
            Document::Aff4LStandard10Alpha,
            "§4.3",
            2,
            Requirement::May,
            RuleState::NotCheckable,
            Governs::Unsettled,
            TIMES_AMBIGUOUS,
            None,
            false,
        ),
        declare_rule(
            Document::Aff4LStandard10Alpha,
            "§4.3",
            3,
            Requirement::May,
            RuleState::Honored,
            Governs::Writer,
            SEPARATOR_RECORDED,
            None,
            false,
        ),
        declare_rule(
            Document::Aff4LStandard10Alpha,
            "§4.3",
            4,
            Requirement::May,
            RuleState::Honored,
            Governs::Writer,
            MODE_RECORDED,
            None,
            false,
        ),
        declare_rule(
            Document::Aff4LStandard10Alpha,
            "§4.3",
            5,
            Requirement::May,
            RuleState::NotImplemented,
            Governs::Writer,
            SUBSTREAMS_REFERENCED,
            None,
            false,
        ),
        declare_rule(
            Document::Aff4LStandard10Alpha,
            "§4.3",
            6,
            Requirement::May,
            RuleState::NotCheckable,
            Governs::Unsettled,
            SUBSTREAM_TERMS_AMBIGUOUS,
            None,
            false,
        ),
        declare_rule(
            Document::Aff4LStandard10Alpha,
            "§4.4",
            1,
            Requirement::May,
            RuleState::Honored,
            Governs::Reader,
            DIGESTS_COMPUTED,
            None,
            false,
        ),
        declare_rule(
            Document::Aff4LStandard10Alpha,
            "§4.4",
            2,
            Requirement::May,
            RuleState::NotCheckable,
            Governs::Unsettled,
            OUTPUT_LENGTH_OPEN,
            None,
            false,
        ),
        declare_rule(
            Document::Aff4LStandard10Alpha,
            "§4.4",
            3,
            Requirement::May,
            RuleState::NotImplemented,
            Governs::Writer,
            DIGESTS_WRITTEN,
            None,
            false,
        ),
    ]
}

/// Rules from the AFF4-L Standard v1.0-ALPHA, on its vocabulary.
fn list_lexicon_rules() -> (r: Vec<RuleInfo>)
    ensures
        r@ == lexicon_rules(),
{
    vec![
        declare_rule(
            Document::Aff4LStandard10Alpha,
            "§4.1",
            1,
            Requirement::Must,
            RuleState::Detected,
            Governs::Container,
            TERMS_IN_NAMESPACE,
            Some(DeviationKind::WrongTermNamespace),
            false,
        ),
        declare_rule(
            Document::Aff4LStandard10Alpha,
            "§4.1",
            2,
            Requirement::May,
            RuleState::Honored,
            Governs::Reader,
            NAMESPACES_ACCEPTED,
            None,
            false,
        ),
        declare_rule(
            Document::Aff4LStandard10Alpha,
            "§4.2",
            1,
            Requirement::May,
            RuleState::Honored,
            Governs::Writer,
            CLASSES_USED,
            None,
            false,
        ),
        declare_rule(
            Document::Aff4LStandard10Alpha,
            "§4.2",
            2,
            Requirement::May,
            RuleState::NotImplemented,
            Governs::Writer,
            SUBSTREAM_CLASSES_USED,
            None,
            false,
        ),
        declare_rule(
            Document::Aff4LStandard10Alpha,
            "§4.3",
            1,
            Requirement::May,
            RuleState::Honored,
            Governs::Writer,
            TIMES_AND_ROOTS_RECORDED,
            None,
            false,
        ),
        declare_rule(
            Document::Aff4LStandard10Alpha,
            "§4.3",
            2,
            Requirement::May,
            RuleState::NotCheckable,
            Governs::Unsettled,
            TIMES_AMBIGUOUS,
            None,
            false,
        ),
        declare_rule(
            Document::Aff4LStandard10Alpha,
            "§4.3",
            3,
            Requirement::May,
            RuleState::Honored,
            Governs::Writer,
            SEPARATOR_RECORDED,
            None,
            false,
        ),
        declare_rule(
            Document::Aff4LStandard10Alpha,
            "§4.3",
            4,
            Requirement::May,
            RuleState::Honored,
            Governs::Writer,
            MODE_RECORDED,
            None,
            false,
        ),
        declare_rule(
            Document::Aff4LStandard10Alpha,
            "§4.3",
            5,
            Requirement::May,
            RuleState::NotImplemented,
            Governs::Writer,
            SUBSTREAMS_REFERENCED,
            None,
            false,
        ),
        declare_rule(
            Document::Aff4LStandard10Alpha,
            "§4.3",
            6,
            Requirement::May,
            RuleState::NotCheckable,
            Governs::Unsettled,
            SUBSTREAM_TERMS_AMBIGUOUS,
            None,
            false,
        ),
        declare_rule(
            Document::Aff4LStandard10Alpha,
            "§4.4",
            1,
            Requirement::May,
            RuleState::Honored,
            Governs::Reader,
            DIGESTS_COMPUTED,
            None,
            false,
        ),
        declare_rule(
            Document::Aff4LStandard10Alpha,
            "§4.4",
            2,
            Requirement::May,
            RuleState::NotCheckable,
            Governs::Unsettled,
            OUTPUT_LENGTH_OPEN,
            None,
            false,
        ),
        declare_rule(
            Document::Aff4LStandard10Alpha,
            "§4.4",
            3,
            Requirement::May,
            RuleState::NotImplemented,
            Governs::Writer,
            DIGESTS_WRITTEN,
            None,
            false,
        ),
    ]
}

/// Rules from the AFF4-L Standard v1.0-ALPHA, on recorded names.
pub open spec fn name_rules() -> Seq<RuleInfo> {
    seq![
        declare_rule(
            Document::Aff4LStandard10Alpha,
            "§5",
            1,
            Requirement::Must,
            RuleState::Detected,
            Governs::Container,
            CLEAN_NAMES_ALONE,
            Some(DeviationKind::RedundantRawName),
            false,
        ),
        declare_rule(
            Document::Aff4LStandard10Alpha,
            "§5",
            2,
            Requirement::Must,
            RuleState::Detected,
            Governs::Container,
            UNCLEAN_NAMES_RAW,
            Some(DeviationKind::MissingRawName),
            false,
        ),
        declare_rule(
            Document::Aff4LStandard10Alpha,
            "§5",
            3,
            Requirement::Must,
            RuleState::Detected,
            Governs::Container,
            RAW_NAMES_FORMED,
            Some(DeviationKind::MalformedRawName),
            false,
        ),
        declare_rule(
            Document::Aff4LStandard10Alpha,
            "§5",
            4,
            Requirement::Must,
            RuleState::Detected,
            Governs::Container,
            RAW_NAMES_AGREE,
            Some(DeviationKind::ContradictoryRawName),
            false,
        ),
        declare_rule(
            Document::Aff4LStandard10Alpha,
            "§5",
            5,
            Requirement::Must,
            RuleState::Detected,
            Governs::Container,
            ESCAPES_UPPER_CASE,
            Some(DeviationKind::LowercaseNameEscape),
            false,
        ),
        declare_rule(
            Document::Aff4LStandard10Alpha,
            "§5",
            6,
            Requirement::May,
            RuleState::NotCheckable,
            Governs::Unsettled,
            DISPLAY_NAMES_SHARED,
            None,
            false,
        ),
        declare_rule(
            Document::Aff4LStandard10Alpha,
            "§5",
            7,
            Requirement::Must,
            RuleState::NotImplemented,
            Governs::Writer,
            NAMES_BYTE_FOR_BYTE,
            None,
            false,
        ),
    ]
}

/// Rules from the AFF4-L Standard v1.0-ALPHA, on recorded names.
fn list_name_rules() -> (r: Vec<RuleInfo>)
    ensures
        r@ == name_rules(),
{
    vec![
        declare_rule(
            Document::Aff4LStandard10Alpha,
            "§5",
            1,
            Requirement::Must,
            RuleState::Detected,
            Governs::Container,
            CLEAN_NAMES_ALONE,
            Some(DeviationKind::RedundantRawName),
            false,
        ),
        declare_rule(
            Document::Aff4LStandard10Alpha,
            "§5",
            2,
            Requirement::Must,
            RuleState::Detected,
            Governs::Container,
            UNCLEAN_NAMES_RAW,
            Some(DeviationKind::MissingRawName),
            false,
        ),
        declare_rule(
            Document::Aff4LStandard10Alpha,
            "§5",
            3,
            Requirement::Must,
            RuleState::Detected,
            Governs::Container,
            RAW_NAMES_FORMED,
            Some(DeviationKind::MalformedRawName),
            false,
        ),
        declare_rule(
            Document::Aff4LStandard10Alpha,
            "§5",
            4,
            Requirement::Must,
            RuleState::Detected,
            Governs::Container,
            RAW_NAMES_AGREE,
            Some(DeviationKind::ContradictoryRawName),
            false,
        ),
        declare_rule(
            Document::Aff4LStandard10Alpha,
            "§5",
            5,
            Requirement::Must,
            RuleState::Detected,
            Governs::Container,
            ESCAPES_UPPER_CASE,
            Some(DeviationKind::LowercaseNameEscape),
            false,
        ),
        declare_rule(
            Document::Aff4LStandard10Alpha,
            "§5",
            6,
            Requirement::May,
            RuleState::NotCheckable,
            Governs::Unsettled,
            DISPLAY_NAMES_SHARED,
            None,
            false,
        ),
        declare_rule(
            Document::Aff4LStandard10Alpha,
            "§5",
            7,
            Requirement::Must,
            RuleState::NotImplemented,
            Governs::Writer,
            NAMES_BYTE_FOR_BYTE,
            None,
            false,
        ),
    ]
}

/// Rules from the AFF4-L Standard v1.0-ALPHA, on where streams are stored.
pub open spec fn storage_rules() -> Seq<RuleInfo> {
    seq![
        declare_rule(
            Document::Aff4LStandard10Alpha,
            "§6",
            1,
            Requirement::Must,
            RuleState::NotImplemented,
            Governs::Reader,
            FORMS_READ,
            None,
            false,
        ),
        declare_rule(
            Document::Aff4LStandard10Alpha,
            "§6",
            2,
            Requirement::Must,
            RuleState::NotImplemented,
            Governs::Writer,
            FORMS_WRITTEN,
            None,
            false,
        ),
        declare_rule(
            Document::Aff4LStandard10Alpha,
            "§6",
            3,
            Requirement::Must,
            RuleState::Detected,
            Governs::Container,
            FORM_DECLARED,
            Some(DeviationKind::UndeclaredStorageForm),
            false,
        ),
        declare_rule(
            Document::Aff4LStandard10Alpha,
            "§6",
            4,
            Requirement::Must,
            RuleState::Detected,
            Governs::Container,
            FORM_SINGLE,
            Some(DeviationKind::AmbiguousStorageForm),
            false,
        ),
        declare_rule(
            Document::Aff4LStandard10Alpha,
            "§6.1",
            1,
            Requirement::Must,
            RuleState::Detected,
            Governs::Container,
            SEGMENT_METHODS,
            Some(DeviationKind::DisallowedSegmentCompression),
            false,
        ),
        declare_rule(
            Document::Aff4LStandard10Alpha,
            "§6.1",
            2,
            Requirement::ShouldNot,
            RuleState::Detected,
            Governs::Container,
            SEGMENT_SIZE,
            Some(DeviationKind::OversizedSegmentStream),
            false,
        ),
        declare_rule(
            Document::Aff4LStandard10Alpha,
            "§6.1",
            3,
            Requirement::Must,
            RuleState::Detected,
            Governs::Container,
            SEGMENTS_DIGESTED,
            Some(DeviationKind::MissingSegmentDigest),
            false,
        ),
        declare_rule(
            Document::Aff4LStandard10Alpha,
            "§6.2",
            1,
            Requirement::MustNot,
            RuleState::Detected,
            Governs::Container,
            METADATA_SIZE,
            Some(DeviationKind::OversizedMetadataStream),
            false,
        ),
        declare_rule(
            Document::Aff4LStandard10Alpha,
            "§6.2",
            2,
            Requirement::May,
            RuleState::NotImplemented,
            Governs::Writer,
            METADATA_UNDIGESTED,
            None,
            false,
        ),
        declare_rule(
            Document::Aff4LStandard10Alpha,
            "§6.3.1",
            1,
            Requirement::Must,
            RuleState::NotImplemented,
            Governs::Writer,
            MAPS_DIGESTED,
            None,
            false,
        ),
        declare_rule(
            Document::Aff4LStandard10Alpha,
            "§6.3.1",
            2,
            Requirement::Must,
            RuleState::NotImplemented,
            Governs::Reader,
            MAP_DIGESTS_VERIFIED,
            None,
            false,
        ),
        declare_rule(
            Document::Aff4LStandard10Alpha,
            "§6.4",
            1,
            Requirement::May,
            RuleState::Honored,
            Governs::ReaderWriter,
            FILES_AS_STREAMS,
            None,
            false,
        ),
    ]
}

/// Rules from the AFF4-L Standard v1.0-ALPHA, on where streams are stored.
fn list_storage_rules() -> (r: Vec<RuleInfo>)
    ensures
        r@ == storage_rules(),
{
    vec![
        declare_rule(
            Document::Aff4LStandard10Alpha,
            "§6",
            1,
            Requirement::Must,
            RuleState::NotImplemented,
            Governs::Reader,
            FORMS_READ,
            None,
            false,
        ),
        declare_rule(
            Document::Aff4LStandard10Alpha,
            "§6",
            2,
            Requirement::Must,
            RuleState::NotImplemented,
            Governs::Writer,
            FORMS_WRITTEN,
            None,
            false,
        ),
        declare_rule(
            Document::Aff4LStandard10Alpha,
            "§6",
            3,
            Requirement::Must,
            RuleState::Detected,
            Governs::Container,
            FORM_DECLARED,
            Some(DeviationKind::UndeclaredStorageForm),
            false,
        ),
        declare_rule(
            Document::Aff4LStandard10Alpha,
            "§6",
            4,
            Requirement::Must,
            RuleState::Detected,
            Governs::Container,
            FORM_SINGLE,
            Some(DeviationKind::AmbiguousStorageForm),
            false,
        ),
        declare_rule(
            Document::Aff4LStandard10Alpha,
            "§6.1",
            1,
            Requirement::Must,
            RuleState::Detected,
            Governs::Container,
            SEGMENT_METHODS,
            Some(DeviationKind::DisallowedSegmentCompression),
            false,
        ),
        declare_rule(
            Document::Aff4LStandard10Alpha,
            "§6.1",
            2,
            Requirement::ShouldNot,
            RuleState::Detected,
            Governs::Container,
            SEGMENT_SIZE,
            Some(DeviationKind::OversizedSegmentStream),
            false,
        ),
        declare_rule(
            Document::Aff4LStandard10Alpha,
            "§6.1",
            3,
            Requirement::Must,
            RuleState::Detected,
            Governs::Container,
            SEGMENTS_DIGESTED,
            Some(DeviationKind::MissingSegmentDigest),
            false,
        ),
        declare_rule(
            Document::Aff4LStandard10Alpha,
            "§6.2",
            1,
            Requirement::MustNot,
            RuleState::Detected,
            Governs::Container,
            METADATA_SIZE,
            Some(DeviationKind::OversizedMetadataStream),
            false,
        ),
        declare_rule(
            Document::Aff4LStandard10Alpha,
            "§6.2",
            2,
            Requirement::May,
            RuleState::NotImplemented,
            Governs::Writer,
            METADATA_UNDIGESTED,
            None,
            false,
        ),
        declare_rule(
            Document::Aff4LStandard10Alpha,
            "§6.3.1",
            1,
            Requirement::Must,
            RuleState::NotImplemented,
            Governs::Writer,
            MAPS_DIGESTED,
            None,
            false,
        ),
        declare_rule(
            Document::Aff4LStandard10Alpha,
            "§6.3.1",
            2,
            Requirement::Must,
            RuleState::NotImplemented,
            Governs::Reader,
            MAP_DIGESTS_VERIFIED,
            None,
            false,
        ),
        declare_rule(
            Document::Aff4LStandard10Alpha,
            "§6.4",
            1,
            Requirement::May,
            RuleState::Honored,
            Governs::ReaderWriter,
            FILES_AS_STREAMS,
            None,
            false,
        ),
    ]
}

/// Rules from the AFF4-L Standard v1.0-ALPHA, on container files.
pub open spec fn file_rules() -> Seq<RuleInfo> {
    seq![
        declare_rule(
            Document::Aff4LStandard10Alpha,
            "§7",
            1,
            Requirement::May,
            RuleState::Honored,
            Governs::Reader,
            EXTENSION_HINTS,
            None,
            false,
        ),
        declare_rule(
            Document::Aff4LStandard10Alpha,
            "§8",
            1,
            Requirement::Should,
            RuleState::Detected,
            Governs::Container,
            PARTS_NUMBERED,
            Some(DeviationKind::UnconventionalPartName),
            false,
        ),
    ]
}

/// Rules from the AFF4-L Standard v1.0-ALPHA, on container files.
fn list_file_rules() -> (r: Vec<RuleInfo>)
    ensures
        r@ == file_rules(),
{
    vec![
        declare_rule(
            Document::Aff4LStandard10Alpha,
            "§7",
            1,
            Requirement::May,
            RuleState::Honored,
            Governs::Reader,
            EXTENSION_HINTS,
            None,
            false,
        ),
        declare_rule(
            Document::Aff4LStandard10Alpha,
            "§8",
            1,
            Requirement::Should,
            RuleState::Detected,
            Governs::Container,
            PARTS_NUMBERED,
            Some(DeviationKind::UnconventionalPartName),
            false,
        ),
    ]
}

/// Rules from the AFF4-L Standard v1.0-ALPHA, on metadata stores.
pub open spec fn store_rules() -> Seq<RuleInfo> {
    seq![
        declare_rule(
            Document::Aff4LStandard10Alpha,
            "§9",
            1,
            Requirement::Must,
            RuleState::NotCheckable,
            Governs::Unsettled,
            STORES_ONE_GRAPH,
            None,
            false,
        ),
        declare_rule(
            Document::Aff4LStandard10Alpha,
            "§9a",
            1,
            Requirement::May,
            RuleState::NotCheckable,
            Governs::Unsettled,
            ACCELERATED_STORE,
            None,
            false,
        ),
        declare_rule(
            Document::Aff4LStandard10Alpha,
            "§9a",
            2,
            Requirement::May,
            RuleState::NotCheckable,
            Governs::Unsettled,
            ACCELERATED_READING,
            None,
            false,
        ),
        declare_rule(
            Document::Aff4LStandard10Alpha,
            "§9a.1",
            1,
            Requirement::Must,
            RuleState::NotCheckable,
            Governs::Unsettled,
            ACCELERATED_ENCODING,
            None,
            false,
        ),
    ]
}

/// Rules from the AFF4-L Standard v1.0-ALPHA, on metadata stores.
fn list_store_rules() -> (r: Vec<RuleInfo>)
    ensures
        r@ == store_rules(),
{
    vec![
        declare_rule(
            Document::Aff4LStandard10Alpha,
            "§9",
            1,
            Requirement::Must,
            RuleState::NotCheckable,
            Governs::Unsettled,
            STORES_ONE_GRAPH,
            None,
            false,
        ),
        declare_rule(
            Document::Aff4LStandard10Alpha,
            "§9a",
            1,
            Requirement::May,
            RuleState::NotCheckable,
            Governs::Unsettled,
            ACCELERATED_STORE,
            None,
            false,
        ),
        declare_rule(
            Document::Aff4LStandard10Alpha,
            "§9a",
            2,
            Requirement::May,
            RuleState::NotCheckable,
            Governs::Unsettled,
            ACCELERATED_READING,
            None,
            false,
        ),
        declare_rule(
            Document::Aff4LStandard10Alpha,
            "§9a.1",
            1,
            Requirement::Must,
            RuleState::NotCheckable,
            Governs::Unsettled,
            ACCELERATED_ENCODING,
            None,
            false,
        ),
    ]
}

/// Rules from the AFF4-L Standard v1.0-ALPHA, on protecting the metadata.
pub open spec fn protection_rules() -> Seq<RuleInfo> {
    seq![
        declare_rule(
            Document::Aff4LStandard10Alpha,
            "§10.1",
            1,
            Requirement::Must,
            RuleState::Detected,
            Governs::Container,
            METADATA_DIGESTED,
            Some(DeviationKind::MissingMetadataHash),
            false,
        ),
        declare_rule(
            Document::Aff4LStandard10Alpha,
            "§10.1",
            2,
            Requirement::Must,
            RuleState::Detected,
            Governs::Container,
            METADATA_DIGEST_STRONG,
            Some(DeviationKind::WeakMetadataHash),
            false,
        ),
        declare_rule(
            Document::Aff4LStandard10Alpha,
            "§10.2",
            1,
            Requirement::May,
            RuleState::NotCheckable,
            Governs::Unsettled,
            METADATA_SIGNED,
            None,
            false,
        ),
        declare_rule(
            Document::Aff4LStandard10Alpha,
            "§10.2",
            2,
            Requirement::Must,
            RuleState::NotCheckable,
            Governs::Unsettled,
            SIGNATURE_ENCODED,
            None,
            false,
        ),
        declare_rule(
            Document::Aff4LStandard10Alpha,
            "§10.2",
            3,
            Requirement::Must,
            RuleState::NotCheckable,
            Governs::Unsettled,
            SIGNATURE_NAMED,
            None,
            false,
        ),
        declare_rule(
            Document::Aff4LStandard10Alpha,
            "§10.2",
            4,
            Requirement::Must,
            RuleState::NotCheckable,
            Governs::Unsettled,
            SIGNATURE_NAME_SHARED,
            None,
            false,
        ),
        declare_rule(
            Document::Aff4LStandard10Alpha,
            "§10.3",
            1,
            Requirement::Must,
            RuleState::NotCheckable,
            Governs::Unsettled,
            SECONDARY_DIGESTED,
            None,
            false,
        ),
        declare_rule(
            Document::Aff4LStandard10Alpha,
            "§10.3",
            2,
            Requirement::Must,
            RuleState::NotCheckable,
            Governs::Unsettled,
            SECONDARY_DIGEST_STRONG,
            None,
            false,
        ),
    ]
}

/// Rules from the AFF4-L Standard v1.0-ALPHA, on protecting the metadata.
fn list_protection_rules() -> (r: Vec<RuleInfo>)
    ensures
        r@ == protection_rules(),
{
    vec![
        declare_rule(
            Document::Aff4LStandard10Alpha,
            "§10.1",
            1,
            Requirement::Must,
            RuleState::Detected,
            Governs::Container,
            METADATA_DIGESTED,
            Some(DeviationKind::MissingMetadataHash),
            false,
        ),
        declare_rule(
            Document::Aff4LStandard10Alpha,
            "§10.1",
            2,
            Requirement::Must,
            RuleState::Detected,
            Governs::Container,
            METADATA_DIGEST_STRONG,
            Some(DeviationKind::WeakMetadataHash),
            false,
        ),
        declare_rule(
            Document::Aff4LStandard10Alpha,
            "§10.2",
            1,
            Requirement::May,
            RuleState::NotCheckable,
            Governs::Unsettled,
            METADATA_SIGNED,
            None,
            false,
        ),
        declare_rule(
            Document::Aff4LStandard10Alpha,
            "§10.2",
            2,
            Requirement::Must,
            RuleState::NotCheckable,
            Governs::Unsettled,
            SIGNATURE_ENCODED,
            None,
            false,
        ),
        declare_rule(
            Document::Aff4LStandard10Alpha,
            "§10.2",
            3,
            Requirement::Must,
            RuleState::NotCheckable,
            Governs::Unsettled,
            SIGNATURE_NAMED,
            None,
            false,
        ),
        declare_rule(
            Document::Aff4LStandard10Alpha,
            "§10.2",
            4,
            Requirement::Must,
            RuleState::NotCheckable,
            Governs::Unsettled,
            SIGNATURE_NAME_SHARED,
            None,
            false,
        ),
        declare_rule(
            Document::Aff4LStandard10Alpha,
            "§10.3",
            1,
            Requirement::Must,
            RuleState::NotCheckable,
            Governs::Unsettled,
            SECONDARY_DIGESTED,
            None,
            false,
        ),
        declare_rule(
            Document::Aff4LStandard10Alpha,
            "§10.3",
            2,
            Requirement::Must,
            RuleState::NotCheckable,
            Governs::Unsettled,
            SECONDARY_DIGEST_STRONG,
            None,
            false,
        ),
    ]
}

/// Rules from the AFF4-L Standard v1.0-ALPHA.
pub open spec fn alpha_rules() -> Seq<RuleInfo> {
    identity_rules() + lexicon_rules() + name_rules() + storage_rules() + file_rules() + store_rules() + protection_rules()
}

/// Rules from no clause: conditions that are reported so that an examiner knows of them.
pub open spec fn unlegislated_rules() -> Seq<RuleInfo> {
    seq![
        declare_rule(
            Document::Aff4Standard10a,
            "none",
            1,
            Requirement::May,
            RuleState::Detected,
            Governs::Container,
            CONTENT_ADDRESSED,
            Some(DeviationKind::ContentAddressedSubject),
            false,
        ),
        declare_rule(
            Document::Aff4Standard10a,
            "none",
            2,
            Requirement::May,
            RuleState::Detected,
            Governs::Container,
            DANGLING,
            Some(DeviationKind::DanglingReference),
            false,
        ),
    ]
}

/// Rules from no clause: conditions that are reported so that an examiner knows of them.
fn list_unlegislated_rules() -> (r: Vec<RuleInfo>)
    ensures
        r@ == unlegislated_rules(),
{
    vec![
        declare_rule(
            Document::Aff4Standard10a,
            "none",
            1,
            Requirement::May,
            RuleState::Detected,
            Governs::Container,
            CONTENT_ADDRESSED,
            Some(DeviationKind::ContentAddressedSubject),
            false,
        ),
        declare_rule(
            Document::Aff4Standard10a,
            "none",
            2,
            Requirement::May,
            RuleState::Detected,
            Governs::Container,
            DANGLING,
            Some(DeviationKind::DanglingReference),
            false,
        ),
    ]
}

/// The whole catalog, document by document, what no clause says at the end.
pub open spec fn catalog() -> Seq<RuleInfo> {
    standard_rules() + paper_rules() + alpha_rules() + unlegislated_rules()
}

/// The whole catalog.
pub(crate) fn listed() -> (r: Vec<RuleInfo>)
    ensures
        r@ == catalog(),
{
    let mut rules: Vec<RuleInfo> = Vec::new();
    let mut part = list_metadata_rules();
    rules.append(&mut part);
    let mut part = list_volume_rules();
    rules.append(&mut part);
    let mut part = list_integrity_rules();
    rules.append(&mut part);
    let mut part = list_stripe_rules();
    rules.append(&mut part);
    let mut part = list_paper_rules();
    rules.append(&mut part);
    let mut part = list_identity_rules();
    rules.append(&mut part);
    let mut part = list_lexicon_rules();
    rules.append(&mut part);
    let mut part = list_name_rules();
    rules.append(&mut part);
    let mut part = list_storage_rules();
    rules.append(&mut part);
    let mut part = list_file_rules();
    rules.append(&mut part);
    let mut part = list_store_rules();
    rules.append(&mut part);
    let mut part = list_protection_rules();
    rules.append(&mut part);
    let mut part = list_unlegislated_rules();
    rules.append(&mut part);
    proof {
        assert(rules@ =~= catalog());
    }
    rules
}

} // verus!
