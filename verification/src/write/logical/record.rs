//! Recording one file: its metadata, its types, its content, its digests.

use vstd::prelude::*;

use crate::bytes;
use crate::error::{error_text, malformed, optional_text, Error, ErrorView, Locus, LocusView};
use crate::hash::{digests_of, digests_under};
use crate::lexicon::{
    aff4l_iri, iri, namespace_for, standard_iri, XSD_BASE64_BINARY, XSD_DATE_TIME, XSD_LONG,
    XSD_STRING,
};
use crate::model::HashAlgorithm;
use crate::naming::{base64, base64_encode, NameView, RecordedName};
use crate::rdf::{statement, typed_as, Term, TermView, TripleView};
use crate::storage_form::StorageForm;
use crate::text;
use crate::verify::report::capped_sum;
use crate::write::container_writer::{ContainerWriter, WriterView};
use crate::write::dedupe::{presented_length, ChunkPool, PoolView};
use crate::write::logical::names::{
    entry_names, is_reserved_name, name_view, names_to_record, reserved, segment_name,
    segment_name_for_arn, EntryPath, LogicalProfile, PathView,
};
use crate::write::logical::stamps::{FsMetadata, StampsView};
use crate::write::logical::storage::{
    choose_storage, storage_for, LogicalOptions, OptionsView, StreamKind,
};
use crate::write::logical::terms;
use crate::write::map_writer::{
    base_in, find_base, own_outcome, shared_written, write_own_map_as, write_shared_map,
};
use crate::write::scan::skip_views;
use crate::write::segment_compression::{
    decide_segment_placement, plan_for, SegmentCodec, SegmentPlacement,
};
use crate::write::stream_writer::{
    add_digests, add_size, add_stored, bevies_between, block_digests, block_views, decodes_back,
    digest_triples, endless_stream_text, size_triple, stored_triple, stream_begun, stream_written,
    write_image_stream_as, BlockHashDigest, BuilderView, StreamBuilder, StreamOptions,
};

verus! {

/// What an acquisition deduplicated.
#[derive(Debug, Clone, Copy, PartialEq, Eq, Structural)]
pub struct DedupeSummary {
    /// Different chunks stored.
    pub unique_chunks: usize,
    /// Bytes stored.
    pub stored: u64,
    /// Bytes presented, duplicates counted.
    pub presented: u64,
}

impl DedupeSummary {
    /// Bytes that need not be stored.
    pub fn saved(&self) -> (r: u64)
        ensures
            r == if self.presented > self.stored {
                self.presented - self.stored
            } else {
                0
            },
    {
        self.presented.saturating_sub(self.stored)
    }
}

/// A file that waits for its map until the pool is written.
#[derive(Debug)]
pub struct PendingDedupe {
    /// The file's name.
    pub arn: String,
    /// One target number per chunk.
    pub target_ids: Vec<u32>,
    /// The file's own length.
    pub size: u64,
}

/// A [`PendingDedupe`], as plain values.
#[verifier::ext_equal]
pub struct PendingView {
    /// The file's name.
    pub arn: Seq<char>,
    /// One target number per chunk.
    pub target_ids: Seq<u32>,
    /// The file's own length.
    pub size: u64,
}

impl View for PendingDedupe {
    type V = PendingView;

    open spec fn view(&self) -> PendingView {
        PendingView { arn: self.arn@, target_ids: self.target_ids@, size: self.size }
    }
}

/// Waiting files, as plain values.
pub open spec fn pending_views(list: Seq<PendingDedupe>) -> Seq<PendingView> {
    Seq::new(list.len(), |i: int| list[i]@)
}

/// What one logical acquisition produced.
#[derive(Debug)]
pub struct LogicalAcquisition {
    /// Files acquired.
    pub files: u64,
    /// Folders recorded.
    pub folders: u64,
    /// Bytes of content stored.
    pub bytes: u64,
    /// Extended attributes acquired.
    pub substreams: usize,
    /// Paths that were not acquired, and why.
    pub skipped: Vec<(EntryPath, String)>,
    /// Files that were acquired at another length than expected: the path, the
    /// expected length and the actual one.
    pub changed: Vec<(EntryPath, u64, u64)>,
    /// What deduplication did, where it was used.
    pub dedupe: Option<DedupeSummary>,
    /// Files that wait for their maps.
    pub deduped: Vec<PendingDedupe>,
}

/// What a [`LogicalAcquisition`] says, as plain values.
#[verifier::ext_equal]
pub struct AcquiredView {
    /// Files acquired.
    pub files: u64,
    /// Folders recorded.
    pub folders: u64,
    /// Bytes of content stored.
    pub bytes: u64,
    /// Extended attributes acquired.
    pub substreams: usize,
    /// Paths that were not acquired, and why.
    pub skipped: Seq<(PathView, Seq<char>)>,
    /// Files acquired at another length than expected.
    pub changed: Seq<(PathView, u64, u64)>,
    /// What deduplication did.
    pub dedupe: Option<DedupeSummary>,
    /// Files that wait for their maps.
    pub deduped: Seq<PendingView>,
}

/// Paths with two lengths, as plain values.
pub open spec fn change_views(list: Seq<(EntryPath, u64, u64)>) -> Seq<(PathView, u64, u64)> {
    Seq::new(list.len(), |i: int| (list[i].0@, list[i].1, list[i].2))
}

impl View for LogicalAcquisition {
    type V = AcquiredView;

    open spec fn view(&self) -> AcquiredView {
        AcquiredView {
            files: self.files,
            folders: self.folders,
            bytes: self.bytes,
            substreams: self.substreams,
            skipped: skip_views(self.skipped@),
            changed: change_views(self.changed@),
            dedupe: self.dedupe,
            deduped: pending_views(self.deduped@),
        }
    }
}

/// Nothing acquired.
pub open spec fn nothing_acquired() -> AcquiredView {
    AcquiredView {
        files: 0,
        folders: 0,
        bytes: 0,
        substreams: 0,
        skipped: Seq::empty(),
        changed: Seq::empty(),
        dedupe: None,
        deduped: Seq::empty(),
    }
}

impl Default for LogicalAcquisition {
    fn default() -> (r: Self)
        ensures
            r@ == nothing_acquired(),
    {
        let r = LogicalAcquisition {
            files: 0,
            folders: 0,
            bytes: 0,
            substreams: 0,
            skipped: Vec::new(),
            changed: Vec::new(),
            dedupe: None,
            deduped: Vec::new(),
        };
        proof {
            assert(r@ =~= nothing_acquired());
        }
        r
    }
}

impl AcquiredView {
    /// With a path passed over.
    pub open spec fn skip(self, path: PathView, reason: Seq<char>) -> AcquiredView {
        AcquiredView { skipped: self.skipped.push((path, reason)), ..self }
    }

    /// With a file's length noted where it is not the expected one.
    pub open spec fn measured(self, path: PathView, expected: u64, actual: u64) -> AcquiredView {
        if actual == expected {
            self
        } else {
            AcquiredView { changed: self.changed.push((path, expected, actual)), ..self }
        }
    }

    /// With a file of a length.
    pub open spec fn with_file(self, length: u64) -> AcquiredView {
        AcquiredView {
            files: capped_sum(self.files as int, 1),
            bytes: capped_sum(self.bytes as int, length as int),
            ..self
        }
    }
}

impl LogicalAcquisition {
    /// Note a path that is passed over.
    pub fn skip(&mut self, path: &EntryPath, reason: String)
        ensures
            final(self)@ == old(self)@.skip(path@, reason@),
    {
        let ghost before = self.skipped@;
        self.skipped.push((path.duplicate(), reason));
        proof {
            assert(self@ =~= old(self)@.skip(path@, reason@));
        }
    }

    /// Note a file's length where it is not the expected one.
    fn measure(&mut self, path: &EntryPath, expected: u64, actual: u64)
        ensures
            final(self)@ == old(self)@.measured(path@, expected, actual),
    {
        if actual != expected {
            self.changed.push((path.duplicate(), expected, actual));
            proof {
                assert(self@ =~= old(self)@.measured(path@, expected, actual));
            }
        }
    }

    /// Count a file.
    fn count_file(&mut self, length: u64)
        ensures
            final(self)@ == old(self)@.with_file(length),
    {
        self.files = self.files.saturating_add(1);
        self.bytes = self.bytes.saturating_add(length);
    }
}

/// One extended attribute of a file.
#[derive(Debug)]
pub struct ExtendedAttribute {
    /// Its name.
    pub name: String,
    /// Its bytes.
    pub value: Vec<u8>,
}

/// What was read of an entry.
#[derive(Debug)]
pub struct EntryFacts {
    /// What a look at it yielded.
    pub stamps: FsMetadata,
    /// A file's extended attributes.
    pub attributes: Vec<ExtendedAttribute>,
    /// A file's content, or why it could not be read.
    pub content: Result<Vec<u8>, String>,
}

/// What was read of an entry, as plain values.
#[verifier::ext_equal]
pub struct FactsView {
    /// What a look at it yielded.
    pub stamps: StampsView,
    /// A file's extended attributes: names and bytes.
    pub attributes: Seq<(Seq<char>, Seq<u8>)>,
    /// A file's content, or why it could not be read.
    pub content: Result<Seq<u8>, Seq<char>>,
}

/// Extended attributes, as plain values.
pub open spec fn attribute_views(list: Seq<ExtendedAttribute>) -> Seq<(Seq<char>, Seq<u8>)> {
    Seq::new(list.len(), |i: int| (list[i].name@, list[i].value@))
}

impl View for EntryFacts {
    type V = FactsView;

    open spec fn view(&self) -> FactsView {
        FactsView {
            stamps: self.stamps@,
            attributes: attribute_views(self.attributes@),
            content: match self.content {
                Ok(data) => Ok(data@),
                Err(reason) => Err(reason@),
            },
        }
    }
}

/// The statement of a literal under a term of the standard's namespace.
pub open spec fn literal(
    arn: Seq<char>,
    local: Seq<char>,
    value: Seq<char>,
    datatype: Seq<char>,
) -> TripleView {
    statement(arn, standard_iri(local), TermView::Literal(value, datatype))
}

/// The statement of a literal that there may be.
pub open spec fn optional_literal(
    arn: Seq<char>,
    local: Seq<char>,
    value: Option<Seq<char>>,
    datatype: Seq<char>,
) -> Seq<TripleView> {
    match value {
        Some(v) => seq![literal(arn, local, v, datatype)],
        None => Seq::empty(),
    }
}

/// The statements of a name: as text, and as bytes where the text is not the whole
/// truth.
pub open spec fn name_triples(
    arn: Seq<char>,
    term: Seq<char>,
    raw_term: Seq<char>,
    name: NameView,
) -> Seq<TripleView> {
    seq![literal(arn, term, name.display, XSD_STRING@)] + optional_literal(
        arn,
        raw_term,
        name.raw,
        XSD_BASE64_BINARY@,
    )
}

/// The statements of an entry's path, by profile.
pub open spec fn path_triples(arn: Seq<char>, path: PathView, profile: LogicalProfile) -> Seq<TripleView> {
    if profile == LogicalProfile::V1Alpha {
        name_triples(
            arn,
            terms::ORIGINAL_PATH_NAME@,
            terms::ORIGINAL_PATH_NAME_RAW@,
            entry_names(path).0,
        ) + name_triples(arn, terms::FILE_NAME@, terms::FILE_NAME_RAW@, entry_names(path).1)
    } else {
        seq![literal(arn, terms::ORIGINAL_FILE_NAME@, path.display, XSD_STRING@)]
    }
}

/// The statements of an entry's times.
pub open spec fn time_triples(arn: Seq<char>, stamps: StampsView) -> Seq<TripleView> {
    optional_literal(arn, terms::BIRTH_TIME@, stamps.birth, XSD_DATE_TIME@) + optional_literal(
        arn,
        terms::LAST_WRITTEN@,
        stamps.written,
        XSD_DATE_TIME@,
    ) + optional_literal(arn, terms::LAST_ACCESSED@, stamps.accessed, XSD_DATE_TIME@)
        + optional_literal(arn, terms::RECORD_CHANGED@, stamps.changed, XSD_DATE_TIME@)
}

/// The statement of an entry's mode, where the profile has a term for it.
pub open spec fn mode_triples(arn: Seq<char>, stamps: StampsView, profile: LogicalProfile) -> Seq<
    TripleView,
> {
    if profile == LogicalProfile::V1Alpha && stamps.mode is Some {
        seq![
            literal(
                arn,
                terms::FILE_MODE@,
                text::decimal(stamps.mode->Some_0 as nat),
                XSD_LONG@,
            ),
        ]
    } else {
        Seq::empty()
    }
}

/// The metadata that every entry has.
pub open spec fn entry_triples(
    arn: Seq<char>,
    path: PathView,
    stamps: StampsView,
    volume: Seq<char>,
    profile: LogicalProfile,
    record_stored: bool,
) -> Seq<TripleView> {
    path_triples(arn, path, profile) + time_triples(arn, stamps) + mode_triples(
        arn,
        stamps,
        profile,
    ) + (if record_stored {
        seq![stored_triple(arn, volume)]
    } else {
        Seq::empty()
    })
}

/// State a literal under a term of the standard's namespace.
fn add_literal(writer: &mut ContainerWriter, arn: &str, local: &str, value: &str, datatype: &str)
    ensures
        final(writer).view() == old(writer).view().state(
            literal(arn@, local@, value@, datatype@),
        ),
{
    writer.add(arn, iri(local).as_str(), Term::typed(value, datatype));
}

/// State a literal that there may be.
fn add_optional(
    writer: &mut ContainerWriter,
    arn: &str,
    local: &str,
    value: &Option<String>,
    datatype: &str,
)
    ensures
        final(writer).view() == old(writer).view().state_all(
            optional_literal(arn@, local@, optional_text(*value), datatype@),
        ),
{
    let ghost w0 = writer.view();
    match value {
        Some(v) => {
            add_literal(writer, arn, local, v.as_str(), datatype);
        },
        None => {},
    }
    proof {
        assert(writer.view() =~= w0.state_all(
            optional_literal(arn@, local@, optional_text(*value), datatype@),
        ));
    }
}

/// State a name.
fn add_name(
    writer: &mut ContainerWriter,
    arn: &str,
    term: &str,
    raw_term: &str,
    name: &RecordedName,
)
    ensures
        final(writer).view() == old(writer).view().state_all(
            name_triples(arn@, term@, raw_term@, name@),
        ),
{
    let ghost w0 = writer.view();
    add_literal(writer, arn, term, name.display(), XSD_STRING);
    match name.raw() {
        Some(raw) => {
            add_literal(writer, arn, raw_term, raw, XSD_BASE64_BINARY);
        },
        None => {},
    }
    proof {
        assert(writer.view() =~= w0.state_all(name_triples(arn@, term@, raw_term@, name@)));
    }
}

/// Statements made one list after the other are made as one list.
proof fn stated_in_turn(w: WriterView, a: Seq<TripleView>, b: Seq<TripleView>)
    ensures
        w.state_all(a).state_all(b) == w.state_all(a + b),
{
    assert(w.state_all(a).state_all(b) =~= w.state_all(a + b));
}

/// State an entry's path.
fn add_path(writer: &mut ContainerWriter, arn: &str, path: &EntryPath, profile: LogicalProfile)
    ensures
        final(writer).view() == old(writer).view().state_all(path_triples(arn@, path@, profile)),
{
    let ghost w0 = writer.view();
    if profile.is_v1_alpha() {
        let names = names_to_record(path);
        add_name(
            writer,
            arn,
            terms::ORIGINAL_PATH_NAME,
            terms::ORIGINAL_PATH_NAME_RAW,
            &names.0,
        );
        add_name(writer, arn, terms::FILE_NAME, terms::FILE_NAME_RAW, &names.1);
        proof {
            stated_in_turn(
                w0,
                name_triples(
                    arn@,
                    terms::ORIGINAL_PATH_NAME@,
                    terms::ORIGINAL_PATH_NAME_RAW@,
                    names.0@,
                ),
                name_triples(arn@, terms::FILE_NAME@, terms::FILE_NAME_RAW@, names.1@),
            );
        }
    } else {
        add_literal(writer, arn, terms::ORIGINAL_FILE_NAME, path.display(), XSD_STRING);
        proof {
            assert(writer.view() =~= w0.state_all(path_triples(arn@, path@, profile)));
        }
    }
}

/// State an entry's times.
fn add_times(writer: &mut ContainerWriter, arn: &str, stamps: &FsMetadata)
    ensures
        final(writer).view() == old(writer).view().state_all(time_triples(arn@, stamps@)),
{
    let ghost w0 = writer.view();
    add_optional(writer, arn, terms::BIRTH_TIME, &stamps.birth, XSD_DATE_TIME);
    add_optional(writer, arn, terms::LAST_WRITTEN, &stamps.written, XSD_DATE_TIME);
    add_optional(writer, arn, terms::LAST_ACCESSED, &stamps.accessed, XSD_DATE_TIME);
    add_optional(writer, arn, terms::RECORD_CHANGED, &stamps.changed, XSD_DATE_TIME);
    proof {
        let a = optional_literal(arn@, terms::BIRTH_TIME@, stamps@.birth, XSD_DATE_TIME@);
        let b = optional_literal(arn@, terms::LAST_WRITTEN@, stamps@.written, XSD_DATE_TIME@);
        let c = optional_literal(arn@, terms::LAST_ACCESSED@, stamps@.accessed, XSD_DATE_TIME@);
        let d = optional_literal(arn@, terms::RECORD_CHANGED@, stamps@.changed, XSD_DATE_TIME@);
        stated_in_turn(w0, a, b);
        stated_in_turn(w0, a + b, c);
        stated_in_turn(w0, a + b + c, d);
    }
}

/// State an entry's mode.
fn add_mode(
    writer: &mut ContainerWriter,
    arn: &str,
    stamps: &FsMetadata,
    profile: LogicalProfile,
)
    ensures
        final(writer).view() == old(writer).view().state_all(
            mode_triples(arn@, stamps@, profile),
        ),
{
    let ghost w0 = writer.view();
    match stamps.mode {
        Some(mode) => {
            if profile.is_v1_alpha() {
                add_literal(
                    writer,
                    arn,
                    terms::FILE_MODE,
                    text::dec(mode as u64).as_str(),
                    XSD_LONG,
                );
            }
        },
        None => {},
    }
    proof {
        assert(writer.view() =~= w0.state_all(mode_triples(arn@, stamps@, profile)));
    }
}

/// State the metadata that every entry has.
///
/// `record_stored` is false for a file whose own stream will say where it is
/// stored: the file and the stream are one subject.
pub fn write_table_3(
    writer: &mut ContainerWriter,
    arn: &str,
    path: &EntryPath,
    stamps: &FsMetadata,
    profile: LogicalProfile,
    record_stored: bool,
)
    ensures
        final(writer).view() == old(writer).view().state_all(
            entry_triples(
                arn@,
                path@,
                stamps@,
                old(writer).view().volume,
                profile,
                record_stored,
            ),
        ),
{
    let ghost w0 = writer.view();
    let volume = text::owned(writer.volume_arn().as_str());
    add_path(writer, arn, path, profile);
    add_times(writer, arn, stamps);
    add_mode(writer, arn, stamps, profile);
    let ghost w1 = writer.view();
    if record_stored {
        add_stored(writer, arn, volume.as_str());
    }
    proof {
        let a = path_triples(arn@, path@, profile);
        let b = time_triples(arn@, stamps@);
        let c = mode_triples(arn@, stamps@, profile);
        let d = if record_stored {
            seq![stored_triple(arn@, w0.volume)]
        } else {
            Seq::empty()
        };
        assert(writer.view() =~= w1.state_all(d));
        stated_in_turn(w0, a, b);
        stated_in_turn(w0, a + b, c);
        stated_in_turn(w0, a + b + c, d);
    }
}

/// The statement of a literal under a term that v1.0-ALPHA assigns.
pub open spec fn alpha_literal(
    arn: Seq<char>,
    local: Seq<char>,
    value: Seq<char>,
    datatype: Seq<char>,
    https: bool,
) -> TripleView {
    statement(arn, aff4l_iri(local, https), TermView::Literal(value, datatype))
}

/// The IRI of a term as v1.0-ALPHA assigns it.
fn v1_alpha_iri(local: &str, https: bool) -> (r: String)
    ensures
        r@ == aff4l_iri(local@, https),
{
    text::cat2(namespace_for(local, https), local)
}

/// What a writer holds once a segment's bytes are written: compressed where that
/// makes them fewer.
pub open spec fn segment_written(
    w: WriterView,
    name: Seq<char>,
    data: Seq<u8>,
    forced: Option<SegmentCodec>,
) -> WriterView {
    w.with_member(name, data, plan_for(data, forced).placement() == SegmentPlacement::Deflate)
}

/// Write one segment's bytes with the compression that pays.
pub fn write_segment_bytes(
    writer: &mut ContainerWriter,
    name: &str,
    data: &[u8],
    forced: Option<SegmentCodec>,
)
    ensures
        final(writer).view() == segment_written(old(writer).view(), name@, data@, forced),
{
    match decide_segment_placement(data, forced) {
        SegmentPlacement::Stored => writer.add_stored_segment(name, data),
        SegmentPlacement::Deflate => writer.add_deflated_segment(name, data),
    }
}

/// The name of an extended attribute: its file's, and its place. A second
/// acquisition of the same file names the same subjects.
pub open spec fn attribute_arn(parent: Seq<char>, index: nat) -> Seq<char> {
    parent + "/xattr/"@ + text::decimal(index)
}

/// What a writer holds once an extended attribute is written.
pub open spec fn attribute_written(
    w: WriterView,
    parent: Seq<char>,
    index: nat,
    attribute: (Seq<char>, Seq<u8>),
    o: OptionsView,
) -> WriterView {
    let child = attribute_arn(parent, index);
    let size = attribute.1.len() as u64;
    let https = o.namespace_https;
    let described = w.state(typed_as(child, aff4l_iri(terms::FILE_EXTENDED_ATTRIBUTE@, https))).state(
        alpha_literal(child, terms::NAME@, attribute.0, XSD_STRING@, https),
    ).state(size_triple(child, size as nat)).state(
        statement(child, standard_iri("target"@), TermView::Iri(parent)),
    );
    let held = if storage_for(StreamKind::Substream, size, o.profile, None)
        == StorageForm::InMetadata {
        described.state(
            alpha_literal(
                child,
                terms::DATA_STREAM@,
                base64(attribute.1),
                XSD_BASE64_BINARY@,
                https,
            ),
        )
    } else {
        segment_written(
            described,
            segment_name(w.volume, child, o.profile),
            attribute.1,
            o.segment_codec,
        ).state(typed_as(child, standard_iri(terms::ZIP_SEGMENT_V21@)))
    };
    held.state(
        statement(
            parent,
            aff4l_iri(terms::EXTENDED_ATTRIBUTE@, https),
            TermView::Iri(child),
        ),
    )
}

/// What a writer holds once extended attributes are written, in order.
pub open spec fn attributes_written(
    w: WriterView,
    parent: Seq<char>,
    attributes: Seq<(Seq<char>, Seq<u8>)>,
    o: OptionsView,
) -> WriterView
    decreases attributes.len(),
{
    if attributes.len() == 0 {
        w
    } else {
        attribute_written(
            attributes_written(w, parent, attributes.drop_last(), o),
            parent,
            (attributes.len() - 1) as nat,
            attributes.last(),
            o,
        )
    }
}

/// Write one extended attribute.
fn write_attribute(
    writer: &mut ContainerWriter,
    parent_arn: &str,
    index: usize,
    attribute: &ExtendedAttribute,
    options: &LogicalOptions,
)
    ensures
        final(writer).view() == attribute_written(
            old(writer).view(),
            parent_arn@,
            index as nat,
            (attribute.name@, attribute.value@),
            options@,
        ),
{
    let https = options.namespace_https;
    let volume = text::owned(writer.volume_arn().as_str());
    let child = text::cat3(parent_arn, "/xattr/", text::dec_usize(index).as_str());
    let size: u64 = attribute.value.len() as u64;
    writer.add_type(
        child.as_str(),
        v1_alpha_iri(terms::FILE_EXTENDED_ATTRIBUTE, https).as_str(),
    );
    writer.add(
        child.as_str(),
        v1_alpha_iri(terms::NAME, https).as_str(),
        Term::typed(attribute.name.as_str(), XSD_STRING),
    );
    add_size(writer, child.as_str(), size);
    writer.add(child.as_str(), iri("target").as_str(), Term::iri(parent_arn));
    if choose_storage(StreamKind::Substream, size, options.profile, None)
        == StorageForm::InMetadata {
        writer.add(
            child.as_str(),
            v1_alpha_iri(terms::DATA_STREAM, https).as_str(),
            Term::typed(base64_encode(attribute.value.as_slice()).as_str(), XSD_BASE64_BINARY),
        );
    } else {
        let segment = segment_name_for_arn(volume.as_str(), child.as_str(), options.profile);
        write_segment_bytes(
            writer,
            segment.as_str(),
            attribute.value.as_slice(),
            options.segment_codec,
        );
        writer.add_type(child.as_str(), iri(terms::ZIP_SEGMENT_V21).as_str());
    }
    writer.add(
        parent_arn,
        v1_alpha_iri(terms::EXTENDED_ATTRIBUTE, https).as_str(),
        Term::iri(child.as_str()),
    );
}

/// Write a file's extended attributes, each as a subject of its own; only
/// v1.0-ALPHA has terms for them. Returns how many were written.
pub fn write_extended_attributes(
    writer: &mut ContainerWriter,
    parent_arn: &str,
    attributes: &Vec<ExtendedAttribute>,
    options: &LogicalOptions,
) -> (r: usize)
    ensures
        options.profile == LogicalProfile::V1Alpha ==> r == attributes@.len()
            && final(writer).view() == attributes_written(
            old(writer).view(),
            parent_arn@,
            attribute_views(attributes@),
            options@,
        ),
        options.profile == LogicalProfile::Legacy ==> r == 0 && final(writer).view() == old(
            writer,
        ).view(),
{
    if !options.profile.is_v1_alpha() {
        return 0;
    }
    let ghost all = attribute_views(attributes@);
    let ghost w0 = writer.view();
    let mut i: usize = 0;
    while i < attributes.len()
        invariant
            i <= attributes.len(),
            all == attribute_views(attributes@),
            writer.view() == attributes_written(w0, parent_arn@, all.take(i as int), options@),
        decreases attributes.len() - i,
    {
        write_attribute(writer, parent_arn, i, &attributes[i], options);
        proof {
            assert(all.take(i + 1).drop_last() =~= all.take(i as int));
            assert(all.take(i + 1).last() == (
                attributes@[i as int].name@,
                attributes@[i as int].value@,
            ));
        }
        i = i + 1;
    }
    proof {
        assert(all.take(i as int) =~= all);
    }
    attributes.len()
}

/// Stream options with a digest of every chunk.
pub open spec fn with_block_hashes(o: StreamOptions) -> StreamOptions {
    StreamOptions { block_hashes: true, ..o }
}

/// Stream options with a digest of every chunk: a file with a stream of its own is
/// large, and "chunk 41 of it is corrupt" says more than "it is corrupt".
fn own_stream_options(o: StreamOptions) -> (r: StreamOptions)
    ensures
        r == with_block_hashes(o),
{
    StreamOptions { block_hashes: true, ..o }
}

/// Names minted for an entry, its stream and its map, or why there are none.
#[derive(Debug)]
pub struct Minted {
    /// For the entry.
    pub entry: Result<String, Error>,
    /// For its stream.
    pub stream: Result<String, Error>,
    /// For its map.
    pub map: Result<String, Error>,
}

/// Minted names, as plain values.
#[verifier::ext_equal]
pub struct MintedView {
    /// For the entry.
    pub entry: Result<Seq<char>, ErrorView>,
    /// For its stream.
    pub stream: Result<Seq<char>, ErrorView>,
    /// For its map.
    pub map: Result<Seq<char>, ErrorView>,
}

impl View for Minted {
    type V = MintedView;

    open spec fn view(&self) -> MintedView {
        MintedView {
            entry: name_view(self.entry),
            stream: name_view(self.stream),
            map: name_view(self.map),
        }
    }
}

/// Where a writer and the account of an acquisition stand.
#[verifier::ext_equal]
pub struct Standing {
    /// The writer.
    pub writer: WriterView,
    /// The account.
    pub result: AcquiredView,
}

impl Standing {
    /// With a path passed over.
    pub open spec fn skip(self, path: PathView, reason: Seq<char>) -> Standing {
        Standing { result: self.result.skip(path, reason), ..self }
    }

    /// With a path passed over because of a fault.
    pub open spec fn fail(self, path: PathView, e: ErrorView) -> Standing {
        self.skip(path, error_text(e))
    }

    /// With a file's digests and length stated, and its length noted.
    pub open spec fn described(
        self,
        path: PathView,
        arn: Seq<char>,
        expected: u64,
        data: Seq<u8>,
        o: OptionsView,
    ) -> Standing {
        Standing {
            writer: self.writer.state_all(
                digest_triples(arn, digests_under(o.recorded_algorithms(), data)),
            ).state(size_triple(arn, data.len())),
            result: self.result.measured(path, expected, data.len() as u64),
        }
    }

    /// With a file of a length.
    pub open spec fn with_file(self, length: nat) -> Standing {
        Standing { result: self.result.with_file(length as u64), ..self }
    }
}

/// A file recorded as a stream of its own: the file is the stream.
pub open spec fn large_recorded(
    s: Standing,
    path: PathView,
    arn: Seq<char>,
    size: u64,
    content: Result<Seq<u8>, Seq<char>>,
    o: OptionsView,
) -> Standing {
    match content {
        Err(reason) => s.skip(path, reason),
        Ok(data) => match stream_begun(
            s.writer,
            arn,
            with_block_hashes(o.stream),
            LocusView::file(path.display),
        ) {
            Err(e) => s.fail(path, e),
            Ok(begun) => {
                let n = data.len() as u64;
                let w = stream_written(s.writer, begun, data, o.recorded_algorithms());
                Standing {
                    writer: if n == size {
                        w
                    } else {
                        w.state(size_triple(arn, n as nat))
                    },
                    result: s.result.measured(path, size, n),
                }.with_file(n as nat)
            },
        },
    }
}

/// Where a file is recorded: its path, its name and the length expected of it.
struct Place<'a> {
    path: &'a EntryPath,
    arn: &'a str,
    size: u64,
}

/// Whether what a stream of a file's own stores decodes to the file, where the stream
/// can be begun.
pub open spec fn own_stream_decodes(
    w: WriterView,
    stream: Seq<char>,
    path: PathView,
    content: Result<Seq<u8>, Seq<char>>,
    o: OptionsView,
) -> bool {
    content matches Ok(data) ==> stream_begun(
        w,
        stream,
        with_block_hashes(o.stream),
        LocusView::file(path.display),
    ) is Ok ==> decodes_back(with_block_hashes(o.stream), data)
}

/// Record a file as a stream of its own.
fn record_large_file(
    writer: &mut ContainerWriter,
    place: &Place,
    content: &Result<Vec<u8>, String>,
    options: &LogicalOptions,
    result: &mut LogicalAcquisition,
)
    ensures
        (Standing { writer: final(writer).view(), result: final(result)@ }) == large_recorded(
            Standing { writer: old(writer).view(), result: old(result)@ },
            place.path@,
            place.arn@,
            place.size,
            content_view(*content),
            options@,
        ),
        own_stream_decodes(
            old(writer).view(),
            place.arn@,
            place.path@,
            content_view(*content),
            options@,
        ),
{
    let data = match content {
        Ok(data) => data,
        Err(reason) => {
            result.skip(place.path, text::owned(reason.as_str()));
            return;
        },
    };
    let locus = Locus::new(place.path.display());
    let algorithms = options.algorithms();
    match write_image_stream_as(
        writer,
        place.arn,
        data.as_slice(),
        own_stream_options(options.stream),
        algorithms.as_slice(),
        &locus,
    ) {
        Ok(written) => {
            result.measure(place.path, place.size, written.size);
            if written.size != place.size {
                add_size(writer, place.arn, written.size);
            }
            result.count_file(written.size);
        },
        Err(e) => {
            result.skip(place.path, e.to_string());
        },
    }
}

/// A file's content, as plain values.
pub open spec fn content_view(content: Result<Vec<u8>, String>) -> Result<Seq<u8>, Seq<char>> {
    match content {
        Ok(data) => Ok(data@),
        Err(reason) => Err(reason@),
    }
}

/// State a file's digests and length, and note its length.
fn describe(
    writer: &mut ContainerWriter,
    place: &Place,
    data: &[u8],
    options: &LogicalOptions,
    result: &mut LogicalAcquisition,
)
    ensures
        (Standing { writer: final(writer).view(), result: final(result)@ }) == (Standing {
            writer: old(writer).view(),
            result: old(result)@,
        }).described(place.path@, place.arn@, place.size, data@, options@),
{
    let length: usize = data.len();
    result.measure(place.path, place.size, length as u64);
    let algorithms = options.algorithms();
    let digests = digests_of(data, algorithms.as_slice());
    add_digests(writer, place.arn, &digests);
    add_size(writer, place.arn, length as u64);
}

/// A map of a file's own stream recorded, under the file's name or under its own.
pub open spec fn own_map_mapped(
    s: Standing,
    path: PathView,
    arn: Seq<char>,
    stream: Seq<char>,
    length: nat,
    blocks: Seq<(HashAlgorithm, Seq<char>)>,
    map: Option<Seq<char>>,
    o: OptionsView,
) -> Standing {
    let (w, e) = own_outcome(
        s.writer,
        arn,
        stream,
        length as u64,
        blocks,
        map,
        o.namespace_https,
        LocusView::file(path.display),
    );
    let mapped = Standing { writer: w, ..s };
    match e {
        Some(e) => mapped.fail(path, e),
        None => mapped.with_file(length),
    }
}

/// A file recorded as a map over a stream that it alone uses.
pub open spec fn own_map_recorded(
    s: Standing,
    path: PathView,
    arn: Seq<char>,
    size: u64,
    content: Result<Seq<u8>, Seq<char>>,
    names: MintedView,
    o: OptionsView,
) -> Standing {
    let locus = LocusView::file(path.display);
    let so = with_block_hashes(o.stream);
    match content {
        Err(reason) => s.skip(path, reason),
        Ok(data) => match names.stream {
            Err(e) => s.fail(path, e),
            Ok(stream) => match stream_begun(s.writer, stream, so, locus) {
                Err(e) => s.fail(path, e),
                Ok(begun) => {
                    let described = Standing {
                        writer: stream_written(s.writer, begun, data, o.recorded_algorithms()),
                        ..s
                    }.described(path, arn, size, data, o);
                    let blocks = block_digests(so, data);
                    if !o.datastream_indirect {
                        own_map_mapped(described, path, arn, stream, data.len(), blocks, None, o)
                    } else {
                        match base_in(described.writer, "file"@, arn, locus) {
                            Err(e) => described.fail(path, e),
                            Ok(_) => match names.map {
                                Err(e) => described.fail(path, e),
                                Ok(map) => own_map_mapped(
                                    described,
                                    path,
                                    arn,
                                    stream,
                                    data.len(),
                                    blocks,
                                    Some(map),
                                    o,
                                ),
                            },
                        }
                    }
                },
            },
        },
    }
}

/// Record the map of a file's own stream.
fn map_own_stream(
    writer: &mut ContainerWriter,
    place: &Place,
    stream: &str,
    length: u64,
    blocks: &Vec<BlockHashDigest>,
    map: Option<&str>,
    options: &LogicalOptions,
    result: &mut LogicalAcquisition,
)
    ensures
        (Standing { writer: final(writer).view(), result: final(result)@ }) == own_map_mapped(
            Standing { writer: old(writer).view(), result: old(result)@ },
            place.path@,
            place.arn@,
            stream@,
            length as nat,
            block_views(blocks@),
            (match map {
                Some(m) => Some(m@),
                None => None,
            }),
            options@,
        ),
{
    let locus = Locus::new(place.path.display());
    match write_own_map_as(
        writer,
        place.arn,
        stream,
        length,
        blocks,
        map,
        options.namespace_https,
        &locus,
    ) {
        Ok(_) => {
            result.count_file(length);
        },
        Err(e) => {
            result.skip(place.path, e.to_string());
        },
    }
}

/// Record a file as a map over a stream that it alone uses.
///
/// The stream has a name of its own: a map that is the file cannot depend on a
/// stream of the file's name.
fn record_own_map_file(
    writer: &mut ContainerWriter,
    place: &Place,
    content: &Result<Vec<u8>, String>,
    names: &Minted,
    options: &LogicalOptions,
    result: &mut LogicalAcquisition,
)
    ensures
        (Standing { writer: final(writer).view(), result: final(result)@ }) == own_map_recorded(
            Standing { writer: old(writer).view(), result: old(result)@ },
            place.path@,
            place.arn@,
            place.size,
            content_view(*content),
            names@,
            options@,
        ),
        names@.stream matches Ok(stream) ==> own_stream_decodes(
            old(writer).view(),
            stream,
            place.path@,
            content_view(*content),
            options@,
        ),
{
    let data = match content {
        Ok(data) => data,
        Err(reason) => {
            result.skip(place.path, text::owned(reason.as_str()));
            return;
        },
    };
    let stream = match &names.stream {
        Ok(stream) => stream,
        Err(e) => {
            result.skip(place.path, e.to_string());
            return;
        },
    };
    let locus = Locus::new(place.path.display());
    let algorithms = options.algorithms();
    let written = match write_image_stream_as(
        writer,
        stream.as_str(),
        data.as_slice(),
        own_stream_options(options.stream),
        algorithms.as_slice(),
        &locus,
    ) {
        Ok(written) => written,
        Err(e) => {
            result.skip(place.path, e.to_string());
            return;
        },
    };
    describe(writer, place, data.as_slice(), options, result);
    if !options.datastream_indirect {
        map_own_stream(
            writer,
            place,
            stream.as_str(),
            written.size,
            &written.block_hash_digests,
            None,
            options,
            result,
        );
        return;
    }
    match find_base(writer, "file", place.arn, &locus) {
        Ok(_) => {},
        Err(e) => {
            result.skip(place.path, e.to_string());
            return;
        },
    }
    match &names.map {
        Ok(map) => {
            map_own_stream(
                writer,
                place,
                stream.as_str(),
                written.size,
                &written.block_hash_digests,
                Some(map.as_str()),
                options,
                result,
            );
        },
        Err(e) => {
            result.skip(place.path, e.to_string());
        },
    }
}

/// A file recorded as a run of a stream under way that files share.
pub open spec fn appended_recorded(
    s: Standing,
    b: BuilderView,
    path: PathView,
    arn: Seq<char>,
    size: u64,
    data: Seq<u8>,
    o: OptionsView,
) -> (Standing, BuilderView) {
    let locus = LocusView::file(path.display);
    if b.content.len() + data.len() > u64::MAX {
        (
            s.fail(path, malformed(locus, endless_stream_text(b.arn))),
            b,
        )
    } else {
        let after = b.with(data);
        let described = Standing {
            writer: s.writer.with_members(
                bevies_between(
                    after.base,
                    after.options,
                    after.content,
                    b.whole(),
                    after.whole(),
                ),
            ),
            ..s
        }.described(path, arn, size, data, o);
        match base_in(described.writer, "file"@, arn, locus) {
            Err(e) => (described.fail(path, e), after),
            Ok(base) => (
                Standing {
                    writer: shared_written(
                        described.writer,
                        base,
                        arn,
                        b.arn,
                        b.content.len() as u64,
                        data.len() as u64,
                    ),
                    ..described
                }.with_file(data.len()),
                after,
            ),
        }
    }
}

/// A file recorded as a run of the acquisition's shared stream, which the first
/// such file opens.
pub open spec fn shared_recorded(
    s: Standing,
    shared: Option<BuilderView>,
    path: PathView,
    arn: Seq<char>,
    size: u64,
    content: Result<Seq<u8>, Seq<char>>,
    o: OptionsView,
) -> (Standing, Option<BuilderView>) {
    match content {
        Err(reason) => (s.skip(path, reason), shared),
        Ok(data) => {
            let opened = match shared {
                Some(b) => Ok(b),
                None => stream_begun(
                    s.writer,
                    s.writer.volume + "/shared"@,
                    o.stream,
                    LocusView::file(path.display),
                ),
            };
            match opened {
                Err(e) => (s.fail(path, e), None),
                Ok(b) => {
                    let (after, grown) = appended_recorded(s, b, path, arn, size, data, o);
                    (after, Some(grown))
                },
            }
        },
    }
}

/// The storage that an acquisition shares between files.
pub struct SharedStorage {
    /// The pool of chunks, where identical chunks are stored once.
    pub pool: Option<ChunkPool>,
    /// The stream that files share, once one of them needed it.
    pub shared: Option<StreamBuilder>,
}

impl SharedStorage {
    /// Whether what is held is sound.
    pub open spec fn wf(&self) -> bool {
        &&& self.pool matches Some(p) ==> p.wf()
        &&& self.shared matches Some(b) ==> b.wf()
    }

    /// The pool, as plain values.
    pub open spec fn pool_view(&self) -> Option<PoolView> {
        match self.pool {
            Some(p) => Some(p.view()),
            None => None,
        }
    }

    /// The stream, as plain values.
    pub open spec fn shared_view(&self) -> Option<BuilderView> {
        match self.shared {
            Some(b) => Some(b.view()),
            None => None,
        }
    }

    /// The storage that options call for, before any file.
    pub fn for_options(options: &LogicalOptions) -> (r: SharedStorage)
        ensures
            r.wf(),
            r.shared_view() is None,
            r.pool_view() == (if options.deduplicate {
                Some(
                    PoolView {
                        chunk_size: options.stream.chunk_size as nat,
                        unique: Seq::empty(),
                        stored: 0,
                        presented: 0,
                    },
                )
            } else {
                None
            }),
    {
        SharedStorage {
            pool: if options.deduplicate {
                Some(ChunkPool::new(options.stream.chunk_size))
            } else {
                None
            },
            shared: None,
        }
    }
}

impl Default for SharedStorage {
    /// Neither pool nor stream.
    fn default() -> (r: Self)
        ensures
            r.wf(),
            r.pool_view() is None,
            r.shared_view() is None,
    {
        SharedStorage { pool: None, shared: None }
    }
}

/// Record a file as a run of a stream under way.
fn append_shared(
    writer: &mut ContainerWriter,
    builder: &mut StreamBuilder,
    place: &Place,
    data: &Vec<u8>,
    options: &LogicalOptions,
    result: &mut LogicalAcquisition,
)
    requires
        old(builder).wf(),
    ensures
        final(builder).wf(),
        (
            Standing { writer: final(writer).view(), result: final(result)@ },
            final(builder).view(),
        ) == appended_recorded(
            Standing { writer: old(writer).view(), result: old(result)@ },
            old(builder).view(),
            place.path@,
            place.arn@,
            place.size,
            data@,
            options@,
        ),
{
    let locus = Locus::new(place.path.display());
    let offset: u64 = builder.size();
    let stream = text::owned(builder.arn());
    match builder.append(data.as_slice(), writer, &locus) {
        Ok(_) => {},
        Err(e) => {
            result.skip(place.path, e.to_string());
            return;
        },
    }
    describe(writer, place, data.as_slice(), options, result);
    let length: u64 = data.len() as u64;
    match write_shared_map(writer, place.arn, stream.as_str(), offset, length, &locus) {
        Ok(_) => {
            result.count_file(length);
        },
        Err(e) => {
            result.skip(place.path, e.to_string());
        },
    }
}

/// Record a file as a run of the acquisition's shared stream.
fn record_shared_file(
    writer: &mut ContainerWriter,
    shared: &mut Option<StreamBuilder>,
    place: &Place,
    content: &Result<Vec<u8>, String>,
    options: &LogicalOptions,
    result: &mut LogicalAcquisition,
)
    requires
        *old(shared) matches Some(b) ==> b.wf(),
    ensures
        *final(shared) matches Some(b) ==> b.wf(),
        (
            Standing { writer: final(writer).view(), result: final(result)@ },
            builder_view(*final(shared)),
        ) == shared_recorded(
            Standing { writer: old(writer).view(), result: old(result)@ },
            builder_view(*old(shared)),
            place.path@,
            place.arn@,
            place.size,
            content_view(*content),
            options@,
        ),
{
    let data = match content {
        Ok(data) => data,
        Err(reason) => {
            result.skip(place.path, text::owned(reason.as_str()));
            return;
        },
    };
    let mut taken: Option<StreamBuilder> = None;
    std::mem::swap(shared, &mut taken);
    let mut builder = match taken {
        Some(builder) => builder,
        None => {
            let locus = Locus::new(place.path.display());
            let arn = text::cat2(writer.volume_arn().as_str(), "/shared");
            match StreamBuilder::new(writer, arn.as_str(), options.stream, &locus) {
                Ok(builder) => builder,
                Err(e) => {
                    result.skip(place.path, e.to_string());
                    return;
                },
            }
        },
    };
    append_shared(writer, &mut builder, place, data, options, result);
    *shared = Some(builder);
}

/// A stream that there may be, as plain values.
pub open spec fn builder_view(b: Option<StreamBuilder>) -> Option<BuilderView> {
    match b {
        Some(b) => Some(b.view()),
        None => None,
    }
}

/// A file recorded in the pool; its map waits until the pool is written.
pub open spec fn deduplicated_recorded(
    s: Standing,
    pool: PoolView,
    path: PathView,
    arn: Seq<char>,
    size: u64,
    content: Result<Seq<u8>, Seq<char>>,
    o: OptionsView,
) -> (Standing, PoolView) {
    match content {
        Err(reason) => (s.skip(path, reason), pool),
        Ok(data) => {
            let seen = data.take(presented_length(data, pool.chunk_size) as int);
            let (after, ids) = pool.with_file(data);
            let described = s.described(path, arn, size, seen, o);
            (
                Standing {
                    result: AcquiredView {
                        deduped: described.result.deduped.push(
                            PendingView { arn, target_ids: ids, size: seen.len() as u64 },
                        ),
                        ..described.result
                    },
                    ..described
                }.with_file(seen.len()),
                after,
            )
        },
    }
}

/// Record a file in the pool. Its digests are those of its own bytes, not of the
/// padded chunks.
fn record_deduplicated_file(
    writer: &mut ContainerWriter,
    pool: &mut ChunkPool,
    place: &Place,
    content: &Result<Vec<u8>, String>,
    options: &LogicalOptions,
    result: &mut LogicalAcquisition,
)
    requires
        old(pool).wf(),
    ensures
        final(pool).wf(),
        (
            Standing { writer: final(writer).view(), result: final(result)@ },
            final(pool).view(),
        ) == deduplicated_recorded(
            Standing { writer: old(writer).view(), result: old(result)@ },
            old(pool).view(),
            place.path@,
            place.arn@,
            place.size,
            content_view(*content),
            options@,
        ),
{
    let data = match content {
        Ok(data) => data,
        Err(reason) => {
            result.skip(place.path, text::owned(reason.as_str()));
            return;
        },
    };
    let deduped = pool.absorb(data.as_slice());
    let length: usize = data.len();
    let seen = bytes::copied_range(data.as_slice(), 0, deduped.size as usize);
    proof {
        assert(seen@ =~= data@.take(deduped.size as int));
    }
    describe(writer, place, seen.as_slice(), options, result);
    let size: u64 = deduped.size;
    let ghost before = result@;
    result.deduped.push(
        PendingDedupe { arn: text::owned(place.arn), target_ids: deduped.target_ids, size },
    );
    proof {
        assert(result@ =~= (AcquiredView {
            deduped: before.deduped.push(
                PendingView { arn: place.arn@, target_ids: deduped.target_ids@, size },
            ),
            ..before
        }));
    }
    result.count_file(size);
}

/// A file recorded from a buffer: inside the metadata, or as a ZIP segment.
pub open spec fn buffered_recorded(
    s: Standing,
    path: PathView,
    arn: Seq<char>,
    size: u64,
    form: StorageForm,
    content: Result<Seq<u8>, Seq<char>>,
    o: OptionsView,
) -> Standing {
    match content {
        Err(reason) => s.skip(path, reason),
        Ok(data) => {
            let described = s.described(path, arn, size, data, o);
            let segment = segment_name(s.writer.volume, arn, o.profile);
            if form == StorageForm::InMetadata {
                Standing {
                    writer: described.writer.state(
                        alpha_literal(
                            arn,
                            terms::DATA_STREAM@,
                            base64(data),
                            XSD_BASE64_BINARY@,
                            o.namespace_https,
                        ),
                    ),
                    ..described
                }.with_file(data.len())
            } else if reserved(segment) {
                described.skip(path, segment + " collides with an AFF4 reserved name"@)
            } else {
                Standing {
                    writer: segment_written(
                        described.writer.state(
                            typed_as(
                                arn,
                                standard_iri(
                                    if o.profile == LogicalProfile::V1Alpha {
                                        terms::ZIP_SEGMENT_V21@
                                    } else {
                                        terms::ZIP_SEGMENT@
                                    },
                                ),
                            ),
                        ),
                        segment,
                        data,
                        o.segment_codec,
                    ),
                    ..described
                }.with_file(data.len())
            }
        },
    }
}

/// Record a file from a buffer.
fn record_buffered_file(
    writer: &mut ContainerWriter,
    place: &Place,
    form: StorageForm,
    content: &Result<Vec<u8>, String>,
    options: &LogicalOptions,
    result: &mut LogicalAcquisition,
)
    ensures
        (Standing { writer: final(writer).view(), result: final(result)@ }) == buffered_recorded(
            Standing { writer: old(writer).view(), result: old(result)@ },
            place.path@,
            place.arn@,
            place.size,
            form,
            content_view(*content),
            options@,
        ),
{
    let data = match content {
        Ok(data) => data,
        Err(reason) => {
            result.skip(place.path, text::owned(reason.as_str()));
            return;
        },
    };
    let length: u64 = data.len() as u64;
    let volume = text::owned(writer.volume_arn().as_str());
    describe(writer, place, data.as_slice(), options, result);
    if form == StorageForm::InMetadata {
        writer.add(
            place.arn,
            v1_alpha_iri(terms::DATA_STREAM, options.namespace_https).as_str(),
            Term::typed(base64_encode(data.as_slice()).as_str(), XSD_BASE64_BINARY),
        );
        result.count_file(length);
        return;
    }
    let segment = segment_name_for_arn(volume.as_str(), place.arn, options.profile);
    if is_reserved_name(segment.as_str()) {
        result.skip(
            place.path,
            text::cat2(segment.as_str(), " collides with an AFF4 reserved name"),
        );
        return;
    }
    let class = if options.profile.is_v1_alpha() {
        terms::ZIP_SEGMENT_V21
    } else {
        terms::ZIP_SEGMENT
    };
    writer.add_type(place.arn, iri(class).as_str());
    write_segment_bytes(writer, segment.as_str(), data.as_slice(), options.segment_codec);
    result.count_file(length);
}

/// Where an acquisition stands: the writer, the account, and the storage shared
/// between files.
#[verifier::ext_equal]
pub struct StoreView {
    /// The writer and the account.
    pub standing: Standing,
    /// The pool of chunks.
    pub pool: Option<PoolView>,
    /// The stream that files share.
    pub shared: Option<BuilderView>,
}

/// A sum of counts, at most the largest there is.
pub open spec fn capped_count(a: usize, b: nat) -> usize {
    if a + b > usize::MAX {
        usize::MAX
    } else {
        (a + b) as usize
    }
}

/// Whether a file's metadata says where the file is stored: unless its bytes become a
/// stream of its own name, which says so itself. Bytes that go to a pool do not.
pub open spec fn states_place(form: StorageForm, pooled: bool) -> bool {
    form != StorageForm::OwnImageStream || pooled
}

/// A file's metadata, types and extended attributes recorded.
pub open spec fn introduced_file(
    s: Standing,
    path: PathView,
    arn: Seq<char>,
    placed: bool,
    facts: FactsView,
    o: OptionsView,
) -> Standing {
    let typed = s.writer.state_all(
        entry_triples(
            arn,
            path,
            facts.stamps,
            s.writer.volume,
            o.profile,
            placed,
        ),
    ).state(typed_as(arn, standard_iri(terms::FILE_IMAGE@))).state(
        typed_as(arn, standard_iri("Image"@)),
    );
    if o.profile == LogicalProfile::V1Alpha {
        Standing {
            writer: attributes_written(typed, arn, facts.attributes, o),
            result: AcquiredView {
                substreams: capped_count(s.result.substreams, facts.attributes.len()),
                ..s.result
            },
        }
    } else {
        Standing { writer: typed, ..s }
    }
}

/// A file recorded: metadata, types, extended attributes, and then its content in
/// the pool, where there is one, or in the form chosen for it.
pub open spec fn file_recorded(
    s: StoreView,
    path: PathView,
    arn: Seq<char>,
    size: u64,
    facts: FactsView,
    names: MintedView,
    o: OptionsView,
) -> StoreView {
    let form = storage_for(StreamKind::Primary, size, o.profile, o.storage_form);
    let placed = states_place(form, s.pool is Some);
    let begun = introduced_file(s.standing, path, arn, placed, facts, o);
    match s.pool {
        Some(pool) => {
            let (after, grown) = deduplicated_recorded(
                begun,
                pool,
                path,
                arn,
                size,
                facts.content,
                o,
            );
            StoreView { standing: after, pool: Some(grown), ..s }
        },
        None => match form {
            StorageForm::OwnImageStream => StoreView {
                standing: large_recorded(begun, path, arn, size, facts.content, o),
                ..s
            },
            StorageForm::SharedMap => {
                let (after, shared) = shared_recorded(
                    begun,
                    s.shared,
                    path,
                    arn,
                    size,
                    facts.content,
                    o,
                );
                StoreView { standing: after, shared, ..s }
            },
            StorageForm::OwnMap => StoreView {
                standing: own_map_recorded(begun, path, arn, size, facts.content, names, o),
                ..s
            },
            StorageForm::ZipSegment | StorageForm::InMetadata => StoreView {
                standing: buffered_recorded(begun, path, arn, size, form, facts.content, o),
                ..s
            },
        },
    }
}

/// Whether what is stored of a file in a stream of its own decodes to the file.
pub open spec fn recorded_decodes(
    s: StoreView,
    path: PathView,
    arn: Seq<char>,
    size: u64,
    facts: FactsView,
    names: MintedView,
    o: OptionsView,
) -> bool {
    let form = storage_for(StreamKind::Primary, size, o.profile, o.storage_form);
    let placed = states_place(form, s.pool is Some);
    let w = introduced_file(s.standing, path, arn, placed, facts, o).writer;
    s.pool is None ==> match form {
        StorageForm::OwnImageStream => own_stream_decodes(w, arn, path, facts.content, o),
        StorageForm::OwnMap => names.stream matches Ok(stream) ==> own_stream_decodes(
            w,
            stream,
            path,
            facts.content,
            o,
        ),
        _ => true,
    }
}

/// Where an acquisition stands, as plain values.
pub open spec fn store_view(
    writer: WriterView,
    result: AcquiredView,
    storage: SharedStorage,
) -> StoreView {
    StoreView {
        standing: Standing { writer, result },
        pool: storage.pool_view(),
        shared: storage.shared_view(),
    }
}

/// Record a file's metadata, types and extended attributes.
fn introduce_file(
    writer: &mut ContainerWriter,
    place: &Place,
    placed: bool,
    facts: &EntryFacts,
    options: &LogicalOptions,
    result: &mut LogicalAcquisition,
)
    ensures
        (Standing { writer: final(writer).view(), result: final(result)@ }) == introduced_file(
            Standing { writer: old(writer).view(), result: old(result)@ },
            place.path@,
            place.arn@,
            placed,
            facts@,
            options@,
        ),
{
    write_table_3(
        writer,
        place.arn,
        place.path,
        &facts.stamps,
        options.profile,
        placed,
    );
    writer.add_type(place.arn, iri(terms::FILE_IMAGE).as_str());
    writer.add_type(place.arn, iri("Image").as_str());
    let count: usize = write_extended_attributes(writer, place.arn, &facts.attributes, options);
    result.substreams = result.substreams.saturating_add(count);
}

/// Record one regular file.
///
/// `size` is the length that the walk saw, and decides the form; the length
/// recorded is that of the bytes read.
pub fn record_file(
    writer: &mut ContainerWriter,
    path: &EntryPath,
    arn: &str,
    size: u64,
    facts: &EntryFacts,
    names: &Minted,
    options: &LogicalOptions,
    storage: &mut SharedStorage,
    result: &mut LogicalAcquisition,
)
    requires
        old(storage).wf(),
    ensures
        final(storage).wf(),
        store_view(final(writer).view(), final(result)@, *final(storage)) == file_recorded(
            store_view(old(writer).view(), old(result)@, *old(storage)),
            path@,
            arn@,
            size,
            facts@,
            names@,
            options@,
        ),
        recorded_decodes(
            store_view(old(writer).view(), old(result)@, *old(storage)),
            path@,
            arn@,
            size,
            facts@,
            names@,
            options@,
        ),
{
    let place = Place { path, arn, size };
    let form = choose_storage(StreamKind::Primary, size, options.profile, options.storage_form);
    let placed = form != StorageForm::OwnImageStream || storage.pool.is_some();
    introduce_file(writer, &place, placed, facts, options, result);
    match &mut storage.pool {
        Some(pool) => {
            record_deduplicated_file(writer, pool, &place, &facts.content, options, result);
            return;
        },
        None => {},
    }
    match form {
        StorageForm::OwnImageStream => {
            record_large_file(writer, &place, &facts.content, options, result);
        },
        StorageForm::SharedMap => {
            record_shared_file(
                writer,
                &mut storage.shared,
                &place,
                &facts.content,
                options,
                result,
            );
        },
        StorageForm::OwnMap => {
            record_own_map_file(writer, &place, &facts.content, names, options, result);
        },
        StorageForm::ZipSegment => {
            record_buffered_file(writer, &place, form, &facts.content, options, result);
        },
        StorageForm::InMetadata => {
            record_buffered_file(writer, &place, form, &facts.content, options, result);
        },
    }
}

/// The run that a file is mapped onto holds the file, and goes on holding it
/// whatever is appended after it.
pub proof fn shared_runs_hold(b: BuilderView, data: Seq<u8>, more: Seq<u8>)
    ensures
        ({
            let from = b.content.len() as int;
            let after = b.with(data);
            &&& after.content.subrange(from, from + data.len()) == data
            &&& after.with(more).content.subrange(from, from + data.len()) == data
        }),
{
    let from = b.content.len() as int;
    let after = b.with(data);
    assert(after.content.subrange(from, from + data.len()) =~= data);
    assert(after.with(more).content.subrange(from, from + data.len()) =~= data);
}

/// A path is accounted for: a file is either counted or passed over with a reason,
/// never both and never neither.
pub proof fn files_are_accounted_for(
    s: StoreView,
    path: PathView,
    arn: Seq<char>,
    size: u64,
    facts: FactsView,
    names: MintedView,
    o: OptionsView,
)
    requires
        s.standing.result.files < u64::MAX,
    ensures
        ({
            let before = s.standing.result;
            let after = file_recorded(s, path, arn, size, facts, names, o).standing.result;
            ||| after.files == before.files + 1 && after.skipped == before.skipped
            ||| after.files == before.files && after.bytes == before.bytes && after.skipped.len()
                == before.skipped.len() + 1 && after.skipped.last().0 == path
                && after.skipped.drop_last() == before.skipped
        }),
{
    let before = s.standing.result;
    let after = file_recorded(s, path, arn, size, facts, names, o).standing.result;
    if after.skipped.len() > before.skipped.len() {
        assert(after.skipped.drop_last() =~= before.skipped);
    }
}

/// A file whose content was read is never passed over for having another length
/// than expected: it is noted as changed.
pub proof fn changed_files_are_noted(
    s: Standing,
    path: PathView,
    arn: Seq<char>,
    size: u64,
    form: StorageForm,
    data: Seq<u8>,
    o: OptionsView,
)
    requires
        data.len() <= u64::MAX,
        form == StorageForm::InMetadata || !reserved(segment_name(s.writer.volume, arn, o.profile)),
    ensures
        ({
            let after = buffered_recorded(
                s,
                path,
                arn,
                size,
                form,
                Ok::<Seq<u8>, Seq<char>>(data),
                o,
            ).result;
            &&& after.skipped == s.result.skipped
            &&& data.len() != size ==> after.changed == s.result.changed.push(
                (path, size, data.len() as u64),
            )
            &&& data.len() == size ==> after.changed == s.result.changed
        }),
{
}

} // verus!
