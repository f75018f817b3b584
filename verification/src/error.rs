//! What went wrong, and where in the container.

use vstd::prelude::*;

use crate::text;

verus! {

/// Where in a container something was found.
#[derive(Debug)]
pub struct Locus {
    /// The container file.
    pub path: String,
    /// The member being read.
    pub segment: Option<String>,
    /// The resource being described.
    pub subject: Option<String>,
    /// The property being read.
    pub predicate: Option<String>,
    /// The offset within the member.
    pub byte_offset: Option<u64>,
}

/// What a [`Locus`] says, as plain values.
#[verifier::ext_equal]
pub struct LocusView {
    /// The container file.
    pub path: Seq<char>,
    /// The member being read.
    pub segment: Option<Seq<char>>,
    /// The resource being described.
    pub subject: Option<Seq<char>>,
    /// The property being read.
    pub predicate: Option<Seq<char>>,
    /// The offset within the member.
    pub byte_offset: Option<u64>,
}

/// The text of an optional string.
pub open spec fn optional_text(s: Option<String>) -> Option<Seq<char>> {
    match s {
        Some(t) => Some(t@),
        None => None,
    }
}

impl View for Locus {
    type V = LocusView;

    open spec fn view(&self) -> LocusView {
        LocusView {
            path: self.path@,
            segment: optional_text(self.segment),
            subject: optional_text(self.subject),
            predicate: optional_text(self.predicate),
            byte_offset: self.byte_offset,
        }
    }
}

impl LocusView {
    /// The same place, narrowed to one member.
    pub open spec fn segment(self, segment: Seq<char>) -> LocusView {
        LocusView { segment: Some(segment), ..self }
    }

    /// The same place, narrowed to one resource.
    pub open spec fn subject(self, subject: Seq<char>) -> LocusView {
        LocusView { subject: Some(subject), ..self }
    }

    /// The same place, narrowed to one property.
    pub open spec fn predicate(self, predicate: Seq<char>) -> LocusView {
        LocusView { predicate: Some(predicate), ..self }
    }

    /// The same place, narrowed to one offset.
    pub open spec fn byte_offset(self, offset: u64) -> LocusView {
        LocusView { byte_offset: Some(offset), ..self }
    }

    /// A whole container file.
    pub open spec fn file(path: Seq<char>) -> LocusView {
        LocusView { path, segment: None, subject: None, predicate: None, byte_offset: None }
    }
}

impl Clone for Locus {
    fn clone(&self) -> (r: Self)
        ensures
            r@ == self@,
    {
        Locus {
            path: self.path.clone(),
            segment: copied_text(&self.segment),
            subject: copied_text(&self.subject),
            predicate: copied_text(&self.predicate),
            byte_offset: self.byte_offset,
        }
    }
}

/// A copy of an optional text.
pub fn copied_text(s: &Option<String>) -> (r: Option<String>)
    ensures
        optional_text(r) == optional_text(*s),
{
    match s {
        Some(t) => Some(t.clone()),
        None => None,
    }
}

impl Locus {
    /// A whole container file.
    pub fn new(path: &str) -> (r: Self)
        ensures
            r@ == LocusView::file(path@),
    {
        Locus {
            path: text::owned(path),
            segment: None,
            subject: None,
            predicate: None,
            byte_offset: None,
        }
    }

    /// The same place, narrowed to one member.
    pub fn segment(&self, segment: &str) -> (r: Self)
        ensures
            r@ == self@.segment(segment@),
    {
        let mut out = self.clone();
        out.segment = Some(text::owned(segment));
        out
    }

    /// The same place, narrowed to one resource.
    pub fn subject(&self, subject: &str) -> (r: Self)
        ensures
            r@ == self@.subject(subject@),
    {
        let mut out = self.clone();
        out.subject = Some(text::owned(subject));
        out
    }

    /// The same place, narrowed to one property.
    pub fn predicate(&self, predicate: &str) -> (r: Self)
        ensures
            r@ == self@.predicate(predicate@),
    {
        let mut out = self.clone();
        out.predicate = Some(text::owned(predicate));
        out
    }

    /// The same place, narrowed to one offset.
    pub fn byte_offset(&self, offset: u64) -> (r: Self)
        ensures
            r@ == self@.byte_offset(offset),
    {
        let mut out = self.clone();
        out.byte_offset = Some(offset);
        out
    }
}

/// Which kind of failure an [`Error`] is.
#[derive(Debug, Clone, Copy, PartialEq, Eq, Structural)]
pub enum ErrorKind {
    /// The container contradicts itself or its governing document.
    Malformed,
    /// The container is sound but asks for something this library lacks.
    Unsupported,
    /// The operating system refused.
    Io,
}

/// A failure: its kind, its place and what is wrong in words.
#[derive(Debug)]
pub struct Error {
    /// Which kind of failure this is.
    pub kind: ErrorKind,
    /// Where it was found.
    pub locus: Locus,
    /// What is wrong.
    pub detail: String,
}

/// What an [`Error`] says, as plain values.
#[verifier::ext_equal]
pub struct ErrorView {
    /// Which kind of failure this is.
    pub kind: ErrorKind,
    /// Where it was found.
    pub locus: LocusView,
    /// What is wrong.
    pub detail: Seq<char>,
}

impl View for Error {
    type V = ErrorView;

    open spec fn view(&self) -> ErrorView {
        ErrorView { kind: self.kind, locus: self.locus@, detail: self.detail@ }
    }
}

/// The container contradicts itself at `locus`.
pub open spec fn malformed(locus: LocusView, detail: Seq<char>) -> ErrorView {
    ErrorView { kind: ErrorKind::Malformed, locus, detail }
}

/// The container asks at `locus` for something this library lacks.
pub open spec fn unsupported(locus: LocusView, detail: Seq<char>) -> ErrorView {
    ErrorView { kind: ErrorKind::Unsupported, locus, detail }
}

/// The operating system refused something at `locus`.
pub open spec fn io_failure(locus: LocusView, detail: Seq<char>) -> ErrorView {
    ErrorView { kind: ErrorKind::Io, locus, detail }
}

impl Clone for Error {
    fn clone(&self) -> (r: Self)
        ensures
            r@ == self@,
    {
        Error { kind: self.kind, locus: self.locus.clone(), detail: self.detail.clone() }
    }
}

/// How an [`Error`] reads: its place, then what is wrong.
pub open spec fn error_text(e: ErrorView) -> Seq<char> {
    let place = e.locus.path + (match e.locus.segment {
        Some(s) => " segment "@ + s,
        None => Seq::empty(),
    }) + (match e.locus.subject {
        Some(s) => " subject "@ + s,
        None => Seq::empty(),
    }) + (match e.locus.predicate {
        Some(s) => " property "@ + s,
        None => Seq::empty(),
    }) + (match e.locus.byte_offset {
        Some(n) => " offset "@ + text::decimal(n as nat),
        None => Seq::empty(),
    });
    place + ": "@ + e.detail
}

impl Error {
    /// The container contradicts itself at `locus`.
    pub fn malformed(locus: Locus, detail: String) -> (r: Self)
        ensures
            r@ == malformed(locus@, detail@),
    {
        Error { kind: ErrorKind::Malformed, locus, detail }
    }

    /// The container asks at `locus` for something this library lacks.
    pub fn unsupported(locus: Locus, detail: String) -> (r: Self)
        ensures
            r@ == unsupported(locus@, detail@),
    {
        Error { kind: ErrorKind::Unsupported, locus, detail }
    }

    /// The operating system refused something at `locus`.
    pub fn io(locus: Locus, detail: String) -> (r: Self)
        ensures
            r@ == io_failure(locus@, detail@),
    {
        Error { kind: ErrorKind::Io, locus, detail }
    }

    /// Whether this is a finding about the evidence, not about this run.
    pub fn is_integrity_finding(&self) -> (r: bool)
        ensures
            r == (self.kind == ErrorKind::Malformed),
    {
        match self.kind {
            ErrorKind::Malformed => true,
            ErrorKind::Unsupported => false,
            ErrorKind::Io => false,
        }
    }

    /// The place and what is wrong, in one line.
    pub fn to_string(&self) -> (r: String)
        ensures
            r@ == error_text(self@),
    {
        let mut place = self.locus.path.clone();
        place = with_label(place, " segment ", &self.locus.segment);
        place = with_label(place, " subject ", &self.locus.subject);
        place = with_label(place, " property ", &self.locus.predicate);
        place = match self.locus.byte_offset {
            Some(n) => text::cat2(
                place.as_str(),
                text::cat2(" offset ", text::dec(n).as_str()).as_str(),
            ),
            None => text::cat2(place.as_str(), ""),
        };
        proof {
            reveal_strlit("");
            assert(""@ == Seq::<char>::empty());
        }
        text::cat3(place.as_str(), ": ", self.detail.as_str())
    }
}

/// `place` followed by a label and a value, when there is a value.
fn with_label(place: String, label: &str, value: &Option<String>) -> (r: String)
    ensures
        r@ == place@ + (match optional_text(*value) {
            Some(s) => label@ + s,
            None => Seq::empty(),
        }),
{
    match value {
        Some(s) => text::cat2(place.as_str(), text::cat2(label, s.as_str()).as_str()),
        None => {
            proof {
                assert(place@ + Seq::<char>::empty() == place@);
            }
            place
        },
    }
}

/// A way in which a container departs from what a document says.
#[derive(Debug, Clone, Copy, PartialEq, Eq, Structural)]
pub enum DeviationKind {
    /// A number is written without its datatype.
    UntypedNumericLiteral,
    /// A datatype is spelled in another case than the standard's.
    NonstandardDatatype,
    /// A literal's datatype is not the one its property expects.
    UnexpectedDatatype,
    /// A map leaves a hole in the address space.
    MapGap,
    /// Two members of a volume have one name.
    DuplicateSegmentName,
    /// A name ends in a range of bytes.
    ByteRangeArn,
    /// The archive's comment holds more than the volume's name.
    NulPaddedComment,
    /// The archive's comment and the description name different volumes.
    InconsistentVolumeArn,
    /// A volume holds an object that it does not list.
    UndeclaredObject,
    /// A digest is not as long as its algorithm's are.
    DigestLengthMismatch,
    /// A map lacks a digest of one of its segments.
    MissingMapSegmentDigest,
    /// A stripe names a stream of a sibling volume.
    ExternalReference,
    /// The volumes of a set disagree on a stream.
    ConflictingStreamValue,
    /// A file stored as a member is not typed as one.
    MissingZipSegmentType,
    /// An object's name carries a path.
    NonGuidArn,
    /// A file's name and path are not recorded.
    MissingRecordedPath,
    /// A member's name escapes the scheme.
    EscapedV21MemberName,
    /// An object's name has an upper-case GUID.
    UppercaseGuidArn,
    /// A term stands in the wrong namespace.
    WrongTermNamespace,
    /// A clean name has a raw form.
    RedundantRawName,
    /// An unclean name has no raw form.
    MissingRawName,
    /// A raw name cannot be decoded.
    MalformedRawName,
    /// A raw name and its display form differ.
    ContradictoryRawName,
    /// A display name is escaped in lower case.
    LowercaseNameEscape,
    /// A stream names no storage form.
    UndeclaredStorageForm,
    /// A stream names more than one storage form.
    AmbiguousStorageForm,
    /// A member is compressed by another method than the two allowed.
    DisallowedSegmentCompression,
    /// A member holds a stream that is too long for one.
    OversizedSegmentStream,
    /// A stream held as a member has no digest.
    MissingSegmentDigest,
    /// The metadata holds a stream that is too long for it.
    OversizedMetadataStream,
    /// A part of a set is not named like one.
    UnconventionalPartName,
    /// The metadata has no digest beside it.
    MissingMetadataHash,
    /// The metadata's digest uses too weak an algorithm.
    WeakMetadataHash,
    /// A subject is named by its content.
    ContentAddressedSubject,
    /// A name is used that nothing describes.
    DanglingReference,
}

} // verus!
