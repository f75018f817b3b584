//! The vocabularies that AFF4 documents define.

use vstd::prelude::*;

use crate::rules::Document;
use crate::text;

verus! {

/// The namespace of the AFF4 Standard.
pub open spec fn standard_namespace() -> Seq<char> {
    "http://aff4.org/Schema#"@
}

/// The IRI of a term of the AFF4 Standard.
pub open spec fn standard_iri(local: Seq<char>) -> Seq<char> {
    standard_namespace() + local
}

/// The IRI of a term of the AFF4 Standard.
pub fn iri(local: &str) -> (r: String)
    ensures
        r@ == standard_iri(local@),
{
    text::cat2("http://aff4.org/Schema#", local)
}

/// The datatype of whole numbers.
pub const XSD_LONG: &'static str = "http://www.w3.org/2001/XMLSchema#long";

/// The datatype of texts.
pub const XSD_STRING: &'static str = "http://www.w3.org/2001/XMLSchema#string";

/// The datatype of moments.
pub const XSD_DATE_TIME: &'static str = "http://www.w3.org/2001/XMLSchema#dateTime";

/// The datatype of bytes in base64.
pub const XSD_BASE64_BINARY: &'static str = "http://www.w3.org/2001/XMLSchema#base64Binary";

/// The namespace of the terms that AFF4-L 1.0 introduces, as its examples spell
/// it.
pub const AFF4L_NAMESPACE: &'static str = "http://aff4.org/Schema/AFF4-L#";

/// The namespace of the terms that AFF4-L 1.0 introduces, as its prose spells it.
pub const AFF4L_NAMESPACE_HTTPS: &'static str = "https://aff4.org/Schema/AFF4-L#";

/// Whether AFF4-L 1.0 introduces a term, rather than restating one.
pub open spec fn introduced(local: Seq<char>) -> bool {
    local == "pathSeparator"@ || local == "FileExtendedAttribute"@ || local
        == "extendedAttribute"@ || local == "name"@ || local == "dataStream"@
}

/// The IRI of a term as AFF4-L 1.0 assigns it: a term it introduces belongs to its
/// own namespace, and one it restates keeps the namespace it had.
pub open spec fn aff4l_iri(local: Seq<char>, https: bool) -> Seq<char> {
    (if !introduced(local) {
        standard_namespace()
    } else if https {
        AFF4L_NAMESPACE_HTTPS@
    } else {
        AFF4L_NAMESPACE@
    }) + local
}

/// The namespace that AFF4-L 1.0 puts a term in.
pub fn namespace_for(local: &str, https: bool) -> (r: &'static str)
    ensures
        r@ + local@ == aff4l_iri(local@, https),
{
    if text::same(local, "pathSeparator") || text::same(local, "FileExtendedAttribute")
        || text::same(local, "extendedAttribute") || text::same(local, "name") || text::same(
        local,
        "dataStream",
    ) {
        if https {
            AFF4L_NAMESPACE_HTTPS
        } else {
            AFF4L_NAMESPACE
        }
    } else {
        "http://aff4.org/Schema#"
    }
}

/// The local names a generation of containers gives the properties read here.
#[derive(Debug, Clone, Copy)]
pub struct Lexicon {
    /// The namespace the local names belong to.
    pub namespace: &'static str,
    /// A resource's length in bytes.
    pub size: &'static str,
    /// A stream's chunk length.
    pub chunk_size: &'static str,
    /// A stream's chunks per bevy.
    pub chunks_in_segment: &'static str,
    /// A stream's codec.
    pub compression_method: &'static str,
}

impl Lexicon {
    /// The IRI of one of this generation's terms.
    pub open spec fn iri_of(self, local: Seq<char>) -> Seq<char> {
        self.namespace@ + local
    }

    /// The vocabulary of the AFF4 Standard.
    pub fn standard() -> (r: Lexicon)
        ensures
            r.namespace@ == standard_namespace(),
            r.size@ == "size"@,
            r.chunk_size@ == "chunkSize"@,
            r.chunks_in_segment@ == "chunksInSegment"@,
            r.compression_method@ == "compressionMethod"@,
    {
        Lexicon {
            namespace: "http://aff4.org/Schema#",
            size: "size",
            chunk_size: "chunkSize",
            chunks_in_segment: "chunksInSegment",
            compression_method: "compressionMethod",
        }
    }

    /// The IRI of one of this generation's terms.
    pub fn iri(&self, local: &str) -> (r: String)
        ensures
            r@ == self.iri_of(local@),
    {
        text::cat2(self.namespace, local)
    }
}

/// The generation of the format that a container belongs to.
#[derive(Debug, Clone, Copy, PartialEq, Eq, Structural)]
pub enum Generation {
    /// AFF4 Standard v1.0.
    Standard10,
    /// Logical containers as of 2019.
    PyAff4Logical,
    /// AFF4-L Standard v1.0.
    Aff4L10,
}

impl Generation {
    /// The documents that govern a container: the base, and what is layered over
    /// it.
    pub open spec fn documents(self) -> (Document, Option<Document>) {
        match self {
            Generation::Standard10 => (Document::Aff4Standard10a, None),
            Generation::PyAff4Logical => (
                Document::Aff4Standard10a,
                Some(Document::Aff4LPaper2019),
            ),
            Generation::Aff4L10 => (
                Document::Aff4Standard10a,
                Some(Document::Aff4LStandard10Alpha),
            ),
        }
    }

    /// The documents that govern a container: the base, and what is layered over
    /// it.
    pub fn governing_spec(self) -> (r: (Document, Option<Document>))
        ensures
            r == self.documents(),
    {
        match self {
            Generation::Standard10 => (Document::Aff4Standard10a, None),
            Generation::PyAff4Logical => (
                Document::Aff4Standard10a,
                Some(Document::Aff4LPaper2019),
            ),
            Generation::Aff4L10 => (
                Document::Aff4Standard10a,
                Some(Document::Aff4LStandard10Alpha),
            ),
        }
    }
}

} // verus!
