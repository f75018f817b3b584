//! Where a logical stream's bytes are stored.
//!
//! Dispatch is strict: a subject that names no form, or more than one, is
//! malformed.

use vstd::prelude::*;

use crate::error::{malformed, Error, ErrorView, Locus, LocusView};
use crate::text;
use crate::verify::container::{declares, local_name, local_part};

verus! {

/// One of the storage forms of AFF4-L v1.0-ALPHA section 6.
#[derive(Debug, Clone, Copy, PartialEq, Eq, Structural)]
pub enum StorageForm {
    /// Base64 inside `information.turtle`.
    InMetadata,
    /// One ZIP member named by the resource's name.
    ZipSegment,
    /// A map addressing an image stream that files share.
    SharedMap,
    /// A map addressing an image stream that this subject alone uses.
    OwnMap,
    /// The subject's own image stream.
    OwnImageStream,
}

impl StorageForm {
    /// The form's name.
    pub open spec fn name(self) -> Seq<char> {
        match self {
            StorageForm::InMetadata => "in-metadata"@,
            StorageForm::ZipSegment => "ZIP segment"@,
            StorageForm::SharedMap => "map"@,
            StorageForm::OwnMap => "own map"@,
            StorageForm::OwnImageStream => "image stream"@,
        }
    }

    /// The form's name, for reports and error messages.
    pub fn label(self) -> (r: &'static str)
        ensures
            r@ == self.name(),
    {
        match self {
            StorageForm::InMetadata => "in-metadata",
            StorageForm::ZipSegment => "ZIP segment",
            StorageForm::SharedMap => "map",
            StorageForm::OwnMap => "own map",
            StorageForm::OwnImageStream => "image stream",
        }
    }
}

/// A form, where something holds.
pub open spec fn form_if(holds: bool, form: StorageForm) -> Seq<StorageForm> {
    if holds {
        seq![form]
    } else {
        Seq::empty()
    }
}

/// The forms that a subject's types name, and that a literal on it does.
pub open spec fn named_forms(types: Seq<Seq<char>>, literal: bool) -> Seq<StorageForm> {
    form_if(
        declares(types, "ZipSegment"@) || declares(types, "zip_segment"@),
        StorageForm::ZipSegment,
    ) + form_if(declares(types, "Map"@), StorageForm::SharedMap) + form_if(
        declares(types, "ImageStream"@),
        StorageForm::OwnImageStream,
    ) + form_if(literal, StorageForm::InMetadata)
}

/// The forms that a subject names: a reference to a stream counts only where
/// nothing else names a form.
pub open spec fn forms_of(types: Seq<Seq<char>>, literal: bool, reference: bool) -> Seq<
    StorageForm,
> {
    let named = named_forms(types, literal);
    if reference && named.len() == 0 {
        seq![StorageForm::SharedMap]
    } else {
        named
    }
}

/// The names of forms.
pub open spec fn form_names(forms: Seq<StorageForm>) -> Seq<Seq<char>> {
    Seq::new(forms.len(), |i: int| forms[i].name())
}

/// The one form that a subject names, or the fault of one that names none or
/// several.
pub open spec fn form_of(
    types: Seq<Seq<char>>,
    literal: bool,
    reference: bool,
    locus: LocusView,
) -> Result<StorageForm, ErrorView> {
    let forms = forms_of(types, literal, reference);
    if forms.len() == 1 {
        Ok(forms[0])
    } else if forms.len() == 0 {
        Err(
            malformed(
                locus,
                "the rdf:type list names none of the storage forms AFF4-L v1.0-ALPHA §6 defines, and no aff4l:dataStream literal carries the bytes, so where this stream is stored is unstated"@,
            ),
        )
    } else {
        Err(
            malformed(
                locus,
                "the rdf:type list names "@ + text::joined(form_names(forms), " and "@)
                    + ", so where this stream is stored is ambiguous; AFF4-L v1.0-ALPHA §6 gives one form per stream"@,
            ),
        )
    }
}

/// Whether a type's IRI has the given local name.
fn names_type(iri: &str, local: &str) -> (r: bool)
    ensures
        r == (local_name(iri@) == local@),
{
    text::same(local_part(iri).as_str(), local)
}

/// Whether a list of types holds one of the given local name.
fn declares_among(types: &[String], name: &str) -> (r: bool)
    ensures
        r == declares(text::texts(types@), name@),
{
    let ghost all = text::texts(types@);
    let mut i: usize = 0;
    while i < types.len()
        invariant
            i <= types.len(),
            all == text::texts(types@),
            forall|k: int| 0 <= k < i ==> local_name(#[trigger] all[k]) != name@,
        decreases types.len() - i,
    {
        if names_type(types[i].as_str(), name) {
            proof {
                assert(local_name(all[i as int]) == name@);
            }
            return true;
        }
        i = i + 1;
    }
    false
}

/// Which storage form a subject's types name.
///
/// `has_resident_literal` says that the subject carries its bytes as a literal,
/// which no type names.
pub fn storage_form_of(types: &[String], has_resident_literal: bool, locus: &Locus) -> (r: Result<
    StorageForm,
    Error,
>)
    ensures
        (match r {
            Ok(f) => form_of(text::texts(types@), has_resident_literal, false, locus@) == Ok::<
                StorageForm,
                ErrorView,
            >(f),
            Err(e) => form_of(text::texts(types@), has_resident_literal, false, locus@) == Err::<
                StorageForm,
                ErrorView,
            >(e@),
        }),
{
    storage_form_of_with_reference(types, has_resident_literal, false, locus)
}

/// Which storage form a subject names, by its types, by a literal, or by a
/// reference to a stream: a separate map then holds the bytes.
pub fn storage_form_of_with_reference(
    types: &[String],
    has_resident_literal: bool,
    has_stream_reference: bool,
    locus: &Locus,
) -> (r: Result<StorageForm, Error>)
    ensures
        (match r {
            Ok(f) => form_of(
                text::texts(types@),
                has_resident_literal,
                has_stream_reference,
                locus@,
            ) == Ok::<StorageForm, ErrorView>(f),
            Err(e) => form_of(
                text::texts(types@),
                has_resident_literal,
                has_stream_reference,
                locus@,
            ) == Err::<StorageForm, ErrorView>(e@),
        }),
{
    let ghost all = text::texts(types@);
    let mut found: Vec<StorageForm> = Vec::new();
    if declares_among(types, "ZipSegment") || declares_among(types, "zip_segment") {
        found.push(StorageForm::ZipSegment);
    }
    if declares_among(types, "Map") {
        found.push(StorageForm::SharedMap);
    }
    if declares_among(types, "ImageStream") {
        found.push(StorageForm::OwnImageStream);
    }
    if has_resident_literal {
        found.push(StorageForm::InMetadata);
    }
    proof {
        assert(found@ =~= named_forms(all, has_resident_literal));
    }
    if has_stream_reference && found.len() == 0 {
        found.push(StorageForm::SharedMap);
    }
    proof {
        assert(found@ =~= forms_of(all, has_resident_literal, has_stream_reference));
    }
    if found.len() == 1 {
        return Ok(found[0]);
    }
    if found.len() == 0 {
        return Err(
            Error::malformed(
                locus.clone(),
                text::owned(
                    "the rdf:type list names none of the storage forms AFF4-L v1.0-ALPHA §6 defines, and no aff4l:dataStream literal carries the bytes, so where this stream is stored is unstated",
                ),
            ),
        );
    }
    let mut labels: Vec<String> = Vec::new();
    let mut i: usize = 0;
    while i < found.len()
        invariant
            i <= found.len(),
            text::texts(labels@) == form_names(found@).take(i as int),
        decreases found.len() - i,
    {
        let ghost before = labels@;
        labels.push(text::owned(found[i].label()));
        proof {
            assert(text::texts(labels@) =~= text::texts(before).push(found@[i as int].name()));
            assert(form_names(found@).take(i + 1) =~= form_names(found@).take(i as int).push(
                found@[i as int].name(),
            ));
        }
        i = i + 1;
    }
    proof {
        assert(form_names(found@).take(i as int) =~= form_names(found@));
    }
    let list = text::join(&labels, " and ");
    Err(
        Error::malformed(
            locus.clone(),
            text::cat3(
                "the rdf:type list names ",
                list.as_str(),
                ", so where this stream is stored is ambiguous; AFF4-L v1.0-ALPHA §6 gives one form per stream",
            ),
        ),
    )
}

/// A map over a stream of one's own and one over a shared stream read alike: no
/// subject is read as [`StorageForm::OwnMap`].
pub proof fn own_maps_read_as_maps(
    types: Seq<Seq<char>>,
    literal: bool,
    reference: bool,
    locus: LocusView,
)
    ensures
        form_of(types, literal, reference, locus) != Ok::<StorageForm, ErrorView>(
            StorageForm::OwnMap,
        ),
{
    let forms = forms_of(types, literal, reference);
    if forms.len() == 1 {
        assert(forms[0] != StorageForm::OwnMap);
    }
}

/// A subject typed as a map that also refers to a stream states one thing twice:
/// the reference changes nothing.
pub proof fn reference_beside_a_form_is_not_counted(
    types: Seq<Seq<char>>,
    literal: bool,
    locus: LocusView,
)
    requires
        named_forms(types, literal).len() > 0,
    ensures
        form_of(types, literal, true, locus) == form_of(types, literal, false, locus),
{
}

} // verus!
