//! Where an acquisition stores what it acquires.

use vstd::prelude::*;

use crate::error::{ErrorView, LocusView};
use crate::lexicon::{standard_iri, standard_namespace};
use crate::model::HashAlgorithm;
use crate::storage_form::{form_of, named_forms, StorageForm};
use crate::verify::container::{declares, local_name};
use crate::write::logical::names::LogicalProfile;
use crate::write::segment_compression::SegmentCodec;
use crate::write::stream_writer::{default_options, StreamOptions};

verus! {

/// With the 2019 paper, a file up to this size is a ZIP segment.
pub const MAX_SEGMENT_RESIDENT_SIZE: u64 = 1048576;

/// The largest stream that is stored inside the metadata.
pub const RESIDENT_DATA_THRESHOLD: u64 = 1024;

/// With v1.0-ALPHA, a file up to this size is a ZIP segment.
pub const ZIPSEGMENT_THRESHOLD: u64 = 16777216;

/// With v1.0-ALPHA, a larger file up to this size shares a stream.
pub const COMMONMAP_THRESHOLD: u64 = 268435456;

/// Whether a file of a size is a ZIP segment with the 2019 paper.
pub fn is_segment_resident(size: u64) -> (r: bool)
    ensures
        r == (size <= MAX_SEGMENT_RESIDENT_SIZE),
{
    size <= MAX_SEGMENT_RESIDENT_SIZE
}

/// Whether a stream is a file's own content or something beside it.
#[derive(Debug, Clone, Copy, PartialEq, Eq, Structural)]
pub enum StreamKind {
    /// A file's own content.
    Primary,
    /// An extended attribute or alternate data stream.
    Substream,
}

/// Where a stream of a kind and size is stored where nothing is forced.
pub open spec fn chosen(kind: StreamKind, size: u64, profile: LogicalProfile) -> StorageForm {
    if profile == LogicalProfile::Legacy {
        if size <= MAX_SEGMENT_RESIDENT_SIZE {
            StorageForm::ZipSegment
        } else {
            StorageForm::OwnImageStream
        }
    } else if kind == StreamKind::Substream {
        if size <= RESIDENT_DATA_THRESHOLD {
            StorageForm::InMetadata
        } else {
            StorageForm::ZipSegment
        }
    } else if size <= ZIPSEGMENT_THRESHOLD {
        StorageForm::ZipSegment
    } else if size <= COMMONMAP_THRESHOLD {
        StorageForm::SharedMap
    } else {
        StorageForm::OwnImageStream
    }
}

/// Where a stream is stored: as forced, but for a stream too large for the
/// metadata, and by kind, size and profile where nothing is forced.
pub open spec fn storage_for(
    kind: StreamKind,
    size: u64,
    profile: LogicalProfile,
    forced: Option<StorageForm>,
) -> StorageForm {
    match forced {
        Some(form) => if form == StorageForm::InMetadata && size > RESIDENT_DATA_THRESHOLD {
            StorageForm::ZipSegment
        } else {
            form
        },
        None => chosen(kind, size, profile),
    }
}

/// Where an acquisition stores a stream of a kind and size.
pub fn choose_storage(
    kind: StreamKind,
    size: u64,
    profile: LogicalProfile,
    forced: Option<StorageForm>,
) -> (r: StorageForm)
    ensures
        r == storage_for(kind, size, profile, forced),
{
    match forced {
        Some(form) => {
            return if form == StorageForm::InMetadata && size > RESIDENT_DATA_THRESHOLD {
                StorageForm::ZipSegment
            } else {
                form
            };
        },
        None => {},
    }
    if !profile.is_v1_alpha() {
        return if is_segment_resident(size) {
            StorageForm::ZipSegment
        } else {
            StorageForm::OwnImageStream
        };
    }
    if kind == StreamKind::Substream {
        return if size <= RESIDENT_DATA_THRESHOLD {
            StorageForm::InMetadata
        } else {
            StorageForm::ZipSegment
        };
    }
    if size <= ZIPSEGMENT_THRESHOLD {
        StorageForm::ZipSegment
    } else if size <= COMMONMAP_THRESHOLD {
        StorageForm::SharedMap
    } else {
        StorageForm::OwnImageStream
    }
}

/// The 2019 paper's profile uses only the two forms that the paper defines.
pub proof fn legacy_forms_are_two(kind: StreamKind, size: u64)
    ensures
        ({
            let form = storage_for(kind, size, LogicalProfile::Legacy, None);
            form == StorageForm::ZipSegment || form == StorageForm::OwnImageStream
        }),
{
}

/// A file's own content is never put inside the metadata unless that is asked for.
pub proof fn primary_streams_stay_out_of_metadata(size: u64, profile: LogicalProfile)
    ensures
        storage_for(StreamKind::Primary, size, profile, None) != StorageForm::InMetadata,
{
}

/// A file's form goes by its length alone, in either profile: in the legacy profile up to a
/// mebibyte is a member and more is a stream of its own; in the other a file of up to
/// sixteen mebibytes is a member, one of up to two hundred and fifty-six shares a stream,
/// a longer one has its own, and an attribute of up to a kibibyte stands in the metadata.
/// A form that is asked for is the one used, unless it is the metadata and there is too
/// much for it.
pub proof fn forms_go_by_length(
    kind: StreamKind,
    size: u64,
    profile: LogicalProfile,
    asked: StorageForm,
)
    ensures
        profile == LogicalProfile::Legacy ==> storage_for(kind, size, profile, None) == (if size
            <= 1024 * 1024 {
            StorageForm::ZipSegment
        } else {
            StorageForm::OwnImageStream
        }),
        profile == LogicalProfile::V1Alpha && kind == StreamKind::Primary ==> storage_for(
            kind,
            size,
            profile,
            None,
        ) == (if size <= 16 * 1024 * 1024 {
            StorageForm::ZipSegment
        } else if size <= 256 * 1024 * 1024 {
            StorageForm::SharedMap
        } else {
            StorageForm::OwnImageStream
        }),
        profile == LogicalProfile::V1Alpha && kind == StreamKind::Substream ==> storage_for(
            kind,
            size,
            profile,
            None,
        ) == (if size <= 1024 {
            StorageForm::InMetadata
        } else {
            StorageForm::ZipSegment
        }),
        storage_for(kind, size, profile, Some(asked)) == (if asked == StorageForm::InMetadata
            && size > 1024 {
            StorageForm::ZipSegment
        } else {
            asked
        }),
{
}

/// Nothing larger than the ceiling is put inside the metadata, whatever is asked
/// for.
pub proof fn metadata_holds_little(
    kind: StreamKind,
    size: u64,
    profile: LogicalProfile,
    forced: Option<StorageForm>,
)
    requires
        storage_for(kind, size, profile, forced) == StorageForm::InMetadata,
    ensures
        size <= RESIDENT_DATA_THRESHOLD,
{
}

/// The class that a stored file of a form is given, beside those of every file.
pub open spec fn form_class(form: StorageForm, profile: LogicalProfile) -> Seq<Seq<char>> {
    match form {
        StorageForm::ZipSegment => if profile == LogicalProfile::V1Alpha {
            seq!["ZipSegment"@]
        } else {
            seq!["zip_segment"@]
        },
        StorageForm::SharedMap | StorageForm::OwnMap => seq!["Map"@],
        StorageForm::OwnImageStream => seq!["ImageStream"@],
        StorageForm::InMetadata => Seq::empty(),
    }
}

/// The types of a stored file of a form.
pub open spec fn form_types(form: StorageForm, profile: LogicalProfile) -> Seq<Seq<char>> {
    let class = form_class(form, profile);
    let all = seq!["FileImage"@, "Image"@] + class;
    Seq::new(all.len(), |i: int| standard_iri(all[i]))
}

/// What follows a namespace is the local name.
proof fn local_name_follows(namespace: Seq<char>, local: Seq<char>)
    requires
        namespace.len() > 0,
        namespace.last() == '#',
        forall|i: int| 0 <= i < local.len() ==> (#[trigger] local[i]) != '#' && local[i] != '/',
    ensures
        local_name(namespace + local) == local,
    decreases local.len(),
{
    let whole = namespace + local;
    if local.len() == 0 {
        assert(whole =~= namespace);
    } else {
        let front = local.drop_last();
        assert forall|i: int| 0 <= i < front.len() implies (#[trigger] front[i]) != '#' && front[i]
            != '/' by {
            assert(front[i] == local[i]);
        }
        local_name_follows(namespace, front);
        assert(whole.drop_last() =~= namespace + front);
        assert(whole.last() == local.last());
        assert(front.push(local.last()) =~= local);
    }
}

/// The local name of an IRI of the standard's namespace is its local name.
proof fn standard_local_name(local: Seq<char>)
    requires
        forall|i: int| 0 <= i < local.len() ==> (#[trigger] local[i]) != '#' && local[i] != '/',
    ensures
        local_name(standard_iri(local)) == local,
{
    reveal_strlit("http://aff4.org/Schema#");
    local_name_follows(standard_namespace(), local);
}

/// The local names of the types of a stored file.
proof fn type_names(form: StorageForm, profile: LogicalProfile)
    ensures
        ({
            let types = form_types(form, profile);
            &&& local_name(types[0]) == "FileImage"@
            &&& local_name(types[1]) == "Image"@
            &&& form != StorageForm::InMetadata ==> types.len() == 3 && local_name(types[2])
                == form_class(form, profile)[0]
            &&& form == StorageForm::InMetadata ==> types.len() == 2
        }),
{
    reveal_strlit("FileImage");
    reveal_strlit("Image");
    reveal_strlit("ZipSegment");
    reveal_strlit("zip_segment");
    reveal_strlit("Map");
    reveal_strlit("ImageStream");
    standard_local_name("FileImage"@);
    standard_local_name("Image"@);
    standard_local_name("ZipSegment"@);
    standard_local_name("zip_segment"@);
    standard_local_name("Map"@);
    standard_local_name("ImageStream"@);
}

/// The reader names the form that the writer chose, in every profile, for every
/// kind and size. A map over a stream of one's own reads as a map.
pub proof fn reader_names_what_the_writer_writes(
    form: StorageForm,
    profile: LogicalProfile,
    locus: LocusView,
)
    ensures
        form_of(
            form_types(form, profile),
            form == StorageForm::InMetadata,
            false,
            locus,
        ) == Ok::<StorageForm, ErrorView>(
            if form == StorageForm::OwnMap {
                StorageForm::SharedMap
            } else {
                form
            },
        ),
{
    let types = form_types(form, profile);
    type_names(form, profile);
    reveal_strlit("FileImage");
    reveal_strlit("Image");
    reveal_strlit("ZipSegment");
    reveal_strlit("zip_segment");
    reveal_strlit("Map");
    reveal_strlit("ImageStream");
    assert("FileImage"@.len() == 9 && "Image"@.len() == 5 && "ZipSegment"@.len() == 10
        && "zip_segment"@.len() == 11 && "Map"@.len() == 3 && "ImageStream"@.len() == 11);
    assert("zip_segment"@[0] == 'z' && "ImageStream"@[0] == 'I');
    if form != StorageForm::InMetadata {
        let class = form_class(form, profile)[0];
        assert(local_name(types[2]) == class);
        assert(declares(types, class));
        assert forall|name: Seq<char>|
            name != class && name != "FileImage"@ && name != "Image"@ implies !#[trigger] declares(
            types,
            name,
        ) by {
            if declares(types, name) {
                let i = choose|i: int| 0 <= i < types.len() && local_name(#[trigger] types[i]) == name;
                assert(i == 0 || i == 1 || i == 2);
            }
        }
    } else {
        assert forall|name: Seq<char>|
            name != "FileImage"@ && name != "Image"@ implies !#[trigger] declares(types, name) by {
            if declares(types, name) {
                let i = choose|i: int| 0 <= i < types.len() && local_name(#[trigger] types[i]) == name;
                assert(i == 0 || i == 1);
            }
        }
    }
    assert(named_forms(types, form == StorageForm::InMetadata).len() == 1);
}

/// How a logical acquisition stores what it acquires.
#[derive(Debug)]
pub struct LogicalOptions {
    /// Chunking and compression for files stored as streams.
    pub stream: StreamOptions,
    /// Whether identical chunks are stored once. One damaged chunk then harms every
    /// file that shares it.
    pub deduplicate: bool,
    /// Which format to write.
    pub profile: LogicalProfile,
    /// Which digests to record of each file; an empty list means the usual ones.
    pub algorithms: Vec<HashAlgorithm>,
    /// A form to force every file's content into, whatever its size.
    pub storage_form: Option<StorageForm>,
    /// Whether ZIP segments are compressed, where that is forced.
    pub segment_codec: Option<SegmentCodec>,
    /// Whether a file reaches its map instead of being it.
    pub datastream_indirect: bool,
    /// Whether the namespace that v1.0-ALPHA introduces is written with `https`.
    pub namespace_https: bool,
}

/// What [`LogicalOptions`] say, as plain values.
#[verifier::ext_equal]
pub struct OptionsView {
    /// Chunking and compression for files stored as streams.
    pub stream: StreamOptions,
    /// Whether identical chunks are stored once.
    pub deduplicate: bool,
    /// Which format to write.
    pub profile: LogicalProfile,
    /// Which digests to record of each file; empty means the usual ones.
    pub algorithms: Seq<HashAlgorithm>,
    /// A form to force.
    pub storage_form: Option<StorageForm>,
    /// Whether ZIP segments are compressed, where that is forced.
    pub segment_codec: Option<SegmentCodec>,
    /// Whether a file reaches its map instead of being it.
    pub datastream_indirect: bool,
    /// Whether the namespace is written with `https`.
    pub namespace_https: bool,
}

impl View for LogicalOptions {
    type V = OptionsView;

    open spec fn view(&self) -> OptionsView {
        OptionsView {
            stream: self.stream,
            deduplicate: self.deduplicate,
            profile: self.profile,
            algorithms: self.algorithms@,
            storage_form: self.storage_form,
            segment_codec: self.segment_codec,
            datastream_indirect: self.datastream_indirect,
            namespace_https: self.namespace_https,
        }
    }
}

/// The digests recorded where none are asked for.
pub open spec fn usual_algorithms() -> Seq<HashAlgorithm> {
    seq![HashAlgorithm::Sha1, HashAlgorithm::Md5]
}

impl OptionsView {
    /// The digests to record: no list means the usual ones, never none, since a
    /// container without digests could not be verified.
    pub open spec fn recorded_algorithms(self) -> Seq<HashAlgorithm> {
        if self.algorithms.len() == 0 {
            usual_algorithms()
        } else {
            self.algorithms
        }
    }
}

impl Default for LogicalOptions {
    fn default() -> (r: Self)
        ensures
            r@ == (OptionsView {
                stream: default_options(),
                deduplicate: false,
                profile: LogicalProfile::Legacy,
                algorithms: Seq::empty(),
                storage_form: None,
                segment_codec: None,
                datastream_indirect: false,
                namespace_https: false,
            }),
    {
        let algorithms: Vec<HashAlgorithm> = Vec::new();
        proof {
            assert(algorithms@ =~= Seq::<HashAlgorithm>::empty());
        }
        LogicalOptions {
            stream: StreamOptions::default(),
            deduplicate: false,
            profile: LogicalProfile::Legacy,
            algorithms,
            storage_form: None,
            segment_codec: None,
            datastream_indirect: false,
            namespace_https: false,
        }
    }
}

impl LogicalOptions {
    /// The digests to record of each file.
    pub fn algorithms(&self) -> (r: Vec<HashAlgorithm>)
        ensures
            r@ == self@.recorded_algorithms(),
            r@.len() > 0,
    {
        if self.algorithms.len() == 0 {
            let r = vec![HashAlgorithm::Sha1, HashAlgorithm::Md5];
            proof {
                assert(r@ =~= usual_algorithms());
            }
            r
        } else {
            let mut r: Vec<HashAlgorithm> = Vec::new();
            let mut i: usize = 0;
            while i < self.algorithms.len()
                invariant
                    i <= self.algorithms.len(),
                    r@ == self.algorithms@.take(i as int),
                decreases self.algorithms.len() - i,
            {
                r.push(self.algorithms[i]);
                proof {
                    assert(self.algorithms@.take(i + 1) =~= self.algorithms@.take(i as int).push(
                        self.algorithms@[i as int],
                    ));
                }
                i = i + 1;
            }
            proof {
                assert(self.algorithms@.take(i as int) =~= self.algorithms@);
            }
            r
        }
    }
}

} // verus!
