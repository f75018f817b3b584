use aff4tools::arn::{unescape, Arn, NameMapping};
use aff4tools::error::Locus;
use aff4tools::storage_form::{storage_form_of, StorageForm};
use aff4tools::write::container_writer::{ContainerWriter, VersionProfile};
use aff4tools::write::guard::SourceRegistry;
use aff4tools::write::logical::acquire::{
    acquire_from_items, acquire_logical, AcquisitionObserver, Entry, NoAccounts,
};
use aff4tools::write::logical::names::{
    arn_for_entry, arn_for_path, arn_path_fragment, original_file_name, segment_name_for_arn, EntryPath,
    LogicalProfile,
};
use aff4tools::write::logical::record::{
    EntryFacts, LogicalAcquisition, SharedStorage,
};
use aff4tools::write::logical::stamps::{explain_io_error, format_rfc3339_utc, FsMetadata};
use aff4tools::write::logical::storage::{
    choose_storage, is_segment_resident, LogicalOptions, StreamKind, COMMONMAP_THRESHOLD,
    MAX_SEGMENT_RESIDENT_SIZE, RESIDENT_DATA_THRESHOLD, ZIPSEGMENT_THRESHOLD,
};
use aff4tools::write::scan::ScanItem;

fn owned(list: &[&str]) -> Vec<String> {
    list.iter().map(|s| (*s).to_owned()).collect()
}

fn facts(content: Result<&[u8], &str>) -> EntryFacts {
    EntryFacts {
        stamps: FsMetadata::default(),
        attributes: Vec::new(),
        content: match content {
            Ok(data) => Ok(data.to_vec()),
            Err(e) => Err(e.to_owned()),
        },
    }
}

fn dir_entry(path: &str) -> Entry {
    Entry {
        item: ScanItem::Dir {
            path: EntryPath::from_text(path),
        },
        facts: facts(Ok(b"")),
    }
}

fn file_entry(path: &str, size: u64, content: Result<&[u8], &str>) -> Entry {
    Entry {
        item: ScanItem::File {
            path: EntryPath::from_text(path),
            size,
        },
        facts: facts(content),
    }
}

fn end_entry() -> Entry {
    Entry {
        item: ScanItem::DirEnd,
        facts: facts(Ok(b"")),
    }
}

/// The metadata of a finished container.
fn container_turtle(writer: ContainerWriter) -> String {
    let finished = writer.finish();
    let metadata = finished.members.last().unwrap();
    assert_eq!(metadata.name, "information.turtle");
    String::from_utf8(metadata.data.clone()).unwrap()
}

const VOLUME: &str = "aff4://e6bae91b-14d231833e18";

// --- storage selection (AFF4-L v1.0-ALPHA §6) --------------------------

/// The AFF4-L 2019 §3.3 split, unchanged. The legacy profile's output is
/// frozen: the byte-identical corpus gate only means something while this
/// stays true.
#[test]
fn legacy_splits_at_one_mebibyte_and_uses_two_forms() {
    let p = LogicalProfile::Legacy;
    assert_eq!(
        choose_storage(StreamKind::Primary, 1024, p, None),
        StorageForm::ZipSegment
    );
    assert_eq!(
        choose_storage(StreamKind::Primary, MAX_SEGMENT_RESIDENT_SIZE, p, None),
        StorageForm::ZipSegment
    );
    assert_eq!(
        choose_storage(StreamKind::Primary, MAX_SEGMENT_RESIDENT_SIZE + 1, p, None),
        StorageForm::OwnImageStream
    );
}

/// Legacy never reaches a form the AFF4-L 2019 paper does not define,
/// whatever the size or kind.
#[test]
fn legacy_never_uses_the_forms_its_document_does_not_define() {
    let p = LogicalProfile::Legacy;
    for kind in [StreamKind::Primary, StreamKind::Substream] {
        for size in [0, 1, 100, 5000, 1 << 20, 1 << 30, u64::MAX] {
            let form = choose_storage(kind, size, p, None);
            assert!(
                matches!(form, StorageForm::ZipSegment | StorageForm::OwnImageStream),
                "legacy chose {form:?} for {kind:?} at {size}"
            );
        }
    }
}

/// The v2.1 primary bands, at each boundary and just past it.
///
/// Each boundary is asserted twice, at the threshold and one byte past it,
/// because an off-by-one here silently moves files into a different storage
/// form and nothing else would catch it.
#[test]
fn v1_alpha_walks_the_primary_bands_in_order() {
    let p = LogicalProfile::V1Alpha;
    let at = |size| choose_storage(StreamKind::Primary, size, p, None);

    assert_eq!(at(0), StorageForm::ZipSegment);
    assert_eq!(at(ZIPSEGMENT_THRESHOLD), StorageForm::ZipSegment);
    assert_eq!(at(ZIPSEGMENT_THRESHOLD + 1), StorageForm::SharedMap);
    assert_eq!(at(COMMONMAP_THRESHOLD), StorageForm::SharedMap);
    assert_eq!(at(COMMONMAP_THRESHOLD + 1), StorageForm::OwnImageStream);
}

/// A primary stream is never stored in the metadata, however small. The
/// study measured no size at which the form pays for a file's own content.
#[test]
fn a_primary_stream_is_never_stored_in_the_metadata() {
    let p = LogicalProfile::V1Alpha;
    for size in [0, 1, 11, 64, 512, RESIDENT_DATA_THRESHOLD, 4096] {
        assert_ne!(
            choose_storage(StreamKind::Primary, size, p, None),
            StorageForm::InMetadata,
            "a primary stream of {size} bytes went in the metadata"
        );
    }
}

/// D1: kind decides before size does. A substream goes in the metadata at
/// any size the AFF4-L v1.0-ALPHA §6.2 ceiling admits.
#[test]
fn a_substream_goes_in_the_metadata_up_to_the_ceiling() {
    let p = LogicalProfile::V1Alpha;
    for size in [0, 1, 11, 512, RESIDENT_DATA_THRESHOLD] {
        assert_eq!(
            choose_storage(StreamKind::Substream, size, p, None),
            StorageForm::InMetadata,
            "a substream of {size} bytes should be resident"
        );
    }
}

/// AFF4-L v1.0-ALPHA §6.2's MUST NOT binds this writer's own output, so an
/// attribute above the ceiling falls back rather than being written in a
/// form the standard forbids. The macOS survey found 992 such attributes,
/// the largest at 6.4 MB, so this path is real.
#[test]
fn an_oversized_substream_falls_back_to_a_segment() {
    let p = LogicalProfile::V1Alpha;
    for size in [RESIDENT_DATA_THRESHOLD + 1, 4096, 6_399_981] {
        assert_eq!(
            choose_storage(StreamKind::Substream, size, p, None),
            StorageForm::ZipSegment,
            "a substream of {size} bytes exceeds the ceiling"
        );
    }
}

/// Every form the writer can emit is one the reader can name. The two
/// functions are mirrors, and a form appearing on one side only would be a
/// container this project writes and cannot read.
#[test]
fn every_form_the_writer_chooses_is_one_the_reader_names() {
    let locus = Locus::new("/evidence/case.aff4");
    for profile in [LogicalProfile::Legacy, LogicalProfile::V1Alpha] {
        for kind in [StreamKind::Primary, StreamKind::Substream] {
            for size in [0, 1024, 1 << 20, 1 << 25, 1 << 30] {
                let chosen = choose_storage(kind, size, profile, None);
                let (types, resident): (Vec<&str>, bool) = match chosen {
                    StorageForm::ZipSegment => (vec!["FileImage", "ZipSegment"], false),
                    StorageForm::InMetadata => (vec!["FileImage"], true),
                    StorageForm::SharedMap => (vec!["FileImage", "Map"], false),
                    StorageForm::OwnImageStream => (vec!["FileImage", "ImageStream"], false),
                    // Unreachable with no override: `OwnMap` is only ever
                    // returned for a forced form, and `forced` is `None`
                    // throughout this loop. It is also the one form that
                    // cannot round-trip to itself — the reader reports
                    // `SharedMap` for either AFF4-L v1.0-ALPHA §6.3 shape,
                    // because the two
                    // carry identical types and properties — so asserting
                    // the mirror on it would assert something the reader
                    // deliberately does not do.
                    StorageForm::OwnMap => {
                        unreachable!("choose_storage returns OwnMap only when it is forced")
                    }
                };
                assert_eq!(
                    storage_form_of(&owned(&types), resident, &locus).unwrap(),
                    chosen,
                    "{chosen:?} for {kind:?} at {size} under {profile:?}"
                );
            }
        }
    }
}

/// **Table 1 of the paper.** These are the specification's own worked
/// examples, so they are the closest thing to an external oracle this
/// encoding has.
#[test]
fn table_1_path_to_arn_vectors() {
    let cases = [
        ("c:", "aff4://e6bae91b-14d231833e18//c:"),
        ("c:\\", "aff4://e6bae91b-14d231833e18//c:/"),
        ("c:\\foo", "aff4://e6bae91b-14d231833e18//c:/foo"),
        (r"\\bar\c$", "aff4://e6bae91b-14d231833e18/bar/c$"),
        (
            "\\\\bar\\c$\\foo\\ネコ.txt",
            "aff4://e6bae91b-14d231833e18/bar/c$/foo/ネコ.txt",
        ),
        ("/foo/bar", "aff4://e6bae91b-14d231833e18//foo/bar"),
        (
            "/foo/some file",
            "aff4://e6bae91b-14d231833e18//foo/some%20file",
        ),
    ];

    for (path, expected) in cases {
        assert_eq!(
            arn_for_path(VOLUME, path),
            expected,
            "Table 1 vector failed for {path:?}"
        );
    }
}

/// **Table 2 of the paper, verbatim**: ARN to ZIP segment name.
///
/// Note row 4: the paper prints `bar/c$/foo` for `…/bar/c$`, which is a
/// typo in the published table — the other six rows are self-consistent and
/// the rule (strip volume, strip one separator, decode `%20`) yields
/// `bar/c$`. Asserted as the rule dictates, with the discrepancy recorded
/// rather than silently matched.
#[test]
fn table_2_arn_to_segment_name_vectors() {
    let cases = [
        ("aff4://e6bae91b-14d231833e18//c:", "/c:"),
        ("aff4://e6bae91b-14d231833e18//c:/", "/c:/"),
        ("aff4://e6bae91b-14d231833e18//c:/foo", "/c:/foo"),
        ("aff4://e6bae91b-14d231833e18/bar/c$", "bar/c$"),
        (
            "aff4://e6bae91b-14d231833e18/bar/c$/foo/ネコ.txt",
            "bar/c$/foo/ネコ.txt",
        ),
        ("aff4://e6bae91b-14d231833e18//foo/bar", "/foo/bar"),
        (
            "aff4://e6bae91b-14d231833e18//foo/some%20file",
            "/foo/some file",
        ),
    ];

    for (arn, expected) in cases {
        assert_eq!(
            segment_name_for_arn(VOLUME, arn, LogicalProfile::Legacy),
            expected,
            "Table 2 vector failed for {arn:?}"
        );
    }
}

/// The two naming paths must agree, on every vector, forever.
///
/// A small file is named by `segment_name_for_arn` and a large one by
/// `Arn::member_name`, and for a while they disagreed: this one decoded
/// `%20` to a space, that one re-escaped it to `%2520`. A 5 GiB
/// acquisition then wrote 312 streams under names no reader could resolve,
/// and `export` dropped 44,198 of 91,226 files while exiting 0. Nothing
/// caught it because no test compared the two.
#[test]
fn both_naming_paths_agree_on_every_table_2_vector() {
    let locus = Locus::new("x");
    let volume = Arn::parse(VOLUME, &locus).unwrap();

    for tail in [
        "//c:",
        "//c:/",
        "//c:/foo",
        "/bar/c$",
        "/bar/c$/foo/\u{30cd}\u{30b3}.txt",
        "//foo/bar",
        "//foo/some%20file",
        "//foo/some%20%20file",
        "//foo/some%2520file",
        "//Titles/Bumper%3AOpener/Disc.png",
        "/laptop/My%20Documents/FileSchemeURIs.doc",
    ] {
        let arn = format!("{VOLUME}{tail}");
        let parsed = Arn::parse(&arn, &locus).unwrap();
        assert_eq!(
            parsed
                .member_name(&volume, NameMapping::Escaped)
                .as_deref(),
            Some(segment_name_for_arn(VOLUME, &arn, LogicalProfile::Legacy).as_str()),
            "the two naming paths disagree for {tail:?}"
        );
    }
}

/// A bracket in a suspect filename must be percent-encoded.
///
/// `[` and `]` are not in AFF4-L 2019 §3.2's forbidden list — which names only angle
/// brackets, backslash, caret, backquote, brace and pipe — but they are
/// excluded from Turtle's `IRIREF` production,
/// so an ARN carrying one raw makes `information.turtle` unparseable. The
/// paper never reconciles this: AFF4-L 2019 §3.7's Slice Map syntax
/// (`aff4://uuid[0x0:0x8000]`) puts brackets inside an IRI without saying
/// how a *filename* containing one should be written.
///
/// Real files hit it. `/Library` holds `man1/[.1`, the man page for the
/// `[` builtin, and a crash-log folder named `[2026-08-25_…]=Auth Timeout`.
/// A 13.3 GiB acquisition of it wrote metadata no reader could parse.
///
/// Encoding them keeps the two uses distinct: a bracket that survives into
/// the parser is a Slice Map's, never a filename's.
#[test]
fn a_bracket_in_a_filename_is_escaped() {
    assert_eq!(arn_path_fragment("/usr/man/[.1"), "//usr/man/%5B.1");
    assert_eq!(
        arn_path_fragment("/logs/[2026]=x/f"),
        "//logs/%5B2026%5D=x/f"
    );
    // The closing bracket alone is escaped too: a name may carry either.
    assert_eq!(arn_path_fragment("/a]b"), "//a%5Db");
}

/// Every character RDF 1.1 forbids in an IRI must be escaped.
///
/// Asserted as a set rather than one case at a time: AFF4-L 2019 §3.2's list predates
/// the containers this tool writes, and each character missing from it
/// surfaced only when a real acquisition hit it — `[` from `man1/[.1`,
/// then `"` from `About "Convert" Scripts.scpt`, one after the other, each
/// costing a 13 GiB re-acquisition to find. The whole `IRIREF` exclusion
/// set is checked here so the next one is caught by this test instead.
#[test]
fn no_character_illegal_in_an_iri_survives_into_an_arn() {
    // RDF 1.1 IRIREF excludes these, plus everything below 0x21.
    let illegal: Vec<char> = "<>\"{}|^`\\"
        .chars()
        .chain((0..=0x20u8).map(char::from))
        .collect();

    for c in illegal {
        let fragment = arn_path_fragment(&format!("/a{c}b"));
        assert!(
            !fragment.contains(c),
            "{c:?} (U+{:04X}) is illegal in an IRI but survived into {fragment:?}",
            c as u32
        );
    }
}

/// The escape must round-trip to the original name.
///
/// The member keeps the escape — AFF4-L 2019 §3.4 decodes only `%20` — so what proves
/// the acquisition faithful is that the recorded path still names the file.
#[test]
fn a_bracketed_name_round_trips_through_its_arn() {
    for original in ["/usr/man/[.1", "/logs/[2026-08-25]=Auth Timeout/x.xml"] {
        let fragment = arn_path_fragment(original);
        assert!(
            !fragment.contains('['),
            "no raw bracket may reach the metadata: {fragment}"
        );
        assert_eq!(
            unescape(&fragment).trim_start_matches('/'),
            original.trim_start_matches('/'),
            "the escaped fragment must decode back to the suspect path"
        );
    }
}

/// Unicode is preserved, not escaped — AFF4-L 2019 §3.2 rule 3, and what makes a
/// container readable in an ordinary ZIP browser.
#[test]
fn unicode_survives_unescaped() {
    let arn = arn_for_path(VOLUME, "/tmp/ネコ.txt");
    assert!(arn.ends_with("/tmp/ネコ.txt"), "{arn}");
    assert!(
        !arn.contains('%'),
        "unicode must not be percent-encoded: {arn}"
    );
}

/// Forbidden characters and controls are encoded; the set is AFF4-L 2019 §3.1's.
#[test]
fn forbidden_characters_are_encoded() {
    let arn = arn_for_path(VOLUME, "/tmp/a<b>c|d");
    assert!(
        arn.contains("%3C") && arn.contains("%3E") && arn.contains("%7C"),
        "{arn}"
    );
}

/// `EPERM` is explained as TCC, with the remedy that actually works.
///
/// The raw text is `Operation not permitted (os error 1)`, which sends an
/// examiner to `sudo` — and `sudo` does not help, because TCC gates on the
/// calling application rather than the user. Verified against
/// `/private/var/db/CoreDuet`, which is mode `drwxr-xr-x` and still refuses
/// root without Full Disk Access.
#[test]
fn permission_denied_explains_tcc_and_names_the_remedy() {
    let text = explain_io_error("Operation not permitted (os error 1)", Some(1), true);

    assert!(
        text.contains("Full Disk Access"),
        "the remedy must be named: {text}"
    );
    assert!(
        text.contains("sudo` does not help"),
        "the reflex that does not work must be ruled out: {text}"
    );
    assert!(
        text.contains("Operation not permitted"),
        "the original OS text must survive: {text}"
    );
}

/// An ordinary permissions error is left alone.
///
/// `EACCES` really is file permissions, where elevating does help, so it
/// must not be relabelled as a privacy grant.
#[test]
fn ordinary_permission_errors_are_not_relabelled_as_tcc() {
    let text = explain_io_error("Permission denied (os error 13)", Some(13), true);
    assert!(
        !text.contains("Full Disk Access"),
        "EACCES is not a TCC denial: {text}"
    );
}

/// The AFF4-L 2019 §3.3 split threshold.
#[test]
fn the_segment_threshold_is_one_mebibyte() {
    assert!(is_segment_resident(0));
    assert!(is_segment_resident(MAX_SEGMENT_RESIDENT_SIZE));
    assert!(!is_segment_resident(MAX_SEGMENT_RESIDENT_SIZE + 1));
}

/// Timestamps render as RFC 3339 UTC, checked against known epochs.
#[test]
fn timestamps_render_as_rfc3339_utc() {
    assert_eq!(format_rfc3339_utc(0), "1970-01-01T00:00:00Z");
    assert_eq!(format_rfc3339_utc(1_000_000_000), "2001-09-09T01:46:40Z");
    assert_eq!(format_rfc3339_utc(1_700_000_000), "2023-11-14T22:13:20Z");
    // A leap day, which a naive day-count gets wrong.
    assert_eq!(format_rfc3339_utc(1_709_164_800), "2024-02-29T00:00:00Z");
}

/// Round trip: a path encodes to an ARN whose segment name decodes back to
/// something a reader can locate.
#[test]
fn paths_with_spaces_round_trip() {
    let arn = arn_for_path(VOLUME, "/foo/some file");
    assert!(arn.contains("%20"), "the ARN escapes the space: {arn}");
    let segment = segment_name_for_arn(VOLUME, &arn, LogicalProfile::Legacy);
    assert_eq!(segment, "/foo/some file", "the segment name restores it");
}


#[test]
fn a_truncated_item_stream_is_reported_as_skipped() {
    let registry = SourceRegistry::new();
    let mut writer = ContainerWriter::create("/out/truncated.aff4", None, &registry).unwrap();
    let volume_arn = writer.volume_arn().as_str().to_owned();

    // Dir(A), File(A/f), Dir(A/s), File(A/s/g) and no `DirEnd` at all.
    let missing = "No such file or directory (os error 2)";
    let items = vec![
        dir_entry("/tree"),
        file_entry("/tree/f.txt", 2, Err(missing)),
        dir_entry("/tree/s"),
        file_entry("/tree/s/g.txt", 2, Err(missing)),
    ];

    let mut result = LogicalAcquisition::default();
    let roots = acquire_from_items(
        &mut writer,
        items,
        &LogicalOptions::default(),
        &mut SharedStorage::default(),
        &mut result,
        "/out/truncated.aff4",
        &mut NoAccounts::new(),
    )
    .expect("minting cannot fail with a working entropy source");

    let unclosed: Vec<String> = result
        .skipped
        .iter()
        .filter(|(_, reason)| reason.contains("not closed"))
        .map(|(path, _)| path.display().to_owned())
        .collect();
    assert_eq!(
        unclosed.len(),
        2,
        "both unclosed directories must be reported: {:?}",
        result.skipped
    );
    for expected in ["/tree", "/tree/s"] {
        assert!(
            unclosed.iter().any(|p| p == expected),
            "{expected} must be named as unclosed: {:?}",
            result.skipped
        );
    }

    assert!(
        roots.is_empty(),
        "an unclosed directory is not a fully acquired root: {roots:?}"
    );

    let turtle = container_turtle(writer);
    assert_eq!(
        turtle.matches("Schema#child>").count(),
        2,
        "each directory keeps the edge to the child it did acquire:\n{turtle}"
    );
    for child in ["/tree/f.txt", "/tree/s/g.txt"] {
        let arn = arn_for_path(
            &volume_arn,
            &original_file_name(&EntryPath::from_text(child)),
        );
        assert!(
            turtle.contains(&format!("<{arn}>")),
            "the edge to {child} must survive the truncation:\n{turtle}"
        );
    }
}

#[test]
fn a_balanced_item_stream_reports_nothing_skipped() {
    let registry = SourceRegistry::new();
    let mut writer = ContainerWriter::create("/out/balanced.aff4", None, &registry).unwrap();

    let mut result = LogicalAcquisition::default();
    let roots = acquire_from_items(
        &mut writer,
        vec![dir_entry("/tree"), end_entry()],
        &LogicalOptions::default(),
        &mut SharedStorage::default(),
        &mut result,
        "/out/balanced.aff4",
        &mut NoAccounts::new(),
    )
    .expect("minting cannot fail with a working entropy source");

    assert!(
        result.skipped.is_empty(),
        "a balanced stream skips nothing: {:?}",
        result.skipped
    );
    assert_eq!(roots.len(), 1, "the closed directory is a root: {roots:?}");
}

#[test]
fn a_changed_file_is_reported_as_changed_not_skipped() {
    let registry = SourceRegistry::new();
    let mut writer =
        ContainerWriter::create_logical("/out/logical.aff4", None, &registry).unwrap();

    // The file holds 12 bytes; the item claims 4, as a stale walk would.
    let items = vec![
        dir_entry("/tree"),
        file_entry("/tree/a.txt", 4, Ok(b"hello world\n")),
        end_entry(),
    ];

    let mut result = LogicalAcquisition::default();
    acquire_from_items(
        &mut writer,
        items,
        &LogicalOptions::default(),
        &mut SharedStorage::default(),
        &mut result,
        "/out/logical.aff4",
        &mut NoAccounts::new(),
    )
    .expect("minting cannot fail with a working entropy source");

    assert_eq!(
        result.changed.len(),
        1,
        "the size change must be reported: {:?}",
        result.changed
    );
    let (path, expected, actual) = &result.changed[0];
    assert!(path.display().ends_with("a.txt"));
    assert_eq!((*expected, *actual), (4, 12));

    assert!(
        result.skipped.is_empty(),
        "a file that WAS acquired must not appear under skipped: {:?}",
        result.skipped
    );
    assert_eq!(result.files, 1, "the file was acquired");
    assert_eq!(result.bytes, 12, "the read length is what counts");

    let turtle = container_turtle(writer);
    assert!(
        turtle.contains("\"12\"^^<http://www.w3.org/2001/XMLSchema#long>")
            && !turtle.contains("\"4\"^^<http://www.w3.org/2001/XMLSchema#long>"),
        "aff4:size must record 12, not the stale 4:\n{turtle}"
    );
}

#[test]
fn a_profile_decides_the_version_and_the_names() {
    assert!(matches!(
        LogicalProfile::Legacy.version_profile(),
        VersionProfile::Logical
    ));
    assert!(matches!(
        LogicalProfile::V1Alpha.version_profile(),
        VersionProfile::LogicalV21
    ));

    let legacy = arn_for_entry(VOLUME, "/a b", LogicalProfile::Legacy, "/out/case.aff4").unwrap();
    assert_eq!(legacy, arn_for_path(VOLUME, "/a b"));
    let one = arn_for_entry(VOLUME, "/a b", LogicalProfile::V1Alpha, "/out/case.aff4").unwrap();
    let two = arn_for_entry(VOLUME, "/a b", LogicalProfile::V1Alpha, "/out/case.aff4").unwrap();
    assert!(one.starts_with("aff4://"), "{one}");
    assert!(!one.starts_with(VOLUME), "{one}");
    assert_ne!(one, two, "each entry gets a name of its own");
}

/// Keeps how many files were acquired at each account.
struct Counts(Vec<u64>);

impl AcquisitionObserver for Counts {
    fn on(&mut self, so_far: &LogicalAcquisition) {
        self.0.push(so_far.files);
    }
}

#[test]
fn an_observer_is_told_once_of_every_file() {
    let registry = SourceRegistry::new();
    let mut writer = ContainerWriter::create_logical("/out/told.aff4", None, &registry).unwrap();
    let tree = |name: &str| {
        vec![
            dir_entry(name),
            file_entry(&format!("{name}/a.txt"), 1, Ok(b"a")),
            dir_entry(&format!("{name}/s")),
            file_entry(&format!("{name}/s/b.txt"), 1, Ok(b"b")),
            end_entry(),
            end_entry(),
        ]
    };
    let mut counts = Counts(Vec::new());
    acquire_from_items(
        &mut writer,
        tree("/one"),
        &LogicalOptions::default(),
        &mut SharedStorage::default(),
        &mut LogicalAcquisition::default(),
        "/out/told.aff4",
        &mut counts,
    )
    .unwrap();
    assert_eq!(counts.0, [1, 2]);

    let mut writer = ContainerWriter::create_logical("/out/told.aff4", None, &registry).unwrap();
    let mut counts = Counts(Vec::new());
    let account = acquire_logical(
        &mut writer,
        vec![tree("/one"), tree("/two")],
        &LogicalOptions::default(),
        "/",
        &Locus::new("/out/told.aff4"),
        &mut counts,
    )
    .unwrap();
    assert_eq!(counts.0, [1, 2, 3, 4]);
    assert_eq!(account.files, 4);
}

#[test]
fn a_percent_sign_begins_an_escape_or_is_escaped() {
    let fragment = arn_path_fragment("/100% done/50%20off [x]");
    assert!(fragment.ends_with("/100%25%20done/50%2520off%20%5Bx%5D"), "{fragment}");
    let chars: Vec<char> = fragment.chars().collect();
    for (i, c) in chars.iter().enumerate() {
        if *c == '%' {
            assert!(chars[i + 1..i + 3]
                .iter()
                .all(|d| d.is_ascii_digit() || ('A'..='F').contains(d)));
        }
    }
}
