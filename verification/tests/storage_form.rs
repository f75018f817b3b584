use aff4tools::error::{ErrorKind, Locus};
use aff4tools::storage_form::{storage_form_of, storage_form_of_with_reference, StorageForm};

fn locus() -> Locus {
    Locus::new("/evidence/case.aff4").segment("information.turtle")
}

/// Full IRIs, as a parsed container carries them.
fn types(list: &[&str]) -> Vec<String> {
    list.iter()
        .map(|n| format!("http://aff4.org/Schema#{n}"))
        .collect()
}

#[test]
fn a_zip_segment_type_selects_that_form() {
    let t = types(&["FileImage", "Image", "ZipSegment"]);
    assert_eq!(
        storage_form_of(&t, false, &locus()).expect("a single storage form"),
        StorageForm::ZipSegment
    );
}

#[test]
fn the_2019_spelling_selects_the_same_form() {
    let t = types(&["FileImage", "Image", "zip_segment"]);
    assert_eq!(
        storage_form_of(&t, false, &locus()).expect("a single storage form"),
        StorageForm::ZipSegment
    );
}

#[test]
fn a_resident_literal_selects_in_metadata() {
    let t = types(&["FileImage", "Image"]);
    assert_eq!(
        storage_form_of(&t, true, &locus()).expect("a single storage form"),
        StorageForm::InMetadata
    );
}

#[test]
fn a_map_type_selects_the_map_form() {
    let t = types(&["FileImage", "Image", "Map"]);
    assert_eq!(
        storage_form_of(&t, false, &locus()).expect("a single storage form"),
        StorageForm::SharedMap
    );
}

#[test]
fn an_image_stream_type_selects_its_own_stream() {
    let t = types(&["FileImage", "Image", "ImageStream"]);
    assert_eq!(
        storage_form_of(&t, false, &locus()).expect("a single storage form"),
        StorageForm::OwnImageStream
    );
}

// The AFF4-L v1.0-ALPHA §6.3 form this project writes: one subject carrying
// both Image and Map. `ContiguousImage` is not a storage form and must not
// be counted as one.
#[test]
fn a_file_image_typed_as_a_map_is_not_ambiguous() {
    let t = types(&["FileImage", "Image", "Map", "ContiguousImage"]);
    assert_eq!(
        storage_form_of(&t, false, &locus()).expect("a single storage form"),
        StorageForm::SharedMap
    );
}

// The AFF4-L v1.0-ALPHA §6.3 indirect form: no storage type on the file
// image itself, which instead points at a map subject.
#[test]
fn a_stream_reference_selects_the_map_form() {
    let t = types(&["FileImage", "Image", "ContiguousImage"]);
    assert_eq!(
        storage_form_of_with_reference(&t, false, true, &locus())
            .expect("a single storage form"),
        StorageForm::SharedMap
    );
}

// A subject typed `Map` that also points at a map states one thing twice.
// Counting the reference again would make the first AFF4-L v1.0-ALPHA §6.3
// form report as ambiguous against itself.
#[test]
fn a_map_type_beside_a_stream_reference_is_not_ambiguous() {
    let t = types(&["FileImage", "Image", "Map"]);
    assert_eq!(
        storage_form_of_with_reference(&t, false, true, &locus())
            .expect("a single storage form"),
        StorageForm::SharedMap
    );
}

#[test]
fn two_storage_types_are_malformed() {
    let t = types(&["FileImage", "ZipSegment", "ImageStream"]);
    let err = storage_form_of(&t, false, &locus()).expect_err("two forms are refused");
    assert!(matches!(err.kind, ErrorKind::Malformed));
    assert!(err.to_string().contains("ambiguous"), "{}", err.to_string());
}

// A resident literal alongside a storage type is the same ambiguity: the
// bytes would be in two places.
#[test]
fn a_resident_literal_beside_a_storage_type_is_malformed() {
    let t = types(&["FileImage", "ZipSegment"]);
    assert!(storage_form_of(&t, true, &locus()).is_err());
}

#[test]
fn no_storage_type_at_all_is_malformed() {
    let t = types(&["FileImage", "Image"]);
    let err = storage_form_of(&t, false, &locus()).expect_err("no form is refused");
    assert!(matches!(err.kind, ErrorKind::Malformed));
}

// The type list carries full IRIs, so a local-name comparison has to strip
// the namespace. A bare local name is accepted too, since a fixture or an
// internal caller may hold one.
#[test]
fn a_bare_local_name_is_recognized() {
    let t = ["ZipSegment".to_owned()];
    assert_eq!(
        storage_form_of(&t, false, &locus()).expect("a single storage form"),
        StorageForm::ZipSegment
    );
}

// A type whose local name merely ends with a form's name is a different
// type and must not match.
#[test]
fn a_similar_type_name_does_not_match() {
    let t = types(&["FileImage", "NotAZipSegment"]);
    assert!(storage_form_of(&t, false, &locus()).is_err());
}

#[test]
fn a_reference_beside_no_literal_reads_as_before() {
    let t = types(&["FileImage", "ImageStream"]);
    assert_eq!(
        storage_form_of_with_reference(&t, false, true, &locus()).expect("a single storage form"),
        storage_form_of(&t, false, &locus()).expect("a single storage form"),
    );
    assert!(storage_form_of_with_reference(&types(&["Image"]), true, true, &locus())
        .is_ok_and(|f| f == StorageForm::InMetadata));
}
