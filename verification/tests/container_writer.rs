use aff4tools::write::container_writer::{
    new_uuid, uuid_text, version_text, ContainerWriter, VersionProfile,
};
use aff4tools::write::guard::SourceRegistry;

#[test]
fn generated_uuids_are_version_4_and_unique() {
    let p = "/synthetic/out.aff4";
    let a = new_uuid(p).unwrap();
    let b = new_uuid(p).unwrap();
    assert_ne!(a, b);
    assert_eq!(a.len(), 36);
    assert_eq!(&a[14..15], "4", "version nibble");
    assert!(matches!(&a[19..20], "8" | "9" | "a" | "b"), "variant");
}

#[test]
fn a_uuid_keeps_all_but_six_bits_of_its_entropy() {
    let bytes: Vec<u8> = (0..16u8).map(|i| i * 16 + 15).collect();
    assert_eq!(uuid_text(&bytes), "0f1f2f3f-4f5f-4f7f-8f9f-afbfcfdfefff");
    assert_eq!(uuid_text(&[0u8; 16]), "00000000-0000-4000-8000-000000000000");
}

#[test]
fn version_text_names_the_format_and_the_tool() {
    assert_eq!(
        version_text(VersionProfile::Physical),
        "major=1\nminor=0\ntool=aff4tools 0.1.0\n"
    );
}

#[test]
fn a_container_is_not_created_over_a_source() {
    let mut registry = SourceRegistry::new();
    registry.register("/evidence/img.dd");
    assert!(ContainerWriter::create("img.dd", Some("/evidence/img.dd"), &registry).is_err());
    assert!(ContainerWriter::create("case.aff4", Some("/evidence/case.aff4"), &registry).is_ok());
}

#[test]
fn members_taken_off_are_not_handed_out_again() {
    let registry = SourceRegistry::new();
    let mut writer = ContainerWriter::create("/out/case.aff4", None, &registry).unwrap();
    writer.add_stored_segment("one", b"12345");
    writer.add_deflated_segment("two", b"678");
    assert_eq!(writer.bytes_written(), 0, "nothing has reached the file");

    let taken: Vec<String> = writer.take_members().into_iter().map(|m| m.name).collect();
    assert_eq!(
        taken,
        ["container.description", "version.txt", "one", "two"]
    );
    assert!(writer.take_members().is_empty());
    writer.wrote_to(431);
    assert_eq!(writer.bytes_written(), 431);

    writer.add_stored_segment("three", b"9");
    assert_eq!(writer.bytes_written(), 431, "queueing writes nothing");
    let rest: Vec<String> = writer.finish().members.into_iter().map(|m| m.name).collect();
    assert_eq!(rest, ["three", "information.turtle"]);
}
