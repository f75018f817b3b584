use aff4tools::hash::{digest_of, md5_raw, sha1_raw};
use aff4tools::model::HashAlgorithm;
use aff4tools::naming::{base64_encode, RecordedName};

#[test]
fn base64_pads_to_whole_groups() {
    assert_eq!(base64_encode(b""), "");
    assert_eq!(base64_encode(b"f"), "Zg==");
    assert_eq!(base64_encode(b"fo"), "Zm8=");
    assert_eq!(base64_encode(b"foo"), "Zm9v");
    assert_eq!(base64_encode(&[0xff, 0xfe, 0x00, 0xfb]), "//4A+w==");
}

#[test]
fn a_clean_name_has_no_raw_form() {
    let name = RecordedName::of("ネコ.txt".as_bytes());
    assert_eq!(name.display(), "ネコ.txt");
    assert_eq!(name.raw(), None);
}

#[test]
fn an_unclean_name_has_its_bytes_beside_it() {
    let name = RecordedName::of(b"a\xffb");
    assert_eq!(name.raw(), Some(base64_encode(b"a\xffb").as_str()));
    assert_eq!(name.display(), "a%FFb");
    let control = RecordedName::of(b"a\x07b");
    assert_eq!(control.raw(), Some(base64_encode(b"a\x07b").as_str()));
    assert_eq!(control.display(), "a%07b");
    assert_eq!(RecordedName::of("a\u{85}é".as_bytes()).display(), "a%C2%85é");
}

#[test]
fn digests_are_the_published_ones() {
    let hex = |a: HashAlgorithm| digest_of(a, b"abc").unwrap().hex().to_owned();
    assert_eq!(hex(HashAlgorithm::Md5), "900150983cd24fb0d6963f7d28e17f72");
    assert_eq!(
        hex(HashAlgorithm::Sha1),
        "a9993e364706816aba3e25717850c26c9cd0d89d"
    );
    assert_eq!(
        hex(HashAlgorithm::Sha256),
        "ba7816bf8f01cfea414140de5dae2223b00361a396177a9cb410ff61f20015ad"
    );
    assert!(hex(HashAlgorithm::Sha512).starts_with("ddaf35a193617abacc417349ae204131"));
    assert_eq!(digest_of(HashAlgorithm::Blake3, b"abc"), None);
    assert_eq!(md5_raw(b"abc").len(), 16);
    assert_eq!(sha1_raw(b"abc").len(), 20);
}
