use aff4tools::error::{Error, Locus};
use aff4tools::version::{ContainerVersion, Fields, SEGMENT_NAME};

fn locus() -> Locus {
    Locus::new("/evidence/test.aff4").segment(SEGMENT_NAME)
}

fn parse(bytes: &[u8]) -> Result<ContainerVersion, Error> {
    ContainerVersion::parse(bytes, &locus())
}

/// The exact bytes from `AFF4Std/Base-Linear.aff4`, read out of the
/// container rather than transcribed from the spec.
#[test]
fn parses_the_evimetry_v1_0_container() {
    let v = parse(b"major=1\nminor=0\ntool=Evimetry 2.2.0\n").unwrap();
    assert_eq!(v.major, 1);
    assert_eq!(v.minor, 0);
    assert_eq!(v.tool.as_deref(), Some("Evimetry 2.2.0"));
    assert!(v.is_v1_0());
    assert!(!v.is_v1_1());
    assert!(v.is_known());
    assert!(v.extra.is_empty());
}

/// The exact bytes from `AFF4-L/dream.aff4`.
#[test]
fn parses_the_pyaff4_v1_1_container() {
    let v = parse(b"major=1\nminor=1\ntool=pyaff4\n").unwrap();
    assert!(v.is_v1_1());
    assert!(!v.is_v1_0());
    assert!(!v.is_v2_1());
    assert_eq!(v.tool.as_deref(), Some("pyaff4"));
}

/// AFF4-L Standard v1.0-ALPHA §3's example: major 2, minor 1.
#[test]
fn parses_an_aff4l_v2_1_container() {
    let v = parse(b"major=2\nminor=1\ntool=pyaff4 0.9\n").unwrap();
    assert!(v.is_v2_1());
    assert!(!v.is_v1_0() && !v.is_v1_1());
    assert!(
        v.is_known(),
        "2.1 is recognised here; refusal to check it is a separate decision"
    );
}

/// `Base-Linear-AllHashes.aff4` reports a different tool version from its
/// siblings — a guard against hardcoding one vendor string.
#[test]
fn parses_the_evimetry_3_container() {
    let v = parse(b"major=1\nminor=0\ntool=Evimetry 3.0.0\n").unwrap();
    assert_eq!(v.tool.as_deref(), Some("Evimetry 3.0.0"));
}

/// Spec §1 permits CRLF, CR, or LF.
#[test]
fn accepts_all_three_line_endings() {
    let expected = parse(b"major=1\nminor=0\ntool=t\n").unwrap();
    assert_eq!(
        parse(b"major=1\r\nminor=0\r\ntool=t\r\n").unwrap(),
        expected
    );
    assert_eq!(parse(b"major=1\rminor=0\rtool=t\r").unwrap(), expected);
    // A file with no trailing terminator is still well-formed.
    assert_eq!(parse(b"major=1\nminor=0\ntool=t").unwrap(), expected);
}

/// Spec §1: ordering of name/value pairs is arbitrary.
#[test]
fn accepts_arbitrary_field_order() {
    let v = parse(b"tool=Evimetry 2.2.0\nminor=0\nmajor=1\n").unwrap();
    assert_eq!(v.major, 1);
    assert_eq!(v.minor, 0);
    assert_eq!(v.tool.as_deref(), Some("Evimetry 2.2.0"));
}

/// pyaff4 splits on every `=` inside a bare `except: pass`, so this line is
/// silently discarded there. Splitting on the first `=` keeps the value.
#[test]
fn splits_on_the_first_equals_only() {
    let v = parse(b"major=1\nminor=0\ntool=weird=tool=name\n").unwrap();
    assert_eq!(v.tool.as_deref(), Some("weird=tool=name"));
}

/// Spec §1 says vendors record deviations from the standard here, so an
/// unrecognised key is worth surfacing rather than dropping.
#[test]
fn preserves_unrecognised_fields() {
    let v = parse(b"major=1\nminor=0\ntool=X\nvendorQuirk=sector-aligned\n").unwrap();
    assert_eq!(
        v.extra.get("vendorQuirk"),
        Some("sector-aligned")
    );
}

#[test]
fn tolerates_blank_lines_and_surrounding_space() {
    let v = parse(b"\nmajor = 1 \n\n  minor=0\n\n").unwrap();
    assert_eq!(v.major, 1);
    assert_eq!(v.minor, 0);
}

/// `tool` carries no format semantics, so its absence must not reject a
/// container that is otherwise valid.
#[test]
fn tool_is_optional() {
    let v = parse(b"major=1\nminor=0\n").unwrap();
    assert_eq!(v.tool, None);
    assert!(v.is_known());

    let empty_tool = parse(b"major=1\nminor=0\ntool=\n").unwrap();
    assert_eq!(
        empty_tool.tool, None,
        "an empty tool= is the same as absent"
    );
}

/// A container that cannot state its own version is a finding, not
/// something to guess past. pyaff4 would raise `KeyError` here and fall
/// through to namespace sniffing.
#[test]
fn missing_major_or_minor_is_malformed() {
    for bytes in [
        b"minor=0\ntool=X\n".as_slice(),
        b"major=1\ntool=X\n".as_slice(),
    ] {
        let err = parse(bytes).unwrap_err();
        assert!(err.is_integrity_finding(), "{}", err.to_string());
    }
}

#[test]
fn non_numeric_version_is_malformed() {
    let err = parse(b"major=one\nminor=0\n").unwrap_err();
    assert!(err.is_integrity_finding());
    assert!(err.to_string().contains("major"), "{}", err.to_string());
    assert!(err.to_string().contains("one"), "{}", err.to_string());
}

#[test]
fn negative_version_is_malformed() {
    let err = parse(b"major=-1\nminor=0\n").unwrap_err();
    assert!(err.is_integrity_finding(), "{}", err.to_string());
}

#[test]
fn empty_file_is_malformed() {
    let err = parse(b"").unwrap_err();
    assert!(err.is_integrity_finding());
    assert!(err.to_string().contains("empty"), "{}", err.to_string());
}

#[test]
fn a_line_without_an_equals_is_malformed() {
    let err = parse(b"major=1\nminor=0\ngarbage\n").unwrap_err();
    assert!(err.to_string().contains("garbage"), "{}", err.to_string());
}

/// Errors must say which file and segment they came from, so a report can
/// point at the evidence rather than at "a container".
#[test]
fn errors_record_the_segment() {
    let err = parse(b"major=x\nminor=0\n").unwrap_err();
    let rendered = err.to_string();
    assert!(rendered.contains(SEGMENT_NAME), "{rendered}");
    assert!(rendered.contains("/evidence/test.aff4"), "{rendered}");
}

/// A future v1.2 container is intact, not damaged: parsing must succeed and
/// let the caller raise Unsupported rather than Malformed.
#[test]
fn an_unknown_version_parses_but_is_not_known() {
    let v = parse(b"major=1\nminor=2\ntool=Future 1.0\n").unwrap();
    assert_eq!((v.major, v.minor), (1, 2));
    assert!(!v.is_known());
    assert!(!v.is_v1_0() && !v.is_v1_1() && !v.is_v2_1());

    // 2.0 is not 2.1: the AFF4-L standard fixes both numbers.
    let two_oh = parse(b"major=2\nminor=0\n").unwrap();
    assert!(!two_oh.is_known());
    assert!(!two_oh.is_v2_1());
}

/// A stray byte in a vendor string must not make the container unreadable;
/// the replacement character stays visible in the value.
#[test]
fn invalid_utf8_degrades_without_failing() {
    let v = parse(b"major=1\nminor=0\ntool=Bad\xffTool\n").unwrap();
    assert!(v.is_v1_0());
    assert!(v.tool.unwrap().contains('\u{fffd}'));
}

#[test]
fn display_is_readable() {
    let v = parse(b"major=1\nminor=0\ntool=Evimetry 2.2.0\n").unwrap();
    assert_eq!(v.to_string(), "1.0 (Evimetry 2.2.0)");

    let no_tool = parse(b"major=1\nminor=1\n").unwrap();
    assert_eq!(no_tool.to_string(), "1.1");
}

#[test]
fn fields_keep_the_last_value_of_a_name() {
    let mut fields = Fields::new();
    fields.insert("b", "1");
    fields.insert("a", "2");
    fields.insert("b", "3");
    assert_eq!(fields.get("b"), Some("3"));
    assert_eq!(fields.get("a"), Some("2"));
    assert_eq!(fields.get("c"), None);
    let names: Vec<&str> = fields.pairs().iter().map(|p| p.0.as_str()).collect();
    assert_eq!(names, ["a", "b"]);
    assert_eq!(fields.remove("b"), Some("3".to_owned()));
    assert_eq!(fields.remove("b"), None);
    assert!(!fields.is_empty());
}

/// Line ends of all kinds, blank lines, another order and no last line end, at once.
#[test]
fn the_layout_does_not_matter() {
    let expected = parse(b"major=1\nminor=0\ntool=Evimetry 2.2.0\nvendor=x\n").unwrap();
    for bytes in [
        b"vendor=x\r\n\r\ntool=Evimetry 2.2.0\rminor=0\n\n\rmajor=1".as_slice(),
        b"\r\r\nminor=0\rvendor=x\nmajor=1\r\ntool=Evimetry 2.2.0".as_slice(),
        b"tool=Evimetry 2.2.0\rmajor=1\rminor=0\rvendor=x\r\r".as_slice(),
    ] {
        assert_eq!(parse(bytes).unwrap(), expected);
    }
}
