use std::cmp::Ordering;

use aff4tools::split_set::{discover, natural_cmp, part_number, PartFile, SplitKind, SplitSet};

fn listed_file(name: &str) -> PartFile {
    let extension = match name.rfind('.') {
        Some(i) if i > 0 => Some(name[i + 1..].to_owned()),
        _ => None,
    };
    PartFile {
        path: format!("/evidence/{name}"),
        name: Some(name.to_owned()),
        extension,
    }
}

fn folder(names: &[&str]) -> Result<SplitSet, aff4tools::error::Error> {
    discover(names.iter().map(|n| listed_file(n)).collect(), "/evidence")
}

#[test]
fn unpadded_numbers_order_numerically() {
    let mut names = vec!["e_10.aff4", "e_9.aff4", "e_1.aff4", "e_20.aff4"];
    names.sort_by(|a, b| natural_cmp(a, b));
    assert_eq!(
        names,
        vec!["e_1.aff4", "e_9.aff4", "e_10.aff4", "e_20.aff4"]
    );
}

#[test]
fn padded_numbers_order_the_same_way() {
    let mut names = vec!["e_010.aff4", "e_009.aff4", "e_001.aff4"];
    names.sort_by(|a, b| natural_cmp(a, b));
    assert_eq!(names, vec!["e_001.aff4", "e_009.aff4", "e_010.aff4"]);
}

#[test]
fn the_last_digit_run_is_the_part_number() {
    assert_eq!(part_number("case_2024_007.aff4"), Some(7));
    assert_eq!(part_number("evidence_001.aff4"), Some(1));
    assert_eq!(part_number("evidence.aff4"), None);
}

#[test]
fn digits_inside_a_word_are_not_a_part_number() {
    assert_eq!(part_number("lz4.aff4"), None);
    assert_eq!(part_number("evidence_004.aff4"), Some(4));
    assert_eq!(part_number("evidence-004.aff4"), Some(4));
    assert_eq!(part_number("evidence.004"), None);
    assert_eq!(part_number("001.aff4"), Some(1));
}

#[test]
fn an_absurd_digit_run_is_handled() {
    let huge = format!("e_{}.aff4", "9".repeat(40));
    assert_eq!(part_number(&huge), None);
    let _ = natural_cmp(&huge, "e_1.aff4");
}

#[test]
fn a_folder_of_aff4_parts_is_discovered_in_order() {
    let set = folder(&["e_003.aff4", "e_001.aff4", "e_002.aff4"]).unwrap();
    assert_eq!(set.kind, SplitKind::Aff4);
    assert_eq!(set.parts.len(), 3);
    let names: Vec<String> = set.parts.iter().map(|p| p.name.clone().unwrap()).collect();
    assert_eq!(names, vec!["e_001.aff4", "e_002.aff4", "e_003.aff4"]);
    assert_eq!(
        set.discovery_line(),
        "Found 3 split files, numbered 001 through 003."
    );
}

#[test]
fn a_gap_in_part_numbering_is_refused() {
    let err = folder(&["e_001.aff4", "e_003.aff4"]).unwrap_err();
    assert!(err.to_string().contains("gap"), "{}", err.to_string());
    assert!(err
        .to_string()
        .contains("part 1 is followed by part 3; reassembly would silently omit data"));
}

#[test]
fn a_folder_of_raw_parts_is_discovered() {
    let set = folder(&["img.001", "img.002"]).unwrap();
    assert_eq!(set.kind, SplitKind::RawSplit);
    assert_eq!(set.parts.len(), 2);
}

#[test]
fn a_folder_holding_both_kinds_is_refused() {
    let err = folder(&["e_001.aff4", "img.001"]).unwrap_err();
    assert!(err.to_string().contains("both"), "{}", err.to_string());
}

#[test]
fn an_empty_folder_is_refused() {
    let err = folder(&[]).unwrap_err();
    assert!(
        err.to_string().contains("no split set"),
        "{}",
        err.to_string()
    );
}

#[test]
fn a_single_unnumbered_container_needs_no_numbering() {
    let set = folder(&["evidence.aff4"]).unwrap();
    assert_eq!(set.parts.len(), 1);
    assert_eq!(set.first, None);
    assert_eq!(
        set.discovery_line(),
        "Found 1 file(s); no part numbering."
    );
}

#[test]
fn a_gap_in_a_raw_split_set_is_refused() {
    let err = folder(&["img.001", "img.003"]).unwrap_err();
    assert!(err.to_string().contains("gap"), "{}", err.to_string());
}

#[test]
fn a_contiguous_raw_split_set_is_numbered() {
    let set = folder(&["img.002", "img.001"]).unwrap();
    assert_eq!(set.kind, SplitKind::RawSplit);
    assert_eq!(set.first, Some(1));
    assert_eq!(set.last, Some(2));
}

#[test]
fn a_raw_split_set_names_its_range_with_padding() {
    let set = folder(&["img.001", "img.002"]).unwrap();
    assert_eq!(
        set.discovery_line(),
        "Found 2 split files, numbered 001 through 002."
    );
}

#[test]
fn other_files_are_no_part_of_a_set() {
    let set = folder(&["notes.txt", "E_2.AFF4", "readme", "E_1.af4"]).unwrap();
    let names: Vec<String> = set.parts.iter().map(|p| p.name.clone().unwrap()).collect();
    assert_eq!(names, vec!["E_1.af4", "E_2.AFF4"]);
    assert_eq!(
        set.discovery_line(),
        "Found 2 split files, numbered 1 through 2."
    );
}

#[test]
fn comparing_names_turns_and_carries() {
    assert_eq!(natural_cmp("e_9", "e_10"), Ordering::Less);
    assert_eq!(natural_cmp("e_10", "e_9"), Ordering::Greater);
    assert_eq!(natural_cmp("e_1", "e_01"), Ordering::Less);
    assert_eq!(natural_cmp("e_01", "e_01"), Ordering::Equal);
    assert_eq!(natural_cmp("e", "e_1"), Ordering::Less);
    assert_eq!(natural_cmp("a2b10", "a2b9"), Ordering::Greater);
}

#[test]
fn a_part_number_follows_a_separator_or_is_all_there_is() {
    assert_eq!(part_number("007abc.aff4"), None);
    assert_eq!(part_number("007.aff4"), Some(7));
    assert_eq!(part_number("e_007_copy.aff4"), Some(7));
}
