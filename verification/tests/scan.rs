use aff4tools::write::logical::names::EntryPath;
use aff4tools::write::scan::{children_from_entries, OsFailure};

fn failed(text: &str) -> OsFailure {
    OsFailure {
        text: text.to_owned(),
        code: None,
    }
}

/// A directory entry the OS cannot materialize is recorded, not dropped.
///
/// `read_dir`'s per-entry iterator can yield `Err` — a network mount
/// dropping, a device disappearing, filesystem corruption. `flatten()`
/// discarded those, so an entry vanished with nothing in the transcript to
/// say it had ever been seen. A silent omission in the discovery path is
/// the one thing an acquisition must not do.
#[test]
fn an_unreadable_directory_entry_is_recorded() {
    let entries = vec![
        Ok(EntryPath::from_text("/tree/good.txt")),
        Err(failed("device not configured")),
    ];

    let mut failures = Vec::new();
    let children = children_from_entries(&EntryPath::from_text("/tree"), &entries, false, &mut failures);

    assert_eq!(children.len(), 1, "the readable entry is kept");
    assert_eq!(children[0].display(), "/tree/good.txt");
    assert_eq!(failures.len(), 1, "the failed entry is recorded");
    assert!(
        failures[0].1.contains("device not configured"),
        "the reason must survive: {:?}",
        failures[0]
    );
}

/// The failure is attributed to the directory being listed.
///
/// A per-entry `Err` carries no path — the entry is precisely what the OS
/// could not produce — so the directory that was being enumerated is the
/// only identifier there is, and reporting it is better than reporting
/// nothing.
#[test]
fn a_failed_entry_is_attributed_to_its_directory() {
    let entries = vec![Err(failed("input/output error"))];

    let mut failures = Vec::new();
    let children = children_from_entries(&EntryPath::from_text("/tree"), &entries, false, &mut failures);

    assert!(children.is_empty());
    assert_eq!(failures[0].0.display(), "/tree");
}

/// Readable children come back sorted in whatever order the OS listed them.
#[test]
fn readable_children_are_sorted() {
    let entries = vec![
        Ok(EntryPath::from_text("/tree/c")),
        Ok(EntryPath::from_text("/tree/a")),
        Ok(EntryPath::from_text("/tree/b")),
    ];

    let mut failures = Vec::new();
    let children = children_from_entries(&EntryPath::from_text("/tree"), &entries, false, &mut failures);

    assert_eq!(
        children,
        vec![
            EntryPath::from_text("/tree/a"),
            EntryPath::from_text("/tree/b"),
            EntryPath::from_text("/tree/c"),
        ]
    );
    assert!(failures.is_empty());
}
