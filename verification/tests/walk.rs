use std::collections::BTreeMap;

use aff4tools::write::logical::names::EntryPath;
use aff4tools::write::scan::{
    cost_of, Look, OsFailure, ScanItem, ScanTotals, WalkStyle, WalkTask, Walker, SEGMENT_OVERHEAD,
};

fn tree() -> BTreeMap<&'static str, Option<Vec<&'static str>>> {
    let mut fs = BTreeMap::new();
    fs.insert("/t", Some(vec!["/t/z", "/t/a", "/t/d"]));
    fs.insert("/t/a", None);
    fs.insert("/t/z", None);
    fs.insert("/t/d", Some(vec!["/t/d/x"]));
    fs.insert("/t/d/x", None);
    fs
}

fn failure(text: &str) -> OsFailure {
    OsFailure {
        text: text.to_owned(),
        code: Some(1),
    }
}

fn run_walk(style: WalkStyle, unlistable: &str) -> (Vec<String>, (u64, u64, bool)) {
    let fs = tree();
    let mut walker = Walker::new(vec![EntryPath::from_text("/t")], style, true);
    let mut items = Vec::new();
    while let Some(task) = walker.next() {
        match task {
            WalkTask::Visit(path) => {
                let look = match fs.get(path.display()) {
                    Some(None) => Look::File(10),
                    Some(Some(_)) => Look::Folder,
                    None => Look::Unreadable(failure("missing")),
                };
                walker.visited(path, look);
            }
            WalkTask::List(path) => {
                if path.display() == unlistable {
                    walker.listed(path, Err(failure("Operation not permitted")));
                } else {
                    let listing = fs[path.display()].clone().unwrap();
                    let entries = listing
                        .into_iter()
                        .map(|p| Ok(EntryPath::from_text(p)))
                        .collect();
                    walker.listed(path, Ok(entries));
                }
            }
            WalkTask::Emit(item) => items.push(match item {
                ScanItem::File { path, size } => format!("file {} {size}", path.display()),
                ScanItem::Dir { path } => format!("dir {}", path.display()),
                ScanItem::DirEnd => "end".to_owned(),
                ScanItem::Skipped { path, reason } => {
                    format!("skipped {} {reason}", path.display())
                }
            }),
        }
    }
    (items, walker.totals().snapshot())
}

#[test]
fn a_walk_closes_every_directory_it_enters() {
    let (items, totals) = run_walk(WalkStyle::Scanner, "");
    assert_eq!(
        items,
        [
            "dir /t",
            "file /t/a 10",
            "dir /t/d",
            "file /t/d/x 10",
            "end",
            "file /t/z 10",
            "end",
        ]
    );
    assert_eq!(totals, (3, 3 * cost_of(10), true));
}

#[test]
fn a_directory_that_cannot_be_listed_is_closed_and_reported() {
    let (items, _) = run_walk(WalkStyle::Scanner, "/t/d");
    assert_eq!(
        items,
        [
            "dir /t",
            "file /t/a 10",
            "dir /t/d",
            "skipped /t/d Operation not permitted",
            "end",
            "file /t/z 10",
            "end",
        ]
    );
    let (items, _) = run_walk(WalkStyle::Inline, "/t/d");
    assert!(items[3].starts_with("skipped /t/d Operation not permitted"));
    assert!(items[3].contains("Full Disk Access"), "{}", items[3]);
}

#[test]
fn a_file_costs_at_least_its_segment() {
    assert_eq!(cost_of(0), SEGMENT_OVERHEAD);
    assert_eq!(cost_of(100_000), 100_000 + SEGMENT_OVERHEAD);
    let mut totals = ScanTotals::new();
    assert_eq!(totals.snapshot(), (0, 0, false));
    totals.count_file(5);
    totals.finish();
    assert_eq!(totals.snapshot(), (1, cost_of(5), true));
}
