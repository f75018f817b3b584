use aff4tools::error::{Error, ErrorKind};
use aff4tools::split_set::PartFile;
use aff4tools::write::acquire::{ConcatTask, ImageSource, SourceFile};
use aff4tools::write::guard::SourceRegistry;

type Folder = Vec<(&'static str, &'static [u8])>;

fn find_pieces(folder: &Folder, first: &str) -> Result<Vec<String>, Error> {
    let files: Vec<PartFile> = folder
        .iter()
        .map(|(name, _)| PartFile {
            path: format!("/evidence/{name}"),
            name: Some((*name).to_owned()),
            extension: name.rsplit_once('.').map(|(_, end)| end.to_owned()),
        })
        .collect();
    ImageSource::discover_split(&format!("/evidence/{first}"), Some(first), &files)
}

fn looked_at(folder: &Folder, paths: &[String]) -> Vec<SourceFile> {
    paths
        .iter()
        .map(|path| {
            let held = folder
                .iter()
                .find(|(n, _)| format!("/evidence/{n}") == *path);
            SourceFile {
                path: path.clone(),
                look: match held {
                    Some((_, data)) => Ok((true, data.len() as u64)),
                    None => Err("No such file or directory (os error 2)".to_owned()),
                },
                canonical: Ok(path.clone()),
            }
        })
        .collect()
}

fn read_source(source: &ImageSource, folder: &Folder, at_once: usize) -> Vec<u8> {
    let mut reader = source.reader();
    let mut all: Vec<u8> = Vec::new();
    let mut open: Vec<u8> = Vec::new();
    loop {
        match reader.task() {
            ConcatTask::Open(i) => {
                let path = reader.segment(i).to_owned();
                open = folder
                    .iter()
                    .find(|(n, _)| format!("/evidence/{n}") == path)
                    .map(|(_, d)| d.to_vec())
                    .unwrap();
                reader.opened();
            }
            ConcatTask::Read => {
                let n = at_once.min(open.len());
                all.extend(open.drain(..n));
                reader.came(n);
            }
            ConcatTask::End => return all,
        }
    }
}

#[test]
fn a_split_set_reads_as_one_stream() {
    let folder: Folder = vec![
        ("img.001", b"aaaa"),
        ("img.002", b"bbbb"),
        ("img.003", b"cc"),
    ];
    let found = find_pieces(&folder, "img.001").unwrap();
    assert_eq!(found.len(), 3);

    let mut registry = SourceRegistry::new();
    let source = ImageSource::open(&looked_at(&folder, &found), &mut registry).unwrap();
    assert_eq!(source.total_size(), 10);
    assert_eq!(source.segments(), &found);

    assert_eq!(read_source(&source, &folder, 100), b"aaaabbbbcc");
    assert_eq!(read_source(&source, &folder, 3), b"aaaabbbbcc");
}

#[test]
fn a_gap_in_a_split_set_is_refused() {
    let folder: Folder = vec![("img.001", b"aaaa"), ("img.003", b"cccc")];
    let err = find_pieces(&folder, "img.001").unwrap_err();
    assert!(err.to_string().contains("gap"), "{}", err.to_string());
    assert!(err.to_string().contains("img.002 is missing"));
}

#[test]
fn opening_a_source_registers_it() {
    let folder: Folder = vec![("img.dd", b"evidence")];
    let mut registry = SourceRegistry::new();
    let path = "/evidence/img.dd".to_owned();
    ImageSource::open(&looked_at(&folder, &[path.clone()]), &mut registry).unwrap();

    assert!(registry.is_source(Some(&path)));
    assert!(
        registry.assert_not_source(&path, Some(&path)).is_err(),
        "the source must not be writable once registered"
    );
}

#[test]
fn a_directory_is_not_a_source() {
    let mut registry = SourceRegistry::new();
    let files = [SourceFile {
        path: "/evidence".to_owned(),
        look: Ok((false, 4096)),
        canonical: Ok("/evidence".to_owned()),
    }];
    let err = ImageSource::open(&files, &mut registry).unwrap_err();
    assert!(err.to_string().contains("source is not a regular file"));
    assert_eq!(registry.len(), 0);
}

#[test]
fn a_source_needs_a_path_that_can_be_looked_at() {
    let mut registry = SourceRegistry::new();
    let err = ImageSource::open(&[], &mut registry).unwrap_err();
    assert_eq!(err.to_string(), "<no input>: no source path was given");

    let files = [
        SourceFile {
            path: "a".to_owned(),
            look: Ok((true, 1)),
            canonical: Ok("/a".to_owned()),
        },
        SourceFile {
            path: "b".to_owned(),
            look: Err("Permission denied".to_owned()),
            canonical: Ok("/b".to_owned()),
        },
    ];
    let err = ImageSource::open(&files, &mut registry).unwrap_err();
    assert!(err.to_string().contains("Permission denied"));
    assert!(registry.is_source(Some("/a")));
    assert!(!registry.is_source(Some("/b")));

    let files = [SourceFile {
        path: "c".to_owned(),
        look: Ok((true, 1)),
        canonical: Err("gone".to_owned()),
    }];
    let err = ImageSource::open(&files, &mut registry).unwrap_err();
    assert!(err.to_string().contains("gone"));
}

#[test]
fn a_split_set_starts_at_a_number() {
    let refused = |name: Option<&str>| {
        ImageSource::discover_split("/evidence/x", name, &Vec::new())
            .unwrap_err()
            .to_string()
    };
    assert!(refused(None).contains("unreadable file name"));
    assert!(refused(Some("image")).contains("must end in a numeric suffix, e.g. .001"));
    assert!(refused(Some("image.dd")).contains("suffix \"dd\" is not numeric; not a split set"));
    assert!(refused(Some("image.")).contains("suffix \"\" is not numeric; not a split set"));
    assert!(refused(Some("image.99999999999")).contains("suffix \"99999999999\" is not a number"));
}

#[test]
fn numbers_keep_their_width_as_they_grow() {
    let folder: Folder = vec![("img.9", b"a"), ("img.10", b"b"), ("img.11", b"c")];
    assert_eq!(find_pieces(&folder, "img.9").unwrap().len(), 3);
    let folder: Folder = vec![("img.09", b"a"), ("img.10", b"b")];
    assert_eq!(
        find_pieces(&folder, "img.09").unwrap(),
        ["/evidence/img.09", "/evidence/img.10"]
    );
}

#[test]
fn a_gap_of_any_width_is_refused() {
    let folder: Folder = vec![("img.001", b"a"), ("img.004", b"d")];
    let err = find_pieces(&folder, "img.001").unwrap_err();
    assert!(matches!(err.kind, ErrorKind::Malformed));
    let folder: Folder = vec![("img.001", b"a"), ("img.002", b"b"), ("img.950", b"z")];
    assert!(find_pieces(&folder, "img.001").is_err());
}

#[test]
fn other_files_of_the_folder_are_no_pieces() {
    let folder: Folder = vec![
        ("img.001", b"a"),
        ("img.002", b"b"),
        ("other.004", b"x"),
        ("img.0004", b"x"),
        ("img.004.txt", b"x"),
    ];
    assert_eq!(
        find_pieces(&folder, "img.001").unwrap(),
        ["/evidence/img.001", "/evidence/img.002"]
    );
}
