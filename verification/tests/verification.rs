use aff4tools::arn::Arn;
use aff4tools::codec::Codec;
use aff4tools::error::{Error, Locus};
use aff4tools::hash::digest_of;
use aff4tools::lexicon::Lexicon;
use aff4tools::model::{HashAlgorithm, ObjectRole, StoredHash};
use aff4tools::rdf::{Graph, Term};
use aff4tools::stream::{ByteSink, ImageStream};
use aff4tools::verify::container::{
    Aff4Object, Container, DescribedKind, Image, ImageEntry, ImageRun, Part,
};
use aff4tools::verify::estimate::estimate_work;
use aff4tools::verify::report::{
    Coverage, Declined, HashCheck, Outcome, Progress, ProgressObserver, ReadAccounting,
};
use aff4tools::verify::run::{verify_container, verify_container_with_progress};
use aff4tools::verify::streams::VerifyOptions;
use aff4tools::volume::{MemoryVolume, Volume};
use aff4tools::write::aff4_source::{looks_like_aff4, Aff4Source, SourcePart};
use aff4tools::write::container_writer::ContainerWriter;
use aff4tools::write::guard::SourceRegistry;
use aff4tools::write::map_writer::{write_map, MapEntry};
use aff4tools::write::stream_writer::{write_image_stream, StreamOptions};

fn place() -> Locus {
    Locus::new("/out/case.aff4")
}

fn local(iri: &str) -> &str {
    iri.rsplit(['#', '/']).next().unwrap()
}

fn algorithm_named(datatype: &str) -> Option<HashAlgorithm> {
    match local(datatype) {
        "MD5" => Some(HashAlgorithm::Md5),
        "SHA1" => Some(HashAlgorithm::Sha1),
        "SHA256" => Some(HashAlgorithm::Sha256),
        "SHA512" => Some(HashAlgorithm::Sha512),
        "blockMapHashSHA512" => Some(HashAlgorithm::BlockMapSha512),
        _ => None,
    }
}

/// The objects that statements describe, in the order they first appear.
fn objects_of(graph: &Graph) -> Vec<Aff4Object> {
    let mut objects: Vec<Aff4Object> = Vec::new();
    for triple in graph.triples() {
        if !objects.iter().any(|o| o.arn.as_str() == triple.subject) {
            objects.push(Aff4Object {
                arn: Arn::parse(&triple.subject, &place()).unwrap(),
                role: ObjectRole::Image,
                size: None,
                types: Vec::new(),
                hashes: Vec::new(),
            });
        }
        let object = objects
            .iter_mut()
            .find(|o| o.arn.as_str() == triple.subject)
            .unwrap();
        match &triple.object {
            Term::Iri(class) if local(&triple.predicate) == "type" => {
                object.types.push(class.clone())
            }
            Term::Literal(value, datatype) => {
                if let Some(algorithm) = algorithm_named(datatype) {
                    object.hashes.push(StoredHash {
                        algorithm,
                        hex: value.clone(),
                        predicate: local(&triple.predicate).to_owned(),
                    });
                }
            }
            _ => {}
        }
    }
    for object in &mut objects {
        let has = |name: &str| object.types.iter().any(|t| local(t) == name);
        object.role = if has("ImageStream") {
            ObjectRole::ImageStream
        } else if has("Map") {
            ObjectRole::MapObject
        } else if has("DiskImage") {
            ObjectRole::DiskImage
        } else if has("BlockHashes") {
            ObjectRole::BlockHashes
        } else {
            ObjectRole::Image
        };
    }
    objects.retain(|o| o.role != ObjectRole::Image);
    objects
}

/// A container with one disk image, written and read back. `harm` may change a
/// member on the way.
fn case_with(data: &[u8], harm: impl Fn(&str, &mut Vec<u8>)) -> Container<MemoryVolume> {
    let locus = place();
    let mut writer =
        ContainerWriter::create("/out/case.aff4", None, &SourceRegistry::new()).unwrap();
    let options = StreamOptions {
        chunk_size: 1024,
        chunks_per_segment: 4,
        codec: Codec::Snappy,
        block_hashes: true,
        block_algorithm: None,
    };
    let stream = write_image_stream(
        &mut writer,
        data,
        options,
        &[HashAlgorithm::Sha1, HashAlgorithm::Sha256],
        &locus,
    )
    .unwrap();
    let entries = vec![MapEntry {
        mapped_offset: 0,
        length: stream.size,
        target_offset: 0,
        target_id: 0,
    }];
    let written = write_map(
        &mut writer,
        &entries,
        &vec![stream.arn.clone()],
        stream.size,
        &stream.block_hash_digests,
        &locus,
    )
    .unwrap();
    let volume_arn = writer.volume_arn().clone();
    let mut graph = Graph::new();
    std::mem::swap(&mut graph, writer.graph_mut());
    let mut volume = MemoryVolume::new(&volume_arn, "/out/case.aff4");
    for member in writer.finish().members {
        let mut bytes = member.data.clone();
        harm(&member.name, &mut bytes);
        volume = volume.with_segment(&member.name, &bytes);
    }
    let stream_arn = Arn::parse(&stream.arn, &locus).unwrap();
    let described = ImageStream::open(&stream_arn, &graph, &Lexicon::standard(), &locus).unwrap();
    let image = Image {
        size: written.size,
        map_arn: Arn::parse(&written.arn, &locus).unwrap(),
        runs: vec![ImageRun::Stored {
            stream: stream_arn,
            target_offset: 0,
            length: written.size,
        }],
        streams: vec![described],
        striped: false,
        composition: ReadAccounting {
            stored: written.size,
            described: 0,
            unknown_placeholder: 0,
            gap_filled: 0,
            gap_fill: None,
        },
    };
    let objects = objects_of(&graph);
    Container {
        path: "/out/case.aff4".to_owned(),
        lexicon: Lexicon::standard(),
        parts: vec![Part {
            volume,
            graph,
            path: "/out/case.aff4".to_owned(),
            local_map: None,
        }],
        objects,
        images: vec![ImageEntry {
            arn: Arn::parse(&written.image_arn, &locus).unwrap(),
            resolved: Ok(image),
        }],
    }
}

fn sample_bytes(n: u32) -> Vec<u8> {
    (0..n).map(|i| (i / 7 % 251) as u8).collect()
}

#[derive(Default)]
struct Counted {
    checks: usize,
    started: usize,
    finished: usize,
}

impl ProgressObserver for Counted {
    fn on(&mut self, event: Progress<'_>) {
        match event {
            Progress::ObjectStarted { .. } => self.started += 1,
            Progress::ObjectFinished { .. } => self.finished += 1,
            Progress::CheckCompleted { .. } => self.checks += 1,
            _ => {}
        }
    }
}

#[test]
fn a_written_container_verifies() {
    let data = sample_bytes(10_000);
    let container = case_with(&data, |_, _| {});
    let report = verify_container(&container, VerifyOptions::default());
    assert!(!report.has_mismatch(), "{:#?}", report.checks);
    assert!(!report.has_unreadable(), "{:#?}", report.checks);
    assert!(report.match_count() >= 6, "{:#?}", report.checks);
    assert!(report.block_hashes_verified);
    assert!(report.recorded_value_count() <= report.checked_count());
    assert!(report.chunk_digest_count() > 0);
    for predicate in ["hash", "mapHash", "mapIdxHash", "mapPointHash", "mapPathHash"] {
        assert!(
            report
                .checks
                .iter()
                .any(|c| c.predicate == predicate && c.outcome.is_match()),
            "{predicate} must have been checked: {:#?}",
            report.checks
        );
    }
}

#[test]
fn every_check_is_announced() {
    let container = case_with(&sample_bytes(5000), |_, _| {});
    let mut told = Counted::default();
    let report = verify_container_with_progress(&container, VerifyOptions::default(), &mut told);
    assert_eq!(told.checks, report.checks.len());
    assert_eq!(told.started, told.finished);
    assert!(told.started > 0);
}

#[test]
fn a_changed_map_is_a_mismatch() {
    let container = case_with(&sample_bytes(5000), |name, bytes| {
        if name.ends_with("/map") {
            bytes[0] ^= 1;
        }
    });
    let report = verify_container(&container, VerifyOptions::default());
    assert!(report.has_mismatch());
    let wrong: Vec<&str> = report
        .checks
        .iter()
        .filter(|c| c.outcome.is_mismatch())
        .map(|c| c.predicate.as_str())
        .collect();
    assert!(wrong.contains(&"mapPointHash"), "{wrong:?}");
    assert!(wrong.contains(&"mapHash"), "{wrong:?}");
    assert!(!wrong.contains(&"mapIdxHash"), "{wrong:?}");
}

#[test]
fn a_damaged_bevy_never_verifies_clean() {
    let container = case_with(&sample_bytes(5000), |name, bytes| {
        if name.ends_with("/00000000") {
            bytes[0] ^= 0xff;
        }
    });
    let report = verify_container(&container, VerifyOptions::default());
    assert!(report.has_mismatch() || report.has_unreadable());
    assert!(report
        .checks
        .iter()
        .filter(|c| c.role == ObjectRole::ImageStream && c.predicate == "hash")
        .all(|c| !c.outcome.is_match()));
}

#[test]
fn an_estimate_counts_the_bytes_that_verifying_reads() {
    let data = sample_bytes(10_000);
    let container = case_with(&data, |_, _| {});
    let estimate = estimate_work(&container, VerifyOptions { block_hashes: true });
    assert_eq!(estimate.bytes_to_read, 10_000);
    assert!(!estimate.is_substantial(), "seconds of work");
    assert_eq!(estimate.bevies, 3);
    assert_eq!(estimate.streams.len(), 1);
    assert!(estimate.bytes_on_disk > 0);
}

#[derive(Default)]
struct Taken(Vec<u8>);

impl ByteSink for Taken {
    type Fixed = ();

    fn accept(&mut self, data: &[u8]) -> Result<(), Error> {
        self.0.extend_from_slice(data);
        Ok(())
    }
}

#[test]
fn a_stream_reads_back_what_was_written() {
    let data = sample_bytes(9000);
    let container = case_with(&data, |_, _| {});
    let stream = match &container.images[0].resolved {
        Ok(image) => image.streams[0].clone(),
        Err(e) => panic!("{}", e.to_string()),
    };
    let mut sink = Taken::default();
    stream
        .read_all(&container.parts[0].volume, &mut sink, &place())
        .unwrap();
    assert_eq!(sink.0, data);
}

fn source_part(path: &str) -> SourcePart {
    SourcePart {
        path: path.to_owned(),
        canonical: Ok(format!("/canonical{path}")),
        fault: None,
    }
}

#[test]
fn a_container_is_read_forward_as_a_source() {
    let data = sample_bytes(10_000);
    let container = case_with(&data, |_, _| {});
    let mut registry = SourceRegistry::new();
    let source = Aff4Source::open(
        &[source_part("/out/case.aff4")],
        Ok(container),
        &mut registry,
    )
    .unwrap_or_else(|e| panic!("{}", e.to_string()));
    assert_eq!(source.total_size(), 10_000);
    assert_eq!(source.parts(), &vec!["/out/case.aff4".to_owned()]);
    assert!(source.arn().as_str().ends_with("/image"));
    assert!(registry.is_source(Some("/canonical/out/case.aff4")));

    for at_once in [1usize, 777, 4096, 100_000] {
        let mut reader = source.reader();
        let mut back = Vec::new();
        loop {
            let more = reader.read(at_once).unwrap();
            assert!(more.len() <= at_once);
            if more.is_empty() {
                break;
            }
            back.extend(more);
            if at_once == 1 && back.len() == 3000 {
                break;
            }
        }
        assert_eq!(back, data[..back.len()]);
        if at_once > 1 {
            assert_eq!(back.len(), data.len());
        }
    }
}

#[test]
fn described_runs_are_read_in_phase() {
    let mut container = case_with(&sample_bytes(100), |_, _| {});
    if let Ok(image) = &mut container.images[0].resolved {
        image.runs.push(ImageRun::Described {
            kind: DescribedKind::Described,
            pattern: b"abc".to_vec(),
            offset: 100,
            length: 7,
        });
        image.size = 107;
    }
    let mut registry = SourceRegistry::new();
    let source =
        Aff4Source::open(&[source_part("/a")], Ok(container), &mut registry)
            .unwrap_or_else(|e| panic!("{}", e.to_string()));
    let mut reader = source.reader();
    assert_eq!(reader.read(1000).unwrap().len(), 100);
    assert_eq!(reader.read(3).unwrap(), b"bca");
    assert_eq!(reader.read(1000).unwrap(), b"bcab");
    assert!(reader.read(1000).unwrap().is_empty());
}

#[test]
fn a_source_stores_exactly_one_disk_image() {
    let refused = |container: Result<Container<MemoryVolume>, Error>| {
        let mut registry = SourceRegistry::new();
        match Aff4Source::open(&[source_part("/a")], container, &mut registry) {
            Ok(_) => panic!("must be refused"),
            Err(e) => e.to_string(),
        }
    };
    let mut none = case_with(&sample_bytes(10), |_, _| {});
    none.objects.retain(|o| o.role != ObjectRole::DiskImage);
    assert!(refused(Ok(none)).contains("stores no aff4:DiskImage"));

    let mut two = case_with(&sample_bytes(10), |_, _| {});
    two.objects.push(Aff4Object {
        arn: Arn::parse("aff4://other", &place()).unwrap(),
        role: ObjectRole::DiskImage,
        size: None,
        types: Vec::new(),
        hashes: Vec::new(),
    });
    let text = refused(Ok(two));
    assert!(text.contains("stores 2 disk images ("), "{text}");
    assert!(text.contains(", aff4://other), and re-acquiring"), "{text}");

    let failed = Error::io(place(), "gone".to_owned());
    assert!(refused(Err(failed)).contains("gone"));
}

#[test]
fn a_source_part_that_fails_stops_the_opening() {
    let mut registry = SourceRegistry::new();
    let parts = [
        source_part("/a"),
        SourcePart {
            path: "/b".to_owned(),
            canonical: Ok("/canonical/b".to_owned()),
            fault: Some(Error::io(Locus::new("/b"), "unreadable".to_owned())),
        },
        source_part("/c"),
    ];
    let container = case_with(&sample_bytes(10), |_, _| {});
    match Aff4Source::open(&parts, Ok(container), &mut registry) {
        Ok(_) => panic!("must be refused"),
        Err(e) => assert!(e.to_string().contains("unreadable")),
    }
    assert!(registry.is_source(Some("/canonical/a")));
    assert!(registry.is_source(Some("/canonical/b")));
    assert!(!registry.is_source(Some("/canonical/c")));
}

#[test]
fn a_container_is_known_by_its_bytes() {
    assert!(looks_like_aff4(b"PK\x03\x04rest", true));
    assert!(!looks_like_aff4(b"PK\x03\x04rest", false));
    assert!(!looks_like_aff4(b"PK\x03\x05", true));
    assert!(!looks_like_aff4(b"PK", true));
}

/// The statements of a graph without those of a property.
fn without(graph: &Graph, property: &str) -> Graph {
    let mut kept = Graph::new();
    for triple in graph.triples() {
        if local(&triple.predicate) != property {
            let object = match &triple.object {
                Term::Iri(iri) => Term::iri(iri),
                Term::Literal(value, datatype) => Term::typed(value, datatype),
            };
            kept.add(&triple.subject, &triple.predicate, object);
        }
    }
    kept
}

#[test]
fn a_stream_that_declares_no_size_is_no_finding() {
    let mut container = case_with(&sample_bytes(3000), |_, _| {});
    container.parts[0].graph = without(&container.parts[0].graph, "size");
    let report = verify_container(&container, VerifyOptions::default());
    let recorded = container
        .objects
        .iter()
        .find(|o| o.role == ObjectRole::ImageStream)
        .unwrap()
        .hashes
        .len();
    let checks: Vec<&HashCheck> = report
        .checks
        .iter()
        .filter(|c| c.role == ObjectRole::ImageStream)
        .collect();
    assert_eq!(checks.len(), recorded);
    assert!(recorded > 0);
    for check in checks {
        assert_eq!(check.actual, "");
        match &check.outcome {
            Outcome::NotVerifiable { reason, cause } => {
                assert!(reason.contains("the stream could not be opened"), "{reason}");
                assert_eq!(*cause, Declined::NotSupported);
            }
            other => panic!("{other:?}"),
        }
    }
}

#[test]
fn a_run_of_no_stream_at_hand_is_no_finding() {
    let mut container = case_with(&sample_bytes(3000), |_, _| {});
    if let Ok(image) = &mut container.images[0].resolved {
        image.streams = Vec::new();
    }
    for object in &mut container.objects {
        if object.role == ObjectRole::DiskImage {
            object.hashes.push(StoredHash {
                algorithm: HashAlgorithm::Sha1,
                hex: "00".repeat(20),
                predicate: "hash".to_owned(),
            });
        }
    }
    let report = verify_container(&container, VerifyOptions::default());
    let check = report
        .checks
        .iter()
        .find(|c| c.role == ObjectRole::DiskImage && c.algorithm == HashAlgorithm::Sha1)
        .unwrap();
    match &check.outcome {
        Outcome::NotVerifiable { reason, cause } => {
            assert!(reason.contains("which the container does not describe"), "{reason}");
            assert_eq!(*cause, Declined::NotSupported);
        }
        other => panic!("{other:?}"),
    }
}

/// A volume one of whose segments cannot be read.
struct Damaged {
    volume: MemoryVolume,
    end: &'static str,
}

impl Volume for Damaged {
    fn arn(&self) -> Arn {
        self.volume.arn()
    }

    fn read_segment(&self, segment: &str) -> Result<Vec<u8>, Error> {
        if segment.ends_with(self.end) {
            return Err(Error::malformed(place(), "bad checksum".to_owned()));
        }
        self.volume.read_segment(segment)
    }

    fn read_segment_range(
        &self,
        segment: &str,
        offset: u64,
        length: usize,
    ) -> Result<Option<Vec<u8>>, Error> {
        self.volume.read_segment_range(segment, offset, length)
    }

    fn has_segment(&self, segment: &str) -> bool {
        self.volume.has_segment(segment)
    }

    fn segments(&self) -> Vec<String> {
        self.volume.segments()
    }

    fn uncompressed_bytes(&self, segment: &str) -> Option<u64> {
        self.volume.uncompressed_bytes(segment)
    }

    fn stored_bytes(&self, segment: &str) -> u64 {
        self.volume.stored_bytes(segment)
    }
}

fn damaged(container: Container<MemoryVolume>, end: &'static str) -> Container<Damaged> {
    Container {
        path: container.path,
        lexicon: container.lexicon,
        parts: container
            .parts
            .into_iter()
            .map(|part| Part {
                volume: Damaged {
                    volume: part.volume,
                    end,
                },
                graph: part.graph,
                path: part.path,
                local_map: part.local_map,
            })
            .collect(),
        objects: container.objects,
        images: container.images,
    }
}

#[test]
fn a_damaged_block_hash_segment_is_a_finding() {
    let container = damaged(case_with(&sample_bytes(5000), |_, _| {}), "blockHash.sha1");
    let report = verify_container(&container, VerifyOptions::default());
    let blocks: Vec<&HashCheck> = report
        .checks
        .iter()
        .filter(|c| c.coverage == Coverage::Segment && c.role == ObjectRole::BlockHashes)
        .filter(|c| !c.outcome.was_checked())
        .collect();
    assert!(!blocks.is_empty(), "{:#?}", report.checks);
    assert!(blocks.iter().all(|c| c.outcome.is_unreadable()));
    assert!(report.has_unreadable());
}

/// Keeps what is said of how far reading has come.
#[derive(Default)]
struct Followed {
    bytes: Vec<(String, u64)>,
    bevies: Vec<u64>,
}

impl ProgressObserver for Followed {
    fn on(&mut self, event: Progress<'_>) {
        match event {
            Progress::Bytes { arn, done, .. } => {
                self.bytes.push((arn.as_str().to_owned(), done));
            }
            Progress::BevyCompleted { done, .. } => self.bevies.push(done),
            _ => {}
        }
    }
}

#[test]
fn reading_is_followed_chunk_by_chunk() {
    let container = case_with(&sample_bytes(5000), |_, _| {});
    let stream = container
        .objects
        .iter()
        .find(|o| o.role == ObjectRole::ImageStream)
        .unwrap()
        .arn
        .as_str()
        .to_owned();
    let mut followed = Followed::default();
    verify_container_with_progress(&container, VerifyOptions::default(), &mut followed);
    let done: Vec<u64> = followed
        .bytes
        .iter()
        .filter(|(arn, _)| *arn == stream)
        .map(|(_, done)| *done)
        .collect();
    assert_eq!(done, [1024, 2048, 3072, 4096, 5000]);
    assert_eq!(followed.bevies, [1, 2]);
}

/// Takes so many slices and refuses the next.
struct Refusing {
    left: usize,
    taken: Vec<usize>,
}

impl ByteSink for Refusing {
    type Fixed = ();

    fn accept(&mut self, data: &[u8]) -> Result<(), Error> {
        if self.left == 0 {
            return Err(Error::malformed(place(), "enough".to_owned()));
        }
        self.left -= 1;
        self.taken.push(data.len());
        Ok(())
    }
}

#[test]
fn a_refusal_is_handed_back_and_ends_the_reading() {
    let container = case_with(&sample_bytes(5000), |_, _| {});
    let stream = match &container.images[0].resolved {
        Ok(image) => image.streams[0].clone(),
        Err(e) => panic!("{}", e.to_string()),
    };
    let mut sink = Refusing {
        left: 3,
        taken: Vec::new(),
    };
    let err = stream
        .read_all(&container.parts[0].volume, &mut sink, &place())
        .unwrap_err();
    assert!(err.to_string().contains("enough"));
    assert_eq!(sink.taken, [1024, 1024, 1024]);
}

#[test]
fn a_long_described_run_is_digested_as_it_reads() {
    let mut container = case_with(&sample_bytes(100), |_, _| {});
    let mut whole = sample_bytes(100);
    for i in 0..200_000usize {
        whole.push(b"abc"[(100 + i) % 3]);
    }
    if let Ok(image) = &mut container.images[0].resolved {
        image.runs.push(ImageRun::Described {
            kind: DescribedKind::Described,
            pattern: b"abc".to_vec(),
            offset: 100,
            length: 200_000,
        });
        image.size = 200_100;
    }
    let digest = digest_of(HashAlgorithm::Sha1, &whole).unwrap();
    for object in &mut container.objects {
        if object.role == ObjectRole::DiskImage {
            object.hashes.push(StoredHash {
                algorithm: HashAlgorithm::Sha1,
                hex: digest.hex().to_owned(),
                predicate: "hash".to_owned(),
            });
        }
    }
    let mut followed = Followed::default();
    let report =
        verify_container_with_progress(&container, VerifyOptions::default(), &mut followed);
    assert!(report
        .checks
        .iter()
        .any(|c| c.role == ObjectRole::DiskImage
            && c.algorithm == HashAlgorithm::Sha1
            && c.outcome.is_match()));
    let image = container.images[0].arn.as_str();
    let done: Vec<u64> = followed
        .bytes
        .iter()
        .filter(|(arn, _)| arn == image)
        .map(|(_, done)| *done)
        .collect();
    assert_eq!(done, [100, 65_636, 131_172, 196_708, 200_100]);
}
