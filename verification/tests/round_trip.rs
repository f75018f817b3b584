use aff4tools::arn::Arn;
use aff4tools::chunk_reader::ChunkReader;
use aff4tools::codec::Codec;
use aff4tools::error::{Error, Locus};
use aff4tools::lexicon::Lexicon;
use aff4tools::model::HashAlgorithm;
use aff4tools::rdf::Graph;
use aff4tools::storage_form::StorageForm;
use aff4tools::stream::{ByteSink, Collected, ImageStream};
use aff4tools::verify::container::{DescribedKind, Image, ImageRun, Part};
use aff4tools::verify::report::{NoProgress, Progress, ProgressObserver, ReadAccounting};
use aff4tools::volume::{MemoryVolume, Volume};
use aff4tools::write::container_writer::ContainerWriter;
use aff4tools::write::dedupe::ChunkPool;
use aff4tools::write::guard::SourceRegistry;
use aff4tools::write::logical::acquire::{acquire_logical_prescanned, Entry, NoAccounts};
use aff4tools::write::logical::names::{
    arn_for_path, original_file_name, EntryPath, LogicalProfile,
};
use aff4tools::write::logical::record::{EntryFacts, ExtendedAttribute};
use aff4tools::write::logical::stamps::FsMetadata;
use aff4tools::write::logical::storage::LogicalOptions;
use aff4tools::write::map_writer::{encode_entries, MapEntry};
use aff4tools::write::scan::ScanItem;
use aff4tools::write::stream_writer::{write_image_stream_as, StreamOptions};

fn place() -> Locus {
    Locus::new("/out/case.aff4")
}

fn small(codec: Codec) -> StreamOptions {
    StreamOptions {
        chunk_size: 64,
        chunks_per_segment: 4,
        codec,
        block_hashes: true,
        block_algorithm: None,
    }
}

/// Bytes that repeat only after a while.
fn sample(n: usize) -> Vec<u8> {
    (0..n).map(|i| (i * i / 7 % 251) as u8).collect()
}

/// A finished container: its volume and its statements.
fn closed(mut writer: ContainerWriter) -> (MemoryVolume, Graph) {
    let arn = writer.volume_arn().clone();
    let mut graph = Graph::new();
    std::mem::swap(&mut graph, writer.graph_mut());
    let mut volume = MemoryVolume::new(&arn, "/out/case.aff4");
    for member in &writer.finish().members {
        volume = volume.with_segment(&member.name, &member.data);
    }
    (volume, graph)
}

fn open(arn: &str, graph: &Graph) -> ImageStream {
    let arn = Arn::parse(arn, &place()).unwrap();
    ImageStream::open(&arn, graph, &Lexicon::standard(), &place()).unwrap()
}

/// A container with one stream.
fn streamed(data: &[u8], codec: Codec) -> (MemoryVolume, ImageStream) {
    let mut writer =
        ContainerWriter::create("/out/case.aff4", None, &SourceRegistry::new()).unwrap();
    let arn = format!("{}/data", writer.volume_arn().as_str());
    write_image_stream_as(
        &mut writer,
        &arn,
        data,
        small(codec),
        &[HashAlgorithm::Sha256],
        &place(),
    )
    .unwrap();
    let (volume, graph) = closed(writer);
    let stream = open(&arn, &graph);
    (volume, stream)
}

fn region(reader: &mut ChunkReader<MemoryVolume>, offset: u64, length: u64) -> Vec<u8> {
    let mut sink = Collected::new();
    reader.read_region(offset, length, &mut sink, &place()).unwrap();
    sink.data
}

#[test]
fn a_written_stream_reads_back_from_any_place() {
    let data = sample(1000);
    for codec in [Codec::Stored, Codec::Snappy, Codec::Lz4, Codec::Zlib] {
        let (volume, stream) = streamed(&data, codec);
        let mut reader = ChunkReader::new(&stream, &volume);
        for (from, to) in [
            (0usize, 1000usize),
            (0, 0),
            (63, 65),
            (255, 258),
            (999, 1000),
            (500, 501),
            (128, 640),
        ] {
            assert_eq!(
                region(&mut reader, from as u64, (to - from) as u64),
                data[from..to].to_vec(),
                "{codec:?}: {from}..{to}"
            );
        }
    }
}

#[test]
fn what_a_reader_keeps_never_changes_what_is_read() {
    let data = sample(700);
    let (volume, stream) = streamed(&data, Codec::Lz4);
    let mut first = ChunkReader::new(&stream, &volume);
    assert_eq!(region(&mut first, 10, 600), data[10..610].to_vec());
    assert_eq!(region(&mut first, 10, 600), data[10..610].to_vec());
    let kept = first.into_residency();

    let mut second = ChunkReader::new(&stream, &volume);
    second.restore(kept);
    assert_eq!(second.stream().size(), 700);
    assert_eq!(region(&mut second, 300, 400), data[300..700].to_vec());
    assert_eq!(second.into_volume().arn().as_str(), volume.arn().as_str());
}

#[test]
fn what_was_kept_of_another_stream_is_ignored() {
    let (volume, stream) = streamed(&sample(300), Codec::Lz4);
    let mut reader = ChunkReader::new(&stream, &volume);
    region(&mut reader, 0, 300);
    let kept = reader.into_residency();

    let other = vec![9u8; 300];
    let (other_volume, other_stream) = streamed(&other, Codec::Lz4);
    let mut reader = ChunkReader::new(&other_stream, &other_volume);
    reader.restore(kept);
    assert_eq!(region(&mut reader, 0, 300), other);
}

#[test]
fn a_region_outside_the_stream_is_refused() {
    let (volume, stream) = streamed(&sample(300), Codec::Lz4);
    let mut reader = ChunkReader::new(&stream, &volume);
    let mut sink = Collected::new();
    let past = reader.read_region(250, 51, &mut sink, &place()).unwrap_err();
    assert!(
        past.to_string().contains("a region covering bytes 250..301 extends past stream"),
        "{}",
        past.to_string()
    );
    let endless = reader
        .read_region(u64::MAX, 2, &mut sink, &place())
        .unwrap_err();
    assert!(
        endless.to_string().contains("overflows when added"),
        "{}",
        endless.to_string()
    );
    assert!(sink.data.is_empty(), "nothing was delivered");
}

/// One part and one image over it.
fn read_image(volume: MemoryVolume, graph: Graph, streams: Vec<ImageStream>, runs: Vec<ImageRun>) -> Vec<u8> {
    let arn = Arn::parse("aff4://11111111-2222-3333-4444-555555555555", &place()).unwrap();
    let image = Image {
        size: 0,
        map_arn: arn.clone(),
        runs,
        streams,
        striped: false,
        composition: ReadAccounting {
            stored: 0,
            described: 0,
            unknown_placeholder: 0,
            gap_filled: 0,
            gap_fill: None,
        },
    };
    let parts = vec![Part {
        volume,
        graph,
        path: "/out/case.aff4".to_owned(),
        local_map: None,
    }];
    let mut sink = Collected::new();
    image
        .read_from_set(&arn, &parts, &mut sink, &mut NoProgress::new(), &place())
        .unwrap();
    sink.data
}

#[test]
fn an_image_reads_as_its_map_says() {
    let one = sample(400);
    let two = vec![5u8; 333];
    let mut writer =
        ContainerWriter::create("/out/case.aff4", None, &SourceRegistry::new()).unwrap();
    let base = writer.volume_arn().as_str().to_owned();
    for (name, data) in [("one", &one), ("two", &two)] {
        write_image_stream_as(
            &mut writer,
            &format!("{base}/{name}"),
            data,
            small(Codec::Zlib),
            &[],
            &place(),
        )
        .unwrap();
    }
    let (volume, graph) = closed(writer);
    let first = open(&format!("{base}/one"), &graph);
    let second = open(&format!("{base}/two"), &graph);
    let run = |stream: &ImageStream, target_offset, length| ImageRun::Stored {
        stream: stream.arn().clone(),
        target_offset,
        length,
    };
    let runs = vec![
        run(&second, 300, 33),
        run(&first, 100, 70),
        run(&second, 0, 1),
    ];
    let read = read_image(volume, graph, vec![first, second], runs);
    let mut expected = two[300..333].to_vec();
    expected.extend_from_slice(&one[100..170]);
    expected.push(two[0]);
    assert_eq!(read, expected);
}

#[test]
fn map_entries_are_twenty_eight_bytes_each() {
    let entries = vec![
        MapEntry {
            mapped_offset: 0x0102,
            length: 3,
            target_offset: 4,
            target_id: 5,
        },
        MapEntry {
            mapped_offset: u64::MAX,
            length: 0,
            target_offset: 1,
            target_id: u32::MAX,
        },
    ];
    let encoded = encode_entries(&entries);
    assert_eq!(encoded.len(), 56);
    assert_eq!(&encoded[..8], &[2, 1, 0, 0, 0, 0, 0, 0]);
    assert_eq!(&encoded[8..16], &[3, 0, 0, 0, 0, 0, 0, 0]);
    assert_eq!(&encoded[16..24], &[4, 0, 0, 0, 0, 0, 0, 0]);
    assert_eq!(&encoded[24..28], &[5, 0, 0, 0]);
    assert_eq!(&encoded[28..36], &[255; 8]);
    assert_eq!(&encoded[52..], &[255; 4]);
}

#[test]
fn a_deduplicated_file_is_found_in_the_stream_of_all_chunks() {
    let mut writer =
        ContainerWriter::create("/out/case.aff4", None, &SourceRegistry::new()).unwrap();
    let base = writer.volume_arn().as_str().to_owned();
    let mut pool = ChunkPool::new(64);
    let earlier = sample(200);
    let mut file = vec![7u8; 64];
    file.extend_from_slice(&earlier[..64]);
    file.extend_from_slice(b"tail");
    pool.absorb(&earlier);
    let deduped = pool.absorb(&file);
    pool.absorb(&[1u8; 64]);
    let names = pool.finish(&mut writer, small(Codec::Lz4), &place()).unwrap();
    assert_eq!(names.len(), 4 + 2 + 1, "one chunk is shared");

    let (volume, graph) = closed(writer);
    let stream = open(&format!("{base}/blocks"), &graph);
    let mut reader = ChunkReader::new(&stream, &volume);
    let mut read: Vec<u8> = Vec::new();
    for id in &deduped.target_ids {
        read.extend(region(&mut reader, u64::from(*id) * 64, 64));
    }
    assert_eq!(&read[..file.len()], &file[..]);
    assert!(read[file.len()..].iter().all(|b| *b == 0), "padding is zeros");
}

/// Each chunk of several files stands where its file says, and the totals count every
/// file's bytes and every chunk kept.
#[test]
fn several_files_are_found_in_one_pool() {
    let files: [Vec<u8>; 5] = [
        vec![1u8; 20],
        (0..24u8).collect(),
        vec![1u8; 8],
        Vec::new(),
        (8..16u8).chain(0..3u8).collect(),
    ];
    let mut writer =
        ContainerWriter::create("/out/case.aff4", None, &SourceRegistry::new()).unwrap();
    let base = writer.volume_arn().as_str().to_owned();
    let mut pool = ChunkPool::new(8);
    let placed: Vec<_> = files.iter().map(|f| pool.absorb(f)).collect();
    // Two of the first file, three of the second, and the short one of the last.
    assert_eq!(pool.unique_chunks(), 6);
    assert_eq!(pool.stored_bytes(), 48);
    assert_eq!(pool.presented_bytes(), 63);
    assert_eq!(pool.saved_bytes(), 15);
    pool.finish(&mut writer, small(Codec::Snappy), &place()).unwrap();

    let (volume, graph) = closed(writer);
    let stream = open(&format!("{base}/blocks"), &graph);
    assert_eq!(stream.size(), 48);
    let mut reader = ChunkReader::new(&stream, &volume);
    for (file, at) in files.iter().zip(&placed) {
        assert_eq!(at.size, file.len() as u64);
        assert_eq!(at.target_ids.len(), file.len().div_ceil(8));
        let mut back = Vec::new();
        for id in &at.target_ids {
            back.extend(region(&mut reader, u64::from(*id) * 8, 8));
        }
        assert_eq!(&back[..file.len()], file.as_slice());
        assert!(back[file.len()..].iter().all(|b| *b == 0));
    }
}

fn facts(content: &[u8]) -> EntryFacts {
    EntryFacts {
        stamps: FsMetadata::default(),
        attributes: Vec::new(),
        content: Ok(content.to_vec()),
    }
}

/// A folder of files.
fn tree(files: &[(&str, &[u8])]) -> Vec<Entry> {
    let mut items = vec![Entry {
        item: ScanItem::Dir {
            path: EntryPath::from_text("/tree"),
        },
        facts: facts(b""),
    }];
    for (name, content) in files {
        items.push(Entry {
            item: ScanItem::File {
                path: EntryPath::from_text(&format!("/tree/{name}")),
                size: content.len() as u64,
            },
            facts: facts(content),
        });
    }
    items.push(Entry {
        item: ScanItem::DirEnd,
        facts: facts(b""),
    });
    items
}

/// A logical container of a tree: its volume, its statements, its account.
fn acquired(items: Vec<Entry>, options: &LogicalOptions) -> (MemoryVolume, Graph, u64) {
    let mut writer =
        ContainerWriter::create_logical("/out/case.aff4", None, &SourceRegistry::new()).unwrap();
    let account =
        acquire_logical_prescanned(
            &mut writer,
            items,
            options,
            "/",
            &place(),
            &mut NoAccounts::new(),
        )
        .unwrap();
    let skipped: Vec<String> = account.skipped.iter().map(|(_, why)| why.clone()).collect();
    assert!(skipped.is_empty(), "{skipped:?}");
    let (volume, graph) = closed(writer);
    (volume, graph, account.files)
}

#[test]
fn a_large_file_is_the_stream_of_its_own_name() {
    let options = LogicalOptions {
        stream: small(Codec::Lz4),
        storage_form: Some(StorageForm::OwnImageStream),
        ..LogicalOptions::default()
    };
    let data = sample(777);
    let (volume, graph, files) = acquired(tree(&[("a.bin", &data)]), &options);
    assert_eq!(files, 1);
    let name = original_file_name(&EntryPath::from_text("/tree/a.bin"));
    let stream = open(&arn_for_path(volume.arn().as_str(), &name), &graph);
    let mut sink = Collected::new();
    stream.read_all(&volume, &mut sink, &place()).unwrap();
    assert_eq!(sink.data, data);
}

#[test]
fn a_small_file_is_a_member() {
    let (volume, _, files) = acquired(
        tree(&[("a.txt", b"alpha"), ("b.txt", b"beta")]),
        &LogicalOptions::default(),
    );
    assert_eq!(files, 2);
    let named: Vec<String> = volume
        .segments()
        .into_iter()
        .filter(|n| n.ends_with(".txt") && n != "version.txt")
        .collect();
    assert_eq!(named.len(), 2, "{named:?}");
    for (name, content) in [("a.txt", b"alpha".to_vec()), ("b.txt", b"beta".to_vec())] {
        let segment = named.iter().find(|n| n.ends_with(name)).unwrap();
        assert_eq!(volume.read_segment(segment).unwrap(), content);
    }
}

#[test]
fn files_of_a_shared_stream_are_its_runs() {
    let options = LogicalOptions {
        stream: small(Codec::Lz4),
        profile: LogicalProfile::V1Alpha,
        storage_form: Some(StorageForm::SharedMap),
        ..LogicalOptions::default()
    };
    let one = sample(300);
    let two = vec![8u8; 150];
    let (volume, _, files) = acquired(tree(&[("one", &one), ("two", &two)]), &options);
    assert_eq!(files, 2);
    let maps: Vec<String> = volume
        .segments()
        .into_iter()
        .filter(|n| n.ends_with("/map"))
        .collect();
    assert_eq!(maps.len(), 2, "{maps:?}");
    let word = |data: &[u8]| {
        let mut w = [0u8; 8];
        w.copy_from_slice(data);
        u64::from_le_bytes(w)
    };
    let mut runs: Vec<(u64, u64)> = maps
        .iter()
        .map(|n| {
            let map = volume.read_segment(n).unwrap();
            assert_eq!(map.len(), 28);
            assert_eq!(word(&map[..8]), 0);
            (word(&map[16..24]), word(&map[8..16]))
        })
        .collect();
    runs.sort_unstable();
    assert_eq!(runs, vec![(0, 300), (300, 150)]);
}

#[test]
fn a_file_in_the_metadata_is_spelled_there() {
    let options = LogicalOptions {
        profile: LogicalProfile::V1Alpha,
        storage_form: Some(StorageForm::InMetadata),
        ..LogicalOptions::default()
    };
    let (_, graph, _) = acquired(tree(&[("a", b"hello")]), &options);
    let turtle = graph.serialize();
    assert!(
        turtle.contains("\"aGVsbG8=\"^^<http://www.w3.org/2001/XMLSchema#base64Binary>"),
        "{turtle}"
    );
}

#[test]
fn a_file_of_its_own_map_names_its_stream() {
    for datastream_indirect in [false, true] {
        let options = LogicalOptions {
            stream: small(Codec::Lz4),
            profile: LogicalProfile::V1Alpha,
            storage_form: Some(StorageForm::OwnMap),
            datastream_indirect,
            ..LogicalOptions::default()
        };
        let data = sample(130);
        let (volume, graph, files) = acquired(tree(&[("a", &data)]), &options);
        assert_eq!(files, 1);
        let idx = volume
            .segments()
            .into_iter()
            .find(|n| n.ends_with("/idx"))
            .unwrap();
        let target = String::from_utf8(volume.read_segment(&idx).unwrap()).unwrap();
        let stream = open(target.trim_end(), &graph);
        let mut sink = Collected::new();
        stream.read_all(&volume, &mut sink, &place()).unwrap();
        assert_eq!(sink.data, data);
    }
}

#[test]
fn extended_attributes_are_kept_beside_the_file() {
    let mut items = tree(&[("a", b"hello")]);
    items[1].facts.attributes = vec![ExtendedAttribute {
        name: "user.note".to_owned(),
        value: b"seen".to_vec(),
    }];
    let options = LogicalOptions {
        profile: LogicalProfile::V1Alpha,
        ..LogicalOptions::default()
    };
    let (_, graph, _) = acquired(items, &options);
    let turtle = graph.serialize();
    assert!(turtle.contains("user.note"), "{turtle}");
    assert!(turtle.contains("\"c2Vlbg==\""), "{turtle}");
}

#[test]
fn a_deduplicated_acquisition_stores_each_chunk_once() {
    let options = LogicalOptions {
        stream: small(Codec::Lz4),
        deduplicate: true,
        ..LogicalOptions::default()
    };
    let data = sample(256);
    let mut writer =
        ContainerWriter::create_logical("/out/case.aff4", None, &SourceRegistry::new()).unwrap();
    let account = acquire_logical_prescanned(
        &mut writer,
        tree(&[("one", &data), ("two", &data)]),
        &options,
        "/",
        &place(),
        &mut NoAccounts::new(),
    )
    .unwrap();
    assert_eq!(account.files, 2);
    let summary = account.dedupe.unwrap();
    assert_eq!(summary.unique_chunks, 4);
    assert_eq!(summary.stored, 256);
    assert_eq!(summary.presented, 512);
    assert_eq!(summary.saved(), 256);
    let base = writer.volume_arn().as_str().to_owned();
    let (volume, graph) = closed(writer);
    let stream = open(&format!("{base}/blocks"), &graph);
    let mut sink = Collected::new();
    stream.read_all(&volume, &mut sink, &place()).unwrap();
    assert_eq!(sink.data, data);
}

#[test]
fn a_bevy_decodes_to_whole_chunks() {
    let data = sample(100);
    let (volume, stream) = streamed(&data, Codec::Zlib);
    let name = stream.bevy_name(&volume.arn(), 0).unwrap();
    let bevy = volume.read_segment(&name).unwrap();
    let index = volume.read_segment(&format!("{name}.index")).unwrap();
    let chunks = stream.decode_bevy(&bevy, &index, &place(), &place()).unwrap();
    assert_eq!(chunks.len(), 2);
    assert_eq!(chunks[0], data[..64].to_vec());
    assert_eq!(chunks[1].len(), 64, "the last chunk is padded");
    assert_eq!(chunks[1][..36], data[64..]);
    assert!(chunks[1][36..].iter().all(|b| *b == 0));
}

#[derive(Default)]
struct Told(Vec<String>);

impl ProgressObserver for Told {
    fn on(&mut self, event: Progress<'_>) {
        self.0.push(match event {
            Progress::Bytes { done, total, .. } => format!("{done} of {total:?}"),
            Progress::BevyCompleted { done, total, .. } => format!("bevy {done} of {total}"),
            _ => "other".to_owned(),
        });
    }
}

#[test]
fn reading_a_stream_is_told_chunk_by_chunk() {
    let (volume, stream) = streamed(&sample(300), Codec::Lz4);
    let mut told = Told::default();
    let mut sink = Collected::new();
    stream
        .read_all_observed(&volume, &mut sink, &mut told, &place())
        .unwrap();
    assert_eq!(
        told.0,
        [
            "64 of Some(300)",
            "128 of Some(300)",
            "192 of Some(300)",
            "256 of Some(300)",
            "bevy 1 of 2",
            "300 of Some(300)",
            "bevy 2 of 2",
        ]
    );
}

/// Takes so many slices and refuses the next.
struct Refusing {
    left: usize,
    taken: Vec<u8>,
}

impl ByteSink for Refusing {
    type Fixed = ();

    fn accept(&mut self, data: &[u8]) -> Result<(), Error> {
        if self.left == 0 {
            return Err(Error::malformed(place(), "enough".to_owned()));
        }
        self.left -= 1;
        self.taken.extend_from_slice(data);
        Ok(())
    }
}

#[test]
fn what_is_told_ends_with_the_last_slice_taken() {
    let data = sample(300);
    let (volume, stream) = streamed(&data, Codec::Lz4);
    let mut told = Told::default();
    let mut sink = Refusing {
        left: 2,
        taken: Vec::new(),
    };
    let err = stream
        .read_all_observed(&volume, &mut sink, &mut told, &place())
        .unwrap_err();
    assert!(err.to_string().contains("enough"));
    assert_eq!(sink.taken, data[..128]);
    assert_eq!(told.0, ["64 of Some(300)", "128 of Some(300)"]);
    let mut told = Told::default();
    let mut sink = Refusing {
        left: 4,
        taken: Vec::new(),
    };
    stream
        .read_all_observed(&volume, &mut sink, &mut told, &place())
        .unwrap_err();
    assert_eq!(
        told.0,
        [
            "64 of Some(300)",
            "128 of Some(300)",
            "192 of Some(300)",
            "256 of Some(300)",
            "bevy 1 of 2",
        ]
    );
}

/// A stream of two bevies whose second is not there.
fn cut_short(data: &[u8]) -> (MemoryVolume, ImageStream, String) {
    let (whole, stream) = streamed(data, Codec::Lz4);
    let mut volume = MemoryVolume::new(&whole.arn(), "/out/case.aff4");
    let first = stream.bevy_name(&whole.arn(), 0).unwrap();
    for name in [first.clone(), format!("{first}.index")] {
        volume = volume.with_segment(&name, &whole.read_segment(&name).unwrap());
    }
    let second = stream.bevy_name(&whole.arn(), 1).unwrap();
    (volume, stream, second)
}

#[test]
fn a_region_fails_as_its_first_missing_chunk_does() {
    let data = sample(300);
    let (volume, stream, second) = cut_short(&data);
    let missing = volume
        .read_segment(&format!("{second}.index"))
        .unwrap_err()
        .to_string();
    let mut reader = ChunkReader::new(&stream, &volume);
    let mut sink = Collected::new();
    let err = reader.read_region(100, 180, &mut sink, &place()).unwrap_err();
    assert_eq!(err.to_string(), missing);
    assert_eq!(sink.data, data[100..256]);
    let mut sink = Refusing {
        left: 1,
        taken: Vec::new(),
    };
    let err = reader.read_region(100, 180, &mut sink, &place()).unwrap_err();
    assert!(err.to_string().contains("enough"));
    assert_eq!(sink.taken, data[100..128]);
}

#[test]
fn an_image_hands_over_what_comes_before_a_fault() {
    let data = sample(300);
    let (volume, stream, second) = cut_short(&data);
    let missing = volume
        .read_segment(&format!("{second}.index"))
        .unwrap_err()
        .to_string();
    let image = Image {
        size: 500,
        map_arn: stream.arn().clone(),
        runs: vec![
            ImageRun::Described {
                kind: DescribedKind::Described,
                pattern: b"xyz".to_vec(),
                offset: 1,
                length: 4,
            },
            ImageRun::Stored {
                stream: stream.arn().clone(),
                target_offset: 0,
                length: 300,
            },
            ImageRun::Described {
                kind: DescribedKind::Described,
                pattern: b"q".to_vec(),
                offset: 0,
                length: 196,
            },
        ],
        streams: vec![stream.clone()],
        striped: false,
        composition: ReadAccounting {
            stored: 0,
            described: 0,
            unknown_placeholder: 0,
            gap_filled: 0,
            gap_fill: None,
        },
    };
    let parts = vec![Part {
        volume,
        graph: Graph::new(),
        path: "/out/case.aff4".to_owned(),
        local_map: None,
    }];
    let mut told = Told::default();
    let mut sink = Collected::new();
    let failure = image
        .read_from_set(&image.map_arn, &parts, &mut sink, &mut told, &place())
        .unwrap_err();
    assert_eq!(failure.error.to_string(), missing);
    assert!(!failure.undescribed);
    let mut expected = b"yzxy".to_vec();
    expected.extend_from_slice(&data[..256]);
    assert_eq!(sink.data, expected);
    assert_eq!(
        told.0,
        [
            "4 of Some(500)",
            "68 of Some(500)",
            "132 of Some(500)",
            "196 of Some(500)",
            "260 of Some(500)",
        ]
    );
    let mut told = Told::default();
    let mut sink = Refusing {
        left: 2,
        taken: Vec::new(),
    };
    let failure = image
        .read_from_set(&image.map_arn, &parts, &mut sink, &mut told, &place())
        .unwrap_err();
    assert!(failure.error.to_string().contains("enough"));
    assert_eq!(sink.taken, expected[..68]);
    assert_eq!(told.0, ["4 of Some(500)", "68 of Some(500)"]);
}

#[test]
fn a_stream_is_the_first_bytes_of_its_bevies() {
    let data = sample(600);
    let (volume, stream) = streamed(&data, Codec::Snappy);
    assert_eq!(stream.bevy_count(), 3);
    let mut plain: Vec<u8> = Vec::new();
    for number in 0..3 {
        let name = stream.bevy_name(&volume.arn(), number).unwrap();
        let bevy = volume.read_segment(&name).unwrap();
        let index = volume.read_segment(&format!("{name}.index")).unwrap();
        for chunk in stream.decode_bevy(&bevy, &index, &place(), &place()).unwrap() {
            plain.extend(chunk);
        }
    }
    assert_eq!(plain.len(), 640);
    let mut sink = Collected::new();
    stream.read_all(&volume, &mut sink, &place()).unwrap();
    assert_eq!(sink.data, plain[..600]);

    // As many bytes as the bevies hold, and one more.
    let longer = ImageStream {
        size: 641,
        ..stream.clone()
    };
    let mut sink = Collected::new();
    let err = longer.read_all(&volume, &mut sink, &place()).unwrap_err();
    assert!(err.is_integrity_finding());
    assert!(
        err.to_string().contains("a short read would produce a digest"),
        "{}",
        err.to_string()
    );
    assert_eq!(sink.data, plain);
}
