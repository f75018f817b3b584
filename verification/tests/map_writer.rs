use aff4tools::arn::Arn;
use aff4tools::codec::Codec;
use aff4tools::error::Locus;
use aff4tools::hash::sha512_raw;
use aff4tools::lexicon::Lexicon;
use aff4tools::model::HashAlgorithm;
use aff4tools::rdf::Graph;
use aff4tools::stream::{Collected, ImageStream};
use aff4tools::verify::container::{Image, ImageRun, Part};
use aff4tools::verify::report::{NoProgress, ReadAccounting};
use aff4tools::volume::MemoryVolume;
use aff4tools::write::container_writer::{ContainerWriter, FinishedContainer};
use aff4tools::write::guard::SourceRegistry;
use aff4tools::write::map_writer::{
    compose_block_map_digest, write_map, write_map_as, write_own_map, MapDigests, MapEntry,
};
use aff4tools::write::stream_writer::{write_image_stream, StreamOptions};

fn metadata_of(writer: ContainerWriter) -> String {
    let finished = writer.finish();
    String::from_utf8(finished.members.last().unwrap().data.clone()).unwrap()
}

/// The members of a finished container as a volume.
fn volume_of(arn: &Arn, finished: &FinishedContainer) -> MemoryVolume {
    let mut volume = MemoryVolume::new(arn, "/out/case.aff4");
    for member in &finished.members {
        volume = volume.with_segment(&member.name, &member.data);
    }
    volume
}

#[test]
fn a_written_image_reads_back_through_its_map() {
    let locus = Locus::new("/out/image.aff4");
    let registry = SourceRegistry::new();

    let data: Vec<u8> = (0..20_000u32)
        .map(|i| u8::try_from(i % 251).unwrap_or(0))
        .collect();

    let mut writer = ContainerWriter::create("/out/image.aff4", None, &registry).unwrap();
    let options = StreamOptions {
        chunk_size: 4096,
        chunks_per_segment: 2,
        codec: Codec::Lz4,
        block_hashes: true,
        block_algorithm: None,
    };
    let stream = write_image_stream(
        &mut writer,
        &data,
        options,
        &[HashAlgorithm::Sha256],
        &locus,
    )
    .unwrap();

    let entries = vec![MapEntry {
        mapped_offset: 0,
        length: stream.size,
        target_offset: 0,
        target_id: 0,
    }];
    let written = write_map(
        &mut writer,
        &entries,
        &vec![stream.arn.clone()],
        stream.size,
        &Vec::new(),
        &locus,
    )
    .unwrap();
    let volume_arn = writer.volume_arn().clone();
    let mut graph = Graph::new();
    std::mem::swap(&mut graph, writer.graph_mut());
    let finished = writer.finish();
    let volume = volume_of(&volume_arn, &finished);

    // The stream reads as its own statements describe it.
    let stream_arn = Arn::parse(&stream.arn, &locus).unwrap();
    let described =
        ImageStream::open(&stream_arn, &graph, &Lexicon::standard(), &locus).unwrap();
    assert_eq!(described.size(), 20_000);
    assert_eq!(described.chunk_size(), 4096);

    // And the image reproduces the source through the map.
    let image = Image {
        size: written.size,
        map_arn: Arn::parse(&written.arn, &locus).unwrap(),
        runs: vec![ImageRun::Stored {
            stream: stream_arn.clone(),
            target_offset: 0,
            length: written.size,
        }],
        streams: vec![described],
        striped: false,
        composition: ReadAccounting {
            stored: written.size,
            described: 0,
            unknown_placeholder: 0,
            gap_filled: 0,
            gap_fill: None,
        },
    };
    let parts = vec![Part {
        volume,
        graph,
        path: "/out/image.aff4".to_owned(),
        local_map: None,
    }];
    let image_arn = Arn::parse(&written.image_arn, &locus).unwrap();
    let mut back = Collected::new();
    let counts = image
        .read_from_set(&image_arn, &parts, &mut back, &mut NoProgress::new(), &locus)
        .unwrap();
    assert_eq!(back.data, data, "the image must reproduce the source bytes");
    assert_eq!(counts.stored, 20_000);
}

/// A multi-part set's `DiskImage` is shared across parts, so its ARN cannot be
/// derived from the volume that happens to hold the map.
#[test]
fn the_image_arn_may_come_from_the_caller() {
    let registry = SourceRegistry::new();
    let mut w = ContainerWriter::create("/out/case.aff4", None, &registry).unwrap();
    let volume = w.volume_arn().as_str().to_owned();

    let shared_image = "aff4://11111111-2222-3333-4444-555555555555".to_owned();
    let map_arn = format!("{volume}/map");
    let targets = vec![format!("{volume}/data"), "aff4://other/data".to_owned()];
    let entries = vec![
        MapEntry {
            mapped_offset: 0,
            length: 100,
            target_offset: 0,
            target_id: 0,
        },
        MapEntry {
            mapped_offset: 100,
            length: 50,
            target_offset: 0,
            target_id: 1,
        },
    ];

    let written = write_map_as(
        &mut w,
        &map_arn,
        &shared_image,
        &entries,
        &targets,
        150,
        &Vec::new(),
        &Locus::new("m"),
    )
    .unwrap();

    assert_eq!(written.image_arn, shared_image);
    assert_eq!(written.arn, map_arn);
    assert_eq!(written.size, 150);
    let turtle = metadata_of(w);
    assert!(
        turtle.contains(&shared_image),
        "the shared image ARN must appear:\n{turtle}"
    );
    assert!(
        turtle.contains("aff4://other/data"),
        "every target must be a dependentStream:\n{turtle}"
    );
}

/// v1.0a §2.2 lists `target` on `ImageStream` as a "backwards pointer to the
/// parent of this object", and every corpus container writes one. Without
/// it a consumer holding a stream ARN cannot find the map that assembles
/// it without scanning the whole graph — and pyaff4's `getParentMap`
/// raises "Illegal State".
#[test]
fn every_stored_target_points_back_at_its_map() {
    let registry = SourceRegistry::new();
    let mut w = ContainerWriter::create("/out/case.aff4", None, &registry).unwrap();
    let volume = w.volume_arn().as_str().to_owned();

    let map_arn = format!("{volume}/map");
    let image_arn = format!("{volume}/image");
    let stream_arn = format!("{volume}/data");
    let targets = vec![stream_arn.clone(), "aff4://other/data".to_owned()];
    let entries = vec![
        MapEntry {
            mapped_offset: 0,
            length: 10,
            target_offset: 0,
            target_id: 0,
        },
        MapEntry {
            mapped_offset: 10,
            length: 10,
            target_offset: 0,
            target_id: 1,
        },
    ];

    write_map_as(
        &mut w,
        &map_arn,
        &image_arn,
        &entries,
        &targets,
        20,
        &Vec::new(),
        &Locus::new("t"),
    )
    .unwrap();
    let turtle = metadata_of(w);

    // Both stored targets carry the back-pointer, one living in another volume
    // included.
    for target in &targets {
        assert!(
            turtle.contains(&format!(
                "<{target}> <http://aff4.org/Schema#target> <{map_arn}> .\n"
            )),
            "{target} must point back at {map_arn}:\n{turtle}"
        );
    }
}

/// A symbolic stream is described by the standard, not stored in the
/// container, so it has no object to carry a back-pointer. Giving one an
/// `aff4:target` would invent a resource the volume does not hold.
#[test]
fn a_symbolic_target_gets_no_back_pointer() {
    let registry = SourceRegistry::new();
    let mut w = ContainerWriter::create("/out/case.aff4", None, &registry).unwrap();
    let volume = w.volume_arn().as_str().to_owned();

    let map_arn = format!("{volume}/map");
    let image_arn = format!("{volume}/image");
    let zero = "http://aff4.org/Schema#Zero".to_owned();
    let targets = vec![format!("{volume}/data"), zero.clone()];
    let entries = vec![
        MapEntry {
            mapped_offset: 0,
            length: 10,
            target_offset: 0,
            target_id: 0,
        },
        MapEntry {
            mapped_offset: 10,
            length: 10,
            target_offset: 0,
            target_id: 1,
        },
    ];

    write_map_as(
        &mut w,
        &map_arn,
        &image_arn,
        &entries,
        &targets,
        20,
        &Vec::new(),
        &Locus::new("s"),
    )
    .unwrap();
    let turtle = metadata_of(w);

    assert!(
        !turtle.contains(&format!("\n<{zero}> ")),
        "the Zero stream must not become a subject:\n{turtle}"
    );
}

/// The file is the map, or reaches a map of a fresh name that says its own size.
#[test]
fn an_own_map_is_the_file_or_is_reached_from_it() {
    let locus = Locus::new("/out/case.aff4");
    for indirect in [false, true] {
        let registry = SourceRegistry::new();
        let mut w = ContainerWriter::create_logical("/out/case.aff4", None, &registry).unwrap();
        let volume = w.volume_arn().as_str().to_owned();
        let file = format!("{volume}/file");
        let stream = "aff4://11111111-2222-3333-4444-555555555555";
        write_own_map(&mut w, &file, stream, 77, &Vec::new(), indirect, false, &locus).unwrap();
        let names: Vec<String> = w.take_members().into_iter().map(|m| m.name).collect();
        let maps: Vec<&String> = names.iter().filter(|n| n.ends_with("/map")).collect();
        assert_eq!(maps.len(), 1, "{names:?}");
        assert_eq!(maps[0] == "file/map", !indirect, "{names:?}");
        let turtle = metadata_of(w);
        assert!(turtle.contains(stream), "{turtle}");
        let direct = turtle
            .lines()
            .any(|l| l.starts_with(&format!("<{file}>")) && l.contains("Schema#Map>"));
        assert_eq!(direct, !indirect, "{turtle}");
    }
}

#[test]
fn the_order_of_block_digests_does_not_matter() {
    let map = MapDigests {
        point: vec![1; 64],
        idx: vec![2; 64],
        path: vec![3; 64],
    };
    let (md5, sha1, sha512) = (vec![7u8; 16], vec![8u8; 20], vec![9u8; 64]);
    let expected = compose_block_map_digest(
        &vec![md5.clone(), sha1.clone(), sha512.clone()],
        &map,
    );
    let mut input = Vec::new();
    for part in [&md5, &sha1, &sha512, &map.point, &map.idx, &map.path] {
        input.extend_from_slice(part);
    }
    assert_eq!(expected, sha512_raw(&input));
    for other in [
        vec![sha512.clone(), sha1.clone(), md5.clone()],
        vec![sha1.clone(), md5.clone(), sha512.clone()],
        vec![sha1, sha512, md5],
    ] {
        assert_eq!(compose_block_map_digest(&other, &map), expected);
    }
}
