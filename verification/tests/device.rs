use aff4tools::write::device::{
    fill_unreadable, DeviceOptions, DeviceReader, FaultyReader, Medium,
};

const PATTERN: &[u8] = b"UNREADABLEDATA";

fn read_all<S: Medium>(reader: &mut DeviceReader<S>) -> Vec<u8> {
    let mut all = Vec::new();
    loop {
        let more = reader.read(1000);
        if more.is_empty() {
            return all;
        }
        all.extend(more);
    }
}

/// Counts reads and seeks reaching the "device".
struct Counting {
    data: Vec<u8>,
    reads: usize,
    seeks: usize,
}

impl Medium for Counting {
    fn read(&mut self, offset: u64, seek: bool, len: usize) -> Result<Vec<u8>, String> {
        self.reads += 1;
        if seek {
            self.seeks += 1;
        }
        let start = (offset as usize).min(self.data.len());
        let end = (start + len).min(self.data.len());
        Ok(self.data[start..end].to_vec())
    }
}


fn options() -> DeviceOptions {
    DeviceOptions {
        read_size: 4096,
        sector_size: 512,
    }
}

/// A healthy device reads through unchanged.
#[test]
fn a_clean_device_reads_identically() {
    let data: Vec<u8> = (0..10_000u32).map(|i| (i % 251) as u8).collect();
    let mut reader = DeviceReader::new(FaultyReader::new(data.clone(), 0..0), 10_000, options());

    let back = read_all(&mut reader);

    assert_eq!(back, data);
    assert!(
        reader.unreadable().is_empty(),
        "nothing should be unreadable"
    );
}

/// A bad sector is recorded, not zero-filled, and the image keeps its size.
#[test]
fn a_bad_sector_is_recorded_and_filled_with_placeholder() {
    let data = vec![0xAAu8; 8192];
    // One sector at 2048 fails.
    let faulty = FaultyReader::new(data, 2048..2560);
    let mut reader = DeviceReader::new(faulty, 8192, options());

    let back = read_all(&mut reader);

    assert_eq!(back.len(), 8192, "the image must keep the medium's size");
    assert_eq!(reader.unreadable().len(), 1, "one region");
    let region = &reader.unreadable()[0];
    assert_eq!(region.start, 2048);
    assert_eq!(region.length, 512);
    assert_eq!(reader.unreadable_bytes(), 512);

    // Good data survives on both sides.
    assert!(back[..2048].iter().all(|&b| b == 0xAA));
    assert!(back[2560..].iter().all(|&b| b == 0xAA));

    // The gap is the specification's placeholder, NOT zeroes.
    let gap = &back[2048..2560];
    assert!(
        !gap.iter().all(|&b| b == 0),
        "unreadable regions must never be zero-filled: a zeroed gap is \
         indistinguishable from genuinely zeroed evidence"
    );
    assert!(
        gap.windows(PATTERN.len())
            .any(|w| w == PATTERN),
        "the gap must carry the UnreadableData pattern, got {:?}",
        &gap[..32]
    );
}

/// Adjacent bad sectors merge into one reported region.
#[test]
fn adjacent_bad_sectors_merge() {
    let data = vec![0x55u8; 8192];
    let faulty = FaultyReader::new(data, 1024..3072);
    let mut reader = DeviceReader::new(faulty, 8192, options());

    let back = read_all(&mut reader);

    assert_eq!(back.len(), 8192);
    assert_eq!(
        reader.unreadable().len(),
        1,
        "a contiguous bad run must report as one region, not {} \
         sector-sized ones",
        reader.unreadable().len()
    );
    assert_eq!(reader.unreadable()[0].length, 2048);
}

/// **Performance regression.** Small caller reads must not become small
/// device reads.
///
/// The stream writer asks for one `chunk_size` at a time — 32 KiB. Turning
/// each of those into its own seek-and-read against the device measured
/// 11.2 MiB/s at 2.79 ms per read on a USB drive: idle between requests,
/// not saturated. A 15 GiB acquisition would cost 488,000 request pairs
/// instead of 15,000.
///
/// Asserted by counting what reaches the device, which is deterministic —
/// unlike a throughput threshold, which would be flaky on shared hardware.
#[test]
fn small_caller_reads_do_not_become_small_device_reads() {
    let total = 4 * 1024 * 1024;
    let source = Counting {
        data: vec![0x5Au8; total],
        reads: 0,
        seeks: 0,
    };
    let mut reader = DeviceReader::new(
        source,
        total as u64,
        DeviceOptions {
            read_size: 1 << 20,
            sector_size: 512,
        },
    );

    // Read the whole device the way the stream writer does: 32 KiB at a
    // time. That is 128 caller reads.
    let mut got = 0usize;
    while got < total {
        let n = reader.read(32 * 1024).len();
        if n == 0 {
            break;
        }
        got += n;
    }
    assert_eq!(got, total, "the whole device must be delivered");

    let source = reader.into_medium();
    // 4 MiB at 1 MiB per fill is 4 device reads (plus a trailing empty
    // one). Without buffering this was 128 — one per caller read.
    assert!(
        source.reads <= 8,
        "expected ~4 device reads for 4 MiB at 1 MiB blocks, got {} — the \
         caller's 32 KiB granularity is reaching the device",
        source.reads
    );
    // And a sequential read needs no seek at all.
    assert_eq!(
        source.seeks, 0,
        "sequential reading must not seek; {} seeks issued",
        source.seeks
    );
}

/// The placeholder is reproducible: the same range yields the same bytes.
#[test]
fn placeholder_content_is_reproducible() {
    let mut a = vec![0u8; 512];
    let mut b = vec![0u8; 512];
    fill_unreadable(&mut a, 4096);
    fill_unreadable(&mut b, 4096);
    assert_eq!(a, b, "a digest over an unreadable region must be stable");

    let mut c = vec![0u8; 512];
    fill_unreadable(&mut c, 4097);
    assert_ne!(a, c, "the pattern is offset-phased");
}

/// A medium with a head: a read goes on where the last one left it, unless it seeks.
struct Headed {
    data: Vec<u8>,
    head: usize,
    bad: std::ops::Range<usize>,
}

impl Medium for Headed {
    fn read(&mut self, offset: u64, seek: bool, len: usize) -> Result<Vec<u8>, String> {
        if seek {
            self.head = offset as usize;
        }
        let end = (self.head + len).min(self.data.len());
        if self.head < self.bad.end && end > self.bad.start {
            self.head = end;
            return Err("input/output error".to_owned());
        }
        let got = self.data[self.head..end].to_vec();
        self.head = end;
        Ok(got)
    }
}

/// What lies outside every unreadable region is what the medium holds there.
#[test]
fn bytes_behind_a_bad_sector_come_from_their_own_place() {
    let data: Vec<u8> = (0..612u32).map(|i| (i % 251) as u8).collect();
    for read_size in [512, 612, 1024, 4096] {
        let medium = Headed {
            data: data.clone(),
            head: 0,
            bad: 500..512,
        };
        let small = DeviceOptions {
            read_size,
            sector_size: 512,
        };
        let mut reader = DeviceReader::new(medium, 612, small);
        let back = read_all(&mut reader);
        assert_eq!(back.len(), 612);
        let held: Vec<usize> = (0..612)
            .filter(|i| {
                !reader
                    .unreadable()
                    .iter()
                    .any(|r| r.start <= *i as u64 && (*i as u64) < r.start + r.length)
            })
            .collect();
        assert!(held.iter().any(|i| *i >= 512));
        for i in held {
            assert_eq!(back[i], data[i], "byte {i}");
        }
    }
}

/// Fails wherever a read touches a bad byte.
struct Scarred {
    data: Vec<u8>,
    bad: Vec<std::ops::Range<usize>>,
}

impl Medium for Scarred {
    fn read(&mut self, offset: u64, _seek: bool, len: usize) -> Result<Vec<u8>, String> {
        let start = (offset as usize).min(self.data.len());
        let end = (start + len).min(self.data.len());
        if self.bad.iter().any(|b| b.start < end && start < b.end) {
            return Err("input/output error".to_owned());
        }
        Ok(self.data[start..end].to_vec())
    }
}

/// However much is asked for at a time: every byte is that of the medium or the
/// pattern's, every bad byte lies in a region, and no region holds a sector without one.
#[test]
fn a_device_is_read_to_its_end_around_every_bad_byte() {
    let data: Vec<u8> = (0..3000u32).map(|i| (i % 251) as u8).collect();
    let bad = vec![0..1, 700..701, 1020..1030, 2999..3000];
    for asked in [1usize, 7, 300, 4000] {
        let medium = Scarred {
            data: data.clone(),
            bad: bad.clone(),
        };
        let small = DeviceOptions {
            read_size: 1024,
            sector_size: 100,
        };
        let mut reader = DeviceReader::new(medium, 3000, small);
        let mut back = Vec::new();
        loop {
            let more = reader.read(asked);
            if more.is_empty() {
                break;
            }
            assert!(more.len() <= asked);
            back.extend(more);
        }
        assert_eq!(back.len(), 3000);
        let mut pattern = vec![0u8; 3000];
        fill_unreadable(&mut pattern, 0);
        let mut within = 0u64;
        for i in 0..3000usize {
            let lost = reader
                .unreadable()
                .iter()
                .any(|r| r.start <= i as u64 && (i as u64) < r.start + r.length);
            if lost {
                within += 1;
                assert_eq!(back[i], pattern[i], "byte {i}");
            } else {
                assert_eq!(back[i], data[i], "byte {i}");
                assert!(!bad.iter().any(|b| b.contains(&i)), "byte {i}");
            }
        }
        assert_eq!(reader.unreadable_bytes(), within);
        assert!(reader.unreadable().len() >= bad.len());
    }
}
