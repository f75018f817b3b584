//! Reading a block device, and surviving the sectors that will not read.
//!
//! Failing media is often the very evidence, so a failed read cannot end an
//! acquisition; and it must not be filled with zeros, which could be evidence. The
//! read is narrowed to single sectors, those that fail are recorded, and in their
//! place stands the content that the standard defines for unreadable data.

use std::ops::Range;

use vstd::prelude::*;

use crate::bytes;
use crate::text;

verus! {

/// A region that the medium refused to return.
#[derive(Debug)]
pub struct UnreadableRegion {
    /// Where it begins.
    pub start: u64,
    /// How many bytes could not be read.
    pub length: u64,
    /// What the system said.
    pub reason: String,
}

/// An [`UnreadableRegion`], as plain values.
#[verifier::ext_equal]
pub struct RegionView {
    /// Where it begins.
    pub start: u64,
    /// How many bytes could not be read.
    pub length: u64,
    /// What the system said.
    pub reason: Seq<char>,
}

impl View for UnreadableRegion {
    type V = RegionView;

    open spec fn view(&self) -> RegionView {
        RegionView { start: self.start, length: self.length, reason: self.reason@ }
    }
}

/// Regions, as plain values.
pub open spec fn region_views(list: Seq<UnreadableRegion>) -> Seq<RegionView> {
    Seq::new(list.len(), |i: int| list[i]@)
}

impl UnreadableRegion {
    /// The bytes that the region covers, its end not among them.
    pub fn range(&self) -> (r: Range<u64>)
        requires
            self.start + self.length <= u64::MAX,
        ensures
            r.start == self.start,
            r.end == self.start + self.length,
    {
        self.start..self.start + self.length
    }
}

/// How a device is read.
#[derive(Debug, Clone, Copy, PartialEq, Eq, Structural)]
pub struct DeviceOptions {
    /// Bytes per read where all is well.
    pub read_size: usize,
    /// Bytes per read once something failed: one bad sector costs one sector.
    pub sector_size: usize,
}

impl Default for DeviceOptions {
    fn default() -> (r: Self)
        ensures
            r == (DeviceOptions { read_size: 1048576, sector_size: 512 }),
    {
        DeviceOptions { read_size: 1048576, sector_size: 512 }
    }
}

/// The bytes that unreadable data consists of, again and again: the letters of
/// `UNREADABLEDATA`.
pub open spec fn unreadable_pattern() -> Seq<u8> {
    seq![85, 78, 82, 69, 65, 68, 65, 66, 76, 69, 68, 65, 84, 65]
}

/// What stands for `n` unreadable bytes at an offset. It depends on the offset
/// alone, so that a digest over it is the same however it is read.
pub open spec fn placeholder(offset: nat, n: nat) -> Seq<u8> {
    Seq::new(n, |i: int| unreadable_pattern()[(offset + i) % 14])
}

/// The same range has the same placeholder, however it is divided.
pub proof fn placeholders_are_reproducible(offset: nat, a: nat, b: nat)
    ensures
        placeholder(offset, a + b) == placeholder(offset, a) + placeholder(offset + a, b),
{
    assert(placeholder(offset, a + b) =~= placeholder(offset, a) + placeholder(offset + a, b));
}

/// What stands for unreadable bytes.
fn placeholder_bytes(offset: u64, n: usize) -> (r: Vec<u8>)
    ensures
        r@ == placeholder(offset as nat, n as nat),
{
    let pattern: [u8; 14] = [85, 78, 82, 69, 65, 68, 65, 66, 76, 69, 68, 65, 84, 65];
    let mut out: Vec<u8> = Vec::new();
    let mut phase: usize = (offset % 14) as usize;
    let mut i: usize = 0;
    proof {
        assert(pattern@ =~= unreadable_pattern());
    }
    while i < n
        invariant
            i <= n,
            phase < 14,
            phase == (offset + i) % 14,
            pattern@ == unreadable_pattern(),
            out@ == placeholder(offset as nat, i as nat),
        decreases n - i,
    {
        out.push(pattern[phase]);
        proof {
            assert(out@ =~= placeholder(offset as nat, (i + 1) as nat));
        }
        phase = if phase == 13 {
            0
        } else {
            phase + 1
        };
        i = i + 1;
    }
    out
}

/// Fill a buffer with what stands for unreadable bytes at an offset.
pub fn fill_unreadable(buf: &mut Vec<u8>, offset: u64)
    ensures
        final(buf)@ == placeholder(offset as nat, old(buf)@.len()),
{
    let n: usize = buf.len();
    *buf = placeholder_bytes(offset, n);
}

/// One read asked of a medium.
#[verifier::ext_equal]
pub struct Asked {
    /// Where.
    pub offset: u64,
    /// Whether the medium is to be moved there: it is there already otherwise.
    pub seek: bool,
    /// How many bytes.
    pub len: usize,
}

/// What a read returned, as plain values.
pub open spec fn outcome_view(r: Result<Vec<u8>, String>) -> Result<Seq<u8>, Seq<char>> {
    match r {
        Ok(data) => Ok(data@),
        Err(reason) => Err(reason@),
    }
}

/// A medium that can be read, and that may fail or answer differently each time.
///
/// What was asked and answered is for contracts alone: an implementation that nothing
/// verifies leaves it as it is.
pub trait Medium: Sized {
    /// What was asked of it.
    open spec fn asked(&self) -> Seq<Asked> {
        arbitrary()
    }

    /// What it answered to each.
    open spec fn answered(&self) -> Seq<Result<Seq<u8>, Seq<char>>> {
        arbitrary()
    }

    /// Read up to `len` bytes at `offset`, fewer only at the medium's end; or say
    /// why not.
    fn read(&mut self, offset: u64, seek: bool, len: usize) -> (r: Result<Vec<u8>, String>)
        ensures
            final(self).asked() == old(self).asked().push(Asked { offset, seek, len }),
            final(self).answered() == old(self).answered().push(outcome_view(r)),
            r matches Ok(data) ==> data@.len() <= len,
    ;
}

/// A region noted: it joins the one before where they touch.
pub open spec fn noted(regions: Seq<RegionView>, start: nat, length: nat, reason: Seq<char>) -> Seq<
    RegionView,
> {
    if regions.len() > 0 && regions.last().start + regions.last().length == start {
        let last = regions.last();
        regions.drop_last().push(RegionView { length: (last.length + length) as u64, ..last })
    } else {
        regions.push(RegionView { start: start as u64, length: length as u64, reason })
    }
}

/// Why a sector is given up: what the second attempt said.
pub open spec fn sector_reason(second: Result<Seq<u8>, Seq<char>>) -> Seq<char> {
    match second {
        Err(reason) => reason,
        Ok(_) => "short read"@,
    }
}

/// A read narrowed to sectors, as far as it has come.
#[verifier::ext_equal]
pub struct Narrowed {
    /// The bytes produced.
    pub bytes: Seq<u8>,
    /// The regions recorded.
    pub regions: Seq<RegionView>,
    /// What was asked.
    pub asked: Seq<Asked>,
}

/// A read of `want` bytes at an offset, narrowed to sectors, after `k` of them,
/// given what the medium answered. A sector that fails is tried once more for its
/// reason, and its place is taken by what stands for unreadable data.
pub open spec fn narrowed(
    answers: Seq<Result<Seq<u8>, Seq<char>>>,
    offset: nat,
    want: nat,
    sector: nat,
    regions: Seq<RegionView>,
    k: nat,
) -> Narrowed
    decreases k,
{
    if k == 0 {
        Narrowed { bytes: Seq::empty(), regions, asked: Seq::empty() }
    } else {
        let before = narrowed(answers, offset, want, sector, regions, (k - 1) as nat);
        let done = before.bytes.len();
        if done >= want {
            before
        } else {
            let n = if want - done < sector {
                (want - done) as nat
            } else {
                sector
            };
            let at = offset + done;
            let ask = Asked { offset: at as u64, seek: true, len: n as usize };
            let first = answers[before.asked.len() as int];
            if first is Ok && first->Ok_0.len() == n {
                Narrowed {
                    bytes: before.bytes + first->Ok_0,
                    regions: before.regions,
                    asked: before.asked.push(ask),
                }
            } else {
                let second = answers[before.asked.len() as int + 1];
                Narrowed {
                    bytes: before.bytes + placeholder(at, n),
                    regions: noted(before.regions, at, n, sector_reason(second)),
                    asked: before.asked.push(ask).push(ask),
                }
            }
        }
    }
}

/// A device reader, as plain values.
#[verifier::ext_equal]
pub struct DeviceView {
    /// How the device is read.
    pub options: DeviceOptions,
    /// Where the next block begins.
    pub position: nat,
    /// How long the device is.
    pub total: nat,
    /// Where the medium is; a place behind every device where that is not known.
    pub sought: nat,
    /// What was read and not handed out.
    pub pending: Seq<u8>,
    /// The regions recorded.
    pub regions: Seq<RegionView>,
}

/// A block read: the bytes, the reader afterwards, and what was asked.
#[verifier::ext_equal]
pub struct BlockView {
    /// The bytes.
    pub bytes: Seq<u8>,
    /// The reader afterwards.
    pub device: DeviceView,
    /// What was asked.
    pub asked: Seq<Asked>,
}

/// How many bytes a block has: as many as are asked for, up to the device's end.
pub open spec fn block_length(d: DeviceView, len: nat) -> nat {
    if d.position >= d.total {
        0
    } else if d.total - d.position < len {
        (d.total - d.position) as nat
    } else {
        len
    }
}

/// A block read, given what the medium answered: whole where that works, else
/// narrowed to sectors, after which the medium may stand anywhere.
pub open spec fn block_read(d: DeviceView, len: nat, answers: Seq<Result<Seq<u8>, Seq<char>>>) -> BlockView {
    let want = block_length(d, len);
    if d.position >= d.total {
        BlockView { bytes: Seq::empty(), device: d, asked: Seq::empty() }
    } else {
        let ask = Asked {
            offset: d.position as u64,
            seek: d.position != d.sought,
            len: want as usize,
        };
        let end = d.position + want;
        if answers[0] is Ok && answers[0]->Ok_0.len() == want {
            BlockView {
                bytes: answers[0]->Ok_0,
                device: DeviceView { position: end, sought: end, ..d },
                asked: seq![ask],
            }
        } else {
            let n = narrowed(
                answers.skip(1),
                d.position,
                want,
                d.options.sector_size as nat,
                d.regions,
                want,
            );
            BlockView {
                bytes: n.bytes,
                device: DeviceView {
                    position: end,
                    sought: u64::MAX as nat,
                    regions: n.regions,
                    ..d
                },
                asked: seq![ask] + n.asked,
            }
        }
    }
}

/// Whether regions are in order, do not overlap or touch, and end by a limit.
pub open spec fn regions_ok(regions: Seq<RegionView>, limit: nat) -> bool {
    &&& forall|i: int|
        0 <= i < regions.len() ==> (#[trigger] regions[i]).start + regions[i].length <= limit
    &&& forall|i: int, j: int|
        0 <= i < j < regions.len() ==> (#[trigger] regions[i]).start + regions[i].length < (
        #[trigger] regions[j]).start
}

/// Noting a region after all others keeps them in order.
proof fn noting_keeps_order(
    regions: Seq<RegionView>,
    start: nat,
    length: nat,
    reason: Seq<char>,
)
    requires
        regions_ok(regions, start),
        start + length <= u64::MAX,
    ensures
        regions_ok(noted(regions, start, length, reason), start + length),
{
    let after = noted(regions, start, length, reason);
    assert forall|i: int, j: int| 0 <= i < j < after.len() implies (#[trigger] after[i]).start
        + after[i].length < (#[trigger] after[j]).start by {
        if i < regions.len() {
            assert(after[i] == regions[i]);
        }
    }
}

/// How many bytes some regions cover.
pub open spec fn covered(regions: Seq<RegionView>) -> nat
    decreases regions.len(),
{
    if regions.len() == 0 {
        0
    } else {
        covered(regions.drop_last()) + regions.last().length as nat
    }
}

/// Regions in order cover no more than there is.
proof fn covered_is_bounded(regions: Seq<RegionView>, limit: nat)
    requires
        regions_ok(regions, limit),
    ensures
        covered(regions) <= limit,
    decreases regions.len(),
{
    if regions.len() > 0 {
        let last = regions[regions.len() - 1];
        let front = regions.drop_last();
        assert forall|i: int| 0 <= i < front.len() implies (#[trigger] front[i]).start
            + front[i].length <= last.start by {
            assert(front[i] == regions[i]);
        }
        covered_is_bounded(front, last.start as nat);
    }
}

/// What a narrowed read has produced: never more than is wanted, at least a byte
/// for each sector, with its regions in order.
proof fn narrowing_is_sound(
    answers: Seq<Result<Seq<u8>, Seq<char>>>,
    offset: nat,
    want: nat,
    sector: nat,
    regions: Seq<RegionView>,
    k: nat,
)
    requires
        sector > 0,
        offset + want <= u64::MAX,
        regions_ok(regions, offset),
    ensures
        ({
            let n = narrowed(answers, offset, want, sector, regions, k);
            &&& n.bytes.len() <= want
            &&& n.bytes.len() >= k || n.bytes.len() == want
            &&& regions_ok(n.regions, offset + n.bytes.len())
        }),
    decreases k,
{
    if k > 0 {
        narrowing_is_sound(answers, offset, want, sector, regions, (k - 1) as nat);
        let before = narrowed(answers, offset, want, sector, regions, (k - 1) as nat);
        let done = before.bytes.len();
        if done < want {
            let n = if want - done < sector {
                (want - done) as nat
            } else {
                sector
            };
            let after = narrowed(answers, offset, want, sector, regions, k);
            let first = answers[before.asked.len() as int];
            if first is Ok && first->Ok_0.len() == n {
                assert(regions_ok(after.regions, offset + after.bytes.len()));
            } else {
                let second = answers[before.asked.len() as int + 1];
                noting_keeps_order(before.regions, offset + done, n, sector_reason(second));
            }
        }
    }
}

/// A narrowed read that is complete stays as it is.
proof fn narrowing_settles(
    answers: Seq<Result<Seq<u8>, Seq<char>>>,
    offset: nat,
    want: nat,
    sector: nat,
    regions: Seq<RegionView>,
    k: nat,
    later: nat,
)
    requires
        k <= later,
        narrowed(answers, offset, want, sector, regions, k).bytes.len() >= want,
    ensures
        narrowed(answers, offset, want, sector, regions, later) == narrowed(
            answers,
            offset,
            want,
            sector,
            regions,
            k,
        ),
    decreases later,
{
    if k < later {
        narrowing_settles(answers, offset, want, sector, regions, k, (later - 1) as nat);
    }
}

/// Later answers change nothing of what was done with earlier ones.
proof fn narrowing_ignores_later_answers(
    a: Seq<Result<Seq<u8>, Seq<char>>>,
    b: Seq<Result<Seq<u8>, Seq<char>>>,
    offset: nat,
    want: nat,
    sector: nat,
    regions: Seq<RegionView>,
    k: nat,
)
    requires
        a.len() <= b.len(),
        b.take(a.len() as int) == a,
        narrowed(a, offset, want, sector, regions, k).asked.len() <= a.len(),
    ensures
        narrowed(b, offset, want, sector, regions, k) == narrowed(
            a,
            offset,
            want,
            sector,
            regions,
            k,
        ),
    decreases k,
{
    if k > 0 {
        let before = narrowed(a, offset, want, sector, regions, (k - 1) as nat);
        narrowing_ignores_later_answers(a, b, offset, want, sector, regions, (k - 1) as nat);
        let i = before.asked.len() as int;
        if before.bytes.len() < want {
            assert(b.take(a.len() as int)[i] == b[i]);
            if i + 1 < a.len() {
                assert(b.take(a.len() as int)[i + 1] == b[i + 1]);
            }
        }
    }
}

/// Reads a device, with recorded placeholders for what will not read.
pub struct DeviceReader<S: Medium> {
    source: S,
    options: DeviceOptions,
    position: u64,
    total: u64,
    unreadable: Vec<UnreadableRegion>,
    buffer: Vec<u8>,
    used: usize,
    sought: u64,
}

impl<S: Medium> DeviceReader<S> {
    /// The reader, as plain values.
    pub closed spec fn view(&self) -> DeviceView {
        DeviceView {
            options: self.options,
            position: self.position as nat,
            total: self.total as nat,
            sought: self.sought as nat,
            pending: self.buffer@.skip(self.used as int),
            regions: region_views(self.unreadable@),
        }
    }

    /// The medium.
    pub closed spec fn medium(&self) -> S {
        self.source
    }

    /// Whether the reader is sound: the regions recorded are in order, before the
    /// position, and sectors have a size.
    pub closed spec fn wf(&self) -> bool {
        &&& self.options.sector_size > 0
        &&& self.position <= self.total
        &&& self.used <= self.buffer@.len()
        &&& regions_ok(region_views(self.unreadable@), self.position as nat)
    }

    /// Read a medium that has `total` bytes.
    pub fn new(source: S, total: u64, options: DeviceOptions) -> (r: Self)
        requires
            options.sector_size > 0,
        ensures
            r.wf(),
            r.medium() == source,
            r.view() == (DeviceView {
                options,
                position: 0,
                total: total as nat,
                sought: 0,
                pending: Seq::empty(),
                regions: Seq::empty(),
            }),
    {
        let r = DeviceReader {
            source,
            options,
            position: 0,
            total,
            unreadable: Vec::new(),
            buffer: Vec::new(),
            used: 0,
            sought: 0,
        };
        proof {
            assert(r.buffer@.skip(0) =~= Seq::<u8>::empty());
            assert(region_views(r.unreadable@) =~= Seq::<RegionView>::empty());
        }
        r
    }

    /// Every region that could not be read, in order.
    pub fn unreadable(&self) -> (r: &Vec<UnreadableRegion>)
        ensures
            region_views(r@) == self.view().regions,
    {
        &self.unreadable
    }

    /// How many bytes could not be read.
    pub fn unreadable_bytes(&self) -> (r: u64)
        requires
            self.wf(),
        ensures
            r == covered(self.view().regions),
    {
        let ghost all = region_views(self.unreadable@);
        let mut sum: u64 = 0;
        let mut i: usize = 0;
        proof {
            assert(all.take(0) =~= Seq::<RegionView>::empty());
        }
        while i < self.unreadable.len()
            invariant
                i <= self.unreadable.len(),
                all == region_views(self.unreadable@),
                regions_ok(all, self.position as nat),
                sum == covered(all.take(i as int)),
            decreases self.unreadable.len() - i,
        {
            proof {
                assert(all.take(i + 1).drop_last() =~= all.take(i as int));
                assert(all.take(i + 1).last() == self.unreadable@[i as int]@);
                assert forall|k: int| 0 <= k < i + 1 implies (#[trigger] all.take(i + 1)[k]).start
                    + all.take(i + 1)[k].length <= self.position by {
                    assert(all.take(i + 1)[k] == all[k]);
                }
                assert forall|a: int, b: int| 0 <= a < b < i + 1 implies (
                #[trigger] all.take(i + 1)[a]).start + all.take(i + 1)[a].length <= (
                #[trigger] all.take(i + 1)[b]).start by {
                    assert(all.take(i + 1)[a] == all[a]);
                    assert(all.take(i + 1)[b] == all[b]);
                }
                covered_is_bounded(all.take(i + 1), self.position as nat);
            }
            sum = sum + self.unreadable[i].length;
            i = i + 1;
        }
        proof {
            assert(all.take(i as int) =~= all);
        }
        sum
    }

    /// Note a region that could not be read.
    fn note_unreadable(&mut self, start: u64, length: u64, reason: String)
        requires
            start + length <= u64::MAX,
            regions_ok(region_views(old(self).unreadable@), start as nat),
        ensures
            region_views(final(self).unreadable@) == noted(
                region_views(old(self).unreadable@),
                start as nat,
                length as nat,
                reason@,
            ),
            final(self).source == old(self).source,
            final(self).options == old(self).options,
            final(self).position == old(self).position,
            final(self).total == old(self).total,
            final(self).buffer == old(self).buffer,
            final(self).used == old(self).used,
            final(self).sought == old(self).sought,
    {
        let ghost before = self.unreadable@;
        match self.unreadable.pop() {
            Some(last) => {
                let UnreadableRegion { start: from, length: old_length, reason: old_reason } = last;
                proof {
                    assert(region_views(before).last() == last@);
                    assert(region_views(before)[before.len() - 1].start + region_views(
                        before,
                    )[before.len() - 1].length <= start);
                    assert(region_views(self.unreadable@) =~= region_views(before).drop_last());
                }
                if from + old_length == start {
                    self.unreadable.push(
                        UnreadableRegion {
                            start: from,
                            length: old_length + length,
                            reason: old_reason,
                        },
                    );
                } else {
                    self.unreadable.push(
                        UnreadableRegion { start: from, length: old_length, reason: old_reason },
                    );
                    self.unreadable.push(UnreadableRegion { start, length, reason });
                }
                proof {
                    assert(region_views(self.unreadable@) =~= noted(
                        region_views(before),
                        start as nat,
                        length as nat,
                        reason@,
                    ));
                }
            },
            None => {
                self.unreadable.push(UnreadableRegion { start, length, reason });
                proof {
                    assert(region_views(before).len() == 0);
                    assert(region_views(self.unreadable@) =~= noted(
                        region_views(before),
                        start as nat,
                        length as nat,
                        reason@,
                    ));
                }
            },
        }
    }

    /// Read one sector: its bytes, or what stands for them, recorded.
    fn read_sector(&mut self, offset: u64, n: usize) -> (r: Vec<u8>)
        requires
            offset + n <= u64::MAX,
            regions_ok(region_views(old(self).unreadable@), offset as nat),
        ensures
            final(self).options == old(self).options,
            final(self).position == old(self).position,
            final(self).total == old(self).total,
            final(self).buffer == old(self).buffer,
            final(self).used == old(self).used,
            final(self).sought == old(self).sought,
            final(self).source.asked().len() - old(self).source.asked().len()
                == final(self).source.answered().len() - old(self).source.answered().len(),
            ({
                let asked = old(self).source.asked();
                let answered = old(self).source.answered();
                let ask = Asked { offset, seek: true, len: n };
                let first = final(self).source.answered()[answered.len() as int];
                if first is Ok && first->Ok_0.len() == n {
                    &&& final(self).source.answered() == answered.push(first)
                    &&& final(self).source.asked() == asked.push(ask)
                    &&& r@ == first->Ok_0
                    &&& region_views(final(self).unreadable@) == region_views(old(self).unreadable@)
                } else {
                    let second = final(self).source.answered()[answered.len() as int + 1];
                    &&& final(self).source.answered() == answered.push(first).push(second)
                    &&& final(self).source.asked() == asked.push(ask).push(ask)
                    &&& r@ == placeholder(offset as nat, n as nat)
                    &&& region_views(final(self).unreadable@) == noted(
                        region_views(old(self).unreadable@),
                        offset as nat,
                        n as nat,
                        sector_reason(second),
                    )
                }
            }),
    {
        match self.source.read(offset, true, n) {
            Ok(data) => {
                if data.len() == n {
                    return data;
                }
            },
            Err(_) => {},
        }
        let reason = match self.source.read(offset, true, n) {
            Err(reason) => reason,
            Ok(_) => text::owned("short read"),
        };
        self.note_unreadable(offset, n as u64, reason);
        placeholder_bytes(offset, n)
    }

    /// Read a block, tolerating what will not read. The bytes that stand for it are
    /// counted: an image has the size that the medium claims.
    fn read_tolerantly(&mut self, len: usize) -> (r: Vec<u8>)
        requires
            old(self).wf(),
        ensures
            final(self).wf(),
            final(self).source.answered().take(old(self).source.answered().len() as int) == old(
                self,
            ).source.answered(),
            ({
                let answers = final(self).source.answered().skip(
                    old(self).source.answered().len() as int,
                );
                let block = block_read(old(self).view(), len as nat, answers);
                &&& final(self).view() == block.device
                &&& r@ == block.bytes
                &&& final(self).source.asked() == old(self).source.asked() + block.asked
                &&& answers.len() == block.asked.len()
            }),
            r@.len() == block_length(old(self).view(), len as nat),
    {
        let ghost answered = self.source.answered();
        let ghost asked = self.source.asked();
        let ghost d = self.view();
        if self.position >= self.total {
            let none: Vec<u8> = Vec::new();
            proof {
                assert(none@ =~= Seq::<u8>::empty());
                assert(answered.take(answered.len() as int) =~= answered);
                assert(asked + Seq::<Asked>::empty() =~= asked);
                assert(answered.skip(answered.len() as int).len() == 0);
            }
            return none;
        }
        let left: u64 = self.total - self.position;
        let want: usize = if left < len as u64 {
            left as usize
        } else {
            len
        };
        let first = self.source.read(self.position, self.position != self.sought, want);
        let ghost start = self.source.answered();
        let ghost ask = Asked {
            offset: d.position as u64,
            seek: d.position != d.sought,
            len: want,
        };
        proof {
            assert(start.skip(answered.len() as int) =~= seq![outcome_view(first)]);
            assert(start.take(answered.len() as int) =~= answered);
        }
        match first {
            Ok(data) => {
                if data.len() == want {
                    self.position = self.position + want as u64;
                    self.sought = self.position;
                    proof {
                        assert(self.source.asked() =~= asked + seq![ask]);
                    }
                    return data;
                }
            },
            Err(_) => {},
        }
        let sector: usize = self.options.sector_size;
        let mut out: Vec<u8> = Vec::new();
        let ghost mut k: nat = 0;
        proof {
            assert(self.source.answered().skip(start.len() as int) =~= Seq::<
                Result<Seq<u8>, Seq<char>>,
            >::empty());
            assert(self.source.answered().take(start.len() as int) =~= start);
            assert(self.source.asked() =~= asked.push(ask) + Seq::<Asked>::empty());
        }
        while out.len() < want
            invariant
                sector > 0,
                sector == d.options.sector_size,
                d.position + want <= d.total <= u64::MAX,
                regions_ok(d.regions, d.position),
                self.options == d.options,
                self.position == d.position,
                self.total == d.total,
                self.buffer@.skip(self.used as int) == d.pending,
                self.used <= self.buffer@.len(),
                start == answered.push(start[answered.len() as int]),
                self.source.answered().len() >= start.len(),
                self.source.answered().take(start.len() as int) == start,
                ({
                    let answers = self.source.answered().skip(start.len() as int);
                    let n = narrowed(
                        answers,
                        d.position,
                        want as nat,
                        sector as nat,
                        d.regions,
                        k,
                    );
                    &&& out@ == n.bytes
                    &&& region_views(self.unreadable@) == n.regions
                    &&& self.source.asked() == asked.push(ask) + n.asked
                    &&& answers.len() == n.asked.len()
                    &&& out@.len() <= want
                    &&& regions_ok(n.regions, d.position + out@.len())
                }),
            decreases want - out.len(),
        {
            let ghost before = self.source.answered();
            let ghost old_answers = before.skip(start.len() as int);
            let ghost old_asked = self.source.asked();
            let ghost old_n = narrowed(
                old_answers,
                d.position,
                want as nat,
                sector as nat,
                d.regions,
                k,
            );
            let rest: usize = want - out.len();
            let n: usize = if rest < sector {
                rest
            } else {
                sector
            };
            let offset: u64 = self.position + out.len() as u64;
            let piece = self.read_sector(offset, n);
            bytes::append(&mut out, piece.as_slice());
            proof {
                let now = self.source.answered();
                let answers = now.skip(start.len() as int);
                assert(now.take(start.len() as int) =~= start) by {
                    assert(before.take(start.len() as int) =~= start);
                    assert forall|i: int| 0 <= i < start.len() implies now[i] == start[i] by {
                        assert(before.take(start.len() as int)[i] == before[i]);
                        assert(now[i] == before[i]);
                    }
                }
                assert(answers.take(old_answers.len() as int) =~= old_answers);
                narrowing_ignores_later_answers(
                    old_answers,
                    answers,
                    d.position,
                    want as nat,
                    sector as nat,
                    d.regions,
                    k,
                );
                let i = old_n.asked.len() as int;
                assert(answers[i] == now[before.len() as int]);
                let step = Asked { offset, seek: true, len: n };
                let new_n = narrowed(
                    answers,
                    d.position,
                    want as nat,
                    sector as nat,
                    d.regions,
                    k + 1,
                );
                if answers[i] is Ok && answers[i]->Ok_0.len() == n {
                    assert(self.source.asked() =~= asked.push(ask) + new_n.asked);
                } else {
                    assert(answers[i + 1] == now[before.len() as int + 1]);
                    assert(self.source.asked() =~= asked.push(ask) + new_n.asked);
                }
                narrowing_is_sound(
                    answers,
                    d.position,
                    want as nat,
                    sector as nat,
                    d.regions,
                    k + 1,
                );
                k = k + 1;
            }
        }
        self.position = self.position + want as u64;
        // Where the last sector left the medium is not known: the next block seeks.
        self.sought = u64::MAX;
        proof {
            let now = self.source.answered();
            let later = now.skip(start.len() as int);
            let answers = now.skip(answered.len() as int);
            assert(answers.skip(1) =~= later);
            assert(answers[0] == start[answered.len() as int]) by {
                assert(now.take(start.len() as int)[answered.len() as int]
                    == now[answered.len() as int]);
            }
            narrowing_is_sound(
                later,
                d.position,
                want as nat,
                sector as nat,
                d.regions,
                k,
            );
            narrowing_is_sound(
                later,
                d.position,
                want as nat,
                sector as nat,
                d.regions,
                want as nat,
            );
            if k <= want {
                narrowing_settles(
                    later,
                    d.position,
                    want as nat,
                    sector as nat,
                    d.regions,
                    k,
                    want as nat,
                );
            } else {
                narrowing_settles(
                    later,
                    d.position,
                    want as nat,
                    sector as nat,
                    d.regions,
                    want as nat,
                    k,
                );
            }
            let block = block_read(d, len as nat, answers);
            assert(asked.push(ask) + block.asked.skip(1) =~= asked + block.asked);
            assert(self.source.asked() =~= asked + block.asked);
            assert(now.take(answered.len() as int) =~= answered) by {
                assert forall|i: int| 0 <= i < answered.len() implies now[i] == answered[i] by {
                    assert(now.take(start.len() as int)[i] == now[i]);
                }
            }
        }
        out
    }
}

/// Whether a byte of a device lies in one of some regions.
pub open spec fn in_regions(regions: Seq<RegionView>, x: nat) -> bool {
    exists|r: int|
        0 <= r < regions.len() && (#[trigger] regions[r]).start <= x < regions[r].start
            + regions[r].length
}

/// A byte that was recorded as unreadable is what the standard defines for it, and
/// nothing else is recorded: what a sector failed to return is never made up
/// otherwise, and what it returned is never recorded as lost.
pub proof fn unreadable_bytes_are_placeholders(
    answers: Seq<Result<Seq<u8>, Seq<char>>>,
    offset: nat,
    want: nat,
    sector: nat,
    regions: Seq<RegionView>,
    k: nat,
    i: int,
)
    requires
        sector > 0,
        offset + want <= u64::MAX,
        regions_ok(regions, offset),
        0 <= i < narrowed(answers, offset, want, sector, regions, k).bytes.len(),
        in_regions(
            narrowed(answers, offset, want, sector, regions, k).regions,
            (offset + i) as nat,
        ),
    ensures
        narrowed(answers, offset, want, sector, regions, k).bytes[i]
            == unreadable_pattern()[(offset + i) % 14],
    decreases k,
{
    let before = narrowed(answers, offset, want, sector, regions, (k - 1) as nat);
    let after = narrowed(answers, offset, want, sector, regions, k);
    narrowing_is_sound(answers, offset, want, sector, regions, (k - 1) as nat);
    let done = before.bytes.len();
    let x = (offset + i) as nat;
    let r = choose|r: int|
        0 <= r < after.regions.len() && (#[trigger] after.regions[r]).start <= x
            < after.regions[r].start + after.regions[r].length;
    if done >= want {
        unreadable_bytes_are_placeholders(
            answers,
            offset,
            want,
            sector,
            regions,
            (k - 1) as nat,
            i,
        );
    } else {
        let n = if want - done < sector {
            (want - done) as nat
        } else {
            sector
        };
        let first = answers[before.asked.len() as int];
        if first is Ok && first->Ok_0.len() == n {
            assert(before.regions[r].start + before.regions[r].length <= offset + done);
            unreadable_bytes_are_placeholders(
                answers,
                offset,
                want,
                sector,
                regions,
                (k - 1) as nat,
                i,
            );
        } else if i < done {
            if r < before.regions.len() && after.regions[r] == before.regions[r] {
                assert(in_regions(before.regions, x));
            } else if before.regions.len() > 0 && before.regions.last().start
                + before.regions.last().length == offset + done {
                let last = before.regions.len() - 1;
                assert(before.regions[last].start <= x < before.regions[last].start
                    + before.regions[last].length);
                assert(in_regions(before.regions, x));
            }
            unreadable_bytes_are_placeholders(
                answers,
                offset,
                want,
                sector,
                regions,
                (k - 1) as nat,
                i,
            );
        }
    }
}

/// An image keeps the medium's size: every block is as long as is asked for, up to
/// the device's end, whatever the medium answers.
pub proof fn blocks_keep_size(
    d: DeviceView,
    len: nat,
    answers: Seq<Result<Seq<u8>, Seq<char>>>,
)
    requires
        d.options.sector_size > 0,
        d.position <= d.total <= u64::MAX,
        regions_ok(d.regions, d.position),
    ensures
        block_read(d, len, answers).bytes.len() == block_length(d, len),
        block_read(d, len, answers).device.position == d.position + block_length(d, len),
        block_read(d, len, answers).device.position <= d.total,
{
    let want = block_length(d, len);
    if d.position < d.total {
        narrowing_is_sound(
            answers.skip(1),
            d.position,
            want,
            d.options.sector_size as nat,
            d.regions,
            want,
        );
    }
}

/// Whether a byte is the one at a place of some bytes.
pub open spec fn agrees(byte: u8, data: Seq<u8>, x: int) -> bool {
    0 <= x < data.len() && byte == data[x]
}

/// Where a medium stands after one of the reads asked of it, where that is known: at
/// the end of what it returned, and anywhere after a failure.
pub open spec fn head_after(
    head: Option<nat>,
    ask: Asked,
    answer: Result<Seq<u8>, Seq<char>>,
) -> Option<nat> {
    match answer {
        Err(_) => None,
        Ok(data) => if ask.seek {
            Some(ask.offset as nat + data.len())
        } else {
            match head {
                Some(p) => Some(p + data.len()),
                None => None,
            }
        },
    }
}

/// Where a medium stands after the first `n` reads asked of it.
pub open spec fn head_at(
    head: Option<nat>,
    asked: Seq<Asked>,
    answers: Seq<Result<Seq<u8>, Seq<char>>>,
    n: nat,
) -> Option<nat>
    decreases n,
{
    if n == 0 {
        head
    } else {
        head_after(head_at(head, asked, answers, (n - 1) as nat), asked[n - 1], answers[n - 1])
    }
}

/// Whether an answer is what a medium holds, where the medium was told where to read
/// or stood.
pub open spec fn is_held(
    data: Seq<u8>,
    head: Option<nat>,
    ask: Asked,
    answer: Result<Seq<u8>, Seq<char>>,
) -> bool {
    let start = if ask.seek {
        Some(ask.offset as nat)
    } else {
        head
    };
    match answer {
        Err(_) => true,
        Ok(bytes) => match start {
            Some(p) => p + bytes.len() <= data.len() && bytes == data.subrange(
                p as int,
                (p + bytes.len()) as int,
            ),
            None => true,
        },
    }
}

/// Whether a medium that holds some bytes, and stands somewhere, answered with what it
/// holds wherever it answered at all.
pub open spec fn is_honest(
    data: Seq<u8>,
    head: Option<nat>,
    asked: Seq<Asked>,
    answers: Seq<Result<Seq<u8>, Seq<char>>>,
) -> bool {
    forall|j: int|
        0 <= j < asked.len() ==> is_held(
            data,
            head_at(head, asked, answers, j as nat),
            #[trigger] asked[j],
            answers[j],
        )
}

/// Whether one of some reads returned the byte at a place.
pub open spec fn was_returned(
    asked: Seq<Asked>,
    answers: Seq<Result<Seq<u8>, Seq<char>>>,
    x: nat,
) -> bool {
    exists|j: int|
        0 <= j < asked.len() && answers[j] is Ok && (#[trigger] asked[j]).offset <= x
            < asked[j].offset + answers[j]->Ok_0.len()
}

/// Whether a byte is what a medium holds at a place, and was returned by it.
pub open spec fn is_read(
    byte: u8,
    data: Seq<u8>,
    x: nat,
    asked: Seq<Asked>,
    answers: Seq<Result<Seq<u8>, Seq<char>>>,
) -> bool {
    agrees(byte, data, x as int) && was_returned(asked, answers, x)
}

/// Noting a region loses no other, and the region is noted.
proof fn noting_loses_nothing(
    regions: Seq<RegionView>,
    start: nat,
    length: nat,
    reason: Seq<char>,
    x: nat,
)
    requires
        regions_ok(regions, start),
        start + length <= u64::MAX,
        in_regions(regions, x) || start <= x < start + length,
    ensures
        in_regions(noted(regions, start, length, reason), x),
{
    let after = noted(regions, start, length, reason);
    let last = after.len() - 1;
    if start <= x < start + length {
        assert(after[last].start <= x < after[last].start + after[last].length);
    } else {
        let r = choose|r: int|
            0 <= r < regions.len() && (#[trigger] regions[r]).start <= x < regions[r].start
                + regions[r].length;
        if r < after.len() && after[r] == regions[r] {
            assert(after[r].start <= x < after[r].start + after[r].length);
        } else {
            assert(after[last].start <= x < after[last].start + after[last].length);
        }
    }
}

/// Of a read narrowed to sectors, what is in no region is what the medium holds there,
/// and was returned by it.
proof fn narrowed_bytes_are_held(
    data: Seq<u8>,
    answers: Seq<Result<Seq<u8>, Seq<char>>>,
    offset: nat,
    want: nat,
    sector: nat,
    regions: Seq<RegionView>,
    k: nat,
)
    requires
        sector > 0,
        want <= usize::MAX,
        offset + want <= u64::MAX,
        regions_ok(regions, offset),
        ({
            let n = narrowed(answers, offset, want, sector, regions, k);
            forall|j: int|
                0 <= j < n.asked.len() ==> is_held(data, None, #[trigger] n.asked[j], answers[j])
        }),
    ensures
        ({
            let n = narrowed(answers, offset, want, sector, regions, k);
            &&& forall|j: int| 0 <= j < n.asked.len() ==> (#[trigger] n.asked[j]).seek
            &&& forall|x: nat| #[trigger] in_regions(regions, x) ==> in_regions(n.regions, x)
            &&& forall|i: int|
                0 <= i < n.bytes.len() && !in_regions(n.regions, (offset + i) as nat)
                    ==> is_read(
                    #[trigger] n.bytes[i],
                    data,
                    (offset + i) as nat,
                    n.asked,
                    answers,
                )
        }),
    decreases k,
{
    if k > 0 {
        let before = narrowed(answers, offset, want, sector, regions, (k - 1) as nat);
        let after = narrowed(answers, offset, want, sector, regions, k);
        let done = before.bytes.len();
        assert forall|j: int| 0 <= j < before.asked.len() implies is_held(
            data,
            None,
            #[trigger] before.asked[j],
            answers[j],
        ) by {
            assert(after.asked[j] == before.asked[j]);
        }
        narrowed_bytes_are_held(data, answers, offset, want, sector, regions, (k - 1) as nat);
        narrowing_is_sound(answers, offset, want, sector, regions, (k - 1) as nat);
        if done < want {
            let n = if want - done < sector {
                (want - done) as nat
            } else {
                sector
            };
            let at = offset + done;
            let place = before.asked.len() as int;
            let first = answers[place];
            let good = first is Ok && first->Ok_0.len() == n;
            let reason = sector_reason(answers[place + 1]);
            assert forall|j: int| 0 <= j < after.asked.len() implies (
            #[trigger] after.asked[j]).seek by {
                if j < before.asked.len() {
                    assert(after.asked[j] == before.asked[j]);
                }
            }
            assert forall|x: nat| #[trigger] in_regions(regions, x) implies in_regions(
                after.regions,
                x,
            ) by {
                if !good {
                    noting_loses_nothing(before.regions, at, n, reason, x);
                }
            }
            assert forall|i: int|
                0 <= i < after.bytes.len() && !in_regions(
                    after.regions,
                    (offset + i) as nat,
                ) implies is_read(
                #[trigger] after.bytes[i],
                data,
                (offset + i) as nat,
                after.asked,
                answers,
            ) by {
                let x = (offset + i) as nat;
                if !good && (in_regions(before.regions, x) || at <= x < at + n) {
                    noting_loses_nothing(before.regions, at, n, reason, x);
                }
                if i < done {
                    assert(after.bytes[i] == before.bytes[i]);
                    let j = choose|j: int|
                        0 <= j < before.asked.len() && answers[j] is Ok && (
                        #[trigger] before.asked[j]).offset <= x < before.asked[j].offset
                            + answers[j]->Ok_0.len();
                    assert(after.asked[j] == before.asked[j]);
                } else {
                    assert(good);
                    assert(is_held(data, None, after.asked[place], answers[place]));
                    assert(after.bytes[i] == first->Ok_0[i - done]);
                    assert(after.asked[place].offset <= x < after.asked[place].offset
                        + answers[place]->Ok_0.len());
                }
            }
        } else {
            assert(after == before);
        }
    }
}

/// Whether what a reader has at hand is what the medium holds, but for what is in a
/// region.
pub open spec fn pending_is_held(data: Seq<u8>, d: DeviceView) -> bool {
    &&& d.pending.len() <= d.position
    &&& forall|i: int|
        0 <= i < d.pending.len() && !in_regions(
            d.regions,
            (d.position - d.pending.len() + i) as nat,
        ) ==> agrees(#[trigger] d.pending[i], data, d.position - d.pending.len() + i)
}

/// Whether a reader that counts on where the medium stands is right about it.
pub open spec fn knows_head(d: DeviceView, head: Option<nat>) -> bool {
    d.sought == d.position && d.position < d.total ==> head == Some(d.position)
}

/// Nothing is made up: of a block read from an honest medium, every byte outside the
/// regions recorded is what the medium holds at its place and returned, whatever failed
/// before. No region is lost, and the reader stays right about where the medium stands.
pub proof fn blocks_are_held(
    data: Seq<u8>,
    d: DeviceView,
    len: nat,
    answers: Seq<Result<Seq<u8>, Seq<char>>>,
    head: Option<nat>,
)
    requires
        d.options.sector_size > 0,
        d.position <= d.total <= u64::MAX,
        len <= usize::MAX,
        regions_ok(d.regions, d.position),
        knows_head(d, head),
        answers.len() == block_read(d, len, answers).asked.len(),
        is_honest(data, head, block_read(d, len, answers).asked, answers),
    ensures
        ({
            let block = block_read(d, len, answers);
            &&& forall|x: nat| #[trigger]
                in_regions(d.regions, x) ==> in_regions(block.device.regions, x)
            &&& forall|i: int|
                0 <= i < block.bytes.len() && !in_regions(
                    block.device.regions,
                    (d.position + i) as nat,
                ) ==> is_read(
                #[trigger] block.bytes[i],
                data,
                (d.position + i) as nat,
                block.asked,
                answers,
            )
            &&& knows_head(
                block.device,
                head_at(head, block.asked, answers, block.asked.len()),
            )
            &&& regions_ok(block.device.regions, block.device.position)
        }),
{
    let block = block_read(d, len, answers);
    let want = block_length(d, len);
    blocks_keep_size(d, len, answers);
    if d.position < d.total {
        let ask = block.asked[0];
        assert(is_held(data, head_at(head, block.asked, answers, 0), ask, answers[0]));
        if answers[0] is Ok && answers[0]->Ok_0.len() == want {
            assert(head_at(head, block.asked, answers, 1) == head_after(head, ask, answers[0]));
            assert forall|i: int| 0 <= i < block.bytes.len() implies is_read(
                #[trigger] block.bytes[i],
                data,
                (d.position + i) as nat,
                block.asked,
                answers,
            ) by {
                assert(block.asked[0].offset <= d.position + i < block.asked[0].offset
                    + answers[0]->Ok_0.len());
            }
        } else {
            let rest = answers.skip(1);
            let sector = d.options.sector_size as nat;
            let n = narrowed(rest, d.position, want, sector, d.regions, want);
            asks_seek(rest, d.position, want, sector, d.regions, want);
            assert forall|j: int| 0 <= j < n.asked.len() implies is_held(
                data,
                None,
                #[trigger] n.asked[j],
                rest[j],
            ) by {
                assert(block.asked[j + 1] == n.asked[j]);
                assert(is_held(
                    data,
                    head_at(head, block.asked, answers, (j + 1) as nat),
                    block.asked[j + 1],
                    answers[j + 1],
                ));
            }
            narrowed_bytes_are_held(data, rest, d.position, want, sector, d.regions, want);
            narrowing_is_sound(rest, d.position, want, sector, d.regions, want);
            assert forall|i: int|
                0 <= i < block.bytes.len() && !in_regions(
                    block.device.regions,
                    (d.position + i) as nat,
                ) implies is_read(
                #[trigger] block.bytes[i],
                data,
                (d.position + i) as nat,
                block.asked,
                answers,
            ) by {
                let x = (d.position + i) as nat;
                assert(n.bytes[i] == block.bytes[i]);
                let j = choose|j: int|
                    0 <= j < n.asked.len() && rest[j] is Ok && (#[trigger] n.asked[j]).offset <= x
                        < n.asked[j].offset + rest[j]->Ok_0.len();
                assert(block.asked[j + 1] == n.asked[j]);
            }
        }
    }
}

/// A read narrowed to sectors says where each of them is.
proof fn asks_seek(
    answers: Seq<Result<Seq<u8>, Seq<char>>>,
    offset: nat,
    want: nat,
    sector: nat,
    regions: Seq<RegionView>,
    k: nat,
)
    ensures
        forall|j: int|
            0 <= j < narrowed(answers, offset, want, sector, regions, k).asked.len() ==> (
            #[trigger] narrowed(answers, offset, want, sector, regions, k).asked[j]).seek,
    decreases k,
{
    if k > 0 {
        asks_seek(answers, offset, want, sector, regions, (k - 1) as nat);
        let before = narrowed(answers, offset, want, sector, regions, (k - 1) as nat);
        let after = narrowed(answers, offset, want, sector, regions, k);
        assert forall|j: int| 0 <= j < after.asked.len() implies (#[trigger] after.asked[j]).seek by {
            if j < before.asked.len() {
                assert(after.asked[j] == before.asked[j]);
            }
        }
    }
}

/// What a read hands out, the reader afterwards, and what was asked of the medium:
/// from what is at hand, or from a block read for it.
pub open spec fn device_read(
    d: DeviceView,
    len: nat,
    answers: Seq<Result<Seq<u8>, Seq<char>>>,
) -> BlockView {
    let size = if d.options.read_size == 0 {
        1
    } else {
        d.options.read_size as nat
    };
    if len == 0 {
        BlockView { bytes: Seq::empty(), device: d, asked: Seq::empty() }
    } else if d.pending.len() > 0 {
        handed_out(d, len, Seq::empty())
    } else if len >= size {
        block_read(d, len, answers)
    } else {
        let block = block_read(d, size, answers);
        handed_out(DeviceView { pending: block.bytes, ..block.device }, len, block.asked)
    }
}

/// What is at hand handed out, as much as is asked for.
pub open spec fn handed_out(d: DeviceView, len: nat, asked: Seq<Asked>) -> BlockView {
    let n = if d.pending.len() < len {
        d.pending.len() as int
    } else {
        len as int
    };
    BlockView {
        bytes: d.pending.take(n),
        device: DeviceView { pending: d.pending.skip(n), ..d },
        asked,
    }
}

/// Reading a device fabricates nothing: of what an honest medium is read for, with
/// requests of any length, every byte outside the regions recorded is what the medium
/// holds at its place.
pub proof fn reads_are_held(
    data: Seq<u8>,
    d: DeviceView,
    len: nat,
    answers: Seq<Result<Seq<u8>, Seq<char>>>,
    head: Option<nat>,
)
    requires
        d.options.sector_size > 0,
        d.position <= d.total <= u64::MAX,
        len <= usize::MAX,
        regions_ok(d.regions, d.position),
        knows_head(d, head),
        pending_is_held(data, d),
        answers.len() == device_read(d, len, answers).asked.len(),
        is_honest(data, head, device_read(d, len, answers).asked, answers),
    ensures
        ({
            let read = device_read(d, len, answers);
            let from = d.position - d.pending.len();
            &&& forall|i: int|
                0 <= i < read.bytes.len() && !in_regions(read.device.regions, (from + i) as nat)
                    ==> agrees(#[trigger] read.bytes[i], data, from + i)
            &&& from + read.bytes.len() == read.device.position - read.device.pending.len()
            &&& pending_is_held(data, read.device)
            &&& regions_ok(read.device.regions, read.device.position)
            &&& knows_head(read.device, head_at(head, read.asked, answers, read.asked.len()))
        }),
{
    let size = if d.options.read_size == 0 {
        1
    } else {
        d.options.read_size as nat
    };
    if len > 0 && d.pending.len() == 0 {
        let length = if len >= size {
            len
        } else {
            size
        };
        blocks_are_held(data, d, length, answers, head);
        blocks_keep_size(d, length, answers);
        let block = block_read(d, length, answers);
        let read = device_read(d, len, answers);
        if len < size {
            let taken = read.bytes.len();
            assert forall|i: int|
                0 <= i < read.bytes.len() && !in_regions(
                    read.device.regions,
                    (d.position + i) as nat,
                ) implies agrees(#[trigger] read.bytes[i], data, d.position + i) by {
                assert(read.bytes[i] == block.bytes[i]);
            }
            assert forall|i: int|
                0 <= i < read.device.pending.len() && !in_regions(
                    read.device.regions,
                    (d.position + taken + i) as nat,
                ) implies agrees(#[trigger] read.device.pending[i], data, d.position + taken + i) by {
                assert(read.device.pending[i] == block.bytes[taken + i]);
            }
        }
    } else if len > 0 {
        let read = device_read(d, len, answers);
        let taken = read.bytes.len();
        let from = d.position - d.pending.len();
        assert forall|i: int|
            0 <= i < read.bytes.len() && !in_regions(d.regions, (from + i) as nat) implies agrees(
            #[trigger] read.bytes[i],
            data,
            from + i,
        ) by {
            assert(read.bytes[i] == d.pending[i]);
        }
        assert forall|i: int|
            0 <= i < read.device.pending.len() && !in_regions(
                d.regions,
                (from + taken + i) as nat,
            ) implies agrees(#[trigger] read.device.pending[i], data, from + taken + i) by {
            assert(read.device.pending[i] == d.pending[taken + i]);
        }
    }
}

/// Whether a read of `len` bytes at a place touches a bad byte.
pub open spec fn touches(bad: Set<nat>, start: nat, len: nat) -> bool {
    exists|x: nat| start <= x < start + len && #[trigger] bad.contains(x)
}

/// Whether an answer is that of a medium that holds some bytes and fails on exactly
/// the reads that touch a bad one.
pub open spec fn is_fixed(
    data: Seq<u8>,
    bad: Set<nat>,
    head: Option<nat>,
    ask: Asked,
    answer: Result<Seq<u8>, Seq<char>>,
) -> bool {
    let start = if ask.seek {
        Some(ask.offset as nat)
    } else {
        head
    };
    match start {
        None => true,
        Some(p) => if touches(bad, p, ask.len as nat) {
            answer is Err
        } else {
            &&& answer is Ok
            &&& is_held(data, head, ask, answer)
            &&& answer->Ok_0.len() <= ask.len
            &&& answer->Ok_0.len() == ask.len || p + answer->Ok_0.len() == data.len()
        },
    }
}

/// Whether the answers to some reads are those of such a medium.
pub open spec fn fails_fixedly(
    data: Seq<u8>,
    bad: Set<nat>,
    head: Option<nat>,
    asked: Seq<Asked>,
    answers: Seq<Result<Seq<u8>, Seq<char>>>,
) -> bool {
    forall|j: int|
        0 <= j < asked.len() ==> is_fixed(
            data,
            bad,
            head_at(head, asked, answers, j as nat),
            #[trigger] asked[j],
            answers[j],
        )
}

/// A device read request by request: the bytes handed out, the reader, and where the
/// medium stands.
#[verifier::ext_equal]
pub struct PassView {
    /// The bytes handed out.
    pub bytes: Seq<u8>,
    /// The reader.
    pub device: DeviceView,
    /// Where the medium stands, where that is known.
    pub head: Option<nat>,
}

/// A device read with requests of some lengths, given what the medium answered in the
/// course of each.
pub open spec fn pass_over(
    d: DeviceView,
    head: Option<nat>,
    lens: Seq<nat>,
    answers: Seq<Seq<Result<Seq<u8>, Seq<char>>>>,
) -> PassView
    decreases lens.len(),
{
    if lens.len() == 0 {
        PassView { bytes: Seq::empty(), device: d, head }
    } else {
        let before = pass_over(d, head, lens.drop_last(), answers);
        let now = answers[lens.len() - 1];
        let read = device_read(before.device, lens.last(), now);
        PassView {
            bytes: before.bytes + read.bytes,
            device: read.device,
            head: head_at(before.head, read.asked, now, read.asked.len()),
        }
    }
}

/// Whether, throughout such a reading, the medium was asked as often as it answered and
/// failed on exactly the reads that touch a bad byte.
pub open spec fn fails_fixedly_throughout(
    data: Seq<u8>,
    bad: Set<nat>,
    d: DeviceView,
    head: Option<nat>,
    lens: Seq<nat>,
    answers: Seq<Seq<Result<Seq<u8>, Seq<char>>>>,
) -> bool
    decreases lens.len(),
{
    lens.len() == 0 || ({
        let before = pass_over(d, head, lens.drop_last(), answers);
        let now = answers[lens.len() - 1];
        let asked = device_read(before.device, lens.last(), now).asked;
        &&& fails_fixedly_throughout(data, bad, d, head, lens.drop_last(), answers)
        &&& lens.last() <= usize::MAX
        &&& now.len() == asked.len()
        &&& fails_fixedly(data, bad, before.head, asked, now)
    })
}

/// Whether a byte that was read stands where it should: what the medium holds outside
/// the regions, where no byte is bad, and what the standard defines inside them.
pub open spec fn stands_right(
    byte: u8,
    data: Seq<u8>,
    bad: Set<nat>,
    regions: Seq<RegionView>,
    x: nat,
) -> bool {
    if in_regions(regions, x) {
        byte == unreadable_pattern()[x as int % 14]
    } else {
        agrees(byte, data, x as int) && !bad.contains(x)
    }
}

/// Whether all bytes read so far, those at hand among them, stand where they should.
pub open spec fn all_stand_right(
    bytes: Seq<u8>,
    data: Seq<u8>,
    bad: Set<nat>,
    regions: Seq<RegionView>,
) -> bool {
    forall|i: int|
        0 <= i < bytes.len() ==> stands_right(#[trigger] bytes[i], data, bad, regions, i as nat)
}

/// A medium that fails on exactly the reads that touch a bad byte is an honest one.
proof fn fixed_is_honest(
    data: Seq<u8>,
    bad: Set<nat>,
    head: Option<nat>,
    asked: Seq<Asked>,
    answers: Seq<Result<Seq<u8>, Seq<char>>>,
)
    requires
        fails_fixedly(data, bad, head, asked, answers),
    ensures
        is_honest(data, head, asked, answers),
{
    assert forall|j: int| 0 <= j < asked.len() implies is_held(
        data,
        head_at(head, asked, answers, j as nat),
        #[trigger] asked[j],
        answers[j],
    ) by {
        assert(is_fixed(
            data,
            bad,
            head_at(head, asked, answers, j as nat),
            asked[j],
            answers[j],
        ));
    }
}

/// Narrowing records nothing before the place where it begins.
proof fn narrowing_looks_forward(
    answers: Seq<Result<Seq<u8>, Seq<char>>>,
    offset: nat,
    want: nat,
    sector: nat,
    regions: Seq<RegionView>,
    k: nat,
    x: nat,
)
    requires
        sector > 0,
        offset + want <= u64::MAX,
        regions_ok(regions, offset),
        x < offset,
        in_regions(narrowed(answers, offset, want, sector, regions, k).regions, x),
    ensures
        in_regions(regions, x),
    decreases k,
{
    if k > 0 {
        let before = narrowed(answers, offset, want, sector, regions, (k - 1) as nat);
        let after = narrowed(answers, offset, want, sector, regions, k);
        narrowing_is_sound(answers, offset, want, sector, regions, (k - 1) as nat);
        let r = choose|r: int|
            0 <= r < after.regions.len() && (#[trigger] after.regions[r]).start <= x
                < after.regions[r].start + after.regions[r].length;
        if r < before.regions.len() && after.regions[r] == before.regions[r] {
            assert(in_regions(before.regions, x));
        } else if r < before.regions.len() {
            assert(before.regions[r].start == after.regions[r].start);
            assert(before.regions[r].start <= x < before.regions[r].start
                + before.regions[r].length);
            assert(in_regions(before.regions, x));
        }
        narrowing_looks_forward(answers, offset, want, sector, regions, (k - 1) as nat, x);
    }
}

/// A block records nothing before the place where it begins.
proof fn blocks_look_forward(
    d: DeviceView,
    len: nat,
    answers: Seq<Result<Seq<u8>, Seq<char>>>,
    x: nat,
)
    requires
        d.options.sector_size > 0,
        d.position <= d.total <= u64::MAX,
        regions_ok(d.regions, d.position),
        x < d.position,
        in_regions(block_read(d, len, answers).device.regions, x),
    ensures
        in_regions(d.regions, x),
{
    let want = block_length(d, len);
    if d.position < d.total && !(answers[0] is Ok && answers[0]->Ok_0.len() == want) {
        narrowing_looks_forward(
            answers.skip(1),
            d.position,
            want,
            d.options.sector_size as nat,
            d.regions,
            want,
            x,
        );
    }
}

/// What is in a region of a block is what the standard defines for it.
proof fn block_regions_are_placeholders(
    d: DeviceView,
    len: nat,
    answers: Seq<Result<Seq<u8>, Seq<char>>>,
    i: int,
)
    requires
        d.options.sector_size > 0,
        d.position <= d.total <= u64::MAX,
        regions_ok(d.regions, d.position),
        0 <= i < block_read(d, len, answers).bytes.len(),
        in_regions(block_read(d, len, answers).device.regions, (d.position + i) as nat),
    ensures
        block_read(d, len, answers).bytes[i] == unreadable_pattern()[(d.position + i) % 14],
{
    let want = block_length(d, len);
    if answers[0] is Ok && answers[0]->Ok_0.len() == want {
        let r = choose|r: int|
            0 <= r < d.regions.len() && (#[trigger] d.regions[r]).start <= d.position + i
                < d.regions[r].start + d.regions[r].length;
        assert(false);
    } else {
        unreadable_bytes_are_placeholders(
            answers.skip(1),
            d.position,
            want,
            d.options.sector_size as nat,
            d.regions,
            want,
            i,
        );
    }
}

/// The first read of a block says where it is, or the medium stands there; the others
/// say where they are.
proof fn asks_are_placed(
    d: DeviceView,
    len: nat,
    answers: Seq<Result<Seq<u8>, Seq<char>>>,
    j: int,
)
    requires
        d.position < d.total,
        0 <= j < block_read(d, len, answers).asked.len(),
    ensures
        j == 0 ==> block_read(d, len, answers).asked[0].offset == d.position as u64,
        j == 0 && !block_read(d, len, answers).asked[0].seek ==> d.sought == d.position,
        j > 0 ==> block_read(d, len, answers).asked[j].seek,
{
    let want = block_length(d, len);
    let block = block_read(d, len, answers);
    if j > 0 {
        let rest = answers.skip(1);
        let sector = d.options.sector_size as nat;
        asks_seek(rest, d.position, want, sector, d.regions, want);
        assert(block.asked[j] == narrowed(
            rest,
            d.position,
            want,
            sector,
            d.regions,
            want,
        ).asked[j - 1]);
    }
}

/// Of a block read from a medium that fails on exactly the reads that touch a bad byte,
/// every byte stands right.
proof fn blocks_stand_right(
    data: Seq<u8>,
    bad: Set<nat>,
    d: DeviceView,
    len: nat,
    answers: Seq<Result<Seq<u8>, Seq<char>>>,
    head: Option<nat>,
    i: int,
)
    requires
        d.options.sector_size > 0,
        d.position <= d.total <= u64::MAX,
        len <= usize::MAX,
        regions_ok(d.regions, d.position),
        knows_head(d, head),
        answers.len() == block_read(d, len, answers).asked.len(),
        fails_fixedly(data, bad, head, block_read(d, len, answers).asked, answers),
        0 <= i < block_read(d, len, answers).bytes.len(),
    ensures
        stands_right(
            block_read(d, len, answers).bytes[i],
            data,
            bad,
            block_read(d, len, answers).device.regions,
            (d.position + i) as nat,
        ),
{
    let block = block_read(d, len, answers);
    let x = (d.position + i) as nat;
    fixed_is_honest(data, bad, head, block.asked, answers);
    blocks_are_held(data, d, len, answers, head);
    if in_regions(block.device.regions, x) {
        block_regions_are_placeholders(d, len, answers, i);
    } else {
        assert(is_read(block.bytes[i], data, x, block.asked, answers));
        let j = choose|j: int|
            0 <= j < block.asked.len() && answers[j] is Ok && (#[trigger] block.asked[j]).offset
                <= x < block.asked[j].offset + answers[j]->Ok_0.len();
        let at = head_at(head, block.asked, answers, j as nat);
        assert(is_fixed(data, bad, at, block.asked[j], answers[j]));
        asks_are_placed(d, len, answers, j);
        if bad.contains(x) {
            let p = block.asked[j].offset as nat;
            assert(touches(bad, p, block.asked[j].len as nat));
        }
    }
}

/// Whether a reading has come to what it should: as many bytes as the reader has
/// passed, those at hand among them, each standing right, with the regions in order.
spec fn pass_sound(data: Seq<u8>, bad: Set<nat>, p: PassView) -> bool {
    &&& p.device.options.sector_size > 0
    &&& p.device.position <= p.device.total <= u64::MAX
    &&& regions_ok(p.device.regions, p.device.position)
    &&& knows_head(p.device, p.head)
    &&& (p.bytes + p.device.pending).len() == p.device.position
    &&& all_stand_right(p.bytes + p.device.pending, data, bad, p.device.regions)
}

/// A block read behind bytes that stand right leaves them so.
proof fn block_keeps_right(
    data: Seq<u8>,
    bad: Set<nat>,
    bytes: Seq<u8>,
    d: DeviceView,
    head: Option<nat>,
    len: nat,
    now: Seq<Result<Seq<u8>, Seq<char>>>,
)
    requires
        d.options.sector_size > 0,
        d.position <= d.total <= u64::MAX,
        len <= usize::MAX,
        regions_ok(d.regions, d.position),
        knows_head(d, head),
        bytes.len() == d.position,
        all_stand_right(bytes, data, bad, d.regions),
        now.len() == block_read(d, len, now).asked.len(),
        fails_fixedly(data, bad, head, block_read(d, len, now).asked, now),
    ensures
        all_stand_right(
            bytes + block_read(d, len, now).bytes,
            data,
            bad,
            block_read(d, len, now).device.regions,
        ),
{
    let block = block_read(d, len, now);
    let all = bytes + block.bytes;
    fixed_is_honest(data, bad, head, block.asked, now);
    blocks_are_held(data, d, len, now, head);
    assert forall|i: int| 0 <= i < all.len() implies stands_right(
        #[trigger] all[i],
        data,
        bad,
        block.device.regions,
        i as nat,
    ) by {
        if i < bytes.len() {
            assert(stands_right(bytes[i], data, bad, d.regions, i as nat));
            if in_regions(block.device.regions, i as nat) {
                blocks_look_forward(d, len, now, i as nat);
            } else if in_regions(d.regions, i as nat) {
                assert(false);
            }
        } else {
            blocks_stand_right(data, bad, d, len, now, head, i - bytes.len());
        }
    }
}

/// A read leaves a sound reading sound.
proof fn read_keeps_sound(
    data: Seq<u8>,
    bad: Set<nat>,
    p: PassView,
    len: nat,
    now: Seq<Result<Seq<u8>, Seq<char>>>,
)
    requires
        pass_sound(data, bad, p),
        len <= usize::MAX,
        now.len() == device_read(p.device, len, now).asked.len(),
        fails_fixedly(data, bad, p.head, device_read(p.device, len, now).asked, now),
    ensures
        ({
            let read = device_read(p.device, len, now);
            &&& pass_sound(
                data,
                bad,
                PassView {
                    bytes: p.bytes + read.bytes,
                    device: read.device,
                    head: head_at(p.head, read.asked, now, read.asked.len()),
                },
            )
            &&& read.device.total == p.device.total
        }),
{
    let d = p.device;
    let read = device_read(d, len, now);
    let all = p.bytes + d.pending;
    if len == 0 {
        assert(p.bytes + read.bytes =~= p.bytes);
    } else if d.pending.len() > 0 {
        assert(p.bytes + read.bytes + read.device.pending =~= all);
    } else {
        let size = if d.options.read_size == 0 {
            1
        } else {
            d.options.read_size as nat
        };
        let length = if len >= size {
            len
        } else {
            size
        };
        let block = block_read(d, length, now);
        assert(all =~= p.bytes);
        fixed_is_honest(data, bad, p.head, block.asked, now);
        blocks_are_held(data, d, length, now, p.head);
        blocks_keep_size(d, length, now);
        block_keeps_right(data, bad, p.bytes, d, p.head, length, now);
        assert(p.bytes + read.bytes + read.device.pending =~= p.bytes + block.bytes);
    }
}

/// A reading of a medium that fails on exactly the reads that touch a bad byte is
/// sound after every request.
proof fn pass_stays_sound(
    data: Seq<u8>,
    bad: Set<nat>,
    d: DeviceView,
    head: Option<nat>,
    lens: Seq<nat>,
    answers: Seq<Seq<Result<Seq<u8>, Seq<char>>>>,
)
    requires
        pass_sound(data, bad, PassView { bytes: Seq::empty(), device: d, head }),
        fails_fixedly_throughout(data, bad, d, head, lens, answers),
    ensures
        pass_sound(data, bad, pass_over(d, head, lens, answers)),
        pass_over(d, head, lens, answers).device.total == d.total,
    decreases lens.len(),
{
    if lens.len() > 0 {
        pass_stays_sound(data, bad, d, head, lens.drop_last(), answers);
        let before = pass_over(d, head, lens.drop_last(), answers);
        read_keeps_sound(data, bad, before, lens.last(), answers[lens.len() - 1]);
    }
}

/// A device whose bad bytes are fixed, read to its end with requests of any lengths,
/// gives exactly as many bytes as it has. Outside the regions recorded each is what the
/// device holds there; inside them it is what the standard defines. Every bad byte lies
/// in a region, and the regions ascend without overlapping or touching.
pub proof fn devices_read_to_the_end(
    data: Seq<u8>,
    bad: Set<nat>,
    d: DeviceView,
    lens: Seq<nat>,
    answers: Seq<Seq<Result<Seq<u8>, Seq<char>>>>,
)
    requires
        d.options.sector_size > 0,
        d.total == data.len(),
        d.total <= u64::MAX,
        d.position == 0 && d.sought == 0,
        d.pending.len() == 0 && d.regions.len() == 0,
        fails_fixedly_throughout(data, bad, d, Some(0), lens, answers),
        pass_over(d, Some(0), lens, answers).device.position == d.total,
        pass_over(d, Some(0), lens, answers).device.pending.len() == 0,
    ensures
        ({
            let end = pass_over(d, Some(0), lens, answers);
            let regions = end.device.regions;
            &&& end.bytes.len() == d.total
            &&& forall|x: int|
                0 <= x < d.total && !in_regions(regions, x as nat) ==> #[trigger] end.bytes[x]
                    == data[x]
            &&& forall|x: int|
                0 <= x < d.total && in_regions(regions, x as nat) ==> #[trigger] end.bytes[x]
                    == unreadable_pattern()[x % 14]
            &&& forall|x: nat|
                x < d.total && #[trigger] bad.contains(x) ==> in_regions(regions, x)
            &&& regions_ok(regions, d.total)
        }),
{
    let start = PassView { bytes: Seq::empty(), device: d, head: Some(0nat) };
    assert(start.bytes + d.pending =~= Seq::<u8>::empty());
    pass_stays_sound(data, bad, d, Some(0), lens, answers);
    let end = pass_over(d, Some(0), lens, answers);
    let regions = end.device.regions;
    assert(end.bytes + end.device.pending =~= end.bytes);
    assert forall|x: int|
        0 <= x < d.total && !in_regions(regions, x as nat) implies #[trigger] end.bytes[x]
        == data[x] by {
        assert(stands_right(end.bytes[x], data, bad, regions, x as nat));
    }
    assert forall|x: int|
        0 <= x < d.total && in_regions(regions, x as nat) implies #[trigger] end.bytes[x]
        == unreadable_pattern()[x % 14] by {
        assert(stands_right(end.bytes[x], data, bad, regions, x as nat));
    }
    assert forall|x: nat| x < d.total && #[trigger] bad.contains(x) implies in_regions(
        regions,
        x,
    ) by {
        assert(stands_right(end.bytes[x as int], data, bad, regions, x));
    }
}

impl<S: Medium> DeviceReader<S> {
    /// Hand out what is at hand.
    fn hand_out(&mut self, len: usize) -> (r: Vec<u8>)
        requires
            old(self).wf(),
        ensures
            final(self).wf(),
            final(self).source == old(self).source,
            r@ == handed_out(old(self).view(), len as nat, Seq::empty()).bytes,
            final(self).view() == handed_out(old(self).view(), len as nat, Seq::empty()).device,
    {
        let ghost d = self.view();
        let rest: usize = self.buffer.len() - self.used;
        let n: usize = if rest < len {
            rest
        } else {
            len
        };
        let out = bytes::copied_range(self.buffer.as_slice(), self.used, self.used + n);
        self.used = self.used + n;
        proof {
            assert(out@ =~= d.pending.take(n as int));
            assert(self.buffer@.skip(self.used as int) =~= d.pending.skip(n as int));
        }
        out
    }

    /// Up to `len` of the next bytes; none at the device's end.
    ///
    /// A device answers a large request as fast as a small one, so it is read a
    /// block at a time and small requests are served from that.
    pub fn read(&mut self, len: usize) -> (r: Vec<u8>)
        requires
            old(self).wf(),
        ensures
            final(self).wf(),
            ({
                let answers = final(self).medium().answered().skip(
                    old(self).medium().answered().len() as int,
                );
                let read = device_read(old(self).view(), len as nat, answers);
                &&& r@ == read.bytes
                &&& final(self).view() == read.device
                &&& final(self).medium().asked() == old(self).medium().asked() + read.asked
                &&& answers.len() == read.asked.len()
            }),
    {
        let ghost answered = self.source.answered();
        let ghost asked = self.source.asked();
        proof {
            assert(answered.skip(answered.len() as int) =~= Seq::<
                Result<Seq<u8>, Seq<char>>,
            >::empty());
            assert(asked + Seq::<Asked>::empty() =~= asked);
        }
        if len == 0 {
            let none: Vec<u8> = Vec::new();
            proof {
                assert(none@ =~= Seq::<u8>::empty());
            }
            return none;
        }
        if self.used == self.buffer.len() {
            let size: usize = if self.options.read_size == 0 {
                1
            } else {
                self.options.read_size
            };
            if len >= size {
                return self.read_tolerantly(len);
            }
            let block = self.read_tolerantly(size);
            self.buffer = block;
            self.used = 0;
            proof {
                assert(self.buffer@.skip(0) =~= block@);
            }
        }
        self.hand_out(len)
    }

    /// Take the medium back.
    pub fn into_medium(self) -> (r: S)
        ensures
            r == self.medium(),
    {
        self.source
    }
}

/// A medium in memory that fails on a chosen range.
pub struct FaultyReader {
    data: Vec<u8>,
    bad: Range<u64>,
    position: u64,
    asked: Ghost<Seq<Asked>>,
    answered: Ghost<Seq<Result<Seq<u8>, Seq<char>>>>,
}

/// What a medium that fails on a range answers: a failure where the range is
/// touched, else the bytes that there are.
pub open spec fn faulty_answer(
    data: Seq<u8>,
    from: nat,
    to: nat,
    start: nat,
    len: nat,
) -> Result<Seq<u8>, Seq<char>> {
    if start < to && start + len > from {
        Err("simulated media read error"@)
    } else if start >= data.len() {
        Ok(Seq::empty())
    } else if start + len > data.len() {
        Ok(data.skip(start as int))
    } else {
        Ok(data.subrange(start as int, (start + len) as int))
    }
}

impl FaultyReader {
    /// Hold some bytes, and fail every read that touches a range.
    pub fn new(data: Vec<u8>, bad: Range<u64>) -> (r: Self)
        ensures
            r.bytes() == data@,
            r.from() == bad.start,
            r.to() == bad.end,
            r.at() == 0,
            r.asked() == Seq::<Asked>::empty(),
            r.answered() == Seq::<Result<Seq<u8>, Seq<char>>>::empty(),
    {
        FaultyReader {
            data,
            bad,
            position: 0,
            asked: Ghost(Seq::empty()),
            answered: Ghost(Seq::empty()),
        }
    }

    /// The bytes held.
    pub closed spec fn bytes(&self) -> Seq<u8> {
        self.data@
    }

    /// Where the range begins that fails.
    pub closed spec fn from(&self) -> u64 {
        self.bad.start
    }

    /// Where it ends.
    pub closed spec fn to(&self) -> u64 {
        self.bad.end
    }

    /// Where the next read begins that does not say where.
    pub closed spec fn at(&self) -> u64 {
        self.position
    }
}

impl Medium for FaultyReader {
    closed spec fn asked(&self) -> Seq<Asked> {
        self.asked@
    }

    closed spec fn answered(&self) -> Seq<Result<Seq<u8>, Seq<char>>> {
        self.answered@
    }

    fn read(&mut self, offset: u64, seek: bool, len: usize) -> (r: Result<Vec<u8>, String>)
        ensures
            ({
                let start = if seek {
                    offset
                } else {
                    old(self).at()
                };
                &&& outcome_view(r) == faulty_answer(
                    old(self).bytes(),
                    old(self).from() as nat,
                    old(self).to() as nat,
                    start as nat,
                    len as nat,
                )
                &&& final(self).at() == (match r {
                    Ok(data) => start + data@.len(),
                    Err(_) => start as int,
                })
            }),
            final(self).bytes() == old(self).bytes(),
            final(self).from() == old(self).from(),
            final(self).to() == old(self).to(),
    {
        if seek {
            self.position = offset;
        }
        let start: u64 = self.position;
        let length: usize = self.data.len();
        let r: Result<Vec<u8>, String> = if start < self.bad.end && start as u128 + len as u128
            > self.bad.start as u128 {
            Err(text::owned("simulated media read error"))
        } else if start >= length as u64 {
            let none: Vec<u8> = Vec::new();
            proof {
                assert(none@ =~= Seq::<u8>::empty());
            }
            Ok(none)
        } else {
            let from: usize = start as usize;
            let n: usize = if length - from < len {
                length - from
            } else {
                len
            };
            let out = bytes::copied_range(self.data.as_slice(), from, from + n);
            proof {
                if from + len > length {
                    assert(out@ =~= self.data@.skip(from as int));
                }
            }
            self.position = start + n as u64;
            Ok(out)
        };
        proof {
            self.asked@ = self.asked@.push(Asked { offset, seek, len });
            self.answered@ = self.answered@.push(outcome_view(r));
        }
        r
    }
}

} // verus!
