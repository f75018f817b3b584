//! Walking a tree ahead of its acquisition.
//!
//! The walk is decided here, one step at a time, from what the filesystem showed;
//! looking at paths and listing directories is left to the caller. Only metadata
//! is asked for, never content.

use vstd::prelude::*;
use vstd::utf8::encode_utf8;

use crate::order::{order_of, positions, sort_order, sorting_sorts};
use crate::text;
use crate::write::logical::names::{recorded_path_bytes, EntryPath, PathView};
use crate::write::logical::stamps::{explain_io_error, PRIVACY_NOTE};
use crate::write::logical::storage::MAX_SEGMENT_RESIDENT_SIZE;

verus! {

/// How many items may wait between a walk and what consumes it.
pub const SCAN_QUEUE_CAPACITY: usize = 4096;

/// What a small file costs beyond its bytes.
pub const SEGMENT_OVERHEAD: u64 = 4096;

/// What one file is expected to cost: a ZIP segment carries work that its bytes do
/// not show.
pub fn cost_of(size: u64) -> (r: u64)
    ensures
        r == expected_cost(size),
{
    if size <= MAX_SEGMENT_RESIDENT_SIZE {
        size.saturating_add(SEGMENT_OVERHEAD)
    } else {
        size
    }
}

/// What one file is expected to cost.
pub open spec fn expected_cost(size: u64) -> u64 {
    if size <= MAX_SEGMENT_RESIDENT_SIZE {
        (size + SEGMENT_OVERHEAD) as u64
    } else {
        size
    }
}

/// One item of a walk.
#[derive(Debug)]
pub enum ScanItem {
    /// A regular file.
    File {
        /// Where it is.
        path: EntryPath,
        /// Its size, from its metadata.
        size: u64,
    },
    /// A directory is entered; exactly one [`ScanItem::DirEnd`] belongs to it.
    Dir {
        /// Where it is.
        path: EntryPath,
    },
    /// The directory entered last is finished.
    DirEnd,
    /// A path that is passed over.
    Skipped {
        /// Which.
        path: EntryPath,
        /// Why.
        reason: String,
    },
}

/// What a [`ScanItem`] says, as plain values.
#[verifier::ext_equal]
pub enum ItemView {
    /// A regular file.
    File(PathView, u64),
    /// A directory is entered.
    Dir(PathView),
    /// The directory entered last is finished.
    DirEnd,
    /// A path that is passed over, and why.
    Skipped(PathView, Seq<char>),
}

impl View for ScanItem {
    type V = ItemView;

    open spec fn view(&self) -> ItemView {
        match self {
            ScanItem::File { path, size } => ItemView::File(path@, *size),
            ScanItem::Dir { path } => ItemView::Dir(path@),
            ScanItem::DirEnd => ItemView::DirEnd,
            ScanItem::Skipped { path, reason } => ItemView::Skipped(path@, reason@),
        }
    }
}

/// What a walk has found so far.
#[derive(Debug, Clone, Copy)]
pub struct ScanTotals {
    files: u64,
    cost: u64,
    complete: bool,
}

impl ScanTotals {
    /// Files found, cost found, and whether the walk is over.
    pub closed spec fn view(&self) -> (u64, u64, bool) {
        (self.files, self.cost, self.complete)
    }

    /// Nothing found.
    pub fn new() -> (r: ScanTotals)
        ensures
            r.view() == (0u64, 0u64, false),
    {
        ScanTotals { files: 0, cost: 0, complete: false }
    }

    /// Files found, cost found, and whether the walk is over.
    pub fn snapshot(&self) -> (r: (u64, u64, bool))
        ensures
            r == self.view(),
    {
        (self.files, self.cost, self.complete)
    }

    /// Count a file. The counts are those of a counter of 64 bits, which begins
    /// again at zero.
    pub fn count_file(&mut self, size: u64)
        ensures
            final(self).view() == counted(old(self).view(), size),
    {
        self.files = self.files.wrapping_add(1);
        self.cost = self.cost.wrapping_add(cost_of(size));
    }

    /// Note that the walk is over.
    pub fn finish(&mut self)
        ensures
            final(self).view() == (old(self).view().0, old(self).view().1, true),
    {
        self.complete = true;
    }
}

/// A file counted.
pub open spec fn counted(totals: (u64, u64, bool), size: u64) -> (u64, u64, bool) {
    (
        totals.0.wrapping_add(1),
        totals.1.wrapping_add(expected_cost(size)),
        totals.2,
    )
}

/// A failure that the operating system reported.
#[derive(Debug)]
pub struct OsFailure {
    /// Its words.
    pub text: String,
    /// Its number for it.
    pub code: Option<i32>,
}

/// What an [`OsFailure`] says, as plain values.
#[verifier::ext_equal]
pub struct FailureView {
    /// The system's words.
    pub text: Seq<char>,
    /// Its number for it.
    pub code: Option<i32>,
}

impl View for OsFailure {
    type V = FailureView;

    open spec fn view(&self) -> FailureView {
        FailureView { text: self.text@, code: self.code }
    }
}

/// A failure in terms that an examiner can act on.
pub open spec fn explained(f: FailureView, macos: bool) -> Seq<char> {
    if macos && f.code == Some(1i32) {
        f.text + PRIVACY_NOTE@
    } else {
        f.text
    }
}

/// One entry of a directory: its path, or why the system could not produce it.
pub open spec fn entry_view(e: Result<EntryPath, OsFailure>) -> Result<PathView, FailureView> {
    match e {
        Ok(path) => Ok(path@),
        Err(f) => Err(f@),
    }
}

/// The entries of a directory, as plain values.
pub open spec fn entry_views(list: Seq<Result<EntryPath, OsFailure>>) -> Seq<
    Result<PathView, FailureView>,
> {
    Seq::new(list.len(), |i: int| entry_view(list[i]))
}

/// The paths among some entries.
pub open spec fn readable(entries: Seq<Result<PathView, FailureView>>) -> Seq<PathView>
    decreases entries.len(),
{
    if entries.len() == 0 {
        Seq::empty()
    } else {
        let before = readable(entries.drop_last());
        match entries.last() {
            Ok(path) => before.push(path),
            Err(_) => before,
        }
    }
}

/// The failures among some entries, each with the directory that was listed: a
/// failed entry has no path of its own.
pub open spec fn failed(entries: Seq<Result<PathView, FailureView>>, dir: PathView, macos: bool) -> Seq<
    (PathView, Seq<char>),
>
    decreases entries.len(),
{
    if entries.len() == 0 {
        Seq::empty()
    } else {
        let before = failed(entries.drop_last(), dir, macos);
        match entries.last() {
            Ok(_) => before,
            Err(f) => before.push((dir, explained(f, macos))),
        }
    }
}

/// The bytes that paths are ordered by.
pub open spec fn path_bytes(path: PathView) -> Seq<u8> {
    match path.bytes {
        Some(b) => b,
        None => encode_utf8(path.display),
    }
}

/// Bytes as characters of the same order.
pub open spec fn byte_chars(data: Seq<u8>) -> Seq<char> {
    Seq::new(data.len(), |i: int| data[i] as char)
}

/// What paths are ordered by.
pub open spec fn path_keys(paths: Seq<PathView>) -> Seq<Seq<char>> {
    Seq::new(paths.len(), |i: int| byte_chars(path_bytes(paths[i])))
}

/// Paths in the order of their bytes.
pub open spec fn sorted_paths(paths: Seq<PathView>) -> Seq<PathView> {
    Seq::new(
        order_of(path_keys(paths)).len(),
        |i: int| paths[order_of(path_keys(paths))[i]],
    )
}

/// Paths, as plain values.
pub open spec fn path_views(list: Seq<EntryPath>) -> Seq<PathView> {
    Seq::new(list.len(), |i: int| list[i]@)
}

/// Paths with a reason each, as plain values.
pub open spec fn skip_views(list: Seq<(EntryPath, String)>) -> Seq<(PathView, Seq<char>)> {
    Seq::new(list.len(), |i: int| (list[i].0@, list[i].1@))
}

/// What a path is ordered by.
fn path_key(path: &EntryPath) -> (r: String)
    ensures
        r@ == byte_chars(path_bytes(path@)),
{
    let data = match recorded_path_bytes(path) {
        Some(b) => b,
        None => text::utf8(path.display()),
    };
    let mut out = String::new();
    let mut i: usize = 0;
    while i < data.len()
        invariant
            i <= data.len(),
            out@ == byte_chars(data@.take(i as int)),
        decreases data.len() - i,
    {
        out.push(data[i] as char);
        proof {
            assert(byte_chars(data@.take(i + 1)) =~= byte_chars(data@.take(i as int)).push(
                data@[i as int] as char,
            ));
        }
        i = i + 1;
    }
    proof {
        assert(data@.take(i as int) =~= data@);
    }
    out
}

/// The readable children of a directory in order, and its failures beside them.
///
/// An acquisition may pass over what it cannot read, but not silently.
pub fn children_from_entries(
    dir: &EntryPath,
    entries: &Vec<Result<EntryPath, OsFailure>>,
    macos: bool,
    failures: &mut Vec<(EntryPath, String)>,
) -> (r: Vec<EntryPath>)
    ensures
        path_views(r@) == sorted_paths(readable(entry_views(entries@))),
        skip_views(final(failures)@) == skip_views(old(failures)@) + failed(
            entry_views(entries@),
            dir@,
            macos,
        ),
{
    let ghost all = entry_views(entries@);
    let ghost start = skip_views(failures@);
    let mut found: Vec<EntryPath> = Vec::new();
    let mut keys: Vec<String> = Vec::new();
    let mut i: usize = 0;
    proof {
        assert(all.take(0) =~= Seq::<Result<PathView, FailureView>>::empty());
        assert(path_views(found@) =~= readable(all.take(0)));
        assert(text::texts(keys@) =~= path_keys(path_views(found@)));
        assert(skip_views(failures@) =~= start + failed(all.take(0), dir@, macos));
    }
    while i < entries.len()
        invariant
            i <= entries.len(),
            all == entry_views(entries@),
            path_views(found@) == readable(all.take(i as int)),
            text::texts(keys@) == path_keys(path_views(found@)),
            skip_views(failures@) == start + failed(all.take(i as int), dir@, macos),
        decreases entries.len() - i,
    {
        proof {
            assert(all.take(i + 1).drop_last() =~= all.take(i as int));
            assert(all.take(i + 1).last() == entry_view(entries@[i as int]));
        }
        match &entries[i] {
            Ok(path) => {
                let ghost before = found@;
                let ghost keyed = keys@;
                let copy = path.duplicate();
                let key = path_key(path);
                found.push(copy);
                keys.push(key);
                proof {
                    assert(path_views(found@) =~= path_views(before).push(path@));
                    assert(text::texts(keys@) =~= text::texts(keyed).push(key@));
                    assert(path_keys(path_views(found@)) =~= path_keys(path_views(before)).push(
                        key@,
                    ));
                }
            },
            Err(f) => {
                let ghost before = failures@;
                let reason = explain_io_error(f.text.as_str(), f.code, macos);
                failures.push((dir.duplicate(), reason));
                proof {
                    assert(skip_views(failures@) =~= skip_views(before).push((dir@, reason@)));
                    assert(start + failed(all.take(i as int), dir@, macos).push((dir@, reason@))
                        =~= (start + failed(all.take(i as int), dir@, macos)).push(
                        (dir@, reason@),
                    ));
                }
            },
        }
        i = i + 1;
    }
    proof {
        assert(all.take(i as int) =~= all);
    }
    let order = sort_order(&keys);
    let mut out: Vec<EntryPath> = Vec::new();
    let mut k: usize = 0;
    let ghost sorted = sorted_paths(path_views(found@));
    proof {
        sorting_sorts(text::texts(keys@), keys@.len());
        assert(path_views(out@) =~= sorted.take(0));
    }
    while k < order.len()
        invariant
            k <= order.len(),
            text::texts(keys@) == path_keys(path_views(found@)),
            positions(order@) == order_of(text::texts(keys@)),
            sorted == sorted_paths(path_views(found@)),
            forall|j: int|
                0 <= j < order@.len() ==> (#[trigger] positions(order@)[j]) < found@.len(),
            path_views(out@) == sorted.take(k as int),
        decreases order.len() - k,
    {
        let at: usize = order[k];
        let ghost before = out@;
        proof {
            assert(positions(order@)[k as int] == at);
        }
        out.push(found[at].duplicate());
        proof {
            assert(path_views(out@) =~= path_views(before).push(found@[at as int]@));
            assert(sorted.take(k + 1) =~= sorted.take(k as int).push(found@[at as int]@));
        }
        k = k + 1;
    }
    proof {
        assert(sorted.take(k as int) =~= sorted);
    }
    out
}

/// Which words a walk uses for what it passes over.
#[derive(Debug, Clone, Copy, PartialEq, Eq, Structural)]
pub enum WalkStyle {
    /// A walk ahead of the acquisition: the system's words.
    Scanner,
    /// A walk by the acquisition itself: explained words.
    Inline,
}

/// What a look at a path showed, links not followed.
#[derive(Debug)]
pub enum Look {
    /// Nothing could be seen.
    Unreadable(OsFailure),
    /// A symbolic link.
    Link,
    /// A pipe, socket or device.
    Special,
    /// A regular file of a size.
    File(u64),
    /// A directory.
    Folder,
}

/// What a look showed, as plain values.
#[verifier::ext_equal]
pub enum LookView {
    /// Nothing could be seen.
    Unreadable(FailureView),
    /// A symbolic link.
    Link,
    /// A pipe, socket or device.
    Special,
    /// A regular file of a size.
    File(u64),
    /// A directory.
    Folder,
}

impl View for Look {
    type V = LookView;

    open spec fn view(&self) -> LookView {
        match self {
            Look::Unreadable(f) => LookView::Unreadable(f@),
            Look::Link => LookView::Link,
            Look::Special => LookView::Special,
            Look::File(size) => LookView::File(*size),
            Look::Folder => LookView::Folder,
        }
    }
}

/// What remains to be done in a walk.
#[derive(Debug)]
pub enum WalkTask {
    /// Look at a path and say what it showed.
    Visit(EntryPath),
    /// List a directory and say what it holds.
    List(EntryPath),
    /// Deliver an item.
    Emit(ScanItem),
}

/// A task, as plain values.
#[verifier::ext_equal]
pub enum TaskView {
    /// Look at a path.
    Visit(PathView),
    /// List a directory.
    List(PathView),
    /// Deliver an item.
    Emit(ItemView),
}

impl View for WalkTask {
    type V = TaskView;

    open spec fn view(&self) -> TaskView {
        match self {
            WalkTask::Visit(path) => TaskView::Visit(path@),
            WalkTask::List(path) => TaskView::List(path@),
            WalkTask::Emit(item) => TaskView::Emit(item@),
        }
    }
}

/// Tasks, as plain values.
pub open spec fn task_views(list: Seq<WalkTask>) -> Seq<TaskView> {
    Seq::new(list.len(), |i: int| list[i]@)
}

/// Why an unreadable path is passed over.
pub open spec fn failure_reason(f: FailureView, style: WalkStyle, macos: bool) -> Seq<char> {
    match style {
        WalkStyle::Scanner => f.text,
        WalkStyle::Inline => explained(f, macos),
    }
}

/// Why a symbolic link is passed over: following one can leave the tree.
pub open spec fn link_reason(style: WalkStyle) -> Seq<char> {
    match style {
        WalkStyle::Scanner => "not a regular file"@,
        WalkStyle::Inline => "symlink; not followed"@,
    }
}

/// What remains to be done once a path was looked at, the next task last.
pub open spec fn tasks_after_look(path: PathView, look: LookView, style: WalkStyle, macos: bool) -> Seq<
    TaskView,
> {
    match look {
        LookView::Unreadable(f) => seq![
            TaskView::Emit(ItemView::Skipped(path, failure_reason(f, style, macos))),
        ],
        LookView::Link => seq![TaskView::Emit(ItemView::Skipped(path, link_reason(style)))],
        LookView::Special => seq![TaskView::Emit(ItemView::Skipped(path, "not a regular file"@))],
        LookView::File(size) => seq![TaskView::Emit(ItemView::File(path, size))],
        LookView::Folder => seq![
            TaskView::Emit(ItemView::DirEnd),
            TaskView::List(path),
            TaskView::Emit(ItemView::Dir(path)),
        ],
    }
}

/// Tasks of looking at some paths, the first path's last.
pub open spec fn visits(paths: Seq<PathView>) -> Seq<TaskView> {
    Seq::new(paths.len(), |i: int| TaskView::Visit(paths[paths.len() - 1 - i]))
}

/// Tasks of reporting what was passed over, the first one's last.
pub open spec fn reports(skips: Seq<(PathView, Seq<char>)>) -> Seq<TaskView> {
    Seq::new(
        skips.len(),
        |i: int|
            TaskView::Emit(
                ItemView::Skipped(skips[skips.len() - 1 - i].0, skips[skips.len() - 1 - i].1),
            ),
    )
}

/// What remains to be done once a directory was listed: its failures are reported
/// first, then its children are looked at in order.
pub open spec fn tasks_after_listing(
    path: PathView,
    listing: Result<Seq<Result<PathView, FailureView>>, FailureView>,
    style: WalkStyle,
    macos: bool,
) -> Seq<TaskView> {
    match listing {
        Err(f) => seq![TaskView::Emit(ItemView::Skipped(path, failure_reason(f, style, macos)))],
        Ok(entries) => visits(sorted_paths(readable(entries))) + reports(
            failed(entries, path, macos),
        ),
    }
}

/// A listing, as plain values.
pub open spec fn listing_view(r: Result<Vec<Result<EntryPath, OsFailure>>, OsFailure>) -> Result<
    Seq<Result<PathView, FailureView>>,
    FailureView,
> {
    match r {
        Ok(entries) => Ok(entry_views(entries@)),
        Err(f) => Err(f@),
    }
}

/// A walk under way.
pub struct Walker {
    tasks: Vec<WalkTask>,
    totals: ScanTotals,
    style: WalkStyle,
    macos: bool,
}

impl Walker {
    /// What remains to be done, the next task last.
    pub closed spec fn tasks(&self) -> Seq<TaskView> {
        task_views(self.tasks@)
    }

    /// What has been found.
    pub closed spec fn found(&self) -> (u64, u64, bool) {
        self.totals.view()
    }

    /// Which words are used.
    pub closed spec fn style(&self) -> WalkStyle {
        self.style
    }

    /// Whether the system is macOS.
    pub closed spec fn macos(&self) -> bool {
        self.macos
    }

    /// Begin at some roots, in order.
    pub fn new(roots: Vec<EntryPath>, style: WalkStyle, macos: bool) -> (r: Walker)
        ensures
            r.tasks() == visits(path_views(roots@)),
            r.found() == (0u64, 0u64, false),
            r.style() == style,
            r.macos() == macos,
    {
        let mut w = Walker { tasks: Vec::new(), totals: ScanTotals::new(), style, macos };
        w.push_visits(roots);
        proof {
            assert(w.tasks() =~= visits(path_views(roots@)));
        }
        w
    }

    /// Add tasks of looking at some paths.
    fn push_visits(&mut self, paths: Vec<EntryPath>)
        ensures
            final(self).tasks() == old(self).tasks() + visits(path_views(paths@)),
            final(self).found() == old(self).found(),
            final(self).style() == old(self).style(),
            final(self).macos() == old(self).macos(),
    {
        let ghost all = path_views(paths@);
        let ghost start = self.tasks();
        let mut rest = paths;
        proof {
            assert(self.tasks() =~= start + visits(all).take(0));
        }
        while rest.len() > 0
            invariant
                rest@.len() <= all.len(),
                path_views(rest@) == all.take(rest@.len() as int),
                self.tasks() == start + visits(all).take(all.len() - rest@.len()),
                self.found() == old(self).found(),
                self.style() == old(self).style(),
                self.macos() == old(self).macos(),
            decreases rest.len(),
        {
            let ghost before = self.tasks@;
            let ghost n = rest@.len() as int;
            let ghost left = rest@;
            proof {
                assert(all.take(n)[n - 1] == left[n - 1]@);
            }
            match rest.pop() {
                Some(path) => {
                    self.tasks.push(WalkTask::Visit(path));
                    proof {
                        assert(path@ == all[n - 1]);
                        assert(path_views(rest@) =~= all.take(n - 1));
                        assert(task_views(self.tasks@) =~= task_views(before).push(
                            TaskView::Visit(path@),
                        ));
                        assert(visits(all).take(all.len() - n + 1) =~= visits(all).take(
                            all.len() - n,
                        ).push(TaskView::Visit(all[n - 1])));
                        assert(self.tasks() =~= start + visits(all).take(all.len() - n + 1));
                    }
                },
                None => {},
            }
        }
        proof {
            assert(visits(all).take(all.len() as int) =~= visits(all));
        }
    }

    /// Add tasks of reporting what was passed over.
    fn push_reports(&mut self, skips: Vec<(EntryPath, String)>)
        ensures
            final(self).tasks() == old(self).tasks() + reports(skip_views(skips@)),
            final(self).found() == old(self).found(),
            final(self).style() == old(self).style(),
            final(self).macos() == old(self).macos(),
    {
        let ghost all = skip_views(skips@);
        let ghost start = self.tasks();
        let mut rest = skips;
        proof {
            assert(self.tasks() =~= start + reports(all).take(0));
        }
        while rest.len() > 0
            invariant
                rest@.len() <= all.len(),
                skip_views(rest@) == all.take(rest@.len() as int),
                self.tasks() == start + reports(all).take(all.len() - rest@.len()),
                self.found() == old(self).found(),
                self.style() == old(self).style(),
                self.macos() == old(self).macos(),
            decreases rest.len(),
        {
            let ghost before = self.tasks@;
            let ghost n = rest@.len() as int;
            let ghost left = rest@;
            proof {
                assert(all.take(n)[n - 1] == (left[n - 1].0@, left[n - 1].1@));
            }
            match rest.pop() {
                Some(skip) => {
                    self.tasks.push(
                        WalkTask::Emit(ScanItem::Skipped { path: skip.0, reason: skip.1 }),
                    );
                    proof {
                        assert((skip.0@, skip.1@) == all[n - 1]);
                        assert(skip_views(rest@) =~= all.take(n - 1));
                        let t = TaskView::Emit(ItemView::Skipped(all[n - 1].0, all[n - 1].1));
                        assert(task_views(self.tasks@) =~= task_views(before).push(t));
                        assert(reports(all).take(all.len() - n + 1) =~= reports(all).take(
                            all.len() - n,
                        ).push(t));
                        assert(self.tasks() =~= start + reports(all).take(all.len() - n + 1));
                    }
                },
                None => {},
            }
        }
        proof {
            assert(reports(all).take(all.len() as int) =~= reports(all));
        }
    }

    /// Add a task of delivering an item.
    fn push_emit(&mut self, item: ScanItem)
        ensures
            final(self).tasks() == old(self).tasks().push(TaskView::Emit(item@)),
            final(self).found() == old(self).found(),
            final(self).style() == old(self).style(),
            final(self).macos() == old(self).macos(),
    {
        let ghost before = self.tasks@;
        self.tasks.push(WalkTask::Emit(item));
        proof {
            assert(task_views(self.tasks@) =~= task_views(before).push(TaskView::Emit(item@)));
        }
    }

    /// Take the next task; none is left when the walk is over.
    pub fn next(&mut self) -> (r: Option<WalkTask>)
        ensures
            (match r {
                Some(task) => {
                    &&& old(self).tasks().len() > 0
                    &&& task@ == old(self).tasks().last()
                    &&& final(self).tasks() == old(self).tasks().drop_last()
                    &&& final(self).found() == old(self).found()
                },
                None => {
                    &&& old(self).tasks().len() == 0
                    &&& final(self).tasks() == old(self).tasks()
                    &&& final(self).found() == (old(self).found().0, old(self).found().1, true)
                },
            }),
            final(self).style() == old(self).style(),
            final(self).macos() == old(self).macos(),
    {
        let ghost before = self.tasks@;
        match self.tasks.pop() {
            Some(task) => {
                proof {
                    assert(task_views(self.tasks@) =~= task_views(before).drop_last());
                }
                Some(task)
            },
            None => {
                self.totals.finish();
                None
            },
        }
    }

    /// Say what a look at a path showed. A file is counted.
    pub fn visited(&mut self, path: EntryPath, look: Look)
        ensures
            final(self).tasks() == old(self).tasks() + tasks_after_look(
                path@,
                look@,
                old(self).style(),
                old(self).macos(),
            ),
            final(self).found() == (match look@ {
                LookView::File(size) => counted(old(self).found(), size),
                _ => old(self).found(),
            }),
            final(self).style() == old(self).style(),
            final(self).macos() == old(self).macos(),
    {
        let ghost start = self.tasks();
        match look {
            Look::Unreadable(f) => {
                let reason = self.reason(&f);
                self.push_emit(ScanItem::Skipped { path, reason });
            },
            Look::Link => {
                let reason = match self.style {
                    WalkStyle::Scanner => text::owned("not a regular file"),
                    WalkStyle::Inline => text::owned("symlink; not followed"),
                };
                self.push_emit(ScanItem::Skipped { path, reason });
            },
            Look::Special => {
                self.push_emit(
                    ScanItem::Skipped { path, reason: text::owned("not a regular file") },
                );
            },
            Look::File(size) => {
                self.totals.count_file(size);
                self.push_emit(ScanItem::File { path, size });
            },
            Look::Folder => {
                let listed = path.duplicate();
                self.push_emit(ScanItem::DirEnd);
                let ghost before = self.tasks@;
                self.tasks.push(WalkTask::List(listed));
                proof {
                    assert(task_views(self.tasks@) =~= task_views(before).push(
                        TaskView::List(listed@),
                    ));
                }
                self.push_emit(ScanItem::Dir { path });
            },
        }
        proof {
            assert(self.tasks() =~= start + tasks_after_look(
                path@,
                look@,
                old(self).style(),
                old(self).macos(),
            ));
        }
    }

    /// Why an unreadable path is passed over.
    fn reason(&self, f: &OsFailure) -> (r: String)
        ensures
            r@ == failure_reason(f@, self.style(), self.macos()),
    {
        match self.style {
            WalkStyle::Scanner => text::owned(f.text.as_str()),
            WalkStyle::Inline => explain_io_error(f.text.as_str(), f.code, self.macos),
        }
    }

    /// Say what a directory holds.
    pub fn listed(
        &mut self,
        path: EntryPath,
        listing: Result<Vec<Result<EntryPath, OsFailure>>, OsFailure>,
    )
        ensures
            final(self).tasks() == old(self).tasks() + tasks_after_listing(
                path@,
                listing_view(listing),
                old(self).style(),
                old(self).macos(),
            ),
            final(self).found() == old(self).found(),
            final(self).style() == old(self).style(),
            final(self).macos() == old(self).macos(),
    {
        let ghost start = self.tasks();
        match listing {
            Ok(entries) => {
                let mut failures: Vec<(EntryPath, String)> = Vec::new();
                let ghost none = skip_views(failures@);
                let children = children_from_entries(&path, &entries, self.macos, &mut failures);
                proof {
                    assert(none =~= Seq::<(PathView, Seq<char>)>::empty());
                    assert(none + failed(entry_views(entries@), path@, self.macos) =~= failed(
                        entry_views(entries@),
                        path@,
                        self.macos,
                    ));
                }
                self.push_visits(children);
                self.push_reports(failures);
                proof {
                    assert(self.tasks() =~= start + tasks_after_listing(
                        path@,
                        listing_view(listing),
                        old(self).style(),
                        old(self).macos(),
                    ));
                }
            },
            Err(f) => {
                let reason = self.reason(&f);
                self.push_emit(ScanItem::Skipped { path, reason });
                proof {
                    assert(self.tasks() =~= start + tasks_after_listing(
                        path@,
                        listing_view(listing),
                        old(self).style(),
                        old(self).macos(),
                    ));
                }
            },
        }
    }

    /// What has been found so far.
    pub fn totals(&self) -> (r: ScanTotals)
        ensures
            r.view() == self.found(),
    {
        self.totals
    }
}

/// What a filesystem shows at a path, and what it lists there.
pub struct Node {
    /// What a look shows.
    pub look: LookView,
    /// What listing it yields, where it is a directory.
    pub listing: Result<Seq<Result<PathView, FailureView>>, FailureView>,
}

/// The items that a walk delivers over a filesystem that does not change, in at
/// most a number of steps.
pub open spec fn walk(
    fs: spec_fn(PathView) -> Node,
    tasks: Seq<TaskView>,
    style: WalkStyle,
    macos: bool,
    steps: nat,
) -> Seq<ItemView>
    decreases steps,
{
    if steps == 0 || tasks.len() == 0 {
        Seq::empty()
    } else {
        let rest = tasks.drop_last();
        let left = (steps - 1) as nat;
        match tasks.last() {
            TaskView::Emit(item) => seq![item] + walk(fs, rest, style, macos, left),
            TaskView::Visit(path) => walk(
                fs,
                rest + tasks_after_look(path, fs(path).look, style, macos),
                style,
                macos,
                left,
            ),
            TaskView::List(path) => walk(
                fs,
                rest + tasks_after_listing(path, fs(path).listing, style, macos),
                style,
                macos,
                left,
            ),
        }
    }
}

/// Items that report what was passed over.
pub open spec fn skip_items(skips: Seq<(PathView, Seq<char>)>) -> Seq<ItemView> {
    Seq::new(skips.len(), |i: int| ItemView::Skipped(skips[i].0, skips[i].1))
}

/// The items of the tree at a path, down to a depth: a directory's are between its
/// beginning and its end, first what could not be listed, then its children's in
/// order.
pub open spec fn tree_items(
    fs: spec_fn(PathView) -> Node,
    path: PathView,
    style: WalkStyle,
    macos: bool,
    depth: nat,
) -> Seq<ItemView>
    decreases depth, 0nat,
{
    if depth == 0 {
        Seq::empty()
    } else {
        match fs(path).look {
            LookView::Unreadable(f) => seq![
                ItemView::Skipped(path, failure_reason(f, style, macos)),
            ],
            LookView::Link => seq![ItemView::Skipped(path, link_reason(style))],
            LookView::Special => seq![ItemView::Skipped(path, "not a regular file"@)],
            LookView::File(size) => seq![ItemView::File(path, size)],
            LookView::Folder => seq![ItemView::Dir(path)] + (match fs(path).listing {
                Err(f) => seq![ItemView::Skipped(path, failure_reason(f, style, macos))],
                Ok(entries) => skip_items(failed(entries, path, macos)) + forest_items(
                    fs,
                    sorted_paths(readable(entries)),
                    style,
                    macos,
                    (depth - 1) as nat,
                ),
            }) + seq![ItemView::DirEnd],
        }
    }
}

/// The items of the trees at some paths, one after the other.
pub open spec fn forest_items(
    fs: spec_fn(PathView) -> Node,
    paths: Seq<PathView>,
    style: WalkStyle,
    macos: bool,
    depth: nat,
) -> Seq<ItemView>
    decreases depth, paths.len() + 1,
{
    if paths.len() == 0 {
        Seq::empty()
    } else {
        tree_items(fs, paths[0], style, macos, depth) + forest_items(
            fs,
            paths.skip(1),
            style,
            macos,
            depth,
        )
    }
}

/// Whether the tree at a path is no deeper than a depth.
pub open spec fn within(fs: spec_fn(PathView) -> Node, path: PathView, depth: nat) -> bool
    decreases depth,
{
    depth > 0 && (fs(path).look is Folder && fs(path).listing is Ok ==> forall|i: int|
        0 <= i < sorted_paths(readable(fs(path).listing->Ok_0)).len() ==> within(
            fs,
            #[trigger] sorted_paths(readable(fs(path).listing->Ok_0))[i],
            (depth - 1) as nat,
        ))
}

/// How many steps the tree at a path takes.
pub open spec fn tree_steps(
    fs: spec_fn(PathView) -> Node,
    path: PathView,
    macos: bool,
    depth: nat,
) -> nat
    decreases depth, 0nat,
{
    if depth == 0 {
        0
    } else if fs(path).look is Folder {
        4 + (match fs(path).listing {
            Err(_) => 1,
            Ok(entries) => failed(entries, path, macos).len() + forest_steps(
                fs,
                sorted_paths(readable(entries)),
                macos,
                (depth - 1) as nat,
            ),
        })
    } else {
        2
    }
}

/// How many steps the trees at some paths take.
pub open spec fn forest_steps(
    fs: spec_fn(PathView) -> Node,
    paths: Seq<PathView>,
    macos: bool,
    depth: nat,
) -> nat
    decreases depth, paths.len() + 1,
{
    if paths.len() == 0 {
        0
    } else {
        tree_steps(fs, paths[0], macos, depth) + forest_steps(fs, paths.skip(1), macos, depth)
    }
}

/// Reports are delivered in order.
proof fn reports_are_delivered(
    fs: spec_fn(PathView) -> Node,
    rest: Seq<TaskView>,
    skips: Seq<(PathView, Seq<char>)>,
    style: WalkStyle,
    macos: bool,
    more: nat,
)
    ensures
        walk(fs, rest + reports(skips), style, macos, skips.len() + more) == skip_items(skips)
            + walk(fs, rest, style, macos, more),
    decreases skips.len(),
{
    let tasks = rest + reports(skips);
    if skips.len() == 0 {
        assert(tasks =~= rest);
        assert(skip_items(skips) + walk(fs, rest, style, macos, more) =~= walk(
            fs,
            rest,
            style,
            macos,
            more,
        ));
    } else {
        let later = skips.skip(1);
        reports_are_delivered(fs, rest, later, style, macos, more);
        assert(tasks.drop_last() =~= rest + reports(later));
        let first = ItemView::Skipped(skips[0].0, skips[0].1);
        assert(tasks.last() == TaskView::Emit(first));
        assert((skips.len() + more - 1) as nat == later.len() + more);
        assert(skip_items(skips) =~= seq![first] + skip_items(later));
        assert(walk(fs, tasks, style, macos, skips.len() + more) =~= seq![first] + walk(
            fs,
            tasks.drop_last(),
            style,
            macos,
            later.len() + more,
        ));
        assert(seq![first] + (skip_items(later) + walk(fs, rest, style, macos, more)) =~= (
        seq![first] + skip_items(later)) + walk(fs, rest, style, macos, more));
    }
}

/// A tree's items are delivered, whatever else remains to be done.
#[verifier::spinoff_prover]
#[verifier::rlimit(60)]
proof fn tree_is_delivered(
    fs: spec_fn(PathView) -> Node,
    rest: Seq<TaskView>,
    path: PathView,
    style: WalkStyle,
    macos: bool,
    depth: nat,
    more: nat,
)
    requires
        within(fs, path, depth),
    ensures
        walk(
            fs,
            rest.push(TaskView::Visit(path)),
            style,
            macos,
            tree_steps(fs, path, macos, depth) + more,
        ) == tree_items(fs, path, style, macos, depth) + walk(fs, rest, style, macos, more),
    decreases depth, 0nat,
{
    let tasks = rest.push(TaskView::Visit(path));
    let steps = tree_steps(fs, path, macos, depth) + more;
    let look = fs(path).look;
    let after = rest + tasks_after_look(path, look, style, macos);
    assert(tasks.drop_last() =~= rest);
    assert(walk(fs, tasks, style, macos, steps) == walk(
        fs,
        after,
        style,
        macos,
        (steps - 1) as nat,
    ));
    if look is Folder {
        let end = rest.push(TaskView::Emit(ItemView::DirEnd));
        let inner = end.push(TaskView::List(path));
        assert(after =~= inner.push(TaskView::Emit(ItemView::Dir(path))));
        assert(after.drop_last() =~= inner);
        assert(inner.drop_last() =~= end);
        assert(end.drop_last() =~= rest);
        let listing = fs(path).listing;
        let listed = end + tasks_after_listing(path, listing, style, macos);
        let below = (steps - 3) as nat;
        assert(walk(fs, after, style, macos, (steps - 1) as nat) == seq![ItemView::Dir(path)]
            + walk(fs, inner, style, macos, (steps - 2) as nat));
        assert(walk(fs, inner, style, macos, (steps - 2) as nat) == walk(
            fs,
            listed,
            style,
            macos,
            below,
        ));
        assert(walk(fs, end, style, macos, 1 + more) == seq![ItemView::DirEnd] + walk(
            fs,
            rest,
            style,
            macos,
            more,
        ));
        let tail = walk(fs, rest, style, macos, more);
        match listing {
            Err(f) => {
                let item = ItemView::Skipped(path, failure_reason(f, style, macos));
                assert(listed =~= end.push(TaskView::Emit(item)));
                assert(listed.drop_last() =~= end);
                assert(below == 2 + more);
                assert(walk(fs, listed, style, macos, below) == seq![item] + walk(
                    fs,
                    end,
                    style,
                    macos,
                    1 + more,
                ));
                assert(seq![ItemView::Dir(path)] + (seq![item] + (seq![ItemView::DirEnd] + tail))
                    =~= (seq![ItemView::Dir(path)] + seq![item] + seq![ItemView::DirEnd]) + tail);
            },
            Ok(entries) => {
                let children = sorted_paths(readable(entries));
                let skips = failed(entries, path, macos);
                let d = (depth - 1) as nat;
                let visiting = end + visits(children);
                assert(listed =~= visiting + reports(skips));
                let n = forest_steps(fs, children, macos, d);
                assert(below == skips.len() + (n + (1 + more)));
                reports_are_delivered(fs, visiting, skips, style, macos, n + (1 + more));
                assert forall|i: int| 0 <= i < children.len() implies within(
                    fs,
                    #[trigger] children[i],
                    d,
                ) by {}
                forest_is_delivered(fs, end, children, style, macos, d, 1 + more);
                let a = skip_items(skips);
                let b = forest_items(fs, children, style, macos, d);
                assert(seq![ItemView::Dir(path)] + (a + (b + (seq![ItemView::DirEnd] + tail)))
                    =~= (seq![ItemView::Dir(path)] + (a + b) + seq![ItemView::DirEnd]) + tail);
            },
        }
    } else {
        let item = tree_items(fs, path, style, macos, depth)[0];
        assert(tree_items(fs, path, style, macos, depth) =~= seq![item]);
        assert(after =~= rest.push(TaskView::Emit(item)));
        assert(after.drop_last() =~= rest);
        assert(steps - 1 == 1 + more);
    }
}

/// The items of some trees are delivered in order, whatever else remains.
proof fn forest_is_delivered(
    fs: spec_fn(PathView) -> Node,
    rest: Seq<TaskView>,
    paths: Seq<PathView>,
    style: WalkStyle,
    macos: bool,
    depth: nat,
    more: nat,
)
    requires
        forall|i: int| 0 <= i < paths.len() ==> within(fs, #[trigger] paths[i], depth),
    ensures
        walk(
            fs,
            rest + visits(paths),
            style,
            macos,
            forest_steps(fs, paths, macos, depth) + more,
        ) == forest_items(fs, paths, style, macos, depth) + walk(fs, rest, style, macos, more),
    decreases depth, paths.len() + 1,
{
    let tasks = rest + visits(paths);
    if paths.len() == 0 {
        assert(tasks =~= rest);
        assert(forest_items(fs, paths, style, macos, depth) + walk(fs, rest, style, macos, more)
            =~= walk(fs, rest, style, macos, more));
    } else {
        let later = paths.skip(1);
        let below = rest + visits(later);
        assert(tasks =~= below.push(TaskView::Visit(paths[0])));
        let n = forest_steps(fs, later, macos, depth);
        assert forall|i: int| 0 <= i < later.len() implies within(fs, #[trigger] later[i], depth) by {
            assert(later[i] == paths[i + 1]);
        }
        tree_is_delivered(fs, below, paths[0], style, macos, depth, n + more);
        forest_is_delivered(fs, rest, later, style, macos, depth, more);
        let a = tree_items(fs, paths[0], style, macos, depth);
        let b = forest_items(fs, later, style, macos, depth);
        let c = walk(fs, rest, style, macos, more);
        assert(a + (b + c) =~= (a + b) + c);
        assert(tree_steps(fs, paths[0], macos, depth) + (n + more) == forest_steps(
            fs,
            paths,
            macos,
            depth,
        ) + more);
    }
}

/// A walk of some roots delivers the items of their trees: every directory is
/// closed, and nothing is left out, however the steps are spread in time.
pub proof fn walks_deliver_trees(
    fs: spec_fn(PathView) -> Node,
    roots: Seq<PathView>,
    style: WalkStyle,
    macos: bool,
    depth: nat,
)
    requires
        forall|i: int| 0 <= i < roots.len() ==> within(fs, #[trigger] roots[i], depth),
    ensures
        walk(fs, visits(roots), style, macos, forest_steps(fs, roots, macos, depth))
            == forest_items(fs, roots, style, macos, depth),
{
    let none = Seq::<TaskView>::empty();
    forest_is_delivered(fs, none, roots, style, macos, depth, 0);
    assert(none + visits(roots) =~= visits(roots));
    let all = forest_items(fs, roots, style, macos, depth);
    assert(all + walk(fs, none, style, macos, 0) =~= all);
}

} // verus!
