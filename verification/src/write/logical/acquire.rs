//! Acquiring a stream of items: folders, files, and what was passed over.

use vstd::prelude::*;

use crate::bytes;
use crate::error::{Error, ErrorView, Locus, LocusView};
use crate::hash::{digest_views, Digest, DigestView};
use crate::lexicon::{aff4l_iri, iri, namespace_for, standard_iri, XSD_STRING};
use crate::rdf::{statement, typed_as, Term, TermView, TripleView};
use crate::storage_form::StorageForm;
use crate::text;
use crate::verify::report::capped_sum;
use crate::write::container_writer::{uuid_of, ContainerWriter, WriterView};
use crate::write::dedupe::{block_names, pool_written, ChunkPool, PoolView};
use crate::write::logical::names::{
    arn_for_path, mint, minted, path_fragment, EntryPath, LogicalProfile, PathView,
};
use crate::write::logical::record::{
    entry_triples, file_recorded, nothing_acquired, pending_views, record_file, recorded_decodes,
    store_view, write_table_3, AcquiredView, DedupeSummary, EntryFacts, FactsView, LogicalAcquisition, Minted,
    MintedView, PendingDedupe, PendingView, SharedStorage, Standing, StoreView,
};
use crate::write::logical::storage::{LogicalOptions, OptionsView};
use crate::write::logical::terms;
use crate::write::map_writer::{failure, slice_outcome, write_slice_map};
use crate::write::scan::{
    failed, failure_reason, forest_items, readable, skip_items, sorted_paths, tree_items, ItemView,
    Node, ScanItem, WalkStyle,
};
use crate::write::stream_writer::{add_stored, decodes_back, stored_triple};

verus! {

/// Why a directory is passed over that was entered and never finished.
pub const UNCLOSED: &'static str =
    "directory not closed; the item stream ended before its contents were finished";

/// A directory that was entered and is not finished.
struct OpenDir {
    path: EntryPath,
    arn: String,
    children: Vec<String>,
}

/// A directory under way, as plain values.
#[verifier::ext_equal]
pub struct DirView {
    /// Where it is.
    pub path: PathView,
    /// Its name.
    pub arn: Seq<char>,
    /// The names of what was acquired in it.
    pub children: Seq<Seq<char>>,
}

impl View for OpenDir {
    type V = DirView;

    closed spec fn view(&self) -> DirView {
        DirView { path: self.path@, arn: self.arn@, children: text::texts(self.children@) }
    }
}

/// Directories under way, as plain values.
spec fn dir_views(list: Seq<OpenDir>) -> Seq<DirView> {
    Seq::new(list.len(), |i: int| list[i]@)
}

/// Where the acquisition of an item stream stands.
#[verifier::ext_equal]
pub struct AcquireView {
    /// The writer, the account, and the storage shared between files.
    pub store: StoreView,
    /// The directories under way, the innermost last.
    pub stack: Seq<DirView>,
    /// The names of the roots acquired.
    pub roots: Seq<Seq<char>>,
}

/// The statements of what a folder contains, where the profile has a term for it.
pub open spec fn child_triples(dir: DirView, profile: LogicalProfile) -> Seq<TripleView> {
    if profile == LogicalProfile::Legacy {
        Seq::new(
            dir.children.len(),
            |i: int|
                statement(dir.arn, standard_iri(terms::CHILD@), TermView::Iri(dir.children[i])),
        )
    } else {
        Seq::empty()
    }
}

impl AcquireView {
    /// With something acquired: it is in the innermost directory, or a root.
    pub open spec fn acquired(self, arn: Seq<char>) -> AcquireView {
        if self.stack.len() > 0 {
            let last = self.stack.last();
            AcquireView {
                stack: self.stack.drop_last().push(
                    DirView { children: last.children.push(arn), ..last },
                ),
                ..self
            }
        } else {
            AcquireView { roots: self.roots.push(arn), ..self }
        }
    }

    /// With another writer.
    pub open spec fn writing(self, w: WriterView) -> AcquireView {
        AcquireView {
            store: StoreView {
                standing: Standing { writer: w, ..self.store.standing },
                ..self.store
            },
            ..self
        }
    }

    /// With a path passed over.
    pub open spec fn skip(self, path: PathView, reason: Seq<char>) -> AcquireView {
        AcquireView {
            store: StoreView { standing: self.store.standing.skip(path, reason), ..self.store },
            ..self
        }
    }

    /// With the innermost directory left.
    pub open spec fn left(self) -> AcquireView {
        AcquireView { stack: self.stack.drop_last(), ..self }
    }

    /// With what the innermost directory contains stated.
    pub open spec fn children_stated(self, profile: LogicalProfile) -> AcquireView {
        self.writing(
            self.store.standing.writer.state_all(child_triples(self.stack.last(), profile)),
        )
    }
}

/// The name of an entry: by its path, or minted.
pub open spec fn entry_name(
    volume: Seq<char>,
    path: PathView,
    profile: LogicalProfile,
    names: MintedView,
) -> Result<Seq<char>, ErrorView> {
    match profile {
        LogicalProfile::Legacy => Ok(volume + path_fragment(path.display)),
        LogicalProfile::V1Alpha => names.entry,
    }
}

/// A folder recorded and entered.
pub open spec fn folder_entered(
    s: AcquireView,
    path: PathView,
    arn: Seq<char>,
    facts: FactsView,
    o: OptionsView,
) -> AcquireView {
    let standing = s.store.standing;
    AcquireView {
        store: StoreView {
            standing: Standing {
                writer: standing.writer.state_all(
                    entry_triples(
                        arn,
                        path,
                        facts.stamps,
                        standing.writer.volume,
                        o.profile,
                        true,
                    ),
                ).state(typed_as(arn, standard_iri(terms::FOLDER@))).state(
                    typed_as(arn, standard_iri(terms::FOLDER_IMAGE@)),
                ),
                result: AcquiredView {
                    folders: capped_sum(standing.result.folders as int, 1),
                    ..standing.result
                },
            },
            ..s.store
        },
        stack: s.stack.push(DirView { path, arn, children: Seq::empty() }),
        ..s
    }
}

/// One item acquired, or why the acquisition cannot go on.
#[verifier::opaque]
pub open spec fn item_acquired(
    s: AcquireView,
    item: ItemView,
    facts: FactsView,
    names: MintedView,
    o: OptionsView,
) -> (AcquireView, Option<ErrorView>) {
    let volume = s.store.standing.writer.volume;
    match item {
        ItemView::Skipped(path, reason) => (s.skip(path, reason), None),
        ItemView::Dir(path) => match entry_name(volume, path, o.profile, names) {
            Err(e) => (s, Some(e)),
            Ok(arn) => (folder_entered(s, path, arn, facts, o), None),
        },
        ItemView::DirEnd => if s.stack.len() == 0 {
            (s, None)
        } else {
            (s.children_stated(o.profile).left().acquired(s.stack.last().arn), None)
        },
        ItemView::File(path, size) => match entry_name(volume, path, o.profile, names) {
            Err(e) => (s, Some(e)),
            Ok(arn) => (
                AcquireView {
                    store: file_recorded(s.store, path, arn, size, facts, names, o),
                    ..s
                }.acquired(arn),
                None,
            ),
        },
    }
}

/// Whether what is stored of an item decodes to it, where it is a file in a stream of
/// its own.
#[verifier::opaque]
pub open spec fn item_decodes(
    s: AcquireView,
    item: ItemView,
    facts: FactsView,
    names: MintedView,
    o: OptionsView,
) -> bool {
    match item {
        ItemView::File(path, size) => match entry_name(
            s.store.standing.writer.volume,
            path,
            o.profile,
            names,
        ) {
            Err(_) => true,
            Ok(arn) => recorded_decodes(s.store, path, arn, size, facts, names, o),
        },
        _ => true,
    }
}

/// Every directory that was never finished is passed over: what was acquired in it
/// is still stated, but it is neither a root nor something contained.
pub open spec fn drained(s: AcquireView, profile: LogicalProfile) -> AcquireView
    decreases s.stack.len(),
{
    if s.stack.len() == 0 {
        s
    } else {
        drained(
            s.children_stated(profile).skip(s.stack.last().path, UNCLOSED@).left(),
            profile,
        )
    }
}

/// The acquisition of an item stream, under way.
pub struct ItemRun {
    stack: Vec<OpenDir>,
    roots: Vec<String>,
}

impl ItemRun {
    /// The directories under way, the innermost last.
    pub closed spec fn dirs(&self) -> Seq<DirView> {
        dir_views(self.stack@)
    }

    /// The names of the roots acquired.
    pub closed spec fn acquired_roots(&self) -> Seq<Seq<char>> {
        text::texts(self.roots@)
    }
}

/// Where an acquisition stands, as plain values.
pub open spec fn acquire_view(
    writer: WriterView,
    result: AcquiredView,
    storage: SharedStorage,
    run: ItemRun,
) -> AcquireView {
    AcquireView {
        store: store_view(writer, result, storage),
        stack: run.dirs(),
        roots: run.acquired_roots(),
    }
}

/// State what a folder contains, where the profile has a term for it.
fn write_child_edges(
    writer: &mut ContainerWriter,
    dir: &OpenDir,
    profile: LogicalProfile,
)
    ensures
        final(writer).view() == old(writer).view().state_all(child_triples(dir@, profile)),
{
    let ghost w0 = writer.view();
    let ghost all = child_triples(dir@, profile);
    if !profile.writes_child_edges() {
        proof {
            assert(writer.view() =~= w0.state_all(all));
        }
        return;
    }
    let mut i: usize = 0;
    proof {
        assert(writer.view() =~= w0.state_all(all.take(0)));
    }
    while i < dir.children.len()
        invariant
            i <= dir.children.len(),
            profile == LogicalProfile::Legacy,
            all == child_triples(dir@, profile),
            writer.view() == w0.state_all(all.take(i as int)),
        decreases dir.children.len() - i,
    {
        writer.add(
            dir.arn.as_str(),
            iri(terms::CHILD).as_str(),
            Term::iri(dir.children[i].as_str()),
        );
        proof {
            assert(all.take(i + 1) =~= all.take(i as int).push(all[i as int]));
            assert(writer.view() =~= w0.state_all(all.take(i + 1)));
        }
        i = i + 1;
    }
    proof {
        assert(all.take(i as int) =~= all);
    }
}

impl ItemRun {
    /// Nothing open, nothing acquired.
    pub fn new() -> (r: ItemRun)
        ensures
            r.dirs() == Seq::<DirView>::empty(),
            r.acquired_roots() == Seq::<Seq<char>>::empty(),
    {
        let r = ItemRun { stack: Vec::new(), roots: Vec::new() };
        proof {
            assert(dir_views(r.stack@) =~= Seq::<DirView>::empty());
            assert(text::texts(r.roots@) =~= Seq::<Seq<char>>::empty());
        }
        r
    }

    /// Note something acquired.
    fn acquired(&mut self, arn: String)
        ensures
            forall|w: WriterView, a: AcquiredView, s: SharedStorage| #[trigger]
                acquire_view(w, a, s, *final(self)) == acquire_view(w, a, s, *old(self)).acquired(
                    arn@,
                ),
    {
        let ghost stack = self.stack@;
        let ghost roots = self.roots@;
        match self.stack.pop() {
            Some(dir) => {
                let OpenDir { path, arn: name, children } = dir;
                let ghost before = children@;
                let mut grown = children;
                grown.push(arn);
                self.stack.push(OpenDir { path, arn: name, children: grown });
                proof {
                    let last = dir_views(stack).last();
                    assert(text::texts(grown@) =~= text::texts(before).push(arn@));
                    assert(dir_views(self.stack@) =~= dir_views(stack).drop_last().push(
                        DirView { children: last.children.push(arn@), ..last },
                    ));
                }
            },
            None => {
                self.roots.push(arn);
                proof {
                    assert(text::texts(self.roots@) =~= text::texts(roots).push(arn@));
                    assert(dir_views(self.stack@).len() == 0);
                }
            },
        }
    }

    /// Leave the innermost directory: state what it contains, and note it as
    /// acquired.
    fn leave(&mut self, writer: &mut ContainerWriter, profile: LogicalProfile)
        ensures
            forall|a: AcquiredView, s: SharedStorage|
                #![trigger acquire_view(final(writer).view(), a, s, *final(self))]
                ({
                    let before = acquire_view(old(writer).view(), a, s, *old(self));
                    acquire_view(final(writer).view(), a, s, *final(self)) == if before.stack.len()
                        == 0 {
                        before
                    } else {
                        before.children_stated(profile).left().acquired(before.stack.last().arn)
                    }
                }),
    {
        let ghost stack = self.stack@;
        match self.stack.pop() {
            Some(dir) => {
                proof {
                    assert(dir_views(self.stack@) =~= dir_views(stack).drop_last());
                    assert(dir_views(stack).last() == dir@);
                }
                write_child_edges(writer, &dir, profile);
                self.acquired(dir.arn);
            },
            None => {
                proof {
                    assert(dir_views(stack).len() == 0);
                }
            },
        }
    }

    /// Enter a folder.
    fn enter(
        &mut self,
        writer: &mut ContainerWriter,
        path: EntryPath,
        arn: String,
        facts: &EntryFacts,
        options: &LogicalOptions,
        result: &mut LogicalAcquisition,
    )
        ensures
            forall|s: SharedStorage|
                #![trigger acquire_view(final(writer).view(), final(result)@, s, *final(self))]
                acquire_view(final(writer).view(), final(result)@, s, *final(self))
                    == folder_entered(
                    acquire_view(old(writer).view(), old(result)@, s, *old(self)),
                    path@,
                    arn@,
                    facts@,
                    options@,
                ),
    {
        let ghost stack = self.stack@;
        write_table_3(writer, arn.as_str(), &path, &facts.stamps, options.profile, true);
        writer.add_type(arn.as_str(), iri(terms::FOLDER).as_str());
        writer.add_type(arn.as_str(), iri(terms::FOLDER_IMAGE).as_str());
        result.folders = result.folders.saturating_add(1);
        let dir = OpenDir { path, arn, children: Vec::new() };
        proof {
            assert(text::texts(dir.children@) =~= Seq::<Seq<char>>::empty());
        }
        self.stack.push(dir);
        proof {
            assert(dir_views(self.stack@) =~= dir_views(stack).push(dir@));
        }
    }

    /// Acquire one item, under given names.
    pub fn take_named(
        &mut self,
        writer: &mut ContainerWriter,
        item: ScanItem,
        facts: &EntryFacts,
        names: Minted,
        options: &LogicalOptions,
        storage: &mut SharedStorage,
        result: &mut LogicalAcquisition,
    ) -> (r: Result<(), Error>)
        requires
            old(storage).wf(),
        ensures
            final(storage).wf(),
            (
                acquire_view(
                    final(writer).view(),
                    final(result)@,
                    *final(storage),
                    *final(self),
                ),
                failure(r),
            ) == item_acquired(
                acquire_view(old(writer).view(), old(result)@, *old(storage), *old(self)),
                item@,
                facts@,
                names@,
                options@,
            ),
            item_decodes(
                acquire_view(old(writer).view(), old(result)@, *old(storage), *old(self)),
                item@,
                facts@,
                names@,
                options@,
            ),
    {
        proof {
            reveal(item_acquired);
            reveal(item_decodes);
        }
        match item {
            ScanItem::Skipped { path, reason } => {
                result.skip(&path, reason);
                Ok(())
            },
            ScanItem::Dir { path } => {
                let arn = if options.profile.is_v1_alpha() {
                    match names.entry {
                        Ok(arn) => arn,
                        Err(e) => return Err(e),
                    }
                } else {
                    arn_for_path(writer.volume_arn().as_str(), path.display())
                };
                self.enter(writer, path, arn, facts, options, result);
                Ok(())
            },
            ScanItem::DirEnd => {
                self.leave(writer, options.profile);
                Ok(())
            },
            ScanItem::File { path, size } => {
                let arn = if options.profile.is_v1_alpha() {
                    match &names.entry {
                        Ok(arn) => text::owned(arn.as_str()),
                        Err(_) => {
                            return match names.entry {
                                Ok(_) => Ok(()),
                                Err(e) => Err(e),
                            };
                        },
                    }
                } else {
                    arn_for_path(writer.volume_arn().as_str(), path.display())
                };
                record_file(
                    writer,
                    &path,
                    arn.as_str(),
                    size,
                    facts,
                    &names,
                    options,
                    storage,
                    result,
                );
                self.acquired(arn);
                Ok(())
            },
        }
    }
}

/// Whether an acquisition names anything afresh.
pub open spec fn needs_names(o: OptionsView) -> bool {
    o.profile == LogicalProfile::V1Alpha || o.storage_form == Some(
        StorageForm::OwnMap,
    )
}

/// Whether names were minted, or the failures are those of minting.
pub open spec fn all_minted(names: MintedView, path: Seq<char>) -> bool {
    minted(names.entry, path) && minted(names.stream, path) && minted(names.map, path)
}

/// Where nothing is named afresh, the names do not matter.
proof fn names_do_not_matter(
    s: AcquireView,
    item: ItemView,
    facts: FactsView,
    a: MintedView,
    b: MintedView,
    o: OptionsView,
)
    requires
        !needs_names(o),
    ensures
        item_acquired(s, item, facts, a, o) == item_acquired(s, item, facts, b, o),
        item_decodes(s, item, facts, a, o) == item_decodes(s, item, facts, b, o),
{
    reveal(item_acquired);
    reveal(item_decodes);
}

/// There are names that may be minted.
proof fn some_names(path: Seq<char>) -> (names: MintedView)
    ensures
        all_minted(names, path),
{
    let entropy = Seq::new(16, |i: int| 0u8);
    let name = "aff4://"@ + uuid_of(entropy);
    let names = MintedView {
        entry: Ok::<Seq<char>, ErrorView>(name),
        stream: Ok::<Seq<char>, ErrorView>(name),
        map: Ok::<Seq<char>, ErrorView>(name),
    };
    assert(minted(names.entry, path));
    names
}

/// Is told how an acquisition stands after each file.
///
/// The function that says what it was told is for contracts alone: an implementation
/// that nothing verifies leaves it as it is.
pub trait AcquisitionObserver: Sized {
    /// Every account given so far.
    open spec fn log(&self) -> Seq<AcquiredView> {
        arbitrary()
    }

    /// Take the account after one more file.
    fn on(&mut self, so_far: &LogicalAcquisition)
        ensures
            final(self).log() == old(self).log().push(so_far@),
    ;
}

/// An observer that does nothing with what it is told.
pub struct NoAccounts {
    log: Ghost<Seq<AcquiredView>>,
}

impl NoAccounts {
    /// An observer that has been told nothing.
    pub fn new() -> (r: Self)
        ensures
            r.log() == Seq::<AcquiredView>::empty(),
    {
        NoAccounts { log: Ghost(Seq::empty()) }
    }
}

impl AcquisitionObserver for NoAccounts {
    closed spec fn log(&self) -> Seq<AcquiredView> {
        self.log@
    }

    fn on(&mut self, so_far: &LogicalAcquisition) {
        self.log = Ghost(self.log@.push(so_far@));
    }
}

/// What an observer is told of an item that came to something: how the acquisition
/// stands, where the item is a file and was acquired.
pub open spec fn item_told(item: ItemView, end: (AcquireView, Option<ErrorView>)) -> Seq<
    AcquiredView,
> {
    if item is File && end.1 is None {
        seq![end.0.store.standing.result]
    } else {
        Seq::empty()
    }
}

/// Whether an item is a file.
fn is_file(item: &ScanItem) -> (r: bool)
    ensures
        r == (item@ is File),
{
    match item {
        ScanItem::File { path: _, size: _ } => true,
        _ => false,
    }
}

impl ItemRun {
    /// Acquire one item, minting the names that it needs, and tell an observer how
    /// the acquisition stands where it is a file. `output` is the file being written.
    pub fn take<Q: AcquisitionObserver>(
        &mut self,
        writer: &mut ContainerWriter,
        item: ScanItem,
        facts: &EntryFacts,
        options: &LogicalOptions,
        storage: &mut SharedStorage,
        result: &mut LogicalAcquisition,
        output: &str,
        progress: &mut Q,
    ) -> (r: Result<(), Error>)
        requires
            old(storage).wf(),
        ensures
            final(storage).wf(),
            exists|names: MintedView| #[trigger]
                all_minted(names, output@) && (
                    acquire_view(
                        final(writer).view(),
                        final(result)@,
                        *final(storage),
                        *final(self),
                    ),
                    failure(r),
                ) == item_acquired(
                    acquire_view(old(writer).view(), old(result)@, *old(storage), *old(self)),
                    item@,
                    facts@,
                    names,
                    options@,
                ) && item_decodes(
                    acquire_view(old(writer).view(), old(result)@, *old(storage), *old(self)),
                    item@,
                    facts@,
                    names,
                    options@,
                ),
            final(progress).log() == old(progress).log() + item_told(
                item@,
                (
                    acquire_view(
                        final(writer).view(),
                        final(result)@,
                        *final(storage),
                        *final(self),
                    ),
                    failure(r),
                ),
            ),
    {
        let told = is_file(&item);
        let forced_own_map = match options.storage_form {
            Some(form) => form == StorageForm::OwnMap,
            None => false,
        };
        let names = if options.profile.is_v1_alpha() || forced_own_map {
            Minted { entry: mint(output), stream: mint(output), map: mint(output) }
        } else {
            Minted { entry: Ok(String::new()), stream: Ok(String::new()), map: Ok(String::new()) }
        };
        let ghost given = names@;
        let ghost before = acquire_view(writer.view(), result@, *storage, *self);
        let r = self.take_named(writer, item, facts, names, options, storage, result);
        proof {
            if needs_names(options@) {
                assert(all_minted(given, output@));
            } else {
                let other = some_names(output@);
                names_do_not_matter(before, item@, facts@, given, other, options@);
                assert(all_minted(other, output@));
            }
        }
        if told && r.is_ok() {
            progress.on(result);
            proof {
                assert(progress.log() =~= old(progress).log() + seq![result@]);
            }
        } else {
            proof {
                assert(progress.log() =~= old(progress).log() + Seq::<AcquiredView>::empty());
            }
        }
        r
    }

    /// End the item stream: directories that were never finished are passed over.
    /// Returns the roots acquired.
    pub fn close(
        self,
        writer: &mut ContainerWriter,
        options: &LogicalOptions,
        result: &mut LogicalAcquisition,
    ) -> (r: Vec<String>)
        ensures
            forall|s: SharedStorage|
                #![trigger store_view(final(writer).view(), final(result)@, s)]
                ({
                    let end = drained(
                        acquire_view(old(writer).view(), old(result)@, s, self),
                        options@.profile,
                    );
                    &&& end.store == store_view(final(writer).view(), final(result)@, s)
                    &&& end.roots == text::texts(r@)
                }),
    {
        let ghost start = self;
        let mut run = self;
        let ghost w0 = writer.view();
        let ghost r0 = result@;
        while run.stack.len() > 0
            invariant
                forall|s: SharedStorage|
                    #![trigger acquire_view(writer.view(), result@, s, run)]
                    drained(acquire_view(w0, r0, s, start), options@.profile) == drained(
                        acquire_view(writer.view(), result@, s, run),
                        options@.profile,
                    ),
            decreases run.stack.len(),
        {
            let ghost before = run;
            let ghost w1 = writer.view();
            let ghost r1 = result@;
            match run.stack.pop() {
                Some(dir) => {
                    write_child_edges(writer, &dir, options.profile);
                    result.skip(&dir.path, text::owned(UNCLOSED));
                    proof {
                        assert(run.dirs() =~= before.dirs().drop_last());
                        assert(before.dirs().last() == dir@);
                        assert forall|s: SharedStorage|
                            #![trigger acquire_view(writer.view(), result@, s, run)]
                            drained(acquire_view(w0, r0, s, start), options@.profile) == drained(
                                acquire_view(writer.view(), result@, s, run),
                                options@.profile,
                            ) by {
                            let a = acquire_view(w1, r1, s, before);
                            let b = acquire_view(writer.view(), result@, s, run);
                            assert(a.children_stated(options@.profile).skip(
                                a.stack.last().path,
                                UNCLOSED@,
                            ).left() =~= b);
                        }
                    }
                },
                None => {},
            }
        }
        proof {
            assert forall|s: SharedStorage|
                #![trigger store_view(writer.view(), result@, s)]
                ({
                    let end = drained(acquire_view(w0, r0, s, start), options@.profile);
                    &&& end.store == store_view(writer.view(), result@, s)
                    &&& end.roots == text::texts(run.roots@)
                }) by {
                let b = acquire_view(writer.view(), result@, s, run);
                assert(b.stack.len() == 0);
                assert(drained(b, options@.profile) == b);
            }
        }
        run.roots
    }
}

/// An item with what was read of it.
pub struct Entry {
    /// The item.
    pub item: ScanItem,
    /// What was read of it.
    pub facts: EntryFacts,
}

/// Entries, as plain values.
pub open spec fn entries_view(list: Seq<Entry>) -> Seq<(ItemView, FactsView)> {
    Seq::new(list.len(), |i: int| (list[i].item@, list[i].facts@))
}

/// Entries in the reverse order.
fn reversed(entries: Vec<Entry>) -> (r: Vec<Entry>)
    ensures
        r@.len() == entries@.len(),
        forall|i: int|
            0 <= i < r@.len() ==> (#[trigger] r@[i]) == entries@[entries@.len() - 1 - i],
{
    let ghost all = entries@;
    let mut left = entries;
    let mut out: Vec<Entry> = Vec::new();
    while left.len() > 0
        invariant
            left@.len() + out@.len() == all.len(),
            left@ == all.take(left@.len() as int),
            forall|i: int| 0 <= i < out@.len() ==> (#[trigger] out@[i]) == all[all.len() - 1 - i],
        decreases left.len(),
    {
        let ghost n = left@.len() as int;
        match left.pop() {
            Some(entry) => {
                out.push(entry);
                proof {
                    assert(all.take(n)[n - 1] == all[n - 1]);
                    assert(left@ =~= all.take(n - 1));
                }
            },
            None => {},
        }
    }
    out
}

/// Items acquired, one after the other, until one cannot be.
pub open spec fn items_acquired(
    s: AcquireView,
    items: Seq<(ItemView, FactsView)>,
    names: Seq<MintedView>,
    o: OptionsView,
) -> (AcquireView, Option<ErrorView>)
    decreases items.len(),
{
    if items.len() == 0 {
        (s, None)
    } else {
        let (before, e) = items_acquired(s, items.drop_last(), names, o);
        match e {
            Some(e) => (before, Some(e)),
            None => item_acquired(
                before,
                items.last().0,
                items.last().1,
                names[items.len() - 1],
                o,
            ),
        }
    }
}

/// What an observer is told while items are acquired, one after the other, until one
/// cannot be: how the acquisition stands after each file.
pub open spec fn items_told(
    s: AcquireView,
    items: Seq<(ItemView, FactsView)>,
    names: Seq<MintedView>,
    o: OptionsView,
) -> Seq<AcquiredView>
    decreases items.len(),
{
    if items.len() == 0 {
        Seq::empty()
    } else {
        let earlier = items_told(s, items.drop_last(), names, o);
        match items_acquired(s, items.drop_last(), names, o).1 {
            Some(_) => earlier,
            None => earlier + item_told(
                items.last().0,
                items_acquired(s, items, names, o),
            ),
        }
    }
}

/// Whether what is stored of items acquired, one after the other, decodes to them, as
/// far as they are files in streams of their own.
pub open spec fn items_decode(
    s: AcquireView,
    items: Seq<(ItemView, FactsView)>,
    names: Seq<MintedView>,
    o: OptionsView,
) -> bool
    decreases items.len(),
{
    items.len() == 0 || (items_decode(s, items.drop_last(), names, o) && match items_acquired(
        s,
        items.drop_last(),
        names,
        o,
    ) {
        (_, Some(_)) => true,
        (before, None) => item_decodes(
            before,
            items.last().0,
            items.last().1,
            names[items.len() - 1],
            o,
        ),
    })
}

/// How many of some items are files.
pub open spec fn files_among(items: Seq<(ItemView, FactsView)>) -> nat
    decreases items.len(),
{
    if items.len() == 0 {
        0
    } else {
        files_among(items.drop_last()) + if items.last().0 is File {
            1nat
        } else {
            0nat
        }
    }
}

/// An observer is told once of every file that is acquired: where every item can be,
/// as often as there are files.
pub proof fn each_file_is_told(
    s: AcquireView,
    items: Seq<(ItemView, FactsView)>,
    names: Seq<MintedView>,
    o: OptionsView,
)
    ensures
        items_told(s, items, names, o).len() <= files_among(items),
        items_acquired(s, items, names, o).1 is None ==> items_told(s, items, names, o).len()
            == files_among(items),
    decreases items.len(),
{
    if items.len() > 0 {
        each_file_is_told(s, items.drop_last(), names, o);
    }
}

/// A fault that ended an acquisition stays its end.
proof fn fault_stays(
    s: AcquireView,
    items: Seq<(ItemView, FactsView)>,
    names: Seq<MintedView>,
    o: OptionsView,
    n: int,
)
    requires
        0 <= n <= items.len(),
        items_acquired(s, items.take(n), names, o).1 is Some,
    ensures
        items_acquired(s, items, names, o) == items_acquired(s, items.take(n), names, o),
        items_told(s, items, names, o) == items_told(s, items.take(n), names, o),
        items_decode(s, items, names, o) == items_decode(s, items.take(n), names, o),
    decreases items.len(),
{
    if n == items.len() {
        assert(items.take(n) =~= items);
    } else {
        assert(items.drop_last().take(n) =~= items.take(n));
        fault_stays(s, items.drop_last(), names, o, n);
    }
}

/// Only the names of the items matter.
proof fn names_in_reach(
    s: AcquireView,
    items: Seq<(ItemView, FactsView)>,
    a: Seq<MintedView>,
    b: Seq<MintedView>,
    o: OptionsView,
)
    requires
        items.len() <= a.len(),
        items.len() <= b.len(),
        forall|i: int| 0 <= i < items.len() ==> a[i] == b[i],
    ensures
        items_acquired(s, items, a, o) == items_acquired(s, items, b, o),
        items_told(s, items, a, o) == items_told(s, items, b, o),
        items_decode(s, items, a, o) == items_decode(s, items, b, o),
    decreases items.len(),
{
    if items.len() > 0 {
        names_in_reach(s, items.drop_last(), a, b, o);
    }
}

/// Whether every name was minted.
pub open spec fn each_minted(names: Seq<MintedView>, path: Seq<char>) -> bool {
    forall|i: int| 0 <= i < names.len() ==> all_minted(#[trigger] names[i], path)
}

/// A whole item stream acquired: its items, then the directories that it left open.
pub open spec fn stream_acquired(
    store: StoreView,
    items: Seq<(ItemView, FactsView)>,
    names: Seq<MintedView>,
    o: OptionsView,
) -> (AcquireView, Option<ErrorView>) {
    let (s, e) = items_acquired(stream_begun(store), items, names, o);
    match e {
        Some(e) => (s, Some(e)),
        None => (drained(s, o.profile), None),
    }
}

/// Where the acquisition of an item stream begins.
pub open spec fn stream_begun(store: StoreView) -> AcquireView {
    AcquireView { store, stack: Seq::empty(), roots: Seq::empty() }
}

/// Acquire an item stream into a writer, telling an observer how the acquisition
/// stands after each file. Returns the names of the roots acquired.
pub fn acquire_from_items<Q: AcquisitionObserver>(
    writer: &mut ContainerWriter,
    items: Vec<Entry>,
    options: &LogicalOptions,
    storage: &mut SharedStorage,
    result: &mut LogicalAcquisition,
    output: &str,
    progress: &mut Q,
) -> (r: Result<Vec<String>, Error>)
    requires
        old(storage).wf(),
    ensures
        final(storage).wf(),
        exists|names: Seq<MintedView>| #[trigger]
            each_minted(names, output@) && names.len() == items@.len() && ({
                let (end, e) = stream_acquired(
                    store_view(old(writer).view(), old(result)@, *old(storage)),
                    entries_view(items@),
                    names,
                    options@,
                );
                &&& end.store == store_view(final(writer).view(), final(result)@, *final(storage))
                &&& match r {
                    Ok(roots) => e is None && text::texts(roots@) == end.roots,
                    Err(x) => e == Some(x@),
                }
                &&& final(progress).log() == old(progress).log() + items_told(
                    stream_begun(store_view(old(writer).view(), old(result)@, *old(storage))),
                    entries_view(items@),
                    names,
                    options@,
                )
                &&& items_decode(
                    stream_begun(store_view(old(writer).view(), old(result)@, *old(storage))),
                    entries_view(items@),
                    names,
                    options@,
                )
            }),
{
    let ghost all = entries_view(items@);
    let ghost count = items@.len();
    let ghost s0 = AcquireView {
        store: store_view(writer.view(), result@, *storage),
        stack: Seq::empty(),
        roots: Seq::empty(),
    };
    let mut run = ItemRun::new();
    let ghost mut names = Seq::<MintedView>::empty();
    let mut rest = reversed(items);
    proof {
        assert(all.take(0) =~= Seq::<(ItemView, FactsView)>::empty());
        assert(acquire_view(writer.view(), result@, *storage, run) =~= s0);
        assert(progress.log() + items_told(s0, all.take(0), names, options@) =~= progress.log());
    }
    while rest.len() > 0
        invariant
            count == items@.len(),
            all == entries_view(items@),
            s0 == (AcquireView {
                store: store_view(old(writer).view(), old(result)@, *old(storage)),
                stack: Seq::empty(),
                roots: Seq::empty(),
            }),
            rest@.len() <= count,
            forall|i: int| 0 <= i < rest@.len() ==> (#[trigger] rest@[i]) == items@[count - 1 - i],
            storage.wf(),
            names.len() == count - rest@.len(),
            each_minted(names, output@),
            items_acquired(s0, all.take(count - rest@.len()), names, options@) == (
                acquire_view(writer.view(), result@, *storage, run),
                None::<ErrorView>,
            ),
            progress.log() == old(progress).log() + items_told(
                s0,
                all.take(count - rest@.len()),
                names,
                options@,
            ),
            items_decode(s0, all.take(count - rest@.len()), names, options@),
        decreases rest.len(),
    {
        let ghost k = count - rest@.len();
        let ghost before = acquire_view(writer.view(), result@, *storage, run);
        let entry = match rest.pop() {
            Some(entry) => entry,
            None => return Ok(Vec::new()),
        };
        let Entry { item, facts } = entry;
        proof {
            assert(all.take(k + 1).drop_last() =~= all.take(k));
            assert(all[k] == (item@, facts@));
            assert(all.take(k + 1).last() == (item@, facts@));
        }
        let ghost earlier = items_told(s0, all.take(k), names, options@);
        let taken = run.take(writer, item, &facts, options, storage, result, output, progress);
        proof {
            let given = choose|given: MintedView| #[trigger]
                all_minted(given, output@) && (
                    acquire_view(writer.view(), result@, *storage, run),
                    failure(taken),
                ) == item_acquired(before, item@, facts@, given, options@) && item_decodes(
                    before,
                    item@,
                    facts@,
                    given,
                    options@,
                );
            let longer = names.push(given);
            names_in_reach(s0, all.take(k), names, longer, options@);
            assert(each_minted(longer, output@));
            names = longer;
            let told = item_told(item@, items_acquired(s0, all.take(k + 1), names, options@));
            assert((old(progress).log() + earlier) + told =~= old(progress).log() + (earlier
                + told));
        }
        match taken {
            Ok(_) => {},
            Err(e) => {
                proof {
                    let filler = some_names(output@);
                    let padded = Seq::new(
                        count,
                        |i: int|
                            if i < names.len() {
                                names[i]
                            } else {
                                filler
                            },
                    );
                    names_in_reach(s0, all.take(k + 1), names, padded, options@);
                    fault_stays(s0, all, padded, options@, k + 1);
                    assert(each_minted(padded, output@));
                }
                return Err(e);
            },
        }
    }
    proof {
        assert(all.take(count as int) =~= all);
        assert(each_minted(names, output@));
    }
    let ghost held = *storage;
    let ghost w1 = writer.view();
    let ghost r1 = result@;
    let roots = run.close(writer, options, result);
    proof {
        assert(store_view(writer.view(), result@, held) == store_view(
            writer.view(),
            result@,
            *storage,
        ));
    }
    Ok(roots)
}

/// How many directories are open after some items, where a number of them was
/// before.
pub open spec fn depth_after(items: Seq<ItemView>, before: nat) -> nat
    decreases items.len(),
{
    if items.len() == 0 {
        before
    } else {
        let d = depth_after(items.drop_last(), before);
        match items.last() {
            ItemView::Dir(_) => d + 1,
            ItemView::DirEnd => if d == 0 {
                0
            } else {
                (d - 1) as nat
            },
            _ => d,
        }
    }
}

/// The items of some entries.
pub open spec fn only_items(entries: Seq<(ItemView, FactsView)>) -> Seq<ItemView> {
    Seq::new(entries.len(), |i: int| entries[i].0)
}

/// The directories open in an acquisition are those that its items left open.
pub proof fn open_directories_are_counted(
    s: AcquireView,
    items: Seq<(ItemView, FactsView)>,
    names: Seq<MintedView>,
    o: OptionsView,
)
    requires
        items_acquired(s, items, names, o).1 is None,
    ensures
        items_acquired(s, items, names, o).0.stack.len() == depth_after(
            only_items(items),
            s.stack.len(),
        ),
    decreases items.len(),
{
    reveal(item_acquired);
    if items.len() > 0 {
        open_directories_are_counted(s, items.drop_last(), names, o);
        assert(only_items(items).drop_last() =~= only_items(items.drop_last()));
    }
}

/// A stream that closes what it opens leaves nothing to be passed over at its end.
pub proof fn balanced_streams_end_clean(
    store: StoreView,
    items: Seq<(ItemView, FactsView)>,
    names: Seq<MintedView>,
    o: OptionsView,
)
    requires
        depth_after(only_items(items), 0) == 0,
    ensures
        ({
            let start = AcquireView { store, stack: Seq::empty(), roots: Seq::empty() };
            stream_acquired(store, items, names, o) == items_acquired(start, items, names, o)
        }),
{
    let start = AcquireView { store, stack: Seq::empty(), roots: Seq::empty() };
    if items_acquired(start, items, names, o).1 is None {
        open_directories_are_counted(start, items, names, o);
    }
}

/// How many paths draining passes over: one for each directory left open.
pub proof fn unclosed_directories_are_reported(s: AcquireView, profile: LogicalProfile)
    ensures
        drained(s, profile).store.standing.result.skipped.len()
            == s.store.standing.result.skipped.len() + s.stack.len(),
        drained(s, profile).roots == s.roots,
        drained(s, profile).stack.len() == 0,
    decreases s.stack.len(),
{
    if s.stack.len() > 0 {
        unclosed_directories_are_reported(
            s.children_stated(profile).skip(s.stack.last().path, UNCLOSED@).left(),
            profile,
        );
    }
}

/// The depth after two lists of items is that after the second, begun at that after
/// the first.
proof fn depth_in_turn(a: Seq<ItemView>, b: Seq<ItemView>, before: nat)
    ensures
        depth_after(a + b, before) == depth_after(b, depth_after(a, before)),
    decreases b.len(),
{
    if b.len() == 0 {
        assert(a + b =~= a);
    } else {
        depth_in_turn(a, b.drop_last(), before);
        assert((a + b).drop_last() =~= a + b.drop_last());
        assert((a + b).last() == b.last());
    }
}

/// Items that report what was passed over change no depth.
proof fn skips_keep_depth(skips: Seq<(PathView, Seq<char>)>, before: nat)
    ensures
        depth_after(skip_items(skips), before) == before,
    decreases skips.len(),
{
    let items = skip_items(skips);
    if skips.len() > 0 {
        skips_keep_depth(skips.drop_last(), before);
        assert(items.drop_last() =~= skip_items(skips.drop_last()));
    }
}

/// One item's depth.
proof fn one_item(item: ItemView, before: nat)
    ensures
        depth_after(seq![item], before) == (match item {
            ItemView::Dir(_) => before + 1,
            ItemView::DirEnd => if before == 0 {
                0
            } else {
                (before - 1) as nat
            },
            _ => before,
        }),
{
    assert(seq![item].drop_last() =~= Seq::<ItemView>::empty());
    reveal_with_fuel(depth_after, 2);
}

/// The walk of a tree closes every directory that it opens.
proof fn trees_keep_depth(
    fs: spec_fn(PathView) -> Node,
    path: PathView,
    style: WalkStyle,
    macos: bool,
    depth: nat,
    before: nat,
)
    ensures
        depth_after(tree_items(fs, path, style, macos, depth), before)
            == before,
    decreases depth, 0nat,
{
    let items = tree_items(fs, path, style, macos, depth);
    if depth > 0 {
        if fs(path).look is Folder {
            let open = seq![ItemView::Dir(path)];
            let close = seq![ItemView::DirEnd];
            one_item(ItemView::Dir(path), before);
            one_item(ItemView::DirEnd, before + 1);
            match fs(path).listing {
                Err(f) => {
                    let item = ItemView::Skipped(
                        path,
                        failure_reason(f, style, macos),
                    );
                    one_item(item, before + 1);
                    depth_in_turn(open, seq![item], before);
                    depth_in_turn(open + seq![item], close, before);
                },
                Ok(entries) => {
                    let skips = failed(entries, path, macos);
                    let children = sorted_paths(
                        readable(entries),
                    );
                    let a = skip_items(skips);
                    let b = forest_items(
                        fs,
                        children,
                        style,
                        macos,
                        (depth - 1) as nat,
                    );
                    skips_keep_depth(skips, before + 1);
                    forests_keep_depth(fs, children, style, macos, (depth - 1) as nat, before + 1);
                    depth_in_turn(a, b, before + 1);
                    depth_in_turn(open, a + b, before);
                    depth_in_turn(open + (a + b), close, before);
                },
            }
        } else {
            one_item(items[0], before);
            assert(items =~= seq![items[0]]);
        }
    }
}

/// The walk of some trees closes every directory that it opens.
pub proof fn forests_keep_depth(
    fs: spec_fn(PathView) -> Node,
    paths: Seq<PathView>,
    style: WalkStyle,
    macos: bool,
    depth: nat,
    before: nat,
)
    ensures
        depth_after(forest_items(fs, paths, style, macos, depth), before)
            == before,
    decreases depth, paths.len() + 1,
{
    if paths.len() > 0 {
        trees_keep_depth(fs, paths[0], style, macos, depth, before);
        forests_keep_depth(fs, paths.skip(1), style, macos, depth, before);
        depth_in_turn(
            tree_items(fs, paths[0], style, macos, depth),
            forest_items(fs, paths.skip(1), style, macos, depth),
            before,
        );
    }
}

/// A writer with an acquisition's subject opened.
pub open spec fn task_opened(
    w: WriterView,
    task: Seq<char>,
    o: OptionsView,
    separator: Seq<char>,
) -> WriterView {
    let typed = w.state(typed_as(task, standard_iri(terms::LOGICAL_ACQUISITION_TASK@)));
    if o.profile == LogicalProfile::V1Alpha {
        typed.state(
            statement(
                task,
                aff4l_iri(terms::PATH_SEPARATOR@, o.namespace_https),
                TermView::Literal(separator, XSD_STRING@),
            ),
        )
    } else {
        typed
    }
}

/// Open an acquisition's subject. `separator` is that of the recorded paths.
pub fn open_acquisition_task(
    writer: &mut ContainerWriter,
    task_arn: &str,
    options: &LogicalOptions,
    separator: &str,
)
    ensures
        final(writer).view() == task_opened(
            old(writer).view(),
            task_arn@,
            options@,
            separator@,
        ),
{
    writer.add_type(task_arn, iri(terms::LOGICAL_ACQUISITION_TASK).as_str());
    if options.profile.is_v1_alpha() {
        let predicate = text::cat2(
            namespace_for(terms::PATH_SEPARATOR, options.namespace_https),
            terms::PATH_SEPARATOR,
        );
        writer.add(task_arn, predicate.as_str(), Term::typed(separator, XSD_STRING));
    }
}

/// The statements of an acquisition's roots.
pub open spec fn root_triples(task: Seq<char>, roots: Seq<Seq<char>>) -> Seq<TripleView> {
    Seq::new(
        roots.len(),
        |i: int| statement(task, standard_iri(terms::FILESYSTEM_ROOT@), TermView::Iri(roots[i])),
    )
}

/// State an acquisition's roots: those that were acquired.
pub fn state_roots(writer: &mut ContainerWriter, task_arn: &str, roots: &Vec<String>)
    ensures
        final(writer).view() == old(writer).view().state_all(
            root_triples(task_arn@, text::texts(roots@)),
        ),
{
    let ghost w0 = writer.view();
    let ghost all = root_triples(task_arn@, text::texts(roots@));
    let mut i: usize = 0;
    proof {
        assert(writer.view() =~= w0.state_all(all.take(0)));
    }
    while i < roots.len()
        invariant
            i <= roots.len(),
            all == root_triples(task_arn@, text::texts(roots@)),
            writer.view() == w0.state_all(all.take(i as int)),
        decreases roots.len() - i,
    {
        writer.add(task_arn, iri(terms::FILESYSTEM_ROOT).as_str(), Term::iri(roots[i].as_str()));
        proof {
            assert(all.take(i + 1) =~= all.take(i as int).push(all[i as int]));
            assert(writer.view() =~= w0.state_all(all.take(i + 1)));
        }
        i = i + 1;
    }
    proof {
        assert(all.take(i as int) =~= all);
    }
}

/// The maps of waiting files written, until one cannot be.
pub open spec fn pending_mapped(
    w: WriterView,
    pending: Seq<PendingView>,
    targets: Seq<Seq<char>>,
    chunk_size: u64,
    locus: LocusView,
) -> (WriterView, Option<ErrorView>)
    decreases pending.len(),
{
    if pending.len() == 0 {
        (w, None)
    } else {
        let (before, e) = pending_mapped(w, pending.drop_last(), targets, chunk_size, locus);
        let file = pending.last();
        match e {
            Some(e) => (before, Some(e)),
            None => match slice_outcome(
                before,
                file.arn,
                file.target_ids,
                targets,
                file.size,
                chunk_size,
                locus,
            ) {
                Ok(w) => (w, None),
                Err(e) => (before, Some(e)),
            },
        }
    }
}

/// A map that could not be written stays the end.
proof fn unmapped_stays(
    w: WriterView,
    pending: Seq<PendingView>,
    targets: Seq<Seq<char>>,
    chunk_size: u64,
    locus: LocusView,
    n: int,
)
    requires
        0 <= n <= pending.len(),
        pending_mapped(w, pending.take(n), targets, chunk_size, locus).1 is Some,
    ensures
        pending_mapped(w, pending, targets, chunk_size, locus) == pending_mapped(
            w,
            pending.take(n),
            targets,
            chunk_size,
            locus,
        ),
    decreases pending.len(),
{
    if n == pending.len() {
        assert(pending.take(n) =~= pending);
    } else {
        assert(pending.drop_last().take(n) =~= pending.take(n));
        unmapped_stays(w, pending.drop_last(), targets, chunk_size, locus, n);
    }
}

/// What deduplication did, in the account.
pub open spec fn summary_of(p: PoolView) -> DedupeSummary {
    DedupeSummary {
        unique_chunks: p.unique.len() as usize,
        stored: p.stored,
        presented: p.presented,
    }
}

/// The pool and the maps of the files in it written.
pub open spec fn dedupe_finished(
    s: Standing,
    pool: Option<PoolView>,
    o: OptionsView,
    locus: LocusView,
) -> (Standing, Option<ErrorView>) {
    match pool {
        None => (s, None),
        Some(p) => {
            let noted = AcquiredView { dedupe: Some(summary_of(p)), ..s.result };
            match pool_written(s.writer, p, o.stream, locus) {
                Err(e) => (Standing { result: noted, ..s }, Some(e)),
                Ok(w) => {
                    let (after, e) = pending_mapped(
                        w,
                        noted.deduped,
                        block_names(p.unique),
                        o.stream.chunk_size as u64,
                        locus,
                    );
                    (
                        Standing {
                            writer: after,
                            result: AcquiredView { deduped: Seq::empty(), ..noted },
                        },
                        e,
                    )
                },
            }
        },
    }
}

/// Write the maps of waiting files.
fn map_pending(
    writer: &mut ContainerWriter,
    pending: &Vec<PendingDedupe>,
    targets: &Vec<String>,
    chunk_size: u64,
    locus: &Locus,
) -> (r: Result<(), Error>)
    ensures
        (final(writer).view(), failure(r)) == pending_mapped(
            old(writer).view(),
            pending_views(pending@),
            text::texts(targets@),
            chunk_size,
            locus@,
        ),
{
    let ghost all = pending_views(pending@);
    let ghost w0 = writer.view();
    let mut i: usize = 0;
    proof {
        assert(all.take(0) =~= Seq::<PendingView>::empty());
    }
    while i < pending.len()
        invariant
            i <= pending.len(),
            w0 == old(writer).view(),
            all == pending_views(pending@),
            pending_mapped(w0, all.take(i as int), text::texts(targets@), chunk_size, locus@) == (
                writer.view(),
                None::<ErrorView>,
            ),
        decreases pending.len() - i,
    {
        proof {
            assert(all.take(i + 1).drop_last() =~= all.take(i as int));
            assert(all.take(i + 1).last() == pending@[i as int]@);
        }
        match write_slice_map(
            writer,
            pending[i].arn.as_str(),
            pending[i].target_ids.as_slice(),
            targets,
            pending[i].size,
            chunk_size,
            locus,
        ) {
            Ok(_) => {},
            Err(e) => {
                proof {
                    unmapped_stays(w0, all, text::texts(targets@), chunk_size, locus@, i + 1);
                }
                return Err(e);
            },
        }
        i = i + 1;
    }
    proof {
        assert(all.take(i as int) =~= all);
    }
    Ok(())
}

/// Write the pool and the maps of the files in it.
fn finish_dedupe(
    writer: &mut ContainerWriter,
    result: &mut LogicalAcquisition,
    pool: Option<ChunkPool>,
    options: &LogicalOptions,
    locus: &Locus,
) -> (r: Result<(), Error>)
    requires
        pool matches Some(p) ==> p.wf(),
    ensures
        (
            Standing { writer: final(writer).view(), result: final(result)@ },
            failure(r),
        ) == dedupe_finished(
            Standing { writer: old(writer).view(), result: old(result)@ },
            (match pool {
                Some(p) => Some(p.view()),
                None => None,
            }),
            options@,
            locus@,
        ),
        pool matches Some(p) ==> r is Ok ==> decodes_back(
            options.stream,
            bytes::flattened(p.view().unique),
        ),
{
    let pool = match pool {
        Some(pool) => pool,
        None => return Ok(()),
    };
    let ghost p = pool.view();
    let summary = DedupeSummary {
        unique_chunks: pool.unique_chunks(),
        stored: pool.stored_bytes(),
        presented: pool.presented_bytes(),
    };
    result.dedupe = Some(summary);
    let targets = match pool.finish(writer, options.stream, locus) {
        Ok(targets) => targets,
        Err(e) => return Err(e),
    };
    let ghost w1 = writer.view();
    let ghost noted = result@;
    let mut pending: Vec<PendingDedupe> = Vec::new();
    std::mem::swap(&mut pending, &mut result.deduped);
    proof {
        assert(result@ =~= (AcquiredView { deduped: Seq::empty(), ..noted }));
    }
    map_pending(writer, &pending, &targets, options.stream.chunk_size as u64, locus)
}

/// An acquisition finished: its task's place stated, the pool and its maps written,
/// the shared stream closed. The shared stream gets no digest of its own: every
/// byte of it is covered by its file's.
pub open spec fn acquisition_finished(
    store: StoreView,
    task: Seq<char>,
    o: OptionsView,
    locus: LocusView,
) -> (WriterView, Result<AcquiredView, ErrorView>) {
    let w = store.standing.writer;
    let placed = Standing { writer: w.state(stored_triple(task, w.volume)), ..store.standing };
    let (deduped, e) = dedupe_finished(placed, store.pool, o, locus);
    match e {
        Some(e) => (deduped.writer, Err(e)),
        None => (
            match store.shared {
                None => deduped.writer,
                Some(b) => b.closed_in(
                    deduped.writer,
                    Seq::<DigestView>::empty(),
                ),
            },
            Ok(deduped.result),
        ),
    }
}

/// An account, or why there is none, as plain values.
pub open spec fn account(r: Result<LogicalAcquisition, Error>) -> Result<AcquiredView, ErrorView> {
    match r {
        Ok(a) => Ok(a@),
        Err(e) => Err(e@),
    }
}

/// Finish an acquisition.
pub fn finish_acquisition(
    writer: &mut ContainerWriter,
    task_arn: &str,
    storage: SharedStorage,
    result: LogicalAcquisition,
    options: &LogicalOptions,
    locus: &Locus,
) -> (r: Result<LogicalAcquisition, Error>)
    requires
        storage.wf(),
    ensures
        (final(writer).view(), account(r)) == acquisition_finished(
            store_view(old(writer).view(), result@, storage),
            task_arn@,
            options@,
            locus@,
        ),
        r is Ok ==> {
            &&& storage.pool matches Some(p) ==> decodes_back(
                options.stream,
                bytes::flattened(p.view().unique),
            )
            &&& storage.shared matches Some(b) ==> decodes_back(
                b.view().options,
                b.view().content,
            )
        },
{
    let volume = text::owned(writer.volume_arn().as_str());
    add_stored(writer, task_arn, volume.as_str());
    let SharedStorage { pool, shared } = storage;
    let mut account = result;
    match finish_dedupe(writer, &mut account, pool, options, locus) {
        Ok(_) => {},
        Err(e) => return Err(e),
    }
    match shared {
        Some(builder) => {
            let none: Vec<Digest> = Vec::new();
            proof {
                assert(digest_views(none@) =~= Seq::<
                    DigestView,
                >::empty());
            }
            let _ = builder.finish(&none, writer, locus);
        },
        None => {},
    }
    Ok(account)
}

/// One root acquired, and its name stated where it was.
pub open spec fn root_acquired(
    store: StoreView,
    items: Seq<(ItemView, FactsView)>,
    names: Seq<MintedView>,
    o: OptionsView,
    task: Seq<char>,
) -> (StoreView, Option<ErrorView>) {
    let (end, e) = stream_acquired(store, items, names, o);
    match e {
        Some(e) => (end.store, Some(e)),
        None => (
            StoreView {
                standing: Standing {
                    writer: end.store.standing.writer.state_all(root_triples(task, end.roots)),
                    ..end.store.standing
                },
                ..end.store
            },
            None,
        ),
    }
}

/// Roots acquired, one after the other, until one cannot be.
pub open spec fn roots_acquired(
    store: StoreView,
    roots: Seq<Seq<(ItemView, FactsView)>>,
    names: Seq<Seq<MintedView>>,
    o: OptionsView,
    task: Seq<char>,
) -> (StoreView, Option<ErrorView>)
    decreases roots.len(),
{
    if roots.len() == 0 {
        (store, None)
    } else {
        let (before, e) = roots_acquired(store, roots.drop_last(), names, o, task);
        match e {
            Some(e) => (before, Some(e)),
            None => root_acquired(before, roots.last(), names[roots.len() - 1], o, task),
        }
    }
}

/// What an observer is told while roots are acquired, one after the other, until one
/// cannot be.
pub open spec fn roots_told(
    store: StoreView,
    roots: Seq<Seq<(ItemView, FactsView)>>,
    names: Seq<Seq<MintedView>>,
    o: OptionsView,
    task: Seq<char>,
) -> Seq<AcquiredView>
    decreases roots.len(),
{
    if roots.len() == 0 {
        Seq::empty()
    } else {
        let earlier = roots_told(store, roots.drop_last(), names, o, task);
        match roots_acquired(store, roots.drop_last(), names, o, task) {
            (_, Some(_)) => earlier,
            (before, None) => earlier + items_told(
                stream_begun(before),
                roots.last(),
                names[roots.len() - 1],
                o,
            ),
        }
    }
}

/// Whether what is stored of roots acquired, one after the other, decodes to them, as
/// far as their files are in streams of their own.
pub open spec fn roots_decode(
    store: StoreView,
    roots: Seq<Seq<(ItemView, FactsView)>>,
    names: Seq<Seq<MintedView>>,
    o: OptionsView,
    task: Seq<char>,
) -> bool
    decreases roots.len(),
{
    roots.len() == 0 || (roots_decode(store, roots.drop_last(), names, o, task)
        && match roots_acquired(store, roots.drop_last(), names, o, task) {
        (_, Some(_)) => true,
        (before, None) => items_decode(
            stream_begun(before),
            roots.last(),
            names[roots.len() - 1],
            o,
        ),
    })
}

/// Where an acquisition stands once its subject is opened.
pub open spec fn store_opened(w: WriterView, o: OptionsView, separator: Seq<char>) -> StoreView {
    StoreView {
        standing: Standing {
            writer: task_opened(w, w.volume + "/acquisition"@, o, separator),
            result: nothing_acquired(),
        },
        pool: if o.deduplicate {
            Some(
                PoolView {
                    chunk_size: o.stream.chunk_size as nat,
                    unique: Seq::empty(),
                    stored: 0,
                    presented: 0,
                },
            )
        } else {
            None
        },
        shared: None,
    }
}

/// What an observer is told while a whole acquisition goes on: how it stands after each
/// file.
pub open spec fn logical_told(
    w: WriterView,
    roots: Seq<Seq<(ItemView, FactsView)>>,
    names: Seq<Seq<MintedView>>,
    o: OptionsView,
    separator: Seq<char>,
) -> Seq<AcquiredView> {
    roots_told(store_opened(w, o, separator), roots, names, o, w.volume + "/acquisition"@)
}

/// A whole acquisition: its subject opened, its roots acquired, its storage closed.
pub open spec fn logical_acquired(
    w: WriterView,
    roots: Seq<Seq<(ItemView, FactsView)>>,
    names: Seq<Seq<MintedView>>,
    o: OptionsView,
    separator: Seq<char>,
    locus: LocusView,
) -> (WriterView, Result<AcquiredView, ErrorView>) {
    let task = w.volume + "/acquisition"@;
    let store = store_opened(w, o, separator);
    let (end, e) = roots_acquired(store, roots, names, o, task);
    match e {
        Some(e) => (end.standing.writer, Err(e)),
        None => acquisition_finished(end, task, o, locus),
    }
}

/// Whether what a whole acquisition stores in streams decodes back: the files in streams
/// of their own and, where it comes to its end, the chunks of the pool and the stream
/// that files share.
pub open spec fn logical_decodes(
    w: WriterView,
    roots: Seq<Seq<(ItemView, FactsView)>>,
    names: Seq<Seq<MintedView>>,
    o: OptionsView,
    separator: Seq<char>,
    locus: LocusView,
) -> bool {
    let task = w.volume + "/acquisition"@;
    let store = store_opened(w, o, separator);
    &&& roots_decode(store, roots, names, o, task)
    &&& logical_acquired(w, roots, names, o, separator, locus).1 is Ok ==> {
        let end = roots_acquired(store, roots, names, o, task).0;
        &&& end.pool matches Some(p) ==> decodes_back(o.stream, bytes::flattened(p.unique))
        &&& end.shared matches Some(b) ==> decodes_back(b.options, b.content)
    }
}

/// Lists of entries, as plain values.
pub open spec fn root_views(lists: Seq<Vec<Entry>>) -> Seq<Seq<(ItemView, FactsView)>> {
    Seq::new(lists.len(), |i: int| entries_view(lists[i]@))
}

/// Whether every name was minted, and there is one for every entry.
pub open spec fn names_fit(
    names: Seq<Seq<MintedView>>,
    roots: Seq<Seq<(ItemView, FactsView)>>,
    path: Seq<char>,
) -> bool {
    &&& names.len() == roots.len()
    &&& forall|i: int|
        0 <= i < names.len() ==> each_minted(#[trigger] names[i], path) && names[i].len()
            == roots[i].len()
}

/// Only the names of the roots matter.
proof fn root_names_in_reach(
    store: StoreView,
    roots: Seq<Seq<(ItemView, FactsView)>>,
    a: Seq<Seq<MintedView>>,
    b: Seq<Seq<MintedView>>,
    o: OptionsView,
    task: Seq<char>,
)
    requires
        roots.len() <= a.len(),
        roots.len() <= b.len(),
        forall|i: int| 0 <= i < roots.len() ==> a[i] == b[i],
    ensures
        roots_acquired(store, roots, a, o, task) == roots_acquired(store, roots, b, o, task),
        roots_told(store, roots, a, o, task) == roots_told(store, roots, b, o, task),
        roots_decode(store, roots, a, o, task) == roots_decode(store, roots, b, o, task),
    decreases roots.len(),
{
    if roots.len() > 0 {
        root_names_in_reach(store, roots.drop_last(), a, b, o, task);
    }
}

/// A fault that ended an acquisition stays its end.
proof fn root_fault_stays(
    store: StoreView,
    roots: Seq<Seq<(ItemView, FactsView)>>,
    names: Seq<Seq<MintedView>>,
    o: OptionsView,
    task: Seq<char>,
    n: int,
)
    requires
        0 <= n <= roots.len(),
        roots_acquired(store, roots.take(n), names, o, task).1 is Some,
    ensures
        roots_acquired(store, roots, names, o, task) == roots_acquired(
            store,
            roots.take(n),
            names,
            o,
            task,
        ),
        roots_told(store, roots, names, o, task) == roots_told(
            store,
            roots.take(n),
            names,
            o,
            task,
        ),
        roots_decode(store, roots, names, o, task) == roots_decode(
            store,
            roots.take(n),
            names,
            o,
            task,
        ),
    decreases roots.len(),
{
    if n == roots.len() {
        assert(roots.take(n) =~= roots);
    } else {
        assert(roots.drop_last().take(n) =~= roots.take(n));
        root_fault_stays(store, roots.drop_last(), names, o, task, n);
    }
}

/// There are names that may be minted for some roots, beginning with given ones.
proof fn names_completed(
    names: Seq<Seq<MintedView>>,
    roots: Seq<Seq<(ItemView, FactsView)>>,
    path: Seq<char>,
) -> (r: Seq<Seq<MintedView>>)
    requires
        names.len() <= roots.len(),
        names_fit(names, roots.take(names.len() as int), path),
    ensures
        names_fit(r, roots, path),
        forall|i: int| 0 <= i < names.len() ==> r[i] == names[i],
{
    let filler = some_names(path);
    let r = Seq::new(
        roots.len(),
        |i: int|
            if i < names.len() {
                names[i]
            } else {
                Seq::new(roots[i].len(), |k: int| filler)
            },
    );
    assert forall|i: int| 0 <= i < r.len() implies each_minted(#[trigger] r[i], path) && r[i].len()
        == roots[i].len() by {
        if i < names.len() {
            assert(each_minted(names[i], path));
            assert(roots.take(names.len() as int)[i] == roots[i]);
        }
    }
    r
}

/// Lists in the reverse order.
fn reversed_lists(lists: Vec<Vec<Entry>>) -> (r: Vec<Vec<Entry>>)
    ensures
        r@.len() == lists@.len(),
        forall|i: int| 0 <= i < r@.len() ==> (#[trigger] r@[i]) == lists@[lists@.len() - 1 - i],
{
    let ghost all = lists@;
    let mut left = lists;
    let mut out: Vec<Vec<Entry>> = Vec::new();
    while left.len() > 0
        invariant
            left@.len() + out@.len() == all.len(),
            left@ == all.take(left@.len() as int),
            forall|i: int| 0 <= i < out@.len() ==> (#[trigger] out@[i]) == all[all.len() - 1 - i],
        decreases left.len(),
    {
        let ghost n = left@.len() as int;
        match left.pop() {
            Some(list) => {
                out.push(list);
                proof {
                    assert(all.take(n)[n - 1] == all[n - 1]);
                    assert(left@ =~= all.take(n - 1));
                }
            },
            None => {},
        }
    }
    out
}

/// Acquire one root, and state its name where it was acquired.
fn acquire_root<Q: AcquisitionObserver>(
    writer: &mut ContainerWriter,
    items: Vec<Entry>,
    options: &LogicalOptions,
    storage: &mut SharedStorage,
    result: &mut LogicalAcquisition,
    task_arn: &str,
    output: &str,
    progress: &mut Q,
) -> (r: Result<(), Error>)
    requires
        old(storage).wf(),
    ensures
        final(storage).wf(),
        exists|names: Seq<MintedView>| #[trigger]
            each_minted(names, output@) && names.len() == items@.len() && (
                store_view(final(writer).view(), final(result)@, *final(storage)),
                failure(r),
            ) == root_acquired(
                store_view(old(writer).view(), old(result)@, *old(storage)),
                entries_view(items@),
                names,
                options@,
                task_arn@,
            ) && final(progress).log() == old(progress).log() + items_told(
                stream_begun(store_view(old(writer).view(), old(result)@, *old(storage))),
                entries_view(items@),
                names,
                options@,
            ) && items_decode(
                stream_begun(store_view(old(writer).view(), old(result)@, *old(storage))),
                entries_view(items@),
                names,
                options@,
            ),
{
    match acquire_from_items(writer, items, options, storage, result, output, progress) {
        Ok(roots) => {
            state_roots(writer, task_arn, &roots);
            Ok(())
        },
        Err(e) => Err(e),
    }
}

/// Acquire roots, each as the items of its walk, into a writer, telling an observer how
/// the acquisition stands after each file.
///
/// A path that cannot be read is passed over, not fatal: what was acquired before
/// it is kept. `separator` is that of the recorded paths.
pub fn acquire_logical<Q: AcquisitionObserver>(
    writer: &mut ContainerWriter,
    roots: Vec<Vec<Entry>>,
    options: &LogicalOptions,
    separator: &str,
    locus: &Locus,
    progress: &mut Q,
) -> (r: Result<LogicalAcquisition, Error>)
    ensures
        exists|names: Seq<Seq<MintedView>>| #[trigger]
            names_fit(names, root_views(roots@), old(writer).view().path) && (
                final(writer).view(),
                account(r),
            ) == logical_acquired(
                old(writer).view(),
                root_views(roots@),
                names,
                options@,
                separator@,
                locus@,
            ) && final(progress).log() == old(progress).log() + logical_told(
                old(writer).view(),
                root_views(roots@),
                names,
                options@,
                separator@,
            ) && logical_decodes(
                old(writer).view(),
                root_views(roots@),
                names,
                options@,
                separator@,
                locus@,
            ),
{
    let ghost w0 = writer.view();
    let ghost all = root_views(roots@);
    let ghost count = roots@.len();
    let output = text::owned(writer.path());
    let task_arn = text::cat2(writer.volume_arn().as_str(), "/acquisition");
    let mut result = LogicalAcquisition::default();
    let mut storage = SharedStorage::for_options(options);
    open_acquisition_task(writer, task_arn.as_str(), options, separator);
    let ghost s0 = store_view(writer.view(), result@, storage);
    let ghost mut names = Seq::<Seq<MintedView>>::empty();
    let mut rest = reversed_lists(roots);
    proof {
        assert(all.take(0) =~= Seq::<Seq<(ItemView, FactsView)>>::empty());
        assert(progress.log() + roots_told(s0, all.take(0), names, options@, task_arn@)
            =~= progress.log());
        assert(s0 =~= store_opened(w0, options@, separator@));
    }
    while rest.len() > 0
        invariant
            count == roots@.len(),
            all == root_views(roots@),
            output@ == w0.path,
            w0 == old(writer).view(),
            task_arn@ == w0.volume + "/acquisition"@,
            s0 == store_opened(w0, options@, separator@),
            rest@.len() <= count,
            forall|i: int| 0 <= i < rest@.len() ==> (#[trigger] rest@[i]) == roots@[count - 1 - i],
            storage.wf(),
            names.len() == count - rest@.len(),
            names_fit(names, all.take(names.len() as int), output@),
            roots_acquired(s0, all.take(names.len() as int), names, options@, task_arn@) == (
                store_view(writer.view(), result@, storage),
                None::<ErrorView>,
            ),
            progress.log() == old(progress).log() + roots_told(
                s0,
                all.take(names.len() as int),
                names,
                options@,
                task_arn@,
            ),
            roots_decode(s0, all.take(names.len() as int), names, options@, task_arn@),
        decreases rest.len(),
    {
        let ghost k = names.len() as int;
        let ghost before = store_view(writer.view(), result@, storage);
        let items = match rest.pop() {
            Some(items) => items,
            None => Vec::new(),
        };
        let ghost listed = entries_view(items@);
        proof {
            assert(all.take(k + 1).drop_last() =~= all.take(k));
            assert(all[k] == listed);
            assert(all.take(k + 1).last() == listed);
        }
        let ghost earlier = roots_told(s0, all.take(k), names, options@, task_arn@);
        let ghost log1 = progress.log();
        let done = acquire_root(
            writer,
            items,
            options,
            &mut storage,
            &mut result,
            task_arn.as_str(),
            output.as_str(),
            progress,
        );
        proof {
            let given = choose|given: Seq<MintedView>| #[trigger]
                each_minted(given, output@) && given.len() == listed.len() && (
                    store_view(writer.view(), result@, storage),
                    failure(done),
                ) == root_acquired(before, listed, given, options@, task_arn@) && progress.log()
                    == log1 + items_told(stream_begun(before), listed, given, options@)
                    && items_decode(stream_begun(before), listed, given, options@);
            let longer = names.push(given);
            root_names_in_reach(s0, all.take(k), names, longer, options@, task_arn@);
            assert forall|i: int| 0 <= i < longer.len() implies each_minted(
                #[trigger] longer[i],
                output@,
            ) && longer[i].len() == all.take(k + 1)[i].len() by {
                if i < k {
                    assert(each_minted(names[i], output@));
                    assert(all.take(k)[i] == all.take(k + 1)[i]);
                }
            }
            names = longer;
            let told = items_told(stream_begun(before), listed, given, options@);
            assert((old(progress).log() + earlier) + told =~= old(progress).log() + (earlier
                + told));
        }
        match done {
            Ok(_) => {},
            Err(e) => {
                proof {
                    let whole = names_completed(names, all, output@);
                    root_names_in_reach(s0, all.take(k + 1), names, whole, options@, task_arn@);
                    root_fault_stays(s0, all, whole, options@, task_arn@, k + 1);
                    assert(names_fit(whole, root_views(roots@), w0.path));
                }
                return Err(e);
            },
        }
    }
    proof {
        assert(all.take(count as int) =~= all);
        assert(names_fit(names, root_views(roots@), w0.path));
    }
    finish_acquisition(writer, task_arn.as_str(), storage, result, options, locus)
}

/// Acquire an item stream that was collected to its end, all roots in one.
pub fn acquire_logical_prescanned<Q: AcquisitionObserver>(
    writer: &mut ContainerWriter,
    items: Vec<Entry>,
    options: &LogicalOptions,
    separator: &str,
    locus: &Locus,
    progress: &mut Q,
) -> (r: Result<LogicalAcquisition, Error>)
    ensures
        exists|names: Seq<Seq<MintedView>>| #[trigger]
            names_fit(names, seq![entries_view(items@)], old(writer).view().path) && (
                final(writer).view(),
                account(r),
            ) == logical_acquired(
                old(writer).view(),
                seq![entries_view(items@)],
                names,
                options@,
                separator@,
                locus@,
            ) && final(progress).log() == old(progress).log() + logical_told(
                old(writer).view(),
                seq![entries_view(items@)],
                names,
                options@,
                separator@,
            ) && logical_decodes(
                old(writer).view(),
                seq![entries_view(items@)],
                names,
                options@,
                separator@,
                locus@,
            ),
{
    let ghost listed = entries_view(items@);
    let mut roots: Vec<Vec<Entry>> = Vec::new();
    roots.push(items);
    proof {
        assert(root_views(roots@) =~= seq![listed]);
    }
    acquire_logical(writer, roots, options, separator, locus, progress)
}

} // verus!
