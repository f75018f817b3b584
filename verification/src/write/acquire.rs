//! What an acquisition reads: a raw image, or a raw image cut into numbered pieces.
//!
//! Nothing inside a set of pieces says how many there should be, so a set with a gap
//! in its numbering is refused instead of read as far as it goes.

use vstd::prelude::*;

use crate::error::{io_failure, malformed, Error, ErrorView, Locus, LocusView};
use crate::split_set::{
    find_last, is_numeric, last_place, numeric, part_views, PartFile, PartView,
};
use crate::text;
use crate::write::guard::SourceRegistry;

verus! {

/// What the operating system said of a path that is to be acquired.
#[derive(Debug)]
pub struct SourceFile {
    /// The path as given.
    pub path: String,
    /// Whether it is a regular file, and how long it is.
    pub look: Result<(bool, u64), String>,
    /// The path in canonical form.
    pub canonical: Result<String, String>,
}

/// What was said of a path, as contracts speak of it.
#[verifier::ext_equal]
pub struct FileView {
    /// The path as given.
    pub path: Seq<char>,
    /// Whether it is a regular file, and how long it is.
    pub look: Result<(bool, u64), Seq<char>>,
    /// The path in canonical form.
    pub canonical: Result<Seq<char>, Seq<char>>,
}

impl View for SourceFile {
    type V = FileView;

    open spec fn view(&self) -> FileView {
        FileView {
            path: self.path@,
            look: match self.look {
                Ok(l) => Ok(l),
                Err(e) => Err(e@),
            },
            canonical: match self.canonical {
                Ok(c) => Ok(c@),
                Err(e) => Err(e@),
            },
        }
    }
}

/// The views of files.
pub open spec fn file_views(list: Seq<SourceFile>) -> Seq<FileView> {
    list.map_values(|f: SourceFile| f@)
}

/// How many bytes files have together, those that could be measured.
pub open spec fn bytes_in(files: Seq<FileView>) -> nat
    decreases files.len(),
{
    if files.len() == 0 {
        0
    } else {
        bytes_in(files.drop_last()) + (match files.last().look {
            Ok(l) => l.1 as nat,
            Err(_) => 0,
        })
    }
}

/// What is wrong with a path as a source.
pub open spec fn source_fault(file: FileView) -> Option<ErrorView> {
    match file.look {
        Err(e) => Some(io_failure(LocusView::file(file.path), e)),
        Ok(l) => if !l.0 {
            Some(malformed(LocusView::file(file.path), "source is not a regular file"@))
        } else {
            match file.canonical {
                Err(e) => Some(io_failure(LocusView::file(file.path), e)),
                Ok(_) => None,
            }
        },
    }
}

/// The first fault among files.
pub open spec fn first_fault(files: Seq<FileView>) -> Option<ErrorView>
    decreases files.len(),
{
    if files.len() == 0 {
        None
    } else {
        match first_fault(files.drop_last()) {
            Some(e) => Some(e),
            None => source_fault(files.last()),
        }
    }
}

/// The sources known once files have been registered in turn, up to the first fault.
pub open spec fn registered(sources: Set<Seq<char>>, files: Seq<FileView>) -> Set<Seq<char>>
    decreases files.len(),
{
    if files.len() == 0 {
        sources
    } else {
        let before = registered(sources, files.drop_last());
        if first_fault(files) is Some {
            before
        } else {
            before.insert(files.last().canonical->Ok_0)
        }
    }
}

/// The paths of files.
pub open spec fn paths_of(files: Seq<FileView>) -> Seq<Seq<char>> {
    files.map_values(|f: FileView| f.path)
}

/// The fault of opening files as one source.
pub open spec fn open_fault(files: Seq<FileView>) -> Option<ErrorView> {
    if files.len() == 0 {
        Some(malformed(LocusView::file("<no input>"@), "no source path was given"@))
    } else {
        first_fault(files)
    }
}

/// A fault among the first files is the fault of the whole, and nothing more is
/// registered after it.
proof fn fault_stays(sources: Set<Seq<char>>, files: Seq<FileView>, n: int)
    requires
        0 <= n <= files.len(),
        first_fault(files.take(n)) is Some,
    ensures
        first_fault(files) == first_fault(files.take(n)),
        registered(sources, files) == registered(sources, files.take(n)),
    decreases files.len() - n,
{
    if n == files.len() {
        assert(files.take(n) =~= files);
    } else {
        assert(files.take(n + 1).drop_last() =~= files.take(n));
        fault_stays(sources, files, n + 1);
    }
}

/// The first files have no more bytes than all of them.
proof fn fewer_bytes(files: Seq<FileView>, n: int)
    requires
        0 <= n <= files.len(),
    ensures
        bytes_in(files.take(n)) <= bytes_in(files),
    decreases files.len() - n,
{
    if n == files.len() {
        assert(files.take(n) =~= files);
    } else {
        assert(files.take(n + 1).drop_last() =~= files.take(n));
        fewer_bytes(files, n + 1);
    }
}

/// Every file of a source that was opened is registered, so that none of them can
/// be written afterwards.
pub proof fn opened_sources_are_guarded(sources: Set<Seq<char>>, files: Seq<FileView>, i: int)
    requires
        open_fault(files) is None,
        0 <= i < files.len(),
    ensures
        files[i].canonical is Ok,
        registered(sources, files).contains(files[i].canonical->Ok_0),
    decreases files.len(),
{
    if i < files.len() - 1 {
        opened_sources_are_guarded(sources, files.drop_last(), i);
    }
}

/// Registering never forgets a source.
pub proof fn sources_stay(sources: Set<Seq<char>>, files: Seq<FileView>)
    ensures
        sources.subset_of(registered(sources, files)),
    decreases files.len(),
{
    if files.len() > 0 {
        sources_stay(sources, files.drop_last());
    }
}

/// A source of bytes to acquire.
#[derive(Debug)]
pub struct ImageSource {
    segments: Vec<String>,
    total_size: u64,
}

impl ImageSource {
    /// The files of the source, in reading order.
    pub closed spec fn files(&self) -> Seq<Seq<char>> {
        text::texts(self.segments@)
    }

    /// How many bytes they have together.
    pub closed spec fn length(&self) -> u64 {
        self.total_size
    }

    /// Open files as one source, in the order given, and register each so that no
    /// write can target it. Without a file, with one that cannot be looked at or
    /// with one that is no regular file, the source is refused.
    pub fn open(files: &[SourceFile], registry: &mut SourceRegistry) -> (r: Result<Self, Error>)
        requires
            bytes_in(file_views(files@)) <= u64::MAX,
        ensures
            final(registry)@ == registered(old(registry)@, file_views(files@)),
            (match r {
                Ok(source) => open_fault(file_views(files@)) is None && source.files() == paths_of(
                    file_views(files@),
                ) && source.length() == bytes_in(file_views(files@)),
                Err(e) => open_fault(file_views(files@)) == Some(e@),
            }),
    {
        let ghost all = file_views(files@);
        let ghost before = registry@;
        if files.len() == 0 {
            return Err(
                Error::malformed(
                    Locus::new("<no input>"),
                    text::owned("no source path was given"),
                ),
            );
        }
        let mut segments: Vec<String> = Vec::new();
        let mut total_size: u64 = 0;
        let mut i: usize = 0;
        proof {
            assert(text::texts(segments@) =~= paths_of(all.take(0)));
        }
        while i < files.len()
            invariant
                i <= files@.len(),
                all == file_views(files@),
                bytes_in(all) <= u64::MAX,
                first_fault(all.take(i as int)) is None,
                registry@ == registered(before, all.take(i as int)),
                text::texts(segments@) == paths_of(all.take(i as int)),
                total_size == bytes_in(all.take(i as int)),
                files@.len() > 0,
                before == old(registry)@,
            decreases files@.len() - i,
        {
            let file = &files[i];
            proof {
                assert(all.take(i + 1).drop_last() =~= all.take(i as int));
                assert(all.take(i + 1).last() == file@);
                if first_fault(all.take(i + 1)) is Some {
                    fault_stays(before, all, i + 1);
                }
                fewer_bytes(all, i + 1);
            }
            let length: u64 = match &file.look {
                Err(e) => {
                    return Err(Error::io(Locus::new(file.path.as_str()), text::owned(e.as_str())));
                },
                Ok(l) => {
                    if !l.0 {
                        return Err(
                            Error::malformed(
                                Locus::new(file.path.as_str()),
                                text::owned("source is not a regular file"),
                            ),
                        );
                    }
                    l.1
                },
            };
            match &file.canonical {
                Err(e) => {
                    return Err(Error::io(Locus::new(file.path.as_str()), text::owned(e.as_str())));
                },
                Ok(c) => {
                    registry.register(c.as_str());
                },
            }
            let ghost earlier = text::texts(segments@);
            segments.push(text::owned(file.path.as_str()));
            total_size = total_size + length;
            proof {
                assert(text::texts(segments@) =~= earlier.push(file@.path));
                assert(paths_of(all.take(i + 1)) =~= paths_of(all.take(i as int)).push(file@.path));
            }
            i = i + 1;
        }
        proof {
            assert(all.take(i as int) =~= all);
        }
        Ok(ImageSource { segments, total_size })
    }

    /// Every file of the source, in reading order.
    pub fn segments(&self) -> (r: &Vec<String>)
        ensures
            text::texts(r@) == self.files(),
    {
        &self.segments
    }

    /// How many bytes the source has.
    pub fn total_size(&self) -> (r: u64)
        ensures
            r == self.length(),
    {
        self.total_size
    }

    /// The reading of the source as one stream.
    pub fn reader(&self) -> (r: ConcatReader)
        ensures
            r@ == (ConcatView { segments: self.files(), index: 0, open: false }),
    {
        let mut segments: Vec<String> = Vec::new();
        let mut i: usize = 0;
        while i < self.segments.len()
            invariant
                i <= self.segments@.len(),
                text::texts(segments@) == text::texts(self.segments@).take(i as int),
            decreases self.segments@.len() - i,
        {
            let ghost earlier = text::texts(segments@);
            segments.push(text::owned(self.segments[i].as_str()));
            proof {
                assert(text::texts(segments@) =~= earlier.push(self.segments@[i as int]@));
                assert(earlier.push(self.segments@[i as int]@) =~= text::texts(
                    self.segments@,
                ).take(i + 1));
            }
            i = i + 1;
        }
        proof {
            assert(text::texts(segments@) =~= text::texts(self.segments@));
        }
        ConcatReader { segments, index: 0, open: false }
    }

    /// The pieces of a raw image, in order, given the path of the first, its name where
    /// that is text, and the regular files beside it. The name has to end in a number.
    ///
    /// The pieces are those that follow the first without a number missing. A piece
    /// behind a missing one is a gap, and the set is refused: to acquire the beginning
    /// of the evidence alone would omit data in silence.
    pub fn discover_split(first: &str, name: Option<&str>, files: &Vec<PartFile>) -> (r: Result<
        Vec<String>,
        Error,
    >)
        ensures
            (match r {
                Ok(found) => split_found(first@, optional(name), part_views(files@)) == Ok::<
                    Seq<Seq<char>>,
                    ErrorView,
                >(text::texts(found@)),
                Err(e) => split_found(first@, optional(name), part_views(files@)) == Err::<
                    Seq<Seq<char>>,
                    ErrorView,
                >(e@),
            }),
    {
        let search = match SplitNames::of(first, name) {
            Ok(s) => s,
            Err(e) => return Err(e),
        };
        let ghost s = search@;
        let ghost all = part_views(files@);
        let mut found: Vec<String> = Vec::new();
        let mut n: u64 = search.start as u64;
        proof {
            assert(text::texts(found@) + run_from(all, s, n as nat) =~= run_from(all, s, s.start));
        }
        while n <= 0xffff_ffff
            invariant
                s == search@,
                all == part_views(files@),
                s.start <= n <= u32::MAX + 1,
                n == s.start + found@.len(),
                text::texts(found@) + run_from(all, s, n as nat) == run_from(all, s, s.start),
            ensures
                text::texts(found@) == run_from(all, s, s.start),
                n == s.start + found@.len(),
                n <= u32::MAX + 1,
            decreases u32::MAX + 1 - n,
        {
            let piece = search.piece(n);
            let ghost before = text::texts(found@);
            match find_named(files, piece.as_str()) {
                None => {
                    proof {
                        assert(before + Seq::<Seq<char>>::empty() =~= before);
                    }
                    break;
                },
                Some(i) => {
                    found.push(text::owned(files[i].path.as_str()));
                    proof {
                        let at = files@[i as int].path@;
                        let rest = run_from(all, s, (n + 1) as nat);
                        assert(text::texts(found@) =~= before.push(at));
                        assert(before + (seq![at] + rest) =~= before.push(at) + rest);
                    }
                },
            }
            n = n + 1;
            proof {
                if n > u32::MAX {
                    assert(text::texts(found@) + Seq::<Seq<char>>::empty() =~= text::texts(
                        found@,
                    ));
                }
            }
        }
        match search.find_later(files, n) {
            None => Ok(found),
            Some(i) => {
                let missing = search.piece(n);
                Err(
                    Error::malformed(
                        Locus::new(files[i].path.as_str()),
                        text::cat3(
                            "split set has a gap: ",
                            missing.as_str(),
                            " is missing but a later segment exists; the acquisition would silently omit data",
                        ),
                    ),
                )
            },
        }
    }
}

/// The text of an optional name.
pub open spec fn optional(name: Option<&str>) -> Option<Seq<char>> {
    match name {
        Some(n) => Some(n@),
        None => None,
    }
}

/// How the pieces of a raw image are named, as contracts speak of it.
#[verifier::ext_equal]
pub struct NamesView {
    /// The name that the pieces share.
    pub stem: Seq<char>,
    /// How wide their numbers are.
    pub width: nat,
    /// The number of the first piece.
    pub start: nat,
}

/// The name of a piece.
pub open spec fn piece_name(stem: Seq<char>, n: nat, width: nat) -> Seq<char> {
    stem + "."@ + text::zero_padded(text::decimal(n), width)
}

impl NamesView {
    /// The name of a piece.
    pub open spec fn piece(self, n: nat) -> Seq<char> {
        piece_name(self.stem, n, self.width)
    }

    /// The number of the piece that a name is of.
    pub open spec fn number(self, name: Seq<char>) -> Option<u32> {
        let suffix = name.skip(self.stem.len() as int + 1);
        if name.len() <= self.stem.len() {
            None
        } else {
            match text::number_of(suffix, u32::MAX as nat) {
                Some(m) => if self.piece(m) == name {
                    Some(m as u32)
                } else {
                    None
                },
                None => None,
            }
        }
    }

    /// What is said of a set that misses a piece, a later piece being at a path.
    pub open spec fn gap(self, missing: nat, at: Seq<char>) -> ErrorView {
        malformed(
            LocusView::file(at),
            "split set has a gap: "@ + self.piece(missing)
                + " is missing but a later segment exists; the acquisition would silently omit data"@,
        )
    }
}

/// How the pieces are named whose first is given, or why it is no first piece.
pub open spec fn names_from(first: Seq<char>, name: Option<Seq<char>>) -> Result<
    NamesView,
    ErrorView,
> {
    let place = LocusView::file(first);
    match name {
        None => Err(malformed(place, "unreadable file name"@)),
        Some(n) => match last_place(n, '.') {
            None => Err(
                malformed(
                    place,
                    "a split set's first segment must end in a numeric suffix, e.g. .001"@,
                ),
            ),
            Some(dot) => {
                let suffix = n.skip(dot + 1);
                if !numeric(suffix) {
                    Err(
                        malformed(
                            place,
                            "suffix "@ + text::debug_text(suffix)
                                + " is not numeric; not a split set"@,
                        ),
                    )
                } else {
                    match text::number_of(suffix, u32::MAX as nat) {
                        Some(start) => Ok(
                            NamesView { stem: n.take(dot), width: suffix.len(), start },
                        ),
                        None => Err(
                            malformed(
                                place,
                                "suffix "@ + text::debug_text(suffix) + " is not a number"@,
                            ),
                        ),
                    }
                }
            },
        },
    }
}

/// Where the first file of a name is among some files.
pub open spec fn named_at(files: Seq<PartView>, name: Seq<char>) -> Option<int>
    decreases files.len(),
{
    if files.len() == 0 {
        None
    } else {
        match named_at(files.drop_last(), name) {
            Some(i) => Some(i),
            None => if files.last().name == Some(name) {
                Some(files.len() - 1)
            } else {
                None
            },
        }
    }
}

/// The paths of the pieces from a number on, up to the first that is missing.
pub open spec fn run_from(files: Seq<PartView>, s: NamesView, n: nat) -> Seq<Seq<char>>
    decreases u32::MAX + 1 - n,
{
    if n > u32::MAX {
        Seq::empty()
    } else {
        match named_at(files, s.piece(n)) {
            None => Seq::empty(),
            Some(i) => seq![files[i].path] + run_from(files, s, n + 1),
        }
    }
}

/// Whether a file is a piece behind a number.
pub open spec fn is_later(file: PartView, s: NamesView, n: nat) -> bool {
    file.name matches Some(name) && s.number(name) matches Some(m) && m > n
}

/// The number of a piece, zero where a file is none.
pub open spec fn number_or_zero(file: PartView, s: NamesView) -> u32 {
    match file.name {
        Some(name) => match s.number(name) {
            Some(m) => m,
            None => 0,
        },
        None => 0,
    }
}

/// Where the lowest piece behind a number is among some files.
pub open spec fn later_at(files: Seq<PartView>, s: NamesView, n: nat) -> Option<int>
    decreases files.len(),
{
    if files.len() == 0 {
        None
    } else {
        let last = files.last();
        match later_at(files.drop_last(), s, n) {
            Some(i) => if is_later(last, s, n) && number_or_zero(last, s) < number_or_zero(
                files[i],
                s,
            ) {
                Some(files.len() - 1)
            } else {
                Some(i)
            },
            None => if is_later(last, s, n) {
                Some(files.len() - 1)
            } else {
                None
            },
        }
    }
}

/// The pieces of a raw image, or why there are none.
pub open spec fn split_found(
    first: Seq<char>,
    name: Option<Seq<char>>,
    files: Seq<PartView>,
) -> Result<Seq<Seq<char>>, ErrorView> {
    match names_from(first, name) {
        Err(e) => Err(e),
        Ok(s) => {
            let found = run_from(files, s, s.start);
            let n = s.start + found.len();
            match later_at(files, s, n) {
                Some(i) => Err(s.gap(n, files[i].path)),
                None => Ok(found),
            }
        },
    }
}

/// A file of a name is found, and is of that name.
proof fn named_is_found(files: Seq<PartView>, name: Seq<char>)
    ensures
        (match named_at(files, name) {
            Some(i) => 0 <= i < files.len() && files[i].name == Some(name),
            None => forall|i: int|
                0 <= i < files.len() ==> (#[trigger] files[i]).name != Some(name),
        }),
    decreases files.len(),
{
    if files.len() > 0 {
        let front = files.drop_last();
        named_is_found(front, name);
        assert forall|i: int| named_at(files, name) is None && 0 <= i < files.len() implies (
        #[trigger] files[i]).name != Some(name) by {
            if i < front.len() {
                assert(front[i] == files[i]);
            }
        }
    }
}

/// A later piece is found where there is one, and the lowest of them.
proof fn later_is_found(files: Seq<PartView>, s: NamesView, n: nat)
    ensures
        (match later_at(files, s, n) {
            Some(i) => {
                &&& 0 <= i < files.len()
                &&& is_later(files[i], s, n)
                &&& forall|k: int|
                    0 <= k < files.len() && is_later(#[trigger] files[k], s, n)
                        ==> number_or_zero(files[i], s) <= number_or_zero(files[k], s)
            },
            None => forall|i: int| 0 <= i < files.len() ==> !is_later(#[trigger] files[i], s, n),
        }),
    decreases files.len(),
{
    if files.len() > 0 {
        let front = files.drop_last();
        later_is_found(front, s, n);
        assert forall|k: int| 0 <= k < front.len() implies front[k] == #[trigger] files[k] by {}
    }
}

/// The number of a piece's name is the piece's.
proof fn piece_has_its_number(s: NamesView, m: u32)
    ensures
        s.number(s.piece(m as nat)) == Some(m),
{
    reveal_strlit(".");
    let name = s.piece(m as nat);
    let digits = text::zero_padded(text::decimal(m as nat), s.width);
    text::padded_is_its_number(m as nat, s.width);
    assert(name.skip(s.stem.len() as int + 1) =~= digits);
    assert(digits[0] != '+');
}

/// Whether a path is that of the piece with a number.
pub open spec fn is_piece(files: Seq<PartView>, s: NamesView, n: nat, path: Seq<char>) -> bool {
    exists|k: int|
        0 <= k < files.len() && (#[trigger] files[k]).name == Some(s.piece(n)) && files[k].path
            == path
}

/// The pieces found are those of the numbers that follow the first, each a file that is
/// there under its name, up to the first number without one.
pub proof fn searches_find_runs(files: Seq<PartView>, s: NamesView, n: nat)
    requires
        n <= u32::MAX + 1,
    ensures
        n + run_from(files, s, n).len() <= u32::MAX + 1,
        forall|i: int|
            0 <= i < run_from(files, s, n).len() ==> is_piece(
                files,
                s,
                (n + i) as nat,
                #[trigger] run_from(files, s, n)[i],
            ),
        n + run_from(files, s, n).len() <= u32::MAX ==> forall|k: int|
            0 <= k < files.len() ==> (#[trigger] files[k]).name != Some(
                s.piece((n + run_from(files, s, n).len()) as nat),
            ),
    decreases u32::MAX + 1 - n,
{
    if n <= u32::MAX {
        named_is_found(files, s.piece(n));
        match named_at(files, s.piece(n)) {
            None => {
                assert(n + 0 == n);
            },
            Some(k) => {
                searches_find_runs(files, s, n + 1);
                let rest = run_from(files, s, n + 1);
                let run = run_from(files, s, n);
                assert(run == seq![files[k].path] + rest);
                assert forall|i: int| 0 <= i < run.len() implies is_piece(
                    files,
                    s,
                    (n + i) as nat,
                    #[trigger] run[i],
                ) by {
                    if i > 0 {
                        assert(run[i] == rest[i - 1]);
                        assert((n + 1) + (i - 1) == n + i);
                        assert(is_piece(files, s, ((n + 1) + (i - 1)) as nat, rest[i - 1]));
                    } else {
                        assert(files[k].name == Some(s.piece(n)));
                    }
                }
                assert((n + 1) + rest.len() == n + run.len());
            },
        }
    }
}

/// A gap is an error and no place to stop: a set with any piece behind a missing one is
/// refused, however many are missing between them.
pub proof fn gaps_are_refused(
    first: Seq<char>,
    name: Option<Seq<char>>,
    files: Seq<PartView>,
    k: int,
    m: u32,
)
    requires
        names_from(first, name) is Ok,
        0 <= k < files.len(),
        files[k].name == Some(names_from(first, name)->Ok_0.piece(m as nat)),
        m > names_from(first, name)->Ok_0.start + run_from(
            files,
            names_from(first, name)->Ok_0,
            names_from(first, name)->Ok_0.start,
        ).len(),
    ensures
        split_found(first, name, files) is Err,
{
    let s = names_from(first, name)->Ok_0;
    let n = s.start + run_from(files, s, s.start).len();
    piece_has_its_number(s, m);
    later_is_found(files, s, n);
    assert(is_later(files[k], s, n));
}

/// Where a file of a name is.
fn find_named(files: &Vec<PartFile>, name: &str) -> (r: Option<usize>)
    ensures
        (match r {
            Some(i) => i < files@.len() && named_at(part_views(files@), name@) == Some(i as int),
            None => named_at(part_views(files@), name@) is None,
        }),
{
    let ghost all = part_views(files@);
    let mut i: usize = 0;
    let mut at: Option<usize> = None;
    while i < files.len()
        invariant
            i <= files@.len(),
            all == part_views(files@),
            (match at {
                Some(k) => k < i && named_at(all.take(i as int), name@) == Some(k as int),
                None => named_at(all.take(i as int), name@) is None,
            }),
        decreases files@.len() - i,
    {
        proof {
            assert(all.take(i + 1).drop_last() =~= all.take(i as int));
            assert(all.take(i + 1).last() == files@[i as int]@);
        }
        if at.is_none() {
            match &files[i].name {
                Some(n) => {
                    if text::same(n.as_str(), name) {
                        at = Some(i);
                    }
                },
                None => {},
            }
        }
        i = i + 1;
    }
    proof {
        assert(all.take(i as int) =~= all);
    }
    at
}

/// How the pieces of a raw image are named.
struct SplitNames {
    stem: String,
    width: usize,
    start: u32,
}

impl View for SplitNames {
    type V = NamesView;

    closed spec fn view(&self) -> NamesView {
        NamesView { stem: self.stem@, width: self.width as nat, start: self.start as nat }
    }
}

impl SplitNames {
    /// How the pieces are named whose first is given.
    fn of(first: &str, name: Option<&str>) -> (r: Result<SplitNames, Error>)
        ensures
            (match r {
                Ok(s) => names_from(first@, optional(name)) == Ok::<NamesView, ErrorView>(s@),
                Err(e) => names_from(first@, optional(name)) == Err::<NamesView, ErrorView>(e@),
            }),
    {
        let name = match name {
            Some(n) => n,
            None => {
                return Err(
                    Error::malformed(Locus::new(first), text::owned("unreadable file name")),
                );
            },
        };
        let chars = text::characters(name);
        let dot: usize = match find_last(&chars, '.') {
            Some(i) => i,
            None => {
                return Err(
                    Error::malformed(
                        Locus::new(first),
                        text::owned(
                            "a split set's first segment must end in a numeric suffix, e.g. .001",
                        ),
                    ),
                );
            },
        };
        let stem = text::spelled_range(&chars, 0, dot);
        let suffix = text::spelled_range(&chars, dot + 1, chars.len());
        proof {
            assert(stem@ =~= name@.take(dot as int));
            assert(suffix@ =~= name@.skip(dot + 1));
        }
        if !is_numeric(suffix.as_str()) {
            let quoted = text::debug_quoted(suffix.as_str());
            return Err(
                Error::malformed(
                    Locus::new(first),
                    text::cat3("suffix ", quoted.as_str(), " is not numeric; not a split set"),
                ),
            );
        }
        let width: usize = chars.len() - dot - 1;
        match text::parse_number(suffix.as_str(), 0xffff_ffff) {
            Some(n) => Ok(SplitNames { stem, width, start: n as u32 }),
            None => {
                let quoted = text::debug_quoted(suffix.as_str());
                Err(
                    Error::malformed(
                        Locus::new(first),
                        text::cat3("suffix ", quoted.as_str(), " is not a number"),
                    ),
                )
            },
        }
    }

    /// The name of a piece.
    fn piece(&self, n: u64) -> (r: String)
        ensures
            r@ == self@.piece(n as nat),
    {
        let number = text::pad_zeros(text::dec(n).as_str(), self.width);
        text::cat3(self.stem.as_str(), ".", number.as_str())
    }

    /// The number of the piece that a name is of.
    fn number(&self, name: &str) -> (r: Option<u32>)
        ensures
            r == self@.number(name@),
    {
        let chars = text::characters(name);
        let length: usize = text::characters(self.stem.as_str()).len();
        if chars.len() <= length {
            return None;
        }
        let suffix = text::spelled_range(&chars, length + 1, chars.len());
        proof {
            assert(suffix@ =~= name@.skip(length + 1));
        }
        match text::parse_number(suffix.as_str(), 0xffff_ffff) {
            Some(m) => {
                let piece = self.piece(m);
                if text::same(piece.as_str(), name) {
                    Some(m as u32)
                } else {
                    None
                }
            },
            None => None,
        }
    }

    /// Where the lowest piece behind a number is.
    fn find_later(&self, files: &Vec<PartFile>, n: u64) -> (r: Option<usize>)
        ensures
            (match r {
                Some(i) => i < files@.len() && later_at(part_views(files@), self@, n as nat)
                    == Some(i as int),
                None => later_at(part_views(files@), self@, n as nat) is None,
            }),
    {
        let ghost all = part_views(files@);
        let mut best: Option<(usize, u32)> = None;
        let mut i: usize = 0;
        while i < files.len()
            invariant
                i <= files@.len(),
                all == part_views(files@),
                (match best {
                    Some(p) => p.0 < i && later_at(all.take(i as int), self@, n as nat) == Some(
                        p.0 as int,
                    ) && p.1 == number_or_zero(all[p.0 as int], self@),
                    None => later_at(all.take(i as int), self@, n as nat) is None,
                }),
            decreases files@.len() - i,
        {
            proof {
                assert(all.take(i + 1).drop_last() =~= all.take(i as int));
                assert(all.take(i + 1).last() == files@[i as int]@);
            }
            let number: Option<u32> = match &files[i].name {
                Some(name) => self.number(name.as_str()),
                None => None,
            };
            match number {
                Some(m) => {
                    let lower = match best {
                        Some(p) => m < p.1,
                        None => true,
                    };
                    if m as u64 > n && lower {
                        best = Some((i, m));
                    }
                },
                None => {},
            }
            i = i + 1;
        }
        proof {
            assert(all.take(i as int) =~= all);
        }
        match best {
            Some(p) => Some(p.0),
            None => None,
        }
    }
}

/// Files being read as one stream, as contracts speak of it.
#[verifier::ext_equal]
pub struct ConcatView {
    /// The files, in reading order.
    pub segments: Seq<Seq<char>>,
    /// How many of them have been opened.
    pub index: nat,
    /// Whether the last of those is still being read.
    pub open: bool,
}

/// What is to be done next to read files as one stream.
#[derive(Debug, Clone, Copy, PartialEq, Eq, Structural)]
pub enum ConcatTask {
    /// Open the file with this number.
    Open(usize),
    /// Read from the open file.
    Read,
    /// There is nothing left.
    End,
}

impl ConcatView {
    /// What is to be done next.
    pub open spec fn task(self) -> ConcatTask {
        if self.open {
            ConcatTask::Read
        } else if self.index < self.segments.len() {
            ConcatTask::Open(self.index as usize)
        } else {
            ConcatTask::End
        }
    }

    /// The next file has been opened.
    pub open spec fn opened(self) -> ConcatView {
        ConcatView { index: self.index + 1, open: true, ..self }
    }

    /// So many bytes came; none means that the open file is at its end.
    pub open spec fn came(self, bytes: nat) -> ConcatView {
        ConcatView { open: bytes > 0, ..self }
    }
}

/// Files being read as one stream, in order. A file that gives no more bytes is
/// followed by the next one.
#[derive(Debug)]
pub struct ConcatReader {
    segments: Vec<String>,
    index: usize,
    open: bool,
}

impl View for ConcatReader {
    type V = ConcatView;

    closed spec fn view(&self) -> ConcatView {
        ConcatView {
            segments: text::texts(self.segments@),
            index: self.index as nat,
            open: self.open,
        }
    }
}

impl ConcatReader {
    /// What is to be done next.
    pub fn task(&self) -> (r: ConcatTask)
        ensures
            r == self@.task(),
    {
        if self.open {
            ConcatTask::Read
        } else if self.index < self.segments.len() {
            ConcatTask::Open(self.index)
        } else {
            ConcatTask::End
        }
    }

    /// The file with a number.
    pub fn segment(&self, i: usize) -> (r: &str)
        requires
            i < self@.segments.len(),
        ensures
            r@ == self@.segments[i as int],
    {
        self.segments[i].as_str()
    }

    /// The next file has been opened.
    pub fn opened(&mut self)
        requires
            old(self)@.task() is Open,
        ensures
            final(self)@ == old(self)@.opened(),
    {
        let n: usize = self.segments.len();
        proof {
            assert(self.index < n);
        }
        self.index = self.index + 1;
        self.open = true;
    }

    /// So many bytes came from the open file.
    pub fn came(&mut self, bytes: usize)
        ensures
            final(self)@ == old(self)@.came(bytes as nat),
    {
        self.open = bytes > 0;
    }
}

/// The contents of files, one after another.
pub open spec fn together(contents: Seq<Seq<u8>>) -> Seq<u8>
    decreases contents.len(),
{
    if contents.len() == 0 {
        Seq::empty()
    } else {
        contents[0] + together(contents.skip(1))
    }
}

/// Whether what has been delivered, what is left of the open file and the files not
/// opened yet make up the whole.
pub open spec fn nothing_lost(
    state: ConcatView,
    contents: Seq<Seq<u8>>,
    delivered: Seq<u8>,
    rest: Seq<u8>,
) -> bool {
    &&& contents.len() == state.segments.len()
    &&& state.index <= contents.len()
    &&& !state.open ==> rest.len() == 0
    &&& delivered + rest + together(contents.skip(state.index as int)) == together(contents)
}

/// Read in this way files come as one stream, in order and with nothing lost: the
/// start loses nothing, neither does opening the next file nor taking the bytes that
/// come, and at the end the contents of all files have been delivered.
pub proof fn streams_are_whole(
    state: ConcatView,
    contents: Seq<Seq<u8>>,
    delivered: Seq<u8>,
    rest: Seq<u8>,
    taken: nat,
)
    requires
        contents.len() == state.segments.len(),
        taken <= rest.len(),
        rest.len() > 0 ==> taken > 0,
    ensures
        nothing_lost(
            (ConcatView { segments: state.segments, index: 0, open: false }),
            contents,
            Seq::empty(),
            Seq::empty(),
        ),
        nothing_lost(state, contents, delivered, rest) && state.task() is Open ==> nothing_lost(
            state.opened(),
            contents,
            delivered,
            contents[state.index as int],
        ),
        nothing_lost(state, contents, delivered, rest) && state.task() is Read ==> nothing_lost(
            state.came(taken),
            contents,
            delivered + rest.take(taken as int),
            rest.skip(taken as int),
        ),
        nothing_lost(state, contents, delivered, rest) && state.task() is End ==> delivered
            == together(contents),
{
    assert(contents.skip(0) =~= contents);
    assert(Seq::<u8>::empty() + Seq::<u8>::empty() + together(contents) =~= together(contents));
    if nothing_lost(state, contents, delivered, rest) {
        let i = state.index as int;
        if state.task() is Open {
            assert(contents.skip(i).skip(1) =~= contents.skip(i + 1));
            assert(contents.skip(i)[0] == contents[i]);
            assert(delivered + rest + (contents[i] + together(contents.skip(i + 1))) =~= delivered
                + contents[i] + together(contents.skip(i + 1)));
        }
        if state.task() is Read {
            assert(delivered + rest.take(taken as int) + rest.skip(taken as int) =~= delivered
                + rest);
        }
        if state.task() is End {
            assert(contents.skip(i) =~= Seq::<Seq<u8>>::empty());
            assert(delivered + rest + Seq::<u8>::empty() =~= delivered);
        }
    }
}

} // verus!
