//! Finding and ordering the parts of a split set.
//!
//! A part is one file of a set.

use std::cmp::Ordering;

use vstd::prelude::*;

use crate::error::{copied_text, malformed, optional_text, Error, ErrorView, Locus, LocusView};
use crate::hash::{eq_ignore_case, same_but_for_case};
use crate::text;

verus! {

/// How one thing stands to another.
#[derive(Debug, Clone, Copy, PartialEq, Eq, Structural)]
pub enum Standing {
    /// Before it.
    Before,
    /// Beside it.
    Beside,
    /// After it.
    After,
}

/// How many digits a text begins with.
pub open spec fn digit_run(s: Seq<char>) -> nat
    decreases s.len(),
{
    if s.len() > 0 && text::is_digit(s[0]) {
        1 + digit_run(s.skip(1))
    } else {
        0
    }
}

/// The number that the digits at the beginning spell, at most the largest of 128
/// bits.
pub open spec fn run_value(s: Seq<char>) -> nat {
    let v = text::digits_value(s.take(digit_run(s) as int));
    if v > u128::MAX {
        u128::MAX as nat
    } else {
        v
    }
}

/// How two numbers stand.
pub open spec fn numbers_stand(a: nat, b: nat) -> Standing {
    if a < b {
        Standing::Before
    } else if a > b {
        Standing::After
    } else {
        Standing::Beside
    }
}

/// How two runs of digits stand: by the numbers they spell, then by their widths.
pub open spec fn runs_stand(a: Seq<char>, b: Seq<char>) -> Standing {
    if run_value(a) != run_value(b) {
        numbers_stand(run_value(a), run_value(b))
    } else {
        numbers_stand(digit_run(a), digit_run(b))
    }
}

/// How two names stand: character by character, runs of digits as numbers.
pub open spec fn names_stand(a: Seq<char>, b: Seq<char>) -> Standing
    decreases a.len(),
{
    if a.len() == 0 {
        if b.len() == 0 {
            Standing::Beside
        } else {
            Standing::Before
        }
    } else if b.len() == 0 {
        Standing::After
    } else if text::is_digit(a[0]) && text::is_digit(b[0]) {
        if runs_stand(a, b) != Standing::Beside {
            runs_stand(a, b)
        } else if digit_run(a) > 0 && digit_run(a) <= a.len() {
            names_stand(a.skip(digit_run(a) as int), b.skip(digit_run(b) as int))
        } else {
            Standing::Beside
        }
    } else if a[0] != b[0] {
        if a[0] < b[0] {
            Standing::Before
        } else {
            Standing::After
        }
    } else {
        names_stand(a.skip(1), b.skip(1))
    }
}

/// A run of digits lies within the text.
proof fn run_fits(s: Seq<char>)
    ensures
        digit_run(s) <= s.len(),
        s.len() > 0 && text::is_digit(s[0]) ==> digit_run(s) > 0,
        forall|i: int| 0 <= i < digit_run(s) ==> text::is_digit(#[trigger] s[i]),
        digit_run(s) < s.len() ==> !text::is_digit(s[digit_run(s) as int]),
    decreases s.len(),
{
    if s.len() > 0 && text::is_digit(s[0]) {
        run_fits(s.skip(1));
        assert forall|i: int| 0 <= i < digit_run(s) implies text::is_digit(#[trigger] s[i]) by {
            if i > 0 {
                assert(s.skip(1)[i - 1] == s[i]);
            }
        }
    }
}

/// The other way round.
pub open spec fn turned(s: Standing) -> Standing {
    match s {
        Standing::Before => Standing::After,
        Standing::Beside => Standing::Beside,
        Standing::After => Standing::Before,
    }
}

/// Where one name is before another, the other is after it.
pub proof fn standing_turns(a: Seq<char>, b: Seq<char>)
    ensures
        names_stand(b, a) == turned(names_stand(a, b)),
    decreases a.len(),
{
    run_fits(a);
    run_fits(b);
    if a.len() > 0 && b.len() > 0 {
        if text::is_digit(a[0]) && text::is_digit(b[0]) {
            if runs_stand(a, b) == Standing::Beside {
                standing_turns(a.skip(digit_run(a) as int), b.skip(digit_run(b) as int));
            }
        } else if a[0] == b[0] {
            standing_turns(a.skip(1), b.skip(1));
        }
    }
}

/// What is not after something that is not after a third is not after the third:
/// names can be sorted.
pub proof fn standing_carries(a: Seq<char>, b: Seq<char>, c: Seq<char>)
    requires
        names_stand(a, b) != Standing::After,
        names_stand(b, c) != Standing::After,
    ensures
        names_stand(a, c) != Standing::After,
        names_stand(a, b) == Standing::Before || names_stand(b, c) == Standing::Before
            ==> names_stand(a, c) == Standing::Before,
    decreases a.len(),
{
    run_fits(a);
    run_fits(b);
    run_fits(c);
    if a.len() > 0 && b.len() > 0 && c.len() > 0 {
        if text::is_digit(a[0]) && text::is_digit(b[0]) && text::is_digit(c[0]) {
            if runs_stand(a, b) == Standing::Beside && runs_stand(b, c) == Standing::Beside {
                standing_carries(
                    a.skip(digit_run(a) as int),
                    b.skip(digit_run(b) as int),
                    c.skip(digit_run(c) as int),
                );
            }
        } else if a[0] == b[0] && b[0] == c[0] {
            standing_carries(a.skip(1), b.skip(1), c.skip(1));
        }
    }
}

/// Parts order by their numbers, padded with zeros or not: of two names that are
/// alike up to a number, the one with the smaller number is first.
pub proof fn numbers_order_by_value(head: Seq<char>, a: Seq<char>, b: Seq<char>)
    requires
        forall|i: int| 0 <= i < head.len() ==> !text::is_digit(#[trigger] head[i]),
        a.len() > 0 && text::is_digit(a[0]),
        b.len() > 0 && text::is_digit(b[0]),
        run_value(a) < run_value(b),
    ensures
        names_stand(head + a, head + b) == Standing::Before,
    decreases head.len(),
{
    if head.len() == 0 {
        assert(head + a =~= a);
        assert(head + b =~= b);
    } else {
        let rest = head.skip(1);
        assert forall|i: int| 0 <= i < rest.len() implies !text::is_digit(#[trigger] rest[i]) by {
            assert(rest[i] == head[i + 1]);
        }
        numbers_order_by_value(rest, a, b);
        assert((head + a).skip(1) =~= rest + a);
        assert((head + b).skip(1) =~= rest + b);
        assert((head + a)[0] == head[0] && (head + b)[0] == head[0]);
    }
}

/// Whether a character is a digit.
fn is_digit_char(c: char) -> (r: bool)
    ensures
        r == text::is_digit(c),
{
    '0' <= c && c <= '9'
}

/// The value and width of a run of digits, from a place on. A value too large is
/// the largest there is.
fn take_digits(chars: &Vec<char>, from: usize) -> (r: (u128, usize))
    requires
        from <= chars@.len(),
    ensures
        r.0 == run_value(chars@.skip(from as int)),
        r.1 == digit_run(chars@.skip(from as int)),
        from + r.1 <= chars@.len(),
{
    let ghost rest = chars@.skip(from as int);
    let mut value: u128 = 0;
    let mut width: usize = 0;
    let end: usize = chars.len();
    proof {
        run_fits(rest);
        assert(rest.take(0) =~= Seq::<char>::empty());
    }
    while from + width < end && is_digit_char(chars[from + width])
        invariant
            end == chars@.len(),
            from + width <= chars@.len(),
            rest == chars@.skip(from as int),
            width <= digit_run(rest),
            digit_run(rest) <= rest.len(),
            forall|i: int| 0 <= i < digit_run(rest) ==> text::is_digit(#[trigger] rest[i]),
            digit_run(rest) < rest.len() ==> !text::is_digit(rest[digit_run(rest) as int]),
            value == capped_value(rest.take(width as int)),
        decreases chars@.len() - from - width,
    {
        let c = chars[from + width];
        proof {
            assert(rest[width as int] == c);
            assert(rest.take(width + 1).drop_last() =~= rest.take(width as int));
            assert(rest.take(width + 1).last() == c);
        }
        let digit: u128 = (c as u32 - 48) as u128;
        if value > (0xffff_ffff_ffff_ffff_ffff_ffff_ffff_ffffu128 - digit) / 10 {
            value = 0xffff_ffff_ffff_ffff_ffff_ffff_ffff_ffffu128;
        } else {
            value = value * 10 + digit;
        }
        width = width + 1;
    }
    proof {
        if from + width < chars@.len() {
            assert(rest[width as int] == chars@[from + width]);
        }
    }
    (value, width)
}

/// The number that digits spell, at most the largest of 128 bits.
spec fn capped_value(digits: Seq<char>) -> nat {
    let v = text::digits_value(digits);
    if v > u128::MAX {
        u128::MAX as nat
    } else {
        v
    }
}

/// How two names stand.
fn stand(a: &str, b: &str) -> (r: Standing)
    ensures
        r == names_stand(a@, b@),
{
    let left = text::characters(a);
    let right = text::characters(b);
    let mut i: usize = 0;
    let mut j: usize = 0;
    proof {
        assert(a@.skip(0) =~= a@);
        assert(b@.skip(0) =~= b@);
    }
    while i < left.len() && j < right.len()
        invariant
            i <= left.len(),
            j <= right.len(),
            left@ == a@,
            right@ == b@,
            names_stand(a@, b@) == names_stand(a@.skip(i as int), b@.skip(j as int)),
        decreases left.len() - i,
    {
        let x = left[i];
        let y = right[j];
        let ghost s = a@.skip(i as int);
        let ghost t = b@.skip(j as int);
        proof {
            run_fits(s);
            run_fits(t);
        }
        if is_digit_char(x) && is_digit_char(y) {
            let m = take_digits(&left, i);
            let n = take_digits(&right, j);
            if m.0 < n.0 {
                return Standing::Before;
            }
            if m.0 > n.0 {
                return Standing::After;
            }
            if m.1 < n.1 {
                return Standing::Before;
            }
            if m.1 > n.1 {
                return Standing::After;
            }
            proof {
                assert(s.skip(m.1 as int) =~= a@.skip(i + m.1));
                assert(t.skip(n.1 as int) =~= b@.skip(j + n.1));
            }
            i = i + m.1;
            j = j + n.1;
        } else {
            if x < y {
                return Standing::Before;
            }
            if x > y {
                return Standing::After;
            }
            proof {
                assert(s.skip(1) =~= a@.skip(i + 1));
                assert(t.skip(1) =~= b@.skip(j + 1));
            }
            i = i + 1;
            j = j + 1;
        }
    }
    if i < left.len() {
        Standing::After
    } else if j < right.len() {
        Standing::Before
    } else {
        Standing::Beside
    }
}

/// Compare two file names so that runs of digits order as numbers: part 10 is after
/// part 9.
pub fn natural_cmp(a: &str, b: &str) -> (r: Ordering)
    ensures
        r == (match names_stand(a@, b@) {
            Standing::Before => Ordering::Less,
            Standing::Beside => Ordering::Equal,
            Standing::After => Ordering::Greater,
        }),
{
    match stand(a, b) {
        Standing::Before => Ordering::Less,
        Standing::Beside => Ordering::Equal,
        Standing::After => Ordering::Greater,
    }
}

/// Where the last of a character is.
pub open spec fn last_place(s: Seq<char>, c: char) -> Option<int>
    decreases s.len(),
{
    if s.len() == 0 {
        None
    } else if s.last() == c {
        Some(s.len() - 1)
    } else {
        last_place(s.drop_last(), c)
    }
}

/// A file name without its extension.
pub open spec fn stem_of(name: Seq<char>) -> Seq<char> {
    match last_place(name, '.') {
        Some(i) => name.take(i),
        None => name,
    }
}

/// How many digits a text ends in.
pub open spec fn trailing_digits(s: Seq<char>) -> nat
    decreases s.len(),
{
    if s.len() > 0 && text::is_digit(s.last()) {
        1 + trailing_digits(s.drop_last())
    } else {
        0
    }
}

/// A text up to the end of its last run of digits.
pub open spec fn up_to_digits(s: Seq<char>) -> Seq<char>
    decreases s.len(),
{
    if s.len() > 0 && !text::is_digit(s.last()) {
        up_to_digits(s.drop_last())
    } else {
        s
    }
}

/// Whether a character separates a number from what is before it.
pub open spec fn is_separator(c: char) -> bool {
    c == '_' || c == '-' || c == '.' || c == ' '
}

/// The part number of a file name: its last run of digits, where that follows a
/// separator or is all there is before the extension. Digits inside a word are no
/// part number.
pub open spec fn part_number_of(name: Seq<char>) -> Option<u32> {
    let s = up_to_digits(stem_of(name));
    let start = s.len() - trailing_digits(s);
    if s.len() == 0 || (if start > 0 {
        !is_separator(s[start - 1])
    } else {
        s.len() < stem_of(name).len()
    }) {
        None
    } else {
        match text::number_of(s.skip(start), u32::MAX as nat) {
            Some(n) => Some(n as u32),
            None => None,
        }
    }
}

/// Where the last of a character is.
pub(crate) fn find_last(chars: &Vec<char>, c: char) -> (r: Option<usize>)
    ensures
        (match r {
            Some(i) => last_place(chars@, c) == Some(i as int) && i < chars@.len(),
            None => last_place(chars@, c) is None,
        }),
{
    let mut end: usize = chars.len();
    proof {
        assert(chars@.take(end as int) =~= chars@);
    }
    while end > 0
        invariant
            end <= chars@.len(),
            last_place(chars@, c) == last_place(chars@.take(end as int), c),
        decreases end,
    {
        proof {
            assert(chars@.take(end as int).drop_last() =~= chars@.take(end - 1));
            assert(chars@.take(end as int).last() == chars@[end - 1]);
        }
        if chars[end - 1] == c {
            return Some(end - 1);
        }
        end = end - 1;
    }
    None
}

/// How many characters a file name has before its extension.
fn stem_length(chars: &Vec<char>) -> (r: usize)
    ensures
        r <= chars@.len(),
        chars@.take(r as int) == stem_of(chars@),
{
    match find_last(chars, '.') {
        Some(i) => i,
        None => {
            proof {
                assert(chars@.take(chars@.len() as int) =~= chars@);
            }
            chars.len()
        },
    }
}

/// How many digits a text ends in, up to an end.
fn count_trailing(chars: &Vec<char>, end: usize) -> (r: usize)
    requires
        end <= chars@.len(),
    ensures
        r == trailing_digits(chars@.take(end as int)),
        r <= end,
{
    let ghost all = chars@.take(end as int);
    let mut n: usize = 0;
    proof {
        assert(all.take(end as int) =~= all);
    }
    while n < end && is_digit_char(chars[end - n - 1])
        invariant
            n <= end <= chars@.len(),
            all == chars@.take(end as int),
            trailing_digits(all) == n + trailing_digits(all.take(end - n)),
        decreases end - n,
    {
        proof {
            assert(all.take(end - n).drop_last() =~= all.take(end - n - 1));
            assert(all.take(end - n).last() == chars@[end - n - 1]);
        }
        n = n + 1;
    }
    proof {
        if n < end {
            assert(all.take(end - n).last() == chars@[end - n - 1]);
        }
    }
    n
}

/// Where the last run of digits before a file name's extension ends, and how long it
/// is. Where there is none, it ends at the beginning.
fn last_run(chars: &Vec<char>) -> (r: (usize, usize))
    ensures
        r.0 <= stem_of(chars@).len() <= chars@.len(),
        r.1 <= r.0,
        chars@.take(r.0 as int) == up_to_digits(stem_of(chars@)),
        r.1 == trailing_digits(up_to_digits(stem_of(chars@))),
{
    let mut end: usize = stem_length(chars);
    let ghost stem = stem_of(chars@);
    proof {
        assert(stem.take(end as int) =~= stem);
    }
    let ghost whole = end;
    while end > 0 && !is_digit_char(chars[end - 1])
        invariant
            end <= whole <= chars@.len(),
            stem == chars@.take(whole as int),
            up_to_digits(stem) == up_to_digits(stem.take(end as int)),
        decreases end,
    {
        proof {
            assert(stem.take(end as int).drop_last() =~= stem.take(end - 1));
            assert(stem.take(end as int).last() == chars@[end - 1]);
        }
        end = end - 1;
    }
    proof {
        let s = stem.take(end as int);
        if end > 0 {
            assert(s.last() == chars@[end - 1]);
        }
        assert(up_to_digits(s) == s);
        assert(chars@.take(end as int) =~= s);
    }
    (end, count_trailing(chars, end))
}

/// The part number of a file name.
pub fn part_number(name: &str) -> (r: Option<u32>)
    ensures
        r == part_number_of(name@),
{
    let chars = text::characters(name);
    let (end, width) = last_run(&chars);
    let ghost s = up_to_digits(stem_of(name@));
    if end == 0 {
        return None;
    }
    let start: usize = end - width;
    if start > 0 {
        let c = chars[start - 1];
        proof {
            assert(s[start - 1] == c);
        }
        if !(c == '_' || c == '-' || c == '.' || c == ' ') {
            return None;
        }
    } else if end < stem_length(&chars) {
        return None;
    }
    let digits = text::spelled_range(&chars, start, end);
    proof {
        assert(chars@.subrange(start as int, end as int) =~= s.skip(start as int));
    }
    match text::parse_number(digits.as_str(), 0xffff_ffff) {
        Some(n) => Some(n as u32),
        None => None,
    }
}

/// Which kind of split set.
#[derive(Debug, Clone, Copy, PartialEq, Eq, Structural)]
pub enum SplitKind {
    /// AFF4 volumes, `evidence_001.aff4` and on.
    Aff4,
    /// A raw image cut into pieces, `img.001` and on.
    RawSplit,
}

/// One file of a folder.
#[derive(Debug, Clone, PartialEq, Eq)]
pub struct PartFile {
    /// Where it is.
    pub path: String,
    /// Its name, where that is text.
    pub name: Option<String>,
    /// Its extension, where it has one and that is text.
    pub extension: Option<String>,
}

/// One file of a folder, as contracts speak of it.
#[verifier::ext_equal]
pub struct PartView {
    /// Where it is.
    pub path: Seq<char>,
    /// Its name, where that is text.
    pub name: Option<Seq<char>>,
    /// Its extension, where it has one and that is text.
    pub extension: Option<Seq<char>>,
}

impl View for PartFile {
    type V = PartView;

    open spec fn view(&self) -> PartView {
        PartView {
            path: self.path@,
            name: optional_text(self.name),
            extension: optional_text(self.extension),
        }
    }
}

/// The views of files.
pub open spec fn part_views(list: Seq<PartFile>) -> Seq<PartView> {
    list.map_values(|p: PartFile| p@)
}

impl PartView {
    /// What the file is sorted by: its name, nothing where that is no text.
    pub open spec fn sort_name(self) -> Seq<char> {
        match self.name {
            Some(n) => n,
            None => Seq::empty(),
        }
    }
}

/// Whether an extension is a number.
pub open spec fn numeric(extension: Seq<char>) -> bool {
    extension.len() > 0 && text::all_digits(extension)
}

/// The kind of set that a file can be part of.
pub open spec fn kind_of(part: PartView) -> Option<SplitKind> {
    match part.extension {
        Some(e) => if same_but_for_case(e, "aff4"@) || same_but_for_case(e, "af4"@) {
            Some(SplitKind::Aff4)
        } else if numeric(e) {
            Some(SplitKind::RawSplit)
        } else {
            None
        },
        None => None,
    }
}

/// The part number of a file and its printed width, read off the same digits. Those of
/// an AFF4 part are the last run before the extension, those of a raw part are its
/// extension.
pub open spec fn number_and_width(part: PartView, kind: SplitKind) -> Option<(u32, nat)> {
    match kind {
        SplitKind::RawSplit => match part.extension {
            Some(e) => if numeric(e) {
                match text::number_of(e, u32::MAX as nat) {
                    Some(n) => Some((n as u32, e.len())),
                    None => None,
                }
            } else {
                None
            },
            None => None,
        },
        SplitKind::Aff4 => match part.name {
            Some(name) => match part_number_of(name) {
                Some(n) => Some((n, trailing_digits(up_to_digits(stem_of(name))))),
                None => None,
            },
            None => None,
        },
    }
}

/// The part number of a file.
pub open spec fn number_in(part: PartView, kind: SplitKind) -> Option<u32> {
    match number_and_width(part, kind) {
        Some(p) => Some(p.0),
        None => None,
    }
}

/// The files that belong to one kind of set, in the order listed.
pub open spec fn of_kind(files: Seq<PartView>, kind: SplitKind) -> Seq<PartView>
    decreases files.len(),
{
    if files.len() == 0 {
        Seq::empty()
    } else if kind_of(files.last()) == Some(kind) {
        of_kind(files.drop_last(), kind).push(files.last())
    } else {
        of_kind(files.drop_last(), kind)
    }
}

/// A file put behind those that it is not before.
pub open spec fn placed(sorted: Seq<PartView>, part: PartView) -> Seq<PartView>
    decreases sorted.len(),
{
    if sorted.len() == 0 || names_stand(sorted.last().sort_name(), part.sort_name())
        != Standing::After {
        sorted.push(part)
    } else {
        placed(sorted.drop_last(), part).push(sorted.last())
    }
}

/// Files in the order of their names; those that stand beside each other stay in
/// the order listed.
pub open spec fn in_order(files: Seq<PartView>) -> Seq<PartView>
    decreases files.len(),
{
    if files.len() == 0 {
        Seq::empty()
    } else {
        placed(in_order(files.drop_last()), files.last())
    }
}

/// Whether every file has a part number.
pub open spec fn all_numbered(parts: Seq<PartView>, kind: SplitKind) -> bool {
    forall|i: int| 0 <= i < parts.len() ==> (#[trigger] number_in(parts[i], kind)) is Some
}

/// The first two neighbours that do not follow each other.
pub open spec fn first_gap(parts: Seq<PartView>, kind: SplitKind) -> Option<(u32, u32)>
    decreases parts.len(),
{
    if parts.len() < 2 {
        None
    } else {
        match first_gap(parts.drop_last(), kind) {
            Some(g) => Some(g),
            None => {
                let a = number_in(parts[parts.len() - 2], kind)->0;
                let b = number_in(parts[parts.len() - 1], kind)->0;
                if b != a + 1 {
                    Some((a, b))
                } else {
                    None
                }
            },
        }
    }
}

/// A split set, as contracts speak of it.
#[verifier::ext_equal]
pub struct SetView {
    /// Which kind it is.
    pub kind: SplitKind,
    /// Its parts, in order.
    pub parts: Seq<PartView>,
    /// The number of its first part.
    pub first: Option<u32>,
    /// The number of its last part.
    pub last: Option<u32>,
}

/// The set that some files make up, all of one kind.
pub open spec fn set_of(
    files: Seq<PartView>,
    kind: SplitKind,
    dir: Seq<char>,
) -> Result<SetView, ErrorView> {
    let parts = in_order(files);
    if all_numbered(parts, kind) && first_gap(parts, kind) is Some {
        let gap = first_gap(parts, kind)->0;
        Err(
            malformed(
                LocusView::file(dir),
                "split set has a gap: part "@ + text::decimal(gap.0 as nat) + " is followed by part "@
                    + text::decimal(gap.1 as nat) + "; reassembly would silently omit data"@,
            ),
        )
    } else {
        Ok(
            SetView {
                kind,
                parts,
                first: number_in(parts[0], kind),
                last: number_in(parts.last(), kind),
            },
        )
    }
}

/// The split set in a folder, from the files in it.
pub open spec fn discovered(files: Seq<PartView>, dir: Seq<char>) -> Result<SetView, ErrorView> {
    let aff4 = of_kind(files, SplitKind::Aff4);
    let raw = of_kind(files, SplitKind::RawSplit);
    if aff4.len() > 0 && raw.len() > 0 {
        Err(
            malformed(
                LocusView::file(dir),
                "this folder holds both an AFF4 set and a raw split set; name one file explicitly rather than the folder"@,
            ),
        )
    } else if aff4.len() > 0 {
        set_of(aff4, SplitKind::Aff4, dir)
    } else if raw.len() > 0 {
        set_of(raw, SplitKind::RawSplit, dir)
    } else {
        Err(
            malformed(
                LocusView::file(dir),
                "no split set here: expected .aff4 parts or a raw set (.001, .002, \u{2026})"@,
            ),
        )
    }
}

/// Whether files are in the order of their names.
pub open spec fn ordered(parts: Seq<PartView>) -> bool {
    forall|i: int, j: int|
        0 <= i < j < parts.len() ==> names_stand(
            (#[trigger] parts[i]).sort_name(),
            (#[trigger] parts[j]).sort_name(),
        ) != Standing::After
}

/// Putting one more file in its place keeps the order and loses nothing.
proof fn placed_keeps(sorted: Seq<PartView>, part: PartView)
    requires
        ordered(sorted),
    ensures
        ordered(placed(sorted, part)),
        placed(sorted, part).to_multiset() == sorted.to_multiset().insert(part),
        placed(sorted, part).len() == sorted.len() + 1,
        forall|x: PartView|
            #[trigger] placed(sorted, part).contains(x) ==> sorted.contains(x) || x == part,
    decreases sorted.len(),
{
    broadcast use vstd::seq_lib::group_to_multiset_ensures;

    if sorted.len() == 0 || names_stand(sorted.last().sort_name(), part.sort_name())
        != Standing::After {
        let r = placed(sorted, part);
        assert forall|i: int, j: int| 0 <= i < j < r.len() implies names_stand(
            (#[trigger] r[i]).sort_name(),
            (#[trigger] r[j]).sort_name(),
        ) != Standing::After by {
            if j == sorted.len() && i < sorted.len() - 1 {
                standing_carries(r[i].sort_name(), sorted.last().sort_name(), part.sort_name());
            }
        }
        assert forall|x: PartView| #[trigger] r.contains(x) implies sorted.contains(x) || x
            == part by {
            let k = r.index_of(x);
            if k < sorted.len() {
                assert(sorted[k] == x);
            }
        }
    } else {
        let rest = sorted.drop_last();
        let shorter = placed(rest, part);
        let r = placed(sorted, part);
        placed_keeps(rest, part);
        standing_turns(sorted.last().sort_name(), part.sort_name());
        assert(sorted =~= rest.push(sorted.last()));
        assert(r.to_multiset() =~= sorted.to_multiset().insert(part));
        assert forall|i: int, j: int| 0 <= i < j < r.len() implies names_stand(
            (#[trigger] r[i]).sort_name(),
            (#[trigger] r[j]).sort_name(),
        ) != Standing::After by {
            if j == shorter.len() {
                assert(shorter.contains(shorter[i]));
                assert(r[i] == shorter[i]);
                if rest.contains(shorter[i]) {
                    let k = rest.index_of(shorter[i]);
                    assert(sorted[k] == shorter[i]);
                }
            } else {
                assert(r[i] == shorter[i] && r[j] == shorter[j]);
            }
        }
        assert forall|x: PartView| #[trigger] r.contains(x) implies sorted.contains(x) || x
            == part by {
            let k = r.index_of(x);
            if k < shorter.len() {
                assert(shorter[k] == x);
                assert(shorter.contains(x));
                if rest.contains(x) {
                    assert(sorted[rest.index_of(x)] == x);
                }
            } else {
                assert(sorted[sorted.len() - 1] == x);
            }
        }
    }
}

/// Sorting the parts of a set puts them in the order of their names and loses none.
pub proof fn parts_are_ordered(files: Seq<PartView>)
    ensures
        ordered(in_order(files)),
        in_order(files).to_multiset() == files.to_multiset(),
        in_order(files).len() == files.len(),
    decreases files.len(),
{
    broadcast use vstd::seq_lib::group_to_multiset_ensures;

    if files.len() > 0 {
        parts_are_ordered(files.drop_last());
        placed_keeps(in_order(files.drop_last()), files.last());
        assert(files =~= files.drop_last().push(files.last()));
    }
}

/// Where no neighbours leave a gap, part numbers count up by one.
proof fn without_gap(parts: Seq<PartView>, kind: SplitKind, i: int)
    requires
        all_numbered(parts, kind),
        first_gap(parts, kind) is None,
        0 <= i < parts.len(),
    ensures
        number_in(parts[i], kind)->0 == number_in(parts[0], kind)->0 + i,
    decreases parts.len(),
{
    if parts.len() >= 2 {
        let rest = parts.drop_last();
        assert forall|k: int| 0 <= k < rest.len() implies (#[trigger] number_in(rest[k], kind))
            is Some by {
            assert(number_in(parts[k], kind) is Some);
        }
        if i < rest.len() {
            without_gap(rest, kind, i);
            assert(rest[i] == parts[i] && rest[0] == parts[0]);
        } else {
            without_gap(rest, kind, i - 1);
            assert(rest[i - 1] == parts[i - 1] && rest[0] == parts[0]);
        }
    }
}

/// A set that is found, with every part numbered, leaves nothing out: its parts
/// count up by one from the first to the last.
pub proof fn found_sets_are_whole(files: Seq<PartView>, dir: Seq<char>)
    requires
        discovered(files, dir) is Ok,
        all_numbered(discovered(files, dir)->Ok_0.parts, discovered(files, dir)->Ok_0.kind),
    ensures
        ({
            let set = discovered(files, dir)->Ok_0;
            &&& set.first is Some && set.last is Some
            &&& set.last->0 - set.first->0 + 1 == set.parts.len()
            &&& forall|i: int|
                0 <= i < set.parts.len() ==> (#[trigger] number_in(set.parts[i], set.kind))
                    == Some((set.first->0 + i) as u32)
        }),
{
    let set = discovered(files, dir)->Ok_0;
    parts_are_ordered(of_kind(files, set.kind));
    assert forall|i: int| 0 <= i < set.parts.len() implies (#[trigger] number_in(
        set.parts[i],
        set.kind,
    )) == Some((set.first->0 + i) as u32) by {
        without_gap(set.parts, set.kind, i);
    }
    without_gap(set.parts, set.kind, set.parts.len() - 1);
    assert(number_in(set.parts[0], set.kind) is Some);
    assert(number_in(set.parts[set.parts.len() - 1], set.kind) is Some);
}

/// Whether an extension is a number.
pub(crate) fn is_numeric(extension: &str) -> (r: bool)
    ensures
        r == numeric(extension@),
{
    let chars = text::characters(extension);
    let mut i: usize = 0;
    while i < chars.len()
        invariant
            i <= chars@.len(),
            chars@ == extension@,
            forall|k: int| 0 <= k < i ==> text::is_digit(#[trigger] extension@[k]),
        decreases chars@.len() - i,
    {
        if !is_digit_char(chars[i]) {
            proof {
                assert(!text::is_digit(extension@[i as int]));
            }
            return false;
        }
        i = i + 1;
    }
    chars.len() > 0
}

impl PartFile {
    /// The kind of set that the file can be part of.
    fn kind(&self) -> (r: Option<SplitKind>)
        ensures
            r == kind_of(self@),
    {
        match &self.extension {
            Some(e) => if eq_ignore_case(e.as_str(), "aff4") || eq_ignore_case(e.as_str(), "af4") {
                Some(SplitKind::Aff4)
            } else if is_numeric(e.as_str()) {
                Some(SplitKind::RawSplit)
            } else {
                None
            },
            None => None,
        }
    }

    /// How the file's name stands to another's.
    fn stands_to(&self, other: &PartFile) -> (r: Standing)
        ensures
            r == names_stand(self@.sort_name(), other@.sort_name()),
    {
        let mine = match &self.name {
            Some(n) => text::owned(n.as_str()),
            None => String::new(),
        };
        let theirs = match &other.name {
            Some(n) => text::owned(n.as_str()),
            None => String::new(),
        };
        proof {
            assert(mine@ =~= self@.sort_name());
            assert(theirs@ =~= other@.sort_name());
        }
        stand(mine.as_str(), theirs.as_str())
    }

    /// The part number of the file, and its printed width.
    fn numbered(&self, kind: SplitKind) -> (r: Option<(u32, usize)>)
        ensures
            (match r {
                Some(p) => number_and_width(self@, kind) == Some((p.0, p.1 as nat)),
                None => number_and_width(self@, kind) is None,
            }),
    {
        match kind {
            SplitKind::RawSplit => match &self.extension {
                Some(e) => {
                    if !is_numeric(e.as_str()) {
                        return None;
                    }
                    let width: usize = text::characters(e.as_str()).len();
                    match text::parse_number(e.as_str(), 0xffff_ffff) {
                        Some(n) => Some((n as u32, width)),
                        None => None,
                    }
                },
                None => None,
            },
            SplitKind::Aff4 => match &self.name {
                Some(name) => match part_number(name.as_str()) {
                    Some(n) => {
                        let chars = text::characters(name.as_str());
                        let (_, width) = last_run(&chars);
                        Some((n, width))
                    },
                    None => None,
                },
                None => None,
            },
        }
    }

    /// The part number of the file.
    fn number(&self, kind: SplitKind) -> (r: Option<u32>)
        ensures
            r == number_in(self@, kind),
    {
        match self.numbered(kind) {
            Some(p) => Some(p.0),
            None => None,
        }
    }
}

/// A part is put into its place among those already sorted.
fn place(sorted: &mut Vec<PartFile>, part: PartFile)
    ensures
        part_views(final(sorted)@) == placed(part_views(old(sorted)@), part@),
    decreases old(sorted)@.len(),
{
    let n: usize = sorted.len();
    let ghost before = part_views(sorted@);
    let ahead = n > 0 && sorted[n - 1].stands_to(&part) == Standing::After;
    if !ahead {
        sorted.push(part);
        proof {
            assert(part_views(sorted@) =~= before.push(part@));
        }
    } else {
        let last = sorted.pop();
        proof {
            assert(part_views(sorted@) =~= before.drop_last());
        }
        place(sorted, part);
        match last {
            Some(l) => {
                let ghost mid = part_views(sorted@);
                sorted.push(l);
                proof {
                    assert(l@ == before.last());
                    assert(part_views(sorted@) =~= mid.push(l@));
                }
            },
            None => {},
        }
    }
}

/// Parts in the order of their names.
fn sort(parts: Vec<PartFile>) -> (r: Vec<PartFile>)
    ensures
        part_views(r@) == in_order(part_views(parts@)),
{
    let mut r: Vec<PartFile> = Vec::new();
    let mut i: usize = 0;
    let ghost all = part_views(parts@);
    proof {
        assert(part_views(r@) =~= in_order(all.take(0)));
    }
    while i < parts.len()
        invariant
            i <= parts@.len(),
            all == part_views(parts@),
            part_views(r@) == in_order(all.take(i as int)),
        decreases parts@.len() - i,
    {
        let next = copied(&parts[i]);
        proof {
            assert(all.take(i + 1).drop_last() =~= all.take(i as int));
            assert(all.take(i + 1).last() == next@);
        }
        place(&mut r, next);
        i = i + 1;
    }
    proof {
        assert(all.take(i as int) =~= all);
    }
    r
}

/// A part, twice.
fn copied(part: &PartFile) -> (r: PartFile)
    ensures
        r@ == part@,
{
    PartFile {
        path: text::owned(part.path.as_str()),
        name: copied_text(&part.name),
        extension: copied_text(&part.extension),
    }
}

/// The first two neighbours that do not follow each other, where every part is
/// numbered.
fn find_gap(parts: &Vec<PartFile>, kind: SplitKind) -> (r: Option<(u32, u32)>)
    ensures
        (match r {
            Some(g) => all_numbered(part_views(parts@), kind) && first_gap(part_views(parts@), kind)
                == Some(g),
            None => !all_numbered(part_views(parts@), kind) || first_gap(part_views(parts@), kind)
                is None,
        }),
{
    let ghost all = part_views(parts@);
    let mut numbers: Vec<u32> = Vec::new();
    let mut i: usize = 0;
    while i < parts.len()
        invariant
            i <= parts@.len(),
            all == part_views(parts@),
            numbers@.len() == i,
            forall|k: int| 0 <= k < i ==> number_in(#[trigger] all[k], kind) == Some(numbers@[k]),
        decreases parts@.len() - i,
    {
        match parts[i].number(kind) {
            Some(n) => numbers.push(n),
            None => {
                proof {
                    assert(number_in(all[i as int], kind) is None);
                }
                return None;
            },
        }
        i = i + 1;
    }
    let mut j: usize = 1;
    proof {
        assert(all_numbered(all, kind));
        if all.len() >= 1 {
            assert(first_gap(all.take(1), kind) is None);
        }
    }
    while j < numbers.len()
        invariant
            1 <= j,
            all == part_views(parts@),
            numbers@.len() == all.len(),
            all_numbered(all, kind),
            forall|k: int|
                0 <= k < all.len() ==> number_in(#[trigger] all[k], kind) == Some(numbers@[k]),
            j <= all.len() ==> first_gap(all.take(j as int), kind) is None,
            j > all.len() ==> all.len() == 0,
        decreases numbers@.len() - j,
    {
        let a: u32 = numbers[j - 1];
        let b: u32 = numbers[j];
        proof {
            assert(all.take(j + 1).drop_last() =~= all.take(j as int));
            assert(all.take(j + 1)[j - 1] == all[j - 1]);
            assert(all.take(j + 1)[j as int] == all[j as int]);
        }
        if (b as u64) != (a as u64) + 1 {
            proof {
                gap_stays(all, kind, j + 1);
            }
            return Some((a, b));
        }
        j = j + 1;
    }
    proof {
        if all.len() > 0 {
            assert(all.take(j as int) =~= all);
        }
    }
    None
}

/// A gap among the first parts is the gap of the whole.
proof fn gap_stays(parts: Seq<PartView>, kind: SplitKind, n: int)
    requires
        0 <= n <= parts.len(),
        first_gap(parts.take(n), kind) is Some,
    ensures
        first_gap(parts, kind) == first_gap(parts.take(n), kind),
    decreases parts.len() - n,
{
    if n == parts.len() {
        assert(parts.take(n) =~= parts);
    } else {
        assert(parts.take(n + 1).drop_last() =~= parts.take(n));
        gap_stays(parts, kind, n + 1);
    }
}

/// A split set.
#[derive(Debug, Clone, PartialEq, Eq)]
pub struct SplitSet {
    /// Which kind it is.
    pub kind: SplitKind,
    /// Its parts, in order.
    pub parts: Vec<PartFile>,
    /// The number of its first part.
    pub first: Option<u32>,
    /// The number of its last part.
    pub last: Option<u32>,
}

impl View for SplitSet {
    type V = SetView;

    open spec fn view(&self) -> SetView {
        SetView {
            kind: self.kind,
            parts: part_views(self.parts@),
            first: self.first,
            last: self.last,
        }
    }
}

/// How a discovery is reported.
pub open spec fn reported(set: SetView) -> Seq<char> {
    match (set.first, set.last) {
        (Some(first), Some(last)) => {
            let width = if set.parts.len() > 0 {
                match number_and_width(set.parts[0], set.kind) {
                    Some(p) => p.1,
                    None => 0,
                }
            } else {
                0
            };
            "Found "@ + text::decimal(set.parts.len()) + " split files, numbered "@
                + text::zero_padded(text::decimal(first as nat), width) + " through "@
                + text::zero_padded(text::decimal(last as nat), width) + "."@
        },
        _ => "Found "@ + text::decimal(set.parts.len()) + " file(s); no part numbering."@,
    }
}

impl SplitSet {
    /// How the discovery is reported, the numbers as wide as they are in the names.
    pub fn discovery_line(&self) -> (r: String)
        ensures
            r@ == reported(self@),
    {
        let count = text::dec_usize(self.parts.len());
        match (self.first, self.last) {
            (Some(first), Some(last)) => {
                let width: usize = if self.parts.len() > 0 {
                    match self.parts[0].numbered(self.kind) {
                        Some(p) => p.1,
                        None => 0,
                    }
                } else {
                    0
                };
                let from = text::pad_zeros(text::dec(first as u64).as_str(), width);
                let to = text::pad_zeros(text::dec(last as u64).as_str(), width);
                text::cat7(
                    "Found ",
                    count.as_str(),
                    " split files, numbered ",
                    from.as_str(),
                    " through ",
                    to.as_str(),
                    ".",
                )
            },
            _ => text::cat3("Found ", count.as_str(), " file(s); no part numbering."),
        }
    }
}

/// The set that some files make up.
fn assemble(files: Vec<PartFile>, kind: SplitKind, dir: &str) -> (r: Result<SplitSet, Error>)
    requires
        files@.len() > 0,
    ensures
        (match r {
            Ok(set) => set_of(part_views(files@), kind, dir@) == Ok::<SetView, ErrorView>(set@),
            Err(e) => set_of(part_views(files@), kind, dir@) == Err::<SetView, ErrorView>(e@),
        }),
{
    let ghost all = part_views(files@);
    proof {
        parts_are_ordered(all);
    }
    let parts = sort(files);
    match find_gap(&parts, kind) {
        Some(gap) => {
            let a = text::dec(gap.0 as u64);
            let b = text::dec(gap.1 as u64);
            return Err(
                Error::malformed(
                    Locus::new(dir),
                    text::cat5(
                        "split set has a gap: part ",
                        a.as_str(),
                        " is followed by part ",
                        b.as_str(),
                        "; reassembly would silently omit data",
                    ),
                ),
            );
        },
        None => {},
    }
    let n: usize = parts.len();
    proof {
        assert(part_views(parts@).len() == n);
    }
    let first = parts[0].number(kind);
    let last = parts[n - 1].number(kind);
    Ok(SplitSet { kind, parts, first, last })
}

/// The split set in a folder, from the regular files in it. A folder without one,
/// with one of each kind, or with a gap in the numbering is refused.
pub fn discover(files: Vec<PartFile>, dir: &str) -> (r: Result<SplitSet, Error>)
    ensures
        (match r {
            Ok(set) => discovered(part_views(files@), dir@) == Ok::<SetView, ErrorView>(set@),
            Err(e) => discovered(part_views(files@), dir@) == Err::<SetView, ErrorView>(e@),
        }),
{
    let mut aff4: Vec<PartFile> = Vec::new();
    let mut raw: Vec<PartFile> = Vec::new();
    let ghost all = part_views(files@);
    let mut i: usize = 0;
    proof {
        assert(part_views(aff4@) =~= of_kind(all.take(0), SplitKind::Aff4));
        assert(part_views(raw@) =~= of_kind(all.take(0), SplitKind::RawSplit));
    }
    while i < files.len()
        invariant
            i <= files@.len(),
            all == part_views(files@),
            part_views(aff4@) == of_kind(all.take(i as int), SplitKind::Aff4),
            part_views(raw@) == of_kind(all.take(i as int), SplitKind::RawSplit),
        decreases files@.len() - i,
    {
        let part = copied(&files[i]);
        proof {
            assert(all.take(i + 1).drop_last() =~= all.take(i as int));
            assert(all.take(i + 1).last() == part@);
        }
        let ghost a = part_views(aff4@);
        let ghost b = part_views(raw@);
        match part.kind() {
            Some(SplitKind::Aff4) => {
                aff4.push(part);
                proof {
                    assert(part_views(aff4@) =~= a.push(part@));
                }
            },
            Some(SplitKind::RawSplit) => {
                raw.push(part);
                proof {
                    assert(part_views(raw@) =~= b.push(part@));
                }
            },
            None => {},
        }
        i = i + 1;
    }
    proof {
        assert(all.take(i as int) =~= all);
        assert(part_views(aff4@).len() == aff4@.len());
        assert(part_views(raw@).len() == raw@.len());
    }
    if aff4.len() > 0 && raw.len() > 0 {
        return Err(
            Error::malformed(
                Locus::new(dir),
                text::owned(
                    "this folder holds both an AFF4 set and a raw split set; name one file explicitly rather than the folder",
                ),
            ),
        );
    }
    if aff4.len() > 0 {
        assemble(aff4, SplitKind::Aff4, dir)
    } else if raw.len() > 0 {
        assemble(raw, SplitKind::RawSplit, dir)
    } else {
        Err(
            Error::malformed(
                Locus::new(dir),
                text::owned(
                    "no split set here: expected .aff4 parts or a raw set (.001, .002, \u{2026})",
                ),
            ),
        )
    }
}

} // verus!
