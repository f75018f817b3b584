//! The `version.txt` segment, in which a container declares its version.
//!
//! It holds pairs of a name and a value, in any order, with any line ending.
//! Containers older than the standard have none; that is a normal condition, and
//! no version is made up for them.

use vstd::prelude::*;

use crate::arn::{from_utf8_lossy, lossy_text};
use crate::error::{malformed, optional_text, Error, ErrorView, Locus, LocusView};
use crate::order::{before, before_is_asymmetric, before_is_total, before_is_transitive, is_before};
use crate::text;

verus! {

/// The segment's name, in the container's root.
pub const SEGMENT_NAME: &'static str = "version.txt";

/// Names with a value each, in the order of the names.
#[derive(Debug, PartialEq, Eq)]
pub struct Fields {
    entries: Vec<(String, String)>,
}

/// A place of a name in a list of pairs.
spec fn place_in(list: Seq<(String, String)>, k: Seq<char>) -> int {
    choose|i: int| 0 <= i < list.len() && (#[trigger] list[i]).0@ == k
}

/// What a list of pairs holds under each name.
spec fn held(list: Seq<(String, String)>) -> Map<Seq<char>, Seq<char>> {
    Map::new(
        |k: Seq<char>| exists|i: int| 0 <= i < list.len() && (#[trigger] list[i]).0@ == k,
        |k: Seq<char>| list[place_in(list, k)].1@,
    )
}

/// Whether names ascend, so that none occurs twice.
pub open spec fn ascending(list: Seq<(String, String)>) -> bool {
    forall|i: int, j: int|
        0 <= i < j < list.len() ==> before((#[trigger] list[i]).0@, (#[trigger] list[j]).0@)
}

/// In an ascending list, a name is at one place.
proof fn one_place(list: Seq<(String, String)>, i: int)
    requires
        ascending(list),
        0 <= i < list.len(),
    ensures
        held(list).contains_key(list[i].0@),
        held(list)[list[i].0@] == list[i].1@,
{
    let k = list[i].0@;
    assert(list[i].0@ == k);
    let j = place_in(list, k);
    assert(0 <= j < list.len() && list[j].0@ == k);
    if i < j {
        assert(before(list[i].0@, list[j].0@));
        before_is_asymmetric(k, k);
    } else if j < i {
        assert(before(list[j].0@, list[i].0@));
        before_is_asymmetric(k, k);
    }
}

impl View for Fields {
    type V = Map<Seq<char>, Seq<char>>;

    closed spec fn view(&self) -> Map<Seq<char>, Seq<char>> {
        held(self.entries@)
    }
}

impl Fields {
    /// Names ascend.
    #[verifier::type_invariant]
    closed spec fn in_order(self) -> bool {
        ascending(self.entries@)
    }

    /// No fields.
    pub fn new() -> (r: Self)
        ensures
            r@ == Map::<Seq<char>, Seq<char>>::empty(),
    {
        let entries: Vec<(String, String)> = Vec::new();
        proof {
            assert(held(entries@) =~= Map::<Seq<char>, Seq<char>>::empty());
        }
        Fields { entries }
    }

    /// Whether there is no field.
    pub fn is_empty(&self) -> (r: bool)
        ensures
            r == (self@ == Map::<Seq<char>, Seq<char>>::empty()),
    {
        proof {
            use_type_invariant(self);
            if self.entries@.len() > 0 {
                one_place(self.entries@, 0);
            } else {
                assert(held(self.entries@) =~= Map::<Seq<char>, Seq<char>>::empty());
            }
        }
        self.entries.len() == 0
    }

    /// The fields, in the order of their names.
    pub fn pairs(&self) -> (r: &Vec<(String, String)>)
        ensures
            ascending(r@),
            forall|i: int|
                0 <= i < r@.len() ==> self@.contains_key((#[trigger] r@[i]).0@) && self@[r@[i].0@]
                    == r@[i].1@,
            forall|k: Seq<char>| #[trigger]
                self@.contains_key(k) ==> exists|i: int| 0 <= i < r@.len() && (#[trigger] r@[i]).0@ == k,
    {
        proof {
            use_type_invariant(self);
            assert forall|i: int| 0 <= i < self.entries@.len() implies self@.contains_key(
                (#[trigger] self.entries@[i]).0@,
            ) && self@[self.entries@[i].0@] == self.entries@[i].1@ by {
                one_place(self.entries@, i);
            }
        }
        &self.entries
    }

    /// How many names come before a name.
    fn place(&self, name: &str) -> (r: usize)
        ensures
            r <= self.entries@.len(),
            forall|i: int| 0 <= i < r ==> before((#[trigger] self.entries@[i]).0@, name@),
            r < self.entries@.len() ==> !before(self.entries@[r as int].0@, name@),
    {
        let mut at: usize = 0;
        while at < self.entries.len() && is_before(self.entries[at].0.as_str(), name)
            invariant
                at <= self.entries@.len(),
                forall|i: int| 0 <= i < at ==> before((#[trigger] self.entries@[i]).0@, name@),
            decreases self.entries.len() - at,
        {
            at = at + 1;
        }
        at
    }

    /// The value under a name.
    pub fn get(&self, name: &str) -> (r: Option<&str>)
        ensures
            (match r {
                Some(v) => self@.contains_key(name@) && self@[name@] == v@,
                None => !self@.contains_key(name@),
            }),
    {
        proof {
            use_type_invariant(self);
        }
        let at = self.place(name);
        proof {
            found_at(self.entries@, name@, at as int);
        }
        if at < self.entries.len() && text::same(self.entries[at].0.as_str(), name) {
            Some(self.entries[at].1.as_str())
        } else {
            None
        }
    }

    /// Put a value under a name, in place of any value it had.
    pub fn insert(&mut self, name: &str, value: &str)
        ensures
            final(self)@ == old(self)@.insert(name@, value@),
    {
        let mut whole = Fields::new();
        std::mem::swap(self, &mut whole);
        proof {
            use_type_invariant(&whole);
        }
        let at = whole.place(name);
        let Fields { entries } = whole;
        let mut list = entries;
        let ghost before_list = list@;
        proof {
            found_at(list@, name@, at as int);
        }
        let pair = (text::owned(name), text::owned(value));
        if at < list.len() && text::same(list[at].0.as_str(), name) {
            list.set(at, pair);
            proof {
                replaced(before_list, at as int, pair);
            }
        } else {
            list.insert(at, pair);
            proof {
                inserted(before_list, at as int, pair);
            }
        }
        *self = Fields { entries: list };
    }

    /// Take the value under a name away.
    pub fn remove(&mut self, name: &str) -> (r: Option<String>)
        ensures
            (match r {
                Some(v) => old(self)@.contains_key(name@) && old(self)@[name@] == v@,
                None => !old(self)@.contains_key(name@),
            }),
            final(self)@ == old(self)@.remove(name@),
    {
        let mut whole = Fields::new();
        std::mem::swap(self, &mut whole);
        proof {
            use_type_invariant(&whole);
        }
        let at = whole.place(name);
        let Fields { entries } = whole;
        let mut list = entries;
        let ghost before_list = list@;
        proof {
            found_at(list@, name@, at as int);
        }
        if at < list.len() && text::same(list[at].0.as_str(), name) {
            let pair = list.remove(at);
            proof {
                removed(before_list, at as int);
            }
            *self = Fields { entries: list };
            Some(pair.1)
        } else {
            proof {
                assert(held(before_list).remove(name@) =~= held(before_list));
            }
            *self = Fields { entries: list };
            None
        }
    }
}

/// Where a name's place is, the name is there or nowhere.
proof fn found_at(list: Seq<(String, String)>, name: Seq<char>, at: int)
    requires
        ascending(list),
        0 <= at <= list.len(),
        forall|i: int| 0 <= i < at ==> before((#[trigger] list[i]).0@, name),
        at < list.len() ==> !before(list[at].0@, name),
    ensures
        held(list).contains_key(name) <==> at < list.len() && list[at].0@ == name,
        at < list.len() && list[at].0@ == name ==> held(list)[name] == list[at].1@,
        at < list.len() && list[at].0@ != name ==> before(name, list[at].0@),
{
    if at < list.len() && list[at].0@ == name {
        one_place(list, at);
    } else {
        if at < list.len() {
            before_is_total(list[at].0@, name);
        }
        assert forall|i: int| 0 <= i < list.len() implies (#[trigger] list[i]).0@ != name by {
            if i < at {
                before_is_asymmetric(name, name);
            } else if i > at {
                assert(before(list[at].0@, list[i].0@));
                before_is_transitive(name, list[at].0@, list[i].0@);
                before_is_asymmetric(name, name);
            }
        }
    }
}

/// A list that agrees with a map holds that map.
proof fn same_held(list: Seq<(String, String)>, m: Map<Seq<char>, Seq<char>>)
    requires
        ascending(list),
        forall|i: int|
            0 <= i < list.len() ==> m.contains_key((#[trigger] list[i]).0@) && m[list[i].0@]
                == list[i].1@,
        forall|k: Seq<char>| #[trigger]
            m.contains_key(k) ==> exists|i: int| 0 <= i < list.len() && (#[trigger] list[i]).0@ == k,
    ensures
        held(list) == m,
{
    assert forall|k: Seq<char>| #[trigger] held(list).contains_key(k) implies m.contains_key(k)
        && held(list)[k] == m[k] by {
        let i = choose|i: int| 0 <= i < list.len() && (#[trigger] list[i]).0@ == k;
        one_place(list, i);
    }
    assert(held(list) =~= m);
}

/// In an ascending list, different places have different names.
proof fn distinct_names(list: Seq<(String, String)>, i: int, j: int)
    requires
        ascending(list),
        0 <= i < list.len(),
        0 <= j < list.len(),
        i != j,
    ensures
        list[i].0@ != list[j].0@,
{
    if i < j {
        assert(before(list[i].0@, list[j].0@));
    } else {
        assert(before(list[j].0@, list[i].0@));
    }
    before_is_asymmetric(list[i].0@, list[i].0@);
}

/// A value replaced.
proof fn replaced(list: Seq<(String, String)>, at: int, pair: (String, String))
    requires
        ascending(list),
        0 <= at < list.len(),
        list[at].0@ == pair.0@,
    ensures
        ascending(list.update(at, pair)),
        held(list.update(at, pair)) == held(list).insert(pair.0@, pair.1@),
{
    let next = list.update(at, pair);
    let m = held(list).insert(pair.0@, pair.1@);
    assert(ascending(next));
    assert forall|i: int| 0 <= i < next.len() implies m.contains_key((#[trigger] next[i]).0@)
        && m[next[i].0@] == next[i].1@ by {
        one_place(list, i);
        if i != at {
            distinct_names(list, i, at);
        }
    }
    assert forall|k: Seq<char>| #[trigger] m.contains_key(k) implies exists|i: int|
        0 <= i < next.len() && (#[trigger] next[i]).0@ == k by {
        if k == pair.0@ {
            assert(next[at].0@ == k);
        } else {
            let i = choose|i: int| 0 <= i < list.len() && (#[trigger] list[i]).0@ == k;
            assert(next[i].0@ == k);
        }
    }
    same_held(next, m);
}

/// A value put in at its name's place.
proof fn inserted(list: Seq<(String, String)>, at: int, pair: (String, String))
    requires
        ascending(list),
        0 <= at <= list.len(),
        forall|i: int| 0 <= i < at ==> before((#[trigger] list[i]).0@, pair.0@),
        at < list.len() ==> before(pair.0@, list[at].0@),
        !held(list).contains_key(pair.0@),
    ensures
        ascending(list.insert(at, pair)),
        held(list.insert(at, pair)) == held(list).insert(pair.0@, pair.1@),
{
    let next = list.insert(at, pair);
    let m = held(list).insert(pair.0@, pair.1@);
    assert forall|i: int, j: int| 0 <= i < j < next.len() implies before(
        (#[trigger] next[i]).0@,
        (#[trigger] next[j]).0@,
    ) by {
        if i < at && j > at {
            assert(before(list[i].0@, list[j - 1].0@));
        } else if i == at {
            assert(next[j] == list[j - 1]);
            if j - 1 > at {
                assert(before(list[at].0@, list[j - 1].0@));
                before_is_transitive(pair.0@, list[at].0@, list[j - 1].0@);
            }
        } else if i > at {
            assert(before(list[i - 1].0@, list[j - 1].0@));
        } else if j == at {
            assert(next[i] == list[i]);
        }
    }
    assert forall|i: int| 0 <= i < next.len() implies m.contains_key((#[trigger] next[i]).0@)
        && m[next[i].0@] == next[i].1@ by {
        if i < at {
            assert(next[i] == list[i]);
            one_place(list, i);
        } else if i > at {
            assert(next[i] == list[i - 1]);
            one_place(list, i - 1);
        }
    }
    assert forall|k: Seq<char>| #[trigger] m.contains_key(k) implies exists|i: int|
        0 <= i < next.len() && (#[trigger] next[i]).0@ == k by {
        if k == pair.0@ {
            assert(next[at].0@ == k);
        } else {
            let i = choose|i: int| 0 <= i < list.len() && (#[trigger] list[i]).0@ == k;
            if i < at {
                assert(next[i].0@ == k);
            } else {
                assert(next[i + 1].0@ == k);
            }
        }
    }
    same_held(next, m);
}

/// A value taken away.
proof fn removed(list: Seq<(String, String)>, at: int)
    requires
        ascending(list),
        0 <= at < list.len(),
    ensures
        ascending(list.remove(at)),
        held(list.remove(at)) == held(list).remove(list[at].0@),
{
    let next = list.remove(at);
    let m = held(list).remove(list[at].0@);
    assert forall|i: int, j: int| 0 <= i < j < next.len() implies before(
        (#[trigger] next[i]).0@,
        (#[trigger] next[j]).0@,
    ) by {
        let a = if i < at { i } else { i + 1 };
        let b = if j < at { j } else { j + 1 };
        assert(next[i] == list[a] && next[j] == list[b]);
        assert(before(list[a].0@, list[b].0@));
    }
    assert forall|i: int| 0 <= i < next.len() implies m.contains_key((#[trigger] next[i]).0@)
        && m[next[i].0@] == next[i].1@ by {
        let a = if i < at { i } else { i + 1 };
        assert(next[i] == list[a]);
        one_place(list, a);
        distinct_names(list, a, at);
    }
    assert forall|k: Seq<char>| #[trigger] m.contains_key(k) implies exists|i: int|
        0 <= i < next.len() && (#[trigger] next[i]).0@ == k by {
        let i = choose|i: int| 0 <= i < list.len() && (#[trigger] list[i]).0@ == k;
        let b = if i < at { i } else { i - 1 };
        assert(next[b].0@ == k);
    }
    same_held(next, m);
}

/// Where a character first occurs.
pub open spec fn first_place(s: Seq<char>, c: char) -> Option<int>
    decreases s.len(),
{
    if s.len() == 0 {
        None
    } else if s[0] == c {
        Some(0)
    } else {
        match first_place(s.skip(1), c) {
            Some(i) => Some(i + 1),
            None => None,
        }
    }
}

/// Where a character first occurs.
fn find_first(chars: &Vec<char>, c: char) -> (r: Option<usize>)
    ensures
        (match r {
            Some(i) => first_place(chars@, c) == Some(i as int) && i < chars@.len(),
            None => first_place(chars@, c) is None,
        }),
{
    let mut i: usize = 0;
    proof {
        assert(chars@.skip(0) =~= chars@);
    }
    while i < chars.len()
        invariant
            i <= chars.len(),
            (match first_place(chars@.skip(i as int), c) {
                Some(k) => first_place(chars@, c) == Some(k + i),
                None => first_place(chars@, c) is None,
            }),
        decreases chars.len() - i,
    {
        proof {
            assert(chars@.skip(i as int)[0] == chars@[i as int]);
            assert(chars@.skip(i as int).skip(1) =~= chars@.skip(i + 1));
        }
        if chars[i] == c {
            return Some(i);
        }
        i = i + 1;
    }
    None
}

/// The fields that lines of a name and a value hold, a later value in place of an
/// earlier one; or the first line that is no such pair.
pub open spec fn fields_of(lines: Seq<Seq<char>>) -> Result<Map<Seq<char>, Seq<char>>, Seq<char>>
    decreases lines.len(),
{
    if lines.len() == 0 {
        Ok(Map::empty())
    } else {
        match fields_of(lines.drop_last()) {
            Err(line) => Err(line),
            Ok(m) => match first_place(lines.last(), '=') {
                None => Err(lines.last()),
                Some(i) => Ok(
                    m.insert(
                        text::trimmed(lines.last().take(i)),
                        text::trimmed(lines.last().skip(i + 1)),
                    ),
                ),
            },
        }
    }
}

/// A line that is no pair stays the first such line.
proof fn fault_stays(lines: Seq<Seq<char>>, n: int)
    requires
        0 <= n <= lines.len(),
        fields_of(lines.take(n)) is Err,
    ensures
        fields_of(lines) == fields_of(lines.take(n)),
    decreases lines.len(),
{
    if n == lines.len() {
        assert(lines.take(n) =~= lines);
    } else {
        assert(lines.drop_last().take(n) =~= lines.take(n));
        fault_stays(lines.drop_last(), n);
    }
}

/// What a declaration of a version holds, as plain values.
#[verifier::ext_equal]
pub struct VersionView {
    /// Major version.
    pub major: u32,
    /// Minor version.
    pub minor: u32,
    /// The producing tool.
    pub tool: Option<Seq<char>>,
    /// The other fields.
    pub extra: Map<Seq<char>, Seq<char>>,
}

/// A number under a name, or why there is none.
pub open spec fn number_field(
    fields: Map<Seq<char>, Seq<char>>,
    name: Seq<char>,
    locus: LocusView,
) -> Result<u32, ErrorView> {
    if !fields.contains_key(name) {
        Err(
            malformed(
                locus,
                SEGMENT_NAME@ + " has no "@ + name + " field (spec §1 requires it)"@,
            ),
        )
    } else {
        match text::number_of(fields[name], u32::MAX as nat) {
            Some(n) => Ok(n as u32),
            None => Err(
                malformed(
                    locus,
                    SEGMENT_NAME@ + " "@ + name + "="@ + text::debug_text(fields[name])
                        + " is not a non-negative integer"@,
                ),
            ),
        }
    }
}

/// The version that a `version.txt` declares, or why it declares none.
pub open spec fn version_of(bytes: Seq<u8>, locus: LocusView) -> Result<VersionView, ErrorView> {
    match fields_of(text::content_lines(lossy_text(bytes))) {
        Err(line) => Err(
            malformed(
                locus,
                SEGMENT_NAME@ + " line "@ + text::debug_text(line)
                    + " is not a name=value pair (spec §1 requires '=' separated pairs)"@,
            ),
        ),
        Ok(fields) => if fields == Map::<Seq<char>, Seq<char>>::empty() {
            Err(malformed(locus, SEGMENT_NAME@ + " is empty; spec §1 requires major and minor"@))
        } else {
            match number_field(fields, "major"@, locus) {
                Err(e) => Err(e),
                Ok(major) => match number_field(fields.remove("major"@), "minor"@, locus) {
                    Err(e) => Err(e),
                    Ok(minor) => {
                        let rest = fields.remove("major"@).remove("minor"@);
                        Ok(
                            VersionView {
                                major,
                                minor,
                                tool: if rest.contains_key("tool"@) && rest["tool"@].len() > 0 {
                                    Some(rest["tool"@])
                                } else {
                                    None
                                },
                                extra: rest.remove("tool"@),
                            },
                        )
                    },
                },
            }
        },
    }
}

/// A parsed `version.txt`.
#[derive(Debug, PartialEq, Eq)]
pub struct ContainerVersion {
    /// Major version: 1 for the AFF4 Standard v1.0a, 2 for the AFF4-L Standard
    /// v1.0-ALPHA.
    pub major: u32,
    /// Minor version.
    pub minor: u32,
    /// The producing tool as it names itself. It carries no meaning for the
    /// format, so it may be absent.
    pub tool: Option<String>,
    /// The other fields: vendors put deviations here.
    pub extra: Fields,
}

impl View for ContainerVersion {
    type V = VersionView;

    open spec fn view(&self) -> VersionView {
        VersionView {
            major: self.major,
            minor: self.minor,
            tool: optional_text(self.tool),
            extra: self.extra@,
        }
    }
}

/// Take a number out of the fields.
fn take_number(fields: &mut Fields, name: &str, locus: &Locus) -> (r: Result<u32, Error>)
    ensures
        (match r {
            Ok(n) => number_field(old(fields)@, name@, locus@) == Ok::<u32, ErrorView>(n),
            Err(e) => number_field(old(fields)@, name@, locus@) == Err::<u32, ErrorView>(e@),
        }),
        final(fields)@ == old(fields)@.remove(name@),
{
    let raw = match fields.remove(name) {
        Some(raw) => raw,
        None => return Err(
            Error::malformed(
                locus.clone(),
                text::cat4(SEGMENT_NAME, " has no ", name, " field (spec §1 requires it)"),
            ),
        ),
    };
    match text::parse_number(raw.as_str(), 0xffff_ffff) {
        Some(n) => Ok(n as u32),
        None => Err(
            Error::malformed(
                locus.clone(),
                text::cat6(
                    SEGMENT_NAME,
                    " ",
                    name,
                    "=",
                    text::debug_quoted(raw.as_str()).as_str(),
                    " is not a non-negative integer",
                ),
            ),
        ),
    }
}

/// The fields of a `version.txt`.
fn parse_fields(lines: &Vec<String>, locus: &Locus) -> (r: Result<Fields, Error>)
    ensures
        (match r {
            Ok(f) => fields_of(text::texts(lines@)) == Ok::<Map<Seq<char>, Seq<char>>, Seq<char>>(
                f@,
            ),
            Err(e) => fields_of(text::texts(lines@)) is Err && e@ == malformed(
                locus@,
                SEGMENT_NAME@ + " line "@ + text::debug_text(
                    fields_of(text::texts(lines@))->Err_0,
                ) + " is not a name=value pair (spec §1 requires '=' separated pairs)"@,
            ),
        }),
{
    let ghost all = text::texts(lines@);
    let mut fields = Fields::new();
    let mut i: usize = 0;
    proof {
        assert(all.take(0) =~= Seq::<Seq<char>>::empty());
    }
    while i < lines.len()
        invariant
            i <= lines.len(),
            all == text::texts(lines@),
            fields_of(all.take(i as int)) == Ok::<Map<Seq<char>, Seq<char>>, Seq<char>>(fields@),
        decreases lines.len() - i,
    {
        let line = lines[i].as_str();
        let chars = text::characters(line);
        proof {
            assert(all.take(i + 1).drop_last() =~= all.take(i as int));
            assert(all.take(i + 1).last() == line@);
        }
        match find_first(&chars, '=') {
            None => {
                proof {
                    fault_stays(all, i + 1);
                }
                return Err(
                    Error::malformed(
                        locus.clone(),
                        text::cat4(
                            SEGMENT_NAME,
                            " line ",
                            text::debug_quoted(line).as_str(),
                            " is not a name=value pair (spec §1 requires '=' separated pairs)",
                        ),
                    ),
                );
            },
            Some(at) => {
                let name = text::trim(text::spelled_range(&chars, 0, at).as_str());
                let value = text::trim(text::spelled_range(&chars, at + 1, chars.len()).as_str());
                fields.insert(name.as_str(), value.as_str());
                proof {
                    assert(chars@.subrange(0, at as int) =~= line@.take(at as int));
                    assert(chars@.subrange(at + 1, chars@.len() as int) =~= line@.skip(at + 1));
                }
            },
        }
        i = i + 1;
    }
    proof {
        assert(all.take(i as int) =~= all);
    }
    Ok(fields)
}

impl ContainerVersion {
    /// Parse the contents of a `version.txt`.
    ///
    /// Bytes that spell no text do not make a container unreadable: they show as
    /// replacement characters. A container that cannot state its version is
    /// malformed.
    pub fn parse(bytes: &[u8], locus: &Locus) -> (r: Result<ContainerVersion, Error>)
        ensures
            (match r {
                Ok(v) => version_of(bytes@, locus@) == Ok::<VersionView, ErrorView>(v@),
                Err(e) => version_of(bytes@, locus@) == Err::<VersionView, ErrorView>(e@),
            }),
    {
        let content = from_utf8_lossy(bytes);
        let lines = text::lines(content.as_str());
        let mut fields = match parse_fields(&lines, locus) {
            Ok(fields) => fields,
            Err(e) => return Err(e),
        };
        if fields.is_empty() {
            return Err(
                Error::malformed(
                    locus.clone(),
                    text::cat2(SEGMENT_NAME, " is empty; spec §1 requires major and minor"),
                ),
            );
        }
        let major = match take_number(&mut fields, "major", locus) {
            Ok(n) => n,
            Err(e) => return Err(e),
        };
        let minor = match take_number(&mut fields, "minor", locus) {
            Ok(n) => n,
            Err(e) => return Err(e),
        };
        let tool = match fields.remove("tool") {
            Some(tool) => if tool.as_str().unicode_len() > 0 {
                Some(tool)
            } else {
                None
            },
            None => None,
        };
        Ok(ContainerVersion { major, minor, tool, extra: fields })
    }

    /// Whether this is the AFF4 Standard v1.0a.
    pub fn is_v1_0(&self) -> (r: bool)
        ensures
            r == (self.major == 1 && self.minor == 0),
    {
        self.major == 1 && self.minor == 0
    }

    /// Whether this is the version that logical containers declared before one was
    /// assigned to them.
    pub fn is_v1_1(&self) -> (r: bool)
        ensures
            r == (self.major == 1 && self.minor == 1),
    {
        self.major == 1 && self.minor == 1
    }

    /// Whether this is the AFF4-L Standard v1.0-ALPHA.
    pub fn is_v2_1(&self) -> (r: bool)
        ensures
            r == (self.major == 2 && self.minor == 1),
    {
        self.major == 2 && self.minor == 1
    }

    /// Whether the declared version is one that this library knows.
    pub fn is_known(&self) -> (r: bool)
        ensures
            r == (self.major == 1 && (self.minor == 0 || self.minor == 1) || self.major == 2
                && self.minor == 1),
    {
        self.is_v1_0() || self.is_v1_1() || self.is_v2_1()
    }

    /// The version and, in brackets, the tool.
    pub fn to_string(&self) -> (r: String)
        ensures
            r@ == text::decimal(self.major as nat) + "."@ + text::decimal(self.minor as nat) + (
            match optional_text(self.tool) {
                Some(tool) => " ("@ + tool + ")"@,
                None => Seq::empty(),
            }),
    {
        let number = text::cat3(
            text::dec(self.major as u64).as_str(),
            ".",
            text::dec(self.minor as u64).as_str(),
        );
        match &self.tool {
            Some(tool) => text::cat2(
                number.as_str(),
                text::cat3(" (", tool.as_str(), ")").as_str(),
            ),
            None => {
                proof {
                    assert(number@ + Seq::<char>::empty() =~= number@);
                }
                number
            },
        }
    }
}

/// What lies between line ends in two texts, with a line end between them, is what
/// does in the one and what does in the other.
proof fn pieces_join(a: Seq<char>, end: char, b: Seq<char>)
    requires
        end == '\n' || end == '\r',
    ensures
        text::pieces(a.push(end) + b, '\n', '\r') == text::pieces(a, '\n', '\r')
            + text::pieces(b, '\n', '\r'),
    decreases b.len(),
{
    let s = a.push(end) + b;
    let first = text::pieces(a, '\n', '\r');
    if b.len() == 0 {
        assert(s.drop_last() =~= a);
        assert(s.last() == end);
    } else {
        pieces_join(a, end, b.drop_last());
        text::pieces_not_empty(b.drop_last(), '\n', '\r');
        assert(s.drop_last() =~= a.push(end) + b.drop_last());
        assert(s.last() == b.last());
        let shorter = text::pieces(b.drop_last(), '\n', '\r');
        assert((first + shorter).drop_last() =~= first + shorter.drop_last());
        assert((first + shorter).last() == shorter.last());
        assert(text::pieces(s, '\n', '\r') =~= first + text::pieces(b, '\n', '\r'));
    }
}

/// The lines with content of two lists are those of the one and those of the other.
proof fn contents_join(a: Seq<Seq<char>>, b: Seq<Seq<char>>)
    ensures
        text::trimmed_nonempty(a + b) == text::trimmed_nonempty(a) + text::trimmed_nonempty(b),
    decreases b.len(),
{
    if b.len() == 0 {
        assert(a + b =~= a);
        assert(text::trimmed_nonempty(a) + text::trimmed_nonempty(b) =~= text::trimmed_nonempty(a));
    } else {
        contents_join(a, b.drop_last());
        assert((a + b).drop_last() =~= a + b.drop_last());
        assert((a + b).last() == b.last());
        assert(text::trimmed_nonempty(a + b) =~= text::trimmed_nonempty(a)
            + text::trimmed_nonempty(b));
    }
}

/// The lines with content of a text are those before a line end and those after it.
proof fn lines_join(a: Seq<char>, end: char, b: Seq<char>)
    requires
        end == '\n' || end == '\r',
    ensures
        text::content_lines(a.push(end) + b) == text::content_lines(a) + text::content_lines(b),
{
    pieces_join(a, end, b);
    contents_join(text::pieces(a, '\n', '\r'), text::pieces(b, '\n', '\r'));
}

/// What ends a line does not matter to the version that is read: a line feed, a
/// carriage return, or both.
pub proof fn line_ends_do_not_matter(
    x: Seq<u8>,
    y: Seq<u8>,
    z: Seq<u8>,
    a: Seq<char>,
    b: Seq<char>,
    locus: LocusView,
)
    requires
        lossy_text(x) == a.push('\n') + b,
        lossy_text(y) == a.push('\r') + b,
        lossy_text(z) == a.push('\r').push('\n') + b,
    ensures
        version_of(x, locus) == version_of(y, locus),
        version_of(x, locus) == version_of(z, locus),
{
    lines_join(a, '\n', b);
    lines_join(a, '\r', b);
    lines_join(a.push('\r'), '\n', b);
    let none = Seq::<char>::empty();
    assert(a.push('\r') + none =~= a.push('\r'));
    lines_join(a, '\r', none);
    assert(text::pieces(none, '\n', '\r') =~= seq![none]);
    assert(text::trimmed(none) =~= none);
    assert(text::trimmed_nonempty(seq![none]) =~= Seq::<Seq<char>>::empty()) by {
        reveal_with_fuel(text::trimmed_nonempty, 2);
        assert(seq![none].drop_last() =~= Seq::<Seq<char>>::empty());
        assert(seq![none].last() == none);
    }
    assert(text::content_lines(a) + Seq::<Seq<char>>::empty() =~= text::content_lines(a));
}

/// A line with nothing in it does not matter to the version that is read.
pub proof fn blank_lines_do_not_matter(
    x: Seq<u8>,
    y: Seq<u8>,
    a: Seq<char>,
    blank: Seq<char>,
    b: Seq<char>,
    locus: LocusView,
)
    requires
        text::content_lines(blank).len() == 0,
        lossy_text(x) == a.push('\n') + b,
        lossy_text(y) == a.push('\n') + blank.push('\n') + b,
    ensures
        version_of(x, locus) == version_of(y, locus),
{
    lines_join(a, '\n', b);
    lines_join(a, '\n', blank.push('\n') + b);
    lines_join(blank, '\n', b);
    assert(a.push('\n') + blank.push('\n') + b =~= a.push('\n') + (blank.push('\n') + b));
    assert(text::content_lines(blank) + text::content_lines(b) =~= text::content_lines(b));
}

/// The name that a line gives a value to, if it does.
pub open spec fn line_name(line: Seq<char>) -> Option<Seq<char>> {
    match first_place(line, '=') {
        None => None,
        Some(i) => Some(text::trimmed(line.take(i))),
    }
}

/// Lines that give the same fields go on giving the same.
proof fn fields_go_on(a: Seq<Seq<char>>, b: Seq<Seq<char>>, more: Seq<Seq<char>>)
    requires
        fields_of(a) == fields_of(b),
    ensures
        fields_of(a + more) == fields_of(b + more),
    decreases more.len(),
{
    if more.len() == 0 {
        assert(a + more =~= a);
        assert(b + more =~= b);
    } else {
        fields_go_on(a, b, more.drop_last());
        assert((a + more).drop_last() =~= a + more.drop_last());
        assert((b + more).drop_last() =~= b + more.drop_last());
        assert((a + more).last() == more.last());
        assert((b + more).last() == more.last());
    }
}

/// The order of lines does not matter to the version that is read: two neighbours that
/// name different fields may change places, wherever they stand.
pub proof fn line_order_does_not_matter(
    x: Seq<u8>,
    y: Seq<u8>,
    before: Seq<Seq<char>>,
    one: Seq<char>,
    other: Seq<char>,
    after: Seq<Seq<char>>,
    locus: LocusView,
)
    requires
        line_name(one) != line_name(other),
        text::content_lines(lossy_text(x)) == before.push(one).push(other) + after,
        text::content_lines(lossy_text(y)) == before.push(other).push(one) + after,
    ensures
        version_of(x, locus) == version_of(y, locus),
{
    let p = before.push(one).push(other);
    let q = before.push(other).push(one);
    assert(p.drop_last() =~= before.push(one));
    assert(q.drop_last() =~= before.push(other));
    assert(before.push(one).drop_last() =~= before);
    assert(before.push(other).drop_last() =~= before);
    match (fields_of(before), first_place(one, '='), first_place(other, '=')) {
        (Ok(m), Some(i), Some(j)) => {
            let a = (text::trimmed(one.take(i)), text::trimmed(one.skip(i + 1)));
            let b = (text::trimmed(other.take(j)), text::trimmed(other.skip(j + 1)));
            assert(m.insert(a.0, a.1).insert(b.0, b.1) =~= m.insert(b.0, b.1).insert(a.0, a.1));
        },
        _ => {},
    }
    assert(p.last() == other && q.last() == one);
    assert(before.push(one).last() == one && before.push(other).last() == other);
    assert(fields_of(p) == fields_of(q)) by {
        reveal_with_fuel(fields_of, 3);
    }
    fields_go_on(p, q, after);
}

/// Whether a character ends a line.
pub open spec fn ends_line(c: char) -> bool {
    c == '\n' || c == '\r'
}

/// Whether a text is made of line ends.
pub open spec fn all_line_ends(s: Seq<char>) -> bool {
    forall|i: int| 0 <= i < s.len() ==> ends_line(#[trigger] s[i])
}

/// Whether no character of a text ends a line.
pub open spec fn one_line(s: Seq<char>) -> bool {
    forall|i: int| 0 <= i < s.len() ==> !ends_line(#[trigger] s[i])
}

/// A text of lines, each with what ends it behind it.
pub open spec fn laid_out(lines: Seq<Seq<char>>, ends: Seq<Seq<char>>) -> Seq<char>
    decreases lines.len(),
{
    if lines.len() == 0 {
        Seq::empty()
    } else {
        laid_out(lines.drop_last(), ends) + (lines.last() + ends[lines.len() - 1])
    }
}

/// Whether lines and what ends them make up a text: each line is one, and one line end
/// or more stands behind it, whichever they are. Behind the last there need be none.
pub open spec fn well_laid(lines: Seq<Seq<char>>, ends: Seq<Seq<char>>) -> bool {
    &&& lines.len() == ends.len()
    &&& forall|i: int| 0 <= i < lines.len() ==> one_line(#[trigger] lines[i])
    &&& forall|i: int|
        0 <= i < ends.len() ==> all_line_ends(#[trigger] ends[i]) && (i < ends.len() - 1
            ==> ends[i].len() > 0)
}

/// A line has itself for its only piece.
proof fn line_is_one_piece(s: Seq<char>)
    requires
        one_line(s),
    ensures
        text::pieces(s, '\n', '\r') == seq![s],
    decreases s.len(),
{
    if s.len() > 0 {
        let front = s.drop_last();
        assert forall|i: int| 0 <= i < front.len() implies !ends_line(#[trigger] front[i]) by {
            assert(front[i] == s[i]);
        }
        line_is_one_piece(front);
        assert(!ends_line(s[s.len() - 1]));
        let shorter = text::pieces(front, '\n', '\r');
        assert(front.push(s.last()) =~= s);
        assert(shorter.drop_last().push(shorter.last().push(s.last())) =~= seq![s]);
    } else {
        assert(s =~= Seq::<char>::empty());
    }
}

/// A text without content has no line with content.
proof fn nothing_has_no_line()
    ensures
        text::content_lines(Seq::empty()) == Seq::<Seq<char>>::empty(),
{
    let none = Seq::<char>::empty();
    line_is_one_piece(none);
    assert(text::trimmed(none) =~= none);
    reveal_with_fuel(text::trimmed_nonempty, 2);
    assert(seq![none].drop_last() =~= Seq::<Seq<char>>::empty());
    assert(seq![none].last() == none);
}

/// Line ends before a text add no line with content.
proof fn line_ends_add_nothing(ends: Seq<char>, rest: Seq<char>)
    requires
        all_line_ends(ends),
    ensures
        text::content_lines(ends + rest) == text::content_lines(rest),
    decreases ends.len(),
{
    if ends.len() == 0 {
        assert(ends + rest =~= rest);
    } else {
        let more = ends.skip(1);
        assert forall|i: int| 0 <= i < more.len() implies ends_line(#[trigger] more[i]) by {
            assert(more[i] == ends[i + 1]);
        }
        line_ends_add_nothing(more, rest);
        let none = Seq::<char>::empty();
        assert(ends_line(ends[0]));
        lines_join(none, ends[0], more + rest);
        nothing_has_no_line();
        assert(none.push(ends[0]) + (more + rest) =~= ends + rest);
        assert(Seq::<Seq<char>>::empty() + text::content_lines(rest) =~= text::content_lines(
            rest,
        ));
    }
}

/// A line with line ends behind it, and then a text, has the line and the lines of the
/// text.
proof fn line_and_rest(line: Seq<char>, ends: Seq<char>, rest: Seq<char>)
    requires
        one_line(line),
        all_line_ends(ends),
        ends.len() > 0 || rest.len() == 0,
    ensures
        text::content_lines(line + ends + rest) == text::trimmed_nonempty(seq![line])
            + text::content_lines(rest),
{
    line_is_one_piece(line);
    if ends.len() == 0 {
        assert(line + ends + rest =~= line);
        assert(rest =~= Seq::<char>::empty());
        nothing_has_no_line();
        assert(text::content_lines(line) + Seq::<Seq<char>>::empty() =~= text::content_lines(line));
    } else {
        let more = ends.skip(1);
        assert forall|i: int| 0 <= i < more.len() implies ends_line(#[trigger] more[i]) by {
            assert(more[i] == ends[i + 1]);
        }
        assert(ends_line(ends[0]));
        lines_join(line, ends[0], more + rest);
        line_ends_add_nothing(more, rest);
        assert(line.push(ends[0]) + (more + rest) =~= line + ends + rest);
    }
}

/// Lines that are laid out, and a text behind them, have the lines with content and the
/// lines of the text.
proof fn laid_out_and_rest(lines: Seq<Seq<char>>, ends: Seq<Seq<char>>, rest: Seq<char>)
    requires
        lines.len() <= ends.len(),
        forall|i: int| 0 <= i < lines.len() ==> one_line(#[trigger] lines[i]),
        forall|i: int|
            0 <= i < lines.len() ==> all_line_ends(#[trigger] ends[i]) && (ends[i].len() > 0 || (i
                == lines.len() - 1 && rest.len() == 0)),
    ensures
        text::content_lines(laid_out(lines, ends) + rest) == text::trimmed_nonempty(lines)
            + text::content_lines(rest),
    decreases lines.len(),
{
    if lines.len() == 0 {
        assert(laid_out(lines, ends) + rest =~= rest);
        assert(text::trimmed_nonempty(lines) + text::content_lines(rest) =~= text::content_lines(
            rest,
        ));
    } else {
        let front = lines.drop_last();
        let line = lines.last();
        let end = ends[lines.len() - 1];
        let behind = line + end + rest;
        assert(one_line(lines[lines.len() - 1]));
        assert forall|i: int| 0 <= i < front.len() implies one_line(#[trigger] front[i]) by {
            assert(front[i] == lines[i]);
        }
        laid_out_and_rest(front, ends, behind);
        line_and_rest(line, end, rest);
        assert(laid_out(lines, ends) + rest =~= laid_out(front, ends) + behind);
        contents_join(front, seq![line]);
        assert(front + seq![line] =~= lines);
        let a = text::trimmed_nonempty(front);
        let b = text::trimmed_nonempty(seq![line]);
        assert(a + (b + text::content_lines(rest)) =~= (a + b) + text::content_lines(rest));
    }
}

/// The value that a line gives, if it gives one.
pub open spec fn line_value(line: Seq<char>) -> Seq<char> {
    text::trimmed(line.skip(first_place(line, '=')->Some_0 + 1))
}

/// Whether lines name different fields.
pub open spec fn names_differ(lines: Seq<Seq<char>>) -> bool {
    forall|i: int, j: int|
        0 <= i < lines.len() && 0 <= j < lines.len() && line_name(#[trigger] lines[i])
            == line_name(#[trigger] lines[j]) ==> i == j
}

/// Whether a line gives a field some value.
spec fn gives(line: Seq<char>, name: Seq<char>, value: Seq<char>) -> bool {
    line_name(line) == Some(name) && line_value(line) == value
}

/// Whether one of some lines gives a field some value.
spec fn some_gives(lines: Seq<Seq<char>>, name: Seq<char>, value: Seq<char>) -> bool {
    exists|i: int| 0 <= i < lines.len() && gives(#[trigger] lines[i], name, value)
}

/// Whether one of some lines names a field.
spec fn some_names(lines: Seq<Seq<char>>, name: Seq<char>) -> bool {
    exists|i: int| 0 <= i < lines.len() && line_name(#[trigger] lines[i]) == Some(name)
}

/// Fields are there exactly where every line is a pair; they are those that the lines
/// name, each with a value that a line gives it.
proof fn fields_are_those_of_lines(lines: Seq<Seq<char>>)
    ensures
        fields_of(lines) is Ok <==> forall|i: int|
            0 <= i < lines.len() ==> line_name(#[trigger] lines[i]) is Some,
        fields_of(lines) is Ok ==> forall|k: Seq<char>|
            fields_of(lines)->Ok_0.contains_key(k) <==> #[trigger] some_names(lines, k),
        fields_of(lines) is Ok ==> forall|k: Seq<char>| #[trigger]
            fields_of(lines)->Ok_0.contains_key(k) ==> some_gives(
                lines,
                k,
                fields_of(lines)->Ok_0[k],
            ),
    decreases lines.len(),
{
    if lines.len() > 0 {
        let front = lines.drop_last();
        let last = lines.last();
        fields_are_those_of_lines(front);
        assert(lines[lines.len() - 1] == last);
        assert forall|i: int| 0 <= i < front.len() implies #[trigger] front[i] == lines[i] by {}
        if fields_of(front) is Ok {
            if forall|i: int| 0 <= i < lines.len() ==> line_name(#[trigger] lines[i]) is Some {
                assert(line_name(lines[lines.len() - 1]) is Some);
            }
        } else {
            if forall|i: int| 0 <= i < lines.len() ==> line_name(#[trigger] lines[i]) is Some {
                assert forall|i: int| 0 <= i < front.len() implies line_name(
                    #[trigger] front[i],
                ) is Some by {
                    assert(line_name(lines[i]) is Some);
                }
            }
        }
        if fields_of(lines) is Ok {
            let m = fields_of(front)->Ok_0;
            let now = fields_of(lines)->Ok_0;
            let name = line_name(last)->Some_0;
            assert(now == m.insert(name, line_value(last)));
            assert forall|i: int| 0 <= i < lines.len() implies line_name(
                #[trigger] lines[i],
            ) is Some by {
                if i < front.len() {
                    assert(line_name(front[i]) is Some);
                }
            }
            assert forall|k: Seq<char>| now.contains_key(k) <==> #[trigger] some_names(
                lines,
                k,
            ) by {
                if k == name {
                    assert(line_name(lines[lines.len() - 1]) == Some(k));
                } else if some_names(lines, k) {
                    let i = choose|i: int|
                        0 <= i < lines.len() && line_name(#[trigger] lines[i]) == Some(k);
                    assert(line_name(front[i]) == Some(k));
                    assert(some_names(front, k));
                } else if some_names(front, k) {
                    let i = choose|i: int|
                        0 <= i < front.len() && line_name(#[trigger] front[i]) == Some(k);
                    assert(line_name(lines[i]) == Some(k));
                }
            }
            assert forall|k: Seq<char>| #[trigger] now.contains_key(k) implies some_gives(
                lines,
                k,
                now[k],
            ) by {
                if k == name {
                    assert(gives(lines[lines.len() - 1], k, now[k]));
                } else {
                    assert(m.contains_key(k));
                    let i = choose|i: int|
                        0 <= i < front.len() && gives(#[trigger] front[i], k, m[k]);
                    assert(gives(lines[i], k, now[k]));
                }
            }
        }
    }
}

/// A line of some lines is among any others that are the same lines in another order.
proof fn line_is_among(a: Seq<Seq<char>>, b: Seq<Seq<char>>, i: int) -> (j: int)
    requires
        a.to_multiset() == b.to_multiset(),
        0 <= i < a.len(),
    ensures
        0 <= j < b.len(),
        b[j] == a[i],
{
    broadcast use vstd::seq_lib::group_to_multiset_ensures;

    assert(a.contains(a[i]));
    assert(a.to_multiset().count(a[i]) > 0);
    assert(b.contains(a[i]));
    choose|j: int| 0 <= j < b.len() && b[j] == a[i]
}

/// Lines that name different fields give the same fields in any order.
proof fn order_gives_same_fields(a: Seq<Seq<char>>, b: Seq<Seq<char>>)
    requires
        a.to_multiset() == b.to_multiset(),
        names_differ(a),
        fields_of(a) is Ok,
    ensures
        fields_of(a) == fields_of(b),
{
    fields_are_those_of_lines(a);
    fields_are_those_of_lines(b);
    assert forall|i: int| 0 <= i < b.len() implies line_name(#[trigger] b[i]) is Some by {
        let j = line_is_among(b, a, i);
        assert(line_name(a[j]) is Some);
    }
    let x = fields_of(a)->Ok_0;
    let y = fields_of(b)->Ok_0;
    assert forall|k: Seq<char>| x.contains_key(k) <==> y.contains_key(k) by {
        if some_names(a, k) {
            let i = choose|i: int| 0 <= i < a.len() && line_name(#[trigger] a[i]) == Some(k);
            let j = line_is_among(a, b, i);
            assert(line_name(b[j]) == Some(k));
            assert(some_names(b, k));
        }
        if some_names(b, k) {
            let i = choose|i: int| 0 <= i < b.len() && line_name(#[trigger] b[i]) == Some(k);
            let j = line_is_among(b, a, i);
            assert(line_name(a[j]) == Some(k));
            assert(some_names(a, k));
        }
    }
    assert forall|k: Seq<char>| x.contains_key(k) implies x[k] == y[k] by {
        assert(y.contains_key(k));
        let i = choose|i: int| 0 <= i < a.len() && gives(#[trigger] a[i], k, x[k]);
        let j = choose|j: int| 0 <= j < b.len() && gives(#[trigger] b[j], k, y[k]);
        let m = line_is_among(b, a, j);
        assert(line_name(a[m]) == line_name(a[i]));
        assert(m == i);
    }
    assert(x =~= y);
}

/// How a declaration is laid out does not matter to the version that is read: the order
/// of its lines, whether each ends in a line feed, a carriage return or both, blank
/// lines among them, and whether the last line ends at all. The lines have to name
/// different fields, since of two values of one name the later counts.
pub proof fn layout_does_not_matter(
    x: Seq<u8>,
    y: Seq<u8>,
    a: Seq<Seq<char>>,
    ends_a: Seq<Seq<char>>,
    b: Seq<Seq<char>>,
    ends_b: Seq<Seq<char>>,
    locus: LocusView,
)
    requires
        well_laid(a, ends_a),
        well_laid(b, ends_b),
        lossy_text(x) == laid_out(a, ends_a),
        lossy_text(y) == laid_out(b, ends_b),
        text::trimmed_nonempty(a).to_multiset() == text::trimmed_nonempty(b).to_multiset(),
        names_differ(text::trimmed_nonempty(a)),
        version_of(x, locus) is Ok,
    ensures
        version_of(y, locus) == version_of(x, locus),
{
    let none = Seq::<char>::empty();
    laid_out_and_rest(a, ends_a, none);
    laid_out_and_rest(b, ends_b, none);
    nothing_has_no_line();
    assert(laid_out(a, ends_a) + none =~= laid_out(a, ends_a));
    assert(laid_out(b, ends_b) + none =~= laid_out(b, ends_b));
    let p = text::trimmed_nonempty(a);
    let q = text::trimmed_nonempty(b);
    assert(p + Seq::<Seq<char>>::empty() =~= p);
    assert(q + Seq::<Seq<char>>::empty() =~= q);
    order_gives_same_fields(p, q);
}

} // verus!
