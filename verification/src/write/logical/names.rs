//! What an acquired entry is called: its path as a resource name, the resource
//! name as a ZIP member, and the path as it is recorded.

use vstd::prelude::*;
use vstd::utf8::encode_utf8;

use crate::arn::{
    from_utf8_lossy, hex_value, lossy_text, member_of, restore_spaces, spaces_restored,
    unescaped_bytes, Arn, NameMapping,
};
use crate::bytes;
use crate::error::{Error, ErrorView};
use crate::naming::{recorded, NameView, RecordedName};
use crate::text;
use crate::write::container_writer::{uuid_of, entropy_failure, new_uuid, VersionProfile};

verus! {

/// Which AFF4-L format an acquisition writes.
///
/// The two disagree about what an object is called, and everything else follows
/// from that.
#[derive(Debug, Clone, Copy, PartialEq, Eq, Structural)]
pub enum LogicalProfile {
    /// The AFF4-L 2019 paper: a file is named by its path.
    Legacy,
    /// The AFF4-L Standard v1.0-ALPHA: a file is named by a fresh identifier.
    V1Alpha,
}

impl Default for LogicalProfile {
    /// The format that has containers in the world.
    fn default() -> (r: Self)
        ensures
            r == LogicalProfile::Legacy,
    {
        LogicalProfile::Legacy
    }
}

impl LogicalProfile {
    /// Whether this profile writes what v1.0-ALPHA defines.
    pub fn is_v1_alpha(self) -> (r: bool)
        ensures
            r == (self == LogicalProfile::V1Alpha),
    {
        match self {
            LogicalProfile::V1Alpha => true,
            LogicalProfile::Legacy => false,
        }
    }

    /// Whether this profile writes what folders contain: only the 2019 paper
    /// defines a term for that.
    pub fn writes_child_edges(self) -> (r: bool)
        ensures
            r == (self == LogicalProfile::Legacy),
    {
        match self {
            LogicalProfile::V1Alpha => false,
            LogicalProfile::Legacy => true,
        }
    }

    /// The version that this profile's container declares.
    pub fn version_profile(self) -> (r: VersionProfile)
        ensures
            r == (match self {
                LogicalProfile::Legacy => VersionProfile::Logical,
                LogicalProfile::V1Alpha => VersionProfile::LogicalV21,
            }),
    {
        match self {
            LogicalProfile::Legacy => VersionProfile::Logical,
            LogicalProfile::V1Alpha => VersionProfile::LogicalV21,
        }
    }
}

/// Whether a character of a path is percent-encoded: control codes, the space, the
/// percent sign, and what no IRI may hold.
pub open spec fn must_escape(c: char) -> bool {
    text::is_control(c) || c == ' ' || c == '%' || c == '<' || c == '>' || c == '\\' || c == '^'
        || c == '`' || c == '{' || c == '|' || c == '}' || c == '[' || c == ']' || c == '"'
}

/// Whether a character of a path is percent-encoded.
fn needs_escape(c: char) -> (r: bool)
    ensures
        r == must_escape(c),
{
    text::control(c) || c == ' ' || c == '%' || c == '<' || c == '>' || c == '\\' || c == '^' || c
        == '`' || c == '{' || c == '|' || c == '}' || c == '[' || c == ']' || c == '"'
}

/// A byte as a percent sign and two upper-case hexadecimal digits.
pub open spec fn percent_byte(b: u8) -> Seq<char> {
    seq!['%', text::upper_digit_char(b as int / 16), text::upper_digit_char(b as int % 16)]
}

/// Bytes, each percent-encoded.
pub open spec fn percent_bytes(data: Seq<u8>) -> Seq<char>
    decreases data.len(),
{
    if data.len() == 0 {
        Seq::empty()
    } else {
        percent_bytes(data.drop_last()) + percent_byte(data.last())
    }
}

/// One character of a path in a resource name.
pub open spec fn fragment_char(c: char) -> Seq<char> {
    if must_escape(c) {
        percent_bytes(encode_utf8(seq![c]))
    } else {
        seq![c]
    }
}

/// The characters of a path in a resource name.
pub open spec fn fragment_chars(s: Seq<char>) -> Seq<char>
    decreases s.len(),
{
    if s.len() == 0 {
        Seq::empty()
    } else {
        fragment_chars(s.drop_last()) + fragment_char(s.last())
    }
}

/// A path with forward slashes only.
pub open spec fn with_slashes(s: Seq<char>) -> Seq<char> {
    Seq::new(s.len(), |i: int| if s[i] == '\\' { '/' } else { s[i] })
}

/// Whether a path names a host: it begins with two backslashes.
pub open spec fn is_unc(path: Seq<char>) -> bool {
    text::has_prefix(path, seq!['\\', '\\'])
}

/// A path without the marker of a host, with forward slashes.
pub open spec fn plain_path(path: Seq<char>) -> Seq<char> {
    with_slashes(
        if is_unc(path) {
            path.skip(2)
        } else {
            path
        },
    )
}

/// A path as the end of a resource name. A path without a host has two slashes
/// before it.
pub open spec fn path_fragment(path: Seq<char>) -> Seq<char> {
    let rest = plain_path(path);
    (if !is_unc(path) && !(rest.len() > 0 && rest[0] == '/') {
        seq!['/', '/']
    } else {
        seq!['/']
    }) + fragment_chars(rest)
}

/// Append a byte, percent-encoded.
fn append_percent(out: &mut String, b: u8)
    ensures
        final(out)@ == old(out)@ + percent_byte(b),
{
    out.push('%');
    out.push(text::upper_digit(b / 16));
    out.push(text::upper_digit(b % 16));
    proof {
        assert(out@ =~= old(out)@ + percent_byte(b));
    }
}

/// Append a character, percent-encoded.
fn percent_encode(out: &mut String, ch: char)
    ensures
        final(out)@ == old(out)@ + percent_bytes(encode_utf8(seq![ch])),
{
    let mut one = String::new();
    one.push(ch);
    proof {
        assert(one@ =~= seq![ch]);
    }
    let data = text::utf8(one.as_str());
    let ghost start = out@;
    let mut i: usize = 0;
    proof {
        assert(data@.take(0) =~= Seq::<u8>::empty());
        assert(out@ =~= start + percent_bytes(data@.take(0)));
    }
    while i < data.len()
        invariant
            i <= data.len(),
            out@ == start + percent_bytes(data@.take(i as int)),
        decreases data.len() - i,
    {
        append_percent(out, data[i]);
        proof {
            assert(data@.take(i + 1).drop_last() =~= data@.take(i as int));
            assert(data@.take(i + 1).last() == data@[i as int]);
            assert(out@ =~= start + percent_bytes(data@.take(i + 1)));
        }
        i = i + 1;
    }
    proof {
        assert(data@.take(i as int) =~= data@);
    }
}

/// Encode a path as the end of a resource name.
pub fn arn_path_fragment(path: &str) -> (r: String)
    ensures
        r@ == path_fragment(path@),
{
    let all = text::characters(path);
    let unc = all.len() >= 2 && all[0] == '\\' && all[1] == '\\';
    proof {
        if path@.len() >= 2 {
            assert(path@.take(2) =~= seq![path@[0], path@[1]]);
            assert(seq!['\\', '\\'][0] == '\\' && seq!['\\', '\\'][1] == '\\');
            assert(unc ==> path@.take(2) =~= seq!['\\', '\\']);
        }
        assert(unc == is_unc(path@));
    }
    let from: usize = if unc { 2 } else { 0 };
    let ghost rest = plain_path(path@);
    proof {
        assert(rest.len() == path@.len() - from);
        assert forall|k: int| 0 <= k < rest.len() implies rest[k] == (if path@[k + from] == '\\' {
            '/'
        } else {
            path@[k + from]
        }) by {}
    }
    let mut out = String::new();
    out.push('/');
    if !unc && !(all.len() > 0 && (all[0] == '/' || all[0] == '\\')) {
        out.push('/');
    }
    let ghost head = out@;
    proof {
        if rest.len() > 0 && !unc {
            assert(rest[0] == (if path@[0] == '\\' {
                '/'
            } else {
                path@[0]
            }));
        }
        assert(head =~= if !is_unc(path@) && !(rest.len() > 0 && rest[0] == '/') {
            seq!['/', '/']
        } else {
            seq!['/']
        });
    }
    let mut i: usize = from;
    proof {
        assert(rest.take(0) =~= Seq::<char>::empty());
        assert(out@ =~= head + fragment_chars(rest.take(0)));
    }
    while i < all.len()
        invariant
            from <= i <= all.len(),
            all@ == path@,
            rest.len() == path@.len() - from,
            forall|k: int|
                0 <= k < rest.len() ==> (#[trigger] rest[k]) == (if path@[k + from] == '\\' {
                    '/'
                } else {
                    path@[k + from]
                }),
            out@ == head + fragment_chars(rest.take(i - from)),
        decreases all.len() - i,
    {
        let c = if all[i] == '\\' { '/' } else { all[i] };
        proof {
            assert(rest[i - from] == c);
            assert(rest.take(i - from + 1).drop_last() =~= rest.take(i - from));
            assert(rest.take(i - from + 1).last() == c);
        }
        let ghost before = out@;
        if needs_escape(c) {
            percent_encode(&mut out, c);
        } else {
            out.push(c);
        }
        proof {
            assert(out@ =~= before + fragment_char(c));
            assert(out@ =~= head + fragment_chars(rest.take(i - from + 1)));
        }
        i = i + 1;
    }
    proof {
        assert(rest.take(i - from) =~= rest);
    }
    out
}

/// The resource name of a path within a volume.
pub fn arn_for_path(volume_arn: &str, path: &str) -> (r: String)
    ensures
        r@ == volume_arn@ + path_fragment(path@),
{
    text::cat2(volume_arn, arn_path_fragment(path).as_str())
}

/// Percent-encoded bytes, taken from the front.
proof fn percent_bytes_from_front(data: Seq<u8>)
    requires
        data.len() > 0,
    ensures
        percent_bytes(data) == percent_byte(data[0]) + percent_bytes(data.skip(1)),
    decreases data.len(),
{
    if data.len() == 1 {
        assert(data.drop_last() =~= Seq::<u8>::empty());
        assert(data.skip(1) =~= Seq::<u8>::empty());
        assert(percent_bytes(data) =~= percent_byte(data[0]) + percent_bytes(data.skip(1)));
    } else {
        percent_bytes_from_front(data.drop_last());
        assert(data.drop_last().skip(1) =~= data.skip(1).drop_last());
        assert(percent_bytes(data) =~= percent_byte(data[0]) + percent_bytes(data.skip(1)));
    }
}

/// An upper-case digit has its value.
proof fn upper_digit_value(n: int)
    requires
        0 <= n < 16,
    ensures
        hex_value(text::upper_digit_char(n)) == Some(n),
{
}

/// Percent-encoded bytes stand for the bytes, whatever follows.
proof fn percent_bytes_come_back(data: Seq<u8>, rest: Seq<char>)
    ensures
        unescaped_bytes(percent_bytes(data) + rest) == data + unescaped_bytes(rest),
    decreases data.len(),
{
    if data.len() == 0 {
        assert(percent_bytes(data) + rest =~= rest);
        assert(data + unescaped_bytes(rest) =~= unescaped_bytes(rest));
    } else {
        percent_bytes_from_front(data);
        percent_bytes_come_back(data.skip(1), rest);
        let s = percent_bytes(data) + rest;
        let b = data[0] as int;
        upper_digit_value(b / 16);
        upper_digit_value(b % 16);
        assert(s[0] == '%' && s[1] == text::upper_digit_char(b / 16) && s[2]
            == text::upper_digit_char(b % 16));
        assert(s.skip(3) =~= percent_bytes(data.skip(1)) + rest);
        assert(unescaped_bytes(s) =~= data + unescaped_bytes(rest));
    }
}

/// A character of a resource name stands for the character of the path, whatever
/// follows.
proof fn fragment_char_comes_back(c: char, rest: Seq<char>)
    ensures
        unescaped_bytes(fragment_char(c) + rest) == encode_utf8(seq![c]) + unescaped_bytes(rest),
{
    if must_escape(c) {
        percent_bytes_come_back(encode_utf8(seq![c]), rest);
    } else {
        let s = fragment_char(c) + rest;
        assert(s[0] == c);
        assert(s.skip(1) =~= rest);
    }
}

/// The characters of a path in a resource name, taken from the front.
proof fn fragment_chars_from_front(s: Seq<char>)
    requires
        s.len() > 0,
    ensures
        fragment_chars(s) == fragment_char(s[0]) + fragment_chars(s.skip(1)),
    decreases s.len(),
{
    if s.len() == 1 {
        assert(s.drop_last() =~= Seq::<char>::empty());
        assert(s.skip(1) =~= Seq::<char>::empty());
        assert(fragment_chars(s) =~= fragment_char(s[0]) + fragment_chars(s.skip(1)));
    } else {
        fragment_chars_from_front(s.drop_last());
        assert(s.drop_last().skip(1) =~= s.skip(1).drop_last());
        assert(fragment_chars(s) =~= fragment_char(s[0]) + fragment_chars(s.skip(1)));
    }
}

/// Encoding the first character and then the rest encodes the whole.
proof fn encoding_from_front(s: Seq<char>)
    requires
        s.len() > 0,
    ensures
        encode_utf8(s) == encode_utf8(seq![s[0]]) + encode_utf8(s.skip(1)),
{
    reveal_with_fuel(encode_utf8, 2);
    assert(s.drop_first() =~= s.skip(1));
    assert(seq![s[0]].drop_first() =~= Seq::<char>::empty());
    assert(encode_utf8(s) =~= encode_utf8(seq![s[0]]) + encode_utf8(s.skip(1)));
}

/// What the characters of a path in a resource name stand for is the path.
proof fn fragment_chars_come_back(s: Seq<char>)
    ensures
        unescaped_bytes(fragment_chars(s)) == encode_utf8(s),
    decreases s.len(),
{
    if s.len() > 0 {
        fragment_chars_from_front(s);
        fragment_chars_come_back(s.skip(1));
        fragment_char_comes_back(s[0], fragment_chars(s.skip(1)));
        encoding_from_front(s);
    } else {
        reveal_with_fuel(encode_utf8, 1);
        assert(encode_utf8(s) =~= Seq::<u8>::empty());
    }
}

/// An encoded path decodes to the path: what the end of a resource name stands for
/// is the path, with the slashes that mark its beginning before it.
pub proof fn escaped_paths_come_back(path: Seq<char>)
    ensures
        ({
            let rest = plain_path(path);
            let marked = if !is_unc(path) && !(rest.len() > 0 && rest[0] == '/') {
                seq!['/', '/'] + rest
            } else {
                seq!['/'] + rest
            };
            unescaped_bytes(path_fragment(path)) == encode_utf8(marked)
        }),
{
    let rest = plain_path(path);
    let chars = fragment_chars(rest);
    fragment_chars_come_back(rest);
    let one = seq!['/'] + chars;
    assert(one.skip(1) =~= chars);
    assert(unescaped_bytes(one) == encode_utf8(seq!['/']) + unescaped_bytes(chars));
    let marked = seq!['/'] + rest;
    encoding_from_front(marked);
    assert(marked.skip(1) =~= rest);
    let two = seq!['/', '/'] + chars;
    assert(two.skip(1) =~= one);
    assert(unescaped_bytes(two) == encode_utf8(seq!['/']) + unescaped_bytes(one));
    let twice = seq!['/', '/'] + rest;
    encoding_from_front(twice);
    assert(twice.skip(1) =~= marked);
}

/// Whether a character may not stand in an IRI.
pub open spec fn illegal_in_iri(c: char) -> bool {
    must_escape(c) && c != '%'
}

/// Percent-encoded bytes hold nothing illegal.
proof fn percent_bytes_are_legal(data: Seq<u8>)
    ensures
        forall|i: int|
            0 <= i < percent_bytes(data).len() ==> !illegal_in_iri(#[trigger] percent_bytes(data)[i]),
    decreases data.len(),
{
    if data.len() > 0 {
        percent_bytes_are_legal(data.drop_last());
        let front = percent_bytes(data.drop_last());
        assert forall|i: int| 0 <= i < percent_bytes(data).len() implies !illegal_in_iri(
            #[trigger] percent_bytes(data)[i],
        ) by {
            if i < front.len() {
                assert(percent_bytes(data)[i] == front[i]);
            } else {
                assert(percent_bytes(data)[i] == percent_byte(data.last())[i - front.len()]);
            }
        }
    }
}

/// The characters of a path in a resource name hold nothing illegal.
proof fn fragment_chars_are_legal(s: Seq<char>)
    ensures
        forall|i: int|
            0 <= i < fragment_chars(s).len() ==> !illegal_in_iri(#[trigger] fragment_chars(s)[i]),
    decreases s.len(),
{
    if s.len() > 0 {
        fragment_chars_are_legal(s.drop_last());
        percent_bytes_are_legal(encode_utf8(seq![s.last()]));
        let front = fragment_chars(s.drop_last());
        assert forall|i: int| 0 <= i < fragment_chars(s).len() implies !illegal_in_iri(
            #[trigger] fragment_chars(s)[i],
        ) by {
            if i < front.len() {
                assert(fragment_chars(s)[i] == front[i]);
            } else {
                assert(fragment_chars(s)[i] == fragment_char(s.last())[i - front.len()]);
            }
        }
    }
}

/// No character that an IRI may not hold survives into a resource name.
pub proof fn fragments_are_legal(path: Seq<char>, i: int)
    requires
        0 <= i < path_fragment(path).len(),
    ensures
        !illegal_in_iri(path_fragment(path)[i]),
{
    fragment_chars_are_legal(plain_path(path));
}

/// A resource name as a ZIP member, by the profile.
///
/// With v1.0-ALPHA it is the name itself. With the 2019 paper it is the name
/// without the volume and one slash, percent-encoded spaces restored, so that a
/// container browses readably.
pub open spec fn segment_name(volume: Seq<char>, arn: Seq<char>, profile: LogicalProfile) -> Seq<char> {
    if profile == LogicalProfile::V1Alpha {
        arn
    } else {
        let tail = if text::has_prefix(arn, volume) {
            arn.skip(volume.len() as int)
        } else {
            arn
        };
        spaces_restored(
            if tail.len() > 0 && tail[0] == '/' {
                tail.skip(1)
            } else {
                tail
            },
        )
    }
}

/// A resource name as a ZIP member.
pub fn segment_name_for_arn(volume_arn: &str, arn: &str, profile: LogicalProfile) -> (r: String)
    ensures
        r@ == segment_name(volume_arn@, arn@, profile),
{
    if profile.is_v1_alpha() {
        return text::owned(arn);
    }
    let tail = match text::strip_prefix(arn, volume_arn) {
        Some(tail) => tail,
        None => arn,
    };
    let named = match text::strip_prefix(tail, "/") {
        Some(named) => named,
        None => tail,
    };
    proof {
        reveal_strlit("/");
        assert("/"@ =~= seq!['/']);
        if tail@.len() > 0 {
            assert(tail@.take(1)[0] == tail@[0]);
            assert("/"@[0] == '/');
            assert(tail@[0] == '/' ==> tail@.take(1) =~= "/"@);
        }
        assert(text::has_prefix(tail@, "/"@) == (tail@.len() > 0 && tail@[0] == '/'));
    }
    restore_spaces(named)
}

/// The member that a small file is written under and the one that a stream of the
/// same name is read from are one: both ways of naming agree on every resource of
/// the volume, in either profile.
pub proof fn naming_paths_agree(volume: Seq<char>, tail: Seq<char>)
    ensures
        ({
            let arn = volume + seq!['/'] + tail;
            &&& member_of(arn, volume, NameMapping::Escaped) == Some(
                segment_name(volume, arn, LogicalProfile::Legacy),
            )
            &&& member_of(arn, volume, NameMapping::Verbatim) == Some(
                segment_name(volume, arn, LogicalProfile::V1Alpha),
            )
        }),
{
    let arn = volume + seq!['/'] + tail;
    assert(arn.len() > volume.len());
    assert(arn.take(volume.len() as int) =~= volume);
    assert(volume.push('/') =~= volume + seq!['/']);
    assert(arn.take(volume.len() as int + 1) =~= volume.push('/'));
    assert(arn.skip(volume.len() as int) =~= seq!['/'] + tail);
    assert(arn.skip(volume.len() as int).skip(1) =~= tail);
    assert(arn.skip(volume.len() as int + 1) =~= tail);
}

/// Whether a member name is one that a volume keeps for itself.
pub open spec fn reserved(name: Seq<char>) -> bool {
    name == "information.turtle"@ || name == "version.txt"@ || name == "container.description"@
}

/// Whether a member name is one that a volume keeps for itself.
pub fn is_reserved_name(name: &str) -> (r: bool)
    ensures
        r == reserved(name@),
{
    text::same(name, "information.turtle") || text::same(name, "version.txt") || text::same(
        name,
        "container.description",
    )
}

/// A path as read: its text, with replacement characters where it is none, and its
/// bytes where the platform has them.
#[derive(Debug, Clone, PartialEq, Eq)]
pub struct EntryPath {
    display: String,
    bytes: Option<Vec<u8>>,
}

/// What an [`EntryPath`] says, as plain values.
#[verifier::ext_equal]
pub struct PathView {
    /// Its text.
    pub display: Seq<char>,
    /// Its bytes.
    pub bytes: Option<Seq<u8>>,
}

impl View for EntryPath {
    type V = PathView;

    closed spec fn view(&self) -> PathView {
        PathView {
            display: self.display@,
            bytes: match self.bytes {
                Some(b) => Some(b@),
                None => None,
            },
        }
    }
}

impl EntryPath {
    /// A path that is a byte string.
    pub fn from_bytes(bytes: &[u8]) -> (r: EntryPath)
        ensures
            r@ == (PathView { display: lossy_text(bytes@), bytes: Some(bytes@) }),
    {
        EntryPath { display: from_utf8_lossy(bytes), bytes: Some(bytes::copied(bytes)) }
    }

    /// A path of which only a text is known.
    pub fn from_text(text: &str) -> (r: EntryPath)
        ensures
            r@ == (PathView { display: text@, bytes: None }),
    {
        EntryPath { display: text::owned(text), bytes: None }
    }

    /// Its text.
    pub fn display(&self) -> (r: &str)
        ensures
            r@ == self@.display,
    {
        self.display.as_str()
    }

    /// The same path.
    pub fn duplicate(&self) -> (r: EntryPath)
        ensures
            r@ == self@,
    {
        EntryPath {
            display: text::owned(self.display.as_str()),
            bytes: match &self.bytes {
                Some(b) => Some(bytes::copied(b.as_slice())),
                None => None,
            },
        }
    }
}

/// A path's text, for recording as the original name.
pub fn original_file_name(path: &EntryPath) -> (r: String)
    ensures
        r@ == path@.display,
{
    text::owned(path.display.as_str())
}

/// A path's bytes, where the platform has them.
pub fn recorded_path_bytes(path: &EntryPath) -> (r: Option<Vec<u8>>)
    ensures
        (match r {
            Some(b) => path@.bytes == Some(b@),
            None => path@.bytes is None,
        }),
{
    match &path.bytes {
        Some(b) => Some(bytes::copied(b.as_slice())),
        None => None,
    }
}

/// Whether a byte separates the components of a path.
pub open spec fn separates(b: u8) -> bool {
    b == 0x2f || b == 0x5c
}

/// A path without separators at its end.
pub open spec fn without_trailing(b: Seq<u8>) -> Seq<u8>
    decreases b.len(),
{
    if b.len() > 0 && separates(b.last()) {
        without_trailing(b.drop_last())
    } else {
        b
    }
}

/// What follows the last separator.
pub open spec fn after_last(b: Seq<u8>) -> Seq<u8>
    decreases b.len(),
{
    if b.len() == 0 || separates(b.last()) {
        Seq::empty()
    } else {
        after_last(b.drop_last()).push(b.last())
    }
}

/// The last component of a path; a separator at its end does not count.
pub open spec fn last_component(b: Seq<u8>) -> Seq<u8> {
    after_last(without_trailing(b))
}

/// A path and its own last component, as they are recorded.
pub open spec fn names_of(b: Seq<u8>) -> (NameView, NameView) {
    (recorded(b), recorded(last_component(b)))
}

/// The last component of a path.
fn own_name(path: &[u8]) -> (r: Vec<u8>)
    ensures
        r@ == last_component(path@),
{
    let mut end: usize = path.len();
    proof {
        assert(path@.take(end as int) =~= path@);
    }
    while end > 0 && (path[end - 1] == 0x2f || path[end - 1] == 0x5c)
        invariant
            end <= path@.len(),
            without_trailing(path@) == without_trailing(path@.take(end as int)),
        decreases end,
    {
        proof {
            assert(path@.take(end as int).drop_last() =~= path@.take(end - 1));
            assert(path@.take(end as int).last() == path@[end - 1]);
        }
        end = end - 1;
    }
    let ghost kept = path@.take(end as int);
    proof {
        if end > 0 {
            assert(kept.last() == path@[end - 1]);
        }
        assert(without_trailing(kept) == kept);
    }
    let mut from: usize = end;
    proof {
        assert(kept.take(end as int) =~= kept);
        assert(kept.skip(end as int) =~= Seq::<u8>::empty());
        assert(after_last(kept) + Seq::<u8>::empty() =~= after_last(kept));
    }
    while from > 0 && path[from - 1] != 0x2f && path[from - 1] != 0x5c
        invariant
            from <= end <= path@.len(),
            kept == path@.take(end as int),
            after_last(kept) == after_last(kept.take(from as int)) + kept.skip(from as int),
        decreases from,
    {
        proof {
            let b = path@[from - 1];
            assert(kept[from - 1] == b);
            assert(kept.take(from as int).drop_last() =~= kept.take(from - 1));
            assert(kept.take(from as int).last() == b);
            assert(after_last(kept.take(from - 1)).push(b) + kept.skip(from as int) =~= after_last(
                kept.take(from - 1),
            ) + kept.skip(from - 1));
        }
        from = from - 1;
    }
    proof {
        if from > 0 {
            assert(kept.take(from as int).last() == path@[from - 1]);
        }
        assert(after_last(kept.take(from as int)) =~= Seq::<u8>::empty());
        assert(Seq::<u8>::empty() + kept.skip(from as int) =~= path@.subrange(
            from as int,
            end as int,
        ));
    }
    bytes::copied_range(path, from, end)
}

/// A path's bytes and its last component's, as they are recorded.
fn record_names(path: &[u8]) -> (r: (RecordedName, RecordedName))
    ensures
        (r.0@, r.1@) == names_of(path@),
{
    (RecordedName::of(path), RecordedName::of(own_name(path).as_slice()))
}

/// How a path and its own last component are recorded, where the platform has the
/// path's bytes.
pub fn recorded_names(path: &EntryPath) -> (r: Option<(RecordedName, RecordedName)>)
    ensures
        (match r {
            Some(n) => path@.bytes is Some && (n.0@, n.1@) == names_of(path@.bytes->Some_0),
            None => path@.bytes is None,
        }),
{
    match &path.bytes {
        Some(b) => Some(record_names(b.as_slice())),
        None => None,
    }
}

/// How a path and its own last component are recorded: by the path's bytes where
/// there are any, else by those of its text.
pub open spec fn entry_names(path: PathView) -> (NameView, NameView) {
    match path.bytes {
        Some(b) => names_of(b),
        None => names_of(encode_utf8(path.display)),
    }
}

/// How a path and its own last component are recorded.
pub fn names_to_record(path: &EntryPath) -> (r: (RecordedName, RecordedName))
    ensures
        (r.0@, r.1@) == entry_names(path@),
{
    match recorded_names(path) {
        Some(names) => names,
        None => record_names(text::utf8(path.display.as_str()).as_slice()),
    }
}

/// A name minted for an entry, or the failure of minting one.
pub open spec fn minted(r: Result<Seq<char>, ErrorView>, path: Seq<char>) -> bool {
    match r {
        Ok(name) => exists|entropy: Seq<u8>|
            entropy.len() == 16 && name == "aff4://"@ + #[trigger] uuid_of(entropy),
        Err(e) => exists|cause: Seq<char>| e == #[trigger] entropy_failure(path, cause),
    }
}

/// A result's text or failure, as plain values.
pub open spec fn name_view(r: Result<String, Error>) -> Result<Seq<char>, ErrorView> {
    match r {
        Ok(s) => Ok(s@),
        Err(e) => Err(e@),
    }
}

/// Mint a resource name.
pub fn mint(output: &str) -> (r: Result<String, Error>)
    ensures
        minted(name_view(r), output@),
{
    match new_uuid(output) {
        Ok(uuid) => Ok(text::owned(Arn::of_id(uuid.as_str()).as_str())),
        Err(e) => Err(e),
    }
}

/// The name of one acquired entry: by its path with the 2019 paper, and fresh with
/// v1.0-ALPHA, where the path is recorded in properties instead.
pub fn arn_for_entry(volume_arn: &str, path: &str, profile: LogicalProfile, output: &str) -> (r:
    Result<String, Error>)
    ensures
        (match profile {
            LogicalProfile::Legacy => r is Ok && r->Ok_0@ == volume_arn@ + path_fragment(path@),
            LogicalProfile::V1Alpha => minted(name_view(r), output@),
        }),
{
    match profile {
        LogicalProfile::Legacy => Ok(arn_for_path(volume_arn, path)),
        LogicalProfile::V1Alpha => mint(output),
    }
}

/// Whether a character is an upper-case hexadecimal digit.
pub open spec fn is_upper_hex(c: char) -> bool {
    text::is_digit(c) || 'A' <= c && c <= 'F'
}

/// Whether every percent sign begins an escape of two upper-case hexadecimal digits.
pub open spec fn well_escaped(s: Seq<char>) -> bool {
    forall|i: int| 0 <= i < s.len() && #[trigger] s[i] == '%' ==> begins_escape(s, i)
}

/// Whether an escape of two upper-case hexadecimal digits begins at a place.
pub open spec fn begins_escape(s: Seq<char>, i: int) -> bool {
    i + 2 < s.len() && is_upper_hex(s[i + 1]) && is_upper_hex(s[i + 2])
}

/// Texts in which every percent sign begins an escape, one after the other, are such a
/// text.
proof fn escapes_join(a: Seq<char>, b: Seq<char>)
    requires
        well_escaped(a),
        well_escaped(b),
    ensures
        well_escaped(a + b),
{
    let s = a + b;
    assert forall|i: int| 0 <= i < s.len() && #[trigger] s[i] == '%' implies begins_escape(
        s,
        i,
    ) by {
        if i < a.len() {
            assert(a[i] == '%');
            assert(begins_escape(a, i));
        } else {
            assert(b[i - a.len()] == '%');
            assert(begins_escape(b, i - a.len()));
        }
    }
}

/// Percent-encoded bytes hold percent signs where escapes begin and nowhere else.
proof fn percent_bytes_are_escapes(data: Seq<u8>)
    ensures
        well_escaped(percent_bytes(data)),
    decreases data.len(),
{
    if data.len() > 0 {
        percent_bytes_are_escapes(data.drop_last());
        let one = percent_byte(data.last());
        assert forall|i: int| 0 <= i < one.len() && #[trigger] one[i] == '%' implies begins_escape(
            one,
            i,
        ) by {
            let b = data.last() as int;
            assert(0 <= b / 16 < 16 && 0 <= b % 16 < 16);
        }
        escapes_join(percent_bytes(data.drop_last()), one);
    }
}

/// The characters of a path in a resource name hold percent signs where escapes begin
/// and nowhere else.
proof fn fragment_chars_are_escaped(s: Seq<char>)
    ensures
        well_escaped(fragment_chars(s)),
    decreases s.len(),
{
    if s.len() > 0 {
        fragment_chars_are_escaped(s.drop_last());
        percent_bytes_are_escapes(encode_utf8(seq![s.last()]));
        escapes_join(fragment_chars(s.drop_last()), fragment_char(s.last()));
    }
}

/// In a path as the end of a resource name a percent sign stands only where an escape
/// of two upper-case hexadecimal digits begins: one that the path itself holds is
/// escaped.
pub proof fn percent_signs_begin_escapes(path: Seq<char>)
    ensures
        well_escaped(path_fragment(path)),
{
    let rest = plain_path(path);
    let head = if !is_unc(path) && !(rest.len() > 0 && rest[0] == '/') {
        seq!['/', '/']
    } else {
        seq!['/']
    };
    fragment_chars_are_escaped(rest);
    escapes_join(head, fragment_chars(rest));
}

} // verus!
