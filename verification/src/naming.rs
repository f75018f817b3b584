//! How a name read from a filesystem is recorded: as text where it is text, and
//! beside that as its bytes where the text is not the whole truth.

use vstd::prelude::*;
use vstd::utf8::{
    decode_utf8, encode_utf8, encode_utf8_decode_utf8, encode_utf8_valid_utf8, valid_utf8,
};

use crate::arn::from_utf8_lossy;
use crate::error::optional_text;
use crate::text;

verus! {

/// The character for six bits in base64.
pub open spec fn sextet_char(n: int) -> char {
    if n < 26 {
        (65 + n) as char
    } else if n < 52 {
        (71 + n) as char
    } else if n < 62 {
        (n - 4) as char
    } else if n == 62 {
        '+'
    } else {
        '/'
    }
}

/// The six bits for a character of base64.
pub open spec fn char_sextet(c: char) -> int {
    if 'A' <= c && c <= 'Z' {
        c as int - 65
    } else if 'a' <= c && c <= 'z' {
        c as int - 71
    } else if '0' <= c && c <= '9' {
        c as int + 4
    } else if c == '+' {
        62
    } else {
        63
    }
}

/// Bytes in base64: four characters for three bytes, with padding at the end.
pub open spec fn base64(data: Seq<u8>) -> Seq<char>
    decreases data.len(),
{
    if data.len() == 0 {
        Seq::empty()
    } else if data.len() == 1 {
        let a = data[0] as int;
        seq![sextet_char(a / 4), sextet_char((a % 4) * 16), '=', '=']
    } else if data.len() == 2 {
        let a = data[0] as int;
        let b = data[1] as int;
        seq![
            sextet_char(a / 4),
            sextet_char((a % 4) * 16 + b / 16),
            sextet_char((b % 16) * 4),
            '=',
        ]
    } else {
        let a = data[0] as int;
        let b = data[1] as int;
        let c = data[2] as int;
        seq![
            sextet_char(a / 4),
            sextet_char((a % 4) * 16 + b / 16),
            sextet_char((b % 16) * 4 + c / 64),
            sextet_char(c % 64),
        ] + base64(data.skip(3))
    }
}

/// The bytes that four characters of base64 at a time stand for.
pub open spec fn base64_meaning(s: Seq<char>) -> Seq<u8>
    decreases s.len(),
{
    if s.len() < 4 {
        Seq::empty()
    } else {
        let a = (char_sextet(s[0]) * 4 + char_sextet(s[1]) / 16) as u8;
        let b = ((char_sextet(s[1]) % 16) * 16 + char_sextet(s[2]) / 4) as u8;
        let c = ((char_sextet(s[2]) % 4) * 64 + char_sextet(s[3])) as u8;
        (if s[2] == '=' {
            seq![a]
        } else if s[3] == '=' {
            seq![a, b]
        } else {
            seq![a, b, c]
        }) + base64_meaning(s.skip(4))
    }
}

/// Each six bits have their own character, and it is not the padding.
proof fn sextets_come_back(n: int)
    requires
        0 <= n < 64,
    ensures
        char_sextet(sextet_char(n)) == n,
        sextet_char(n) != '=',
{
}

/// What base64 stands for is what was encoded: a raw name is recorded whole.
pub proof fn base64_comes_back(data: Seq<u8>)
    ensures
        base64_meaning(base64(data)) == data,
    decreases data.len(),
{
    let s = base64(data);
    if data.len() == 0 {
        assert(base64_meaning(s) =~= data);
    } else {
        let a = data[0] as int;
        sextets_come_back(a / 4);
        if data.len() == 1 {
            sextets_come_back((a % 4) * 16);
            assert(base64_meaning(s.skip(4)) =~= Seq::<u8>::empty());
            assert(base64_meaning(s) =~= data);
        } else {
            let b = data[1] as int;
            sextets_come_back((a % 4) * 16 + b / 16);
            if data.len() == 2 {
                sextets_come_back((b % 16) * 4);
                assert(base64_meaning(s.skip(4)) =~= Seq::<u8>::empty());
                assert(base64_meaning(s) =~= data);
            } else {
                let c = data[2] as int;
                sextets_come_back((b % 16) * 4 + c / 64);
                sextets_come_back(c % 64);
                base64_comes_back(data.skip(3));
                assert(s.skip(4) =~= base64(data.skip(3)));
                assert(base64_meaning(s) =~= data);
            }
        }
    }
}

/// The character for six bits.
fn sextet(n: u8) -> (r: char)
    requires
        n < 64,
    ensures
        r == sextet_char(n as int),
{
    if n < 26 {
        (65 + n) as char
    } else if n < 52 {
        (71 + n) as char
    } else if n < 62 {
        (n - 4) as char
    } else if n == 62 {
        '+'
    } else {
        '/'
    }
}

/// Bytes in base64.
pub fn base64_encode(data: &[u8]) -> (r: String)
    ensures
        r@ == base64(data@),
{
    let mut out = String::new();
    let mut i: usize = 0;
    let length: usize = data.len();
    proof {
        assert(data@.skip(0) =~= data@);
        assert(out@ + base64(data@) =~= base64(data@));
    }
    while length - i >= 3
        invariant
            i <= length,
            length == data@.len(),
            out@ + base64(data@.skip(i as int)) == base64(data@),
        decreases length - i,
    {
        let a: u8 = data[i];
        let b: u8 = data[i + 1];
        let c: u8 = data[i + 2];
        let ghost before = out@;
        out.push(sextet(a / 4));
        out.push(sextet((a % 4) * 16 + b / 16));
        out.push(sextet((b % 16) * 4 + c / 64));
        out.push(sextet(c % 64));
        proof {
            assert(data@.skip(i as int).skip(3) =~= data@.skip(i + 3));
            assert(out@ + base64(data@.skip(i + 3)) =~= before + base64(data@.skip(i as int)));
        }
        i = i + 3;
    }
    let ghost before = out@;
    if length - i == 2 {
        let a: u8 = data[i];
        let b: u8 = data[i + 1];
        out.push(sextet(a / 4));
        out.push(sextet((a % 4) * 16 + b / 16));
        out.push(sextet((b % 16) * 4));
        out.push('=');
    } else if length - i == 1 {
        let a: u8 = data[i];
        out.push(sextet(a / 4));
        out.push(sextet((a % 4) * 16));
        out.push('=');
        out.push('=');
    }
    proof {
        assert(out@ =~= before + base64(data@.skip(i as int)));
    }
    out
}

/// Whether a name is text without control codes.
pub open spec fn is_clean(bytes: Seq<u8>) -> bool {
    valid_utf8(bytes) && no_controls(decode_utf8(bytes))
}

/// Whether a text has no control code.
pub open spec fn no_controls(s: Seq<char>) -> bool {
    forall|i: int| 0 <= i < s.len() ==> !text::is_control(#[trigger] s[i])
}

/// How a name is recorded, as plain values.
#[verifier::ext_equal]
pub struct NameView {
    /// The name to show.
    pub display: Seq<char>,
    /// The name's bytes in base64, where the name to show is not the whole truth.
    pub raw: Option<Seq<char>>,
}

/// A byte as a percent escape, in upper case.
pub open spec fn escape(b: int) -> Seq<char> {
    seq!['%', text::upper_digit_char(b / 16), text::upper_digit_char(b % 16)]
}

/// A character as it is shown: a control code as the escapes of its bytes, any other
/// character as itself.
pub open spec fn shown_char(c: char) -> Seq<char> {
    if !text::is_control(c) {
        seq![c]
    } else if (c as u32) < 0x80 {
        escape(c as u32 as int)
    } else {
        escape(0xc2) + escape(c as u32 as int)
    }
}

/// A text as it is shown, its control codes escaped.
pub open spec fn shown_text(s: Seq<char>) -> Seq<char>
    decreases s.len(),
{
    if s.len() == 0 {
        Seq::empty()
    } else {
        shown_text(s.drop_last()) + shown_char(s.last())
    }
}

/// Bytes that are no text as they are shown: printable ASCII as itself, every other
/// byte escaped.
pub open spec fn shown_bytes(bytes: Seq<u8>) -> Seq<char>
    decreases bytes.len(),
{
    if bytes.len() == 0 {
        Seq::empty()
    } else {
        let b = bytes.last();
        shown_bytes(bytes.drop_last()) + (if 0x20 <= b < 0x7f {
            seq![b as char]
        } else {
            escape(b as int)
        })
    }
}

/// How a name is recorded: the bytes are recorded beside the text only where the
/// name is not clean, and only then is anything in the text escaped.
pub open spec fn recorded(bytes: Seq<u8>) -> NameView {
    NameView {
        display: if valid_utf8(bytes) {
            shown_text(decode_utf8(bytes))
        } else {
            shown_bytes(bytes)
        },
        raw: if is_clean(bytes) {
            None
        } else {
            Some(base64(bytes))
        },
    }
}

/// A recorded name.
#[derive(Debug)]
pub struct RecordedName {
    display: String,
    raw: Option<String>,
}

impl View for RecordedName {
    type V = NameView;

    closed spec fn view(&self) -> NameView {
        NameView { display: self.display@, raw: optional_text(self.raw) }
    }
}

/// Whether bytes are valid UTF-8.
///
/// `str::from_utf8` succeeds on exactly those.
#[verifier::external_body]
fn is_utf8(bytes: &[u8]) -> (r: bool)
    ensures
        r == valid_utf8(bytes@),
{
    std::str::from_utf8(bytes).is_ok()
}

impl RecordedName {
    /// How a name is recorded.
    pub fn of(bytes: &[u8]) -> (r: RecordedName)
        ensures
            r@ == recorded(bytes@),
    {
        if !is_utf8(bytes) {
            return RecordedName { display: show_bytes(bytes), raw: Some(base64_encode(bytes)) };
        }
        let name = from_utf8_lossy(bytes);
        let raw = if lacks_controls(name.as_str()) {
            None
        } else {
            Some(base64_encode(bytes))
        };
        RecordedName { display: show_text(name.as_str()), raw }
    }

    /// The name to show.
    pub fn display(&self) -> (r: &str)
        ensures
            r@ == self@.display,
    {
        self.display.as_str()
    }

    /// The name's bytes in base64, where the name to show is not the whole truth.
    pub fn raw(&self) -> (r: Option<&str>)
        ensures
            (match r {
                Some(s) => self@.raw == Some(s@),
                None => self@.raw is None,
            }),
    {
        match &self.raw {
            Some(s) => Some(s.as_str()),
            None => None,
        }
    }
}

/// Append a byte as a percent escape.
fn push_escape(out: &mut String, b: u8)
    ensures
        final(out)@ == old(out)@ + escape(b as int),
{
    let ghost before = out@;
    out.push('%');
    out.push(text::upper_digit(b / 16));
    out.push(text::upper_digit(b % 16));
    proof {
        assert(out@ =~= before + escape(b as int));
    }
}

/// A text as it is shown, its control codes escaped.
fn show_text(s: &str) -> (r: String)
    ensures
        r@ == shown_text(s@),
{
    let chars = text::characters(s);
    let mut out = String::new();
    let mut i: usize = 0;
    proof {
        assert(out@ =~= shown_text(s@.take(0)));
    }
    while i < chars.len()
        invariant
            i <= chars.len(),
            chars@ == s@,
            out@ == shown_text(s@.take(i as int)),
        decreases chars.len() - i,
    {
        let c = chars[i];
        let ghost before = out@;
        proof {
            assert(s@.take(i + 1).drop_last() =~= s@.take(i as int));
            assert(s@.take(i + 1).last() == c);
        }
        if !text::control(c) {
            out.push(c);
        } else {
            let n: u32 = c as u32;
            let low: u8 = n as u8;
            proof {
                assert(low as int == c as u32 as int);
            }
            if n >= 0x80 {
                push_escape(&mut out, 0xc2);
                push_escape(&mut out, low);
                proof {
                    assert(out@ =~= before + (escape(0xc2) + escape(c as u32 as int)));
                }
            } else {
                push_escape(&mut out, low);
            }
        }
        proof {
            assert(out@ =~= before + shown_char(c));
        }
        i = i + 1;
    }
    proof {
        assert(s@.take(i as int) =~= s@);
    }
    out
}

/// Bytes that are no text as they are shown.
fn show_bytes(bytes: &[u8]) -> (r: String)
    ensures
        r@ == shown_bytes(bytes@),
{
    let mut out = String::new();
    let mut i: usize = 0;
    proof {
        assert(out@ =~= shown_bytes(bytes@.take(0)));
    }
    while i < bytes.len()
        invariant
            i <= bytes.len(),
            out@ == shown_bytes(bytes@.take(i as int)),
        decreases bytes.len() - i,
    {
        let b: u8 = bytes[i];
        let ghost before = out@;
        proof {
            assert(bytes@.take(i + 1).drop_last() =~= bytes@.take(i as int));
            assert(bytes@.take(i + 1).last() == b);
        }
        if 0x20 <= b && b < 0x7f {
            out.push(b as char);
            proof {
                assert(out@ =~= before + seq![b as char]);
            }
        } else {
            push_escape(&mut out, b);
        }
        i = i + 1;
    }
    proof {
        assert(bytes@.take(i as int) =~= bytes@);
    }
    out
}

/// A text without control codes is shown as it is.
proof fn clean_text_is_shown(s: Seq<char>)
    requires
        no_controls(s),
    ensures
        shown_text(s) == s,
    decreases s.len(),
{
    if s.len() > 0 {
        let rest = s.drop_last();
        assert forall|i: int| 0 <= i < rest.len() implies !text::is_control(#[trigger] rest[i]) by {
            assert(rest[i] == s[i]);
        }
        clean_text_is_shown(rest);
        assert(!text::is_control(s[s.len() - 1]));
        assert(rest + seq![s.last()] =~= s);
    }
}

/// What is shown of a name holds no control code, however the name is spelled.
pub proof fn shown_names_are_printable(bytes: Seq<u8>)
    ensures
        no_controls(recorded(bytes).display),
{
    if valid_utf8(bytes) {
        shown_text_is_printable(decode_utf8(bytes));
    } else {
        shown_bytes_are_printable(bytes);
    }
}

/// An escape holds no control code.
proof fn escapes_are_printable(b: int)
    requires
        0 <= b < 256,
    ensures
        no_controls(escape(b)),
{
    let e = escape(b);
    assert(0 <= b / 16 < 16 && 0 <= b % 16 < 16);
    assert forall|i: int| 0 <= i < e.len() implies !text::is_control(#[trigger] e[i]) by {
        assert(i == 0 || i == 1 || i == 2);
    }
}

/// A text as it is shown holds no control code.
proof fn shown_text_is_printable(s: Seq<char>)
    ensures
        no_controls(shown_text(s)),
    decreases s.len(),
{
    if s.len() > 0 {
        shown_text_is_printable(s.drop_last());
        let a = shown_text(s.drop_last());
        let c = s.last();
        let b = shown_char(c);
        if text::is_control(c) {
            escapes_are_printable(c as u32 as int);
            escapes_are_printable(0xc2);
            joined_are_printable(escape(0xc2), escape(c as u32 as int));
        }
        joined_are_printable(a, b);
    }
}

/// Bytes as they are shown hold no control code.
proof fn shown_bytes_are_printable(bytes: Seq<u8>)
    ensures
        no_controls(shown_bytes(bytes)),
    decreases bytes.len(),
{
    if bytes.len() > 0 {
        shown_bytes_are_printable(bytes.drop_last());
        let b = bytes.last();
        let tail = if 0x20 <= b < 0x7f {
            seq![b as char]
        } else {
            escape(b as int)
        };
        if !(0x20 <= b < 0x7f) {
            escapes_are_printable(b as int);
        }
        joined_are_printable(shown_bytes(bytes.drop_last()), tail);
    }
}

/// Two texts without control codes have none together.
proof fn joined_are_printable(a: Seq<char>, b: Seq<char>)
    requires
        no_controls(a),
        no_controls(b),
    ensures
        no_controls(a + b),
{
    let all = a + b;
    assert forall|i: int| 0 <= i < all.len() implies !text::is_control(#[trigger] all[i]) by {
        if i < a.len() {
            assert(all[i] == a[i]);
        } else {
            assert(all[i] == b[i - a.len()]);
        }
    }
}

/// Whether a text has no control code.
fn lacks_controls(s: &str) -> (r: bool)
    ensures
        r == no_controls(s@),
{
    let chars = text::characters(s);
    let mut i: usize = 0;
    while i < chars.len()
        invariant
            i <= chars.len(),
            chars@ == s@,
            forall|k: int| 0 <= k < i ==> !text::is_control(#[trigger] s@[k]),
        decreases chars.len() - i,
    {
        if text::control(chars[i]) {
            proof {
                assert(text::is_control(s@[i as int]));
            }
            return false;
        }
        i = i + 1;
    }
    true
}

/// A name that is text without control codes is recorded as that text, and nothing
/// else is recorded of it.
pub proof fn clean_names_stand_alone(name: Seq<char>)
    requires
        no_controls(name),
    ensures
        recorded(encode_utf8(name)) == (NameView { display: name, raw: None }),
{
    encode_utf8_valid_utf8(name);
    encode_utf8_decode_utf8(name);
    clean_text_is_shown(name);
}

} // verus!
