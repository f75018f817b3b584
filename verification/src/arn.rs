//! AFF4 resource names and the ZIP members they map to.

use vstd::prelude::*;
use vstd::string::*;
use vstd::utf8::*;

use crate::bytes;
use crate::error::{malformed, Error, Locus};
use crate::text;

verus! {

/// How every resource name begins.
pub open spec fn scheme() -> Seq<char> {
    "aff4://"@
}

/// The name of an AFF4 resource.
#[derive(Debug)]
pub struct Arn {
    text: String,
}

impl View for Arn {
    type V = Seq<char>;

    closed spec fn view(&self) -> Seq<char> {
        self.text@
    }
}

impl Clone for Arn {
    fn clone(&self) -> (r: Self)
        ensures
            r@ == self@,
    {
        Arn { text: self.text.clone() }
    }
}

/// How a resource name becomes a member name.
#[derive(Debug, Clone, Copy, PartialEq, Eq, Structural)]
pub enum NameMapping {
    /// Relative to the volume, or escaped where it lies outside the volume.
    Escaped,
    /// The resource name itself.
    Verbatim,
}

/// Whether a text is a resource name: the scheme and something after it.
pub open spec fn names_resource(s: Seq<char>) -> bool {
    text::has_prefix(s, scheme()) && s.len() > scheme().len()
}

/// What is said of a text that is no resource name.
pub open spec fn not_a_name_text(s: Seq<char>) -> Seq<char> {
    "not an AFF4 resource name: "@ + s
}

/// Every occurrence of the three characters `%20` replaced by a space.
pub open spec fn spaces_restored(s: Seq<char>) -> Seq<char>
    decreases s.len(),
{
    if s.len() == 0 {
        Seq::empty()
    } else if s.len() >= 3 && s[0] == '%' && s[1] == '2' && s[2] == '0' {
        seq![' '] + spaces_restored(s.skip(3))
    } else {
        seq![s[0]] + spaces_restored(s.skip(1))
    }
}

/// One character of an escaped name: a colon or a slash becomes its percent
/// escape, any other stays.
pub open spec fn escaped_char(c: char) -> Seq<char> {
    if c == ':' {
        "%3A"@
    } else if c == '/' {
        "%2F"@
    } else {
        seq![c]
    }
}

/// A whole resource name as one path component.
pub open spec fn escaped_name(s: Seq<char>) -> Seq<char>
    decreases s.len(),
{
    if s.len() == 0 {
        Seq::empty()
    } else {
        escaped_name(s.drop_last()) + escaped_char(s.last())
    }
}

/// The member that a resource is stored under in a volume, if it is a member.
///
/// A resource under the volume is named by its path, with percent-encoded
/// spaces restored. A resource outside it is named by its whole escaped name.
/// The volume itself is no member.
pub open spec fn member_of(name: Seq<char>, volume: Seq<char>, mapping: NameMapping) -> Option<
    Seq<char>,
> {
    if name == volume {
        None
    } else if mapping == NameMapping::Verbatim {
        Some(name)
    } else if text::has_prefix(name, volume.push('/')) {
        Some(spaces_restored(name.skip(volume.len() as int + 1)))
    } else {
        Some(escaped_name(name))
    }
}

/// Every occurrence of `%20` replaced by a space.
pub fn restore_spaces(s: &str) -> (r: String)
    ensures
        r@ == spaces_restored(s@),
{
    let chars = text::characters(s);
    let mut out = String::new();
    let mut i: usize = 0;
    proof {
        assert(s@.skip(0) == s@);
        assert(out@ + spaces_restored(s@) == spaces_restored(s@));
    }
    while i < chars.len()
        invariant
            i <= chars.len(),
            chars@ == s@,
            out@ + spaces_restored(s@.skip(i as int)) == spaces_restored(s@),
        decreases chars.len() - i,
    {
        let ghost rest = s@.skip(i as int);
        if chars.len() - i >= 3 && chars[i] == '%' && chars[i + 1] == '2' && chars[i + 2] == '0' {
            proof {
                assert(rest.skip(3) == s@.skip(i + 3));
                assert(out@ + (seq![' '] + spaces_restored(rest.skip(3))) == out@.push(' ')
                    + spaces_restored(rest.skip(3)));
            }
            out.push(' ');
            i = i + 3;
        } else {
            proof {
                assert(rest.skip(1) == s@.skip(i + 1));
                assert(out@ + (seq![rest[0]] + spaces_restored(rest.skip(1))) == out@.push(rest[0])
                    + spaces_restored(rest.skip(1)));
            }
            out.push(chars[i]);
            i = i + 1;
        }
    }
    proof {
        assert(out@ + spaces_restored(s@.skip(i as int)) == out@);
    }
    out
}

/// A whole resource name as one path component.
fn escape_name(s: &str) -> (r: String)
    ensures
        r@ == escaped_name(s@),
{
    let chars = text::characters(s);
    let mut out = String::new();
    let mut i: usize = 0;
    while i < chars.len()
        invariant
            i <= chars.len(),
            chars@ == s@,
            out@ == escaped_name(s@.take(i as int)),
        decreases chars.len() - i,
    {
        let c = chars[i];
        proof {
            assert(s@.take(i + 1).drop_last() == s@.take(i as int));
            assert(s@.take(i + 1).last() == c);
        }
        if c == ':' {
            out.append("%3A");
        } else if c == '/' {
            out.append("%2F");
        } else {
            proof {
                assert(out@ + seq![c] == out@.push(c));
            }
            out.push(c);
        }
        i = i + 1;
    }
    proof {
        assert(s@.take(s@.len() as int) == s@);
    }
    out
}

impl Arn {
    /// The resource that a text names.
    pub fn parse(s: &str, locus: &Locus) -> (r: Result<Arn, Error>)
        ensures
            (match r {
                Ok(arn) => names_resource(s@) && arn@ == s@,
                Err(e) => !names_resource(s@) && e@ == malformed(locus@, not_a_name_text(s@)),
            }),
    {
        if text::starts_with(s, "aff4://") && s.unicode_len() > "aff4://".unicode_len() {
            Ok(Arn { text: text::owned(s) })
        } else {
            Err(Error::malformed(locus.clone(), text::cat2("not an AFF4 resource name: ", s)))
        }
    }

    /// The resource of an identifier.
    pub fn of_id(id: &str) -> (r: Arn)
        requires
            id@.len() > 0,
        ensures
            r@ == "aff4://"@ + id@,
            names_resource(r@),
    {
        let text = text::cat2("aff4://", id);
        proof {
            assert(text@.take(scheme().len() as int) =~= scheme());
        }
        Arn { text }
    }

    /// The name in full.
    pub fn as_str(&self) -> (r: &str)
        ensures
            r@ == self@,
    {
        self.text.as_str()
    }

    /// The member that this resource is stored under in `volume`, if it is one.
    pub fn member_name(&self, volume: &Arn, mapping: NameMapping) -> (r: Option<String>)
        ensures
            (match r {
                Some(name) => member_of(self@, volume@, mapping) == Some(name@),
                None => member_of(self@, volume@, mapping) is None,
            }),
    {
        if text::same(self.as_str(), volume.as_str()) {
            return None;
        }
        if mapping == NameMapping::Verbatim {
            return Some(self.text.clone());
        }
        let mut prefix = volume.text.clone();
        prefix.push('/');
        match text::strip_prefix(self.as_str(), prefix.as_str()) {
            Some(tail) => Some(restore_spaces(tail)),
            None => Some(escape_name(self.as_str())),
        }
    }
}

/// The value of a hexadecimal digit in either case, if the character is one.
pub open spec fn hex_value(c: char) -> Option<int> {
    if '0' <= c && c <= '9' {
        Some(c as int - 48)
    } else if 'a' <= c && c <= 'f' {
        Some(c as int - 87)
    } else if 'A' <= c && c <= 'F' {
        Some(c as int - 55)
    } else {
        None
    }
}

/// The value of a hexadecimal digit in either case, if the character is one.
pub fn hex_digit(c: char) -> (r: Option<u8>)
    ensures
        (match r {
            Some(n) => hex_value(c) == Some(n as int) && n < 16,
            None => hex_value(c) is None,
        }),
{
    if '0' <= c && c <= '9' {
        Some(c as u8 - 48)
    } else if 'a' <= c && c <= 'f' {
        Some(c as u8 - 87)
    } else if 'A' <= c && c <= 'F' {
        Some(c as u8 - 55)
    } else {
        None
    }
}

/// The bytes that a percent-escaped text stands for: `%` with two hexadecimal
/// digits is one byte, any other character is its UTF-8 encoding.
pub open spec fn unescaped_bytes(s: Seq<char>) -> Seq<u8>
    decreases s.len(),
{
    if s.len() == 0 {
        Seq::empty()
    } else if s.len() >= 3 && s[0] == '%' && hex_value(s[1]) is Some && hex_value(s[2]) is Some {
        seq![(hex_value(s[1])->Some_0 * 16 + hex_value(s[2])->Some_0) as u8] + unescaped_bytes(
            s.skip(3),
        )
    } else {
        encode_utf8(seq![s[0]]) + unescaped_bytes(s.skip(1))
    }
}

/// The text that UTF-8 bytes spell, with replacement characters where they spell
/// none.
pub uninterp spec fn lossy_text(data: Seq<u8>) -> Seq<char>;

/// [`String::from_utf8_lossy`], owned: a function of the bytes alone, which on
/// valid UTF-8 is the text that they encode.
#[verifier::external_body]
pub(crate) fn from_utf8_lossy(data: &[u8]) -> (r: String)
    ensures
        r@ == lossy_text(data@),
        valid_utf8(data@) ==> r@ == decode_utf8(data@),
{
    String::from_utf8_lossy(data).into_owned()
}

/// The text that a percent-escaped text stands for.
pub fn unescape(s: &str) -> (r: String)
    ensures
        r@ == lossy_text(unescaped_bytes(s@)),
        valid_utf8(unescaped_bytes(s@)) ==> r@ == decode_utf8(unescaped_bytes(s@)),
{
    let chars = text::characters(s);
    let mut out: Vec<u8> = Vec::new();
    let mut i: usize = 0;
    proof {
        assert(s@.skip(0) == s@);
        assert(out@ + unescaped_bytes(s@) == unescaped_bytes(s@));
    }
    while i < chars.len()
        invariant
            i <= chars.len(),
            chars@ == s@,
            out@ + unescaped_bytes(s@.skip(i as int)) == unescaped_bytes(s@),
        decreases chars.len() - i,
    {
        let ghost rest = s@.skip(i as int);
        let mut byte: Option<u8> = None;
        if chars.len() - i >= 3 && chars[i] == '%' {
            match (hex_digit(chars[i + 1]), hex_digit(chars[i + 2])) {
                (Some(high), Some(low)) => {
                    byte = Some(high * 16 + low);
                },
                _ => {},
            }
        }
        match byte {
            Some(b) => {
                proof {
                    assert(rest.skip(3) == s@.skip(i + 3));
                    assert(out@ + (seq![b] + unescaped_bytes(rest.skip(3))) == out@.push(b)
                        + unescaped_bytes(rest.skip(3)));
                }
                out.push(b);
                i = i + 3;
            },
            None => {
                let mut one = String::new();
                one.push(chars[i]);
                proof {
                    assert(one@ == seq![rest[0]]);
                    assert(rest.skip(1) == s@.skip(i + 1));
                    assert(out@ + (encode_utf8(seq![rest[0]]) + unescaped_bytes(rest.skip(1)))
                        == out@ + encode_utf8(seq![rest[0]]) + unescaped_bytes(rest.skip(1)));
                }
                bytes::append(&mut out, one.as_str().as_bytes());
                i = i + 1;
            },
        }
    }
    proof {
        assert(out@ + unescaped_bytes(s@.skip(i as int)) == out@);
    }
    from_utf8_lossy(out.as_slice())
}

} // verus!
