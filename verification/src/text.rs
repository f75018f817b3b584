//! Text building with exact contracts.
//!
//! Messages, resource names and member names are all assembled here, so every
//! piece of text the library produces is described by a sequence of characters.

use vstd::prelude::*;
use vstd::string::*;

verus! {

/// [`String::push`] appends one character and changes nothing before it.
pub assume_specification[ String::push ](s: &mut String, c: char)
    ensures
        final(s)@ == old(s)@.push(c),
;

/// The character of one decimal or hexadecimal digit, in lower case.
pub open spec fn digit_char(n: int) -> char {
    if n < 10 {
        (48 + n) as char
    } else {
        (87 + n) as char
    }
}

/// The character of one hexadecimal digit, in upper case.
pub open spec fn upper_digit_char(n: int) -> char {
    if n < 10 {
        (48 + n) as char
    } else {
        (55 + n) as char
    }
}

/// `n` written in base ten, without leading zeros.
pub open spec fn decimal(n: nat) -> Seq<char>
    decreases n,
{
    if n < 10 {
        seq![digit_char(n as int)]
    } else {
        decimal(n / 10).push(digit_char((n % 10) as int))
    }
}

/// `n` written in base sixteen, without leading zeros.
pub open spec fn hexadecimal(n: nat) -> Seq<char>
    decreases n,
{
    if n < 16 {
        seq![digit_char(n as int)]
    } else {
        hexadecimal(n / 16).push(digit_char((n % 16) as int))
    }
}

/// `s` with zeros in front of it until it has `width` characters.
pub open spec fn zero_padded(s: Seq<char>, width: nat) -> Seq<char> {
    if s.len() >= width {
        s
    } else {
        Seq::new((width - s.len()) as nat, |i: int| '0') + s
    }
}

/// Two hexadecimal digits per byte, in lower case.
pub open spec fn hex(bytes: Seq<u8>) -> Seq<char> {
    Seq::new(
        (bytes.len() * 2) as nat,
        |i: int|
            if i % 2 == 0 {
                digit_char(bytes[i / 2] as int / 16)
            } else {
                digit_char(bytes[i / 2] as int % 16)
            },
    )
}

/// The sequence of the texts of a list of strings.
pub open spec fn texts(list: Seq<String>) -> Seq<Seq<char>> {
    Seq::new(list.len(), |i: int| list[i]@)
}

/// The parts one after the other with a separator between each two.
pub open spec fn joined(parts: Seq<Seq<char>>, separator: Seq<char>) -> Seq<char>
    decreases parts.len(),
{
    if parts.len() == 0 {
        Seq::empty()
    } else if parts.len() == 1 {
        parts[0]
    } else {
        joined(parts.drop_last(), separator) + separator + parts.last()
    }
}

/// Whether `s` begins with `prefix`.
pub open spec fn has_prefix(s: Seq<char>, prefix: Seq<char>) -> bool {
    prefix.len() <= s.len() && s.take(prefix.len() as int) == prefix
}

/// Whether `s` ends with `suffix`.
pub open spec fn has_suffix(s: Seq<char>, suffix: Seq<char>) -> bool {
    suffix.len() <= s.len() && s.skip(s.len() - suffix.len()) == suffix
}

/// Whether two texts are the same.
pub fn same(a: &str, b: &str) -> (r: bool)
    ensures
        r == (a@ == b@),
{
    a.to_owned() == b.to_owned()
}

/// An owned copy of a text.
pub fn owned(s: &str) -> (r: String)
    ensures
        r@ == s@,
{
    s.to_owned()
}

/// Two texts in a row.
pub fn cat2(a: &str, b: &str) -> (r: String)
    ensures
        r@ == a@ + b@,
{
    let mut out = a.to_owned();
    out.append(b);
    out
}

/// Three texts in a row.
pub fn cat3(a: &str, b: &str, c: &str) -> (r: String)
    ensures
        r@ == a@ + b@ + c@,
{
    let mut out = a.to_owned();
    out.append(b);
    out.append(c);
    out
}

/// Four texts in a row.
pub fn cat4(a: &str, b: &str, c: &str, d: &str) -> (r: String)
    ensures
        r@ == a@ + b@ + c@ + d@,
{
    let mut out = cat3(a, b, c);
    out.append(d);
    out
}

/// Five texts in a row.
pub fn cat5(a: &str, b: &str, c: &str, d: &str, e: &str) -> (r: String)
    ensures
        r@ == a@ + b@ + c@ + d@ + e@,
{
    let mut out = cat4(a, b, c, d);
    out.append(e);
    out
}

/// Six texts in a row.
pub fn cat6(a: &str, b: &str, c: &str, d: &str, e: &str, f: &str) -> (r: String)
    ensures
        r@ == a@ + b@ + c@ + d@ + e@ + f@,
{
    let mut out = cat5(a, b, c, d, e);
    out.append(f);
    out
}

/// Seven texts in a row.
pub fn cat7(a: &str, b: &str, c: &str, d: &str, e: &str, f: &str, g: &str) -> (r: String)
    ensures
        r@ == a@ + b@ + c@ + d@ + e@ + f@ + g@,
{
    let mut out = cat6(a, b, c, d, e, f);
    out.append(g);
    out
}

/// The characters of a text, for access by position.
pub fn characters(s: &str) -> (r: Vec<char>)
    ensures
        r@ == s@,
{
    let mut out: Vec<char> = Vec::new();
    for c in it: s.chars()
        invariant
            out@ == s@.take(it.index()),
            it.seq() == s@,
    {
        proof {
            assert(s@.take(it.index() + 1) == s@.take(it.index()).push(s@[it.index()]));
        }
        out.push(c);
    }
    proof {
        assert(s@.take(s@.len() as int) == s@);
    }
    out
}

/// The text that a list of characters spells.
pub fn spelled(chars: &[char]) -> (r: String)
    ensures
        r@ == chars@,
{
    let mut out = String::new();
    let mut i: usize = 0;
    while i < chars.len()
        invariant
            i <= chars.len(),
            out@ == chars@.take(i as int),
        decreases chars.len() - i,
    {
        proof {
            assert(chars@.take(i + 1) == chars@.take(i as int).push(chars@[i as int]));
        }
        out.push(chars[i]);
        i = i + 1;
    }
    proof {
        assert(chars@.take(chars@.len() as int) == chars@);
    }
    out
}

/// The text that `chars[from..to]` spells.
pub fn spelled_range(chars: &Vec<char>, from: usize, to: usize) -> (r: String)
    requires
        from <= to <= chars.len(),
    ensures
        r@ == chars@.subrange(from as int, to as int),
{
    let mut out = String::new();
    let mut i: usize = from;
    while i < to
        invariant
            from <= i <= to <= chars.len(),
            out@ == chars@.subrange(from as int, i as int),
        decreases to - i,
    {
        proof {
            assert(chars@.subrange(from as int, i + 1) == chars@.subrange(from as int, i as int).push(
                chars@[i as int],
            ));
        }
        out.push(chars[i]);
        i = i + 1;
    }
    out
}

/// The character of one digit below sixteen, in lower case.
pub fn digit(n: u8) -> (r: char)
    requires
        n < 16,
    ensures
        r == digit_char(n as int),
{
    if n < 10 {
        (48 + n) as char
    } else {
        (87 + n) as char
    }
}

/// The character of one digit below sixteen, in upper case.
pub fn upper_digit(n: u8) -> (r: char)
    requires
        n < 16,
    ensures
        r == upper_digit_char(n as int),
{
    if n < 10 {
        (48 + n) as char
    } else {
        (55 + n) as char
    }
}

/// A number in base ten.
pub fn dec(n: u64) -> (r: String)
    ensures
        r@ == decimal(n as nat),
    decreases n,
{
    if n < 10 {
        let mut out = String::new();
        out.push(digit(n as u8));
        proof {
            assert(out@ == seq![digit_char(n as int)]);
        }
        out
    } else {
        let mut out = dec(n / 10);
        out.push(digit((n % 10) as u8));
        out
    }
}

/// A count in base ten.
pub fn dec_usize(n: usize) -> (r: String)
    ensures
        r@ == decimal(n as nat),
{
    dec(n as u64)
}

/// A text's bytes.
pub fn utf8(s: &str) -> (r: Vec<u8>)
    ensures
        r@ == vstd::utf8::encode_utf8(s@),
{
    vstd::slice::slice_to_vec(s.as_bytes())
}

/// A wide number in base ten.
pub fn dec_wide(n: u128) -> (r: String)
    ensures
        r@ == decimal(n as nat),
    decreases n,
{
    if n < 10 {
        dec(n as u64)
    } else {
        let mut out = dec_wide(n / 10);
        out.push(digit((n % 10) as u8));
        out
    }
}

/// A number in base sixteen, in lower case.
pub fn hexa(n: u64) -> (r: String)
    ensures
        r@ == hexadecimal(n as nat),
    decreases n,
{
    if n < 16 {
        let mut out = String::new();
        out.push(digit(n as u8));
        proof {
            assert(out@ == seq![digit_char(n as int)]);
        }
        out
    } else {
        let mut out = hexa(n / 16);
        out.push(digit((n % 16) as u8));
        out
    }
}

/// A text with zeros in front of it until it has `width` characters.
pub fn pad_zeros(s: &str, width: usize) -> (r: String)
    ensures
        r@ == zero_padded(s@, width as nat),
{
    let len = s.unicode_len();
    if len >= width {
        s.to_owned()
    } else {
        let mut out = String::new();
        let mut i: usize = 0;
        while i < width - len
            invariant
                len < width,
                i <= width - len,
                out@ == Seq::new(i as nat, |k: int| '0'),
            decreases width - len - i,
        {
            proof {
                assert(Seq::new((i + 1) as nat, |k: int| '0') == Seq::new(i as nat, |k: int| '0').push(
                    '0',
                ));
            }
            out.push('0');
            i = i + 1;
        }
        out.append(s);
        out
    }
}

/// Bytes as lower-case hexadecimal.
pub fn hex_lower(bytes: &[u8]) -> (r: String)
    ensures
        r@ == hex(bytes@),
{
    let mut out = String::new();
    let mut i: usize = 0;
    while i < bytes.len()
        invariant
            i <= bytes.len(),
            out@ == hex(bytes@.take(i as int)),
        decreases bytes.len() - i,
    {
        let b: u8 = bytes[i];
        out.push(digit(b / 16));
        out.push(digit(b % 16));
        proof {
            let shorter = hex(bytes@.take(i as int));
            let longer = hex(bytes@.take(i + 1));
            assert(longer == shorter.push(digit_char(b as int / 16)).push(digit_char(b as int % 16)));
        }
        i = i + 1;
    }
    proof {
        assert(bytes@.take(bytes@.len() as int) == bytes@);
    }
    out
}

/// The parts one after the other with a separator between each two.
pub fn join(parts: &Vec<String>, separator: &str) -> (r: String)
    ensures
        r@ == joined(texts(parts@), separator@),
{
    let mut out = String::new();
    let mut i: usize = 0;
    while i < parts.len()
        invariant
            i <= parts.len(),
            out@ == joined(texts(parts@.take(i as int)), separator@),
        decreases parts.len() - i,
    {
        proof {
            let longer = texts(parts@.take(i + 1));
            assert(longer.drop_last() == texts(parts@.take(i as int)));
            assert(longer.last() == parts@[i as int]@);
            assert(Seq::<char>::empty() + longer.last() == longer.last());
        }
        if i > 0 {
            out.append(separator);
        }
        out.append(parts[i].as_str());
        i = i + 1;
    }
    proof {
        assert(parts@.take(parts@.len() as int) == parts@);
    }
    out
}

/// Whether `s` begins with `prefix`.
pub fn starts_with(s: &str, prefix: &str) -> (r: bool)
    ensures
        r == has_prefix(s@, prefix@),
{
    let n = prefix.unicode_len();
    if n > s.unicode_len() {
        false
    } else {
        same(s.substring_char(0, n), prefix)
    }
}

/// What follows `prefix` in `s`, when `s` begins with it.
pub fn strip_prefix<'a>(s: &'a str, prefix: &str) -> (r: Option<&'a str>)
    ensures
        has_prefix(s@, prefix@) ==> r is Some && r->Some_0@ == s@.skip(prefix@.len() as int),
        !has_prefix(s@, prefix@) ==> r is None,
{
    let n = prefix.unicode_len();
    let len = s.unicode_len();
    if n > len {
        None
    } else if same(s.substring_char(0, n), prefix) {
        Some(s.substring_char(n, len))
    } else {
        None
    }
}

/// Whether `s` ends with `suffix`.
pub fn ends_with(s: &str, suffix: &str) -> (r: bool)
    ensures
        r == has_suffix(s@, suffix@),
{
    let n = suffix.unicode_len();
    let len = s.unicode_len();
    if n > len {
        false
    } else {
        same(s.substring_char(len - n, len), suffix)
    }
}

/// How `Debug` writes a text: in quotation marks, with escapes.
pub uninterp spec fn debug_text(s: Seq<char>) -> Seq<char>;

/// A text as std's `Debug` for `str` writes it: a function of the text alone.
#[verifier::external_body]
pub(crate) fn debug_quoted(s: &str) -> (r: String)
    ensures
        r@ == debug_text(s@),
{
    format!("{:?}", s)
}

/// Whether a character is white space, by the Unicode property of that name.
pub open spec fn is_space(c: char) -> bool {
    let n = c as u32;
    (0x09 <= n <= 0x0d) || n == 0x20 || n == 0x85 || n == 0xa0 || n == 0x1680 || (0x2000 <= n
        <= 0x200a) || n == 0x2028 || n == 0x2029 || n == 0x202f || n == 0x205f || n == 0x3000
}

/// Whether a character is a control code.
pub open spec fn is_control(c: char) -> bool {
    (c as u32) < 0x20 || 0x7f <= (c as u32) < 0xa0
}

/// How many characters at the front of `s` are white space.
pub open spec fn leading_spaces(s: Seq<char>) -> nat
    decreases s.len(),
{
    if s.len() > 0 && is_space(s[0]) {
        1 + leading_spaces(s.skip(1))
    } else {
        0
    }
}

/// How many characters at the end of `s` are white space.
pub open spec fn trailing_spaces(s: Seq<char>) -> nat
    decreases s.len(),
{
    if s.len() > 0 && is_space(s.last()) {
        1 + trailing_spaces(s.drop_last())
    } else {
        0
    }
}

/// `s` without the white space at its two ends.
pub open spec fn trimmed(s: Seq<char>) -> Seq<char> {
    let front = s.skip(leading_spaces(s) as int);
    front.take(front.len() - trailing_spaces(front))
}

/// Whether a character is a decimal digit.
pub open spec fn is_digit(c: char) -> bool {
    '0' <= c && c <= '9'
}

/// The number that decimal digits spell.
pub open spec fn digits_value(s: Seq<char>) -> nat
    decreases s.len(),
{
    if s.len() == 0 {
        0
    } else {
        (digits_value(s.drop_last()) * 10 + (s.last() as u32 - 48)) as nat
    }
}

/// Whether every character is a decimal digit.
pub open spec fn all_digits(s: Seq<char>) -> bool {
    forall|i: int| 0 <= i < s.len() ==> is_digit(#[trigger] s[i])
}

/// The number no larger than `max` that a text spells, if it spells one: decimal
/// digits, at least one, with at most a plus sign before them.
pub open spec fn number_of(s: Seq<char>, max: nat) -> Option<nat> {
    let digits = if s.len() > 0 && s[0] == '+' {
        s.skip(1)
    } else {
        s
    };
    if digits.len() > 0 && all_digits(digits) && digits_value(digits) <= max {
        Some(digits_value(digits))
    } else {
        None
    }
}

/// The digits of a text that spells a number: what follows a plus sign, if there is one.
pub open spec fn digits_part(s: Seq<char>) -> Seq<char> {
    if s.len() > 0 && s[0] == '+' {
        s.skip(1)
    } else {
        s
    }
}

/// Whether a text begins with digits that spell too large a number.
pub open spec fn begins_too_large(digits: Seq<char>, max: nat) -> bool {
    exists|n: int|
        0 < n <= digits.len() && all_digits(#[trigger] digits.take(n)) && digits_value(
            digits.take(n),
        ) > max
}

/// Why a text spells no number up to a largest one, in the words of std's
/// `ParseIntError`.
pub open spec fn number_fault(s: Seq<char>, max: nat) -> Seq<char> {
    if s.len() == 0 {
        "cannot parse integer from empty string"@
    } else if begins_too_large(digits_part(s), max) {
        "number too large to fit in target type"@
    } else {
        "invalid digit found in string"@
    }
}

/// Why a text spells no number up to a largest one.
pub fn explain_number(s: &str, max: u64) -> (r: String)
    ensures
        r@ == number_fault(s@, max as nat),
{
    let chars = characters(s);
    let length: usize = chars.len();
    if length == 0 {
        return owned("cannot parse integer from empty string");
    }
    let from: usize = if chars[0] == '+' {
        1
    } else {
        0
    };
    let ghost digits = digits_part(s@);
    let mut i: usize = from;
    let mut value: u64 = 0;
    proof {
        assert(digits.take(0) =~= Seq::<char>::empty());
        assert(digits.len() == length - from);
    }
    while i < length
        invariant
            chars@ == s@,
            length == s@.len(),
            length > 0,
            from <= i <= length,
            digits == digits_part(s@),
            digits.len() == length - from,
            forall|k: int| 0 <= k < digits.len() ==> digits[k] == chars@[k + from],
            all_digits(digits.take(i - from)),
            digits_value(digits.take(i - from)) == value,
            value <= max,
            forall|n: int|
                0 < n <= i - from ==> digits_value(#[trigger] digits.take(n)) <= max,
        decreases length - i,
    {
        let c = chars[i];
        let ghost k = i - from;
        let ghost longer = digits.take(k + 1);
        proof {
            assert(longer.drop_last() =~= digits.take(k));
            assert(longer.last() == c);
        }
        if !('0' <= c && c <= '9') {
            proof {
                assert forall|n: int| 0 < n <= digits.len() && all_digits(
                    #[trigger] digits.take(n),
                ) implies digits_value(digits.take(n)) <= max by {
                    if n > k {
                        assert(digits.take(n)[k] == c);
                    }
                }
            }
            return owned("invalid digit found in string");
        }
        let wide: u128 = value as u128 * 10 + (c as u32 - 48) as u128;
        proof {
            assert forall|j: int| 0 <= j < longer.len() implies is_digit(#[trigger] longer[j]) by {
                if j < k {
                    assert(digits.take(k)[j] == longer[j]);
                }
            }
        }
        if wide > max as u128 {
            proof {
                assert(all_digits(digits.take(k + 1)) && digits_value(digits.take(k + 1)) > max);
            }
            return owned("number too large to fit in target type");
        }
        value = wide as u64;
        i = i + 1;
    }
    owned("invalid digit found in string")
}

/// A number in base ten is digits that spell it.
proof fn decimal_is_its_number(n: nat)
    ensures
        decimal(n).len() > 0,
        all_digits(decimal(n)),
        digits_value(decimal(n)) == n,
    decreases n,
{
    let s = decimal(n);
    if n < 10 {
        assert(s.drop_last() =~= Seq::<char>::empty());
        assert(digits_value(s.drop_last()) == 0);
    } else {
        decimal_is_its_number(n / 10);
        assert(s.drop_last() =~= decimal(n / 10));
    }
}

/// A number written in base ten is read as that number, where there is room for it.
pub proof fn numbers_come_back(n: nat, max: nat)
    ensures
        number_of(trimmed(decimal(n)), max) == (if n <= max {
            Some(n)
        } else {
            None
        }),
{
    decimal_is_its_number(n);
    let s = decimal(n);
    assert(is_digit(s[0]) && is_digit(s[s.len() - 1]));
    assert(leading_spaces(s) == 0);
    assert(s.skip(0) =~= s);
    assert(trailing_spaces(s) == 0);
    assert(s.take(s.len() as int) =~= s);
}

/// A number with zeros before it is digits that spell it.
pub proof fn padded_is_its_number(n: nat, width: nat)
    ensures
        zero_padded(decimal(n), width).len() > 0,
        all_digits(zero_padded(decimal(n), width)),
        digits_value(zero_padded(decimal(n), width)) == n,
{
    decimal_is_its_number(n);
    let s = decimal(n);
    if s.len() < width {
        let zeros = Seq::new((width - s.len()) as nat, |i: int| '0');
        zeros_count_nothing(zeros, s);
    }
}

/// Zeros before digits change nothing.
proof fn zeros_count_nothing(zeros: Seq<char>, s: Seq<char>)
    requires
        forall|i: int| 0 <= i < zeros.len() ==> zeros[i] == '0',
    ensures
        digits_value(zeros + s) == digits_value(s),
    decreases zeros.len() + s.len(),
{
    if s.len() > 0 {
        assert((zeros + s).drop_last() =~= zeros + s.drop_last());
        assert((zeros + s).last() == s.last());
        zeros_count_nothing(zeros, s.drop_last());
    } else if zeros.len() > 0 {
        assert(zeros + s =~= zeros);
        assert(zeros.drop_last() + s =~= zeros.drop_last());
        zeros_count_nothing(zeros.drop_last(), s);
    } else {
        assert(zeros + s =~= s);
    }
}

/// More digits never spell a smaller number.
proof fn digits_value_grows(s: Seq<char>, k: int)
    requires
        0 <= k <= s.len(),
        all_digits(s),
    ensures
        digits_value(s.take(k)) <= digits_value(s),
    decreases s.len() - k,
{
    if k == s.len() {
        assert(s.take(k) == s);
    } else {
        digits_value_grows(s, k + 1);
        assert(s.take(k + 1).drop_last() == s.take(k));
        assert(is_digit(s[k]));
    }
}

/// Whether a character is white space.
pub fn whitespace(c: char) -> (r: bool)
    ensures
        r == is_space(c),
{
    let n: u32 = c as u32;
    (0x09 <= n && n <= 0x0d) || n == 0x20 || n == 0x85 || n == 0xa0 || n == 0x1680 || (0x2000 <= n
        && n <= 0x200a) || n == 0x2028 || n == 0x2029 || n == 0x202f || n == 0x205f || n == 0x3000
}

/// Whether a character is a control code.
pub fn control(c: char) -> (r: bool)
    ensures
        r == is_control(c),
{
    let n: u32 = c as u32;
    n < 0x20 || (0x7f <= n && n < 0xa0)
}

/// A text without the white space at its two ends.
pub fn trim(s: &str) -> (r: String)
    ensures
        r@ == trimmed(s@),
{
    let chars = characters(s);
    let mut from: usize = 0;
    proof {
        assert(s@.skip(0) == s@);
    }
    while from < chars.len() && whitespace(chars[from])
        invariant
            from <= chars.len(),
            chars@ == s@,
            leading_spaces(s@) == from + leading_spaces(s@.skip(from as int)),
        decreases chars.len() - from,
    {
        proof {
            assert(s@.skip(from as int).skip(1) == s@.skip(from + 1));
        }
        from = from + 1;
    }
    proof {
        assert(leading_spaces(s@.skip(from as int)) == 0);
        assert(leading_spaces(s@) == from);
    }
    let ghost front = s@.skip(from as int);
    let mut to: usize = chars.len();
    proof {
        assert(front.take(front.len() as int) == front);
    }
    while to > from && whitespace(chars[to - 1])
        invariant
            from <= to <= chars.len(),
            chars@ == s@,
            front == s@.skip(from as int),
            trailing_spaces(front) == (chars.len() - to) + trailing_spaces(
                front.take(to - from),
            ),
        decreases to,
    {
        proof {
            assert(front.take(to - from).drop_last() == front.take(to - from - 1));
        }
        to = to - 1;
    }
    proof {
        assert(trailing_spaces(front.take(to - from)) == 0);
        assert(chars@.subrange(from as int, to as int) == front.take(to - from));
    }
    spelled_range(&chars, from, to)
}

/// The number no larger than `max` that a text spells, if it spells one.
pub fn parse_number(s: &str, max: u64) -> (r: Option<u64>)
    ensures
        (match r {
            Some(n) => number_of(s@, max as nat) == Some(n as nat),
            None => number_of(s@, max as nat) is None,
        }),
{
    let chars = characters(s);
    let from: usize = if chars.len() > 0 && chars[0] == '+' {
        1
    } else {
        0
    };
    let ghost digits = s@.skip(from as int);
    proof {
        assert(from == 0 ==> digits == s@);
    }
    if from == chars.len() {
        return None;
    }
    let mut acc: u64 = 0;
    let mut i: usize = from;
    while i < chars.len()
        invariant
            from <= i <= chars.len(),
            chars@ == s@,
            digits == s@.skip(from as int),
            digits == (if s@.len() > 0 && s@[0] == '+' { s@.skip(1) } else { s@ }),
            acc == digits_value(digits.take(i - from)),
            acc <= max,
            forall|k: int| 0 <= k < i - from ==> is_digit(#[trigger] digits[k]),
        decreases chars.len() - i,
    {
        let c = chars[i];
        proof {
            assert(digits[i - from] == c);
            assert(digits.take(i - from + 1).drop_last() == digits.take(i - from));
        }
        if !('0' <= c && c <= '9') {
            return None;
        }
        let d: u64 = (c as u32 - 48) as u64;
        if d > max || acc > max / 10 || acc * 10 > max - d {
            proof {
                if all_digits(digits) {
                    digits_value_grows(digits, i - from + 1);
                }
            }
            return None;
        }
        acc = acc * 10 + d;
        i = i + 1;
    }
    proof {
        assert(digits.take(digits.len() as int) == digits);
    }
    Some(acc)
}

/// What lies between the occurrences of two characters: one piece more than there
/// are occurrences.
pub open spec fn pieces(s: Seq<char>, a: char, b: char) -> Seq<Seq<char>>
    decreases s.len(),
{
    if s.len() == 0 {
        seq![Seq::<char>::empty()]
    } else {
        let shorter = pieces(s.drop_last(), a, b);
        if s.last() == a || s.last() == b {
            shorter.push(Seq::empty())
        } else {
            shorter.drop_last().push(shorter.last().push(s.last()))
        }
    }
}

/// There is always at least one piece.
pub proof fn pieces_not_empty(s: Seq<char>, a: char, b: char)
    ensures
        pieces(s, a, b).len() >= 1,
    decreases s.len(),
{
    if s.len() > 0 {
        pieces_not_empty(s.drop_last(), a, b);
    }
}

/// The texts of a list without white space at their ends, empty ones left out.
pub open spec fn trimmed_nonempty(list: Seq<Seq<char>>) -> Seq<Seq<char>>
    decreases list.len(),
{
    if list.len() == 0 {
        Seq::empty()
    } else {
        let before = trimmed_nonempty(list.drop_last());
        if trimmed(list.last()).len() == 0 {
            before
        } else {
            before.push(trimmed(list.last()))
        }
    }
}

/// The lines of a text, whatever ends them, without white space at their ends
/// and without empty ones.
pub open spec fn content_lines(s: Seq<char>) -> Seq<Seq<char>> {
    trimmed_nonempty(pieces(s, '\n', '\r'))
}

/// The lines of a text, trimmed, without empty ones.
pub fn lines(s: &str) -> (r: Vec<String>)
    ensures
        texts(r@) == content_lines(s@),
{
    let chars = characters(s);
    let mut out: Vec<String> = Vec::new();
    let mut current = String::new();
    let mut i: usize = 0;
    proof {
        let first = pieces(s@.take(0), '\n', '\r');
        assert(first == seq![Seq::<char>::empty()]);
        assert(first.drop_last() == Seq::<Seq<char>>::empty());
        assert(texts(out@) == Seq::<Seq<char>>::empty());
    }
    while i < chars.len()
        invariant
            i <= chars.len(),
            chars@ == s@,
            pieces(s@.take(i as int), '\n', '\r').len() >= 1,
            current@ == pieces(s@.take(i as int), '\n', '\r').last(),
            texts(out@) == trimmed_nonempty(pieces(s@.take(i as int), '\n', '\r').drop_last()),
        decreases chars.len() - i,
    {
        let c = chars[i];
        let ghost before = pieces(s@.take(i as int), '\n', '\r');
        let ghost after = pieces(s@.take(i + 1), '\n', '\r');
        proof {
            assert(s@.take(i + 1).drop_last() == s@.take(i as int));
            assert(s@.take(i + 1).last() == c);
        }
        if c == '\n' || c == '\r' {
            proof {
                assert(after.drop_last() == before);
            }
            let line = trim(current.as_str());
            if line.as_str().unicode_len() > 0 {
                let ghost list = out@;
                out.push(line);
                proof {
                    assert(texts(out@) == texts(list).push(line@));
                }
            }
            current = String::new();
        } else {
            proof {
                assert(after.drop_last() == before.drop_last());
            }
            current.push(c);
        }
        i = i + 1;
    }
    let ghost all = pieces(s@, '\n', '\r');
    proof {
        assert(s@.take(i as int) == s@);
    }
    let line = trim(current.as_str());
    if line.as_str().unicode_len() > 0 {
        let ghost list = out@;
        out.push(line);
        proof {
            assert(texts(out@) == texts(list).push(line@));
        }
    }
    out
}

} // verus!
