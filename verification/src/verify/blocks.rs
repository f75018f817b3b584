//! Per-chunk digests and the segments that record them.

use vstd::prelude::*;
use vstd::utf8::{encode_utf8, is_ascii_chars, is_ascii_chars_encode_utf8};
use vstd::string::*;

use crate::arn::{hex_digit, hex_value, member_of, Arn, NameMapping};
use crate::bytes;
use crate::codec::optional_bytes;
use crate::hash::{md5_digest, md5_raw, sha1_digest, sha1_raw};
use crate::order::{sort, sorted_texts};
use crate::text;
use crate::volume::Volume;
use crate::write::bevy::{md5_of_each, sha1_of_each, BLOCK_HASH_SUFFIX};

verus! {

/// The byte that two hexadecimal characters spell, if they spell one. A plus sign
/// may stand in place of the first.
pub open spec fn pair_value(a: u8, b: u8) -> Option<u8> {
    if a < 128 && b < 128 && hex_value(b as char) is Some {
        if a == 43 {
            Some(hex_value(b as char)->Some_0 as u8)
        } else if hex_value(a as char) is Some {
            Some((hex_value(a as char)->Some_0 * 16 + hex_value(b as char)->Some_0) as u8)
        } else {
            None
        }
    } else {
        None
    }
}

/// The bytes that pairs of hexadecimal characters spell, pairs that spell none
/// left out.
pub open spec fn hex_decoded(s: Seq<u8>) -> Seq<u8>
    decreases s.len(),
{
    if s.len() < 2 {
        Seq::empty()
    } else {
        match pair_value(s[0], s[1]) {
            Some(b) => seq![b] + hex_decoded(s.skip(2)),
            None => hex_decoded(s.skip(2)),
        }
    }
}

/// What was written in hexadecimal is read back.
pub proof fn hex_comes_back(data: Seq<u8>)
    ensures
        hex_decoded(encode_utf8(text::hex(data))) == data,
{
    let s = text::hex(data);
    assert(is_ascii_chars(s)) by {
        assert forall|i: int| 0 <= i < s.len() implies (#[trigger] s[i] as u32) < 128 by {
            assert(0 <= data[i / 2] as int / 16 < 16 && 0 <= data[i / 2] as int % 16 < 16);
        }
    }
    is_ascii_chars_encode_utf8(s);
    let raw = encode_utf8(s);
    assert forall|i: int| 0 <= i < data.len() implies pair_value(
        #[trigger] raw[2 * i],
        raw[2 * i + 1],
    ) == Some(data[i]) by {
        let b = data[i] as int;
        assert(s[2 * i] == text::digit_char(b / 16)) by {
            assert((2 * i) % 2 == 0 && (2 * i) / 2 == i);
        }
        assert(s[2 * i + 1] == text::digit_char(b % 16)) by {
            assert((2 * i + 1) % 2 == 1 && (2 * i + 1) / 2 == i);
        }
        assert(raw[2 * i] as char == s[2 * i]);
        assert(raw[2 * i + 1] as char == s[2 * i + 1]);
        assert(b == (b / 16) * 16 + b % 16);
    }
    pairs_decode(raw, data, 0);
    assert(raw.skip(0) =~= raw);
    assert(data.skip(0) =~= data);
}

/// Where every pair spells a byte, decoding gives those bytes.
proof fn pairs_decode(raw: Seq<u8>, data: Seq<u8>, n: int)
    requires
        raw.len() == 2 * data.len(),
        0 <= n <= data.len(),
        forall|i: int|
            0 <= i < data.len() ==> pair_value(#[trigger] raw[2 * i], raw[2 * i + 1]) == Some(
                data[i],
            ),
    ensures
        hex_decoded(raw.skip(2 * n)) == data.skip(n),
    decreases data.len() - n,
{
    let rest = raw.skip(2 * n);
    if n < data.len() {
        pairs_decode(raw, data, n + 1);
        assert(rest[0] == raw[2 * n] && rest[1] == raw[2 * n + 1]);
        assert(rest.skip(2) =~= raw.skip(2 * (n + 1)));
        assert(seq![data[n]] + data.skip(n + 1) =~= data.skip(n));
    } else {
        assert(data.skip(n) =~= Seq::<u8>::empty());
    }
}

/// Decode hexadecimal into bytes, leaving out anything malformed.
pub fn hex_to_bytes(hex: &str) -> (r: Vec<u8>)
    ensures
        r@ == hex_decoded(hex.spec_bytes()),
{
    let raw = hex.as_bytes();
    let mut out: Vec<u8> = Vec::new();
    let mut i: usize = 0;
    proof {
        assert(raw@.skip(0) == raw@);
        assert(out@ + hex_decoded(raw@) == hex_decoded(raw@));
    }
    while raw.len() - i >= 2
        invariant
            i <= raw.len(),
            raw@ == hex.spec_bytes(),
            out@ + hex_decoded(raw@.skip(i as int)) == hex_decoded(raw@),
        decreases raw.len() - i,
    {
        let a: u8 = raw[i];
        let b: u8 = raw[i + 1];
        let ghost rest = raw@.skip(i as int);
        proof {
            assert(rest[0] == a && rest[1] == b);
            assert(rest.skip(2) == raw@.skip(i + 2));
        }
        let mut value: Option<u8> = None;
        if a < 128 && b < 128 {
            match hex_digit(b as char) {
                Some(low) => {
                    if a == 43 {
                        value = Some(low);
                    } else {
                        match hex_digit(a as char) {
                            Some(high) => {
                                value = Some(high * 16 + low);
                            },
                            None => {},
                        }
                    }
                },
                None => {},
            }
        }
        proof {
            assert(value == pair_value(a, b));
        }
        match value {
            Some(v) => {
                proof {
                    assert(out@ + (seq![v] + hex_decoded(rest.skip(2))) == out@.push(v)
                        + hex_decoded(rest.skip(2)));
                }
                out.push(v);
            },
            None => {},
        }
        i = i + 2;
    }
    proof {
        assert(hex_decoded(raw@.skip(i as int)) == Seq::<u8>::empty());
        assert(out@ + Seq::<u8>::empty() == out@);
    }
    out
}

/// Bytes as lower-case hexadecimal.
pub fn to_hex(data: &[u8]) -> (r: String)
    ensures
        r@ == text::hex(data@),
{
    text::hex_lower(data)
}

/// The name a digest's segments end with.
pub open spec fn block_hash_tail(suffix: Seq<char>) -> Seq<char> {
    BLOCK_HASH_SUFFIX@ + suffix
}

/// The names of a list that begin and end as asked, in the order of the list.
pub open spec fn names_between(list: Seq<Seq<char>>, prefix: Seq<char>, tail: Seq<char>) -> Seq<
    Seq<char>,
>
    decreases list.len(),
{
    if list.len() == 0 {
        Seq::empty()
    } else {
        let shorter = names_between(list.drop_last(), prefix, tail);
        if text::has_prefix(list.last(), prefix) && text::has_suffix(list.last(), tail) {
            shorter.push(list.last())
        } else {
            shorter
        }
    }
}

/// The segments that record a stream's per-chunk digests under one algorithm, in
/// name order, which is bevy order.
pub open spec fn block_segments<V: Volume>(volume: &V, base: Seq<char>, suffix: Seq<char>) -> Seq<
    Seq<char>,
> {
    sorted_texts(names_between(volume.listing(), base + "/"@, block_hash_tail(suffix)))
}

/// The segments that record a stream's per-chunk digests under one algorithm.
pub fn block_hash_segments<V: Volume>(volume: &V, base: &str, suffix: &str) -> (r: Vec<String>)
    ensures
        text::texts(r@) == block_segments(volume, base@, suffix@),
{
    let tail = text::cat2(BLOCK_HASH_SUFFIX, suffix);
    let prefix = text::cat2(base, "/");
    let listed = volume.segments();
    let ghost all = text::texts(listed@);
    let mut found: Vec<String> = Vec::new();
    let mut i: usize = 0;
    proof {
        assert(text::texts(found@) == Seq::<Seq<char>>::empty());
    }
    while i < listed.len()
        invariant
            i <= listed.len(),
            all == text::texts(listed@),
            prefix@ == base@ + "/"@,
            tail@ == block_hash_tail(suffix@),
            text::texts(found@) == names_between(all.take(i as int), prefix@, tail@),
        decreases listed.len() - i,
    {
        proof {
            assert(all.take(i + 1).drop_last() == all.take(i as int));
            assert(all.take(i + 1).last() == listed@[i as int]@);
        }
        if text::starts_with(listed[i].as_str(), prefix.as_str()) && text::ends_with(
            listed[i].as_str(),
            tail.as_str(),
        ) {
            let ghost before = found@;
            found.push(listed[i].clone());
            proof {
                assert(text::texts(found@) == text::texts(before).push(listed@[i as int]@));
            }
        }
        i = i + 1;
    }
    proof {
        assert(all.take(i as int) == all);
    }
    sort(&found)
}

/// What follows the last slash of a name, the whole name where there is none.
pub open spec fn leaf(name: Seq<char>) -> Seq<char>
    decreases name.len(),
{
    if name.len() == 0 {
        Seq::empty()
    } else if name.last() == '/' {
        Seq::empty()
    } else {
        leaf(name.drop_last()).push(name.last())
    }
}

/// Whether a leaf is a bevy's number: at least eight digits and nothing else.
pub open spec fn is_bevy_number(leaf: Seq<char>) -> bool {
    leaf.len() >= 8 && text::all_digits(leaf)
}

/// Whether a volume lists a bevy of the stream stored under `base`.
pub open spec fn lists_bevy(listing: Seq<Seq<char>>, base: Seq<char>) -> bool {
    exists|i: int|
        0 <= i < listing.len() && text::has_prefix(#[trigger] listing[i], base + "/"@)
            && is_bevy_number(leaf(listing[i]))
}

/// Whether a volume holds a stream's data: one of its bevies, not only digests or
/// indices of it.
pub open spec fn holds_data<V: Volume>(volume: &V, stream: Seq<char>) -> bool {
    match member_of(stream, volume.name(), NameMapping::Escaped) {
        None => false,
        Some(base) => lists_bevy(volume.listing(), base),
    }
}

/// What follows the last slash of a name, the whole name where there is none.
pub fn leaf_of(name: &str) -> (r: String)
    ensures
        r@ == leaf(name@),
{
    let chars = text::characters(name);
    let mut from: usize = chars.len();
    proof {
        assert(name@.take(name@.len() as int) == name@);
        assert(leaf(name@) + Seq::<char>::empty() == leaf(name@));
        assert(name@.skip(name@.len() as int) == Seq::<char>::empty());
    }
    while from > 0 && chars[from - 1] != '/'
        invariant
            from <= chars.len(),
            chars@ == name@,
            leaf(name@) == leaf(name@.take(from as int)) + name@.skip(from as int),
        decreases from,
    {
        let c = chars[from - 1];
        proof {
            let front = name@.take(from as int);
            assert(front.drop_last() == name@.take(from - 1));
            assert(front.last() == c);
            assert(seq![c] + name@.skip(from as int) == name@.skip(from - 1));
            assert(leaf(name@.take(from - 1)).push(c) + name@.skip(from as int) == leaf(
                name@.take(from - 1),
            ) + name@.skip(from - 1));
        }
        from = from - 1;
    }
    proof {
        assert(leaf(name@.take(from as int)) == Seq::<char>::empty());
        assert(leaf(name@) == name@.skip(from as int));
        assert(name@.subrange(from as int, name@.len() as int) == name@.skip(from as int));
    }
    let all: usize = chars.len();
    text::spelled_range(&chars, from, all)
}

/// Whether a name ends with a bevy's number after a slash or alone.
fn ends_in_bevy_number(name: &str) -> (r: bool)
    ensures
        r == is_bevy_number(leaf(name@)),
{
    let last = leaf_of(name);
    let chars = text::characters(last.as_str());
    let mut i: usize = 0;
    while i < chars.len()
        invariant
            i <= chars.len(),
            chars@ == leaf(name@),
            forall|k: int| 0 <= k < i ==> text::is_digit(#[trigger] chars@[k]),
        decreases chars.len() - i,
    {
        let c = chars[i];
        if c < '0' || '9' < c {
            proof {
                assert(!text::is_digit(chars@[i as int]));
            }
            return false;
        }
        i = i + 1;
    }
    chars.len() >= 8
}

/// Whether a volume holds a stream's data.
pub fn volume_holds_stream_data<V: Volume>(volume: &V, stream: &Arn) -> (r: bool)
    ensures
        r == holds_data(volume, stream@),
{
    let base = match stream.member_name(&volume.arn(), NameMapping::Escaped) {
        Some(base) => base,
        None => return false,
    };
    let prefix = text::cat2(base.as_str(), "/");
    let listed = volume.segments();
    let ghost all = text::texts(listed@);
    let mut i: usize = 0;
    while i < listed.len()
        invariant
            i <= listed.len(),
            all == text::texts(listed@),
            all == volume.listing(),
            member_of(stream@, volume.name(), NameMapping::Escaped) == Some(base@),
            prefix@ == base@ + "/"@,
            forall|k: int|
                0 <= k < i ==> !(text::has_prefix(#[trigger] all[k], prefix@) && is_bevy_number(
                    leaf(all[k]),
                )),
        decreases listed.len() - i,
    {
        if text::starts_with(listed[i].as_str(), prefix.as_str()) && ends_in_bevy_number(
            listed[i].as_str(),
        ) {
            proof {
                assert(text::has_prefix(all[i as int], base@ + "/"@));
            }
            return true;
        }
        i = i + 1;
    }
    false
}

/// Pieces of `n` bytes that a byte string is made of, without the rest.
pub open spec fn full_chunks(data: Seq<u8>, n: nat) -> Seq<Seq<u8>> {
    Seq::new(data.len() / n, |i: int| data.subrange(i * n, i * n + n))
}

/// What is left of a byte string after its pieces of `n` bytes.
pub open spec fn remainder(data: Seq<u8>, n: nat) -> Seq<u8> {
    data.skip((data.len() / n) * n as int)
}

/// The pieces of `n` bytes that a byte string is made of, and the rest as a
/// shorter last one where there is a rest.
pub open spec fn cut(data: Seq<u8>, n: nat) -> Seq<Seq<u8>> {
    if remainder(data, n).len() == 0 {
        full_chunks(data, n)
    } else {
        full_chunks(data, n).push(remainder(data, n))
    }
}

/// The pieces of two byte strings one after the other are those of the first, and then
/// those of what it leaves over with the second behind it.
pub proof fn pieces_go_on(a: Seq<u8>, b: Seq<u8>, n: nat)
    requires
        n > 0,
    ensures
        full_chunks(a + b, n) == full_chunks(a, n) + full_chunks(remainder(a, n) + b, n),
        remainder(a + b, n) == remainder(remainder(a, n) + b, n),
{
    let q = (a.len() / n) as int;
    let d = n as int;
    vstd::arithmetic::div_mod::lemma_fundamental_div_mod(a.len() as int, d);
    assert(d * q == q * d) by (nonlinear_arith);
    let rest = remainder(a, n) + b;
    assert(0 <= q * d <= a.len()) by (nonlinear_arith)
        requires
            a.len() == d * q + a.len() as int % d,
            0 <= a.len() as int % d,
            q >= 0,
            d > 0,
    ;
    assert(rest =~= (a + b).skip(q * d));
    vstd::arithmetic::div_mod::lemma_hoist_over_denominator(rest.len() as int, q, n);
    let k = (rest.len() / n) as int;
    assert((a + b).len() / n == q + k);
    assert((q + k) * d == q * d + k * d) by (nonlinear_arith);
    vstd::arithmetic::div_mod::lemma_fundamental_div_mod(rest.len() as int, d);
    assert(d * k == k * d) by (nonlinear_arith);
    let all = full_chunks(a + b, n);
    let first = full_chunks(a, n);
    let more = full_chunks(rest, n);
    assert forall|i: int| 0 <= i < all.len() implies all[i] == (first + more)[i] by {
        assert(0 <= i * d && i * d + d <= (q + k) * d) by (nonlinear_arith)
            requires
                0 <= i < q + k,
                d > 0,
        ;
        if i < q {
            assert(i * d + d <= q * d) by (nonlinear_arith)
                requires
                    i < q,
                    d > 0,
            ;
            assert(all[i] =~= first[i]);
        } else {
            let j = i - q;
            assert(i * d == q * d + j * d) by (nonlinear_arith)
                requires
                    j == i - q,
            ;
            assert(0 <= j * d && j * d + d <= k * d) by (nonlinear_arith)
                requires
                    0 <= j < k,
                    d > 0,
            ;
            assert(all[i] =~= more[j]);
        }
    }
    assert(all =~= first + more);
    assert(remainder(a + b, n) =~= remainder(rest, n));
}

/// Where a byte string holds fewer than `n` bytes it has no piece.
proof fn short_has_no_piece(data: Seq<u8>, n: nat)
    requires
        data.len() < n,
    ensures
        full_chunks(data, n) == Seq::<Seq<u8>>::empty(),
        remainder(data, n) == data,
{
    assert(data.len() / n == 0) by (nonlinear_arith)
        requires
            data.len() < n,
    ;
    assert(full_chunks(data, n) =~= Seq::<Seq<u8>>::empty());
    assert(remainder(data, n) =~= data);
}

/// A first piece of exactly `n` bytes comes first, and the rest follows.
proof fn piece_comes_first(head: Seq<u8>, rest: Seq<u8>, n: nat)
    requires
        head.len() == n,
        n > 0,
    ensures
        full_chunks(head + rest, n) == seq![head] + full_chunks(rest, n),
        remainder(head + rest, n) == remainder(rest, n),
{
    let all = head + rest;
    let q = rest.len() / n;
    assert(all.len() / n == q + 1) by (nonlinear_arith)
        requires
            all.len() == n + rest.len(),
            q == rest.len() / n,
            n > 0,
    ;
    assert(q * n <= rest.len()) by (nonlinear_arith)
        requires
            q == rest.len() / n,
            n > 0,
    ;
    let left = full_chunks(all, n);
    let right = seq![head] + full_chunks(rest, n);
    assert(left.len() == right.len());
    assert forall|i: int| 0 <= i < left.len() implies left[i] == right[i] by {
        if i == 0 {
            assert(0 * n == 0) by (nonlinear_arith);
            assert(all.subrange(0, n as int) =~= head);
        } else {
            assert(i * n == (i - 1) * n + n) by (nonlinear_arith);
            assert((i - 1) * n + n <= rest.len()) by (nonlinear_arith)
                requires
                    i <= q,
                    q * n <= rest.len(),
                    n > 0,
            ;
            assert(0 <= (i - 1) * n) by (nonlinear_arith)
                requires
                    i >= 1,
                    n > 0,
            ;
            assert(all.subrange(i * n, i * n + n) =~= rest.subrange((i - 1) * n, (i - 1) * n + n));
        }
    }
    assert(left =~= right);
    assert((q + 1) * n == q * n + n) by (nonlinear_arith);
    assert(remainder(all, n) =~= remainder(rest, n));
}

/// Cutting is insensitive to how bytes are delivered: what is cut off a first
/// delivery, and off its rest followed by a second, is what is cut off both at
/// once.
pub proof fn cutting_ignores_slicing(a: Seq<u8>, b: Seq<u8>, n: nat)
    requires
        n > 0,
    ensures
        full_chunks(a + b, n) == full_chunks(a, n) + full_chunks(remainder(a, n) + b, n),
        remainder(a + b, n) == remainder(remainder(a, n) + b, n),
    decreases a.len(),
{
    if a.len() < n {
        short_has_no_piece(a, n);
        assert(Seq::<Seq<u8>>::empty() + full_chunks(a + b, n) =~= full_chunks(a + b, n));
    } else {
        let head = a.take(n as int);
        let tail = a.skip(n as int);
        assert(a =~= head + tail);
        assert(a + b =~= head + (tail + b));
        piece_comes_first(head, tail, n);
        piece_comes_first(head, tail + b, n);
        cutting_ignores_slicing(tail, b, n);
        assert(seq![head] + (full_chunks(tail, n) + full_chunks(remainder(tail, n) + b, n)) =~= (
        seq![head] + full_chunks(tail, n)) + full_chunks(remainder(tail, n) + b, n));
    }
}

/// The rest is shorter than a piece.
pub proof fn remainder_is_short(data: Seq<u8>, n: nat)
    requires
        n > 0,
    ensures
        remainder(data, n).len() < n,
{
    let q = data.len() / n;
    assert(q * n <= data.len() < q * n + n) by (nonlinear_arith)
        requires
            q == data.len() / n,
            n > 0,
    ;
}

/// The digests of one list after those of another are the digests of both.
proof fn digests_of_each_add(a: Seq<Seq<u8>>, b: Seq<Seq<u8>>)
    ensures
        md5_of_each(a + b) == md5_of_each(a) + md5_of_each(b),
        sha1_of_each(a + b) == sha1_of_each(a) + sha1_of_each(b),
    decreases b.len(),
{
    if b.len() == 0 {
        assert(a + b =~= a);
        assert(md5_of_each(a) + Seq::<u8>::empty() =~= md5_of_each(a));
        assert(sha1_of_each(a) + Seq::<u8>::empty() =~= sha1_of_each(a));
    } else {
        digests_of_each_add(a, b.drop_last());
        assert((a + b).drop_last() =~= a + b.drop_last());
        assert((a + b).last() == b.last());
        assert(md5_of_each(a) + (md5_of_each(b.drop_last()) + md5_digest(b.last())) =~= (
        md5_of_each(a) + md5_of_each(b.drop_last())) + md5_digest(b.last()));
        assert(sha1_of_each(a) + (sha1_of_each(b.drop_last()) + sha1_digest(b.last())) =~= (
        sha1_of_each(a) + sha1_of_each(b.drop_last())) + sha1_digest(b.last()));
    }
}

/// Per-chunk digests, accumulated while a stream is read. Only the algorithms
/// that have something to be compared with are computed.
#[derive(Debug)]
pub struct BlockDigests {
    /// MD5 digests, where wanted.
    pub md5: Option<Vec<u8>>,
    /// SHA-1 digests, where wanted.
    pub sha1: Option<Vec<u8>>,
}

/// What [`BlockDigests`] hold, as plain values.
#[verifier::ext_equal]
pub struct BlockDigestsView {
    /// MD5 digests, where wanted.
    pub md5: Option<Seq<u8>>,
    /// SHA-1 digests, where wanted.
    pub sha1: Option<Seq<u8>>,
}

impl View for BlockDigests {
    type V = BlockDigestsView;

    open spec fn view(&self) -> BlockDigestsView {
        BlockDigestsView {
            md5: optional_bytes(self.md5),
            sha1: optional_bytes(self.sha1),
        }
    }
}

impl BlockDigestsView {
    /// The digests after those of some further chunks.
    pub open spec fn with(self, chunks: Seq<Seq<u8>>) -> BlockDigestsView {
        BlockDigestsView {
            md5: match self.md5 {
                Some(d) => Some(d + md5_of_each(chunks)),
                None => None,
            },
            sha1: match self.sha1 {
                Some(d) => Some(d + sha1_of_each(chunks)),
                None => None,
            },
        }
    }
}

/// Adding the digests of some chunks and then of others adds those of all.
pub proof fn with_twice(d: BlockDigestsView, a: Seq<Seq<u8>>, b: Seq<Seq<u8>>)
    ensures
        d.with(a).with(b) == d.with(a + b),
{
    digests_of_each_add(a, b);
    match d.md5 {
        Some(m) => assert(m + md5_of_each(a) + md5_of_each(b) =~= m + (md5_of_each(a)
            + md5_of_each(b))),
        None => {},
    }
    match d.sha1 {
        Some(m) => assert(m + sha1_of_each(a) + sha1_of_each(b) =~= m + (sha1_of_each(a)
            + sha1_of_each(b))),
        None => {},
    }
}

/// Which per-chunk digests a stream records something to compare with.
pub open spec fn wanted_digests<V: Volume>(volume: &V, base: Seq<char>) -> Option<BlockDigestsView> {
    let md5 = block_segments(volume, base, "md5"@).len() > 0;
    let sha1 = block_segments(volume, base, "sha1"@).len() > 0;
    if !md5 && !sha1 {
        None
    } else {
        Some(
            BlockDigestsView {
                md5: if md5 {
                    Some(Seq::empty())
                } else {
                    None
                },
                sha1: if sha1 {
                    Some(Seq::empty())
                } else {
                    None
                },
            },
        )
    }
}

impl BlockDigests {
    /// Both algorithms, over nothing yet.
    pub fn all() -> (r: Self)
        ensures
            r@ == (BlockDigestsView { md5: Some(Seq::empty()), sha1: Some(Seq::empty()) }),
    {
        let r = BlockDigests { md5: Some(Vec::new()), sha1: Some(Vec::new()) };
        proof {
            assert(r@ =~= (BlockDigestsView { md5: Some(Seq::empty()), sha1: Some(Seq::empty()) }));
        }
        r
    }

    /// The algorithms that a stream records per-chunk digests under, over nothing
    /// yet; nothing at all where it records none.
    pub fn wanted<V: Volume>(volume: &V, base: &str) -> (r: Option<Self>)
        ensures
            (match r {
                Some(d) => wanted_digests(volume, base@) == Some(d@),
                None => wanted_digests(volume, base@) is None,
            }),
    {
        let md5_names = block_hash_segments(volume, base, "md5");
        let sha1_names = block_hash_segments(volume, base, "sha1");
        let md5: bool = md5_names.len() > 0;
        let sha1: bool = sha1_names.len() > 0;
        proof {
            assert(text::texts(md5_names@).len() == md5_names@.len());
            assert(text::texts(sha1_names@).len() == sha1_names@.len());
        }
        if !md5 && !sha1 {
            return None;
        }
        let r = BlockDigests {
            md5: if md5 {
                Some(Vec::new())
            } else {
                None
            },
            sha1: if sha1 {
                Some(Vec::new())
            } else {
                None
            },
        };
        proof {
            let expected = wanted_digests(volume, base@)->Some_0;
            assert(r@ =~= expected);
        }
        Some(r)
    }

    /// Absorb the next bytes, digesting each chunk they complete. `carry` holds
    /// what the chunk in progress has so far.
    pub fn feed(&mut self, data: &[u8], chunk_size: usize, carry: &mut Vec<u8>)
        requires
            chunk_size > 0,
            old(carry)@.len() < chunk_size,
        ensures
            final(self)@ == old(self)@.with(full_chunks(old(carry)@ + data@, chunk_size as nat)),
            final(carry)@ == remainder(old(carry)@ + data@, chunk_size as nat),
            final(carry)@.len() < chunk_size,
    {
        let ghost n = chunk_size as nat;
        let ghost all = carry@ + data@;
        let mut at: usize = 0;
        let ghost mut done: Seq<Seq<u8>> = Seq::empty();
        proof {
            assert(carry@ + data@.skip(0) =~= all);
            assert(done + full_chunks(all, n) =~= full_chunks(all, n));
            assert(self@ =~= old(self)@.with(done)) by {
                match old(self)@.md5 {
                    Some(d) => assert(d + Seq::<u8>::empty() =~= d),
                    None => {},
                }
                match old(self)@.sha1 {
                    Some(d) => assert(d + Seq::<u8>::empty() =~= d),
                    None => {},
                }
            }
        }
        while at < data.len()
            invariant
                n == chunk_size,
                chunk_size > 0,
                at <= data.len(),
                carry@.len() < chunk_size,
                all == old(carry)@ + data@,
                self@ == old(self)@.with(done),
                done + full_chunks(carry@ + data@.skip(at as int), n) == full_chunks(all, n),
                remainder(carry@ + data@.skip(at as int), n) == remainder(all, n),
            decreases data.len() - at,
        {
            let want: usize = chunk_size - carry.len();
            let take: usize = if want < data.len() - at {
                want
            } else {
                data.len() - at
            };
            let ghost carry0 = carry@;
            let piece = vstd::slice::slice_subrange(data, at, at + take);
            bytes::append(carry, piece);
            proof {
                assert(carry0 + data@.skip(at as int) =~= carry@ + data@.skip(at + take));
            }
            at = at + take;
            if carry.len() == chunk_size {
                let ghost digests0 = self@;
                self.emit(carry.as_slice());
                proof {
                    piece_comes_first(carry@, data@.skip(at as int), n);
                    let rest = data@.skip(at as int);
                    assert(done + (seq![carry@] + full_chunks(rest, n)) =~= done.push(carry@)
                        + full_chunks(rest, n));
                    digests_of_each_add(done, seq![carry@]);
                    assert(done + seq![carry@] =~= done.push(carry@));
                    assert(self@ =~= old(self)@.with(done.push(carry@))) by {
                        match old(self)@.md5 {
                            Some(d) => assert(d + md5_of_each(done) + md5_of_each(seq![carry@])
                                =~= d + (md5_of_each(done) + md5_of_each(seq![carry@]))),
                            None => {},
                        }
                        match old(self)@.sha1 {
                            Some(d) => assert(d + sha1_of_each(done) + sha1_of_each(seq![carry@])
                                =~= d + (sha1_of_each(done) + sha1_of_each(seq![carry@]))),
                            None => {},
                        }
                    }
                    done = done.push(carry@);
                }
                carry.clear();
                proof {
                    assert(Seq::<u8>::empty() + data@.skip(at as int) =~= data@.skip(at as int));
                }
            }
        }
        proof {
            assert(carry@ + data@.skip(at as int) =~= carry@);
            short_has_no_piece(carry@, n);
            assert(done + Seq::<Seq<u8>>::empty() =~= done);
        }
    }

    /// Digest the final, shorter chunk if there is one.
    pub fn finish(&mut self, carry: &mut Vec<u8>)
        ensures
            final(carry)@ == Seq::<u8>::empty(),
            final(self)@ == (if old(carry)@.len() == 0 {
                old(self)@
            } else {
                old(self)@.with(seq![old(carry)@])
            }),
    {
        if carry.len() > 0 {
            self.emit(carry.as_slice());
            carry.clear();
        } else {
            proof {
                assert(carry@ =~= Seq::<u8>::empty());
            }
        }
    }

    /// Digest one chunk.
    fn emit(&mut self, chunk: &[u8])
        ensures
            final(self)@ == old(self)@.with(seq![chunk@]),
    {
        proof {
            let one = seq![chunk@];
            assert(one.drop_last() =~= Seq::<Seq<u8>>::empty());
            assert(md5_of_each(one) =~= md5_digest(chunk@)) by {
                assert(md5_of_each(one) == md5_of_each(one.drop_last()) + md5_digest(chunk@));
                assert(md5_of_each(one.drop_last()) =~= Seq::<u8>::empty());
            }
            assert(sha1_of_each(one) =~= sha1_digest(chunk@)) by {
                assert(sha1_of_each(one) == sha1_of_each(one.drop_last()) + sha1_digest(chunk@));
                assert(sha1_of_each(one.drop_last()) =~= Seq::<u8>::empty());
            }
        }
        let mut md5: Option<Vec<u8>> = None;
        std::mem::swap(&mut md5, &mut self.md5);
        self.md5 = match md5 {
            Some(held) => {
                let mut digests = held;
                bytes::append(&mut digests, md5_raw(chunk).as_slice());
                Some(digests)
            },
            None => None,
        };
        let mut sha1: Option<Vec<u8>> = None;
        std::mem::swap(&mut sha1, &mut self.sha1);
        self.sha1 = match sha1 {
            Some(held) => {
                let mut digests = held;
                bytes::append(&mut digests, sha1_raw(chunk).as_slice());
                Some(digests)
            },
            None => None,
        };
        proof {
            assert(self@ =~= old(self)@.with(seq![chunk@]));
        }
    }
}

/// Whether two lists of digests agree on the `i`th.
pub open spec fn same_digest(a: Seq<u8>, b: Seq<u8>, width: nat, i: int) -> bool {
    a.subrange(i * width, i * width + width) == b.subrange(i * width, i * width + width)
}

/// How many whole digests both lists hold.
pub open spec fn common_digests(a: Seq<u8>, b: Seq<u8>, width: nat) -> nat {
    if a.len() / width < b.len() / width {
        a.len() / width
    } else {
        b.len() / width
    }
}

/// Whether `r` is the first digest in which two lists differ: the first unequal
/// one, or the first that one list lacks.
pub open spec fn is_first_difference(a: Seq<u8>, b: Seq<u8>, width: nat, r: Option<usize>) -> bool {
    let n = common_digests(a, b, width);
    match r {
        Some(k) => {
            &&& forall|i: int| 0 <= i < k ==> #[trigger] same_digest(a, b, width, i)
            &&& (k < n && !same_digest(a, b, width, k as int)) || (k == n && a.len() != b.len())
        },
        None => {
            &&& a.len() == b.len()
            &&& forall|i: int| 0 <= i < n ==> #[trigger] same_digest(a, b, width, i)
        },
    }
}

/// Two lists differ first in one digest only.
pub proof fn first_difference_is_unique(
    a: Seq<u8>,
    b: Seq<u8>,
    width: nat,
    r: Option<usize>,
    s: Option<usize>,
)
    requires
        is_first_difference(a, b, width, r),
        is_first_difference(a, b, width, s),
    ensures
        r == s,
{
    match (r, s) {
        (Some(k), Some(l)) => {
            if k < l {
                assert(same_digest(a, b, width, k as int));
            } else if l < k {
                assert(same_digest(a, b, width, l as int));
            }
        },
        (Some(k), None) => {
            assert(k < common_digests(a, b, width) ==> same_digest(a, b, width, k as int));
        },
        (None, Some(l)) => {
            assert(l < common_digests(a, b, width) ==> same_digest(a, b, width, l as int));
        },
        (None, None) => {},
    }
}

/// The first digest in which two lists differ, if they do.
pub open spec fn first_differing(a: Seq<u8>, b: Seq<u8>, width: nat) -> Option<usize> {
    choose|r: Option<usize>| is_first_difference(a, b, width, r)
}

/// The first digest in which two lists differ, comparing digest by digest.
pub fn first_difference(recorded: &[u8], computed: &[u8], width: usize) -> (r: Option<usize>)
    requires
        width > 0,
    ensures
        is_first_difference(recorded@, computed@, width as nat, r),
        r == first_differing(recorded@, computed@, width as nat),
{
    let r = find_difference(recorded, computed, width);
    proof {
        first_difference_is_unique(
            recorded@,
            computed@,
            width as nat,
            r,
            first_differing(recorded@, computed@, width as nat),
        );
    }
    r
}

/// The first digest in which two lists differ.
fn find_difference(recorded: &[u8], computed: &[u8], width: usize) -> (r: Option<usize>)
    requires
        width > 0,
    ensures
        is_first_difference(recorded@, computed@, width as nat, r),
{
    let recorded_len: usize = recorded.len();
    let a: usize = recorded_len / width;
    let b: usize = computed.len() / width;
    let count: usize = if a < b {
        a
    } else {
        b
    };
    let mut i: usize = 0;
    while i < count
        invariant
            i <= count,
            width > 0,
            recorded_len == recorded@.len(),
            count == common_digests(recorded@, computed@, width as nat),
            forall|k: int|
                0 <= k < i ==> #[trigger] same_digest(recorded@, computed@, width as nat, k),
        decreases count - i,
    {
        proof {
            assert((i + 1) * width <= recorded@.len()) by (nonlinear_arith)
                requires
                    i + 1 <= recorded@.len() / width as nat,
                    width > 0,
            ;
            assert((i + 1) * width <= computed@.len()) by (nonlinear_arith)
                requires
                    i + 1 <= computed@.len() / width as nat,
                    width > 0,
            ;
            assert((i + 1) * width == i * width + width) by (nonlinear_arith);
        }
        let from: usize = i * width;
        let left = vstd::slice::slice_subrange(recorded, from, from + width);
        let right = vstd::slice::slice_subrange(computed, from, from + width);
        if !bytes::equal(left, right) {
            proof {
                assert(!same_digest(recorded@, computed@, width as nat, i as int));
            }
            return Some(i);
        }
        proof {
            assert(same_digest(recorded@, computed@, width as nat, i as int));
        }
        i = i + 1;
    }
    if recorded.len() != computed.len() {
        Some(count)
    } else {
        None
    }
}

} // verus!
