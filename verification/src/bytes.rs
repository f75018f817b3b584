//! Little-endian integers and byte sequences.

use vstd::prelude::*;

verus! {

/// The `width` lowest bytes of `n`, least significant first.
pub open spec fn le_bytes(n: nat, width: nat) -> Seq<u8>
    decreases width,
{
    if width == 0 {
        Seq::empty()
    } else {
        seq![(n % 256) as u8] + le_bytes(n / 256, (width - 1) as nat)
    }
}

/// The number that a sequence of bytes spells, least significant first.
pub open spec fn le_value(s: Seq<u8>) -> nat
    decreases s.len(),
{
    if s.len() == 0 {
        0
    } else {
        s[0] as nat + 256 * le_value(s.skip(1))
    }
}

/// The bytes of a list of byte strings, one after the other.
pub open spec fn flattened(parts: Seq<Seq<u8>>) -> Seq<u8>
    decreases parts.len(),
{
    if parts.len() == 0 {
        Seq::empty()
    } else {
        flattened(parts.drop_last()) + parts.last()
    }
}

/// The byte sequences of a list of byte vectors.
pub open spec fn views(list: Seq<Vec<u8>>) -> Seq<Seq<u8>> {
    Seq::new(list.len(), |i: int| list[i]@)
}

/// The encoding of a number has the width asked for.
pub proof fn le_bytes_len(n: nat, width: nat)
    ensures
        le_bytes(n, width).len() == width,
    decreases width,
{
    if width > 0 {
        le_bytes_len(n / 256, (width - 1) as nat);
    }
}

/// Decoding a 32-bit or 64-bit encoding gives the number back.
pub proof fn le_round_trip(n: nat, width: nat)
    requires
        n < vstd::arithmetic::power::pow(256, width),
    ensures
        le_value(le_bytes(n, width)) == n,
    decreases width,
{
    reveal(vstd::arithmetic::power::pow);
    if width == 0 {
    } else {
        let rest = le_bytes(n / 256, (width - 1) as nat);
        let power: int = vstd::arithmetic::power::pow(256, (width - 1) as nat);
        assert(n < 256 * power);
        assert(n / 256 < power) by (nonlinear_arith)
            requires
                0 <= n < 256 * power,
        ;
        le_round_trip(n / 256, (width - 1) as nat);
        assert(le_bytes(n, width).skip(1) == rest);
    }
}

/// What the powers of 256 are for the two widths that AFF4 stores.
pub proof fn le_widths()
    ensures
        vstd::arithmetic::power::pow(256, 4) == 0x1_0000_0000,
        vstd::arithmetic::power::pow(256, 8) == 0x1_0000_0000_0000_0000,
{
    reveal(vstd::arithmetic::power::pow);
    reveal_with_fuel(vstd::arithmetic::power::pow, 9);
    assert(vstd::arithmetic::power::pow(256, 4) == 256 * (256 * (256 * (256 * 1))));
    assert(vstd::arithmetic::power::pow(256, 8) == 256 * (256 * (256 * (256
        * vstd::arithmetic::power::pow(256, 4)))));
}

/// Flattening a longer list appends the last part.
pub proof fn flattened_push(parts: Seq<Seq<u8>>, last: Seq<u8>)
    ensures
        flattened(parts.push(last)) == flattened(parts) + last,
{
    assert(parts.push(last).drop_last() == parts);
}

/// Append `bytes` to `out`.
pub fn append(out: &mut Vec<u8>, bytes: &[u8])
    ensures
        final(out)@ == old(out)@ + bytes@,
{
    out.extend_from_slice(bytes);
    proof {
        assert(out@ == old(out)@ + bytes@);
    }
}

/// A copy of some bytes.
pub fn copied(bytes: &[u8]) -> (r: Vec<u8>)
    ensures
        r@ == bytes@,
{
    vstd::slice::slice_to_vec(bytes)
}

/// A copy of `bytes[from..to]`.
pub fn copied_range(bytes: &[u8], from: usize, to: usize) -> (r: Vec<u8>)
    requires
        from <= to <= bytes.len(),
    ensures
        r@ == bytes@.subrange(from as int, to as int),
{
    vstd::slice::slice_to_vec(vstd::slice::slice_subrange(bytes, from, to))
}

/// Append the eight bytes of `n`, least significant first.
pub fn append_u64(out: &mut Vec<u8>, n: u64)
    ensures
        final(out)@ == old(out)@ + le_bytes(n as nat, 8),
{
    let mut rest: u64 = n;
    let mut i: usize = 0;
    while i < 8
        invariant
            i <= 8,
            out@ + le_bytes(rest as nat, (8 - i) as nat) == old(out)@ + le_bytes(n as nat, 8),
        decreases 8 - i,
    {
        proof {
            assert(out@.push((rest % 256) as u8) + le_bytes((rest / 256) as nat, (7 - i) as nat)
                == out@ + le_bytes(rest as nat, (8 - i) as nat));
        }
        out.push((rest % 256) as u8);
        rest = rest / 256;
        i = i + 1;
    }
    proof {
        assert(out@ + le_bytes(rest as nat, 0) == out@);
    }
}

/// Append the four bytes of `n`, least significant first.
pub fn append_u32(out: &mut Vec<u8>, n: u32)
    ensures
        final(out)@ == old(out)@ + le_bytes(n as nat, 4),
{
    let mut rest: u32 = n;
    let mut i: usize = 0;
    while i < 4
        invariant
            i <= 4,
            out@ + le_bytes(rest as nat, (4 - i) as nat) == old(out)@ + le_bytes(n as nat, 4),
        decreases 4 - i,
    {
        proof {
            assert(out@.push((rest % 256) as u8) + le_bytes((rest / 256) as nat, (3 - i) as nat)
                == out@ + le_bytes(rest as nat, (4 - i) as nat));
        }
        out.push((rest % 256) as u8);
        rest = rest / 256;
        i = i + 1;
    }
    proof {
        assert(out@ + le_bytes(rest as nat, 0) == out@);
    }
}

/// The number in the eight bytes at `at`.
pub fn u64_at(bytes: &[u8], at: usize) -> (r: u64)
    requires
        at + 8 <= bytes.len(),
    ensures
        r as nat == le_value(bytes@.subrange(at as int, at + 8)),
{
    proof {
        let s = bytes@.subrange(at as int, at + 8);
        reveal_with_fuel(le_value, 9);
        assert(s.skip(1).skip(1) == s.skip(2));
        assert(s.skip(2).skip(1) == s.skip(3));
        assert(s.skip(3).skip(1) == s.skip(4));
        assert(s.skip(4).skip(1) == s.skip(5));
        assert(s.skip(5).skip(1) == s.skip(6));
        assert(s.skip(6).skip(1) == s.skip(7));
        assert(s.skip(7).skip(1) == s.skip(8));
    }
    let low: u64 = bytes[at] as u64 + 256 * (bytes[at + 1] as u64 + 256 * (bytes[at + 2] as u64 + 256
        * (bytes[at + 3] as u64)));
    let high: u64 = bytes[at + 4] as u64 + 256 * (bytes[at + 5] as u64 + 256 * (bytes[at + 6] as u64
        + 256 * (bytes[at + 7] as u64)));
    low + 0x1_0000_0000 * high
}

/// The number in the four bytes at `at`.
pub fn u32_at(bytes: &[u8], at: usize) -> (r: u32)
    requires
        at + 4 <= bytes.len(),
    ensures
        r as nat == le_value(bytes@.subrange(at as int, at + 4)),
{
    proof {
        let s = bytes@.subrange(at as int, at + 4);
        reveal_with_fuel(le_value, 5);
        assert(s.skip(1).skip(1) == s.skip(2));
        assert(s.skip(2).skip(1) == s.skip(3));
        assert(s.skip(3).skip(1) == s.skip(4));
    }
    bytes[at] as u32 + 256 * (bytes[at + 1] as u32 + 256 * (bytes[at + 2] as u32 + 256 * (bytes[at
        + 3] as u32)))
}

/// Whether two byte strings are the same.
pub fn equal(a: &[u8], b: &[u8]) -> (r: bool)
    ensures
        r == (a@ == b@),
{
    if a.len() != b.len() {
        return false;
    }
    let mut i: usize = 0;
    while i < a.len()
        invariant
            i <= a.len() == b.len(),
            a@.take(i as int) == b@.take(i as int),
        decreases a.len() - i,
    {
        if a[i] != b[i] {
            return false;
        }
        proof {
            assert(a@.take(i + 1) == a@.take(i as int).push(a@[i as int]));
            assert(b@.take(i + 1) == b@.take(i as int).push(b@[i as int]));
        }
        i = i + 1;
    }
    proof {
        assert(a@.take(a@.len() as int) == a@);
        assert(b@.take(b@.len() as int) == b@);
    }
    true
}

} // verus!
