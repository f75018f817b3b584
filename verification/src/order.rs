//! Ordering texts, and sorting by them.

use vstd::prelude::*;

use crate::text;

verus! {

/// Whether `a` comes before `b`: character by character, and the shorter first
/// where one begins with the other.
pub open spec fn before(a: Seq<char>, b: Seq<char>) -> bool
    decreases a.len(),
{
    if b.len() == 0 {
        false
    } else if a.len() == 0 {
        true
    } else if a[0] != b[0] {
        a[0] < b[0]
    } else {
        before(a.skip(1), b.skip(1))
    }
}

/// Whether `a` comes before `b`.
pub fn is_before(a: &str, b: &str) -> (r: bool)
    ensures
        r == before(a@, b@),
{
    let left = text::characters(a);
    let right = text::characters(b);
    let mut i: usize = 0;
    proof {
        assert(a@.skip(0) == a@);
        assert(b@.skip(0) == b@);
    }
    while i < left.len() && i < right.len() && left[i] == right[i]
        invariant
            i <= left.len(),
            i <= right.len(),
            left@ == a@,
            right@ == b@,
            before(a@, b@) == before(a@.skip(i as int), b@.skip(i as int)),
        decreases left.len() - i,
    {
        proof {
            assert(a@.skip(i as int).skip(1) == a@.skip(i + 1));
            assert(b@.skip(i as int).skip(1) == b@.skip(i + 1));
        }
        i = i + 1;
    }
    if i >= right.len() {
        false
    } else if i >= left.len() {
        true
    } else {
        left[i] < right[i]
    }
}

/// Nothing comes before itself, and of two texts at most one comes first.
pub proof fn before_is_asymmetric(a: Seq<char>, b: Seq<char>)
    ensures
        !(before(a, b) && before(b, a)),
        !before(a, a),
    decreases a.len(),
{
    if a.len() > 0 {
        before_is_asymmetric(a.skip(1), a.skip(1));
        if b.len() > 0 && a[0] == b[0] {
            before_is_asymmetric(a.skip(1), b.skip(1));
        }
    }
}

/// Of two texts one comes first, or they are the same.
pub proof fn before_is_total(a: Seq<char>, b: Seq<char>)
    ensures
        before(a, b) || before(b, a) || a == b,
    decreases a.len(),
{
    if a.len() == 0 || b.len() == 0 {
        assert(a.len() == 0 && b.len() == 0 ==> a =~= b);
    } else if a[0] == b[0] {
        before_is_total(a.skip(1), b.skip(1));
        if a.skip(1) == b.skip(1) {
            assert(a =~= seq![a[0]] + a.skip(1));
            assert(b =~= seq![b[0]] + b.skip(1));
        }
    }
}

/// Coming before is transitive.
pub proof fn before_is_transitive(a: Seq<char>, b: Seq<char>, c: Seq<char>)
    requires
        before(a, b),
        before(b, c),
    ensures
        before(a, c),
    decreases a.len(),
{
    if a.len() > 0 && b.len() > 0 && c.len() > 0 && a[0] == b[0] && b[0] == c[0] {
        before_is_transitive(a.skip(1), b.skip(1), c.skip(1));
    }
}

/// Where a position goes in a list of positions sorted by their keys: after all
/// whose key does not come after its own.
pub open spec fn slot(keys: Seq<Seq<char>>, sorted: Seq<int>, key: Seq<char>) -> int
    decreases sorted.len(),
{
    if sorted.len() == 0 {
        0
    } else if before(key, keys[sorted.last()]) {
        slot(keys, sorted.drop_last(), key)
    } else {
        sorted.len() as int
    }
}

/// The positions of the first `n` keys, sorted by key, equal keys in the order
/// they are given.
pub open spec fn sorted_positions(keys: Seq<Seq<char>>, n: nat) -> Seq<int>
    decreases n,
{
    if n == 0 {
        Seq::empty()
    } else {
        let shorter = sorted_positions(keys, (n - 1) as nat);
        shorter.insert(slot(keys, shorter, keys[n - 1]), n - 1)
    }
}

/// The positions of all keys, sorted by key.
pub open spec fn order_of(keys: Seq<Seq<char>>) -> Seq<int> {
    sorted_positions(keys, keys.len())
}

/// Texts sorted.
pub open spec fn sorted_texts(list: Seq<Seq<char>>) -> Seq<Seq<char>> {
    Seq::new(list.len(), |i: int| list[order_of(list)[i]])
}

/// Positions as mathematical integers.
pub open spec fn positions(list: Seq<usize>) -> Seq<int> {
    Seq::new(list.len(), |i: int| list[i] as int)
}

/// A slot lies within the list.
proof fn slot_bounds(keys: Seq<Seq<char>>, sorted: Seq<int>, key: Seq<char>)
    ensures
        0 <= slot(keys, sorted, key) <= sorted.len(),
        forall|i: int|
            slot(keys, sorted, key) <= i < sorted.len() ==> before(key, keys[#[trigger] sorted[i]]),
        slot(keys, sorted, key) > 0 ==> !before(
            key,
            keys[sorted[slot(keys, sorted, key) - 1]],
        ),
    decreases sorted.len(),
{
    if sorted.len() > 0 && before(key, keys[sorted.last()]) {
        let shorter = sorted.drop_last();
        slot_bounds(keys, shorter, key);
        let p = slot(keys, sorted, key);
        assert forall|i: int| p <= i < sorted.len() implies before(
            key,
            keys[#[trigger] sorted[i]],
        ) by {
            if i < shorter.len() {
                assert(sorted[i] == shorter[i]);
                assert(before(key, keys[shorter[i]]));
            }
        }
        if p > 0 {
            assert(sorted[p - 1] == shorter[p - 1]);
        }
    }
}

/// Sorting lists every position exactly once, in an order in which no key comes
/// before an earlier one.
pub proof fn sorting_sorts(keys: Seq<Seq<char>>, n: nat)
    requires
        n <= keys.len(),
    ensures
        sorted_positions(keys, n).len() == n,
        sorted_positions(keys, n).no_duplicates(),
        forall|i: int| 0 <= i < n ==> 0 <= #[trigger] sorted_positions(keys, n)[i] < n,
        forall|i: int, j: int|
            0 <= i <= j < n ==> !before(
                keys[#[trigger] sorted_positions(keys, n)[j]],
                keys[#[trigger] sorted_positions(keys, n)[i]],
            ),
    decreases n,
{
    if n > 0 {
        sorting_sorts(keys, (n - 1) as nat);
        let shorter = sorted_positions(keys, (n - 1) as nat);
        let key = keys[n - 1];
        let p = slot(keys, shorter, key);
        slot_bounds(keys, shorter, key);
        let longer = sorted_positions(keys, n);
        assert(longer == shorter.insert(p, n - 1));
        assert forall|i: int| 0 <= i < n implies 0 <= #[trigger] longer[i] < n by {
            if i < p {
                assert(longer[i] == shorter[i]);
            } else if i > p {
                assert(longer[i] == shorter[i - 1]);
            }
        }
        assert forall|i: int, j: int| 0 <= i < n && 0 <= j < n && i != j implies longer[i]
            != longer[j] by {
            let a = if i < p {
                i
            } else {
                i - 1
            };
            let b = if j < p {
                j
            } else {
                j - 1
            };
            if i != p {
                assert(longer[i] == shorter[a]);
            }
            if j != p {
                assert(longer[j] == shorter[b]);
            }
        }
        assert forall|i: int, j: int| 0 <= i <= j < n implies !before(
            keys[#[trigger] longer[j]],
            keys[#[trigger] longer[i]],
        ) by {
            before_is_asymmetric(keys[longer[i]], keys[longer[i]]);
            if i == j {
            } else if i < p && j < p {
                assert(longer[i] == shorter[i] && longer[j] == shorter[j]);
            } else if i > p && j > p {
                assert(longer[i] == shorter[i - 1] && longer[j] == shorter[j - 1]);
            } else if i == p {
                assert(longer[j] == shorter[j - 1]);
                assert(before(key, keys[shorter[j - 1]]));
                before_is_asymmetric(key, keys[shorter[j - 1]]);
            } else {
                assert(longer[i] == shorter[i]);
                // Everything before the slot comes no later than its last entry.
                let last = keys[shorter[p - 1]];
                assert(!before(last, keys[shorter[i]]));
                if j == p {
                    if before(key, keys[shorter[i]]) {
                        before_is_total(last, keys[shorter[i]]);
                        if last != keys[shorter[i]] {
                            before_is_transitive(key, keys[shorter[i]], last);
                        }
                    }
                } else {
                    assert(longer[j] == shorter[j - 1]);
                }
            }
        }
    }
}

/// Keys that are in order stay as they are.
pub proof fn ordered_keys_stay(keys: Seq<Seq<char>>, n: nat)
    requires
        n <= keys.len(),
        forall|i: int, j: int|
            0 <= i < j < keys.len() ==> !before(#[trigger] keys[j], #[trigger] keys[i]),
    ensures
        sorted_positions(keys, n) == Seq::new(n, |i: int| i),
    decreases n,
{
    if n > 0 {
        ordered_keys_stay(keys, (n - 1) as nat);
        let shorter = sorted_positions(keys, (n - 1) as nat);
        if n > 1 {
            assert(!before(keys[n - 1], keys[n - 2]));
            assert(shorter.last() == n - 2);
        }
        assert(slot(keys, shorter, keys[n - 1]) == n - 1);
    }
    assert(sorted_positions(keys, n) =~= Seq::new(n, |i: int| i));
}

/// The positions of all keys, sorted by key, equal keys in the order given.
pub fn sort_order(keys: &Vec<String>) -> (r: Vec<usize>)
    ensures
        positions(r@) == order_of(text::texts(keys@)),
        r@.len() == keys@.len(),
        forall|i: int| 0 <= i < r@.len() ==> (#[trigger] r@[i]) < keys@.len(),
{
    let ghost names = text::texts(keys@);
    let mut out: Vec<usize> = Vec::new();
    let mut n: usize = 0;
    proof {
        assert(positions(out@) == Seq::<int>::empty());
    }
    while n < keys.len()
        invariant
            n <= keys.len(),
            names == text::texts(keys@),
            positions(out@) == sorted_positions(names, n as nat),
            out@.len() == n,
            forall|i: int| 0 <= i < out@.len() ==> (#[trigger] out@[i]) < keys@.len(),
        decreases keys.len() - n,
    {
        let ghost shorter = positions(out@);
        let mut p: usize = out.len();
        proof {
            assert(shorter.take(p as int) == shorter);
        }
        while p > 0 && is_before(keys[n].as_str(), keys[out[p - 1]].as_str())
            invariant
                p <= out.len(),
                n < keys.len(),
                names == text::texts(keys@),
                shorter == positions(out@),
                forall|i: int| 0 <= i < out@.len() ==> (#[trigger] out@[i]) < keys@.len(),
                slot(names, shorter, names[n as int]) == slot(
                    names,
                    shorter.take(p as int),
                    names[n as int],
                ),
            decreases p,
        {
            proof {
                assert(shorter.take(p as int).drop_last() == shorter.take(p - 1));
                assert(shorter.take(p as int).last() == out@[p - 1]);
            }
            p = p - 1;
        }
        proof {
            if p > 0 {
                assert(shorter.take(p as int).last() == out@[p - 1]);
            }
            assert(slot(names, shorter, names[n as int]) == p);
        }
        let ghost before_insert = out@;
        out.insert(p, n);
        proof {
            assert(positions(out@) == shorter.insert(p as int, n as int));
            assert forall|i: int| 0 <= i < out@.len() implies (#[trigger] out@[i]) < keys@.len() by {
                if i < p {
                    assert(out@[i] == before_insert[i]);
                } else if i > p {
                    assert(out@[i] == before_insert[i - 1]);
                }
            }
        }
        n = n + 1;
    }
    out
}

/// Texts sorted.
pub fn sort(list: &Vec<String>) -> (r: Vec<String>)
    ensures
        text::texts(r@) == sorted_texts(text::texts(list@)),
{
    let order = sort_order(list);
    let ghost names = text::texts(list@);
    let mut out: Vec<String> = Vec::new();
    let mut i: usize = 0;
    while i < order.len()
        invariant
            i <= order.len(),
            order@.len() == list@.len(),
            names == text::texts(list@),
            positions(order@) == order_of(names),
            forall|k: int| 0 <= k < order@.len() ==> (#[trigger] order@[k]) < list@.len(),
            out@.len() == i,
            forall|k: int| 0 <= k < i ==> (#[trigger] out@[k])@ == names[order_of(names)[k]],
        decreases order.len() - i,
    {
        proof {
            assert(order_of(names)[i as int] == order@[i as int]);
        }
        out.push(list[order[i]].clone());
        i = i + 1;
    }
    proof {
        assert(text::texts(out@) == sorted_texts(names));
    }
    out
}

} // verus!
