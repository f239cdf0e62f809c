//! A stable order of list positions by 128-bit keys: positions with smaller
//! keys come first, and positions with equal keys keep their order.

use vstd::prelude::*;

verus! {

/// The first place at or after `p` in `order` whose key exceeds `k`, or the
/// end of `order`.
pub open spec fn first_above(order: Seq<usize>, keys: Seq<u128>, k: u128, p: nat) -> nat
    decreases order.len() - p,
{
    if p >= order.len() {
        order.len()
    } else if keys[order[p as int] as int] > k {
        p
    } else {
        first_above(order, keys, k, p + 1)
    }
}

/// The first `n` positions in the order of their keys: each position goes
/// after every earlier position whose key is not greater than its own.
pub open spec fn key_order(keys: Seq<u128>, n: nat) -> Seq<usize>
    decreases n,
{
    if n == 0 {
        Seq::empty()
    } else {
        let before = key_order(keys, (n - 1) as nat);
        before.insert(first_above(before, keys, keys[n - 1], 0) as int, (n - 1) as usize)
    }
}

/// The items at the given positions, in order.
pub open spec fn pick<T>(items: Seq<T>, order: Seq<usize>) -> Seq<T> {
    order.map_values(|i: usize| items[i as int])
}

proof fn lemma_first_above_bounds(order: Seq<usize>, keys: Seq<u128>, k: u128, p: nat)
    requires
        p <= order.len(),
    ensures
        p <= first_above(order, keys, k, p) <= order.len(),
        forall|j: int| p <= j < first_above(order, keys, k, p) ==> keys[order[j] as int] <= k,
        first_above(order, keys, k, p) < order.len() ==> keys[order[first_above(order, keys, k, p) as int] as int] > k,
    decreases order.len() - p,
{
    if p < order.len() && keys[order[p as int] as int] <= k {
        lemma_first_above_bounds(order, keys, k, p + 1);
    }
}

/// The order holds each of the first `n` positions once, and their keys
/// never decrease along it.
pub proof fn lemma_key_order(keys: Seq<u128>, n: nat)
    requires
        n <= keys.len(),
        n <= usize::MAX,
    ensures
        key_order(keys, n).len() == n,
        forall|i: int| 0 <= i < n ==> (#[trigger] key_order(keys, n)[i]) < n,
        forall|i: int, j: int| 0 <= i < j < n ==> key_order(keys, n)[i] != key_order(keys, n)[j],
        forall|i: int, j: int|
            0 <= i < j < n ==> keys[key_order(keys, n)[i] as int] <= keys[key_order(keys, n)[j] as int],
        forall|x: usize| x < n ==> key_order(keys, n).contains(x),
    decreases n,
{
    if n > 0 {
        let before = key_order(keys, (n - 1) as nat);
        lemma_key_order(keys, (n - 1) as nat);
        let k = keys[n - 1];
        let p = first_above(before, keys, k, 0);
        lemma_first_above_bounds(before, keys, k, 0);
        let after = key_order(keys, n);
        assert(after == before.insert(p as int, (n - 1) as usize));
        assert forall|i: int| 0 <= i < n implies (#[trigger] after[i]) < n by {
            if i < p {
                assert(after[i] == before[i]);
            } else if i > p {
                assert(after[i] == before[i - 1]);
            }
        }
        assert forall|i: int, j: int| 0 <= i < j < n implies after[i] != after[j] && keys[after[i] as int]
            <= keys[after[j] as int] by {
            if j < p {
                assert(after[i] == before[i]);
                assert(after[j] == before[j]);
            } else if j == p {
                assert(after[i] == before[i]);
                assert(after[j] == n - 1);
                assert(before[i] < n - 1);
                assert(keys[before[i] as int] <= k);
            } else if i < p {
                assert(after[i] == before[i]);
                assert(after[j] == before[j - 1]);
            } else if i == p {
                assert(after[i] == n - 1);
                assert(after[j] == before[j - 1]);
                assert(before[j - 1] < n - 1);
                assert(keys[before[p as int] as int] > k);
                if j - 1 > p {
                    assert(keys[before[p as int] as int] <= keys[before[j - 1] as int]);
                }
            } else {
                assert(after[i] == before[i - 1]);
                assert(after[j] == before[j - 1]);
            }
        }
        assert forall|x: usize| x < n implies after.contains(x) by {
            if x == n - 1 {
                assert(after[p as int] == x);
            } else {
                assert(before.contains(x));
                let i = choose|i: int| 0 <= i < before.len() && before[i] == x;
                if i < p {
                    assert(after[i] == x);
                } else {
                    assert(after[i + 1] == x);
                }
            }
        }
    }
}

/// The positions of `keys`, in the order of their keys; positions with
/// equal keys keep their order.
pub fn order_by_key(keys: &Vec<u128>) -> (order: Vec<usize>)
    ensures
        order@ == key_order(keys@, keys@.len()),
{
    let mut order: Vec<usize> = Vec::new();
    let mut n: usize = 0;
    while n < keys.len()
        invariant
            n <= keys.len(),
            order@ == key_order(keys@, n as nat),
        decreases keys.len() - n,
    {
        proof {
            lemma_key_order(keys@, n as nat);
        }
        let k = keys[n];
        let mut p: usize = 0;
        while p < order.len() && keys[order[p]] <= k
            invariant
                p <= order.len(),
                order@ == key_order(keys@, n as nat),
                n < keys.len(),
                forall|i: int| 0 <= i < order.len() ==> (#[trigger] order@[i]) < n,
                first_above(order@, keys@, k, 0) == first_above(order@, keys@, k, p as nat),
            decreases order.len() - p,
        {
            p = p + 1;
        }
        order.insert(p, n);
        n = n + 1;
    }
    order
}


/// The keys of a list's items, in list order.
pub open spec fn keys_of<T>(items: Seq<T>, key: spec_fn(T) -> u128) -> Seq<u128> {
    items.map_values(|t: T| key(t))
}

/// A list's items in the order of their keys.
pub open spec fn sorted_by<T>(items: Seq<T>, key: spec_fn(T) -> u128) -> Seq<T> {
    pick(items, key_order(keys_of(items, key), items.len()))
}

/// Whether no two items of a list share a key.
pub open spec fn distinct_keys<T>(items: Seq<T>, key: spec_fn(T) -> u128) -> bool {
    forall|i: int, j: int| 0 <= i < j < items.len() ==> key(items[i]) != key(items[j])
}

/// Whether keys strictly increase along a list.
pub open spec fn increasing_keys<T>(items: Seq<T>, key: spec_fn(T) -> u128) -> bool {
    forall|i: int, j: int| 0 <= i < j < items.len() ==> key(items[i]) < key(items[j])
}

pub proof fn lemma_sorted_by<T>(items: Seq<T>, key: spec_fn(T) -> u128)
    requires
        items.len() <= usize::MAX,
        distinct_keys(items, key),
    ensures
        increasing_keys(sorted_by(items, key), key),
        sorted_by(items, key).to_set() == items.to_set(),
{
    let keys = keys_of(items, key);
    let n = items.len();
    let order = key_order(keys, n);
    lemma_key_order(keys, n);
    let sorted = sorted_by(items, key);
    assert forall|i: int, j: int| 0 <= i < j < sorted.len() implies key(sorted[i]) < key(sorted[j]) by {
        assert(sorted[i] == items[order[i] as int]);
        assert(sorted[j] == items[order[j] as int]);
        assert(keys[order[i] as int] <= keys[order[j] as int]);
        assert(order[i] != order[j]);
        if order[i] < order[j] {
            assert(key(items[order[i] as int]) != key(items[order[j] as int]));
        } else {
            assert(key(items[order[j] as int]) != key(items[order[i] as int]));
        }
    }
    assert forall|t: T| sorted.to_set().contains(t) == items.to_set().contains(t) by {
        if sorted.to_set().contains(t) {
            let i = choose|i: int| 0 <= i < sorted.len() && sorted[i] == t;
            assert(items[order[i] as int] == t);
        }
        if items.to_set().contains(t) {
            let x = choose|x: int| 0 <= x < items.len() && items[x] == t;
            assert(order.contains(x as usize));
            let i = choose|i: int| 0 <= i < order.len() && order[i] == x as usize;
            assert(sorted[i] == t);
        }
    }
    assert(sorted.to_set() =~= items.to_set());
}

proof fn lemma_increasing_lists_equal<T>(a: Seq<T>, b: Seq<T>, key: spec_fn(T) -> u128)
    requires
        increasing_keys(a, key),
        increasing_keys(b, key),
        a.to_set() == b.to_set(),
    ensures
        a == b,
    decreases a.len(),
{
    if a.len() == 0 {
        if b.len() > 0 {
            assert(b.to_set().contains(b[0]));
        }
        assert(a =~= b);
    } else {
        assert(a.to_set().contains(a[0]));
        assert(b.len() > 0);
        assert(b.to_set().contains(b[0]));
        let i = choose|i: int| 0 <= i < a.len() && a[i] == b[0];
        let j = choose|j: int| 0 <= j < b.len() && b[j] == a[0];
        assert(key(a[0]) <= key(a[i]));
        assert(key(b[0]) <= key(b[j]));
        assert(i == 0);
        let ta = a.drop_first();
        let tb = b.drop_first();
        assert forall|t: T| ta.to_set().contains(t) == tb.to_set().contains(t) by {
            if ta.to_set().contains(t) {
                let x = choose|x: int| 0 <= x < ta.len() && ta[x] == t;
                assert(a[x + 1] == t);
                assert(a.to_set().contains(t));
                let y = choose|y: int| 0 <= y < b.len() && b[y] == t;
                assert(key(a[0]) < key(a[x + 1]));
                if y == 0 {
                    assert(false);
                }
                assert(tb[y - 1] == t);
            }
            if tb.to_set().contains(t) {
                let x = choose|x: int| 0 <= x < tb.len() && tb[x] == t;
                assert(b[x + 1] == t);
                assert(b.to_set().contains(t));
                let y = choose|y: int| 0 <= y < a.len() && a[y] == t;
                assert(key(b[0]) < key(b[x + 1]));
                if y == 0 {
                    assert(false);
                }
                assert(ta[y - 1] == t);
            }
        }
        assert(ta.to_set() =~= tb.to_set());
        lemma_increasing_lists_equal(ta, tb, key);
        assert(a =~= seq![a[0]] + ta);
        assert(b =~= seq![b[0]] + tb);
    }
}

/// Two lists that hold the same items, no two of which share a key, come
/// out the same when put in the order of their keys.
pub proof fn lemma_sorted_by_ignores_order<T>(a: Seq<T>, b: Seq<T>, key: spec_fn(T) -> u128)
    requires
        a.len() <= usize::MAX,
        b.len() <= usize::MAX,
        distinct_keys(a, key),
        distinct_keys(b, key),
        a.to_set() == b.to_set(),
    ensures
        sorted_by(a, key) == sorted_by(b, key),
{
    lemma_sorted_by(a, key);
    lemma_sorted_by(b, key);
    lemma_increasing_lists_equal(sorted_by(a, key), sorted_by(b, key), key);
}


/// Mapping a list's items to items with the same keys, then ordering,
/// gives the ordered list mapped.
pub proof fn lemma_sorted_by_map<T, U>(
    items: Seq<T>,
    f: spec_fn(T) -> U,
    key_t: spec_fn(T) -> u128,
    key_u: spec_fn(U) -> u128,
)
    requires
        items.len() <= usize::MAX,
        forall|x: T| #[trigger] key_u(f(x)) == key_t(x),
    ensures
        sorted_by(items.map_values(|x: T| f(x)), key_u) == sorted_by(items, key_t).map_values(|x: T| f(x)),
{
    let mapped = items.map_values(|x: T| f(x));
    assert(keys_of(mapped, key_u) =~= keys_of(items, key_t)) by {
        assert forall|i: int| 0 <= i < items.len() implies keys_of(mapped, key_u)[i] == keys_of(items, key_t)[i] by {
            assert(key_u(f(items[i])) == key_t(items[i]));
        }
    }
    let order = key_order(keys_of(items, key_t), items.len());
    lemma_key_order(keys_of(items, key_t), items.len());
    assert(pick(mapped, order) =~= pick(items, order).map_values(|x: T| f(x)));
}

/// Ordering an ordered list with distinct keys leaves it as it is.
pub proof fn lemma_sorted_twice<T>(items: Seq<T>, key: spec_fn(T) -> u128)
    requires
        items.len() <= usize::MAX,
        distinct_keys(items, key),
    ensures
        sorted_by(sorted_by(items, key), key) == sorted_by(items, key),
{
    let once = sorted_by(items, key);
    lemma_sorted_by(items, key);
    lemma_key_order(keys_of(items, key), items.len());
    assert(once.len() == items.len());
    assert forall|i: int, j: int| 0 <= i < j < once.len() implies key(once[i]) != key(once[j]) by {
    }
    lemma_sorted_by_ignores_order(once, items, key);
}

} // verus!
