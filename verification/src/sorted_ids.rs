//! Identifier collections in increasing order, the canonical order in which
//! the world state is encoded.

use std::collections::{BTreeMap, BTreeSet};
use vstd::prelude::*;
use vstd::std_specs::btree::{increasing_seq, spec_btree_keys_iter, spec_keys_iter};
use vstd::std_specs::cmp::OrdSpec;
use vstd::std_specs::iter::IteratorSpec;
use vstd::laws_cmp::{obeys_cmp, obeys_cmp_ord, obeys_cmp_partial_ord, obeys_partial_cmp_spec_properties};
use vstd::laws_eq::obeys_eq_spec_properties;

verus! {

broadcast use vstd::std_specs::btree::group_btree_axioms;

pub open spec fn strictly_increasing(s: Seq<u128>) -> bool {
    forall|i: int, j: int| 0 <= i < j < s.len() ==> s[i] < s[j]
}

/// The elements of a set of identifiers in increasing order.
pub open spec fn sorted_ids(d: Set<u128>) -> Seq<u128> {
    choose|s: Seq<u128>| strictly_increasing(s) && s.to_set() == d
}

pub proof fn lemma_increasing_unique(a: Seq<u128>, b: Seq<u128>)
    requires
        strictly_increasing(a),
        strictly_increasing(b),
        a.to_set() == b.to_set(),
    ensures
        a == b,
    decreases a.len(),
{
    if a.len() == 0 {
        if b.len() > 0 {
            assert(b.to_set().contains(b[0]));
        }
        assert(a =~= b);
    } else {
        assert(a.to_set().contains(a[0]));
        assert(b.len() > 0);
        assert(b.to_set().contains(b[0]));
        let i = choose|i: int| 0 <= i < b.len() && b[i] == a[0];
        let j = choose|j: int| 0 <= j < a.len() && a[j] == b[0];
        assert(a[0] == b[0]) by {
            if i > 0 {
                assert(b[0] < b[i]);
                assert(a[0] <= a[j]);
            }
        }
        let a1 = a.drop_first();
        let b1 = b.drop_first();
        assert(a1.to_set() =~= b1.to_set()) by {
            assert forall|x: u128| a1.to_set().contains(x) implies b1.to_set().contains(x) by {
                let k = choose|k: int| 0 <= k < a1.len() && a1[k] == x;
                assert(a.to_set().contains(x));
                let m = choose|m: int| 0 <= m < b.len() && b[m] == x;
                assert(a[0] < a[k + 1]);
                if m == 0 {
                    assert(false);
                }
                assert(b1[m - 1] == x);
            }
            assert forall|x: u128| b1.to_set().contains(x) implies a1.to_set().contains(x) by {
                let k = choose|k: int| 0 <= k < b1.len() && b1[k] == x;
                assert(b.to_set().contains(x));
                let m = choose|m: int| 0 <= m < a.len() && a[m] == x;
                assert(b[0] < b[k + 1]);
                if m == 0 {
                    assert(false);
                }
                assert(a1[m - 1] == x);
            }
        }
        lemma_increasing_unique(a1, b1);
        assert forall|k: int| 0 <= k < a.len() implies a[k] == b[k] by {
            if k > 0 {
                assert(a[k] == a1[k - 1]);
                assert(b[k] == b1[k - 1]);
            }
        }
        assert(a =~= b);
    }
}

proof fn lemma_id_refs_obey_cmp()
    ensures
        obeys_cmp::<&u128>(),
{
    reveal(obeys_eq_spec_properties);
    reveal(obeys_partial_cmp_spec_properties);
    reveal(obeys_cmp_partial_ord);
    reveal(obeys_cmp_ord);
}

proof fn lemma_ids_sorted(r: Seq<&u128>, d: Set<u128>)
    requires
        increasing_seq(r),
        r.map_values(|k: &u128| *k).to_set() == d,
    ensures
        r.map_values(|k: &u128| *k) == sorted_ids(d),
        strictly_increasing(r.map_values(|k: &u128| *k)),
{
    let s = r.map_values(|k: &u128| *k);
    lemma_id_refs_obey_cmp();
    vstd::std_specs::btree::axiom_increasing_seq_meaning(r);
    assert(strictly_increasing(s)) by {
        assert forall|i: int, j: int| 0 <= i < j < s.len() implies s[i] < s[j] by {
            assert(OrdSpec::cmp_spec(&r[i], &r[j]) is Less);
        }
    }
    let t = sorted_ids(d);
    assert(strictly_increasing(t) && t.to_set() == d);
    lemma_increasing_unique(s, t);
}

/// The keys of a map in increasing order.
pub fn sorted_map_keys<V>(m: &BTreeMap<u128, V>) -> (keys: Vec<u128>)
    ensures
        keys@ == sorted_ids(m@.dom()),
        strictly_increasing(keys@),
        keys@.to_set() == m@.dom(),
{
    let mut keys: Vec<u128> = Vec::new();
    let ghost all = spec_keys_iter(m).remaining().map_values(|k: &u128| *k);
    for key in it: m.keys()
        invariant
            it.seq() == spec_keys_iter(m).remaining(),
            all == spec_keys_iter(m).remaining().map_values(|k: &u128| *k),
            keys@ == all.take(it.index()),
    {
        keys.push(*key);
        assert(keys@ =~= all.take(it.index() + 1));
    }
    proof {
        assert(keys@ =~= all);
        assert(all =~= spec_keys_iter(m).remaining().unref());
        lemma_ids_sorted(spec_keys_iter(m).remaining(), m@.dom());
    }
    keys
}

/// The elements of a set in increasing order.
pub fn sorted_set_items(set: &BTreeSet<u128>) -> (items: Vec<u128>)
    ensures
        items@ == sorted_ids(set@),
        strictly_increasing(items@),
        items@.to_set() == set@,
{
    let mut items: Vec<u128> = Vec::new();
    let ghost all = spec_btree_keys_iter(set).remaining().map_values(|k: &u128| *k);
    for item in it: set.iter()
        invariant
            it.seq() == spec_btree_keys_iter(set).remaining(),
            all == spec_btree_keys_iter(set).remaining().map_values(|k: &u128| *k),
            items@ == all.take(it.index()),
    {
        items.push(*item);
        assert(items@ =~= all.take(it.index() + 1));
    }
    proof {
        assert(items@ =~= all);
        assert(all =~= spec_btree_keys_iter(set).remaining().unref());
        lemma_ids_sorted(spec_btree_keys_iter(set).remaining(), set@);
    }
    items
}

} // verus!
