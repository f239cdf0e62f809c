//! Comparing entity tables by their views.

use super::fingerprint::viewed_table;
use super::model::{BuildingState, ContainerState, DoorState, ItemState, PlayerState, VehicleState};
use crate::sorted_ids::{sorted_ids, sorted_map_keys, sorted_set_items};
use std::collections::{BTreeMap, BTreeSet};
use vstd::prelude::*;

verus! {

/// Values that can be compared by their views.
pub trait ViewEq: View + Sized {
    fn view_eq(&self, other: &Self) -> (eq: bool)
        ensures
            eq == (self@ == other@),
    ;
}

/// Whether two sets of identifiers hold the same members.
pub fn sets_equal(a: &BTreeSet<u128>, b: &BTreeSet<u128>) -> (eq: bool)
    ensures
        eq == (a@ == b@),
{
    let ka = sorted_set_items(a);
    let kb = sorted_set_items(b);
    if ka.len() != kb.len() {
        return false;
    }
    let mut i: usize = 0;
    while i < ka.len()
        invariant
            i <= ka.len(),
            ka.len() == kb.len(),
            ka@ == sorted_ids(a@),
            kb@ == sorted_ids(b@),
            forall|k: int| 0 <= k < i ==> ka@[k] == kb@[k],
        decreases ka.len() - i,
    {
        if ka[i] != kb[i] {
            return false;
        }
        i = i + 1;
    }
    assert(ka@ =~= kb@);
    assert(a@ == b@) by {
        assert(a@ =~= ka@.to_set());
    }
    true
}

/// Whether two tables hold the same keys with values of equal views.
pub fn tables_equal<V: ViewEq>(a: &BTreeMap<u128, V>, b: &BTreeMap<u128, V>) -> (eq: bool)
    ensures
        eq == (viewed_table(a@) == viewed_table(b@)),
{
    let ka = sorted_map_keys(a);
    let kb = sorted_map_keys(b);
    if ka.len() != kb.len() {
        assert(viewed_table(a@).dom() != viewed_table(b@).dom()) by {
            if viewed_table(a@).dom() == viewed_table(b@).dom() {
                assert(a@.dom() =~= viewed_table(a@).dom());
                assert(b@.dom() =~= viewed_table(b@).dom());
            }
        }
        return false;
    }
    let mut i: usize = 0;
    while i < ka.len()
        invariant
            i <= ka.len(),
            ka.len() == kb.len(),
            ka@ == sorted_ids(a@.dom()),
            kb@ == sorted_ids(b@.dom()),
            forall|k: int| 0 <= k < i ==> ka@[k] == kb@[k],
        decreases ka.len() - i,
    {
        if ka[i] != kb[i] {
            assert(viewed_table(a@).dom() != viewed_table(b@).dom()) by {
                if viewed_table(a@).dom() == viewed_table(b@).dom() {
                    assert(a@.dom() =~= viewed_table(a@).dom());
                    assert(b@.dom() =~= viewed_table(b@).dom());
                }
            }
            return false;
        }
        i = i + 1;
    }
    assert(ka@ =~= kb@);
    assert(a@.dom() == b@.dom());
    let mut j: usize = 0;
    while j < ka.len()
        invariant
            j <= ka.len(),
            ka@.to_set() == a@.dom(),
            a@.dom() == b@.dom(),
            forall|k: int| 0 <= k < j ==> a@[#[trigger] ka@[k]]@ == b@[ka@[k]]@,
        decreases ka.len() - j,
    {
        let key = ka[j];
        assert(ka@.to_set().contains(key));
        let va = a.get(&key).unwrap();
        let vb = b.get(&key).unwrap();
        if !va.view_eq(vb) {
            assert(viewed_table(a@)[key] != viewed_table(b@)[key]);
            return false;
        }
        j = j + 1;
    }
    assert(viewed_table(a@) =~= viewed_table(b@)) by {
        assert forall|key: u128| #[trigger] viewed_table(a@).contains_key(key) implies viewed_table(
            a@,
        )[key] == viewed_table(b@)[key] by {
            assert(ka@.to_set().contains(key));
            let k = choose|k: int| 0 <= k < ka@.len() && ka@[k] == key;
            assert(a@[ka@[k]]@ == b@[ka@[k]]@);
        }
    }
    true
}

impl ViewEq for u32 {
    fn view_eq(&self, other: &Self) -> (eq: bool) {
        *self == *other
    }
}

impl ViewEq for u128 {
    fn view_eq(&self, other: &Self) -> (eq: bool) {
        *self == *other
    }
}

impl ViewEq for PlayerState {
    fn view_eq(&self, other: &Self) -> (eq: bool) {
        let inventories = tables_equal(&self.inventory, &other.inventory);
        proof {
            assert(viewed_table(self.inventory@) =~= self.inventory@);
            assert(viewed_table(other.inventory@) =~= other.inventory@);
        }
        self.id == other.id && self.current_cell == other.current_cell && self.location
            == other.location && inventories && self.version == other.version
    }
}

impl ViewEq for DoorState {
    fn view_eq(&self, other: &Self) -> (eq: bool) {
        *self == *other
    }
}

impl ViewEq for ItemState {
    fn view_eq(&self, other: &Self) -> (eq: bool) {
        self.id == other.id && self.archetype == other.archetype && self.quantity == other.quantity
            && self.owner == other.owner && self.version == other.version
    }
}

impl ViewEq for ContainerState {
    fn view_eq(&self, other: &Self) -> (eq: bool) {
        self.id == other.id && self.cell == other.cell && sets_equal(&self.item_ids, &other.item_ids)
            && self.version == other.version
    }
}

impl ViewEq for BuildingState {
    fn view_eq(&self, other: &Self) -> (eq: bool) {
        let openings = tables_equal(&self.openings, &other.openings);
        proof {
            assert(viewed_table(self.openings@) =~= self.openings@);
            assert(viewed_table(other.openings@) =~= other.openings@);
        }
        self.id == other.id && self.cell == other.cell && sets_equal(&self.wall_ids, &other.wall_ids)
            && openings && sets_equal(&self.editors, &other.editors) && self.version
            == other.version
    }
}

impl ViewEq for VehicleState {
    fn view_eq(&self, other: &Self) -> (eq: bool) {
        self.id == other.id && self.cell == other.cell && sets_equal(
            &self.passengers,
            &other.passengers,
        ) && self.version == other.version
    }
}

} // verus!
