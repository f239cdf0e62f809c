//! Whether every entity version of a world, or of a projection's tables,
//! stays below a bound, so that applying events cannot overflow one.

use super::events::{entities_of, versions_below};
use super::fingerprint::viewed_table;
use super::model::{
    BuildingState, ContainerState, DoorState, EntitiesView, ItemState,
    PlayerState, VehicleState, WorldState,
};
use crate::sorted_ids::sorted_map_keys;
use std::collections::BTreeMap;
use vstd::prelude::*;

verus! {

/// Entities that carry a version number.
pub trait Versioned: View + Sized {
    spec fn version_of(view: Self::V) -> u64;

    fn version_number(&self) -> (version: u64)
        ensures
            version == Self::version_of(self@),
    ;
}

impl Versioned for PlayerState {
    open spec fn version_of(view: Self::V) -> u64 {
        view.version.0
    }

    fn version_number(&self) -> (version: u64) {
        self.version.0
    }
}

impl Versioned for DoorState {
    open spec fn version_of(view: Self::V) -> u64 {
        view.version.0
    }

    fn version_number(&self) -> (version: u64) {
        self.version.0
    }
}

impl Versioned for ItemState {
    open spec fn version_of(view: Self::V) -> u64 {
        view.version.0
    }

    fn version_number(&self) -> (version: u64) {
        self.version.0
    }
}

impl Versioned for ContainerState {
    open spec fn version_of(view: Self::V) -> u64 {
        view.version.0
    }

    fn version_number(&self) -> (version: u64) {
        self.version.0
    }
}

impl Versioned for BuildingState {
    open spec fn version_of(view: Self::V) -> u64 {
        view.version.0
    }

    fn version_number(&self) -> (version: u64) {
        self.version.0
    }
}

impl Versioned for VehicleState {
    open spec fn version_of(view: Self::V) -> u64 {
        view.version.0
    }

    fn version_number(&self) -> (version: u64) {
        self.version.0
    }
}

/// Every version in a table stays below `bound`.
pub open spec fn table_below<V: Versioned>(table: Map<u128, V::V>, bound: int) -> bool {
    forall|k: u128| #[trigger] table.contains_key(k) ==> V::version_of(table[k]) < bound
}

fn table_versions_below<V: Versioned>(table: &BTreeMap<u128, V>, bound: u64) -> (ok: bool)
    ensures
        ok == table_below::<V>(viewed_table(table@), bound as int),
{
    let keys = sorted_map_keys(table);
    let mut i: usize = 0;
    while i < keys.len()
        invariant
            i <= keys.len(),
            keys@.to_set() == table@.dom(),
            forall|j: int| 0 <= j < i ==> V::version_of(table@[#[trigger] keys@[j]]@) < bound,
        decreases keys.len() - i,
    {
        let key = keys[i];
        assert(keys@.to_set().contains(key));
        let value = table.get(&key).unwrap();
        if value.version_number() >= bound {
            assert(viewed_table(table@).contains_key(key));
            return false;
        }
        i = i + 1;
    }
    proof {
        assert forall|k: u128| #[trigger] viewed_table(table@).contains_key(k) implies V::version_of(
            viewed_table(table@)[k],
        ) < bound by {
            assert(keys@.to_set().contains(k));
            let j = choose|j: int| 0 <= j < keys@.len() && keys@[j] == k;
            assert(V::version_of(table@[keys@[j]]@) < bound);
        }
    }
    true
}

/// Whether every entity version of a world stays below `bound`.
pub fn world_versions_below(world: &WorldState, bound: u64) -> (ok: bool)
    ensures
        ok == versions_below(world@.entities, bound as int),
{
    let players = table_versions_below(&world.players, bound);
    let doors = table_versions_below(&world.doors, bound);
    let items = table_versions_below(&world.items, bound);
    let containers = table_versions_below(&world.containers, bound);
    let buildings = table_versions_below(&world.buildings, bound);
    let vehicles = table_versions_below(&world.vehicles, bound);
    proof {
        assert(viewed_table(world.players@) =~= world@.entities.players);
        assert(viewed_table(world.doors@) =~= world@.entities.doors);
        assert(viewed_table(world.items@) =~= world@.entities.items);
        assert(viewed_table(world.containers@) =~= world@.entities.containers);
        assert(viewed_table(world.buildings@) =~= world@.entities.buildings);
        assert(viewed_table(world.vehicles@) =~= world@.entities.vehicles);
    }
    players && doors && items && containers && buildings && vehicles
}

/// Whether every entity version in the six tables stays below `bound`.
pub fn tables_below(
    players: &BTreeMap<u128, PlayerState>,
    doors: &BTreeMap<u128, DoorState>,
    items: &BTreeMap<u128, ItemState>,
    containers: &BTreeMap<u128, ContainerState>,
    buildings: &BTreeMap<u128, BuildingState>,
    vehicles: &BTreeMap<u128, VehicleState>,
    bound: u64,
) -> (ok: bool)
    ensures
        ok == versions_below(
            entities_of(players@, doors@, items@, containers@, buildings@, vehicles@),
            bound as int,
        ),
{
    let p = table_versions_below(players, bound);
    let d = table_versions_below(doors, bound);
    let i = table_versions_below(items, bound);
    let c = table_versions_below(containers, bound);
    let b = table_versions_below(buildings, bound);
    let v = table_versions_below(vehicles, bound);
    proof {
        let e = entities_of(players@, doors@, items@, containers@, buildings@, vehicles@);
        assert(viewed_table(players@) =~= e.players);
        assert(viewed_table(doors@) =~= e.doors);
        assert(viewed_table(items@) =~= e.items);
        assert(viewed_table(containers@) =~= e.containers);
        assert(viewed_table(buildings@) =~= e.buildings);
        assert(viewed_table(vehicles@) =~= e.vehicles);
    }
    p && d && i && c && b && v
}

/// With a bound of zero or below, versions stay below it exactly where
/// every table is empty; with a bound above every 64-bit value, always.
pub proof fn lemma_versions_below_extremes(e: EntitiesView, bound: int)
    ensures
        bound <= 0 ==> (versions_below(e, bound) == (e.players.dom().is_empty() && e.doors.dom().is_empty()
            && e.items.dom().is_empty() && e.containers.dom().is_empty() && e.buildings.dom().is_empty()
            && e.vehicles.dom().is_empty())),
        bound > u64::MAX ==> versions_below(e, bound),
{
    if bound <= 0 && versions_below(e, bound) {
        assert(e.players.dom() =~= Set::empty()) by {
            assert forall|k: u128| !e.players.dom().contains(k) by {
                if e.players.contains_key(k) {
                    assert(e.players[k].version.0 < bound);
                }
            }
        }
        assert(e.doors.dom() =~= Set::empty()) by {
            assert forall|k: u128| !e.doors.dom().contains(k) by {
                if e.doors.contains_key(k) {
                    assert(e.doors[k].version.0 < bound);
                }
            }
        }
        assert(e.items.dom() =~= Set::empty()) by {
            assert forall|k: u128| !e.items.dom().contains(k) by {
                if e.items.contains_key(k) {
                    assert(e.items[k].version.0 < bound);
                }
            }
        }
        assert(e.containers.dom() =~= Set::empty()) by {
            assert forall|k: u128| !e.containers.dom().contains(k) by {
                if e.containers.contains_key(k) {
                    assert(e.containers[k].version.0 < bound);
                }
            }
        }
        assert(e.buildings.dom() =~= Set::empty()) by {
            assert forall|k: u128| !e.buildings.dom().contains(k) by {
                if e.buildings.contains_key(k) {
                    assert(e.buildings[k].version.0 < bound);
                }
            }
        }
        assert(e.vehicles.dom() =~= Set::empty()) by {
            assert forall|k: u128| !e.vehicles.dom().contains(k) by {
                if e.vehicles.contains_key(k) {
                    assert(e.vehicles[k].version.0 < bound);
                }
            }
        }
    }
    if bound <= 0 && e.players.dom().is_empty() && e.doors.dom().is_empty() && e.items.dom().is_empty()
        && e.containers.dom().is_empty() && e.buildings.dom().is_empty() && e.vehicles.dom().is_empty() {
        assert forall|k: u128| !e.players.contains_key(k) by {
            assert(!e.players.dom().contains(k));
        }
        assert forall|k: u128| !e.doors.contains_key(k) by {
            assert(!e.doors.dom().contains(k));
        }
        assert forall|k: u128| !e.items.contains_key(k) by {
            assert(!e.items.dom().contains(k));
        }
        assert forall|k: u128| !e.containers.contains_key(k) by {
            assert(!e.containers.dom().contains(k));
        }
        assert forall|k: u128| !e.buildings.contains_key(k) by {
            assert(!e.buildings.dom().contains(k));
        }
        assert forall|k: u128| !e.vehicles.contains_key(k) by {
            assert(!e.vehicles.dom().contains(k));
        }
    }
}

} // verus!
