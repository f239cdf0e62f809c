//! A client's projection of the authoritative world, kept current by
//! snapshots, deltas and receipts, with a visual cache keyed by fingerprint.

use super::events::{
    apply_events_to, entities_of, lemma_events_version_growth, lemma_versions_below_weaken,
    spec_apply_events, versions_below, AuthorityError,
};
use super::equality::tables_equal;
use super::readiness::{lemma_versions_below_extremes, tables_below};
use super::fingerprint::viewed_table;
use super::model::{
    BuildingState, ClientSnapshot, ClientSnapshotView, CommandReceipt, ContainerState, DeltaView,
    DoorState, EntitiesView, ItemState, PlayerState, ReceiptView, StateFingerprint, SyncPayload,
    SyncView,
    VehicleState, WorldDelta, WorldRevision, view_buildings, view_containers, view_items,
    view_players, view_vehicles,
};
use crate::ids::{BuildingInstanceId, ContainerId, DoorId, HexCoord, ItemId, PersonId, VehicleId, WorldId};
use crate::sorted_ids::{sorted_map_keys, sorted_set_items};
use std::collections::{BTreeMap, BTreeSet};
use vstd::prelude::*;

verus! {

#[derive(Debug)]
pub struct ClientProjection {
    pub world_id: WorldId,
    pub revision: WorldRevision,
    pub interest_center: HexCoord,
    pub players: BTreeMap<PersonId, PlayerState>,
    pub doors: BTreeMap<DoorId, DoorState>,
    pub items: BTreeMap<ItemId, ItemState>,
    pub containers: BTreeMap<ContainerId, ContainerState>,
    pub buildings: BTreeMap<BuildingInstanceId, BuildingState>,
    pub vehicles: BTreeMap<VehicleId, VehicleState>,
    pub state_fingerprint: StateFingerprint,
    pub visual_cache_key: Option<StateFingerprint>,
}

pub struct ProjectionView {
    pub world_id: WorldId,
    pub revision: WorldRevision,
    pub interest_center: HexCoord,
    pub entities: EntitiesView,
    pub state_fingerprint: StateFingerprint,
    pub visual_cache_key: Option<StateFingerprint>,
}

impl View for ClientProjection {
    type V = ProjectionView;

    open spec fn view(&self) -> ProjectionView {
        ProjectionView {
            world_id: self.world_id,
            revision: self.revision,
            interest_center: self.interest_center,
            entities: entities_of(
                self.players@,
                self.doors@,
                self.items@,
                self.containers@,
                self.buildings@,
                self.vehicles@,
            ),
            state_fingerprint: self.state_fingerprint,
            visual_cache_key: self.visual_cache_key,
        }
    }
}

/// The projection that a snapshot establishes, with an empty visual cache.
pub open spec fn projection_of(s: ClientSnapshotView) -> ProjectionView {
    ProjectionView {
        world_id: s.world_id,
        revision: s.revision,
        interest_center: s.interest_center,
        entities: s.entities,
        state_fingerprint: s.state_fingerprint,
        visual_cache_key: None,
    }
}

/// A projection after one delta, and whether it applied. A delta that does
/// not start at the projection's revision changes nothing.
pub open spec fn spec_apply_delta(p: ProjectionView, d: DeltaView) -> (ProjectionView, bool) {
    if d.from_revision != p.revision {
        (p, false)
    } else {
        let (e, ok) = spec_apply_events(p.entities, d.events, d.events.len(), false);
        if ok {
            (ProjectionView { entities: e, revision: d.to_revision, visual_cache_key: None, ..p }, true)
        } else {
            (ProjectionView { entities: e, ..p }, false)
        }
    }
}

/// A projection after the first `n` deltas, stopping at the first failure.
pub open spec fn spec_apply_deltas(p: ProjectionView, deltas: Seq<DeltaView>, n: nat) -> (ProjectionView, bool)
    decreases n,
{
    if n == 0 || n > deltas.len() {
        (p, true)
    } else {
        let (p1, ok) = spec_apply_deltas(p, deltas, (n - 1) as nat);
        if !ok {
            (p1, false)
        } else {
            spec_apply_delta(p1, deltas[n - 1])
        }
    }
}

/// The number of events in the first `n` deltas.
pub open spec fn event_count(deltas: Seq<DeltaView>, n: nat) -> int
    decreases n,
{
    if n == 0 || n > deltas.len() {
        0
    } else {
        event_count(deltas, (n - 1) as nat) + deltas[n - 1].events.len()
    }
}

/// A projection after a sync payload.
pub open spec fn spec_apply_sync(p: ProjectionView, sync: SyncView) -> (ProjectionView, bool) {
    match sync {
        SyncView::Snapshot(s) => (projection_of(s), true),
        SyncView::Deltas(deltas) => spec_apply_deltas(p, deltas, deltas.len()),
    }
}

/// A projection after a command receipt: its sync, then its delta if it is
/// ahead of the projection, then the receipt's fingerprint if the revisions
/// agree.
pub open spec fn spec_apply_receipt(p: ProjectionView, r: ReceiptView) -> (ProjectionView, bool) {
    let (p1, ok1) = match r.sync {
        Some(sync) => spec_apply_sync(p, sync),
        None => (p, true),
    };
    if !ok1 {
        (p1, false)
    } else {
        let (p2, ok2) = match r.delta {
            Some(d) => if d.to_revision.0 > p1.revision.0 {
                spec_apply_delta(p1, d)
            } else {
                (p1, true)
            },
            None => (p1, true),
        };
        if !ok2 {
            (p2, false)
        } else if p2.revision == r.world_revision {
            (ProjectionView { state_fingerprint: r.state_fingerprint, ..p2 }, true)
        } else {
            (p2, true)
        }
    }
}

/// The receipt's sync, and its delta where it is ahead of the projection,
/// can be applied without a version overflowing.
pub open spec fn receipt_bounded(p: ProjectionView, r: ReceiptView) -> bool {
    let p1 = match r.sync {
        Some(sync) => spec_apply_sync(p, sync).0,
        None => p,
    };
    &&& (r.sync matches Some(sync) ==> sync_bounded(p, sync))
    &&& match r.delta {
        Some(d) => d.to_revision.0 > p1.revision.0 ==> versions_below(
            p1.entities,
            u64::MAX + 1 - 2 * d.events.len(),
        ),
        None => true,
    }
}

/// The events of a sync payload can all be applied without a version overflowing.
pub open spec fn sync_bounded(p: ProjectionView, sync: SyncView) -> bool {
    sync matches SyncView::Deltas(deltas) ==> versions_below(
        p.entities,
        u64::MAX + 1 - 2 * event_count(deltas, deltas.len()),
    )
}

proof fn lemma_event_count_monotone(deltas: Seq<DeltaView>, i: nat, j: nat)
    requires
        i <= j <= deltas.len(),
    ensures
        event_count(deltas, i) <= event_count(deltas, j),
        event_count(deltas, i) >= 0,
    decreases j,
{
    if i < j {
        lemma_event_count_monotone(deltas, i, (j - 1) as nat);
    } else if i > 0 {
        lemma_event_count_monotone(deltas, 0, (i - 1) as nat);
    }
}

/// One delta raises any entity version by at most twice its number of events.
proof fn lemma_delta_version_growth(p: ProjectionView, d: DeltaView, bound: int)
    requires
        versions_below(p.entities, bound),
    ensures
        versions_below(spec_apply_delta(p, d).0.entities, bound + 2 * d.events.len()),
{
    lemma_events_version_growth(p.entities, d.events, d.events.len(), false, bound);
    if d.from_revision != p.revision {
        lemma_versions_below_weaken(p.entities, bound, bound + 2 * d.events.len());
    }
}

proof fn lemma_deltas_stop(p: ProjectionView, deltas: Seq<DeltaView>, from: nat, to: nat)
    requires
        from <= to <= deltas.len(),
        !spec_apply_deltas(p, deltas, from).1,
    ensures
        spec_apply_deltas(p, deltas, to) == spec_apply_deltas(p, deltas, from),
    decreases to - from,
{
    if from < to {
        lemma_deltas_stop(p, deltas, from, (to - 1) as nat);
    }
}

impl ClientProjection {
    pub fn from_snapshot(snapshot: ClientSnapshot) -> (projection: Self)
        ensures
            projection@ == projection_of(snapshot@),
    {
        ClientProjection {
            world_id: snapshot.world_id,
            revision: snapshot.revision,
            interest_center: snapshot.interest_center,
            players: snapshot.players,
            doors: snapshot.doors,
            items: snapshot.items,
            containers: snapshot.containers,
            buildings: snapshot.buildings,
            vehicles: snapshot.vehicles,
            state_fingerprint: snapshot.state_fingerprint,
            visual_cache_key: None,
        }
    }

    /// Applies one delta; it must start at the projection's revision.
    pub fn apply_delta(&mut self, delta: &WorldDelta) -> (result: Result<(), AuthorityError>)
        requires
            versions_below(old(self)@.entities, u64::MAX + 1 - 2 * delta@.events.len()),
        ensures
            ({
                let (p, ok) = spec_apply_delta(old(self)@, delta@);
                &&& final(self)@ == p
                &&& (result is Ok <==> ok)
                &&& delta@.from_revision != old(self)@.revision ==> (result matches Err(
                    AuthorityError::JournalRevision { expected, actual },
                ) && expected == old(self)@.revision && actual == delta@.from_revision)
                &&& delta@.from_revision == old(self)@.revision ==> (result matches Err(error)
                    ==> error is Invariant)
            }),
    {
        if delta.from_revision != self.revision {
            return Err(
                AuthorityError::JournalRevision {
                    expected: self.revision,
                    actual: delta.from_revision,
                },
            );
        }
        apply_events_to(
            &mut self.players,
            &mut self.doors,
            &mut self.items,
            &mut self.containers,
            &mut self.buildings,
            &mut self.vehicles,
            &delta.events,
            false,
        )?;
        self.revision = delta.to_revision;
        self.visual_cache_key = None;
        Ok(())
    }

    /// Applies a sync payload: a snapshot replaces the projection; deltas
    /// are applied in order until one fails.
    pub fn apply_sync(&mut self, sync: SyncPayload) -> (result: Result<(), AuthorityError>)
        requires
            sync_bounded(old(self)@, sync@),
        ensures
            ({
                let (p, ok) = spec_apply_sync(old(self)@, sync@);
                &&& final(self)@ == p
                &&& (result is Ok <==> ok)
            }),
    {
        match sync {
            SyncPayload::Snapshot(snapshot) => {
                *self = Self::from_snapshot(snapshot);
                Ok(())
            },
            SyncPayload::Deltas(deltas) => {
                let ghost p0 = self@;
                let ghost ds = deltas@.map_values(|d: WorldDelta| d@);
                let ghost total = event_count(ds, ds.len());
                let mut i: usize = 0;
                while i < deltas.len()
                    invariant
                        i <= deltas.len(),
                        p0 == old(self)@,
                        sync@ == SyncView::Deltas(ds),
                        ds == deltas@.map_values(|d: WorldDelta| d@),
                        total == event_count(ds, ds.len()),
                        spec_apply_deltas(p0, ds, i as nat) == (self@, true),
                        versions_below(
                            self@.entities,
                            u64::MAX + 1 - 2 * (total - event_count(ds, i as nat)),
                        ),
                    decreases deltas.len() - i,
                {
                    let ghost before = self@;
                    let ghost bound = u64::MAX + 1 - 2 * (total - event_count(ds, i as nat));
                    proof {
                        lemma_event_count_monotone(ds, (i + 1) as nat, ds.len());
                        assert(event_count(ds, (i + 1) as nat) == event_count(ds, i as nat)
                            + ds[i as int].events.len());
                        assert(ds[i as int] == deltas@[i as int]@);
                        lemma_versions_below_weaken(
                            self@.entities,
                            bound,
                            u64::MAX + 1 - 2 * deltas@[i as int]@.events.len(),
                        );
                        lemma_delta_version_growth(before, ds[i as int], bound);
                    }
                    let r = self.apply_delta(&deltas[i]);
                    proof {
                        assert(spec_apply_deltas(p0, ds, (i + 1) as nat) == spec_apply_delta(
                            before,
                            ds[i as int],
                        ));
                    }
                    if r.is_err() {
                        proof {
                            lemma_deltas_stop(p0, ds, (i + 1) as nat, ds.len());
                        }
                        return r;
                    }
                    i = i + 1;
                }
                Ok(())
            },
        }
    }

    pub fn clear_visual_cache(&mut self)
        ensures
            final(self)@ == (ProjectionView { visual_cache_key: None, ..old(self)@ }),
    {
        self.visual_cache_key = None;
    }

    pub fn rebuild_visual_cache(&mut self)
        ensures
            final(self)@ == (ProjectionView {
                visual_cache_key: Some(old(self)@.state_fingerprint),
                ..old(self)@
            }),
    {
        self.visual_cache_key = Some(self.state_fingerprint);
    }

    pub fn visual_cache_is_current(&self) -> (current: bool)
        ensures
            current == (self@.visual_cache_key == Some(self@.state_fingerprint)),
    {
        match self.visual_cache_key {
            Some(key) => key == self.state_fingerprint,
            None => false,
        }
    }

    /// Whether `count` events can be applied to the projection without a
    /// version overflowing.
    fn events_fit(&self, count: u128) -> (ok: bool)
        requires
            count <= 0x1_0000_0000_0000_0000,
        ensures
            ok == versions_below(self@.entities, u64::MAX + 1 - 2 * count),
    {
        proof {
            lemma_versions_below_extremes(self@.entities, u64::MAX + 1 - 2 * count);
        }
        if count == 0 {
            true
        } else if count <= 0x8000_0000_0000_0000 {
            let bound = (0x1_0000_0000_0000_0000u128 - 2 * count) as u64;
            tables_below(&self.players, &self.doors, &self.items, &self.containers, &self.buildings, &self.vehicles, bound)
        } else {
            proof {
                assert(self@.entities.players.dom() == self.players@.dom());
                assert(self@.entities.items.dom() == self.items@.dom());
                assert(self@.entities.containers.dom() == self.containers@.dom());
                assert(self@.entities.buildings.dom() == self.buildings@.dom());
                assert(self@.entities.vehicles.dom() == self.vehicles@.dom());
            }
            self.players.is_empty() && self.doors.is_empty() && self.items.is_empty() && self.containers.is_empty()
                && self.buildings.is_empty() && self.vehicles.is_empty()
        }
    }

    /// Whether a receipt can be applied without a version overflowing, as
    /// `apply_receipt` asks. A receipt that carries both a sync payload and a
    /// delta is answered no.
    pub fn can_apply_receipt(&self, receipt: &CommandReceipt) -> (ok: bool)
        ensures
            ok ==> receipt_bounded(self@, receipt@),
            receipt@.sync is None || receipt@.delta is None ==> ok == receipt_bounded(self@, receipt@),
    {
        match (&receipt.sync, &receipt.delta) {
            (Some(_), Some(_)) => false,
            (None, None) => true,
            (None, Some(delta)) => if delta.to_revision.0 > self.revision.0 {
                self.events_fit(delta.events.len() as u128)
            } else {
                true
            },
            (Some(SyncPayload::Snapshot(_)), None) => true,
            (Some(SyncPayload::Deltas(deltas)), None) => {
                let ghost views = deltas@.map_values(|d: WorldDelta| d@);
                let limit: u128 = 0x1_0000_0000_0000_0000;
                let mut count: u128 = 0;
                let mut i: usize = 0;
                while i < deltas.len()
                    invariant
                        i <= deltas.len(),
                        views == deltas@.map_values(|d: WorldDelta| d@),
                        limit == 0x1_0000_0000_0000_0000u128,
                        count <= limit,
                        count == if event_count(views, i as nat) < limit {
                            event_count(views, i as nat)
                        } else {
                            limit as int
                        },
                        event_count(views, i as nat) >= 0,
                    decreases deltas.len() - i,
                {
                    proof {
                        lemma_event_count_monotone(views, i as nat, (i + 1) as nat);
                    }
                    let more = deltas[i].events.len() as u128;
                    assert(views[i as int].events.len() == more);
                    count = if count + more < limit {
                        count + more
                    } else {
                        limit
                    };
                    i = i + 1;
                }
                proof {
                    if event_count(views, views.len()) >= limit {
                        assert(u64::MAX + 1 - 2 * event_count(views, views.len()) <= 0);
                        assert(u64::MAX + 1 - 2 * count <= 0);
                        lemma_versions_below_extremes(self@.entities, u64::MAX + 1 - 2 * event_count(views, views.len()));
                        lemma_versions_below_extremes(self@.entities, u64::MAX + 1 - 2 * count);
                    }
                }
                self.events_fit(count)
            },
        }
    }

    /// Applies a command receipt; see `spec_apply_receipt`.
    pub fn apply_receipt(&mut self, receipt: &CommandReceipt) -> (result: Result<(), AuthorityError>)
        requires
            receipt_bounded(old(self)@, receipt@),
        ensures
            ({
                let (p, ok) = spec_apply_receipt(old(self)@, receipt@);
                &&& final(self)@ == p
                &&& (result is Ok <==> ok)
            }),
    {
        match &receipt.sync {
            Some(sync) => {
                self.apply_sync(sync.clone())?;
            },
            None => {},
        }
        match &receipt.delta {
            Some(delta) => {
                if delta.to_revision.0 > self.revision.0 {
                    self.apply_delta(delta)?;
                }
            },
            None => {},
        }
        if self.revision == receipt.world_revision {
            self.state_fingerprint = receipt.state_fingerprint;
        }
        Ok(())
    }

    /// Whether the projection holds exactly the snapshot's world.
    pub fn matches_snapshot(&self, snapshot: &ClientSnapshot) -> (matches: bool)
        ensures
            matches == (self@.world_id == snapshot@.world_id && self@.revision == snapshot@.revision
                && self@.entities == snapshot@.entities && self@.state_fingerprint
                == snapshot@.state_fingerprint),
    {
        let players = tables_equal(&self.players, &snapshot.players);
        let doors = tables_equal(&self.doors, &snapshot.doors);
        let items = tables_equal(&self.items, &snapshot.items);
        let containers = tables_equal(&self.containers, &snapshot.containers);
        let buildings = tables_equal(&self.buildings, &snapshot.buildings);
        let vehicles = tables_equal(&self.vehicles, &snapshot.vehicles);
        proof {
            assert(viewed_table(self.players@) =~= view_players(self.players@));
            assert(viewed_table(snapshot.players@) =~= view_players(snapshot.players@));
            assert(viewed_table(self.doors@) =~= self.doors@);
            assert(viewed_table(snapshot.doors@) =~= snapshot.doors@);
            assert(viewed_table(self.items@) =~= view_items(self.items@));
            assert(viewed_table(snapshot.items@) =~= view_items(snapshot.items@));
            assert(viewed_table(self.containers@) =~= view_containers(self.containers@));
            assert(viewed_table(snapshot.containers@) =~= view_containers(snapshot.containers@));
            assert(viewed_table(self.buildings@) =~= view_buildings(self.buildings@));
            assert(viewed_table(snapshot.buildings@) =~= view_buildings(snapshot.buildings@));
            assert(viewed_table(self.vehicles@) =~= view_vehicles(self.vehicles@));
            assert(viewed_table(snapshot.vehicles@) =~= view_vehicles(snapshot.vehicles@));
        }
        self.world_id == snapshot.world_id && self.revision == snapshot.revision && players && doors
            && items && containers && buildings && vehicles && self.state_fingerprint
            == snapshot.state_fingerprint
    }
}

} // verus!
