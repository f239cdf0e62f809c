//! The canonical byte encoding of the world state and its 64-bit FNV-1a
//! digest, the state fingerprint that receipts and journal records carry.
//!
//! Tables and sets are encoded in increasing identifier order, each preceded
//! by its length, so the encoding depends only on the world's contents.

use super::model::{
    ActorLocation, BuildingState, ContainerState, DoorState, ItemOwner, ItemState, PlayerState,
    RouteAuthority, StateFingerprint, VehicleState, WorldState, WorldView,
};
use crate::ids::HexCoord;
use crate::sorted_ids::{sorted_ids, sorted_map_keys, sorted_set_items, strictly_increasing};
use std::collections::{BTreeMap, BTreeSet};
use vstd::prelude::*;

verus! {

pub const FNV_OFFSET_BASIS: u64 = 0xcbf2_9ce4_8422_2325;

pub const FNV_PRIME: u64 = 0x0000_0100_0000_01b3;

pub open spec fn u64_bytes(x: u64) -> Seq<u8> {
    seq![
        x as u8,
        (x >> 8u64) as u8,
        (x >> 16u64) as u8,
        (x >> 24u64) as u8,
        (x >> 32u64) as u8,
        (x >> 40u64) as u8,
        (x >> 48u64) as u8,
        (x >> 56u64) as u8,
    ]
}

pub open spec fn u32_bytes(x: u32) -> Seq<u8> {
    seq![x as u8, (x >> 8u32) as u8, (x >> 16u32) as u8, (x >> 24u32) as u8]
}

pub open spec fn u128_bytes(x: u128) -> Seq<u8> {
    u64_bytes(x as u64) + u64_bytes((x >> 64u128) as u64)
}

pub open spec fn bool_bytes(b: bool) -> Seq<u8> {
    seq![if b { 1u8 } else { 0u8 }]
}

pub open spec fn cell_bytes(c: HexCoord) -> Seq<u8> {
    u32_bytes(c.q as u32) + u32_bytes(c.r as u32)
}

pub open spec fn location_bytes(l: ActorLocation) -> Seq<u8> {
    match l {
        ActorLocation::InCell { cell } => seq![0u8] + cell_bytes(cell),
        ActorLocation::InBuilding { cell, building_id } => seq![1u8] + cell_bytes(cell)
            + u128_bytes(building_id),
        ActorLocation::InVehicle { cell, vehicle_id } => seq![2u8] + cell_bytes(cell) + u128_bytes(
            vehicle_id,
        ),
    }
}

pub open spec fn owner_bytes(o: ItemOwner) -> Seq<u8> {
    match o {
        ItemOwner::Container(id) => seq![0u8] + u128_bytes(id),
        ItemOwner::Person(id) => seq![1u8] + u128_bytes(id),
        ItemOwner::Vehicle(id) => seq![2u8] + u128_bytes(id),
    }
}

/// The encoding of the first `n` identifiers of `ids`.
pub open spec fn id_list_bytes(ids: Seq<u128>, n: nat) -> Seq<u8>
    decreases n,
{
    if n == 0 || n > ids.len() {
        Seq::empty()
    } else {
        id_list_bytes(ids, (n - 1) as nat) + u128_bytes(ids[n - 1])
    }
}

/// A set of identifiers: its size, then its members in increasing order.
pub open spec fn id_set_bytes(set: Set<u128>) -> Seq<u8> {
    let ids = sorted_ids(set);
    u64_bytes(ids.len() as u64) + id_list_bytes(ids, ids.len())
}

/// The encoding of the first `n` characters of `chars`.
pub open spec fn char_list_bytes(chars: Seq<char>, n: nat) -> Seq<u8>
    decreases n,
{
    if n == 0 || n > chars.len() {
        Seq::empty()
    } else {
        char_list_bytes(chars, (n - 1) as nat) + u32_bytes(chars[n - 1] as u32)
    }
}

pub open spec fn text_bytes(chars: Seq<char>) -> Seq<u8> {
    u64_bytes(chars.len() as u64) + char_list_bytes(chars, chars.len())
}

/// The encoding of the first `n` cells of `cells`.
pub open spec fn cell_list_bytes(cells: Seq<HexCoord>, n: nat) -> Seq<u8>
    decreases n,
{
    if n == 0 || n > cells.len() {
        Seq::empty()
    } else {
        cell_list_bytes(cells, (n - 1) as nat) + cell_bytes(cells[n - 1])
    }
}

/// Values that have a canonical byte encoding of their view.
pub trait CanonicalEncoding: View + Sized {
    spec fn encoding(v: Self::V) -> Seq<u8>;

    fn encode_into(&self, out: &mut Vec<u8>)
        ensures
            final(out)@ == old(out)@ + Self::encoding(self@),
    ;
}

/// The encoding of the first `n` entries of a table, in the order of `keys`.
pub open spec fn entry_list_bytes<V: CanonicalEncoding>(
    keys: Seq<u128>,
    table: Map<u128, V::V>,
    n: nat,
) -> Seq<u8>
    decreases n,
{
    if n == 0 || n > keys.len() {
        Seq::empty()
    } else {
        entry_list_bytes::<V>(keys, table, (n - 1) as nat) + u128_bytes(keys[n - 1]) + V::encoding(
            table[keys[n - 1]],
        )
    }
}

/// A table: its size, then its entries in increasing key order.
pub open spec fn table_bytes<V: CanonicalEncoding>(table: Map<u128, V::V>) -> Seq<u8> {
    let keys = sorted_ids(table.dom());
    u64_bytes(keys.len() as u64) + entry_list_bytes::<V>(keys, table, keys.len())
}

pub(crate) fn push_u64(out: &mut Vec<u8>, x: u64)
    ensures
        final(out)@ == old(out)@ + u64_bytes(x),
{
    out.push(x as u8);
    out.push((x >> 8) as u8);
    out.push((x >> 16) as u8);
    out.push((x >> 24) as u8);
    out.push((x >> 32) as u8);
    out.push((x >> 40) as u8);
    out.push((x >> 48) as u8);
    out.push((x >> 56) as u8);
    assert(final(out)@ =~= old(out)@ + u64_bytes(x));
}

fn push_u32(out: &mut Vec<u8>, x: u32)
    ensures
        final(out)@ == old(out)@ + u32_bytes(x),
{
    out.push(x as u8);
    out.push((x >> 8) as u8);
    out.push((x >> 16) as u8);
    out.push((x >> 24) as u8);
    assert(final(out)@ =~= old(out)@ + u32_bytes(x));
}

fn push_u128(out: &mut Vec<u8>, x: u128)
    ensures
        final(out)@ == old(out)@ + u128_bytes(x),
{
    push_u64(out, x as u64);
    push_u64(out, (x >> 64) as u64);
    assert(final(out)@ =~= old(out)@ + u128_bytes(x));
}

fn push_bool(out: &mut Vec<u8>, b: bool)
    ensures
        final(out)@ == old(out)@ + bool_bytes(b),
{
    out.push(if b { 1u8 } else { 0u8 });
    assert(final(out)@ =~= old(out)@ + bool_bytes(b));
}

fn push_cell(out: &mut Vec<u8>, c: HexCoord)
    ensures
        final(out)@ == old(out)@ + cell_bytes(c),
{
    push_u32(out, c.q as u32);
    push_u32(out, c.r as u32);
    assert(final(out)@ =~= old(out)@ + cell_bytes(c));
}

fn push_location(out: &mut Vec<u8>, l: ActorLocation)
    ensures
        final(out)@ == old(out)@ + location_bytes(l),
{
    match l {
        ActorLocation::InCell { cell } => {
            out.push(0u8);
            push_cell(out, cell);
        },
        ActorLocation::InBuilding { cell, building_id } => {
            out.push(1u8);
            push_cell(out, cell);
            push_u128(out, building_id);
        },
        ActorLocation::InVehicle { cell, vehicle_id } => {
            out.push(2u8);
            push_cell(out, cell);
            push_u128(out, vehicle_id);
        },
    }
    assert(final(out)@ =~= old(out)@ + location_bytes(l));
}

fn push_owner(out: &mut Vec<u8>, o: ItemOwner)
    ensures
        final(out)@ == old(out)@ + owner_bytes(o),
{
    match o {
        ItemOwner::Container(id) => {
            out.push(0u8);
            push_u128(out, id);
        },
        ItemOwner::Person(id) => {
            out.push(1u8);
            push_u128(out, id);
        },
        ItemOwner::Vehicle(id) => {
            out.push(2u8);
            push_u128(out, id);
        },
    }
    assert(final(out)@ =~= old(out)@ + owner_bytes(o));
}

fn push_id_set(out: &mut Vec<u8>, set: &BTreeSet<u128>)
    ensures
        final(out)@ == old(out)@ + id_set_bytes(set@),
{
    let ids = sorted_set_items(set);
    push_u64(out, ids.len() as u64);
    let ghost start = out@;
    let mut i: usize = 0;
    while i < ids.len()
        invariant
            i <= ids.len(),
            out@ == start + id_list_bytes(ids@, i as nat),
        decreases ids.len() - i,
    {
        push_u128(out, ids[i]);
        i = i + 1;
        assert(out@ =~= start + id_list_bytes(ids@, i as nat));
    }
    assert(final(out)@ =~= old(out)@ + id_set_bytes(set@));
}

fn push_text(out: &mut Vec<u8>, text: &String)
    ensures
        final(out)@ == old(out)@ + text_bytes(text@),
{
    let ghost all = text@;
    let mut codes: Vec<u32> = Vec::new();
    for c in it: text.as_str().chars()
        invariant
            it.seq() == all,
            all == text@,
            codes@.len() == it.index(),
            forall|k: int| 0 <= k < codes@.len() ==> codes@[k] == all[k] as u32,
    {
        codes.push(c as u32);
    }
    assert(codes@.len() == all.len());
    push_u64(out, codes.len() as u64);
    let ghost start = out@;
    let mut i: usize = 0;
    while i < codes.len()
        invariant
            i <= codes.len(),
            codes@.len() == all.len(),
            all == text@,
            forall|k: int| 0 <= k < codes@.len() ==> codes@[k] == all[k] as u32,
            out@ == start + char_list_bytes(all, i as nat),
        decreases codes.len() - i,
    {
        push_u32(out, codes[i]);
        i = i + 1;
        assert(out@ =~= start + char_list_bytes(all, i as nat));
    }
    assert(final(out)@ =~= old(out)@ + text_bytes(text@));
}

/// A table with each value replaced by its view.
pub open spec fn viewed_table<V: View>(table: Map<u128, V>) -> Map<u128, V::V> {
    table.map_values(|v: V| v@)
}

fn push_table<V: CanonicalEncoding>(out: &mut Vec<u8>, table: &BTreeMap<u128, V>)
    ensures
        final(out)@ == old(out)@ + table_bytes::<V>(viewed_table(table@)),
{
    let keys = sorted_map_keys(table);
    let ghost viewed = viewed_table(table@);
    assert(viewed.dom() =~= table@.dom());
    push_u64(out, keys.len() as u64);
    let ghost start = out@;
    let mut i: usize = 0;
    while i < keys.len()
        invariant
            i <= keys.len(),
            keys@.to_set() == table@.dom(),
            keys@ == sorted_ids(table@.dom()),
            viewed == viewed_table(table@),
            out@ == start + entry_list_bytes::<V>(keys@, viewed, i as nat),
        decreases keys.len() - i,
    {
        let key = keys[i];
        assert(keys@.to_set().contains(key));
        let value = table.get(&key).unwrap();
        push_u128(out, key);
        value.encode_into(out);
        i = i + 1;
        assert(out@ =~= start + entry_list_bytes::<V>(keys@, viewed, i as nat));
    }
    assert(final(out)@ =~= old(out)@ + table_bytes::<V>(viewed));
}

impl CanonicalEncoding for u32 {
    open spec fn encoding(v: u32) -> Seq<u8> {
        u32_bytes(v)
    }

    fn encode_into(&self, out: &mut Vec<u8>) {
        push_u32(out, *self);
    }
}

impl CanonicalEncoding for u128 {
    open spec fn encoding(v: u128) -> Seq<u8> {
        u128_bytes(v)
    }

    fn encode_into(&self, out: &mut Vec<u8>) {
        push_u128(out, *self);
    }
}

impl CanonicalEncoding for PlayerState {
    open spec fn encoding(p: super::model::PlayerView) -> Seq<u8> {
        u128_bytes(p.id) + cell_bytes(p.current_cell) + location_bytes(p.location) + table_bytes::<
            u32,
        >(p.inventory) + u64_bytes(p.version.0)
    }

    fn encode_into(&self, out: &mut Vec<u8>) {
        push_u128(out, self.id);
        push_cell(out, self.current_cell);
        push_location(out, self.location);
        push_table(out, &self.inventory);
        push_u64(out, self.version.0);
        assert(viewed_table(self.inventory@) =~= self.inventory@);
        assert(final(out)@ =~= old(out)@ + Self::encoding(self@));
    }
}

impl View for DoorState {
    type V = DoorState;

    open spec fn view(&self) -> DoorState {
        *self
    }
}

impl CanonicalEncoding for DoorState {
    open spec fn encoding(d: DoorState) -> Seq<u8> {
        u128_bytes(d.id) + u128_bytes(d.building_id) + bool_bytes(d.is_open) + u64_bytes(
            d.version.0,
        )
    }

    fn encode_into(&self, out: &mut Vec<u8>) {
        push_u128(out, self.id);
        push_u128(out, self.building_id);
        push_bool(out, self.is_open);
        push_u64(out, self.version.0);
        assert(final(out)@ =~= old(out)@ + Self::encoding(self@));
    }
}

impl CanonicalEncoding for ItemState {
    open spec fn encoding(i: super::model::ItemView) -> Seq<u8> {
        u128_bytes(i.id) + text_bytes(i.archetype) + u32_bytes(i.quantity) + owner_bytes(i.owner)
            + u64_bytes(i.version.0)
    }

    fn encode_into(&self, out: &mut Vec<u8>) {
        push_u128(out, self.id);
        push_text(out, &self.archetype);
        push_u32(out, self.quantity);
        push_owner(out, self.owner);
        push_u64(out, self.version.0);
        assert(final(out)@ =~= old(out)@ + Self::encoding(self@));
    }
}

impl CanonicalEncoding for ContainerState {
    open spec fn encoding(c: super::model::ContainerView) -> Seq<u8> {
        u128_bytes(c.id) + cell_bytes(c.cell) + id_set_bytes(c.item_ids) + u64_bytes(c.version.0)
    }

    fn encode_into(&self, out: &mut Vec<u8>) {
        push_u128(out, self.id);
        push_cell(out, self.cell);
        push_id_set(out, &self.item_ids);
        push_u64(out, self.version.0);
        assert(final(out)@ =~= old(out)@ + Self::encoding(self@));
    }
}

impl CanonicalEncoding for BuildingState {
    open spec fn encoding(b: super::model::BuildingView) -> Seq<u8> {
        u128_bytes(b.id) + cell_bytes(b.cell) + id_set_bytes(b.wall_ids) + table_bytes::<u128>(
            b.openings,
        ) + id_set_bytes(b.editors) + u64_bytes(b.version.0)
    }

    fn encode_into(&self, out: &mut Vec<u8>) {
        push_u128(out, self.id);
        push_cell(out, self.cell);
        push_id_set(out, &self.wall_ids);
        push_table(out, &self.openings);
        push_id_set(out, &self.editors);
        push_u64(out, self.version.0);
        assert(viewed_table(self.openings@) =~= self.openings@);
        assert(final(out)@ =~= old(out)@ + Self::encoding(self@));
    }
}

impl CanonicalEncoding for VehicleState {
    open spec fn encoding(v: super::model::VehicleView) -> Seq<u8> {
        u128_bytes(v.id) + cell_bytes(v.cell) + id_set_bytes(v.passengers) + u64_bytes(v.version.0)
    }

    fn encode_into(&self, out: &mut Vec<u8>) {
        push_u128(out, self.id);
        push_cell(out, self.cell);
        push_id_set(out, &self.passengers);
        push_u64(out, self.version.0);
        assert(final(out)@ =~= old(out)@ + Self::encoding(self@));
    }
}

impl CanonicalEncoding for RouteAuthority {
    open spec fn encoding(r: super::model::RouteView) -> Seq<u8> {
        u128_bytes(r.id) + u64_bytes(r.ordered_cells.len() as u64) + cell_list_bytes(
            r.ordered_cells,
            r.ordered_cells.len(),
        )
    }

    fn encode_into(&self, out: &mut Vec<u8>) {
        push_u128(out, self.id);
        push_u64(out, self.ordered_cells.len() as u64);
        let ghost start = out@;
        let mut i: usize = 0;
        while i < self.ordered_cells.len()
            invariant
                i <= self.ordered_cells.len(),
                out@ == start + cell_list_bytes(self.ordered_cells@, i as nat),
            decreases self.ordered_cells.len() - i,
        {
            push_cell(out, self.ordered_cells[i]);
            i = i + 1;
            assert(out@ =~= start + cell_list_bytes(self.ordered_cells@, i as nat));
        }
        assert(final(out)@ =~= old(out)@ + Self::encoding(self@));
    }
}

/// The canonical encoding of a world state.
#[verifier::opaque]
pub open spec fn world_bytes(w: WorldView) -> Seq<u8> {
    u128_bytes(w.world_id) + u64_bytes(w.revision.0) + u64_bytes(w.clock.ticks as u64)
        + table_bytes::<PlayerState>(w.entities.players) + table_bytes::<DoorState>(
        w.entities.doors,
    ) + table_bytes::<ItemState>(w.entities.items) + table_bytes::<ContainerState>(
        w.entities.containers,
    ) + table_bytes::<BuildingState>(w.entities.buildings) + table_bytes::<VehicleState>(
        w.entities.vehicles,
    ) + table_bytes::<RouteAuthority>(w.routes)
}

/// The 64-bit FNV-1a digest of a byte sequence.
pub open spec fn fnv1a(bytes: Seq<u8>) -> u64
    decreases bytes.len(),
{
    if bytes.len() == 0 {
        FNV_OFFSET_BASIS
    } else {
        ((fnv1a(bytes.drop_last()) ^ (bytes.last() as u64)) * FNV_PRIME) as u64
    }
}

/// The fingerprint of a world state.
#[verifier::opaque]
pub open spec fn spec_fingerprint(w: WorldView) -> StateFingerprint {
    StateFingerprint(fnv1a(world_bytes(w)))
}

/// The canonical encoding of a world state.
pub fn encode_world(world: &WorldState) -> (bytes: Vec<u8>)
    ensures
        bytes@ == world_bytes(world@),
{
    let mut out: Vec<u8> = Vec::new();
    push_u128(&mut out, world.world_id);
    push_u64(&mut out, world.revision.0);
    push_u64(&mut out, world.clock.ticks as u64);
    push_table(&mut out, &world.players);
    push_table(&mut out, &world.doors);
    push_table(&mut out, &world.items);
    push_table(&mut out, &world.containers);
    push_table(&mut out, &world.buildings);
    push_table(&mut out, &world.vehicles);
    push_table(&mut out, &world.routes);
    proof {
        assert(viewed_table(world.doors@) =~= world.doors@);
        assert(viewed_table(world.players@) =~= world@.entities.players);
        assert(viewed_table(world.items@) =~= world@.entities.items);
        assert(viewed_table(world.containers@) =~= world@.entities.containers);
        assert(viewed_table(world.buildings@) =~= world@.entities.buildings);
        assert(viewed_table(world.vehicles@) =~= world@.entities.vehicles);
        assert(viewed_table(world.routes@) =~= world@.routes);
        reveal(world_bytes);
        assert(out@ =~= world_bytes(world@));
    }
    out
}

/// The 64-bit FNV-1a digest of a byte sequence.
pub fn fnv1a_digest(bytes: &Vec<u8>) -> (digest: u64)
    ensures
        digest == fnv1a(bytes@),
{
    let mut hash: u64 = FNV_OFFSET_BASIS;
    let mut i: usize = 0;
    while i < bytes.len()
        invariant
            i <= bytes.len(),
            hash == fnv1a(bytes@.take(i as int)),
        decreases bytes.len() - i,
    {
        let mixed = hash ^ (bytes[i] as u64);
        let next = mixed.wrapping_mul(FNV_PRIME);
        proof {
            assert(mixed.wrapping_mul(0x0000_0100_0000_01b3u64) == (mixed * 0x0000_0100_0000_01b3u64) as u64)
                by (bit_vector);
            assert(bytes@.take(i + 1).drop_last() =~= bytes@.take(i as int));
        }
        hash = next;
        i = i + 1;
    }
    assert(bytes@.take(bytes.len() as int) =~= bytes@);
    hash
}

/// The fingerprint of a world state: the digest of its canonical encoding.
pub fn semantic_fingerprint(world: &WorldState) -> (fingerprint: StateFingerprint)
    ensures
        fingerprint == spec_fingerprint(world@),
{
    let bytes = encode_world(world);
    let fingerprint = StateFingerprint(fnv1a_digest(&bytes));
    proof {
        reveal(spec_fingerprint);
    }
    fingerprint
}

// ---- Different values give different bytes

pub(crate) proof fn lemma_split_bytes(a: Seq<u8>, b: Seq<u8>, c: Seq<u8>, d: Seq<u8>)
    requires
        a + b == c + d,
        a.len() == c.len(),
    ensures
        a == c,
        b == d,
{
    assert(a =~= (a + b).subrange(0, a.len() as int));
    assert(c =~= (c + d).subrange(0, c.len() as int));
    assert(b =~= (a + b).subrange(a.len() as int, (a + b).len() as int));
    assert(d =~= (c + d).subrange(c.len() as int, (c + d).len() as int));
}

/// Different 64-bit values have different bytes.
pub proof fn lemma_u64_bytes_injective(x: u64, y: u64)
    requires
        u64_bytes(x) == u64_bytes(y),
    ensures
        x == y,
{
    let a = u64_bytes(x);
    let b = u64_bytes(y);
    assert(a[0] == b[0] && a[1] == b[1] && a[2] == b[2] && a[3] == b[3]);
    assert(a[4] == b[4] && a[5] == b[5] && a[6] == b[6] && a[7] == b[7]);
    assert((x as u8 == y as u8 && (x >> 8u64) as u8 == (y >> 8u64) as u8 && (x >> 16u64) as u8 == (y
        >> 16u64) as u8 && (x >> 24u64) as u8 == (y >> 24u64) as u8 && (x >> 32u64) as u8 == (y >> 32u64) as u8
        && (x >> 40u64) as u8 == (y >> 40u64) as u8 && (x >> 48u64) as u8 == (y >> 48u64) as u8 && (x
        >> 56u64) as u8 == (y >> 56u64) as u8) ==> x == y) by (bit_vector);
}

/// Different 128-bit values have different bytes.
pub proof fn lemma_u128_bytes_injective(x: u128, y: u128)
    requires
        u128_bytes(x) == u128_bytes(y),
    ensures
        x == y,
{
    lemma_split_bytes(
        u64_bytes(x as u64),
        u64_bytes((x >> 64u128) as u64),
        u64_bytes(y as u64),
        u64_bytes((y >> 64u128) as u64),
    );
    lemma_u64_bytes_injective(x as u64, y as u64);
    lemma_u64_bytes_injective((x >> 64u128) as u64, (y >> 64u128) as u64);
    assert((x as u64 == y as u64 && (x >> 64u128) as u64 == (y >> 64u128) as u64) ==> x == y) by (bit_vector);
}

pub(crate) proof fn lemma_u128_bytes_len(x: u128)
    ensures
        u128_bytes(x).len() == 16,
{
}

pub(crate) proof fn lemma_u128_tail(p: Seq<u8>, x: u128, q: Seq<u8>, y: u128)
    requires
        p + u128_bytes(x) == q + u128_bytes(y),
    ensures
        p == q,
        x == y,
{
    lemma_u128_bytes_len(x);
    lemma_u128_bytes_len(y);
    let u = u128_bytes(x);
    let v = u128_bytes(y);
    assert((p + u).len() == p.len() + u.len());
    assert((q + v).len() == q.len() + v.len());
    assert(u.len() == 16 && v.len() == 16);
    assert(p.len() == q.len());
    lemma_split_bytes(p, u128_bytes(x), q, u128_bytes(y));
    lemma_u128_bytes_injective(x, y);
}

pub(crate) proof fn lemma_u64_tail(p: Seq<u8>, x: u64, q: Seq<u8>, y: u64)
    requires
        p + u64_bytes(x) == q + u64_bytes(y),
    ensures
        p == q,
        x == y,
{
    let u = u64_bytes(x);
    let v = u64_bytes(y);
    assert((p + u).len() == p.len() + u.len());
    assert((q + v).len() == q.len() + v.len());
    assert(p.len() == q.len());
    lemma_split_bytes(p, u, q, v);
    lemma_u64_bytes_injective(x, y);
}

/// A door's bytes record its identity, building, whether it is open, and
/// its version: two doors with the same bytes are the same door.
pub proof fn lemma_door_encoding_injective(a: DoorState, b: DoorState)
    requires
        <DoorState as CanonicalEncoding>::encoding(a) == <DoorState as CanonicalEncoding>::encoding(b),
    ensures
        a == b,
{
    let pa = u128_bytes(a.id) + u128_bytes(a.building_id) + bool_bytes(a.is_open);
    let pb = u128_bytes(b.id) + u128_bytes(b.building_id) + bool_bytes(b.is_open);
    lemma_u64_tail(pa, a.version.0, pb, b.version.0);
    let qa = u128_bytes(a.id) + u128_bytes(a.building_id);
    let qb = u128_bytes(b.id) + u128_bytes(b.building_id);
    lemma_u128_bytes_len(a.id);
    lemma_u128_bytes_len(a.building_id);
    lemma_u128_bytes_len(b.id);
    lemma_u128_bytes_len(b.building_id);
    assert(qa.len() == 32 && qb.len() == 32);
    lemma_split_bytes(qa, bool_bytes(a.is_open), qb, bool_bytes(b.is_open));
    assert(bool_bytes(a.is_open)[0] == bool_bytes(b.is_open)[0]);
    lemma_u128_tail(u128_bytes(a.id), a.building_id, u128_bytes(b.id), b.building_id);
    lemma_u128_bytes_injective(a.id, b.id);
}

} // verus!
