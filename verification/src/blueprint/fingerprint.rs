//! The semantic fingerprint of a building blueprint: an FNV-1a hash of its
//! identity, revision and primary entry, then of its levels (each with its
//! rooms), walls, openings, stairs and roof regions, each list taken in the
//! order of identity. Lengths and coordinates enter as the bit patterns of
//! their double-precision values, least significant byte first.

use super::plan::SpaceRef;
use crate::authority::fingerprint::{
    lemma_split_bytes, lemma_u128_bytes_injective, lemma_u128_bytes_len, lemma_u128_tail, lemma_u64_bytes_injective,
    lemma_u64_tail, u128_bytes, u64_bytes, FNV_OFFSET_BASIS,
};
use crate::building::{feed_u128, feed_u64, fnv_feed, lemma_fnv_feed_concat, OpeningKind, RoofKind, RoomPurpose};
use crate::key_order::{
    distinct_keys, key_order, keys_of, lemma_key_order, lemma_sorted_by_ignores_order, lemma_sorted_by_map,
    lemma_sorted_twice, order_by_key, pick, sorted_by,
};
use vstd::prelude::*;

verus! {

/// A rectangle's two corners, each coordinate as the bit pattern of its
/// double-precision value.
#[derive(Clone, Copy, Debug, PartialEq, Eq, Structural)]
pub struct RectBits {
    pub min_x: u64,
    pub min_y: u64,
    pub max_x: u64,
    pub max_y: u64,
}

#[derive(Clone, Copy, Debug, PartialEq, Eq, Structural)]
pub struct RoomRecord {
    pub id: u128,
    pub purpose: RoomPurpose,
    pub footprint: RectBits,
}

#[derive(Clone, Debug)]
pub struct LevelRecord {
    pub id: u128,
    pub index: i16,
    pub elevation: u64,
    pub height: u64,
    pub rooms: Vec<RoomRecord>,
}

pub struct LevelRecordView {
    pub id: u128,
    pub index: i16,
    pub elevation: u64,
    pub height: u64,
    pub rooms: Seq<RoomRecord>,
}

impl View for LevelRecord {
    type V = LevelRecordView;

    open spec fn view(&self) -> LevelRecordView {
        LevelRecordView {
            id: self.id,
            index: self.index,
            elevation: self.elevation,
            height: self.height,
            rooms: self.rooms@,
        }
    }
}

#[derive(Clone, Copy, Debug, PartialEq, Eq, Structural)]
pub struct WallRecord {
    pub id: u128,
    pub level_id: u128,
    pub start_x: u64,
    pub start_y: u64,
    pub end_x: u64,
    pub end_y: u64,
    pub thickness: u64,
    pub height: u64,
    pub left_room: Option<u128>,
    pub right_room: Option<u128>,
}

#[derive(Clone, Copy, Debug, PartialEq, Eq, Structural)]
pub struct OpeningRecord {
    pub id: u128,
    pub wall_id: u128,
    pub kind: OpeningKind,
    pub offset: u64,
    pub width: u64,
    pub sill: u64,
    pub height: u64,
    pub from: SpaceRef,
    pub to: SpaceRef,
}

#[derive(Clone, Copy, Debug, PartialEq, Eq, Structural)]
pub struct StairRecord {
    pub id: u128,
    pub from_level: u128,
    pub to_level: u128,
    pub from_room: u128,
    pub to_room: u128,
    pub footprint: RectBits,
    pub width: u64,
}

#[derive(Clone, Copy, Debug, PartialEq, Eq, Structural)]
pub struct RoofRecord {
    pub id: u128,
    pub level_id: u128,
    pub footprint: RectBits,
    pub kind: RoofKind,
    pub base_elevation: u64,
    pub height: u64,
}

/// A blueprint with everything its fingerprint reads.
#[derive(Clone, Debug)]
pub struct BlueprintRecord {
    pub id: u128,
    pub style_id: u128,
    pub revision: u64,
    pub primary_entry: u128,
    pub levels: Vec<LevelRecord>,
    pub walls: Vec<WallRecord>,
    pub openings: Vec<OpeningRecord>,
    pub stairs: Vec<StairRecord>,
    pub roofs: Vec<RoofRecord>,
}

pub struct RecordView {
    pub id: u128,
    pub style_id: u128,
    pub revision: u64,
    pub primary_entry: u128,
    pub levels: Seq<LevelRecordView>,
    pub walls: Seq<WallRecord>,
    pub openings: Seq<OpeningRecord>,
    pub stairs: Seq<StairRecord>,
    pub roofs: Seq<RoofRecord>,
}

impl View for BlueprintRecord {
    type V = RecordView;

    open spec fn view(&self) -> RecordView {
        RecordView {
            id: self.id,
            style_id: self.style_id,
            revision: self.revision,
            primary_entry: self.primary_entry,
            levels: self.levels@.map_values(|l: LevelRecord| l@),
            walls: self.walls@,
            openings: self.openings@,
            stairs: self.stairs@,
            roofs: self.roofs@,
        }
    }
}

/// The number of a room purpose: its place in the list of purposes.
pub open spec fn purpose_code(purpose: RoomPurpose) -> u64 {
    match purpose {
        RoomPurpose::Entry => 0,
        RoomPurpose::Living => 1,
        RoomPurpose::Sleeping => 2,
        RoomPurpose::Cooking => 3,
        RoomPurpose::Storage => 4,
        RoomPurpose::Workshop => 5,
        RoomPurpose::Retail => 6,
        RoomPurpose::Circulation => 7,
        RoomPurpose::Utility => 8,
    }
}

pub open spec fn opening_kind_code(kind: OpeningKind) -> u64 {
    match kind {
        OpeningKind::Door => 0,
        OpeningKind::Window => 1,
        OpeningKind::Passage => 2,
    }
}

pub open spec fn roof_kind_code(kind: RoofKind) -> u64 {
    match kind {
        RoofKind::Flat => 0,
        RoofKind::GableX => 1,
        RoofKind::GableZ => 2,
    }
}

/// The bytes of a list: the bytes of each item, in order.
pub open spec fn concat_bytes<T>(items: Seq<T>, bytes_of: spec_fn(T) -> Seq<u8>) -> Seq<u8>
    decreases items.len(),
{
    if items.len() == 0 {
        Seq::empty()
    } else {
        concat_bytes(items.drop_last(), bytes_of) + bytes_of(items.last())
    }
}

pub open spec fn rect_bytes(r: RectBits) -> Seq<u8> {
    u64_bytes(r.min_x) + u64_bytes(r.min_y) + u64_bytes(r.max_x) + u64_bytes(r.max_y)
}

pub open spec fn optional_room_bytes(room: Option<u128>) -> Seq<u8> {
    match room {
        Some(id) => u64_bytes(1) + u128_bytes(id),
        None => u64_bytes(0),
    }
}

pub open spec fn space_bytes(space: SpaceRef) -> Seq<u8> {
    match space {
        SpaceRef::Exterior => u64_bytes(0),
        SpaceRef::Room(id) => u64_bytes(1) + u128_bytes(id),
    }
}

pub open spec fn room_bytes(r: RoomRecord) -> Seq<u8> {
    u128_bytes(r.id) + u64_bytes(purpose_code(r.purpose)) + rect_bytes(r.footprint)
}

pub open spec fn room_key(r: RoomRecord) -> u128 {
    r.id
}

pub open spec fn level_bytes(l: LevelRecordView) -> Seq<u8> {
    u128_bytes(l.id) + u64_bytes(l.index as u64) + u64_bytes(l.elevation) + u64_bytes(l.height) + concat_bytes(
        sorted_by(l.rooms, |r: RoomRecord| room_key(r)),
        |r: RoomRecord| room_bytes(r),
    )
}

pub open spec fn level_key(l: LevelRecordView) -> u128 {
    l.id
}

pub open spec fn wall_bytes(w: WallRecord) -> Seq<u8> {
    u128_bytes(w.id) + u128_bytes(w.level_id) + u64_bytes(w.start_x) + u64_bytes(w.start_y) + u64_bytes(w.end_x)
        + u64_bytes(w.end_y) + u64_bytes(w.thickness) + u64_bytes(w.height) + optional_room_bytes(w.left_room)
        + optional_room_bytes(w.right_room)
}

pub open spec fn wall_key(w: WallRecord) -> u128 {
    w.id
}

pub open spec fn opening_bytes(o: OpeningRecord) -> Seq<u8> {
    u128_bytes(o.id) + u128_bytes(o.wall_id) + u64_bytes(opening_kind_code(o.kind)) + u64_bytes(o.offset)
        + u64_bytes(o.width) + u64_bytes(o.sill) + u64_bytes(o.height) + space_bytes(o.from) + space_bytes(o.to)
}

pub open spec fn opening_key(o: OpeningRecord) -> u128 {
    o.id
}

pub open spec fn stair_bytes(s: StairRecord) -> Seq<u8> {
    u128_bytes(s.id) + u128_bytes(s.from_level) + u128_bytes(s.to_level) + u128_bytes(s.from_room) + u128_bytes(
        s.to_room,
    ) + rect_bytes(s.footprint) + u64_bytes(s.width)
}

pub open spec fn stair_key(s: StairRecord) -> u128 {
    s.id
}

pub open spec fn roof_bytes(r: RoofRecord) -> Seq<u8> {
    u128_bytes(r.id) + u128_bytes(r.level_id) + rect_bytes(r.footprint) + u64_bytes(roof_kind_code(r.kind))
        + u64_bytes(r.base_elevation) + u64_bytes(r.height)
}

pub open spec fn roof_key(r: RoofRecord) -> u128 {
    r.id
}

/// The bytes that a blueprint's fingerprint hashes.
pub open spec fn record_bytes(b: RecordView) -> Seq<u8> {
    u128_bytes(b.id) + u128_bytes(b.style_id) + u64_bytes(b.revision) + u128_bytes(b.primary_entry)
        + concat_bytes(sorted_by(b.levels, |l: LevelRecordView| level_key(l)), |l: LevelRecordView| level_bytes(l))
        + concat_bytes(sorted_by(b.walls, |w: WallRecord| wall_key(w)), |w: WallRecord| wall_bytes(w))
        + concat_bytes(sorted_by(b.openings, |o: OpeningRecord| opening_key(o)), |o: OpeningRecord| opening_bytes(o))
        + concat_bytes(sorted_by(b.stairs, |s: StairRecord| stair_key(s)), |s: StairRecord| stair_bytes(s))
        + concat_bytes(sorted_by(b.roofs, |r: RoofRecord| roof_key(r)), |r: RoofRecord| roof_bytes(r))
}

pub open spec fn spec_blueprint_fingerprint(b: RecordView) -> u64 {
    fnv_feed(FNV_OFFSET_BASIS, record_bytes(b))
}

proof fn lemma_concat_step<T>(items: Seq<T>, k: int, bytes_of: spec_fn(T) -> Seq<u8>)
    requires
        0 <= k < items.len(),
    ensures
        concat_bytes(items.take(k + 1), bytes_of) == concat_bytes(items.take(k), bytes_of) + bytes_of(items[k]),
{
    assert(items.take(k + 1).drop_last() =~= items.take(k));
}

proof fn lemma_feed_step(start: u64, done: Seq<u8>, more: Seq<u8>, hash: u64)
    requires
        hash == fnv_feed(fnv_feed(start, done), more),
    ensures
        hash == fnv_feed(start, done + more),
{
    lemma_fnv_feed_concat(start, done, more);
}

fn feed_rect(hash: &mut u64, r: RectBits)
    ensures
        *final(hash) == fnv_feed(*old(hash), rect_bytes(r)),
{
    let ghost start = *hash;
    feed_u64(hash, r.min_x);
    feed_u64(hash, r.min_y);
    proof {
        lemma_feed_step(start, u64_bytes(r.min_x), u64_bytes(r.min_y), *hash);
    }
    feed_u64(hash, r.max_x);
    proof {
        lemma_feed_step(start, u64_bytes(r.min_x) + u64_bytes(r.min_y), u64_bytes(r.max_x), *hash);
    }
    feed_u64(hash, r.max_y);
    proof {
        lemma_feed_step(
            start,
            u64_bytes(r.min_x) + u64_bytes(r.min_y) + u64_bytes(r.max_x),
            u64_bytes(r.max_y),
            *hash,
        );
    }
}

fn feed_optional_room(hash: &mut u64, room: Option<u128>)
    ensures
        *final(hash) == fnv_feed(*old(hash), optional_room_bytes(room)),
{
    let ghost start = *hash;
    match room {
        Some(id) => {
            feed_u64(hash, 1);
            feed_u128(hash, id);
            proof {
                lemma_feed_step(start, u64_bytes(1), u128_bytes(id), *hash);
            }
        },
        None => feed_u64(hash, 0),
    }
}

fn feed_space(hash: &mut u64, space: SpaceRef)
    ensures
        *final(hash) == fnv_feed(*old(hash), space_bytes(space)),
{
    let ghost start = *hash;
    match space {
        SpaceRef::Exterior => feed_u64(hash, 0),
        SpaceRef::Room(id) => {
            feed_u64(hash, 1);
            feed_u128(hash, id);
            proof {
                lemma_feed_step(start, u64_bytes(1), u128_bytes(id), *hash);
            }
        },
    }
}

fn purpose_number(purpose: RoomPurpose) -> (code: u64)
    ensures
        code == purpose_code(purpose),
{
    match purpose {
        RoomPurpose::Entry => 0,
        RoomPurpose::Living => 1,
        RoomPurpose::Sleeping => 2,
        RoomPurpose::Cooking => 3,
        RoomPurpose::Storage => 4,
        RoomPurpose::Workshop => 5,
        RoomPurpose::Retail => 6,
        RoomPurpose::Circulation => 7,
        RoomPurpose::Utility => 8,
    }
}

fn opening_kind_number(kind: OpeningKind) -> (code: u64)
    ensures
        code == opening_kind_code(kind),
{
    match kind {
        OpeningKind::Door => 0,
        OpeningKind::Window => 1,
        OpeningKind::Passage => 2,
    }
}

fn roof_kind_number(kind: RoofKind) -> (code: u64)
    ensures
        code == roof_kind_code(kind),
{
    match kind {
        RoofKind::Flat => 0,
        RoofKind::GableX => 1,
        RoofKind::GableZ => 2,
    }
}

fn feed_room(hash: &mut u64, r: RoomRecord)
    ensures
        *final(hash) == fnv_feed(*old(hash), room_bytes(r)),
{
    let ghost start = *hash;
    feed_u128(hash, r.id);
    feed_u64(hash, purpose_number(r.purpose));
    proof {
        lemma_feed_step(start, u128_bytes(r.id), u64_bytes(purpose_code(r.purpose)), *hash);
    }
    feed_rect(hash, r.footprint);
    proof {
        lemma_feed_step(
            start,
            u128_bytes(r.id) + u64_bytes(purpose_code(r.purpose)),
            rect_bytes(r.footprint),
            *hash,
        );
    }
}

fn room_keys(rooms: &Vec<RoomRecord>) -> (keys: Vec<u128>)
    ensures
        keys@ == keys_of(rooms@, |r: RoomRecord| room_key(r)),
{
    let mut keys: Vec<u128> = Vec::new();
    let mut i: usize = 0;
    while i < rooms.len()
        invariant
            i <= rooms.len(),
            keys@ == keys_of(rooms@.take(i as int), |r: RoomRecord| room_key(r)),
        decreases rooms.len() - i,
    {
        keys.push(rooms[i].id);
        assert(rooms@.take(i + 1) =~= rooms@.take(i as int).push(rooms@[i as int]));
        i = i + 1;
    }
    assert(rooms@.take(rooms.len() as int) =~= rooms@);
    keys
}

fn feed_rooms(hash: &mut u64, rooms: &Vec<RoomRecord>)
    ensures
        *final(hash) == fnv_feed(
            *old(hash),
            concat_bytes(sorted_by(rooms@, |r: RoomRecord| room_key(r)), |r: RoomRecord| room_bytes(r)),
        ),
{
    let ghost start = *hash;
    let keys = room_keys(rooms);
    let order = order_by_key(&keys);
    proof {
        assert(keys@.len() == keys.len());
        lemma_key_order(keys@, keys@.len());
    }
    let ghost sorted = pick(rooms@, order@);
    let ghost bytes_of = |r: RoomRecord| room_bytes(r);
    assert(sorted == sorted_by(rooms@, |r: RoomRecord| room_key(r)));
    let mut k: usize = 0;
    while k < order.len()
        invariant
            k <= order.len(),
            order.len() == rooms.len(),
            forall|i: int| 0 <= i < order.len() ==> (#[trigger] order@[i]) < rooms.len(),
            sorted == pick(rooms@, order@),
            bytes_of == (|r: RoomRecord| room_bytes(r)),
            *hash == fnv_feed(start, concat_bytes(sorted.take(k as int), bytes_of)),
        decreases order.len() - k,
    {
        let room = rooms[order[k]];
        assert(room == sorted[k as int]);
        feed_room(hash, room);
        proof {
            lemma_feed_step(start, concat_bytes(sorted.take(k as int), bytes_of), room_bytes(room), *hash);
            lemma_concat_step(sorted, k as int, bytes_of);
        }
        k = k + 1;
    }
    assert(sorted.take(order.len() as int) =~= sorted);
}


fn index_bits(index: i16) -> (bits: u64)
    ensures
        bits == index as u64,
{
    let bits = index as i64 as u64;
    assert(bits == index as u64) by (bit_vector)
        requires
            bits == index as i64 as u64,
    ;
    bits
}

fn feed_level(hash: &mut u64, level: &LevelRecord)
    ensures
        *final(hash) == fnv_feed(*old(hash), level_bytes(level@)),
{
    let ghost start = *hash;
    let ghost l = level@;
    feed_u128(hash, level.id);
    feed_u64(hash, index_bits(level.index));
    proof {
        lemma_feed_step(start, u128_bytes(l.id), u64_bytes(l.index as u64), *hash);
    }
    feed_u64(hash, level.elevation);
    proof {
        lemma_feed_step(start, u128_bytes(l.id) + u64_bytes(l.index as u64), u64_bytes(l.elevation), *hash);
    }
    feed_u64(hash, level.height);
    proof {
        lemma_feed_step(
            start,
            u128_bytes(l.id) + u64_bytes(l.index as u64) + u64_bytes(l.elevation),
            u64_bytes(l.height),
            *hash,
        );
    }
    feed_rooms(hash, &level.rooms);
    proof {
        lemma_feed_step(
            start,
            u128_bytes(l.id) + u64_bytes(l.index as u64) + u64_bytes(l.elevation) + u64_bytes(l.height),
            concat_bytes(sorted_by(l.rooms, |r: RoomRecord| room_key(r)), |r: RoomRecord| room_bytes(r)),
            *hash,
        );
    }
}

fn feed_wall(hash: &mut u64, w: WallRecord)
    ensures
        *final(hash) == fnv_feed(*old(hash), wall_bytes(w)),
{
    let ghost start = *hash;
    feed_u128(hash, w.id);
    feed_u128(hash, w.level_id);
    proof {
        lemma_feed_step(start, u128_bytes(w.id), u128_bytes(w.level_id), *hash);
    }
    let ghost done = u128_bytes(w.id) + u128_bytes(w.level_id);
    feed_u64(hash, w.start_x);
    proof {
        lemma_feed_step(start, done, u64_bytes(w.start_x), *hash);
        done = done + u64_bytes(w.start_x);
    }
    feed_u64(hash, w.start_y);
    proof {
        lemma_feed_step(start, done, u64_bytes(w.start_y), *hash);
        done = done + u64_bytes(w.start_y);
    }
    feed_u64(hash, w.end_x);
    proof {
        lemma_feed_step(start, done, u64_bytes(w.end_x), *hash);
        done = done + u64_bytes(w.end_x);
    }
    feed_u64(hash, w.end_y);
    proof {
        lemma_feed_step(start, done, u64_bytes(w.end_y), *hash);
        done = done + u64_bytes(w.end_y);
    }
    feed_u64(hash, w.thickness);
    proof {
        lemma_feed_step(start, done, u64_bytes(w.thickness), *hash);
        done = done + u64_bytes(w.thickness);
    }
    feed_u64(hash, w.height);
    proof {
        lemma_feed_step(start, done, u64_bytes(w.height), *hash);
        done = done + u64_bytes(w.height);
    }
    feed_optional_room(hash, w.left_room);
    proof {
        lemma_feed_step(start, done, optional_room_bytes(w.left_room), *hash);
        done = done + optional_room_bytes(w.left_room);
    }
    feed_optional_room(hash, w.right_room);
    proof {
        lemma_feed_step(start, done, optional_room_bytes(w.right_room), *hash);
    }
}

fn feed_opening(hash: &mut u64, o: OpeningRecord)
    ensures
        *final(hash) == fnv_feed(*old(hash), opening_bytes(o)),
{
    let ghost start = *hash;
    feed_u128(hash, o.id);
    feed_u128(hash, o.wall_id);
    proof {
        lemma_feed_step(start, u128_bytes(o.id), u128_bytes(o.wall_id), *hash);
    }
    let ghost done = u128_bytes(o.id) + u128_bytes(o.wall_id);
    feed_u64(hash, opening_kind_number(o.kind));
    proof {
        lemma_feed_step(start, done, u64_bytes(opening_kind_code(o.kind)), *hash);
        done = done + u64_bytes(opening_kind_code(o.kind));
    }
    feed_u64(hash, o.offset);
    proof {
        lemma_feed_step(start, done, u64_bytes(o.offset), *hash);
        done = done + u64_bytes(o.offset);
    }
    feed_u64(hash, o.width);
    proof {
        lemma_feed_step(start, done, u64_bytes(o.width), *hash);
        done = done + u64_bytes(o.width);
    }
    feed_u64(hash, o.sill);
    proof {
        lemma_feed_step(start, done, u64_bytes(o.sill), *hash);
        done = done + u64_bytes(o.sill);
    }
    feed_u64(hash, o.height);
    proof {
        lemma_feed_step(start, done, u64_bytes(o.height), *hash);
        done = done + u64_bytes(o.height);
    }
    feed_space(hash, o.from);
    proof {
        lemma_feed_step(start, done, space_bytes(o.from), *hash);
        done = done + space_bytes(o.from);
    }
    feed_space(hash, o.to);
    proof {
        lemma_feed_step(start, done, space_bytes(o.to), *hash);
    }
}

fn feed_stair(hash: &mut u64, st: StairRecord)
    ensures
        *final(hash) == fnv_feed(*old(hash), stair_bytes(st)),
{
    let ghost start = *hash;
    feed_u128(hash, st.id);
    feed_u128(hash, st.from_level);
    proof {
        lemma_feed_step(start, u128_bytes(st.id), u128_bytes(st.from_level), *hash);
    }
    let ghost done = u128_bytes(st.id) + u128_bytes(st.from_level);
    feed_u128(hash, st.to_level);
    proof {
        lemma_feed_step(start, done, u128_bytes(st.to_level), *hash);
        done = done + u128_bytes(st.to_level);
    }
    feed_u128(hash, st.from_room);
    proof {
        lemma_feed_step(start, done, u128_bytes(st.from_room), *hash);
        done = done + u128_bytes(st.from_room);
    }
    feed_u128(hash, st.to_room);
    proof {
        lemma_feed_step(start, done, u128_bytes(st.to_room), *hash);
        done = done + u128_bytes(st.to_room);
    }
    feed_rect(hash, st.footprint);
    proof {
        lemma_feed_step(start, done, rect_bytes(st.footprint), *hash);
        done = done + rect_bytes(st.footprint);
    }
    feed_u64(hash, st.width);
    proof {
        lemma_feed_step(start, done, u64_bytes(st.width), *hash);
    }
}

fn feed_roof(hash: &mut u64, r: RoofRecord)
    ensures
        *final(hash) == fnv_feed(*old(hash), roof_bytes(r)),
{
    let ghost start = *hash;
    feed_u128(hash, r.id);
    feed_u128(hash, r.level_id);
    proof {
        lemma_feed_step(start, u128_bytes(r.id), u128_bytes(r.level_id), *hash);
    }
    let ghost done = u128_bytes(r.id) + u128_bytes(r.level_id);
    feed_rect(hash, r.footprint);
    proof {
        lemma_feed_step(start, done, rect_bytes(r.footprint), *hash);
        done = done + rect_bytes(r.footprint);
    }
    feed_u64(hash, roof_kind_number(r.kind));
    proof {
        lemma_feed_step(start, done, u64_bytes(roof_kind_code(r.kind)), *hash);
        done = done + u64_bytes(roof_kind_code(r.kind));
    }
    feed_u64(hash, r.base_elevation);
    proof {
        lemma_feed_step(start, done, u64_bytes(r.base_elevation), *hash);
        done = done + u64_bytes(r.base_elevation);
    }
    feed_u64(hash, r.height);
    proof {
        lemma_feed_step(start, done, u64_bytes(r.height), *hash);
    }
}


fn wall_keys(items: &Vec<WallRecord>) -> (keys: Vec<u128>)
    ensures
        keys@ == keys_of(items@, |x: WallRecord| wall_key(x)),
{
    let mut keys: Vec<u128> = Vec::new();
    let mut i: usize = 0;
    while i < items.len()
        invariant
            i <= items.len(),
            keys@ == keys_of(items@.take(i as int), |x: WallRecord| wall_key(x)),
        decreases items.len() - i,
    {
        keys.push(items[i].id);
        assert(items@.take(i + 1) =~= items@.take(i as int).push(items@[i as int]));
        i = i + 1;
    }
    assert(items@.take(items.len() as int) =~= items@);
    keys
}

fn feed_walls(hash: &mut u64, items: &Vec<WallRecord>)
    ensures
        *final(hash) == fnv_feed(
            *old(hash),
            concat_bytes(sorted_by(items@, |x: WallRecord| wall_key(x)), |x: WallRecord| wall_bytes(x)),
        ),
{
    let ghost start = *hash;
    let keys = wall_keys(items);
    let order = order_by_key(&keys);
    proof {
        assert(keys@.len() == keys.len());
        lemma_key_order(keys@, keys@.len());
    }
    let ghost sorted = pick(items@, order@);
    let ghost bytes_of = |x: WallRecord| wall_bytes(x);
    assert(sorted == sorted_by(items@, |x: WallRecord| wall_key(x)));
    let mut k: usize = 0;
    while k < order.len()
        invariant
            k <= order.len(),
            order.len() == items.len(),
            forall|i: int| 0 <= i < order.len() ==> (#[trigger] order@[i]) < items.len(),
            sorted == pick(items@, order@),
            bytes_of == (|x: WallRecord| wall_bytes(x)),
            *hash == fnv_feed(start, concat_bytes(sorted.take(k as int), bytes_of)),
        decreases order.len() - k,
    {
        let item = items[order[k]];
        assert(item == sorted[k as int]);
        feed_wall(hash, item);
        proof {
            lemma_feed_step(start, concat_bytes(sorted.take(k as int), bytes_of), wall_bytes(item), *hash);
            lemma_concat_step(sorted, k as int, bytes_of);
        }
        k = k + 1;
    }
    assert(sorted.take(order.len() as int) =~= sorted);
}

fn opening_keys(items: &Vec<OpeningRecord>) -> (keys: Vec<u128>)
    ensures
        keys@ == keys_of(items@, |x: OpeningRecord| opening_key(x)),
{
    let mut keys: Vec<u128> = Vec::new();
    let mut i: usize = 0;
    while i < items.len()
        invariant
            i <= items.len(),
            keys@ == keys_of(items@.take(i as int), |x: OpeningRecord| opening_key(x)),
        decreases items.len() - i,
    {
        keys.push(items[i].id);
        assert(items@.take(i + 1) =~= items@.take(i as int).push(items@[i as int]));
        i = i + 1;
    }
    assert(items@.take(items.len() as int) =~= items@);
    keys
}

fn feed_openings(hash: &mut u64, items: &Vec<OpeningRecord>)
    ensures
        *final(hash) == fnv_feed(
            *old(hash),
            concat_bytes(sorted_by(items@, |x: OpeningRecord| opening_key(x)), |x: OpeningRecord| opening_bytes(x)),
        ),
{
    let ghost start = *hash;
    let keys = opening_keys(items);
    let order = order_by_key(&keys);
    proof {
        assert(keys@.len() == keys.len());
        lemma_key_order(keys@, keys@.len());
    }
    let ghost sorted = pick(items@, order@);
    let ghost bytes_of = |x: OpeningRecord| opening_bytes(x);
    assert(sorted == sorted_by(items@, |x: OpeningRecord| opening_key(x)));
    let mut k: usize = 0;
    while k < order.len()
        invariant
            k <= order.len(),
            order.len() == items.len(),
            forall|i: int| 0 <= i < order.len() ==> (#[trigger] order@[i]) < items.len(),
            sorted == pick(items@, order@),
            bytes_of == (|x: OpeningRecord| opening_bytes(x)),
            *hash == fnv_feed(start, concat_bytes(sorted.take(k as int), bytes_of)),
        decreases order.len() - k,
    {
        let item = items[order[k]];
        assert(item == sorted[k as int]);
        feed_opening(hash, item);
        proof {
            lemma_feed_step(start, concat_bytes(sorted.take(k as int), bytes_of), opening_bytes(item), *hash);
            lemma_concat_step(sorted, k as int, bytes_of);
        }
        k = k + 1;
    }
    assert(sorted.take(order.len() as int) =~= sorted);
}

fn stair_keys(items: &Vec<StairRecord>) -> (keys: Vec<u128>)
    ensures
        keys@ == keys_of(items@, |x: StairRecord| stair_key(x)),
{
    let mut keys: Vec<u128> = Vec::new();
    let mut i: usize = 0;
    while i < items.len()
        invariant
            i <= items.len(),
            keys@ == keys_of(items@.take(i as int), |x: StairRecord| stair_key(x)),
        decreases items.len() - i,
    {
        keys.push(items[i].id);
        assert(items@.take(i + 1) =~= items@.take(i as int).push(items@[i as int]));
        i = i + 1;
    }
    assert(items@.take(items.len() as int) =~= items@);
    keys
}

fn feed_stairs(hash: &mut u64, items: &Vec<StairRecord>)
    ensures
        *final(hash) == fnv_feed(
            *old(hash),
            concat_bytes(sorted_by(items@, |x: StairRecord| stair_key(x)), |x: StairRecord| stair_bytes(x)),
        ),
{
    let ghost start = *hash;
    let keys = stair_keys(items);
    let order = order_by_key(&keys);
    proof {
        assert(keys@.len() == keys.len());
        lemma_key_order(keys@, keys@.len());
    }
    let ghost sorted = pick(items@, order@);
    let ghost bytes_of = |x: StairRecord| stair_bytes(x);
    assert(sorted == sorted_by(items@, |x: StairRecord| stair_key(x)));
    let mut k: usize = 0;
    while k < order.len()
        invariant
            k <= order.len(),
            order.len() == items.len(),
            forall|i: int| 0 <= i < order.len() ==> (#[trigger] order@[i]) < items.len(),
            sorted == pick(items@, order@),
            bytes_of == (|x: StairRecord| stair_bytes(x)),
            *hash == fnv_feed(start, concat_bytes(sorted.take(k as int), bytes_of)),
        decreases order.len() - k,
    {
        let item = items[order[k]];
        assert(item == sorted[k as int]);
        feed_stair(hash, item);
        proof {
            lemma_feed_step(start, concat_bytes(sorted.take(k as int), bytes_of), stair_bytes(item), *hash);
            lemma_concat_step(sorted, k as int, bytes_of);
        }
        k = k + 1;
    }
    assert(sorted.take(order.len() as int) =~= sorted);
}

fn roof_keys(items: &Vec<RoofRecord>) -> (keys: Vec<u128>)
    ensures
        keys@ == keys_of(items@, |x: RoofRecord| roof_key(x)),
{
    let mut keys: Vec<u128> = Vec::new();
    let mut i: usize = 0;
    while i < items.len()
        invariant
            i <= items.len(),
            keys@ == keys_of(items@.take(i as int), |x: RoofRecord| roof_key(x)),
        decreases items.len() - i,
    {
        keys.push(items[i].id);
        assert(items@.take(i + 1) =~= items@.take(i as int).push(items@[i as int]));
        i = i + 1;
    }
    assert(items@.take(items.len() as int) =~= items@);
    keys
}

fn feed_roofs(hash: &mut u64, items: &Vec<RoofRecord>)
    ensures
        *final(hash) == fnv_feed(
            *old(hash),
            concat_bytes(sorted_by(items@, |x: RoofRecord| roof_key(x)), |x: RoofRecord| roof_bytes(x)),
        ),
{
    let ghost start = *hash;
    let keys = roof_keys(items);
    let order = order_by_key(&keys);
    proof {
        assert(keys@.len() == keys.len());
        lemma_key_order(keys@, keys@.len());
    }
    let ghost sorted = pick(items@, order@);
    let ghost bytes_of = |x: RoofRecord| roof_bytes(x);
    assert(sorted == sorted_by(items@, |x: RoofRecord| roof_key(x)));
    let mut k: usize = 0;
    while k < order.len()
        invariant
            k <= order.len(),
            order.len() == items.len(),
            forall|i: int| 0 <= i < order.len() ==> (#[trigger] order@[i]) < items.len(),
            sorted == pick(items@, order@),
            bytes_of == (|x: RoofRecord| roof_bytes(x)),
            *hash == fnv_feed(start, concat_bytes(sorted.take(k as int), bytes_of)),
        decreases order.len() - k,
    {
        let item = items[order[k]];
        assert(item == sorted[k as int]);
        feed_roof(hash, item);
        proof {
            lemma_feed_step(start, concat_bytes(sorted.take(k as int), bytes_of), roof_bytes(item), *hash);
            lemma_concat_step(sorted, k as int, bytes_of);
        }
        k = k + 1;
    }
    assert(sorted.take(order.len() as int) =~= sorted);
}

fn level_keys(levels: &Vec<LevelRecord>) -> (keys: Vec<u128>)
    ensures
        keys@ == keys_of(levels@.map_values(|l: LevelRecord| l@), |l: LevelRecordView| level_key(l)),
{
    let ghost views = levels@.map_values(|l: LevelRecord| l@);
    let mut keys: Vec<u128> = Vec::new();
    let mut i: usize = 0;
    while i < levels.len()
        invariant
            i <= levels.len(),
            views == levels@.map_values(|l: LevelRecord| l@),
            keys@ == keys_of(views.take(i as int), |l: LevelRecordView| level_key(l)),
        decreases levels.len() - i,
    {
        keys.push(levels[i].id);
        assert(views.take(i + 1) =~= views.take(i as int).push(views[i as int]));
        i = i + 1;
    }
    assert(views.take(levels.len() as int) =~= views);
    keys
}

fn feed_levels(hash: &mut u64, levels: &Vec<LevelRecord>)
    ensures
        *final(hash) == fnv_feed(
            *old(hash),
            concat_bytes(
                sorted_by(levels@.map_values(|l: LevelRecord| l@), |l: LevelRecordView| level_key(l)),
                |l: LevelRecordView| level_bytes(l),
            ),
        ),
{
    let ghost start = *hash;
    let ghost views = levels@.map_values(|l: LevelRecord| l@);
    let keys = level_keys(levels);
    let order = order_by_key(&keys);
    proof {
        assert(keys@.len() == keys.len());
        lemma_key_order(keys@, keys@.len());
    }
    let ghost sorted = pick(views, order@);
    let ghost bytes_of = |l: LevelRecordView| level_bytes(l);
    assert(sorted == sorted_by(views, |l: LevelRecordView| level_key(l)));
    let mut k: usize = 0;
    while k < order.len()
        invariant
            k <= order.len(),
            order.len() == levels.len(),
            views == levels@.map_values(|l: LevelRecord| l@),
            forall|i: int| 0 <= i < order.len() ==> (#[trigger] order@[i]) < levels.len(),
            sorted == pick(views, order@),
            bytes_of == (|l: LevelRecordView| level_bytes(l)),
            *hash == fnv_feed(start, concat_bytes(sorted.take(k as int), bytes_of)),
        decreases order.len() - k,
    {
        let level = &levels[order[k]];
        assert(level@ == sorted[k as int]);
        feed_level(hash, level);
        proof {
            lemma_feed_step(start, concat_bytes(sorted.take(k as int), bytes_of), level_bytes(level@), *hash);
            lemma_concat_step(sorted, k as int, bytes_of);
        }
        k = k + 1;
    }
    assert(sorted.take(order.len() as int) =~= sorted);
}

/// The semantic fingerprint of a blueprint.
pub fn semantic_fingerprint(blueprint: &BlueprintRecord) -> (fingerprint: u64)
    ensures
        fingerprint == spec_blueprint_fingerprint(blueprint@),
{
    let ghost b = blueprint@;
    let mut hash: u64 = FNV_OFFSET_BASIS;
    feed_u128(&mut hash, blueprint.id);
    let ghost done = u128_bytes(b.id);
    feed_u128(&mut hash, blueprint.style_id);
    proof {
        lemma_feed_step(FNV_OFFSET_BASIS, done, u128_bytes(b.style_id), hash);
        done = done + u128_bytes(b.style_id);
    }
    feed_u64(&mut hash, blueprint.revision);
    proof {
        lemma_feed_step(FNV_OFFSET_BASIS, done, u64_bytes(b.revision), hash);
        done = done + u64_bytes(b.revision);
    }
    feed_u128(&mut hash, blueprint.primary_entry);
    proof {
        lemma_feed_step(FNV_OFFSET_BASIS, done, u128_bytes(b.primary_entry), hash);
        done = done + u128_bytes(b.primary_entry);
    }
    feed_levels(&mut hash, &blueprint.levels);
    proof {
        let more = concat_bytes(sorted_by(b.levels, |l: LevelRecordView| level_key(l)), |l: LevelRecordView| level_bytes(l));
        lemma_feed_step(FNV_OFFSET_BASIS, done, more, hash);
        done = done + more;
    }
    feed_walls(&mut hash, &blueprint.walls);
    proof {
        let more = concat_bytes(sorted_by(b.walls, |w: WallRecord| wall_key(w)), |w: WallRecord| wall_bytes(w));
        lemma_feed_step(FNV_OFFSET_BASIS, done, more, hash);
        done = done + more;
    }
    feed_openings(&mut hash, &blueprint.openings);
    proof {
        let more = concat_bytes(sorted_by(b.openings, |o: OpeningRecord| opening_key(o)), |o: OpeningRecord| opening_bytes(o));
        lemma_feed_step(FNV_OFFSET_BASIS, done, more, hash);
        done = done + more;
    }
    feed_stairs(&mut hash, &blueprint.stairs);
    proof {
        let more = concat_bytes(sorted_by(b.stairs, |s: StairRecord| stair_key(s)), |s: StairRecord| stair_bytes(s));
        lemma_feed_step(FNV_OFFSET_BASIS, done, more, hash);
        done = done + more;
    }
    feed_roofs(&mut hash, &blueprint.roofs);
    proof {
        let more = concat_bytes(sorted_by(b.roofs, |r: RoofRecord| roof_key(r)), |r: RoofRecord| roof_bytes(r));
        lemma_feed_step(FNV_OFFSET_BASIS, done, more, hash);
        done = done + more;
        assert(done == record_bytes(b));
    }
    hash
}

/// A level with its rooms in the order of their identities.
pub open spec fn normalized_level(l: LevelRecordView) -> LevelRecordView {
    LevelRecordView { rooms: sorted_by(l.rooms, |r: RoomRecord| room_key(r)), ..l }
}

/// Whether no two rooms of a level share an identity.
pub open spec fn rooms_distinct(l: LevelRecordView) -> bool {
    &&& distinct_keys(l.rooms, |r: RoomRecord| room_key(r))
    &&& l.rooms.len() <= usize::MAX
}

/// Whether no two rooms of any level share an identity.
pub open spec fn distinct_rooms(levels: Seq<LevelRecordView>) -> bool {
    forall|i: int| 0 <= i < levels.len() ==> #[trigger] rooms_distinct(levels[i])
}

proof fn lemma_normalized_level_bytes(l: LevelRecordView)
    requires
        distinct_keys(l.rooms, |r: RoomRecord| room_key(r)),
        l.rooms.len() <= usize::MAX,
    ensures
        level_bytes(normalized_level(l)) == level_bytes(l),
{
    lemma_sorted_twice(l.rooms, |r: RoomRecord| room_key(r));
}

proof fn lemma_concat_normalized(levels: Seq<LevelRecordView>)
    requires
        distinct_rooms(levels),
    ensures
        concat_bytes(levels.map_values(|l: LevelRecordView| normalized_level(l)), |l: LevelRecordView| level_bytes(l))
            == concat_bytes(levels, |l: LevelRecordView| level_bytes(l)),
    decreases levels.len(),
{
    if levels.len() > 0 {
        let rest = levels.drop_last();
        assert(distinct_rooms(rest)) by {
            assert forall|i: int| 0 <= i < rest.len() implies #[trigger] rooms_distinct(rest[i]) by {
                assert(rest[i] == levels[i]);
                assert(rooms_distinct(levels[i]));
            }
        }
        lemma_concat_normalized(rest);
        let mapped = levels.map_values(|l: LevelRecordView| normalized_level(l));
        assert(mapped.drop_last() =~= rest.map_values(|l: LevelRecordView| normalized_level(l)));
        assert(rooms_distinct(levels[levels.len() - 1]));
        lemma_normalized_level_bytes(levels.last());
    }
}

proof fn lemma_sorted_levels_bytes(levels: Seq<LevelRecordView>)
    requires
        levels.len() <= usize::MAX,
        distinct_rooms(levels),
    ensures
        concat_bytes(
            sorted_by(
                levels.map_values(|l: LevelRecordView| normalized_level(l)),
                |l: LevelRecordView| level_key(l),
            ),
            |l: LevelRecordView| level_bytes(l),
        ) == concat_bytes(sorted_by(levels, |l: LevelRecordView| level_key(l)), |l: LevelRecordView| level_bytes(l)),
{
    let key = |l: LevelRecordView| level_key(l);
    let norm = |l: LevelRecordView| normalized_level(l);
    lemma_sorted_by_map(levels, norm, key, key);
    let sorted = sorted_by(levels, key);
    lemma_key_order(keys_of(levels, key), levels.len());
    assert(distinct_rooms(sorted)) by {
        assert forall|i: int| 0 <= i < sorted.len() implies #[trigger] rooms_distinct(sorted[i]) by {
            let x = key_order(keys_of(levels, key), levels.len())[i] as int;
            assert(sorted[i] == levels[x]);
            assert(rooms_distinct(levels[x]));
        }
    }
    lemma_concat_normalized(sorted);
    assert(sorted.map_values(|x: LevelRecordView| norm(x)) =~= sorted.map_values(
        |l: LevelRecordView| normalized_level(l),
    ));
    assert(levels.map_values(|x: LevelRecordView| norm(x)) =~= levels.map_values(
        |l: LevelRecordView| normalized_level(l),
    ));
}

/// The fingerprint does not depend on the order in which a blueprint lists
/// its levels, the rooms of each level, its walls, openings, stairs and roof
/// regions: two blueprints with the same identity, style, revision and
/// primary entry, the same levels once each level's rooms are put in order
/// of identity, and the same items in each other list, no two of a list (or
/// of a level's rooms) sharing an identity, have the same fingerprint.
pub proof fn lemma_fingerprint_ignores_order(a: RecordView, b: RecordView)
    requires
        a.id == b.id,
        a.style_id == b.style_id,
        a.revision == b.revision,
        a.primary_entry == b.primary_entry,
        a.levels.map_values(|l: LevelRecordView| normalized_level(l)).to_set() == b.levels.map_values(
            |l: LevelRecordView| normalized_level(l),
        ).to_set(),
        a.walls.to_set() == b.walls.to_set(),
        a.openings.to_set() == b.openings.to_set(),
        a.stairs.to_set() == b.stairs.to_set(),
        a.roofs.to_set() == b.roofs.to_set(),
        distinct_keys(a.levels, |l: LevelRecordView| level_key(l)),
        distinct_keys(b.levels, |l: LevelRecordView| level_key(l)),
        distinct_rooms(a.levels),
        distinct_rooms(b.levels),
        distinct_keys(a.walls, |w: WallRecord| wall_key(w)),
        distinct_keys(b.walls, |w: WallRecord| wall_key(w)),
        distinct_keys(a.openings, |o: OpeningRecord| opening_key(o)),
        distinct_keys(b.openings, |o: OpeningRecord| opening_key(o)),
        distinct_keys(a.stairs, |s: StairRecord| stair_key(s)),
        distinct_keys(b.stairs, |s: StairRecord| stair_key(s)),
        distinct_keys(a.roofs, |r: RoofRecord| roof_key(r)),
        distinct_keys(b.roofs, |r: RoofRecord| roof_key(r)),
        a.levels.len() <= usize::MAX,
        b.levels.len() <= usize::MAX,
        a.walls.len() <= usize::MAX,
        b.walls.len() <= usize::MAX,
        a.openings.len() <= usize::MAX,
        b.openings.len() <= usize::MAX,
        a.stairs.len() <= usize::MAX,
        b.stairs.len() <= usize::MAX,
        a.roofs.len() <= usize::MAX,
        b.roofs.len() <= usize::MAX,
    ensures
        spec_blueprint_fingerprint(a) == spec_blueprint_fingerprint(b),
{
    let na = a.levels.map_values(|l: LevelRecordView| normalized_level(l));
    let nb = b.levels.map_values(|l: LevelRecordView| normalized_level(l));
    assert(distinct_keys(na, |l: LevelRecordView| level_key(l))) by {
        assert forall|i: int, j: int| 0 <= i < j < na.len() implies level_key(na[i]) != level_key(na[j]) by {
            assert(level_key(a.levels[i]) != level_key(a.levels[j]));
        }
    }
    assert(distinct_keys(nb, |l: LevelRecordView| level_key(l))) by {
        assert forall|i: int, j: int| 0 <= i < j < nb.len() implies level_key(nb[i]) != level_key(nb[j]) by {
            assert(level_key(b.levels[i]) != level_key(b.levels[j]));
        }
    }
    lemma_sorted_by_ignores_order(na, nb, |l: LevelRecordView| level_key(l));
    lemma_sorted_levels_bytes(a.levels);
    lemma_sorted_levels_bytes(b.levels);
    lemma_sorted_by_ignores_order(a.walls, b.walls, |w: WallRecord| wall_key(w));
    lemma_sorted_by_ignores_order(a.openings, b.openings, |o: OpeningRecord| opening_key(o));
    lemma_sorted_by_ignores_order(a.stairs, b.stairs, |s: StairRecord| stair_key(s));
    lemma_sorted_by_ignores_order(a.roofs, b.roofs, |r: RoofRecord| roof_key(r));
    assert(record_bytes(a) == record_bytes(b));
}

// ---- Distinct elements give distinct byte records

/// Different rectangles have different bytes.
pub proof fn lemma_rect_bytes_injective(a: RectBits, b: RectBits)
    requires
        rect_bytes(a) == rect_bytes(b),
    ensures
        a == b,
{
    lemma_split_bytes(
        u64_bytes(a.min_x) + u64_bytes(a.min_y) + u64_bytes(a.max_x),
        u64_bytes(a.max_y),
        u64_bytes(b.min_x) + u64_bytes(b.min_y) + u64_bytes(b.max_x),
        u64_bytes(b.max_y),
    );
    lemma_split_bytes(
        u64_bytes(a.min_x) + u64_bytes(a.min_y),
        u64_bytes(a.max_x),
        u64_bytes(b.min_x) + u64_bytes(b.min_y),
        u64_bytes(b.max_x),
    );
    lemma_split_bytes(u64_bytes(a.min_x), u64_bytes(a.min_y), u64_bytes(b.min_x), u64_bytes(b.min_y));
    lemma_u64_bytes_injective(a.min_x, b.min_x);
    lemma_u64_bytes_injective(a.min_y, b.min_y);
    lemma_u64_bytes_injective(a.max_x, b.max_x);
    lemma_u64_bytes_injective(a.max_y, b.max_y);
}

/// A stair's bytes record every field: its identity, both levels, both
/// rooms, its footprint and its width. Two stairs with the same bytes are
/// the same stair, so a stair that lands in another room, or differs in any
/// other way, gives the blueprint other bytes to hash.
pub proof fn lemma_stair_bytes_injective(a: StairRecord, b: StairRecord)
    requires
        stair_bytes(a) == stair_bytes(b),
    ensures
        a == b,
{
    let a4 = u128_bytes(a.id) + u128_bytes(a.from_level) + u128_bytes(a.to_level) + u128_bytes(a.from_room);
    let b4 = u128_bytes(b.id) + u128_bytes(b.from_level) + u128_bytes(b.to_level) + u128_bytes(b.from_room);
    let a5 = a4 + u128_bytes(a.to_room);
    let b5 = b4 + u128_bytes(b.to_room);
    assert(a5.len() == 80 && b5.len() == 80) by {
        lemma_u128_bytes_len(a.id);
        lemma_u128_bytes_len(a.from_level);
        lemma_u128_bytes_len(a.to_level);
        lemma_u128_bytes_len(a.from_room);
        lemma_u128_bytes_len(a.to_room);
        lemma_u128_bytes_len(b.id);
        lemma_u128_bytes_len(b.from_level);
        lemma_u128_bytes_len(b.to_level);
        lemma_u128_bytes_len(b.from_room);
        lemma_u128_bytes_len(b.to_room);
    }
    assert(stair_bytes(a) == a5 + rect_bytes(a.footprint) + u64_bytes(a.width));
    assert(stair_bytes(b) == b5 + rect_bytes(b.footprint) + u64_bytes(b.width));
    lemma_split_bytes(a5 + rect_bytes(a.footprint), u64_bytes(a.width), b5 + rect_bytes(b.footprint), u64_bytes(b.width));
    lemma_split_bytes(a5, rect_bytes(a.footprint), b5, rect_bytes(b.footprint));
    lemma_u64_bytes_injective(a.width, b.width);
    lemma_rect_bytes_injective(a.footprint, b.footprint);
    lemma_u128_tail(a4, a.to_room, b4, b.to_room);
    lemma_stair_ids_injective(a, b);
}

proof fn lemma_stair_ids_injective(a: StairRecord, b: StairRecord)
    requires
        u128_bytes(a.id) + u128_bytes(a.from_level) + u128_bytes(a.to_level) + u128_bytes(a.from_room) == u128_bytes(
            b.id,
        ) + u128_bytes(b.from_level) + u128_bytes(b.to_level) + u128_bytes(b.from_room),
    ensures
        a.id == b.id,
        a.from_level == b.from_level,
        a.to_level == b.to_level,
        a.from_room == b.from_room,
{
    lemma_u128_tail(
        u128_bytes(a.id) + u128_bytes(a.from_level) + u128_bytes(a.to_level),
        a.from_room,
        u128_bytes(b.id) + u128_bytes(b.from_level) + u128_bytes(b.to_level),
        b.from_room,
    );
    lemma_u128_tail(u128_bytes(a.id) + u128_bytes(a.from_level), a.to_level, u128_bytes(b.id) + u128_bytes(b.from_level), b.to_level);
    lemma_u128_tail(u128_bytes(a.id), a.from_level, u128_bytes(b.id), b.from_level);
    lemma_u128_bytes_injective(a.id, b.id);
}

/// A roof region's bytes record its identity, level, footprint, kind, base
/// elevation and height: two roofs with the same bytes are the same roof.
pub proof fn lemma_roof_bytes_injective(a: RoofRecord, b: RoofRecord)
    requires
        roof_bytes(a) == roof_bytes(b),
    ensures
        a == b,
{
    let a1 = u128_bytes(a.id);
    let a2 = a1 + u128_bytes(a.level_id);
    let a3 = a2 + rect_bytes(a.footprint);
    let a4 = a3 + u64_bytes(roof_kind_code(a.kind));
    let a5 = a4 + u64_bytes(a.base_elevation);
    let b1 = u128_bytes(b.id);
    let b2 = b1 + u128_bytes(b.level_id);
    let b3 = b2 + rect_bytes(b.footprint);
    let b4 = b3 + u64_bytes(roof_kind_code(b.kind));
    let b5 = b4 + u64_bytes(b.base_elevation);
    lemma_split_bytes(a5, u64_bytes(a.height), b5, u64_bytes(b.height));
    lemma_split_bytes(a4, u64_bytes(a.base_elevation), b4, u64_bytes(b.base_elevation));
    lemma_split_bytes(a3, u64_bytes(roof_kind_code(a.kind)), b3, u64_bytes(roof_kind_code(b.kind)));
    lemma_split_bytes(a2, rect_bytes(a.footprint), b2, rect_bytes(b.footprint));
    lemma_split_bytes(a1, u128_bytes(a.level_id), b1, u128_bytes(b.level_id));
    lemma_u64_bytes_injective(a.height, b.height);
    lemma_u64_bytes_injective(a.base_elevation, b.base_elevation);
    lemma_u64_bytes_injective(roof_kind_code(a.kind), roof_kind_code(b.kind));
    lemma_rect_bytes_injective(a.footprint, b.footprint);
    lemma_u128_bytes_injective(a.level_id, b.level_id);
    lemma_u128_bytes_injective(a.id, b.id);
}

/// A room's bytes record its identity, purpose and footprint: two rooms
/// with the same bytes are the same room.
pub proof fn lemma_room_bytes_injective(a: RoomRecord, b: RoomRecord)
    requires
        room_bytes(a) == room_bytes(b),
    ensures
        a == b,
{
    let a2 = u128_bytes(a.id) + u64_bytes(purpose_code(a.purpose));
    let b2 = u128_bytes(b.id) + u64_bytes(purpose_code(b.purpose));
    lemma_split_bytes(a2, rect_bytes(a.footprint), b2, rect_bytes(b.footprint));
    lemma_split_bytes(u128_bytes(a.id), u64_bytes(purpose_code(a.purpose)), u128_bytes(b.id), u64_bytes(purpose_code(b.purpose)));
    lemma_u64_bytes_injective(purpose_code(a.purpose), purpose_code(b.purpose));
    lemma_rect_bytes_injective(a.footprint, b.footprint);
    lemma_u128_bytes_injective(a.id, b.id);
}

/// The bytes of an optional room, followed by anything, give back the room
/// and what followed: the leading tag tells a room from none.
proof fn lemma_optional_room_split(x: Option<u128>, r: Seq<u8>, y: Option<u128>, t: Seq<u8>)
    requires
        optional_room_bytes(x) + r == optional_room_bytes(y) + t,
    ensures
        x == y,
        r == t,
{
    let sx = optional_room_bytes(x) + r;
    let tag_x: u64 = if x is Some { 1 } else { 0 };
    let tag_y: u64 = if y is Some { 1 } else { 0 };
    match x {
        Some(a) => assert(sx.subrange(0, 8) =~= u64_bytes(1)),
        None => assert(sx.subrange(0, 8) =~= u64_bytes(0)),
    }
    let sy = optional_room_bytes(y) + t;
    match y {
        Some(b) => assert(sy.subrange(0, 8) =~= u64_bytes(1)),
        None => assert(sy.subrange(0, 8) =~= u64_bytes(0)),
    }
    lemma_u64_bytes_injective(tag_x, tag_y);
    match (x, y) {
        (Some(a), Some(b)) => {
            assert(sx =~= u64_bytes(1) + (u128_bytes(a) + r));
            assert(sy =~= u64_bytes(1) + (u128_bytes(b) + t));
            lemma_split_bytes(u64_bytes(1), u128_bytes(a) + r, u64_bytes(1), u128_bytes(b) + t);
            lemma_u128_bytes_len(a);
            lemma_u128_bytes_len(b);
            lemma_split_bytes(u128_bytes(a), r, u128_bytes(b), t);
            lemma_u128_bytes_injective(a, b);
        },
        (None, None) => {
            lemma_split_bytes(u64_bytes(0), r, u64_bytes(0), t);
        },
        _ => {},
    }
}

pub open spec fn space_room(space: SpaceRef) -> Option<u128> {
    match space {
        SpaceRef::Exterior => None,
        SpaceRef::Room(id) => Some(id),
    }
}

/// A wall's bytes record every field: its identity, level, ends, thickness,
/// height and both rooms. Two walls with the same bytes are the same wall.
pub proof fn lemma_wall_bytes_injective(a: WallRecord, b: WallRecord)
    requires
        wall_bytes(a) == wall_bytes(b),
    ensures
        a == b,
{
    let fa = u128_bytes(a.id) + u128_bytes(a.level_id) + u64_bytes(a.start_x) + u64_bytes(a.start_y) + u64_bytes(
        a.end_x,
    ) + u64_bytes(a.end_y) + u64_bytes(a.thickness) + u64_bytes(a.height);
    let fb = u128_bytes(b.id) + u128_bytes(b.level_id) + u64_bytes(b.start_x) + u64_bytes(b.start_y) + u64_bytes(
        b.end_x,
    ) + u64_bytes(b.end_y) + u64_bytes(b.thickness) + u64_bytes(b.height);
    assert(fa.len() == 80 && fb.len() == 80) by {
        lemma_u128_bytes_len(a.id);
        lemma_u128_bytes_len(a.level_id);
        lemma_u128_bytes_len(b.id);
        lemma_u128_bytes_len(b.level_id);
    }
    let ta = optional_room_bytes(a.left_room) + optional_room_bytes(a.right_room);
    let tb = optional_room_bytes(b.left_room) + optional_room_bytes(b.right_room);
    assert(wall_bytes(a) =~= fa + ta);
    assert(wall_bytes(b) =~= fb + tb);
    lemma_split_bytes(fa, ta, fb, tb);
    lemma_optional_room_split(a.left_room, optional_room_bytes(a.right_room), b.left_room, optional_room_bytes(b.right_room));
    assert(optional_room_bytes(a.right_room) =~= optional_room_bytes(a.right_room) + Seq::empty());
    assert(optional_room_bytes(b.right_room) =~= optional_room_bytes(b.right_room) + Seq::empty());
    lemma_optional_room_split(a.right_room, Seq::empty(), b.right_room, Seq::empty());
    lemma_wall_fixed_injective(a, b);
}

proof fn lemma_wall_fixed_injective(a: WallRecord, b: WallRecord)
    requires
        u128_bytes(a.id) + u128_bytes(a.level_id) + u64_bytes(a.start_x) + u64_bytes(a.start_y) + u64_bytes(a.end_x)
            + u64_bytes(a.end_y) + u64_bytes(a.thickness) + u64_bytes(a.height) == u128_bytes(b.id) + u128_bytes(
            b.level_id,
        ) + u64_bytes(b.start_x) + u64_bytes(b.start_y) + u64_bytes(b.end_x) + u64_bytes(b.end_y) + u64_bytes(
            b.thickness,
        ) + u64_bytes(b.height),
    ensures
        a.id == b.id && a.level_id == b.level_id && a.start_x == b.start_x && a.start_y == b.start_y,
        a.end_x == b.end_x && a.end_y == b.end_y && a.thickness == b.thickness && a.height == b.height,
{
    let p2a = u128_bytes(a.id) + u128_bytes(a.level_id);
    let p2b = u128_bytes(b.id) + u128_bytes(b.level_id);
    lemma_u64_tail(
        p2a + u64_bytes(a.start_x) + u64_bytes(a.start_y) + u64_bytes(a.end_x) + u64_bytes(a.end_y) + u64_bytes(
            a.thickness,
        ),
        a.height,
        p2b + u64_bytes(b.start_x) + u64_bytes(b.start_y) + u64_bytes(b.end_x) + u64_bytes(b.end_y) + u64_bytes(
            b.thickness,
        ),
        b.height,
    );
    lemma_u64_tail(
        p2a + u64_bytes(a.start_x) + u64_bytes(a.start_y) + u64_bytes(a.end_x) + u64_bytes(a.end_y),
        a.thickness,
        p2b + u64_bytes(b.start_x) + u64_bytes(b.start_y) + u64_bytes(b.end_x) + u64_bytes(b.end_y),
        b.thickness,
    );
    lemma_u64_tail(
        p2a + u64_bytes(a.start_x) + u64_bytes(a.start_y) + u64_bytes(a.end_x),
        a.end_y,
        p2b + u64_bytes(b.start_x) + u64_bytes(b.start_y) + u64_bytes(b.end_x),
        b.end_y,
    );
    lemma_u64_tail(
        p2a + u64_bytes(a.start_x) + u64_bytes(a.start_y),
        a.end_x,
        p2b + u64_bytes(b.start_x) + u64_bytes(b.start_y),
        b.end_x,
    );
    lemma_u64_tail(p2a + u64_bytes(a.start_x), a.start_y, p2b + u64_bytes(b.start_x), b.start_y);
    lemma_u64_tail(p2a, a.start_x, p2b, b.start_x);
    lemma_u128_tail(u128_bytes(a.id), a.level_id, u128_bytes(b.id), b.level_id);
    lemma_u128_bytes_injective(a.id, b.id);
}

/// An opening's bytes record every field: its identity, wall, kind, offset,
/// width, sill, height and the spaces on both sides. Two openings with the
/// same bytes are the same opening.
pub proof fn lemma_opening_bytes_injective(a: OpeningRecord, b: OpeningRecord)
    requires
        opening_bytes(a) == opening_bytes(b),
    ensures
        a == b,
{
    let fa = u128_bytes(a.id) + u128_bytes(a.wall_id) + u64_bytes(opening_kind_code(a.kind)) + u64_bytes(a.offset)
        + u64_bytes(a.width) + u64_bytes(a.sill) + u64_bytes(a.height);
    let fb = u128_bytes(b.id) + u128_bytes(b.wall_id) + u64_bytes(opening_kind_code(b.kind)) + u64_bytes(b.offset)
        + u64_bytes(b.width) + u64_bytes(b.sill) + u64_bytes(b.height);
    assert(fa.len() == 72 && fb.len() == 72) by {
        lemma_u128_bytes_len(a.id);
        lemma_u128_bytes_len(a.wall_id);
        lemma_u128_bytes_len(b.id);
        lemma_u128_bytes_len(b.wall_id);
    }
    assert(space_bytes(a.from) == optional_room_bytes(space_room(a.from)));
    assert(space_bytes(a.to) == optional_room_bytes(space_room(a.to)));
    assert(space_bytes(b.from) == optional_room_bytes(space_room(b.from)));
    assert(space_bytes(b.to) == optional_room_bytes(space_room(b.to)));
    let ta = space_bytes(a.from) + space_bytes(a.to);
    let tb = space_bytes(b.from) + space_bytes(b.to);
    assert(opening_bytes(a) =~= fa + ta);
    assert(opening_bytes(b) =~= fb + tb);
    lemma_split_bytes(fa, ta, fb, tb);
    lemma_optional_room_split(space_room(a.from), space_bytes(a.to), space_room(b.from), space_bytes(b.to));
    assert(space_bytes(a.to) =~= space_bytes(a.to) + Seq::empty());
    assert(space_bytes(b.to) =~= space_bytes(b.to) + Seq::empty());
    lemma_optional_room_split(space_room(a.to), Seq::empty(), space_room(b.to), Seq::empty());
    lemma_u64_tail(
        u128_bytes(a.id) + u128_bytes(a.wall_id) + u64_bytes(opening_kind_code(a.kind)) + u64_bytes(a.offset)
            + u64_bytes(a.width) + u64_bytes(a.sill),
        a.height,
        u128_bytes(b.id) + u128_bytes(b.wall_id) + u64_bytes(opening_kind_code(b.kind)) + u64_bytes(b.offset)
            + u64_bytes(b.width) + u64_bytes(b.sill),
        b.height,
    );
    lemma_u64_tail(
        u128_bytes(a.id) + u128_bytes(a.wall_id) + u64_bytes(opening_kind_code(a.kind)) + u64_bytes(a.offset)
            + u64_bytes(a.width),
        a.sill,
        u128_bytes(b.id) + u128_bytes(b.wall_id) + u64_bytes(opening_kind_code(b.kind)) + u64_bytes(b.offset)
            + u64_bytes(b.width),
        b.sill,
    );
    lemma_u64_tail(
        u128_bytes(a.id) + u128_bytes(a.wall_id) + u64_bytes(opening_kind_code(a.kind)) + u64_bytes(a.offset),
        a.width,
        u128_bytes(b.id) + u128_bytes(b.wall_id) + u64_bytes(opening_kind_code(b.kind)) + u64_bytes(b.offset),
        b.width,
    );
    lemma_u64_tail(
        u128_bytes(a.id) + u128_bytes(a.wall_id) + u64_bytes(opening_kind_code(a.kind)),
        a.offset,
        u128_bytes(b.id) + u128_bytes(b.wall_id) + u64_bytes(opening_kind_code(b.kind)),
        b.offset,
    );
    lemma_u64_tail(
        u128_bytes(a.id) + u128_bytes(a.wall_id),
        opening_kind_code(a.kind),
        u128_bytes(b.id) + u128_bytes(b.wall_id),
        opening_kind_code(b.kind),
    );
    lemma_u128_tail(u128_bytes(a.id), a.wall_id, u128_bytes(b.id), b.wall_id);
    lemma_u128_bytes_injective(a.id, b.id);
    assert(a.from == b.from);
    assert(a.to == b.to);
}

proof fn lemma_keeps_start(c: Seq<u8>, t: Seq<u8>, k: int)
    requires
        0 <= k <= c.len(),
    ensures
        (c + t).subrange(0, k) == c.subrange(0, k),
{
    assert((c + t).subrange(0, k) =~= c.subrange(0, k));
}

proof fn lemma_record_start(h: Seq<u8>, t1: Seq<u8>, t2: Seq<u8>, t3: Seq<u8>, t4: Seq<u8>, t5: Seq<u8>, whole: Seq<u8>)
    requires
        whole == h + t1 + t2 + t3 + t4 + t5,
    ensures
        whole.subrange(0, h.len() as int) == h,
{
    let k = h.len() as int;
    lemma_keeps_start(h + t1 + t2 + t3 + t4, t5, k);
    lemma_keeps_start(h + t1 + t2 + t3, t4, k);
    lemma_keeps_start(h + t1 + t2, t3, k);
    lemma_keeps_start(h + t1, t2, k);
    lemma_keeps_start(h, t1, k);
    assert(h.subrange(0, k) =~= h);
}

/// A blueprint's bytes begin with its identity, style, revision and primary
/// entry: two blueprints with the same bytes agree on them.
pub proof fn lemma_record_bytes_header(a: RecordView, b: RecordView)
    requires
        record_bytes(a) == record_bytes(b),
    ensures
        a.id == b.id,
        a.style_id == b.style_id,
        a.revision == b.revision,
        a.primary_entry == b.primary_entry,
{
    let ha = u128_bytes(a.id) + u128_bytes(a.style_id) + u64_bytes(a.revision) + u128_bytes(a.primary_entry);
    let hb = u128_bytes(b.id) + u128_bytes(b.style_id) + u64_bytes(b.revision) + u128_bytes(b.primary_entry);
    lemma_u128_bytes_len(a.id);
    lemma_u128_bytes_len(a.style_id);
    lemma_u128_bytes_len(a.primary_entry);
    lemma_u128_bytes_len(b.id);
    lemma_u128_bytes_len(b.style_id);
    lemma_u128_bytes_len(b.primary_entry);
    assert(ha.len() == 56 && hb.len() == 56);
    lemma_record_start(
        ha,
        concat_bytes(sorted_by(a.levels, |l: LevelRecordView| level_key(l)), |l: LevelRecordView| level_bytes(l)),
        concat_bytes(sorted_by(a.walls, |w: WallRecord| wall_key(w)), |w: WallRecord| wall_bytes(w)),
        concat_bytes(sorted_by(a.openings, |o: OpeningRecord| opening_key(o)), |o: OpeningRecord| opening_bytes(o)),
        concat_bytes(sorted_by(a.stairs, |s: StairRecord| stair_key(s)), |s: StairRecord| stair_bytes(s)),
        concat_bytes(sorted_by(a.roofs, |r: RoofRecord| roof_key(r)), |r: RoofRecord| roof_bytes(r)),
        record_bytes(a),
    );
    lemma_record_start(
        hb,
        concat_bytes(sorted_by(b.levels, |l: LevelRecordView| level_key(l)), |l: LevelRecordView| level_bytes(l)),
        concat_bytes(sorted_by(b.walls, |w: WallRecord| wall_key(w)), |w: WallRecord| wall_bytes(w)),
        concat_bytes(sorted_by(b.openings, |o: OpeningRecord| opening_key(o)), |o: OpeningRecord| opening_bytes(o)),
        concat_bytes(sorted_by(b.stairs, |s: StairRecord| stair_key(s)), |s: StairRecord| stair_bytes(s)),
        concat_bytes(sorted_by(b.roofs, |r: RoofRecord| roof_key(r)), |r: RoofRecord| roof_bytes(r)),
        record_bytes(b),
    );
    lemma_u128_tail(
        u128_bytes(a.id) + u128_bytes(a.style_id) + u64_bytes(a.revision),
        a.primary_entry,
        u128_bytes(b.id) + u128_bytes(b.style_id) + u64_bytes(b.revision),
        b.primary_entry,
    );
    lemma_u64_tail(u128_bytes(a.id) + u128_bytes(a.style_id), a.revision, u128_bytes(b.id) + u128_bytes(b.style_id), b.revision);
    lemma_u128_tail(u128_bytes(a.id), a.style_id, u128_bytes(b.id), b.style_id);
    lemma_u128_bytes_injective(a.id, b.id);
}

/// A level's bytes begin with its identity, index, elevation and height:
/// two levels with the same bytes agree on them.
pub proof fn lemma_level_bytes_header(a: LevelRecordView, b: LevelRecordView)
    requires
        level_bytes(a) == level_bytes(b),
    ensures
        a.id == b.id,
        a.index == b.index,
        a.elevation == b.elevation,
        a.height == b.height,
{
    let ha = u128_bytes(a.id) + u64_bytes(a.index as u64) + u64_bytes(a.elevation) + u64_bytes(a.height);
    let hb = u128_bytes(b.id) + u64_bytes(b.index as u64) + u64_bytes(b.elevation) + u64_bytes(b.height);
    lemma_u128_bytes_len(a.id);
    lemma_u128_bytes_len(b.id);
    assert(ha.len() == 40 && hb.len() == 40);
    let ra = concat_bytes(sorted_by(a.rooms, |r: RoomRecord| room_key(r)), |r: RoomRecord| room_bytes(r));
    let rb = concat_bytes(sorted_by(b.rooms, |r: RoomRecord| room_key(r)), |r: RoomRecord| room_bytes(r));
    lemma_keeps_start(ha, ra, 40);
    lemma_keeps_start(hb, rb, 40);
    assert(ha.subrange(0, 40) =~= ha);
    assert(hb.subrange(0, 40) =~= hb);
    assert(ha == hb);
    lemma_u64_tail(u128_bytes(a.id) + u64_bytes(a.index as u64) + u64_bytes(a.elevation), a.height, u128_bytes(b.id)
        + u64_bytes(b.index as u64) + u64_bytes(b.elevation), b.height);
    lemma_u64_tail(u128_bytes(a.id) + u64_bytes(a.index as u64), a.elevation, u128_bytes(b.id) + u64_bytes(
        b.index as u64,
    ), b.elevation);
    lemma_u64_tail(u128_bytes(a.id), a.index as u64, u128_bytes(b.id), b.index as u64);
    lemma_u128_bytes_injective(a.id, b.id);
    let x = a.index;
    let y = b.index;
    assert((x as u64 == y as u64) ==> x == y) by (bit_vector);
}

proof fn lemma_room_list_len(rooms: Seq<RoomRecord>)
    ensures
        concat_bytes(rooms, |r: RoomRecord| room_bytes(r)).len() == 56 * rooms.len(),
    decreases rooms.len(),
{
    if rooms.len() > 0 {
        lemma_room_list_len(rooms.drop_last());
        lemma_u128_bytes_len(rooms.last().id);
    }
}

/// The bytes of a list of rooms give back the list: two lists with the same
/// bytes hold the same rooms in the same order.
pub proof fn lemma_room_list_bytes_injective(xs: Seq<RoomRecord>, ys: Seq<RoomRecord>)
    requires
        concat_bytes(xs, |r: RoomRecord| room_bytes(r)) == concat_bytes(ys, |r: RoomRecord| room_bytes(r)),
    ensures
        xs == ys,
    decreases xs.len(),
{
    lemma_room_list_len(xs);
    lemma_room_list_len(ys);
    assert(xs.len() == ys.len());
    if xs.len() > 0 {
        let px = concat_bytes(xs.drop_last(), |r: RoomRecord| room_bytes(r));
        let py = concat_bytes(ys.drop_last(), |r: RoomRecord| room_bytes(r));
        lemma_room_list_len(xs.drop_last());
        lemma_room_list_len(ys.drop_last());
        lemma_split_bytes(px, room_bytes(xs.last()), py, room_bytes(ys.last()));
        lemma_room_list_bytes_injective(xs.drop_last(), ys.drop_last());
        lemma_room_bytes_injective(xs.last(), ys.last());
        assert(xs =~= xs.drop_last().push(xs.last()));
        assert(ys =~= ys.drop_last().push(ys.last()));
    }
}

/// A level's bytes record its rooms: two levels with the same bytes hold the
/// same rooms, taken in the order of identity.
pub proof fn lemma_level_bytes_rooms(a: LevelRecordView, b: LevelRecordView)
    requires
        level_bytes(a) == level_bytes(b),
    ensures
        sorted_by(a.rooms, |r: RoomRecord| room_key(r)) == sorted_by(b.rooms, |r: RoomRecord| room_key(r)),
{
    let ha = u128_bytes(a.id) + u64_bytes(a.index as u64) + u64_bytes(a.elevation) + u64_bytes(a.height);
    let hb = u128_bytes(b.id) + u64_bytes(b.index as u64) + u64_bytes(b.elevation) + u64_bytes(b.height);
    lemma_u128_bytes_len(a.id);
    lemma_u128_bytes_len(b.id);
    assert(ha.len() == 40 && hb.len() == 40);
    let ra = concat_bytes(sorted_by(a.rooms, |r: RoomRecord| room_key(r)), |r: RoomRecord| room_bytes(r));
    let rb = concat_bytes(sorted_by(b.rooms, |r: RoomRecord| room_key(r)), |r: RoomRecord| room_bytes(r));
    lemma_split_bytes(ha, ra, hb, rb);
    lemma_room_list_bytes_injective(
        sorted_by(a.rooms, |r: RoomRecord| room_key(r)),
        sorted_by(b.rooms, |r: RoomRecord| room_key(r)),
    );
}

} // verus!
