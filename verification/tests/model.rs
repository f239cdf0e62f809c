use world_prototype::building::{feed_u128, feed_u64, OpeningKind};
use world_prototype::ids::HexCoord;
use world_prototype::route_view::TravelDirection;
use world_prototype::terrain::{
    boundary_key, default_materialized_cells, dominant_economy, grid_neighbors, landform_bucket,
    landform_key, reconstruct_path,
    LandUseKind, LandformClass,
};
use world_prototype::validation::{record, ValidationStep};

const FNV_OFFSET: u64 = 0xcbf2_9ce4_8422_2325;
const FNV_PRIME: u64 = 0x0000_0100_0000_01b3;

fn reference_fnv(mut hash: u64, bytes: &[u8]) -> u64 {
    for byte in bytes {
        hash ^= u64::from(*byte);
        hash = hash.wrapping_mul(FNV_PRIME);
    }
    hash
}

#[test]
fn feeding_integers_folds_their_little_endian_bytes() {
    let mut hash = FNV_OFFSET;
    feed_u64(&mut hash, 0x0102_0304_0506_0708);
    assert_eq!(hash, reference_fnv(FNV_OFFSET, &0x0102_0304_0506_0708u64.to_le_bytes()));
    assert_ne!(hash, FNV_OFFSET);

    let mut wide = 7u64;
    let value: u128 = 0x1111_2222_3333_4444_5555_6666_7777_8888;
    feed_u128(&mut wide, value);
    assert_eq!(wide, reference_fnv(7, &value.to_le_bytes()));

    let mut empty = FNV_OFFSET;
    feed_u64(&mut empty, 0);
    assert_eq!(empty, reference_fnv(FNV_OFFSET, &[0; 8]));
}

#[test]
fn only_doors_and_passages_are_traversable() {
    assert!(OpeningKind::Door.is_traversable());
    assert!(OpeningKind::Passage.is_traversable());
    assert!(!OpeningKind::Window.is_traversable());
}

#[test]
fn landforms_group_and_rank() {
    assert_eq!(landform_bucket(LandformClass::Mountain), 0);
    assert_eq!(landform_bucket(LandformClass::Terrace), 2);
    assert_eq!(landform_bucket(LandformClass::Floodplain), 4);
    assert_eq!(landform_bucket(LandformClass::Estuary), 5);
    assert_eq!(landform_bucket(LandformClass::Ocean), 6);
    assert_eq!(landform_key(LandformClass::Ocean), 0);
    assert_eq!(landform_key(LandformClass::Valley), 4);
    assert_eq!(landform_key(LandformClass::Mountain), 9);
}

#[test]
fn a_path_is_read_back_from_its_predecessors() {
    let came_from = vec![None, Some(0), Some(1), Some(1), Some(3)];
    assert_eq!(reconstruct_path(&came_from, 4), vec![0, 1, 3, 4]);
    assert_eq!(reconstruct_path(&came_from, 0), vec![0]);
    assert_eq!(reconstruct_path(&came_from, 2), vec![0, 1, 2]);
}

#[test]
fn travel_directions_have_labels() {
    assert_eq!(TravelDirection::Forward.label(), "forward");
    assert_eq!(TravelDirection::Reverse.label(), "reverse");
}

#[test]
fn validation_steps_are_numbered_from_one() {
    let mut checks: Vec<ValidationStep> = Vec::new();
    record(&mut checks, "first", "one".to_owned(), true);
    record(&mut checks, "second", "two".to_owned(), false);
    assert_eq!(checks.len(), 2);
    assert_eq!(checks[0].index, 1);
    assert_eq!(checks[1].index, 2);
    assert_eq!(checks[1].title, "second");
    assert_eq!(checks[1].detail, "two");
    assert!(!checks[1].passed);
}

#[test]
fn grid_neighbors_stay_on_the_grid() {
    assert_eq!(grid_neighbors(3, 3, 4), vec![0, 1, 2, 3, 5, 6, 7, 8]);
    assert_eq!(grid_neighbors(3, 3, 0), vec![1, 3, 4]);
    assert_eq!(grid_neighbors(4, 2, 7), vec![2, 3, 6]);
    assert_eq!(grid_neighbors(1, 1, 0), Vec::<usize>::new());
}

#[test]
fn boundary_key_packs_both_cells() {
    assert_eq!(
        boundary_key(HexCoord::new(1, -1), HexCoord::new(2, 3)),
        0x1_ffff_ffff_0000_0002_0000_0003
    );
    assert_eq!(
        boundary_key(HexCoord::new(-2, 0), HexCoord::new(0, 5)),
        0xffff_fffe_0000_0000_0000_0000_0000_0005
    );
}

#[test]
fn dominant_economy_prefers_harbor_then_farmland_then_town() {
    assert_eq!(
        dominant_economy(&vec![LandUseKind::Farmland, LandUseKind::Harbor]),
        "maritime trade and fishery"
    );
    assert_eq!(
        dominant_economy(&vec![LandUseKind::Ruins, LandUseKind::Farmland, LandUseKind::OldTown]),
        "agriculture"
    );
    assert_eq!(
        dominant_economy(&vec![LandUseKind::Commons, LandUseKind::NewTown]),
        "craft and local exchange"
    );
    assert_eq!(
        dominant_economy(&vec![LandUseKind::Fortification, LandUseKind::Ruins]),
        "sparse rural use"
    );
    assert_eq!(dominant_economy(&vec![]), "sparse rural use");
}

#[test]
fn default_cells_are_those_the_atlas_has_in_order() {
    let atlas = vec![
        HexCoord::new(2, 0),
        HexCoord::new(0, 0),
        HexCoord::new(5, 5),
        HexCoord::new(-1, 1),
    ];
    assert_eq!(
        default_materialized_cells(&atlas),
        vec![HexCoord::new(-1, 1), HexCoord::new(0, 0), HexCoord::new(2, 0)]
    );
    assert!(default_materialized_cells(&vec![]).is_empty());
}
