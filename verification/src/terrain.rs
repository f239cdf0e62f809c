//! The integer part of the integrated world model: the classes of landform,
//! cover, history and traversal, how landforms group and sort, how a path
//! is read back from a search's predecessor links, which cells of a terrain
//! grid neighbour a cell, the key of the boundary between two cells, the
//! cells a region is materialised around by default, and what a settlement
//! with given land-use zones lives on.

use crate::ids::HexCoord;
use vstd::prelude::*;

verus! {

#[derive(Clone, Copy, Debug, PartialEq, Eq, Structural, PartialOrd, Ord, Hash)]
pub enum LandformClass {
    Ocean,
    Coast,
    Estuary,
    Floodplain,
    Valley,
    Lowland,
    Terrace,
    Hillslope,
    Ridge,
    Mountain,
}

#[derive(Clone, Copy, Debug, PartialEq, Eq, Structural, PartialOrd, Ord, Hash)]
pub enum LandCover {
    OpenWater,
    Wetland,
    Cropland,
    Grassland,
    Forest,
    Scrub,
    BareRock,
    Built,
}

#[derive(Clone, Copy, Debug, PartialEq, Eq, Structural, PartialOrd, Ord, Hash)]
pub enum AtlasFeatureKind {
    MountainRange,
    RidgeLine,
    ValleyLine,
    River,
    Coastline,
    RoadCorridor,
    Settlement,
    Landmark,
}

#[derive(Clone, Copy, Debug, PartialEq, Eq, Structural, PartialOrd, Ord, Hash)]
pub enum HistoryEventKind {
    Migration,
    SettlementFounded,
    HarborConstructed,
    AgricultureExpanded,
    RoadAndBridgeBuilt,
    FortificationRaised,
    Conflict,
    Flood,
    Reconstruction,
}

#[derive(Clone, Copy, Debug, PartialEq, Eq, Structural, PartialOrd, Ord, Hash)]
pub enum HistoricalAssetKind {
    Harbor,
    Bridge,
    OldRoad,
    NewRoad,
    OldQuarter,
    NewQuarter,
    Farmland,
    Fortification,
    Ruins,
    Monument,
}

#[derive(Clone, Copy, Debug, PartialEq, Eq, Structural, PartialOrd, Ord, Hash)]
pub enum LandUseKind {
    Harbor,
    OldTown,
    NewTown,
    Farmland,
    Fortification,
    Ruins,
    Commons,
}

#[derive(Clone, Copy, Debug, PartialEq, Eq, Structural)]
pub enum TraversalSurface {
    Trail,
    Road,
    Bridge,
    Plaza,
    BuildingPortal,
    Dock,
}

#[derive(Clone, Copy, Debug, PartialEq, Eq, Structural)]
pub enum TraversalMode {
    Walking,
    Wagon,
}

/// One named check of a cross-scale validation report.
#[derive(Clone, Debug)]
pub struct ValidationCheck {
    pub name: String,
    pub passed: bool,
    pub detail: String,
}

/// The landform group that a class is counted in: mountain, ridge, slope,
/// valley, lowland, coast and water.
pub open spec fn spec_landform_bucket(landform: LandformClass) -> usize {
    match landform {
        LandformClass::Mountain => 0,
        LandformClass::Ridge => 1,
        LandformClass::Hillslope | LandformClass::Terrace => 2,
        LandformClass::Valley => 3,
        LandformClass::Lowland | LandformClass::Floodplain => 4,
        LandformClass::Coast | LandformClass::Estuary => 5,
        LandformClass::Ocean => 6,
    }
}

/// The landform group that a class is counted in.
pub fn landform_bucket(landform: LandformClass) -> (bucket: usize)
    ensures
        bucket == spec_landform_bucket(landform),
        bucket < 7,
{
    match landform {
        LandformClass::Mountain => 0,
        LandformClass::Ridge => 1,
        LandformClass::Hillslope | LandformClass::Terrace => 2,
        LandformClass::Valley => 3,
        LandformClass::Lowland | LandformClass::Floodplain => 4,
        LandformClass::Coast | LandformClass::Estuary => 5,
        LandformClass::Ocean => 6,
    }
}

/// A landform's rank from sea to summit.
pub open spec fn spec_landform_key(landform: LandformClass) -> u8 {
    match landform {
        LandformClass::Ocean => 0,
        LandformClass::Coast => 1,
        LandformClass::Estuary => 2,
        LandformClass::Floodplain => 3,
        LandformClass::Valley => 4,
        LandformClass::Lowland => 5,
        LandformClass::Terrace => 6,
        LandformClass::Hillslope => 7,
        LandformClass::Ridge => 8,
        LandformClass::Mountain => 9,
    }
}

/// A landform's rank from sea to summit; distinct classes have distinct ranks.
pub fn landform_key(landform: LandformClass) -> (key: u8)
    ensures
        key == spec_landform_key(landform),
        key <= 9,
{
    match landform {
        LandformClass::Ocean => 0,
        LandformClass::Coast => 1,
        LandformClass::Estuary => 2,
        LandformClass::Floodplain => 3,
        LandformClass::Valley => 4,
        LandformClass::Lowland => 5,
        LandformClass::Terrace => 6,
        LandformClass::Hillslope => 7,
        LandformClass::Ridge => 8,
        LandformClass::Mountain => 9,
    }
}

/// Distinct landform classes have distinct ranks.
pub proof fn lemma_landform_key_injective(a: LandformClass, b: LandformClass)
    ensures
        spec_landform_key(a) == spec_landform_key(b) ==> a == b,
{
}

/// The node reached from `node` after following `steps` predecessor links.
pub open spec fn walk_back(came_from: Seq<Option<usize>>, node: int, steps: nat) -> int
    decreases steps,
{
    if steps == 0 {
        node
    } else {
        let previous = walk_back(came_from, node, (steps - 1) as nat);
        match came_from[previous] {
            Some(p) => p as int,
            None => previous,
        }
    }
}

/// Whether the predecessor links from `node` stay among the nodes and end,
/// at a node without a predecessor, after exactly `steps` links.
pub open spec fn ends_after(came_from: Seq<Option<usize>>, node: int, steps: nat) -> bool {
    &&& forall|i: nat| i <= steps ==> 0 <= #[trigger] walk_back(came_from, node, i) < came_from.len()
    &&& forall|i: nat| i < steps ==> (#[trigger] came_from[walk_back(came_from, node, i)]) is Some
    &&& came_from[walk_back(came_from, node, steps)] is None
}

/// The path that leads to `current`: the chain of its predecessors, from the
/// one without a predecessor to `current` itself.
pub fn reconstruct_path(came_from: &[Option<usize>], current: usize) -> (path: Vec<usize>)
    requires
        exists|steps: nat| ends_after(came_from@, current as int, steps),
    ensures
        ({
            let steps = choose|steps: nat| ends_after(came_from@, current as int, steps);
            &&& path@.len() == steps + 1
            &&& forall|i: int| 0 <= i <= steps ==> path@[i] == walk_back(
                came_from@,
                current as int,
                (steps - i) as nat,
            )
        }),
{
    let ghost steps = choose|steps: nat| ends_after(came_from@, current as int, steps);
    let mut backwards: Vec<usize> = Vec::new();
    backwards.push(current);
    let mut node = current;
    proof {
        assert(walk_back(came_from@, current as int, 0) == current);
    }
    loop
        invariant
            ends_after(came_from@, current as int, steps),
            1 <= backwards@.len() <= steps + 1,
            node as int == walk_back(came_from@, current as int, (backwards@.len() - 1) as nat),
            forall|i: int| 0 <= i < backwards@.len() ==> backwards@[i] == walk_back(
                came_from@,
                current as int,
                i as nat,
            ),
        ensures
            backwards@.len() == steps + 1,
            forall|i: int| 0 <= i < backwards@.len() ==> backwards@[i] == walk_back(
                came_from@,
                current as int,
                i as nat,
            ),
        decreases steps + 1 - backwards@.len(),
    {
        let ghost taken = (backwards@.len() - 1) as nat;
        assert(0 <= walk_back(came_from@, current as int, taken) < came_from@.len());
        match came_from[node] {
            None => {
                assert(taken == steps) by {
                    if taken < steps {
                        assert(came_from@[walk_back(came_from@, current as int, taken)] is Some);
                    }
                }
                break;
            },
            Some(previous) => {
                assert(taken < steps) by {
                    if taken == steps {
                        assert(came_from@[walk_back(came_from@, current as int, steps)] is None);
                    }
                }
                assert(walk_back(came_from@, current as int, taken + 1) == previous);
                node = previous;
                backwards.push(previous);
            },
        }
    }
    let mut path: Vec<usize> = Vec::new();
    let mut j: usize = backwards.len();
    while j > 0
        invariant
            j <= backwards@.len(),
            backwards@.len() == steps + 1,
            path@.len() == backwards@.len() - j,
            forall|i: int| 0 <= i < path@.len() ==> path@[i] == backwards@[steps - i],
        decreases j,
    {
        j = j - 1;
        path.push(backwards[j]);
    }
    path
}


/// Cell `k` of the three-by-three block around the cell in column `x` and
/// row `z`, counted row by row from the row before: its column and row.
pub open spec fn block_cell(x: int, z: int, k: int) -> (int, int) {
    (x + k % 3 - 1, z + k / 3 - 1)
}

/// The grid indices of the first `k` cells of the block around column `x`
/// and row `z` that lie on a `width` by `height` grid, the centre left out.
pub open spec fn block_neighbors(width: int, height: int, x: int, z: int, k: nat) -> Seq<usize>
    decreases k,
{
    if k == 0 {
        Seq::empty()
    } else {
        let before = block_neighbors(width, height, x, z, (k - 1) as nat);
        let (nx, nz) = block_cell(x, z, k - 1);
        if k - 1 != 4 && 0 <= nx < width && 0 <= nz < height {
            before.push((nz * width + nx) as usize)
        } else {
            before
        }
    }
}

/// The neighbours of a cell of a `width` by `height` grid whose cells are
/// numbered row by row: the cells around it that lie on the grid, row by
/// row and column by column.
pub fn grid_neighbors(width: u16, height: u16, index: usize) -> (neighbors: Vec<usize>)
    requires
        width > 0,
    ensures
        neighbors@ == block_neighbors(
            width as int,
            height as int,
            (index % width as usize) as int,
            (index / width as usize) as int,
            9,
        ),
{
    let w = width as usize;
    let h = height as usize;
    let x = index % w;
    let z = index / w;
    let mut result: Vec<usize> = Vec::new();
    let mut k: usize = 0;
    while k < 9
        invariant
            k <= 9,
            w == width as usize,
            h == height as usize,
            w > 0,
            x < w,
            x == index % w,
            z == index / w,
            result@ == block_neighbors(w as int, h as int, x as int, z as int, k as nat),
        decreases 9 - k,
    {
        let column_step = k % 3;
        let row_step = k / 3;
        let column_fits = (column_step >= 1 || x >= 1) && x + column_step - 1 < w;
        let row_fits = (row_step >= 1 || z >= 1) && h + 1 >= row_step && z < h + 1 - row_step;
        if k != 4 && column_fits && row_fits {
            let nx = x + column_step - 1;
            let nz = z + row_step - 1;
            proof {
                assert(nz * w + nx < h * w) by (nonlinear_arith)
                    requires
                        nz < h,
                        nx < w,
                ;
                assert(h * w <= 65535 * 65535) by (nonlinear_arith)
                    requires
                        h <= 65535,
                        w <= 65535,
                ;
            }
            result.push(nz * w + nx);
        }
        k = k + 1;
    }
    result
}


/// A cell's two coordinates as one 64-bit word: the column's 32 bits above
/// the row's, each in two's complement.
pub open spec fn cell_word(cell: HexCoord) -> int {
    (cell.q as u32) * 0x1_0000_0000int + (cell.r as u32)
}

fn cell_bits(cell: HexCoord) -> (bits: u64)
    ensures
        bits == cell_word(cell),
{
    let q = cell.q;
    let r = cell.r;
    let bits = ((q as i64 as u64) << 32) | ((r as i64 as u64) & 0xffff_ffff);
    assert(bits == (q as u32) * 0x1_0000_0000u64 + (r as u32)) by (bit_vector)
        requires
            bits == ((q as i64 as u64) << 32) | ((r as i64 as u64) & 0xffff_ffff),
    ;
    bits
}

/// The key of the boundary between two cells: the lower cell's word above
/// the higher cell's.
pub fn boundary_key(low: HexCoord, high: HexCoord) -> (key: u128)
    ensures
        key == cell_word(low) * 0x1_0000_0000_0000_0000int + cell_word(high),
{
    let low_bits = cell_bits(low);
    let high_bits = cell_bits(high);
    let key = ((low_bits as u128) << 64) | (high_bits as u128);
    assert(key == (low_bits as u128) * 0x1_0000_0000_0000_0000u128 + (high_bits as u128)) by (bit_vector)
        requires
            key == ((low_bits as u128) << 64) | (high_bits as u128),
    ;
    key
}


/// Whether one of the zones is of a kind that `is_kind` picks.
pub open spec fn has_zone(kinds: Seq<LandUseKind>, is_kind: spec_fn(LandUseKind) -> bool) -> bool {
    exists|i: int| 0 <= i < kinds.len() && is_kind(#[trigger] kinds[i])
}

/// What a settlement with zones of these kinds lives on: a harbour makes it
/// maritime, else farmland agricultural, else a town a place of craft, else
/// it is sparse rural use.
pub open spec fn spec_dominant_economy(kinds: Seq<LandUseKind>) -> Seq<char> {
    if has_zone(kinds, |k: LandUseKind| k is Harbor) {
        "maritime trade and fishery"@
    } else if has_zone(kinds, |k: LandUseKind| k is Farmland) {
        "agriculture"@
    } else if has_zone(kinds, |k: LandUseKind| k is OldTown || k is NewTown) {
        "craft and local exchange"@
    } else {
        "sparse rural use"@
    }
}

fn any_zone(kinds: &Vec<LandUseKind>, first: LandUseKind, second: LandUseKind) -> (found: bool)
    ensures
        found == has_zone(kinds@, |k: LandUseKind| k == first || k == second),
{
    let mut i: usize = 0;
    while i < kinds.len()
        invariant
            i <= kinds.len(),
            forall|j: int| 0 <= j < i ==> !(kinds@[j] == first || kinds@[j] == second),
        decreases kinds.len() - i,
    {
        if kinds[i] == first || kinds[i] == second {
            assert((|k: LandUseKind| k == first || k == second)(kinds@[i as int]));
            return true;
        }
        i = i + 1;
    }
    false
}

/// What a settlement with land-use zones of these kinds lives on.
pub fn dominant_economy(kinds: &Vec<LandUseKind>) -> (economy: String)
    ensures
        economy@ == spec_dominant_economy(kinds@),
{
    let harbor = any_zone(kinds, LandUseKind::Harbor, LandUseKind::Harbor);
    assert(has_zone(kinds@, |k: LandUseKind| k is Harbor) == has_zone(
        kinds@,
        |k: LandUseKind| k == LandUseKind::Harbor || k == LandUseKind::Harbor,
    ));
    if harbor {
        return "maritime trade and fishery".to_owned();
    }
    let farmland = any_zone(kinds, LandUseKind::Farmland, LandUseKind::Farmland);
    assert(has_zone(kinds@, |k: LandUseKind| k is Farmland) == has_zone(
        kinds@,
        |k: LandUseKind| k == LandUseKind::Farmland || k == LandUseKind::Farmland,
    ));
    if farmland {
        return "agriculture".to_owned();
    }
    let town = any_zone(kinds, LandUseKind::OldTown, LandUseKind::NewTown);
    assert(has_zone(kinds@, |k: LandUseKind| k is OldTown || k is NewTown) == has_zone(
        kinds@,
        |k: LandUseKind| k == LandUseKind::OldTown || k == LandUseKind::NewTown,
    ));
    if town {
        "craft and local exchange".to_owned()
    } else {
        "sparse rural use".to_owned()
    }
}


/// The cells that a region is materialised around when none are named:
/// the centre cell, its neighbours and two cells further out, west to east.
pub open spec fn requested_cells() -> Seq<HexCoord> {
    seq![
        HexCoord { q: -2i32, r: 0i32 },
        HexCoord { q: -1i32, r: 0i32 },
        HexCoord { q: -1i32, r: 1i32 },
        HexCoord { q: 0i32, r: -1i32 },
        HexCoord { q: 0i32, r: 0i32 },
        HexCoord { q: 0i32, r: 1i32 },
        HexCoord { q: 1i32, r: -1i32 },
        HexCoord { q: 1i32, r: 0i32 },
        HexCoord { q: 2i32, r: 0i32 },
    ]
}

/// The first `n` requested cells that the atlas has, in order.
pub open spec fn requested_in_atlas(atlas_cells: Seq<HexCoord>, n: nat) -> Seq<HexCoord>
    decreases n,
{
    if n == 0 || n > requested_cells().len() {
        Seq::empty()
    } else if atlas_cells.contains(requested_cells()[n - 1]) {
        requested_in_atlas(atlas_cells, (n - 1) as nat).push(requested_cells()[n - 1])
    } else {
        requested_in_atlas(atlas_cells, (n - 1) as nat)
    }
}

fn holds_cell(cells: &Vec<HexCoord>, cell: HexCoord) -> (found: bool)
    ensures
        found == cells@.contains(cell),
{
    let mut i: usize = 0;
    while i < cells.len()
        invariant
            i <= cells.len(),
            forall|j: int| 0 <= j < i ==> cells@[j] != cell,
        decreases cells.len() - i,
    {
        if cells[i].q == cell.q && cells[i].r == cell.r {
            assert(cells@[i as int] == cell);
            return true;
        }
        i = i + 1;
    }
    false
}

/// The cells that a region is materialised around when none are named,
/// those of them that the atlas has, in order.
pub fn default_materialized_cells(atlas_cells: &Vec<HexCoord>) -> (cells: Vec<HexCoord>)
    ensures
        cells@ == requested_in_atlas(atlas_cells@, 9),
{
    let requested: [HexCoord; 9] = [
        HexCoord::new(-2, 0),
        HexCoord::new(-1, 0),
        HexCoord::new(-1, 1),
        HexCoord::new(0, -1),
        HexCoord::new(0, 0),
        HexCoord::new(0, 1),
        HexCoord::new(1, -1),
        HexCoord::new(1, 0),
        HexCoord::new(2, 0),
    ];
    assert(requested@ == requested_cells());
    let mut cells: Vec<HexCoord> = Vec::new();
    let mut k: usize = 0;
    while k < 9
        invariant
            k <= 9,
            requested@ == requested_cells(),
            cells@ == requested_in_atlas(atlas_cells@, k as nat),
        decreases 9 - k,
    {
        let cell = requested[k];
        if holds_cell(atlas_cells, cell) {
            cells.push(cell);
        }
        k = k + 1;
    }
    cells
}

} // verus!
