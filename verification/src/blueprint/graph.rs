//! The room graph of a blueprint, and the rooms that no entry from outside
//! reaches through it.

use super::plan::{BlueprintPlan, LevelPlan, OpeningPlan, PlanView, SpaceRef, StairPlan};
use super::validate::{blueprint_errors, validate_blueprint, BuildingError, ValidationReport};
use crate::key_order::{keys_of, lemma_key_order, order_by_key, pick, sorted_by};
use crate::sorted_ids::{sorted_ids, sorted_map_keys, sorted_set_items};
use std::collections::{BTreeMap, BTreeSet};
use vstd::prelude::*;

verus! {

/// Which rooms a person can pass between, and which rooms open to outside.
#[derive(Clone, Debug)]
pub struct RoomGraph {
    pub adjacency: BTreeMap<u128, BTreeSet<u128>>,
    pub exterior_entries: BTreeSet<u128>,
}

pub struct GraphView {
    pub adjacency: Map<u128, Set<u128>>,
    pub entries: Set<u128>,
}

impl View for RoomGraph {
    type V = GraphView;

    open spec fn view(&self) -> GraphView {
        GraphView {
            adjacency: self.adjacency@.map_values(|s: BTreeSet<u128>| s@),
            entries: self.exterior_entries@,
        }
    }
}

/// Whether room `r` is reached from an entry in at most `n` steps.
pub open spec fn reached_within(g: GraphView, r: u128, n: nat) -> bool
    decreases n,
{
    if n == 0 {
        g.entries.contains(r)
    } else {
        reached_within(g, r, (n - 1) as nat) || exists|p: u128|
            #![trigger g.adjacency[p].contains(r)]
            reached_within(g, p, (n - 1) as nat) && g.adjacency.contains_key(p)
                && g.adjacency[p].contains(r)
    }
}

/// Whether room `r` is reached from an entry.
pub open spec fn reachable(g: GraphView, r: u128) -> bool {
    exists|n: nat| reached_within(g, r, n)
}

/// The first `n` of `rooms` that no entry reaches, in order.
pub open spec fn unreachable_rooms(g: GraphView, rooms: Seq<u128>, n: nat) -> Seq<u128>
    decreases n,
{
    if n == 0 || n > rooms.len() {
        Seq::empty()
    } else if reachable(g, rooms[n - 1]) {
        unreachable_rooms(g, rooms, (n - 1) as nat)
    } else {
        unreachable_rooms(g, rooms, (n - 1) as nat).push(rooms[n - 1])
    }
}

proof fn lemma_reached_step(g: GraphView, p: u128, r: u128)
    requires
        reachable(g, p),
        g.adjacency.contains_key(p),
        g.adjacency[p].contains(r),
    ensures
        reachable(g, r),
{
    let n = choose|n: nat| reached_within(g, p, n);
    assert(reached_within(g, r, n + 1));
}

/// A set that holds every entry and, with each of its rooms, that room's
/// neighbours, holds every room that is reached.
proof fn lemma_closed_holds_reached(g: GraphView, visited: Set<u128>, r: u128, n: nat)
    requires
        g.entries.subset_of(visited),
        forall|p: u128, w: u128| #[trigger] visited.contains(p) && g.adjacency.contains_key(p)
            && #[trigger] g.adjacency[p].contains(w) ==> visited.contains(w),
        reached_within(g, r, n),
    ensures
        visited.contains(r),
    decreases n,
{
    if n > 0 {
        if reached_within(g, r, (n - 1) as nat) {
            lemma_closed_holds_reached(g, visited, r, (n - 1) as nat);
        } else {
            let p = choose|p: u128|
                #![trigger g.adjacency[p].contains(r)]
                reached_within(g, p, (n - 1) as nat) && g.adjacency.contains_key(p)
                    && g.adjacency[p].contains(r);
            lemma_closed_holds_reached(g, visited, p, (n - 1) as nat);
        }
    }
}

/// Every room that can be visited: the entries, the rooms with
/// neighbours, and their neighbours.
fn graph_nodes(graph: &RoomGraph) -> (nodes: Vec<u128>)
    ensures
        graph@.entries.subset_of(nodes@.to_set()),
        forall|p: u128, w: u128| #[trigger] graph@.adjacency.contains_key(p) && #[trigger] graph@.adjacency[p].contains(w)
            ==> nodes@.to_set().contains(w),
{
    let mut nodes = sorted_set_items(&graph.exterior_entries);
    let keys = sorted_map_keys(&graph.adjacency);
    let mut i: usize = 0;
    while i < keys.len()
        invariant
            i <= keys.len(),
            keys@.to_set() == graph.adjacency@.dom(),
            graph@.entries.subset_of(nodes@.to_set()),
            forall|k: int, w: u128| 0 <= k < i && #[trigger] graph@.adjacency[keys@[k]].contains(w)
                ==> nodes@.to_set().contains(w),
        decreases keys.len() - i,
    {
        let key = keys[i];
        assert(keys@.to_set().contains(key));
        let neighbors = graph.adjacency.get(&key).unwrap();
        let items = sorted_set_items(neighbors);
        let ghost before = nodes@;
        let mut j: usize = 0;
        while j < items.len()
            invariant
                j <= items.len(),
                before.to_set().subset_of(nodes@.to_set()),
                forall|m: int| 0 <= m < j ==> nodes@.to_set().contains(#[trigger] items@[m]),
            decreases items.len() - j,
        {
            let ghost prior = nodes@;
            nodes.push(items[j]);
            assert forall|x: u128| prior.to_set().contains(x) implies nodes@.to_set().contains(x) by {
                let m = choose|m: int| 0 <= m < prior.len() && prior[m] == x;
                assert(nodes@[m] == x);
            }
            assert(nodes@[nodes@.len() - 1] == items@[j as int]);
            j = j + 1;
        }
        proof {
            assert forall|w: u128| #[trigger] graph@.adjacency[key].contains(w) implies nodes@.to_set().contains(w) by {
                assert(items@.to_set().contains(w));
                let m = choose|m: int| 0 <= m < items@.len() && items@[m] == w;
            }
        }
        i = i + 1;
    }
    proof {
        assert forall|p: u128, w: u128| #[trigger] graph@.adjacency.contains_key(p) && #[trigger] graph@.adjacency[p].contains(w)
            implies nodes@.to_set().contains(w) by {
            assert(keys@.to_set().contains(p));
            let k = choose|k: int| 0 <= k < keys@.len() && keys@[k] == p;
        }
    }
    nodes
}

/// The rooms with neighbours that no entry from outside reaches, in
/// increasing order. The search visits rooms breadth first: the entries,
/// then their neighbours, and so on.
pub fn inaccessible_rooms(graph: &RoomGraph) -> (rooms: Vec<u128>)
    ensures
        rooms@ == unreachable_rooms(graph@, sorted_ids(graph@.adjacency.dom()), graph@.adjacency.dom().len()),
{
    let ghost g = graph@;
    let nodes = graph_nodes(graph);
    let ghost universe = nodes@.to_set();
    proof {
        vstd::seq_lib::seq_to_set_is_finite(nodes@);
    }
    let mut visited: BTreeSet<u128> = BTreeSet::new();
    let mut order: Vec<u128> = Vec::new();
    let entries = sorted_set_items(&graph.exterior_entries);
    let mut e: usize = 0;
    while e < entries.len()
        invariant
            e <= entries.len(),
            entries@.to_set() == g.entries,
            g == graph@,
            g.entries.subset_of(universe),
            visited@ == order@.to_set(),
            order@.no_duplicates(),
            forall|m: int| 0 <= m < e ==> visited@.contains(#[trigger] entries@[m]),
            forall|v: u128| visited@.contains(v) ==> reachable(g, v),
            visited@.subset_of(universe),
        decreases entries.len() - e,
    {
        let room = entries[e];
        assert(entries@.to_set().contains(room));
        assert(reached_within(g, room, 0));
        let ghost prior = order@;
        if visited.insert(room) {
            order.push(room);
            proof {
                assert(order@ == prior.push(room));
                prior.lemma_push_to_set_commute(room);
                assert forall|a: int, b: int| 0 <= a < b < order@.len() implies order@[a] != order@[b] by {
                    if b == order@.len() - 1 {
                        assert(prior.to_set().contains(prior[a]));
                    }
                }
            }
        }
        e = e + 1;
    }
    proof {
        assert forall|r: u128| g.entries.contains(r) implies visited@.contains(r) by {
            let m = choose|m: int| 0 <= m < entries@.len() && entries@[m] == r;
        }
    }
    let ghost bound = universe.len();
    let mut head: usize = 0;
    while head < order.len()
        invariant
            g == graph@,
            universe.finite(),
            bound == universe.len(),
            forall|p: u128, w: u128| #[trigger] g.adjacency.contains_key(p) && #[trigger] g.adjacency[p].contains(w)
                ==> universe.contains(w),
            head <= order@.len(),
            visited@ == order@.to_set(),
            order@.no_duplicates(),
            visited@.subset_of(universe),
            g.entries.subset_of(visited@),
            forall|v: u128| visited@.contains(v) ==> reachable(g, v),
            forall|k: int, w: u128| 0 <= k < head && g.adjacency.contains_key(order@[k])
                && #[trigger] g.adjacency[order@[k]].contains(w) ==> visited@.contains(w),
        decreases bound - head,
    {
        proof {
            order@.unique_seq_to_set();
            vstd::set_lib::lemma_len_subset(visited@, universe);
        }
        let room = order[head];
        assert(order@.to_set().contains(room));
        match graph.adjacency.get(&room) {
            None => {
                assert(!g.adjacency.contains_key(room));
            },
            Some(neighbors) => {
                assert(g.adjacency.contains_key(room));
                assert(g.adjacency[room] == neighbors@);
                let items = sorted_set_items(neighbors);
                let mut j: usize = 0;
                while j < items.len()
                    invariant
                        j <= items.len(),
                        head < order@.len(),
                        order@[head as int] == room,
                        items@.to_set() == g.adjacency[room],
                        g.adjacency.contains_key(room),
                        reachable(g, room),
                        g == graph@,
                        forall|p: u128, w: u128| #[trigger] g.adjacency.contains_key(p) && #[trigger] g.adjacency[p].contains(w)
                            ==> universe.contains(w),
                        visited@ == order@.to_set(),
                        order@.no_duplicates(),
                        visited@.subset_of(universe),
                        g.entries.subset_of(visited@),
                        forall|v: u128| visited@.contains(v) ==> reachable(g, v),
                        forall|k: int, w: u128| 0 <= k < head && g.adjacency.contains_key(order@[k])
                            && #[trigger] g.adjacency[order@[k]].contains(w) ==> visited@.contains(w),
                        forall|m: int| 0 <= m < j ==> visited@.contains(#[trigger] items@[m]),
                    decreases items.len() - j,
                {
                    let neighbor = items[j];
                    assert(items@.to_set().contains(neighbor));
                    proof {
                        lemma_reached_step(g, room, neighbor);
                    }
                    let ghost prior = order@;
                    if visited.insert(neighbor) {
                        order.push(neighbor);
                        proof {
                            assert(order@ == prior.push(neighbor));
                            prior.lemma_push_to_set_commute(neighbor);
                            assert forall|a: int, b: int| 0 <= a < b < order@.len() implies order@[a] != order@[b] by {
                                if b == order@.len() - 1 {
                                    assert(prior.to_set().contains(prior[a]));
                                }
                            }
                            assert forall|k: int| 0 <= k < head implies order@[k] == prior[k] by {}
                        }
                    }
                    j = j + 1;
                }
                proof {
                    assert forall|w: u128| #[trigger] g.adjacency[room].contains(w) implies visited@.contains(w) by {
                        assert(items@.to_set().contains(w));
                        let m = choose|m: int| 0 <= m < items@.len() && items@[m] == w;
                    }
                }
            },
        }
        head = head + 1;
    }
    proof {
        assert forall|p: u128, w: u128| #[trigger] visited@.contains(p) && g.adjacency.contains_key(p)
            && #[trigger] g.adjacency[p].contains(w) implies visited@.contains(w) by {
            assert(order@.to_set().contains(p));
            let k = choose|k: int| 0 <= k < order@.len() && order@[k] == p;
        }
        assert forall|r: u128| reachable(g, r) implies visited@.contains(r) by {
            let n = choose|n: nat| reached_within(g, r, n);
            lemma_closed_holds_reached(g, visited@, r, n);
        }
    }
    let keys = sorted_map_keys(&graph.adjacency);
    let ghost dom = g.adjacency.dom();
    assert(graph.adjacency@.dom() =~= dom);
    let mut rooms: Vec<u128> = Vec::new();
    let mut i: usize = 0;
    while i < keys.len()
        invariant
            i <= keys.len(),
            keys@ == sorted_ids(dom),
            dom == g.adjacency.dom(),
            g == graph@,
            forall|r: u128| reachable(g, r) <==> visited@.contains(r),
            rooms@ == unreachable_rooms(g, keys@, i as nat),
        decreases keys.len() - i,
    {
        let key = keys[i];
        if !visited.contains(&key) {
            rooms.push(key);
        }
        i = i + 1;
    }
    proof {
        assert(keys@.no_duplicates());
        keys@.unique_seq_to_set();
    }
    rooms
}


/// Whether an opening lets a person pass between rooms `a` and `b`.
pub open spec fn opening_links(opening: OpeningPlan, a: u128, b: u128) -> bool {
    &&& (opening.kind is Door || opening.kind is Passage)
    &&& ((opening.from == SpaceRef::Room(a) && opening.to == SpaceRef::Room(b)) || (opening.from
        == SpaceRef::Room(b) && opening.to == SpaceRef::Room(a)))
}

/// Whether a stair joins rooms `a` and `b`.
pub open spec fn stair_links(stair: StairPlan, a: u128, b: u128) -> bool {
    (stair.from_room == a && stair.to_room == b) || (stair.from_room == b && stair.to_room == a)
}

/// Whether one of the first `n_openings` openings or the first `n_stairs`
/// stairs joins rooms `a` and `b`.
pub open spec fn linked(
    openings: Seq<OpeningPlan>,
    stairs: Seq<StairPlan>,
    n_openings: int,
    n_stairs: int,
    a: u128,
    b: u128,
) -> bool {
    ||| exists|k: int| 0 <= k < n_openings && #[trigger] opening_links(openings[k], a, b)
    ||| exists|k: int| 0 <= k < n_stairs && #[trigger] stair_links(stairs[k], a, b)
}

/// The rooms of the levels.
pub open spec fn level_rooms(levels: Seq<super::plan::LevelView>) -> Set<u128> {
    Set::new(|id: u128| exists|i: int| 0 <= i < levels.len() && #[trigger] super::plan::level_has_room(levels[i], id))
}

/// The adjacency that the rooms and the first openings and stairs give:
/// every room, and every room that an opening or stair joins, with the rooms
/// it is joined to.
pub open spec fn adjacency_within(
    levels: Seq<super::plan::LevelView>,
    openings: Seq<OpeningPlan>,
    stairs: Seq<StairPlan>,
    n_openings: int,
    n_stairs: int,
) -> Map<u128, Set<u128>> {
    Map::new(
        |a: u128| level_rooms(levels).contains(a) || exists|b: u128| #[trigger] linked(openings, stairs, n_openings, n_stairs, a, b),
        |a: u128| Set::new(|b: u128| linked(openings, stairs, n_openings, n_stairs, a, b)),
    )
}

/// Whether an opening lets a person pass between room `r` and outside.
pub open spec fn opening_enters(opening: OpeningPlan, r: u128) -> bool {
    &&& (opening.kind is Door || opening.kind is Passage)
    &&& ((opening.from == SpaceRef::Exterior && opening.to == SpaceRef::Room(r)) || (opening.from
        == SpaceRef::Room(r) && opening.to == SpaceRef::Exterior))
}

/// The rooms that one of the first `n` openings lets a person enter from outside.
pub open spec fn entries_within(openings: Seq<OpeningPlan>, n: int) -> Set<u128> {
    Set::new(|r: u128| exists|k: int| 0 <= k < n && #[trigger] opening_enters(openings[k], r))
}

/// The room graph of a blueprint.
pub open spec fn plan_room_graph(plan: super::plan::PlanView) -> GraphView {
    GraphView {
        adjacency: adjacency_within(plan.levels, plan.openings, plan.stairs, plan.openings.len() as int, plan.stairs.len() as int),
        entries: entries_within(plan.openings, plan.openings.len() as int),
    }
}

pub open spec fn view_adjacency(m: Map<u128, BTreeSet<u128>>) -> Map<u128, Set<u128>> {
    m.map_values(|s: BTreeSet<u128>| s@)
}

/// Whether an adjacency holds exactly the given rooms and the rooms that
/// `linked` joins, each with the rooms that `linked` joins it to.
pub open spec fn represents(m: Map<u128, Set<u128>>, rooms: Set<u128>, linked: spec_fn(u128, u128) -> bool) -> bool {
    &&& forall|a: u128| #[trigger] m.contains_key(a) <==> (rooms.contains(a) || exists|b: u128| #[trigger] linked(a, b))
    &&& forall|a: u128| #[trigger] m.contains_key(a) ==> m[a] == Set::new(|b: u128| linked(a, b))
}

/// Adds `b` to the rooms joined to `a`.
fn add_link(adjacency: &mut BTreeMap<u128, BTreeSet<u128>>, a: u128, b: u128)
    ensures
        view_adjacency(final(adjacency)@) == view_adjacency(old(adjacency)@).insert(
            a,
            (if view_adjacency(old(adjacency)@).contains_key(a) {
                view_adjacency(old(adjacency)@)[a]
            } else {
                Set::empty()
            }).insert(b),
        ),
{
    let ghost before = view_adjacency(adjacency@);
    let mut set = match adjacency.remove(&a) {
        Some(set) => set,
        None => BTreeSet::new(),
    };
    set.insert(b);
    adjacency.insert(a, set);
    assert(view_adjacency(adjacency@) =~= before.insert(
        a,
        (if before.contains_key(a) {
            before[a]
        } else {
            Set::empty()
        }).insert(b),
    ));
}

pub open spec fn with_link(m: Map<u128, Set<u128>>, a: u128, b: u128) -> Map<u128, Set<u128>> {
    m.insert(a, (if m.contains_key(a) { m[a] } else { Set::empty() }).insert(b))
}

/// Joining `a` and `b` both ways keeps an adjacency representing the
/// relation with the pair added.
proof fn lemma_join(
    m: Map<u128, Set<u128>>,
    rooms: Set<u128>,
    before: spec_fn(u128, u128) -> bool,
    after: spec_fn(u128, u128) -> bool,
    a: u128,
    b: u128,
)
    requires
        represents(m, rooms, before),
        forall|x: u128, y: u128| #[trigger] after(x, y) == (before(x, y) || (x == a && y == b) || (x == b && y == a)),
    ensures
        represents(with_link(with_link(m, a, b), b, a), rooms, after),
{
    let m2 = with_link(with_link(m, a, b), b, a);
    assert forall|x: u128| #[trigger] m2.contains_key(x) <==> (rooms.contains(x) || exists|y: u128| #[trigger] after(x, y)) by {
        if m2.contains_key(x) && !rooms.contains(x) {
            if x == a {
                assert(after(a, b));
            } else if x == b {
                assert(after(b, a));
            } else {
                let y = choose|y: u128| #[trigger] before(x, y);
                assert(after(x, y));
            }
        }
        if exists|y: u128| #[trigger] after(x, y) {
            let y = choose|y: u128| #[trigger] after(x, y);
            if !(x == a || x == b) {
                assert(before(x, y));
            }
        }
    }
    assert forall|x: u128| #[trigger] m2.contains_key(x) implies m2[x] == Set::new(|y: u128| after(x, y)) by {
        if x != a && x != b {
            assert(m2[x] =~= Set::new(|y: u128| after(x, y)));
        } else {
            if m.contains_key(x) {
                assert(m2[x] =~= Set::new(|y: u128| after(x, y)));
            } else {
                assert forall|y: u128| !#[trigger] before(x, y) by {
                    if before(x, y) {
                        assert(m.contains_key(x));
                    }
                }
                assert(m2[x] =~= Set::new(|y: u128| after(x, y)));
            }
        }
    }
}

/// The room graph of a blueprint: every room, with the rooms that a
/// passable opening or a stair joins it to, and the rooms that a passable
/// opening lets a person enter from outside.
pub fn room_graph(plan: &BlueprintPlan) -> (graph: RoomGraph)
    ensures
        graph@ == plan_room_graph(plan@),
{
    let ghost levels = plan@.levels;
    let ghost openings = plan@.openings;
    let ghost stairs = plan@.stairs;
    let ghost rooms_of_levels = level_rooms(levels);
    let mut adjacency: BTreeMap<u128, BTreeSet<u128>> = BTreeMap::new();
    let mut i: usize = 0;
    while i < plan.levels.len()
        invariant
            i <= plan.levels.len(),
            levels == plan@.levels,
            forall|a: u128| #[trigger] view_adjacency(adjacency@).contains_key(a) <==> exists|x: int|
                0 <= x < i && #[trigger] super::plan::level_has_room(levels[x], a),
            forall|a: u128| #[trigger] view_adjacency(adjacency@).contains_key(a) ==> view_adjacency(adjacency@)[a]
                == Set::<u128>::empty(),
        decreases plan.levels.len() - i,
    {
        let rooms = &plan.levels[i].rooms;
        let ghost before = view_adjacency(adjacency@);
        let mut j: usize = 0;
        while j < rooms.len()
            invariant
                j <= rooms.len(),
                i < plan.levels.len(),
                levels == plan@.levels,
                rooms@ == levels[i as int].rooms,
                forall|a: u128| #[trigger] view_adjacency(adjacency@).contains_key(a) <==> (before.contains_key(a)
                    || exists|y: int| 0 <= y < j && #[trigger] rooms@[y].id == a),
                forall|a: u128| #[trigger] view_adjacency(adjacency@).contains_key(a) ==> view_adjacency(adjacency@)[a]
                    == Set::<u128>::empty(),
            decreases rooms.len() - j,
        {
            let id = rooms[j].id;
            let ghost prior = adjacency@;
            if !adjacency.contains_key(&id) {
                let empty: BTreeSet<u128> = BTreeSet::new();
                assert(empty@ == Set::<u128>::empty());
                adjacency.insert(id, empty);
                assert(view_adjacency(adjacency@) =~= view_adjacency(prior).insert(id, Set::<u128>::empty()));
            }
            proof {
                assert(rooms@[j as int].id == id);
                assert forall|a: u128| #[trigger] view_adjacency(adjacency@).contains_key(a) <==> (before.contains_key(a)
                    || exists|y: int| 0 <= y < j + 1 && #[trigger] rooms@[y].id == a) by {
                    if exists|y: int| 0 <= y < j + 1 && #[trigger] rooms@[y].id == a {
                        let y = choose|y: int| 0 <= y < j + 1 && #[trigger] rooms@[y].id == a;
                        if y < j {
                        }
                    }
                }
            }
            j = j + 1;
        }
        proof {
            assert forall|a: u128| #[trigger] view_adjacency(adjacency@).contains_key(a) <==> exists|x: int|
                0 <= x < i + 1 && #[trigger] super::plan::level_has_room(levels[x], a) by {
                if view_adjacency(adjacency@).contains_key(a) && !before.contains_key(a) {
                    let y = choose|y: int| 0 <= y < rooms@.len() && #[trigger] rooms@[y].id == a;
                    assert(levels[i as int].rooms[y].id == a);
                    assert(super::plan::level_has_room(levels[i as int], a));
                }
                if exists|x: int| 0 <= x < i + 1 && #[trigger] super::plan::level_has_room(levels[x], a) {
                    let x = choose|x: int| 0 <= x < i + 1 && #[trigger] super::plan::level_has_room(levels[x], a);
                    if x == i {
                        let y = choose|y: int| 0 <= y < levels[i as int].rooms.len() && #[trigger] levels[i as int].rooms[y].id == a;
                        assert(rooms@[y].id == a);
                    }
                }
            }
        }
        i = i + 1;
    }
    proof {
        let m = view_adjacency(adjacency@);
        let rel = |x: u128, y: u128| linked(openings, stairs, 0, 0, x, y);
        assert forall|a: u128, b: u128| !#[trigger] rel(a, b) by {}
        assert forall|a: u128| #[trigger] m.contains_key(a) <==> (rooms_of_levels.contains(a)
            || exists|b: u128| #[trigger] rel(a, b)) by {
        }
        assert forall|a: u128| #[trigger] m.contains_key(a) implies m[a] == Set::new(|b: u128| rel(a, b)) by {
            assert(Set::new(|b: u128| rel(a, b)) =~= Set::<u128>::empty());
        }
        assert(represents(m, rooms_of_levels, rel));
    }
    let mut entries: BTreeSet<u128> = BTreeSet::new();
    let mut k: usize = 0;
    while k < plan.openings.len()
        invariant
            k <= plan.openings.len(),
            levels == plan@.levels,
            openings == plan@.openings,
            stairs == plan@.stairs,
            rooms_of_levels == level_rooms(levels),
            represents(view_adjacency(adjacency@), rooms_of_levels, |x: u128, y: u128| linked(openings, stairs, k as int, 0, x, y)),
            entries@ == entries_within(openings, k as int),
        decreases plan.openings.len() - k,
    {
        let opening = plan.openings[k];
        let ghost before = view_adjacency(adjacency@);
        assert(openings[k as int] == opening);
        if opening.is_traversable() {
            match (opening.from, opening.to) {
                (SpaceRef::Room(left), SpaceRef::Room(right)) => {
                    add_link(&mut adjacency, left, right);
                    add_link(&mut adjacency, right, left);
                    proof {
                        assert(view_adjacency(adjacency@) == with_link(with_link(before, left, right), right, left));
                        assert forall|x: u128, y: u128| #[trigger] linked(openings, stairs, k + 1, 0, x, y) == (linked(openings, stairs, k as int, 0, x, y)
                            || (x == left && y == right) || (x == right && y == left)) by {
                            if (x == left && y == right) || (x == right && y == left) {
                                assert(opening_links(openings[k as int], x, y));
                            }
                            if linked(openings, stairs, k + 1, 0, x, y) && !linked(openings, stairs, k as int, 0, x, y) {
                                let z = choose|z: int| 0 <= z < k + 1 && #[trigger] opening_links(openings[z], x, y);
                                assert(z == k);
                            }
                        }
                        lemma_join(
                            before,
                            rooms_of_levels,
                            |x: u128, y: u128| linked(openings, stairs, k as int, 0, x, y),
                            |x: u128, y: u128| linked(openings, stairs, k + 1, 0, x, y),
                            left,
                            right,
                        );
                    }
                },
                (SpaceRef::Exterior, SpaceRef::Room(room)) => {
                    entries.insert(room);
                },
                (SpaceRef::Room(room), SpaceRef::Exterior) => {
                    entries.insert(room);
                },
                (SpaceRef::Exterior, SpaceRef::Exterior) => {},
            }
        }
        proof {
            if !((opening.kind is Door || opening.kind is Passage) && opening.from is Room && opening.to is Room) {
                assert forall|x: u128, y: u128| #[trigger] linked(openings, stairs, k + 1, 0, x, y) == linked(openings, stairs, k as int, 0, x, y) by {
                    if linked(openings, stairs, k + 1, 0, x, y) {
                        if exists|z: int| 0 <= z < k + 1 && #[trigger] opening_links(openings[z], x, y) {
                            let z = choose|z: int| 0 <= z < k + 1 && #[trigger] opening_links(openings[z], x, y);
                            assert(z != k);
                        }
                    }
                }
                assert(view_adjacency(adjacency@) == before);
                assert((|x: u128, y: u128| linked(openings, stairs, k + 1, 0, x, y)) =~= (|x: u128, y: u128| linked(openings, stairs, k as int, 0, x, y)));
            }
            assert forall|r: u128| #[trigger] entries@.contains(r) == entries_within(openings, k + 1).contains(r) by {
                if opening_enters(opening, r) {
                    assert(opening_enters(openings[k as int], r));
                }
                if entries_within(openings, k + 1).contains(r) && !opening_enters(opening, r) {
                    let x = choose|x: int| 0 <= x < k + 1 && #[trigger] opening_enters(openings[x], r);
                    assert(x < k);
                }
            }
            assert(entries@ =~= entries_within(openings, k + 1));
        }
        k = k + 1;
    }
    let ghost n = openings.len() as int;
    let mut s: usize = 0;
    while s < plan.stairs.len()
        invariant
            s <= plan.stairs.len(),
            levels == plan@.levels,
            openings == plan@.openings,
            stairs == plan@.stairs,
            n == openings.len(),
            rooms_of_levels == level_rooms(levels),
            represents(view_adjacency(adjacency@), rooms_of_levels, |x: u128, y: u128| linked(openings, stairs, n, s as int, x, y)),
        decreases plan.stairs.len() - s,
    {
        let stair = plan.stairs[s];
        let ghost before = view_adjacency(adjacency@);
        assert(stairs[s as int] == stair);
        add_link(&mut adjacency, stair.from_room, stair.to_room);
        add_link(&mut adjacency, stair.to_room, stair.from_room);
        proof {
            let a = stair.from_room;
            let b = stair.to_room;
            assert(view_adjacency(adjacency@) == with_link(with_link(before, a, b), b, a));
            assert forall|x: u128, y: u128| #[trigger] linked(openings, stairs, n, s + 1, x, y) == (linked(openings, stairs, n, s as int, x, y)
                || (x == a && y == b) || (x == b && y == a)) by {
                if (x == a && y == b) || (x == b && y == a) {
                    assert(stair_links(stairs[s as int], x, y));
                }
                if linked(openings, stairs, n, s + 1, x, y) && !linked(openings, stairs, n, s as int, x, y) {
                    let z = choose|z: int| 0 <= z < s + 1 && #[trigger] stair_links(stairs[z], x, y);
                    assert(z == s);
                }
            }
            lemma_join(
                before,
                rooms_of_levels,
                |x: u128, y: u128| linked(openings, stairs, n, s as int, x, y),
                |x: u128, y: u128| linked(openings, stairs, n, s + 1, x, y),
                a,
                b,
            );
        }
        s = s + 1;
    }
    proof {
        let target = adjacency_within(levels, openings, stairs, n, stairs.len() as int);
        let m = view_adjacency(adjacency@);
        let rel = |x: u128, y: u128| linked(openings, stairs, n, s as int, x, y);
        assert(represents(m, rooms_of_levels, rel));
        assert forall|a: u128| #[trigger] m.contains_key(a) <==> target.contains_key(a) by {
            if exists|b: u128| #[trigger] rel(a, b) {
                let b = choose|b: u128| #[trigger] rel(a, b);
                assert(linked(openings, stairs, n, stairs.len() as int, a, b));
            }
            if exists|b: u128| #[trigger] linked(openings, stairs, n, stairs.len() as int, a, b) {
                let b = choose|b: u128| #[trigger] linked(openings, stairs, n, stairs.len() as int, a, b);
                assert(rel(a, b));
            }
        }
        assert forall|a: u128| #[trigger] m.contains_key(a) implies m[a] == target[a] by {
            assert(m[a] =~= target[a]);
        }
        assert(m =~= target);
    }
    RoomGraph { adjacency, exterior_entries: entries }
}


/// A passage of the blueprint: an opening, the spaces it joins, and whether
/// a person can pass through it.
#[derive(Clone, Copy, Debug, PartialEq, Eq, Structural)]
pub struct PortalEdge {
    pub opening_id: u128,
    pub from: SpaceRef,
    pub to: SpaceRef,
    pub traversable: bool,
}

pub open spec fn portal_of(opening: OpeningPlan) -> PortalEdge {
    PortalEdge {
        opening_id: opening.id,
        from: opening.from,
        to: opening.to,
        traversable: opening.kind is Door || opening.kind is Passage,
    }
}

pub open spec fn opening_key(opening: OpeningPlan) -> u128 {
    opening.id
}

/// The blueprint's portal edges: one per opening, in the order of opening
/// identity, openings that share an identity in the order they are listed.
pub open spec fn portal_edges_of(openings: Seq<OpeningPlan>) -> Seq<PortalEdge> {
    sorted_by(openings, |o: OpeningPlan| opening_key(o)).map_values(|o: OpeningPlan| portal_of(o))
}

/// The blueprint's portal edges, one per opening, in the order of opening
/// identity.
pub fn portal_edges(openings: &Vec<OpeningPlan>) -> (edges: Vec<PortalEdge>)
    ensures
        edges@ == portal_edges_of(openings@),
{
    let mut keys: Vec<u128> = Vec::new();
    let mut i: usize = 0;
    while i < openings.len()
        invariant
            i <= openings.len(),
            keys@ == keys_of(openings@.take(i as int), |o: OpeningPlan| opening_key(o)),
        decreases openings.len() - i,
    {
        keys.push(openings[i].id);
        assert(openings@.take(i + 1) =~= openings@.take(i as int).push(openings@[i as int]));
        i = i + 1;
    }
    assert(openings@.take(openings.len() as int) =~= openings@);
    let order = order_by_key(&keys);
    proof {
        assert(keys@.len() == keys.len());
        lemma_key_order(keys@, keys@.len());
    }
    let ghost sorted = pick(openings@, order@);
    assert(sorted == sorted_by(openings@, |o: OpeningPlan| opening_key(o)));
    let mut edges: Vec<PortalEdge> = Vec::new();
    let mut k: usize = 0;
    while k < order.len()
        invariant
            k <= order.len(),
            order.len() == openings.len(),
            forall|x: int| 0 <= x < order.len() ==> (#[trigger] order@[x]) < openings.len(),
            sorted == pick(openings@, order@),
            edges@ == sorted.take(k as int).map_values(|o: OpeningPlan| portal_of(o)),
        decreases order.len() - k,
    {
        let opening = openings[order[k]];
        assert(opening == sorted[k as int]);
        edges.push(
            PortalEdge {
                opening_id: opening.id,
                from: opening.from,
                to: opening.to,
                traversable: opening.is_traversable(),
            },
        );
        assert(sorted.take(k + 1).map_values(|o: OpeningPlan| portal_of(o)) =~= sorted.take(k as int).map_values(
            |o: OpeningPlan| portal_of(o),
        ).push(portal_of(opening)));
        k = k + 1;
    }
    assert(sorted.take(order.len() as int) =~= sorted);
    edges
}

/// Why the structure of a blueprint could not be compiled.
#[derive(Clone, Debug)]
pub enum CompileError {
    Validation(ValidationReport),
    EmptyBuilding,
}

/// The structural part of a compiled building.
#[derive(Clone, Debug)]
pub struct StructureCompilation {
    pub building_id: u128,
    pub blueprint_revision: u64,
    pub room_graph: RoomGraph,
    pub portal_edges: Vec<PortalEdge>,
}

/// Whether a blueprint has anything to build: a room, a wall on one of its
/// levels, or a roof.
pub open spec fn has_extent(plan: PlanView) -> bool {
    ||| exists|i: int| 0 <= i < plan.levels.len() && (#[trigger] plan.levels[i]).rooms.len() > 0
    ||| exists|i: int, w: int| 0 <= i < plan.levels.len() && 0 <= w < plan.walls.len()
        && #[trigger] plan.walls[w].level_id == #[trigger] plan.levels[i].id
    ||| plan.roofs.len() > 0
}

fn blueprint_has_extent(plan: &BlueprintPlan) -> (extent: bool)
    ensures
        extent == has_extent(plan@),
{
    if plan.roofs.len() > 0 {
        return true;
    }
    let ghost levels = plan@.levels;
    let mut i: usize = 0;
    while i < plan.levels.len()
        invariant
            i <= plan.levels.len(),
            levels == plan@.levels,
            plan.roofs.len() == 0,
            forall|x: int| 0 <= x < i ==> (#[trigger] levels[x]).rooms.len() == 0,
            forall|x: int, w: int| 0 <= x < i && 0 <= w < plan.walls.len() ==> #[trigger] plan.walls@[w].level_id
                != #[trigger] levels[x].id,
        decreases plan.levels.len() - i,
    {
        let level = &plan.levels[i];
        assert(level@ == levels[i as int]);
        if level.rooms.len() > 0 {
            return true;
        }
        let mut w: usize = 0;
        while w < plan.walls.len()
            invariant
                w <= plan.walls.len(),
                i < plan.levels.len(),
                levels == plan@.levels,
                level@ == levels[i as int],
                forall|v: int| 0 <= v < w ==> #[trigger] plan.walls@[v].level_id != level.id,
            decreases plan.walls.len() - w,
        {
            if plan.walls[w].level_id == level.id {
                assert(plan@.walls[w as int].level_id == plan@.levels[i as int].id);
                return true;
            }
            w = w + 1;
        }
        i = i + 1;
    }
    false
}

/// The errors of the rooms that no entry reaches.
pub open spec fn inaccessible_errors(rooms: Seq<u128>) -> Seq<BuildingError> {
    rooms.map_values(|r: u128| BuildingError::InaccessibleRoom(r))
}

/// Compiles a blueprint's structure: it must validate, every room must be
/// reached from an entry, and it must have something to build. The result
/// is its room graph and its portal edges.
pub fn compile_structure(plan: &BlueprintPlan) -> (result: Result<StructureCompilation, CompileError>)
    ensures
        ({
            let errors = blueprint_errors(plan@);
            let graph = plan_room_graph(plan@);
            let unreached = unreachable_rooms(graph, sorted_ids(graph.adjacency.dom()), graph.adjacency.dom().len());
            if errors.len() > 0 {
                result matches Err(CompileError::Validation(report)) && report.errors@ == errors
            } else if unreached.len() > 0 {
                result matches Err(CompileError::Validation(report)) && report.errors@ == inaccessible_errors(unreached)
            } else if !has_extent(plan@) {
                result matches Err(CompileError::EmptyBuilding)
            } else {
                result matches Ok(compiled) && {
                    &&& compiled.building_id == plan.id
                    &&& compiled.blueprint_revision == plan.revision
                    &&& compiled.room_graph@ == graph
                    &&& compiled.portal_edges@ == portal_edges_of(plan@.openings)
                }
            }
        }),
{
    match validate_blueprint(plan) {
        Ok(()) => {},
        Err(report) => {
            return Err(CompileError::Validation(report));
        },
    }
    let graph = room_graph(plan);
    let unreached = inaccessible_rooms(&graph);
    if unreached.len() > 0 {
        let mut errors: Vec<BuildingError> = Vec::new();
        let mut i: usize = 0;
        while i < unreached.len()
            invariant
                i <= unreached.len(),
                errors@ == inaccessible_errors(unreached@.take(i as int)),
            decreases unreached.len() - i,
        {
            errors.push(BuildingError::InaccessibleRoom(unreached[i]));
            assert(inaccessible_errors(unreached@.take(i + 1)) =~= inaccessible_errors(unreached@.take(i as int)).push(
                BuildingError::InaccessibleRoom(unreached@[i as int]),
            ));
            i = i + 1;
        }
        assert(unreached@.take(unreached.len() as int) =~= unreached@);
        return Err(CompileError::Validation(ValidationReport::new(errors)));
    }
    if !blueprint_has_extent(plan) {
        return Err(CompileError::EmptyBuilding);
    }
    let edges = portal_edges(&plan.openings);
    Ok(
        StructureCompilation {
            building_id: plan.id,
            blueprint_revision: plan.revision,
            room_graph: graph,
            portal_edges: edges,
        },
    )
}


/// The room graph does not depend on the order in which the blueprint
/// lists its levels, rooms, openings and stairs: two blueprints with the
/// same rooms, the same openings and the same stairs have the same graph.
pub proof fn lemma_room_graph_ignores_order(p: PlanView, q: PlanView)
    requires
        level_rooms(p.levels) == level_rooms(q.levels),
        p.openings.to_set() == q.openings.to_set(),
        p.stairs.to_set() == q.stairs.to_set(),
    ensures
        plan_room_graph(p) == plan_room_graph(q),
{
    assert forall|a: u128, b: u128|
        linked(p.openings, p.stairs, p.openings.len() as int, p.stairs.len() as int, a, b)
            == linked(q.openings, q.stairs, q.openings.len() as int, q.stairs.len() as int, a, b) by {
        lemma_linked_follows(p, q, a, b);
        lemma_linked_follows(q, p, a, b);
    }
    let gp = plan_room_graph(p);
    let gq = plan_room_graph(q);
    assert(gp.adjacency.dom() =~= gq.adjacency.dom());
    assert forall|a: u128| #[trigger] gp.adjacency.contains_key(a) implies gp.adjacency[a] == gq.adjacency[a] by {
        assert(gp.adjacency[a] =~= gq.adjacency[a]);
    }
    assert(gp.adjacency =~= gq.adjacency);
    assert forall|r: u128| gp.entries.contains(r) == gq.entries.contains(r) by {
        if gp.entries.contains(r) {
            let k = choose|k: int| 0 <= k < p.openings.len() && #[trigger] opening_enters(p.openings[k], r);
            assert(p.openings.to_set().contains(p.openings[k]));
            let j = choose|j: int| 0 <= j < q.openings.len() && q.openings[j] == p.openings[k];
            assert(opening_enters(q.openings[j], r));
        }
        if gq.entries.contains(r) {
            let k = choose|k: int| 0 <= k < q.openings.len() && #[trigger] opening_enters(q.openings[k], r);
            assert(q.openings.to_set().contains(q.openings[k]));
            let j = choose|j: int| 0 <= j < p.openings.len() && p.openings[j] == q.openings[k];
            assert(opening_enters(p.openings[j], r));
        }
    }
    assert(gp.entries =~= gq.entries);
}

proof fn lemma_linked_follows(p: PlanView, q: PlanView, a: u128, b: u128)
    requires
        p.openings.to_set() == q.openings.to_set(),
        p.stairs.to_set() == q.stairs.to_set(),
    ensures
        linked(p.openings, p.stairs, p.openings.len() as int, p.stairs.len() as int, a, b) ==> linked(
            q.openings,
            q.stairs,
            q.openings.len() as int,
            q.stairs.len() as int,
            a,
            b,
        ),
{
    if !linked(p.openings, p.stairs, p.openings.len() as int, p.stairs.len() as int, a, b) {
    } else if exists|k: int| 0 <= k < p.openings.len() && #[trigger] opening_links(p.openings[k], a, b) {
        let k = choose|k: int| 0 <= k < p.openings.len() && #[trigger] opening_links(p.openings[k], a, b);
        assert(p.openings.to_set().contains(p.openings[k]));
        let j = choose|j: int| 0 <= j < q.openings.len() && q.openings[j] == p.openings[k];
        assert(opening_links(q.openings[j], a, b));
    } else {
        let k = choose|k: int| 0 <= k < p.stairs.len() && #[trigger] stair_links(p.stairs[k], a, b);
        assert(p.stairs.to_set().contains(p.stairs[k]));
        let j = choose|j: int| 0 <= j < q.stairs.len() && q.stairs[j] == p.stairs[k];
        assert(stair_links(q.stairs[j], a, b));
    }
}

} // verus!
