use world_prototype::authority::model::{AuthorityCommand, ItemOwner, WorldRevision};
use world_prototype::authority::scenario::{
    baseline_world, dedup_route_cells, route_endpoints, scenario_ids, ScenarioCommandFactory,
    ScenarioError,
};
use world_prototype::ids::HexCoord;

fn ids() -> world_prototype::authority::scenario::ScenarioIds {
    scenario_ids(0x4000_0001, HexCoord::new(0, 0), HexCoord::new(3, -2), 0x7000_0001, None)
}

#[test]
fn command_factory_produces_stable_monotonic_sequences() {
    let ids = ids();
    let mut factory = ScenarioCommandFactory::new(
        ids.player_a,
        ids.client_a,
        ids.session_a,
        ids.world_id,
        0x5000_0000_0000_0000,
    );
    let first = factory.envelope(
        AuthorityCommand::Connect {
            last_acknowledged_revision: WorldRevision(0),
            interest_center: ids.start_cell,
        },
        None,
        None,
        "connect".to_owned(),
    );
    let second = factory.envelope(AuthorityCommand::Disconnect, None, None, "disconnect".to_owned());
    assert_eq!(first.audit.request_sequence, 0);
    assert_eq!(second.audit.request_sequence, 1);
    assert_ne!(first.command_id, second.command_id);
}

#[test]
fn command_ids_count_up_from_the_namespace_and_ticks_from_one() {
    let mut factory = ScenarioCommandFactory::new(1, 2, 3, 4, 0x5000_0000_0000_0000);
    let first = factory.envelope(AuthorityCommand::Disconnect, None, None, "a".to_owned());
    let second = factory.envelope(AuthorityCommand::LeaveBuilding, None, None, "b".to_owned());
    assert_eq!(first.command_id, 0x5000_0000_0000_0001);
    assert_eq!(second.command_id, 0x5000_0000_0000_0002);
    assert_eq!(first.issued_at.ticks, 1);
    assert_eq!(second.issued_at.ticks, 2);
    assert_eq!(factory.next_sequence(), 2);
    assert_eq!(first.audit.trace_label, "a");
    assert_eq!(first.schema_version.0, 1);

    let mut wrapping = ScenarioCommandFactory::new(1, 2, 3, 4, u128::MAX);
    let wrapped = wrapping.envelope(AuthorityCommand::Disconnect, None, None, "w".to_owned());
    assert_eq!(wrapped.command_id, 0);
}

#[test]
fn fixture_ids_fall_back_to_a_fixed_start_building() {
    assert_eq!(ids().start_building, 0x5000_0001);
    let with_region = scenario_ids(1, HexCoord::new(0, 0), HexCoord::new(1, 0), 2, Some(0xabc));
    assert_eq!(with_region.start_building, 0xabc);
    assert_eq!(with_region.player_a, 0x5000_00a1);
    assert_eq!(with_region.destination_building, 0x5000_0d57);
}

#[test]
fn route_cells_lose_their_repeats() {
    let a = HexCoord::new(0, 0);
    let b = HexCoord::new(1, 0);
    let c = HexCoord::new(1, 1);
    assert_eq!(dedup_route_cells(&vec![a, a, b, b, b, a, c, c]), vec![a, b, a, c]);
    assert_eq!(route_endpoints(&vec![a, a, b, c, c]), Ok((a, c)));
    assert_eq!(route_endpoints(&vec![]), Err(ScenarioError::MissingRoute));
}

#[test]
fn baseline_uses_p4_world_identity_and_route() {
    let ids = ids();
    let a = HexCoord::new(0, 0);
    let b = HexCoord::new(1, -1);
    let world = baseline_world(&ids, &vec![(ids.route_id, vec![a, a, b]), (5, vec![b])]);
    assert_eq!(world.world_id, ids.world_id);
    assert!(world.routes.contains_key(&ids.route_id));
    assert_ne!(ids.start_cell, ids.destination_cell);
    assert_eq!(world.revision, WorldRevision(0));
    assert_eq!(world.players.len(), 2);
    assert_eq!(world.routes.len(), 2);
    assert_eq!(world.routes[&ids.route_id].ordered_cells, vec![a, b]);
    assert_eq!(world.items[&ids.item_id].owner, ItemOwner::Container(ids.container_id));
    assert_eq!(world.items[&ids.item_id].archetype, "sealed-port-ledger");
    assert!(world.containers[&ids.container_id].item_ids.contains(&ids.item_id));
    assert_eq!(world.doors[&ids.door_id].building_id, ids.start_building);
    assert_eq!(world.vehicles[&ids.vehicle_id].cell, ids.destination_cell);
}
