use world_prototype::stable::{history_asset_id, history_event_id, stable_entity, STAGE_HISTORY};

const WORLD_SEED: u128 = 0x1234_5678_9abc_def0_0fed_cba9_8765_4321;

#[test]
fn history_identities_are_stable() {
    assert_eq!(history_event_id(WORLD_SEED, 0x42), 0xcb9d_8e61_e713_576f_6a4f_335d_08ae_aa07);
    assert_eq!(history_asset_id(WORLD_SEED, 0x42), 0xebee_ad1e_19e4_8529_c944_cd6f_ecd0_a309);
    assert_eq!(history_event_id(WORLD_SEED, 0x42), stable_entity(WORLD_SEED, STAGE_HISTORY, 0x42, 0x601));
}

#[test]
fn the_spatial_key_is_turned_for_the_high_half() {
    assert_eq!(stable_entity(7, 0x4100, (1 << 127) | 5, 0x99), 0x0b49_f09d_c134_a3cd_2f96_1def_5f4f_b76a);
}
