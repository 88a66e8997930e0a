use rust_imperialism::civilians::selection::{button_order, orders_panel_for, rescind_panel_for, select_civilian};
use rust_imperialism::civilians::types::{Civilian, CivilianId, CivilianKind, CivilianOrderKind, PreviousPosition};
use rust_imperialism::map::TilePos;

const PLAYER: u64 = 1;
const ENEMY: u64 = 2;

fn unit(kind: CivilianKind, owner: u64, x: u32, y: u32, id: u32) -> Civilian {
    Civilian { kind, position: TilePos { x, y }, owner, civilian_id: CivilianId(id), has_moved: false }
}

#[test]
fn test_cannot_select_enemy_units() {
    let enemy_civilian_entity = 10;
    let enemy = unit(CivilianKind::Engineer, ENEMY, 0, 0, 0);
    let selected = select_civilian(Some(PLAYER), None, enemy_civilian_entity, Some(enemy.owner));
    assert!(selected.is_none(), "Enemy units should not be selectable by player");
}

#[test]
fn test_can_select_own_units() {
    let player_civilian_entity = 11;
    let own = unit(CivilianKind::Engineer, PLAYER, 0, 0, 0);
    let selected = select_civilian(Some(PLAYER), None, player_civilian_entity, Some(own.owner));
    let selected = selected.expect("Player unit should be selected");
    assert!(selected == player_civilian_entity, "Player should be able to select their own units");
}

#[test]
fn test_selecting_player_unit_deselects_others() {
    let first_civilian_entity = 20;
    let second_civilian_entity = 21;
    let first = unit(CivilianKind::Engineer, PLAYER, 0, 0, 0);
    let second = unit(CivilianKind::Prospector, PLAYER, 1, 1, 1);
    let selected = select_civilian(Some(PLAYER), None, first_civilian_entity, Some(first.owner));
    let selected = select_civilian(Some(PLAYER), selected, second_civilian_entity, Some(second.owner));
    let selected = selected.expect("Second unit should be selected");
    assert!(selected == second_civilian_entity, "Second unit should be selected");
    assert!(selected != first_civilian_entity, "First unit should be deselected when second unit is selected");
}

#[test]
fn selection_needs_a_player_nation_and_a_unit() {
    assert_eq!(select_civilian(None, Some(3), 4, Some(PLAYER)), Some(3));
    assert_eq!(select_civilian(Some(PLAYER), Some(3), 4, None), Some(3));
    assert_eq!(select_civilian(Some(PLAYER), Some(4), 4, Some(PLAYER)), Some(4));
}

#[test]
fn test_ui_not_shown_for_enemy_units() {
    let enemy = unit(CivilianKind::Engineer, ENEMY, 0, 0, 0);
    assert!(orders_panel_for(Some(PLAYER), Some(enemy)).is_none(), "No orders panel for enemy units");
}

#[test]
fn test_ui_shown_for_player_units() {
    let own = unit(CivilianKind::Engineer, PLAYER, 0, 0, 0);
    let panel = orders_panel_for(Some(PLAYER), Some(own)).expect("Orders panel for player units");
    assert_eq!(panel.display_name, "Engineer");
    assert_eq!(panel.orders.len(), 2);
    assert_eq!(panel.orders[0].order, CivilianOrderKind::BuildDepot);
}

#[test]
fn test_ui_not_shown_without_player_nation() {
    let own = unit(CivilianKind::Engineer, PLAYER, 0, 0, 0);
    assert!(orders_panel_for(None, Some(own)).is_none(), "No orders panel without a player nation");
}

#[test]
fn panels_only_for_kinds_that_show_one() {
    let farmer = unit(CivilianKind::Farmer, PLAYER, 0, 0, 0);
    assert!(orders_panel_for(Some(PLAYER), Some(farmer)).is_none());
    assert!(orders_panel_for(Some(PLAYER), None).is_none());
}

#[test]
fn rescind_panel_shows_previous_tile_of_own_units() {
    let own = unit(CivilianKind::Farmer, PLAYER, 3, 3, 0);
    let enemy = unit(CivilianKind::Farmer, ENEMY, 3, 3, 1);
    let prev = Some(PreviousPosition(TilePos { x: 2, y: 3 }));
    assert_eq!(rescind_panel_for(Some(PLAYER), Some(own), prev), Some(TilePos { x: 2, y: 3 }));
    assert_eq!(rescind_panel_for(Some(PLAYER), Some(enemy), prev), None);
    assert_eq!(rescind_panel_for(Some(PLAYER), Some(own), None), None);
    assert_eq!(rescind_panel_for(None, Some(own), prev), None);
}

#[test]
fn buttons_aim_tile_orders_at_the_unit() {
    let here = Some(TilePos { x: 5, y: 6 });
    let origin = TilePos { x: 0, y: 0 };
    assert_eq!(button_order(CivilianOrderKind::Mine { to: origin }, here), CivilianOrderKind::Mine { to: TilePos { x: 5, y: 6 } });
    assert_eq!(
        button_order(CivilianOrderKind::ImproveTile { to: origin }, here),
        CivilianOrderKind::ImproveTile { to: TilePos { x: 5, y: 6 } }
    );
    assert_eq!(button_order(CivilianOrderKind::BuildDepot, here), CivilianOrderKind::BuildDepot);
    assert_eq!(button_order(CivilianOrderKind::Move { to: TilePos { x: 1, y: 1 } }, here), CivilianOrderKind::Move { to: TilePos { x: 1, y: 1 } });
    assert_eq!(button_order(CivilianOrderKind::Prospect { to: TilePos { x: 9, y: 9 } }, None), CivilianOrderKind::Prospect { to: origin });
}
