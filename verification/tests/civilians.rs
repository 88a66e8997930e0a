use rust_imperialism::civilians::execution::{
    advance_civilian_jobs, complete_improvement_jobs, execute_civilian_improvement_orders, execute_engineer_orders,
    execute_move_orders, execute_prospector_orders, execute_skip_and_sleep_orders, handle_civilian_command,
    handle_rescind_orders, rescind_orders, reset_civilian_actions, CivilianUnit, ImprovementKind,
};
use rust_imperialism::civilians::types::{
    ActionTurn, Civilian, CivilianId, CivilianJob, CivilianKind, CivilianOrder, CivilianOrderKind, JobType,
    PreviousPosition, ProspectingKnowledge,
};
use rust_imperialism::civilians::validation::{validate_command, CivilianCommandError};
use rust_imperialism::map::{
    MapTile, PotentialMineral, ProspectRecord, Province, ProvinceId, Rails, TerrainType, TileGrid, TilePos,
};
use rust_imperialism::resources::{DevelopmentLevel, ResourceType, TileResource};

const NATION: u64 = 1;

fn civilian(kind: CivilianKind, x: u32, y: u32, owner: u64) -> Civilian {
    Civilian { kind, position: TilePos::new(x, y), owner, civilian_id: CivilianId(0), has_moved: false }
}

fn grid_with(tiles: &[(TilePos, MapTile)], w: u32, h: u32) -> TileGrid {
    let mut g = TileGrid::empty(w, h);
    for (p, t) in tiles {
        g.set(*p, *t);
    }
    g
}

fn owned_tile() -> MapTile {
    MapTile::new(Some(ProvinceId(1)), TerrainType::Grass)
}

fn province(owner: u64) -> Vec<Province> {
    vec![Province { id: ProvinceId(1), owner: Some(owner), tiles: vec![], city_tile: TilePos::new(0, 0) }]
}

fn with_order(c: Civilian, order: CivilianOrderKind) -> CivilianUnit {
    let mut u = CivilianUnit::new(c);
    u.order = Some(CivilianOrder { target: order });
    u
}

fn engineer_rail_setup() -> (Vec<CivilianUnit>, TileGrid, Vec<Province>, TilePos, TilePos) {
    let start = TilePos::new(0, 0);
    let target = TilePos::new(1, 0);
    let grid = grid_with(&[(start, owned_tile()), (target, owned_tile())], 10, 10);
    let units = vec![with_order(civilian(CivilianKind::Engineer, 0, 0, NATION), CivilianOrderKind::BuildRail { to: target })];
    (units, grid, province(NATION), start, target)
}

fn check_existing_rail() {
    let (mut units, grid, provinces, start, target) = engineer_rail_setup();
    let mut rails = Rails::new();
    rails.insert(start, target);
    let msgs = execute_engineer_orders(&mut units, &rails, &grid, &provinces, 1);
    assert!(msgs.is_empty());
    let u = units[0];
    assert_eq!(u.civilian.position, target, "Engineer should have moved to target position");
    assert!(u.civilian.has_moved, "Engineer should be marked as has_moved");
    assert!(u.job.is_none(), "Engineer should NOT have a CivilianJob when rail already exists");
    assert!(u.order.is_none(), "CivilianOrder should be removed after execution");
}

fn check_new_rail() {
    let (mut units, grid, provinces, _start, target) = engineer_rail_setup();
    let msgs = execute_engineer_orders(&mut units, &Rails::new(), &grid, &provinces, 1);
    let u = units[0];
    assert_eq!(u.civilian.position, target, "Engineer should have moved to target position");
    assert!(u.civilian.has_moved, "Engineer should be marked as has_moved");
    let job = u.job.expect("Engineer SHOULD have a CivilianJob when building new rail");
    assert_eq!(job.job_type, JobType::BuildingRail, "Job type should be BuildingRail");
    assert_eq!(job.turns_remaining, 3, "Rail construction should take 3 turns");
    assert_eq!(job.target, target, "Job target should be the target position");
    assert_eq!(msgs.len(), 1);
    assert_eq!(msgs[0].kind, ImprovementKind::Rail);
}

#[test]
fn civilians_test_engineer_does_not_start_job_on_existing_rail() {
    check_existing_rail();
}

#[test]
fn tests_test_engineer_does_not_start_job_on_existing_rail() {
    check_existing_rail();
}

#[test]
fn civilians_test_engineer_starts_job_on_new_rail() {
    check_new_rail();
}

#[test]
fn tests_test_engineer_starts_job_on_new_rail() {
    check_new_rail();
}

#[test]
fn test_prospector_metadata_has_prospect_action() {
    let definition = CivilianKind::Prospector.definition();
    assert_eq!(definition.display_name, "Prospector");
    assert_eq!(definition.orders.len(), 1);
    let order = &definition.orders[0];
    assert!(matches!(order.order, CivilianOrderKind::Prospect { .. }));
    assert_eq!(order.execution.job_type(), Some(JobType::Prospecting));
}

#[test]
fn test_only_engineer_requests_orders_panel() {
    assert!(CivilianKind::Engineer.shows_orders_panel());
    assert!(!CivilianKind::Prospector.shows_orders_panel());
    assert!(!CivilianKind::Miner.shows_orders_panel());
    assert!(!CivilianKind::Farmer.shows_orders_panel());
}

#[test]
fn test_default_tile_action_orders() {
    let tile_pos = TilePos { x: 5, y: 10 };
    assert_eq!(
        CivilianKind::Prospector.default_tile_action_order(tile_pos),
        Some(CivilianOrderKind::Prospect { to: tile_pos })
    );
    assert_eq!(CivilianKind::Miner.default_tile_action_order(tile_pos), Some(CivilianOrderKind::Mine { to: tile_pos }));
    assert_eq!(
        CivilianKind::Farmer.default_tile_action_order(tile_pos),
        Some(CivilianOrderKind::ImproveTile { to: tile_pos })
    );
    assert_eq!(CivilianKind::Engineer.default_tile_action_order(tile_pos), None);
}

#[test]
fn test_miner_predicate_accepts_minerals_only() {
    let predicate = CivilianKind::Miner.improvement_predicate().expect("Miner should have improvement predicate");
    let mut coal = TileResource::hidden_mineral(ResourceType::Coal);
    coal.discovered = true;
    assert!(predicate.accepts(&coal));
    let timber = TileResource::visible(ResourceType::Timber);
    assert!(!predicate.accepts(&timber));
}

#[test]
fn test_miner_supports_mine_order() {
    let tile_pos = TilePos { x: 0, y: 0 };
    assert!(
        CivilianKind::Miner.supports_order(&CivilianOrderKind::Mine { to: tile_pos }),
        "Miner should support Mine order"
    );
    assert!(!CivilianKind::Miner.supports_order(&CivilianOrderKind::BuildDepot), "Miner should not support BuildDepot");
}

fn mineral_tile(deposit: Option<ResourceType>) -> MapTile {
    let mut t = owned_tile();
    t.potential_mineral = Some(PotentialMineral { deposit });
    t
}

#[test]
fn test_prospector_starts_prospecting_job() {
    let tile_pos = TilePos::new(0, 0);
    let grid = grid_with(&[(tile_pos, mineral_tile(Some(ResourceType::Coal)))], 3, 3);
    let mut units = vec![with_order(civilian(CivilianKind::Prospector, 0, 0, 3), CivilianOrderKind::Prospect { to: tile_pos })];
    execute_prospector_orders(&mut units, &grid, &province(3), 1);
    let job = units[0].job.expect("Prospector should have job");
    assert_eq!(job.job_type, JobType::Prospecting);
    assert_eq!(job.turns_remaining, JobType::Prospecting.duration());
    assert!(grid.get(tile_pos).unwrap().potential_mineral.is_some(), "PotentialMineral should remain until job completes");
}

#[test]
fn test_prospecting_job_reveals_resource_on_completion() {
    let tile_pos = TilePos::new(0, 0);
    let mut grid = grid_with(&[(tile_pos, mineral_tile(Some(ResourceType::Coal)))], 3, 3);
    let mut c = civilian(CivilianKind::Prospector, 0, 0, 4);
    c.has_moved = true;
    let mut u = CivilianUnit::new(c);
    u.job = Some(CivilianJob { job_type: JobType::Prospecting, turns_remaining: 0, target: tile_pos });
    let mut units = vec![u];
    let mut knowledge = ProspectingKnowledge::new();
    complete_improvement_jobs(&mut units, &mut grid, &mut knowledge);
    let tile = grid.get(tile_pos).unwrap();
    let resource = tile.resource.expect("Tile should have resource after prospecting");
    assert_eq!(resource.resource_type, ResourceType::Coal);
    assert!(resource.discovered, "Resource should be discovered");
    assert_eq!(tile.prospected, ProspectRecord::Mineral(ResourceType::Coal));
    assert!(tile.potential_mineral.is_none(), "PotentialMineral should be removed after prospecting");
    assert!(units[0].job.is_none(), "complete_improvement_jobs should remove job components after completion");
    assert!(knowledge.is_discovered_by(tile_pos, 4));
    assert!(!knowledge.is_discovered_by(tile_pos, 5), "Only the owner records the discovery");
}

#[test]
fn finished_jobs_on_one_tile_apply_in_roster_order() {
    let tile_pos = TilePos::new(0, 0);
    let other = TilePos::new(1, 0);
    let mut tile = owned_tile();
    tile.resource = Some(TileResource::visible(ResourceType::Grain));
    let mut grid = grid_with(&[(tile_pos, tile), (other, tile)], 3, 3);
    let job = CivilianJob { job_type: JobType::ImprovingTile, turns_remaining: 0, target: tile_pos };
    let mut a = CivilianUnit::new(civilian(CivilianKind::Farmer, 0, 0, 11));
    a.job = Some(job);
    let mut b = CivilianUnit::new(civilian(CivilianKind::Farmer, 0, 0, 11));
    b.job = Some(job);
    let mut pending = CivilianUnit::new(civilian(CivilianKind::Farmer, 1, 0, 11));
    pending.job = Some(CivilianJob { job_type: JobType::ImprovingTile, turns_remaining: 1, target: other });
    let mut units = vec![a, b, pending];
    let mut knowledge = ProspectingKnowledge::new();
    complete_improvement_jobs(&mut units, &mut grid, &mut knowledge);
    assert_eq!(grid.get(tile_pos).unwrap().resource.unwrap().development, DevelopmentLevel::Lv2);
    assert_eq!(grid.get(other).unwrap().resource.unwrap().development, DevelopmentLevel::Lv0);
    assert!(units[2].job.is_some(), "an unfinished job stays");
    assert!(!knowledge.is_discovered_by(tile_pos, 11));
}

#[test]
fn miner_requires_discovery_before_mining() {
    let tile_pos = TilePos::new(0, 0);
    let mut tile = owned_tile();
    tile.resource = Some(TileResource::hidden_mineral(ResourceType::Coal));
    let grid = grid_with(&[(tile_pos, tile)], 3, 3);
    let mut units = vec![with_order(civilian(CivilianKind::Miner, 0, 0, 5), CivilianOrderKind::Mine { to: tile_pos })];
    execute_civilian_improvement_orders(&mut units, &grid, &province(5), &ProspectingKnowledge::new(), 1);
    assert!(units[0].job.is_none(), "Miner should not start a job on undiscovered deposits");
    assert!(!units[0].civilian.has_moved, "Miner should remain ready to act after failing to start work");
    assert!(!grid.get(tile_pos).unwrap().resource.unwrap().discovered, "Prospecting should still be required before mining");
}

#[test]
fn new_owner_must_reprospect_before_mining() {
    let (nation_a, nation_b) = (6u64, 7u64);
    let tile_pos = TilePos::new(0, 0);
    let mut grid = grid_with(&[(tile_pos, mineral_tile(Some(ResourceType::Coal)))], 3, 3);
    let mut provinces = province(nation_a);
    let mut knowledge = ProspectingKnowledge::new();
    let mut units = vec![with_order(civilian(CivilianKind::Prospector, 0, 0, nation_a), CivilianOrderKind::Prospect { to: tile_pos })];
    execute_prospector_orders(&mut units, &grid, &provinces, 1);
    let mut job = units[0].job.expect("Prospector should have started a job");
    job.turns_remaining = 0;
    units[0].job = Some(job);
    complete_improvement_jobs(&mut units, &mut grid, &mut knowledge);
    assert!(knowledge.is_discovered_by(tile_pos, nation_a), "The first owner should record the discovery");
    assert!(!knowledge.is_discovered_by(tile_pos, nation_b), "New owner should not have discovery yet");
    assert!(grid.get(tile_pos).unwrap().resource.unwrap().discovered, "Prospecting should reveal the deposit globally");

    provinces[0].owner = Some(nation_b);
    let mut miners = vec![with_order(civilian(CivilianKind::Miner, 0, 0, nation_b), CivilianOrderKind::Mine { to: tile_pos })];
    execute_civilian_improvement_orders(&mut miners, &grid, &provinces, &knowledge, 2);
    assert!(miners[0].job.is_none(), "New owner should not be able to start mining without prospecting");
}

fn validation_grid() -> (TileGrid, Vec<Province>) {
    let tile_pos = TilePos::new(1, 1);
    (grid_with(&[(tile_pos, owned_tile())], 4, 4), province(NATION))
}

#[test]
fn test_cannot_assign_order_if_order_already_exists() {
    let (grid, provinces) = validation_grid();
    let tile_pos = TilePos::new(1, 1);
    let c = civilian(CivilianKind::Farmer, 1, 1, NATION);
    let existing = CivilianOrder { target: CivilianOrderKind::ImproveTile { to: tile_pos } };
    let result = validate_command(
        &c,
        None,
        Some(&existing),
        &CivilianOrderKind::ImproveTile { to: tile_pos },
        Some(&grid),
        &provinces,
        &vec![],
    );
    assert_eq!(result, Err(CivilianCommandError::AlreadyActed), "Should reject when civilian already has an order");
}

#[test]
fn test_can_assign_order_when_no_existing_order() {
    let (grid, provinces) = validation_grid();
    let tile_pos = TilePos::new(1, 1);
    let c = civilian(CivilianKind::Farmer, 1, 1, NATION);
    let result =
        validate_command(&c, None, None, &CivilianOrderKind::ImproveTile { to: tile_pos }, Some(&grid), &provinces, &vec![]);
    assert!(result.is_ok(), "Should allow order when no existing order or job");
}

#[test]
fn rejects_mismatched_kind() {
    let (grid, provinces) = validation_grid();
    let c = civilian(CivilianKind::Prospector, 1, 1, NATION);
    let result = validate_command(&c, None, None, &CivilianOrderKind::BuildDepot, Some(&grid), &provinces, &vec![]);
    assert_eq!(result, Err(CivilianCommandError::RequiresEngineer));
}

#[test]
fn test_move_order_rejected_if_tile_occupied() {
    let a = TilePos::new(0, 0);
    let b = TilePos::new(0, 1);
    let grid = grid_with(&[(a, owned_tile()), (b, owned_tile())], 10, 10);
    let provinces = province(NATION);
    let mut c1 = civilian(CivilianKind::Engineer, 0, 0, NATION);
    c1.civilian_id = CivilianId(1);
    let mut c2 = civilian(CivilianKind::Engineer, 0, 1, NATION);
    c2.civilian_id = CivilianId(2);
    let all = vec![c1, c2];
    let result = validate_command(&c1, None, None, &CivilianOrderKind::Move { to: b }, Some(&grid), &provinces, &all);
    assert_eq!(result, Err(CivilianCommandError::TargetTileOccupied), "Validation should reject move to occupied tile");
}

#[test]
fn validation_errors_for_missing_and_foreign_tiles() {
    let (grid, provinces) = validation_grid();
    let c = civilian(CivilianKind::Farmer, 1, 1, NATION);
    let far = TilePos::new(3, 3);
    assert_eq!(
        validate_command(&c, None, None, &CivilianOrderKind::ImproveTile { to: far }, Some(&grid), &provinces, &vec![]),
        Err(CivilianCommandError::MissingTargetTile(far))
    );
    assert_eq!(
        validate_command(&c, None, None, &CivilianOrderKind::SkipTurn, None, &provinces, &vec![]),
        Err(CivilianCommandError::MissingTileStorage)
    );
    let foreign = province(99);
    assert_eq!(
        validate_command(&c, None, None, &CivilianOrderKind::ImproveTile { to: TilePos::new(1, 1) }, Some(&grid), &foreign, &vec![]),
        Err(CivilianCommandError::TargetTileUnowned)
    );
    let job = CivilianJob { job_type: JobType::ImprovingTile, turns_remaining: 1, target: TilePos::new(1, 1) };
    assert_eq!(
        validate_command(&c, Some(&job), None, &CivilianOrderKind::SkipTurn, Some(&grid), &provinces, &vec![]),
        Err(CivilianCommandError::AlreadyHasJob)
    );
    assert_eq!(
        validate_command(&c, None, None, &CivilianOrderKind::Prospect { to: TilePos::new(1, 1) }, Some(&grid), &provinces, &vec![]),
        Err(CivilianCommandError::RequiresProspector)
    );
}

#[test]
fn test_rescind_orders_removes_civilian_order_component() {
    let prev = TilePos::new(4, 4);
    let mut u = with_order(civilian(CivilianKind::Farmer, 5, 5, 8), CivilianOrderKind::ImproveTile { to: TilePos::new(5, 5) });
    u.previous_position = Some(PreviousPosition(prev));
    u.action_turn = Some(ActionTurn(1));
    let refund = rescind_orders(&mut u, 1);
    assert_eq!(refund, None);
    assert!(u.order.is_none(), "CivilianOrder should be removed after rescinding");
    assert!(u.previous_position.is_none(), "PreviousPosition should be removed after rescinding");
    assert!(u.action_turn.is_none(), "ActionTurn should be removed after rescinding");
    assert_eq!(u.civilian.position, prev, "Civilian should be at previous position");
    assert!(!u.civilian.has_moved, "has_moved should be false after rescinding");
}

#[test]
fn test_rescind_orders_removes_civilian_job_and_order() {
    let prev = TilePos::new(4, 4);
    let tile = TilePos::new(5, 5);
    let mut c = civilian(CivilianKind::Engineer, 5, 5, 9);
    c.has_moved = true;
    let mut u = with_order(c, CivilianOrderKind::BuildRail { to: tile });
    u.job = Some(CivilianJob { job_type: JobType::BuildingRail, turns_remaining: 2, target: tile });
    u.previous_position = Some(PreviousPosition(prev));
    u.action_turn = Some(ActionTurn(1));
    let mut treasury = Some(rust_imperialism::economy::Treasury::new(1000));
    handle_rescind_orders(&mut u, 1, &mut treasury);
    let treasury = treasury.unwrap();
    assert!(u.job.is_none(), "CivilianJob should be removed after rescinding");
    assert!(u.order.is_none(), "CivilianOrder should be removed after rescinding");
    assert_eq!(u.civilian.position, prev, "Civilian should be at previous position");
    assert!(!u.civilian.has_moved, "has_moved should be false after rescinding");
    assert_eq!(treasury.total(), 1050, "Should refund BuildRail cost (50)");
}

#[test]
fn rescinding_later_gives_no_refund() {
    let tile = TilePos::new(5, 5);
    let mut u = with_order(civilian(CivilianKind::Engineer, 5, 5, 9), CivilianOrderKind::BuildDepot);
    u.job = Some(CivilianJob { job_type: JobType::BuildingDepot, turns_remaining: 1, target: tile });
    u.previous_position = Some(PreviousPosition(tile));
    u.action_turn = Some(ActionTurn(1));
    assert_eq!(rescind_orders(&mut u, 2), None);
}

#[test]
fn test_skip_turn_removes_order_after_one_turn() {
    let mut units = vec![with_order(civilian(CivilianKind::Farmer, 5, 5, NATION), CivilianOrderKind::SkipTurn)];
    execute_skip_and_sleep_orders(&mut units);
    assert!(units[0].order.is_none(), "SkipTurn order should be removed after execution");
    assert!(units[0].civilian.has_moved, "Civilian should be marked as has_moved after skipping");
}

#[test]
fn test_sleep_order_persists_across_turns() {
    let mut units = vec![with_order(civilian(CivilianKind::Farmer, 5, 5, NATION), CivilianOrderKind::Sleep)];
    execute_skip_and_sleep_orders(&mut units);
    assert!(units[0].order.is_some(), "Sleep order should persist after execution");
    assert!(units[0].civilian.has_moved, "Civilian should be marked as has_moved while sleeping");
}

#[test]
fn test_rescind_wakes_sleeping_civilian() {
    let tile = TilePos::new(5, 5);
    let mut c = civilian(CivilianKind::Farmer, 5, 5, NATION);
    c.has_moved = true;
    let mut u = with_order(c, CivilianOrderKind::Sleep);
    u.previous_position = Some(PreviousPosition(tile));
    rescind_orders(&mut u, 1);
    assert!(u.order.is_none(), "Sleep order should be removed when rescinded");
    assert!(!u.civilian.has_moved, "Civilian should be available for action after waking");
}

#[test]
fn miner_respects_max_development_level() {
    let tile_pos = TilePos::new(0, 0);
    let mut resource = TileResource::hidden_mineral(ResourceType::Iron);
    resource.discovered = true;
    resource.development = DevelopmentLevel::Lv3;
    let mut tile = owned_tile();
    tile.resource = Some(resource);
    let grid = grid_with(&[(tile_pos, tile)], 3, 3);
    let mut knowledge = ProspectingKnowledge::new();
    knowledge.mark_discovered(tile_pos, 10);
    let mut units = vec![with_order(civilian(CivilianKind::Miner, 0, 0, 10), CivilianOrderKind::Mine { to: tile_pos })];
    execute_civilian_improvement_orders(&mut units, &grid, &province(10), &knowledge, 1);
    assert!(units[0].job.is_none(), "Miner should not start a job on fully developed deposits");
    assert!(!units[0].civilian.has_moved, "Miner should not consume its action on a maxed resource");
}

#[test]
fn farmer_starts_improvement_job_on_visible_resource() {
    let tile_pos = TilePos::new(0, 0);
    let mut tile = owned_tile();
    tile.resource = Some(TileResource::visible(ResourceType::Grain));
    let grid = grid_with(&[(tile_pos, tile)], 3, 3);
    let mut units = vec![with_order(civilian(CivilianKind::Farmer, 0, 0, 11), CivilianOrderKind::ImproveTile { to: tile_pos })];
    execute_civilian_improvement_orders(&mut units, &grid, &province(11), &ProspectingKnowledge::new(), 1);
    let job = units[0].job.expect("Farmer should start an improvement job");
    assert_eq!(job.job_type, JobType::ImprovingTile);
    assert_eq!(job.turns_remaining, JobType::ImprovingTile.duration());
    assert!(units[0].civilian.has_moved, "Farmer should consume its action when starting an improvement");
}

#[test]
fn improvement_completes_after_its_turns() {
    let tile_pos = TilePos::new(0, 0);
    let mut tile = owned_tile();
    tile.resource = Some(TileResource::visible(ResourceType::Grain));
    let mut grid = grid_with(&[(tile_pos, tile)], 3, 3);
    let mut units = vec![with_order(civilian(CivilianKind::Farmer, 0, 0, 11), CivilianOrderKind::ImproveTile { to: tile_pos })];
    execute_civilian_improvement_orders(&mut units, &grid, &province(11), &ProspectingKnowledge::new(), 1);
    let mut knowledge = ProspectingKnowledge::new();
    advance_civilian_jobs(&mut units);
    advance_civilian_jobs(&mut units);
    assert_eq!(units[0].job.unwrap().turns_remaining, 0);
    complete_improvement_jobs(&mut units, &mut grid, &mut knowledge);
    assert_eq!(grid.get(tile_pos).unwrap().resource.unwrap().development, DevelopmentLevel::Lv1);
    assert!(units[0].job.is_none());
    reset_civilian_actions(&mut units);
    assert!(!units[0].civilian.has_moved);
}

#[test]
fn move_order_moves_and_commands_are_validated() {
    let a = TilePos::new(0, 0);
    let b = TilePos::new(1, 0);
    let grid = grid_with(&[(a, owned_tile()), (b, owned_tile())], 4, 4);
    let provinces = province(NATION);
    let mut c = civilian(CivilianKind::Farmer, 0, 0, NATION);
    c.civilian_id = CivilianId(5);
    let mut units = vec![CivilianUnit::new(c)];
    assert_eq!(
        handle_civilian_command(&mut units, CivilianId(6), CivilianOrderKind::Move { to: b }, Some(&grid), &provinces),
        Err(CivilianCommandError::MissingCivilian)
    );
    assert_eq!(handle_civilian_command(&mut units, CivilianId(5), CivilianOrderKind::Move { to: b }, Some(&grid), &provinces), Ok(()));
    execute_move_orders(&mut units, 1);
    assert_eq!(units[0].civilian.position, b);
    assert!(units[0].civilian.has_moved);
    assert_eq!(units[0].previous_position, Some(PreviousPosition(a)));
}

use rust_imperialism::civilians::hiring::{find_unoccupied_tile_near, spawn_hired_civilian, HireRefusal};
use rust_imperialism::economy::Treasury;

fn open_grid(w: u32, h: u32) -> TileGrid {
    let mut g = TileGrid::empty(w, h);
    for x in 0..w {
        for y in 0..h {
            g.set(TilePos::new(x, y), owned_tile());
        }
    }
    g
}

#[test]
fn hiring_uses_free_capital_tile() {
    let grid = open_grid(5, 5);
    let spot = find_unoccupied_tile_near(TilePos::new(2, 2), &grid, &vec![]);
    assert_eq!(spot, Some(TilePos::new(2, 2)));
}

#[test]
fn hiring_moves_to_adjacent_tile_when_capital_taken() {
    let grid = open_grid(5, 5);
    let others = vec![civilian(CivilianKind::Engineer, 2, 2, NATION)];
    let spot = find_unoccupied_tile_near(TilePos::new(2, 2), &grid, &others).unwrap();
    assert_ne!(spot, TilePos::new(2, 2));
    assert!(rust_imperialism::map::is_adjacent(TilePos::new(2, 2), spot));
    // The first neighbour in reading order.
    assert_eq!(spot, TilePos::new(1, 1));
}

#[test]
fn hiring_finds_no_room_on_single_tile_map() {
    let grid = open_grid(1, 1);
    let others = vec![civilian(CivilianKind::Engineer, 0, 0, NATION)];
    assert_eq!(find_unoccupied_tile_near(TilePos::new(0, 0), &grid, &others), None);
}

#[test]
fn hiring_charges_the_cost() {
    let grid = open_grid(5, 5);
    let mut treasury = Treasury::new(1_000);
    let hired = spawn_hired_civilian(
        CivilianKind::Farmer,
        NATION,
        Some(TilePos::new(1, 1)),
        &mut treasury,
        250,
        &grid,
        &vec![],
        CivilianId(7),
    )
    .unwrap();
    assert_eq!(hired.position, TilePos::new(1, 1));
    assert_eq!(hired.owner, NATION);
    assert_eq!(hired.civilian_id, CivilianId(7));
    assert!(!hired.has_moved);
    assert_eq!(treasury.total, 750);
}

#[test]
fn hiring_refusals_leave_treasury_alone() {
    let grid = open_grid(1, 1);
    let mut treasury = Treasury::new(100);
    let none = spawn_hired_civilian(CivilianKind::Farmer, NATION, None, &mut treasury, 50, &grid, &vec![], CivilianId(1));
    assert_eq!(none, Err(HireRefusal::NoCapital));
    let taken = vec![civilian(CivilianKind::Engineer, 0, 0, NATION)];
    let full = spawn_hired_civilian(
        CivilianKind::Farmer,
        NATION,
        Some(TilePos::new(0, 0)),
        &mut treasury,
        50,
        &grid,
        &taken,
        CivilianId(1),
    );
    assert_eq!(full, Err(HireRefusal::NoOpenTiles));
    let poor = spawn_hired_civilian(
        CivilianKind::Farmer,
        NATION,
        Some(TilePos::new(0, 0)),
        &mut treasury,
        500,
        &grid,
        &vec![],
        CivilianId(1),
    );
    assert_eq!(poor, Err(HireRefusal::InsufficientFunds { cost: 500 }));
    assert_eq!(treasury.total, 100);
}

#[test]
fn rescind_credits_nothing_without_refund_or_treasury() {
    let tile = TilePos::new(5, 5);
    let mut u = with_order(civilian(CivilianKind::Engineer, 5, 5, 9), CivilianOrderKind::BuildDepot);
    u.job = Some(CivilianJob { job_type: JobType::BuildingDepot, turns_remaining: 2, target: tile });
    u.previous_position = Some(PreviousPosition(TilePos::new(4, 4)));
    u.action_turn = Some(ActionTurn(1));
    let mut no_treasury = None;
    let mut v = u;
    handle_rescind_orders(&mut v, 1, &mut no_treasury);
    assert!(no_treasury.is_none());
    assert_eq!(v.civilian.position, TilePos::new(4, 4));
    let mut treasury = Some(rust_imperialism::economy::Treasury::new(300));
    handle_rescind_orders(&mut u, 1, &mut treasury);
    assert_eq!(treasury.unwrap().total(), 400, "a depot rescinded the same turn refunds 100");
    let mut w = with_order(civilian(CivilianKind::Engineer, 5, 5, 9), CivilianOrderKind::BuildDepot);
    w.job = Some(CivilianJob { job_type: JobType::BuildingDepot, turns_remaining: 2, target: tile });
    w.previous_position = Some(PreviousPosition(TilePos::new(4, 4)));
    w.action_turn = Some(ActionTurn(1));
    let mut later = Some(rust_imperialism::economy::Treasury::new(300));
    handle_rescind_orders(&mut w, 2, &mut later);
    assert_eq!(later.unwrap().total(), 300, "no refund on a later turn");
}
