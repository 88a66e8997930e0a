use rust_imperialism::ai::context::{enemy_turn_entered, AiPlanLedger, MacroTag, MarketObservation, MarketView, TurnPhase};
use rust_imperialism::ai::execute::{execute_plan, sort_civilian_tasks_topologically, task_to_order, AiOrder};
use rust_imperialism::ai::planner::{
    assign_civilians_to_goals, find_step_toward, generate_transport_allocations, generate_value_added_trade,
    is_rail_being_built, orders_from_goals, plan_engineer_depot_task, plan_engineer_rail_task, CivilianTask,
    NationGoal, NationPlan, ProductionOrder,
};
use rust_imperialism::ai::snapshot::{
    calculate_suggested_depots, compute_connected_tiles, depot_coverage, improver_for_resource,
    BuildingCapacity, CivilianSnapshot, MarketSnapshot, NationSnapshot, RailConstruction, StockpileEntry,
};
use rust_imperialism::ai::trade::{
    build_market_buy_order, building_for_good, calculate_civilian_targets, default_price, evaluate_market_orders,
    evaluate_production_plan, plan_ai_civilian_hiring, AdjustMarketOrder, MarketGoodState, MarketInterest,
    SELL_MAX_PER_GOOD, SELL_RESERVE,
};
use rust_imperialism::civilians::types::{Civilian, CivilianId, CivilianKind, CivilianOrderKind};
use rust_imperialism::economy::{BuildingKind, Good, TransportCommodity};
use rust_imperialism::map::{distance, hex_neighbors, Rails, TilePos};
use rust_imperialism::resources::ResourceType;

fn snapshot(owned: Vec<TilePos>, connected: Vec<TilePos>) -> NationSnapshot {
    NationSnapshot {
        entity: 7,
        capital_pos: TilePos::new(0, 0),
        treasury: 1000,
        stockpile: vec![],
        civilians: vec![],
        connected_tiles: connected,
        unconnected_depots: vec![],
        suggested_depots: vec![],
        improvable_tiles: vec![],
        prospectable_tiles: vec![],
        rail_buildable: owned.clone(),
        depot_buildable: owned.clone(),
        owned_tiles: owned,
        depot_positions: vec![],
        rail_constructions: vec![],
        buildings: vec![],
    }
}

#[test]
fn ledger_cooldowns_tick_down_on_new_turn() {
    let mut ledger = AiPlanLedger::new();
    let nation = 1;
    let tag = MacroTag::BuyResource { good: Good::Coal };
    ledger.apply_cooldown(nation, tag, 2);
    assert!(ledger.cooldown_active(nation, &tag));
    ledger.advance_turn(1);
    assert!(ledger.cooldown_active(nation, &tag));
    ledger.advance_turn(2);
    assert!(!ledger.cooldown_active(nation, &tag));
}

#[test]
fn ledger_ignores_repeated_turn_and_zero_cooldown() {
    let mut ledger = AiPlanLedger::new();
    let tag = MacroTag::InvestMinor { minor: rust_imperialism::ai::context::MinorId(3) };
    ledger.apply_cooldown(4, tag, 0);
    assert!(ledger.cooldown_active(4, &tag));
    ledger.advance_turn(5);
    assert!(!ledger.cooldown_active(4, &tag));
    ledger.apply_cooldown(4, tag, 3);
    ledger.advance_turn(5);
    ledger.advance_turn(5);
    assert!(ledger.cooldown_active(4, &tag));
    assert!(!ledger.cooldown_active(5, &tag));
}

#[test]
fn enemy_turn_detected_once() {
    let mut last = None;
    assert!(!enemy_turn_entered(&mut last, TurnPhase::PlayerTurn));
    assert!(enemy_turn_entered(&mut last, TurnPhase::EnemyTurn));
    assert!(!enemy_turn_entered(&mut last, TurnPhase::EnemyTurn));
    assert!(!enemy_turn_entered(&mut last, TurnPhase::Processing));
    assert!(enemy_turn_entered(&mut last, TurnPhase::EnemyTurn));
}

#[test]
fn market_view_reads_back_latest_observation() {
    let mut view = MarketView::new();
    assert_eq!(view.price_for(Good::Coal), 100);
    assert_eq!(view.recommended_buy_qty(Good::Coal, 3, 10), Some(7));
    view.record(Good::Coal, MarketObservation { price: 80, supply: 2, demand: 5 });
    view.record(Good::Coal, MarketObservation { price: 90, supply: 2, demand: 6 });
    assert_eq!(view.price_for(Good::Coal), 90);
    assert_eq!(view.recommended_buy_qty(Good::Coal, 3, 10), Some(4));
    assert_eq!(view.recommended_buy_qty(Good::Coal, 10, 10), None);
    view.record(Good::Iron, MarketObservation { price: 120, supply: 9, demand: 1 });
    assert_eq!(view.recommended_buy_qty(Good::Iron, 0, 5), Some(1));
    view.clear();
    assert_eq!(view.price_for(Good::Iron), 100);
}

#[test]
fn test_task_to_order_conversion() {
    let target = TilePos::new(5, 5);
    assert!(matches!(
        task_to_order(&CivilianTask::BuildRailTo { target }),
        Some(CivilianOrderKind::BuildRail { .. })
    ));
    assert!(matches!(task_to_order(&CivilianTask::BuildDepot), Some(CivilianOrderKind::BuildDepot)));
    assert!(matches!(task_to_order(&CivilianTask::MoveTo { target }), Some(CivilianOrderKind::Move { .. })));
    assert!(task_to_order(&CivilianTask::Idle).is_none());
}

#[test]
fn test_sort_civilian_tasks_topologically() {
    let (e1, e2, e3) = (1u64, 2u64, 3u64);
    let p1 = TilePos::new(0, 0);
    let p2 = TilePos::new(0, 1);
    let p3 = TilePos::new(0, 2);
    let p4 = TilePos::new(0, 3);
    let tasks = vec![
        (e1, CivilianTask::MoveTo { target: p2 }),
        (e2, CivilianTask::MoveTo { target: p3 }),
        (e3, CivilianTask::MoveTo { target: p4 }),
    ];
    let positions = vec![(p1, e1), (p2, e2), (p3, e3)];
    let sorted = sort_civilian_tasks_topologically(&tasks, &positions);
    let idx1 = sorted.iter().position(|(e, _)| *e == e1).unwrap();
    let idx2 = sorted.iter().position(|(e, _)| *e == e2).unwrap();
    let idx3 = sorted.iter().position(|(e, _)| *e == e3).unwrap();
    assert!(idx3 < idx2, "e3 should execute before e2");
    assert!(idx2 < idx1, "e2 should execute before e1");
}

#[test]
fn cyclic_moves_come_last_and_keep_every_task() {
    let a = TilePos::new(1, 1);
    let b = TilePos::new(2, 1);
    let c = TilePos::new(3, 1);
    let tasks = vec![
        (10u64, CivilianTask::MoveTo { target: b }),
        (11u64, CivilianTask::MoveTo { target: a }),
        (12u64, CivilianTask::BuildDepot),
    ];
    let positions = vec![(a, 10), (b, 11), (c, 12)];
    let sorted = sort_civilian_tasks_topologically(&tasks, &positions);
    assert_eq!(sorted.len(), 3);
    assert_eq!(sorted[0].0, 12);
    let mut ids: Vec<u64> = sorted.iter().map(|t| t.0).collect();
    ids.sort();
    assert_eq!(ids, vec![10, 11, 12]);
}

#[test]
fn test_engineer_moves_towards_depot_target() {
    let engineer_pos = TilePos::new(10, 10);
    let target = TilePos::new(8, 8);
    let mut owned = vec![];
    for x in 8..=11 {
        for y in 8..=11 {
            owned.push(TilePos::new(x, y));
        }
    }
    let nation = snapshot(owned, vec![TilePos::new(5, 5)]);
    let task = plan_engineer_depot_task(&nation, &vec![], engineer_pos, target);
    if let Some(CivilianTask::MoveTo { target: t }) = task {
        assert_ne!(t, engineer_pos);
        assert!(distance(t, target) < distance(engineer_pos, target));
    } else {
        panic!("Expected MoveTo task, got {:?}", task);
    }
}

#[test]
fn engineer_builds_depot_on_site_only_on_suitable_terrain() {
    let site = TilePos::new(3, 3);
    let mut nation = snapshot(vec![site], vec![]);
    assert_eq!(plan_engineer_depot_task(&nation, &vec![], site, site), Some(CivilianTask::BuildDepot));
    nation.depot_buildable.clear();
    assert_eq!(plan_engineer_depot_task(&nation, &vec![], site, site), None);
}

#[test]
fn test_engineer_builds_rail_for_connection() {
    let engineer_pos = TilePos::new(5, 5);
    let target = TilePos::new(8, 8);
    let next_step = TilePos::new(6, 5);
    let nation = snapshot(vec![engineer_pos, next_step, target], vec![engineer_pos]);
    let task = plan_engineer_rail_task(&nation, &Rails::new(), &vec![], engineer_pos, target);
    assert!(matches!(task, Some(CivilianTask::BuildRailTo { target: t }) if t == next_step));
}

#[test]
fn engineer_rides_existing_rail_and_waits_for_construction() {
    let engineer_pos = TilePos::new(5, 5);
    let target = TilePos::new(8, 8);
    let next_step = TilePos::new(6, 5);
    let mut nation = snapshot(vec![engineer_pos, next_step, target], vec![engineer_pos]);
    let mut rails = Rails::new();
    rails.insert(next_step, engineer_pos);
    assert_eq!(
        plan_engineer_rail_task(&nation, &rails, &vec![], engineer_pos, target),
        Some(CivilianTask::MoveTo { target: next_step })
    );
    nation.rail_constructions.push(RailConstruction { from: next_step, to: engineer_pos });
    assert!(is_rail_being_built(engineer_pos, next_step, &nation));
    assert_eq!(plan_engineer_rail_task(&nation, &Rails::new(), &vec![], engineer_pos, target), None);
}

#[test]
fn test_engineer_bridgehead_loop() {
    let capital_pos = TilePos::new(0, 0);
    let pos_0_1 = TilePos::new(0, 1);
    let target = TilePos::new(1, 1);
    let mut nation = snapshot(vec![capital_pos, pos_0_1, target], vec![capital_pos, pos_0_1]);
    nation.capital_pos = capital_pos;
    let rails = Rails::new();
    let task = plan_engineer_rail_task(&nation, &rails, &vec![], pos_0_1, target);
    if let Some(CivilianTask::MoveTo { target: t }) = task {
        if t == capital_pos {
            let task2 = plan_engineer_rail_task(&nation, &rails, &vec![], capital_pos, target);
            assert!(
                !matches!(task2, Some(CivilianTask::MoveTo { target: next }) if next == pos_0_1),
                "Loop detected: (0,1) -> (0,0) -> (0,1)"
            );
        }
    }
}

#[test]
fn step_toward_prefers_nearest_then_lowest_coordinates() {
    let from = TilePos::new(4, 4);
    let to = TilePos::new(4, 8);
    let allowed = hex_neighbors(from);
    let step = find_step_toward(from, to, &allowed, &vec![]).unwrap();
    for n in hex_neighbors(from) {
        assert!(distance(step, to) <= distance(n, to));
    }
    let blocked = vec![step];
    let other = find_step_toward(from, to, &allowed, &blocked).unwrap();
    assert_ne!(other, step);
    assert_eq!(find_step_toward(from, to, &vec![], &vec![]), None);
}

fn civ(entity: u64, kind: CivilianKind, x: u32, y: u32) -> CivilianSnapshot {
    CivilianSnapshot { entity, kind, position: TilePos::new(x, y), has_moved: false }
}

#[test]
fn goals_go_to_nearest_capable_civilian() {
    let mut nation = snapshot(vec![], vec![]);
    nation.civilians = vec![
        civ(1, CivilianKind::Prospector, 0, 0),
        civ(2, CivilianKind::Prospector, 9, 9),
        civ(3, CivilianKind::Farmer, 5, 5),
        CivilianSnapshot { entity: 4, kind: CivilianKind::Prospector, position: TilePos::new(9, 8), has_moved: true },
    ];
    let goals = vec![
        NationGoal::ProspectTile { tile: TilePos::new(8, 8) },
        NationGoal::ProspectTile { tile: TilePos::new(1, 0) },
        NationGoal::HireCivilian { kind: CivilianKind::Miner },
    ];
    let tasks = assign_civilians_to_goals(&nation, &vec![], &Rails::new(), &goals);
    assert_eq!(tasks.len(), 3);
    assert_eq!(tasks[0], (2, CivilianTask::MoveTo { target: TilePos::new(8, 8) }));
    assert_eq!(tasks[1], (1, CivilianTask::ProspectTile { target: TilePos::new(1, 0) }));
    assert_eq!(tasks[2], (3, CivilianTask::Idle));
}

#[test]
fn occupied_targets_are_not_assigned() {
    let mut nation = snapshot(vec![], vec![]);
    nation.civilians = vec![civ(1, CivilianKind::Farmer, 0, 0)];
    let goals = vec![NationGoal::ImproveTile { tile: TilePos::new(6, 6), civilian_kind: CivilianKind::Farmer }];
    let tasks = assign_civilians_to_goals(&nation, &vec![TilePos::new(6, 6)], &Rails::new(), &goals);
    assert_eq!(tasks, vec![(1, CivilianTask::Idle)]);
}

#[test]
fn plan_turns_into_ordered_orders() {
    let mut nation = snapshot(vec![], vec![]);
    nation.civilians = vec![civ(1, CivilianKind::Farmer, 0, 0), civ(2, CivilianKind::Farmer, 1, 0)];
    let mut plan = NationPlan::new();
    plan.civilian_tasks = vec![
        (1, CivilianTask::MoveTo { target: TilePos::new(1, 0) }),
        (2, CivilianTask::MoveTo { target: TilePos::new(2, 0) }),
    ];
    let goals = vec![
        NationGoal::BuyResource { good: Good::Coal, qty: 3 },
        NationGoal::HireCivilian { kind: CivilianKind::Miner },
        NationGoal::HireCivilian { kind: CivilianKind::Farmer },
        NationGoal::SellResource { good: Good::Wool, qty: 2 },
        NationGoal::ProduceGoods { building: 9, good: Good::Steel, qty: 1 },
    ];
    orders_from_goals(&goals, &mut plan);
    assert_eq!(plan.civilians_to_hire, vec![CivilianKind::Miner]);
    assert_eq!(plan.market_buys, vec![(Good::Coal, 3)]);
    assert_eq!(plan.market_sells, vec![(Good::Wool, 2)]);
    assert_eq!(plan.production_orders, vec![ProductionOrder { building: 9, output: Good::Steel, qty: 1 }]);
    generate_transport_allocations(&mut plan);
    assert_eq!(plan.transport_allocations.len(), 20);
    assert_eq!(plan.transport_allocations[0], (TransportCommodity::Grain, 10));
    let orders = execute_plan(&plan, &nation);
    assert_eq!(orders.len(), 2 + 1 + 1 + 1 + 1 + 20);
    assert_eq!(orders[0], AiOrder::Civilian { civilian: 2, order: CivilianOrderKind::Move { to: TilePos::new(2, 0) } });
    assert_eq!(orders[1], AiOrder::Civilian { civilian: 1, order: CivilianOrderKind::Move { to: TilePos::new(1, 0) } });
    assert_eq!(
        orders[2],
        AiOrder::Market(AdjustMarketOrder { nation: 7, good: Good::Coal, kind: MarketInterest::Buy, requested: 3 })
    );
    assert_eq!(orders[4], AiOrder::Hire { nation: 7, kind: CivilianKind::Miner });
}

#[test]
fn hardware_chain_buys_inputs_when_profitable() {
    let mut nation = snapshot(vec![], vec![]);
    nation.buildings = vec![
        BuildingCapacity { kind: BuildingKind::SteelMill, capacity: 5 },
        BuildingCapacity { kind: BuildingKind::MetalWorks, capacity: 3 },
    ];
    nation.stockpile = vec![StockpileEntry { good: Good::Iron, total: 1, available: 1 }];
    let market = MarketSnapshot {
        prices: vec![(Good::Iron, 50), (Good::Coal, 40), (Good::Steel, 120), (Good::Hardware, 300)],
    };
    let mut plan = NationPlan::new();
    generate_value_added_trade(&nation, &market, &mut plan);
    assert_eq!(
        plan.production_orders,
        vec![
            ProductionOrder { building: 7, output: Good::Steel, qty: 4 },
            ProductionOrder { building: 7, output: Good::Hardware, qty: 2 },
        ]
    );
    assert_eq!(plan.market_buys, vec![(Good::Iron, 3), (Good::Coal, 4)]);
    assert_eq!(plan.market_sells, vec![(Good::Hardware, 2)]);

    let cheap = MarketSnapshot { prices: vec![(Good::Hardware, 200)] };
    let mut plan2 = NationPlan::new();
    generate_value_added_trade(&nation, &cheap, &mut plan2);
    assert!(plan2.production_orders.is_empty());
}

#[test]
fn depot_coverage_returns_seven_tiles() {
    let pos = TilePos::new(5, 5);
    let coverage = depot_coverage(pos);
    assert!(coverage.contains(&pos), "coverage should include center tile");
    assert!(coverage.len() <= 7, "coverage should be at most 7 tiles");
    assert_eq!(coverage.len(), 7);
}

#[test]
fn adjacent_resources_get_single_depot_suggestion() {
    let center = TilePos::new(10, 10);
    let neighbors: Vec<TilePos> = hex_neighbors(center).into_iter().take(2).collect();
    let mut resources = vec![center];
    resources.extend(neighbors.iter().copied());
    let owned = resources.clone();
    let suggestions = calculate_suggested_depots(&resources, &owned, &vec![], TilePos::new(50, 50));
    assert_eq!(suggestions.len(), 1, "adjacent resources should be covered by single depot");
    assert!(suggestions[0].covers_count >= 3, "depot should cover all 3 resources");
}

#[test]
fn capital_coverage_excludes_nearby_resources() {
    let capital_pos = TilePos::new(10, 10);
    let adjacent_resource = hex_neighbors(capital_pos)[0];
    let far_resource = TilePos::new(30, 30);
    let resources = vec![adjacent_resource, far_resource];
    let mut owned = resources.clone();
    owned.push(capital_pos);
    owned.extend(depot_coverage(capital_pos));
    let suggestions = calculate_suggested_depots(&resources, &owned, &vec![], capital_pos);
    assert_eq!(suggestions.len(), 1, "only far resource should need a depot");
    assert!(distance(suggestions[0].position, far_resource) <= 1, "suggested depot should cover far resource");
}

#[test]
fn existing_depot_prevents_duplicate_suggestion() {
    let resource_pos = TilePos::new(10, 10);
    let resources = vec![resource_pos];
    let owned = resources.clone();
    let depots = vec![resource_pos];
    let suggestions = calculate_suggested_depots(&resources, &owned, &depots, TilePos::new(50, 50));
    assert!(suggestions.is_empty(), "no suggestions needed when depot already covers resources");
}

#[test]
fn distant_resource_clusters_get_separate_depots() {
    let cluster1 = TilePos::new(5, 5);
    let cluster2 = TilePos::new(30, 30);
    let resources = vec![cluster1, cluster2];
    let owned = vec![cluster1, cluster2];
    let suggestions = calculate_suggested_depots(&resources, &owned, &vec![], TilePos::new(50, 50));
    assert_eq!(suggestions.len(), 2, "distant clusters should each get their own depot");
    assert!(suggestions[0].distance_from_capital <= suggestions[1].distance_from_capital);
}

#[test]
fn greedy_algorithm_optimizes_coverage() {
    let center = TilePos::new(10, 10);
    let neighbors: Vec<TilePos> = hex_neighbors(center).into_iter().take(2).collect();
    let isolated = TilePos::new(30, 30);
    let mut resources = vec![center];
    resources.extend(neighbors.iter().copied());
    resources.push(isolated);
    let owned = resources.clone();
    let suggestions = calculate_suggested_depots(&resources, &owned, &vec![], TilePos::new(50, 50));
    assert_eq!(suggestions.len(), 2, "should suggest 2 depots for 4 resources (cluster + isolated)");
    let max_coverage = suggestions.iter().map(|s| s.covers_count).max().unwrap();
    assert!(max_coverage >= 3, "one depot should cover the cluster of 3 resources");
}

#[test]
fn unreachable_resources_get_no_site() {
    let resources = vec![TilePos::new(20, 20)];
    let owned = vec![TilePos::new(2, 2)];
    assert!(calculate_suggested_depots(&resources, &owned, &vec![], TilePos::new(0, 0)).is_empty());
}

#[test]
fn rails_connect_only_owned_tiles() {
    let capital = TilePos::new(2, 2);
    let a = TilePos::new(3, 2);
    let b = TilePos::new(4, 2);
    let c = TilePos::new(5, 2);
    let mut rails = Rails::new();
    rails.insert(capital, a);
    rails.insert(a, b);
    rails.insert(b, c);
    let connected = compute_connected_tiles(capital, &vec![a, b], &rails);
    assert_eq!(connected, vec![capital, a, b]);
    let alone = compute_connected_tiles(capital, &vec![a, b], &Rails::new());
    assert_eq!(alone, vec![capital]);
}

#[test]
fn improvers_by_resource() {
    assert_eq!(improver_for_resource(&ResourceType::Cotton), Some(CivilianKind::Farmer));
    assert_eq!(improver_for_resource(&ResourceType::Wool), Some(CivilianKind::Rancher));
    assert_eq!(improver_for_resource(&ResourceType::Gems), Some(CivilianKind::Miner));
    assert_eq!(improver_for_resource(&ResourceType::Oil), Some(CivilianKind::Driller));
    assert_eq!(improver_for_resource(&ResourceType::Fish), None);
}

#[test]
fn production_plan_targets_shortages() {
    let buildings = vec![
        BuildingCapacity { kind: BuildingKind::FoodProcessingCenter, capacity: 4 },
        BuildingCapacity { kind: BuildingKind::ClothingFactory, capacity: 2 },
        BuildingCapacity { kind: BuildingKind::SteelMill, capacity: 3 },
    ];
    let plans = evaluate_production_plan(5, &buildings, &vec![], &vec![]);
    assert!(plans.iter().any(|o| o.output_good == Good::CannedFood && o.target_output > 0));
    assert_eq!(plans.len(), 3);
    assert_eq!(plans[0].target_output, 4);
    let stocked = vec![StockpileEntry { good: Good::CannedFood, total: 8, available: 0 }];
    let current = vec![(Good::CannedFood, 4), (Good::Clothing, 2)];
    let plans2 = evaluate_production_plan(5, &buildings, &stocked, &current);
    assert_eq!(plans2.len(), 2);
    assert_eq!(plans2[0].output_good, Good::CannedFood);
    assert_eq!(plans2[0].target_output, 0);
    assert_eq!(plans2[1].output_good, Good::Steel);
}

fn good_state(good: Good, available: u32, price: u32) -> MarketGoodState {
    MarketGoodState { good, available, current_price: price, has_buy_interest: false, sell_count: 0 }
}

#[test]
fn market_orders_request_buy_when_short() {
    let goods = vec![good_state(Good::Grain, 1, 60)];
    let orders = evaluate_market_orders(1, &goods, 1_000);
    assert!(orders.iter().any(|o| o.kind == MarketInterest::Buy && o.good == Good::Grain && o.requested > 0));
}

#[test]
fn market_orders_sell_surplus_goods() {
    let goods = vec![good_state(Good::Coal, SELL_RESERVE + SELL_MAX_PER_GOOD + 3, 100)];
    let orders = evaluate_market_orders(2, &goods, 500);
    assert!(orders
        .iter()
        .any(|o| o.kind == MarketInterest::Sell && o.good == Good::Coal && o.requested == SELL_MAX_PER_GOOD));
}

#[test]
fn market_orders_clear_buy_interest_when_broke() {
    let mut s = good_state(Good::Fish, 0, 80);
    s.has_buy_interest = true;
    let orders = evaluate_market_orders(3, &vec![s], 0);
    assert!(orders.iter().any(|o| o.kind == MarketInterest::Buy && o.good == Good::Fish && o.requested == 0));
}

#[test]
fn market_thresholds_follow_price_ratio() {
    // 0.5 of the normal price: stock up to 20 units, keep 14 back from sale.
    let cheap = evaluate_market_orders(1, &vec![good_state(Good::Coal, 20, 50)], 1_000);
    assert_eq!(cheap, vec![AdjustMarketOrder { nation: 1, good: Good::Coal, kind: MarketInterest::Buy, requested: 1 }, AdjustMarketOrder { nation: 1, good: Good::Coal, kind: MarketInterest::Sell, requested: 6 }]);
    // exactly 0.6: buy below 17, but the sale reserve stays at 14.
    let edge = evaluate_market_orders(1, &vec![good_state(Good::Coal, 17, 60)], 1_000);
    assert_eq!(edge, vec![AdjustMarketOrder { nation: 1, good: Good::Coal, kind: MarketInterest::Sell, requested: 3 }]);
    // 2.0: buy only below 5, sell above 3.
    let dear = evaluate_market_orders(1, &vec![good_state(Good::Coal, 4, 200)], 1_000);
    assert_eq!(dear, vec![AdjustMarketOrder { nation: 1, good: Good::Coal, kind: MarketInterest::Buy, requested: 1 }, AdjustMarketOrder { nation: 1, good: Good::Coal, kind: MarketInterest::Sell, requested: 1 }]);
}

#[test]
fn prices_and_buildings_per_good() {
    assert_eq!(default_price(Good::Grain), 60);
    assert_eq!(default_price(Good::Oil), 110);
    assert_eq!(default_price(Good::Steel), 100);
    assert_eq!(building_for_good(Good::Armaments), Some(BuildingKind::MetalWorks));
    assert_eq!(building_for_good(Good::Coal), None);
    assert_eq!(
        build_market_buy_order(3, Good::Iron, 4),
        AdjustMarketOrder { nation: 3, good: Good::Iron, kind: MarketInterest::Buy, requested: 4 }
    );
}

#[test]
fn civilian_targets_scale_with_territory() {
    assert_eq!(calculate_civilian_targets(1)[0], (CivilianKind::Engineer, 2));
    assert_eq!(calculate_civilian_targets(4)[0], (CivilianKind::Engineer, 3));
    assert_eq!(calculate_civilian_targets(4)[4], (CivilianKind::Rancher, 2));
    assert_eq!(calculate_civilian_targets(6)[5], (CivilianKind::Forester, 2));
}

fn costs() -> Vec<(CivilianKind, i64)> {
    vec![
        (CivilianKind::Engineer, 200),
        (CivilianKind::Prospector, 150),
        (CivilianKind::Farmer, 100),
        (CivilianKind::Miner, 150),
        (CivilianKind::Rancher, 100),
        (CivilianKind::Forester, 100),
    ]
}

#[test]
fn hires_civilian_when_below_target() {
    let hires = plan_ai_civilian_hiring(42, 1_000, 1, &vec![], &costs());
    assert_eq!(hires, vec![CivilianKind::Engineer]);
}

#[test]
fn does_not_hire_when_already_has_targets() {
    let mut civilians = vec![];
    let mut id = 0;
    for (kind, target) in calculate_civilian_targets(1) {
        for _ in 0..target {
            id += 1;
            civilians.push(Civilian {
                kind,
                position: TilePos::new(0, 0),
                owner: 42,
                civilian_id: CivilianId(id),
                has_moved: false,
            });
        }
    }
    assert!(plan_ai_civilian_hiring(42, 1_000, 1, &civilians, &costs()).is_empty());
    assert!(!plan_ai_civilian_hiring(43, 1_000, 1, &civilians, &costs()).is_empty());
}

#[test]
fn hiring_stops_when_cash_runs_short() {
    assert!(plan_ai_civilian_hiring(42, 199, 1, &vec![], &costs()).is_empty());
}

use rust_imperialism::ai::context::BeliefNation;

#[test]
fn belief_reads_first_stock_entry() {
    let belief = BeliefNation {
        entity: 3,
        stockpile: vec![
            StockpileEntry { good: Good::Coal, total: 9, available: 4 },
            StockpileEntry { good: Good::Coal, total: 1, available: 1 },
        ],
        treasury: 50,
    };
    assert_eq!(belief.stockpile_amount(Good::Coal), 9);
    assert_eq!(belief.available_amount(Good::Coal), 4);
    assert_eq!(belief.stockpile_amount(Good::Iron), 0);
    assert_eq!(belief.available_amount(Good::Iron), 0);
}

#[test]
fn buy_quantity_capped_by_unmet_demand() {
    let mut view = MarketView::new();
    view.record(Good::Coal, MarketObservation { supply: 10, demand: 13, price: 90 });
    assert_eq!(view.recommended_buy_qty(Good::Coal, 2, 10), Some(3));
    assert_eq!(view.recommended_buy_qty(Good::Coal, 10, 10), None);
    view.record(Good::Iron, MarketObservation { supply: 20, demand: 5, price: 90 });
    assert_eq!(view.recommended_buy_qty(Good::Iron, 0, 6), Some(1));
    assert_eq!(view.recommended_buy_qty(Good::Wool, 1, 6), Some(5));
}

#[test]
fn independent_tasks_go_highest_id_first_then_their_waiters() {
    let far = TilePos::new(9, 9);
    let at5 = TilePos::new(5, 0);
    let tasks = vec![
        (1u64, CivilianTask::MoveTo { target: far }),
        (5u64, CivilianTask::Idle),
        (3u64, CivilianTask::MoveTo { target: at5 }),
        (2u64, CivilianTask::BuildDepot),
    ];
    let positions = vec![(TilePos::new(1, 0), 1), (at5, 5), (TilePos::new(3, 0), 3), (TilePos::new(2, 0), 2)];
    let sorted = sort_civilian_tasks_topologically(&tasks, &positions);
    let ids: Vec<u64> = sorted.iter().map(|t| t.0).collect();
    assert_eq!(ids, vec![5, 3, 2, 1]);
}
