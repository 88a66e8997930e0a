use rust_imperialism::ai::goals::{
    generate_hiring_goals, generate_improvement_goals, generate_infrastructure_goals, generate_market_goals,
    generate_prospecting_goals,
};
use rust_imperialism::ai::planner::NationGoal;
use rust_imperialism::ai::snapshot::{
    CivilianSnapshot, DepotInfo, ImprovableTile, NationSnapshot, ProspectableTile, StockpileEntry, SuggestedDepot,
};
use rust_imperialism::civilians::types::CivilianKind;
use rust_imperialism::economy::Good;
use rust_imperialism::map::TilePos;
use rust_imperialism::resources::{DevelopmentLevel, ResourceType};

fn nation() -> NationSnapshot {
    NationSnapshot {
        entity: 1,
        capital_pos: TilePos::new(0, 0),
        treasury: 500,
        stockpile: vec![],
        civilians: vec![],
        connected_tiles: vec![],
        unconnected_depots: vec![],
        suggested_depots: vec![],
        improvable_tiles: vec![],
        prospectable_tiles: vec![],
        owned_tiles: vec![],
        depot_positions: vec![],
        rail_constructions: vec![],
        rail_buildable: vec![],
        depot_buildable: vec![],
        buildings: vec![],
    }
}

fn stock(good: Good, available: u32) -> StockpileEntry {
    StockpileEntry { good, total: available, available }
}

#[test]
fn market_goals_buy_shortages_and_sell_surplus() {
    let mut n = nation();
    n.stockpile = vec![stock(Good::Grain, 5), stock(Good::Coal, 50), stock(Good::Iron, 15), stock(Good::Wool, 41)];
    let goals = generate_market_goals(&n, &vec![Good::Grain, Good::Coal, Good::Iron, Good::Wool, Good::Steel]);
    assert_eq!(
        goals,
        vec![
            // 12 - 5 = 7 grain.
            NationGoal::BuyResource { good: Good::Grain, qty: 7 },
            // 50 > 40: sell min(50 - 20, 8).
            NationGoal::SellResource { good: Good::Coal, qty: 8 },
            // 15 iron is not below the shortage threshold, and not a surplus.
            NationGoal::SellResource { good: Good::Wool, qty: 8 },
            // No steel at all: buy at most 10 towards 20.
            NationGoal::BuyResource { good: Good::Steel, qty: 10 },
        ]
    );
}

#[test]
fn market_goals_sell_small_surplus_of_food() {
    let mut n = nation();
    n.stockpile = vec![stock(Good::Fish, 25)];
    assert_eq!(generate_market_goals(&n, &vec![Good::Fish]), vec![NationGoal::SellResource { good: Good::Fish, qty: 8 }]);
    n.stockpile = vec![stock(Good::Fish, 24)];
    assert!(generate_market_goals(&n, &vec![Good::Fish]).is_empty());
}

#[test]
fn infrastructure_goals_list_sites_then_connections() {
    let mut n = nation();
    n.suggested_depots = vec![SuggestedDepot { position: TilePos::new(3, 3), covers_count: 2, distance_from_capital: 4 }];
    n.unconnected_depots = vec![
        DepotInfo { position: TilePos::new(1, 1), distance_from_capital: 1 },
        DepotInfo { position: TilePos::new(5, 1), distance_from_capital: 5 },
    ];
    assert_eq!(
        generate_infrastructure_goals(&n),
        vec![
            NationGoal::BuildDepotAt { tile: TilePos::new(3, 3) },
            NationGoal::ConnectDepot { tile: TilePos::new(1, 1) },
            NationGoal::ConnectDepot { tile: TilePos::new(5, 1) },
        ]
    );
}

#[test]
fn improvement_and_prospecting_goals_per_tile() {
    let mut n = nation();
    n.improvable_tiles = vec![ImprovableTile {
        position: TilePos::new(2, 2),
        resource_type: ResourceType::Timber,
        development: DevelopmentLevel::Lv1,
        improver_kind: CivilianKind::Forester,
        distance_from_capital: 3,
        is_connected: false,
        adjacent_developed_count: 0,
    }];
    n.prospectable_tiles = vec![ProspectableTile { position: TilePos::new(4, 4), distance_from_capital: 6 }];
    assert_eq!(
        generate_improvement_goals(&n),
        vec![NationGoal::ImproveTile { tile: TilePos::new(2, 2), civilian_kind: CivilianKind::Forester }]
    );
    assert_eq!(generate_prospecting_goals(&n), vec![NationGoal::ProspectTile { tile: TilePos::new(4, 4) }]);
}

#[test]
fn hiring_goals_for_missing_affordable_kinds() {
    let mut n = nation();
    n.treasury = 300;
    n.civilians = vec![
        CivilianSnapshot { entity: 1, kind: CivilianKind::Engineer, position: TilePos::new(0, 0), has_moved: false },
        CivilianSnapshot { entity: 2, kind: CivilianKind::Engineer, position: TilePos::new(0, 0), has_moved: false },
        CivilianSnapshot { entity: 3, kind: CivilianKind::Rancher, position: TilePos::new(0, 0), has_moved: false },
    ];
    let costs = vec![
        (CivilianKind::Engineer, 100),
        (CivilianKind::Prospector, 400),
        (CivilianKind::Farmer, 300),
        (CivilianKind::Miner, 200),
        (CivilianKind::Rancher, 100),
    ];
    assert_eq!(
        generate_hiring_goals(&n, &costs),
        vec![NationGoal::HireCivilian { kind: CivilianKind::Farmer }, NationGoal::HireCivilian { kind: CivilianKind::Miner }]
    );
}
