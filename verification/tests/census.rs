use rust_imperialism::ai::census::{
    build_ai_snapshot, build_nation_snapshot, civilians_of_nation, depot_positions_of, owned_tiles_of,
    survey_resources, unconnected_depots_of, DepotRecord, NationRecord,
};
use rust_imperialism::ai::snapshot::StockpileEntry;
use rust_imperialism::civilians::types::{Civilian, CivilianId, CivilianKind, ProspectingKnowledge};
use rust_imperialism::economy::Good;
use rust_imperialism::map::{MapTile, Province, ProvinceId, Rails, TerrainType, TileGrid, TilePos};
use rust_imperialism::resources::{DevelopmentLevel, ResourceType, TileResource};

const NATION: u64 = 5;
const OTHER: u64 = 9;

fn province(id: u32, owner: Option<u64>, tiles: Vec<TilePos>) -> Province {
    Province { id: ProvinceId(id), owner, tiles, city_tile: TilePos::new(0, 0) }
}

fn grid_with_resources(resources: &[(TilePos, TileResource)]) -> TileGrid {
    let mut g = TileGrid::empty(8, 8);
    for x in 0..8 {
        for y in 0..8 {
            g.set(TilePos::new(x, y), MapTile::new(Some(ProvinceId(1)), TerrainType::Grass));
        }
    }
    for (p, r) in resources {
        let mut tile = MapTile::new(Some(ProvinceId(1)), TerrainType::Grass);
        tile.resource = Some(*r);
        g.set(*p, tile);
    }
    g
}

fn resource(kind: ResourceType, level: DevelopmentLevel) -> TileResource {
    TileResource { resource_type: kind, development: level, discovered: true }
}

#[test]
fn owned_tiles_merge_provinces_once() {
    let provinces = vec![
        province(1, Some(NATION), vec![TilePos::new(0, 0), TilePos::new(1, 0)]),
        province(2, Some(OTHER), vec![TilePos::new(5, 5)]),
        province(3, Some(NATION), vec![TilePos::new(1, 0), TilePos::new(2, 0)]),
        province(4, None, vec![TilePos::new(6, 6)]),
    ];
    let owned = owned_tiles_of(&provinces, NATION);
    assert_eq!(owned, vec![TilePos::new(0, 0), TilePos::new(1, 0), TilePos::new(2, 0)]);
}

#[test]
fn depots_split_by_owner_and_connection() {
    let depots = vec![
        DepotRecord { position: TilePos::new(4, 0), owner: NATION, connected: false },
        DepotRecord { position: TilePos::new(1, 0), owner: NATION, connected: false },
        DepotRecord { position: TilePos::new(2, 0), owner: NATION, connected: true },
        DepotRecord { position: TilePos::new(3, 3), owner: OTHER, connected: false },
    ];
    let positions = depot_positions_of(&depots, NATION);
    assert_eq!(positions, vec![TilePos::new(4, 0), TilePos::new(1, 0), TilePos::new(2, 0)]);
    let unconnected = unconnected_depots_of(&depots, NATION, TilePos::new(0, 0));
    assert_eq!(unconnected.len(), 2);
    assert_eq!(unconnected[0].position, TilePos::new(1, 0));
    assert_eq!(unconnected[0].distance_from_capital, 1);
    assert_eq!(unconnected[1].position, TilePos::new(4, 0));
    assert_eq!(unconnected[1].distance_from_capital, 4);
}

#[test]
fn survey_skips_unknown_and_unprospected_resources() {
    let hidden = TileResource { resource_type: ResourceType::Timber, development: DevelopmentLevel::Lv0, discovered: false };
    let grid = grid_with_resources(&[
        (TilePos::new(3, 0), resource(ResourceType::Grain, DevelopmentLevel::Lv1)),
        (TilePos::new(1, 0), resource(ResourceType::Wool, DevelopmentLevel::Lv0)),
        (TilePos::new(2, 0), resource(ResourceType::Coal, DevelopmentLevel::Lv0)),
        (TilePos::new(4, 0), hidden),
        (TilePos::new(5, 0), resource(ResourceType::Timber, DevelopmentLevel::Lv3)),
        (TilePos::new(0, 1), resource(ResourceType::Fish, DevelopmentLevel::Lv0)),
    ]);
    let owned: Vec<TilePos> = (0..6).map(|x| TilePos::new(x, 0)).chain(std::iter::once(TilePos::new(0, 1))).collect();
    let knowledge = ProspectingKnowledge::new();
    let (resources, improvable) =
        survey_resources(&owned, &vec![TilePos::new(0, 0), TilePos::new(1, 0)], &grid, &knowledge, NATION, TilePos::new(0, 0));
    // Coal is not prospected yet, the timber on (4, 0) is hidden.
    assert_eq!(resources, vec![TilePos::new(1, 0), TilePos::new(3, 0), TilePos::new(5, 0), TilePos::new(0, 1)]);
    // Fish needs a port and the timber on (5, 0) is fully developed.
    assert_eq!(improvable.len(), 2);
    assert_eq!(improvable[0].position, TilePos::new(1, 0));
    assert_eq!(improvable[0].improver_kind, CivilianKind::Rancher);
    assert!(improvable[0].is_connected);
    assert_eq!(improvable[1].position, TilePos::new(3, 0));
    assert_eq!(improvable[1].distance_from_capital, 3);
    assert!(!improvable[1].is_connected);

    let mut knowledge = ProspectingKnowledge::new();
    knowledge.mark_discovered(TilePos::new(2, 0), NATION);
    let (resources, improvable) = survey_resources(&owned, &vec![], &grid, &knowledge, NATION, TilePos::new(0, 0));
    assert!(resources.contains(&TilePos::new(2, 0)));
    assert_eq!(improvable[1].position, TilePos::new(2, 0));
    assert_eq!(improvable[1].improver_kind, CivilianKind::Miner);
}

#[test]
fn survey_counts_developed_neighbours() {
    let grid = grid_with_resources(&[
        (TilePos::new(2, 2), resource(ResourceType::Grain, DevelopmentLevel::Lv0)),
        (TilePos::new(1, 2), resource(ResourceType::Grain, DevelopmentLevel::Lv2)),
        (TilePos::new(3, 2), resource(ResourceType::Cotton, DevelopmentLevel::Lv1)),
        (TilePos::new(2, 3), resource(ResourceType::Fruit, DevelopmentLevel::Lv0)),
    ]);
    let (_, improvable) = survey_resources(
        &vec![TilePos::new(2, 2)],
        &vec![],
        &grid,
        &ProspectingKnowledge::new(),
        NATION,
        TilePos::new(0, 0),
    );
    assert_eq!(improvable.len(), 1);
    assert_eq!(improvable[0].adjacent_developed_count, 2);
}

#[test]
fn ties_in_distance_put_less_developed_first() {
    let grid = grid_with_resources(&[
        (TilePos::new(1, 0), resource(ResourceType::Grain, DevelopmentLevel::Lv2)),
        (TilePos::new(0, 1), resource(ResourceType::Grain, DevelopmentLevel::Lv0)),
    ]);
    let (_, improvable) = survey_resources(
        &vec![TilePos::new(1, 0), TilePos::new(0, 1)],
        &vec![],
        &grid,
        &ProspectingKnowledge::new(),
        NATION,
        TilePos::new(0, 0),
    );
    assert_eq!(improvable[0].position, TilePos::new(0, 1));
    assert_eq!(improvable[1].position, TilePos::new(1, 0));
}

fn unit(owner: u64, x: u32) -> Civilian {
    Civilian { kind: CivilianKind::Engineer, position: TilePos::new(x, 0), owner, civilian_id: CivilianId(x), has_moved: x == 2 }
}

#[test]
fn civilians_keep_only_own_units() {
    let civs = vec![(11, unit(NATION, 1)), (12, unit(OTHER, 3)), (13, unit(NATION, 2))];
    let mine = civilians_of_nation(&civs, NATION);
    assert_eq!(mine.len(), 2);
    assert_eq!(mine[0].entity, 11);
    assert_eq!(mine[1].entity, 13);
    assert!(mine[1].has_moved);
}

fn record() -> NationRecord {
    NationRecord {
        entity: NATION,
        capital: TilePos::new(0, 0),
        treasury: 1234,
        stockpile: vec![StockpileEntry { good: Good::Coal, total: 5, available: 3 }],
        prospectable_tiles: vec![],
        rail_constructions: vec![],
        rail_buildable: vec![],
        depot_buildable: vec![],
        buildings: vec![],
    }
}

#[test]
fn nation_snapshot_brings_the_parts_together() {
    let provinces = vec![province(
        1,
        Some(NATION),
        vec![TilePos::new(0, 0), TilePos::new(1, 0), TilePos::new(2, 0), TilePos::new(3, 0), TilePos::new(4, 0)],
    )];
    let grid = grid_with_resources(&[(TilePos::new(4, 0), resource(ResourceType::Timber, DevelopmentLevel::Lv0))]);
    let mut rails = Rails::new();
    rails.insert(TilePos::new(0, 0), TilePos::new(1, 0));
    let depots = vec![DepotRecord { position: TilePos::new(1, 0), owner: NATION, connected: true }];
    let civs = vec![(21, unit(NATION, 0))];
    let snap =
        build_nation_snapshot(&record(), &provinces, &depots, &grid, &ProspectingKnowledge::new(), &rails, &civs);
    assert_eq!(snap.entity, NATION);
    assert_eq!(snap.treasury, 1234);
    assert_eq!(snap.stockpile_amount(Good::Coal), 5);
    assert_eq!(snap.connected_tiles, vec![TilePos::new(0, 0), TilePos::new(1, 0)]);
    assert_eq!(snap.depot_positions, vec![TilePos::new(1, 0)]);
    assert!(snap.unconnected_depots.is_empty());
    assert_eq!(snap.improvable_tiles.len(), 1);
    assert_eq!(snap.improvable_tiles[0].improver_kind, CivilianKind::Forester);
    // The timber on (4, 0) is out of reach of the capital and the depot.
    assert_eq!(snap.suggested_depots.len(), 1);
    assert!(rust_imperialism::map::distance(snap.suggested_depots[0].position, TilePos::new(4, 0)) <= 1);
    assert_eq!(snap.civilians.len(), 1);
}

#[test]
fn ai_snapshot_lists_each_nation() {
    let provinces = vec![province(1, Some(NATION), vec![TilePos::new(0, 0)])];
    let grid = grid_with_resources(&[]);
    let mut other = record();
    other.entity = OTHER;
    let snap = build_ai_snapshot(
        4,
        &vec![Good::Coal, Good::Grain],
        &vec![120, 60],
        &vec![record(), other],
        &provinces,
        &vec![],
        Some(&grid),
        &ProspectingKnowledge::new(),
        &Rails::new(),
        &vec![],
    );
    assert_eq!(snap.turn, 4);
    assert_eq!(snap.nations.len(), 2);
    assert_eq!(snap.get_nation(OTHER).unwrap().entity, OTHER);
    assert_eq!(snap.get_nation(NATION).unwrap().owned_tiles, vec![TilePos::new(0, 0)]);
    assert!(snap.get_nation(77).is_none());
    assert_eq!(snap.market.price_for(Good::Coal), 120);
    assert_eq!(snap.market.prices, vec![(Good::Coal, 120), (Good::Grain, 60)]);
}

#[test]
fn ai_snapshot_without_map_has_market_but_no_nations() {
    let provinces = vec![province(1, Some(NATION), vec![TilePos::new(0, 0)])];
    let snap = build_ai_snapshot(
        9,
        &vec![Good::Iron],
        &vec![75],
        &vec![record()],
        &provinces,
        &vec![],
        None,
        &ProspectingKnowledge::new(),
        &Rails::new(),
        &vec![],
    );
    assert_eq!(snap.turn, 9);
    assert!(snap.nations.is_empty());
    assert_eq!(snap.market.prices, vec![(Good::Iron, 75)]);
}
