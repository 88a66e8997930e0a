use rust_imperialism::ai::context::TurnPhase;
use rust_imperialism::ai::snapshot::StockpileEntry;
use rust_imperialism::ai::turn_context::{
    nation_turn_snapshot, training_skill_order, AiAllocationSnapshot, AiMarketBuy, AiNationSnapshot,
    AiTransportSnapshot, AiTurnContext, AiWorkforceSnapshot, AllocationRecord, CapacitySnapshot, WorkerSkill,
};
use rust_imperialism::economy::{Good, TransportCommodity};

fn workforce() -> AiWorkforceSnapshot {
    AiWorkforceSnapshot { untrained: 2, trained: 1, expert: 1, available_labor: 8 }
}

fn picture(entity: u64) -> AiNationSnapshot {
    nation_turn_snapshot(
        entity,
        &vec![],
        AiWorkforceSnapshot { untrained: 0, trained: 0, expert: 0, available_labor: 0 },
        AiAllocationSnapshot::from_allocations(None),
        AiTransportSnapshot::from_resources(None, None, None),
    )
}

#[test]
fn builds_snapshot_for_enemy_turn() {
    let nation: u64 = 1;
    let building: u64 = 40;
    let stockpile = vec![
        StockpileEntry { good: Good::Coal, total: 4, available: 4 },
        StockpileEntry { good: Good::Grain, total: 5, available: 3 },
    ];
    let record = AllocationRecord {
        production: vec![(building, Good::Steel, 2)],
        recruitment: 1,
        training: vec![(WorkerSkill::Untrained, 1)],
        market_buys: vec![Good::Coal, Good::Grain],
        market_sells: vec![(Good::Steel, 1)],
    };
    let allocations = AiAllocationSnapshot::from_allocations(Some(&record));
    let transport = AiTransportSnapshot::from_resources(
        Some(CapacitySnapshot { total: 12, used: 7 }),
        Some(&vec![(TransportCommodity::Steel, 4, 2)]),
        Some(&vec![(TransportCommodity::Steel, 1, 5)]),
    );
    let snapshot = nation_turn_snapshot(nation, &stockpile, workforce(), allocations, transport);

    let mut context = AiTurnContext::new();
    context.populate(3, TurnPhase::EnemyTurn, vec![snapshot]);
    assert_eq!(context.turn(), 3);
    assert_eq!(context.phase(), TurnPhase::EnemyTurn);
    assert!(!context.is_empty());

    let snapshot = context.for_nation(nation).expect("nation snapshot");
    let grain_entry = snapshot.stockpile.iter().find(|entry| entry.good == Good::Grain).expect("grain entry");
    assert_eq!(grain_entry.total, 5);
    assert_eq!(grain_entry.available, 3);
    let coal_entry = snapshot.stockpile.iter().find(|entry| entry.good == Good::Coal).expect("coal entry");
    assert_eq!(coal_entry.total, 4);
    assert_eq!(snapshot.stockpile[0].good, Good::Grain);

    assert_eq!(snapshot.workforce.untrained, 2);
    assert_eq!(snapshot.workforce.trained, 1);
    assert_eq!(snapshot.workforce.expert, 1);
    assert_eq!(snapshot.workforce.available_labor, 8);

    assert_eq!(snapshot.allocations.recruitment, 1);
    assert_eq!(snapshot.allocations.production.len(), 1);
    assert_eq!(snapshot.allocations.training.len(), 1);
    assert_eq!(snapshot.allocations.market_buys, vec![AiMarketBuy { good: Good::Grain }, AiMarketBuy { good: Good::Coal }]);
    assert_eq!(snapshot.allocations.market_sells.len(), 1);

    assert_eq!(snapshot.transport.capacity.total, 12);
    assert_eq!(snapshot.transport.capacity.used, 7);
    assert_eq!(snapshot.transport.allocations.len(), 1);
    assert_eq!(snapshot.transport.allocations[0].commodity, TransportCommodity::Steel);
    assert_eq!(snapshot.transport.demand.len(), 1);
    assert_eq!(snapshot.transport.demand[0].demand, 5);
}

#[test]
fn clears_previous_snapshots_when_no_nations() {
    let nation: u64 = 1;
    let mut context = AiTurnContext::new();
    context.populate(2, TurnPhase::EnemyTurn, vec![picture(nation)]);
    assert!(context.for_nation(nation).is_some());

    context.populate(3, TurnPhase::PlayerTurn, vec![]);
    context.populate(4, TurnPhase::EnemyTurn, vec![]);
    assert!(context.is_empty());
    assert_eq!(context.turn(), 4);
    assert_eq!(context.phase(), TurnPhase::EnemyTurn);
}

#[test]
fn context_orders_nations_and_clears() {
    let mut context = AiTurnContext::new();
    assert_eq!(context.turn(), 0);
    assert_eq!(context.phase(), TurnPhase::PlayerTurn);
    context.populate(5, TurnPhase::Processing, vec![picture(9), picture(2), picture(5)]);
    let ids: Vec<u64> = context.nations().iter().map(|n| n.entity).collect();
    assert_eq!(ids, vec![2, 5, 9]);
    assert!(context.for_nation(7).is_none());
    context.clear();
    assert!(context.is_empty());
    assert_eq!(context.turn(), 0);
    assert_eq!(context.phase(), TurnPhase::PlayerTurn);
}

#[test]
fn allocations_are_ordered() {
    let record = AllocationRecord {
        production: vec![(9, Good::Coal, 1), (3, Good::Steel, 4), (3, Good::Iron, 2)],
        recruitment: 0,
        training: vec![(WorkerSkill::Expert, 1), (WorkerSkill::Untrained, 2), (WorkerSkill::Trained, 3)],
        market_buys: vec![Good::Steel, Good::Wool],
        market_sells: vec![(Good::Fuel, 1), (Good::Fish, 2)],
    };
    let s = AiAllocationSnapshot::from_allocations(Some(&record));
    let prod: Vec<(u64, Good)> = s.production.iter().map(|p| (p.building, p.output)).collect();
    assert_eq!(prod, vec![(3, Good::Iron), (3, Good::Steel), (9, Good::Coal)]);
    let skills: Vec<WorkerSkill> = s.training.iter().map(|t| t.skill).collect();
    assert_eq!(skills, vec![WorkerSkill::Untrained, WorkerSkill::Trained, WorkerSkill::Expert]);
    assert_eq!(s.market_buys[0].good, Good::Wool);
    assert_eq!(s.market_sells[0].good, Good::Fish);
    assert_eq!(training_skill_order(WorkerSkill::Expert), 2);
    let none = AiAllocationSnapshot::from_allocations(None);
    assert!(none.production.is_empty() && none.market_buys.is_empty());
}

#[test]
fn transport_lists_only_active_commodities_in_order() {
    let t = AiTransportSnapshot::from_resources(
        None,
        Some(&vec![(TransportCommodity::Steel, 0, 0), (TransportCommodity::Coal, 3, 0), (TransportCommodity::Grain, 0, 1)]),
        None,
    );
    assert_eq!(t.capacity, CapacitySnapshot { total: 0, used: 0 });
    let cs: Vec<TransportCommodity> = t.allocations.iter().map(|a| a.commodity).collect();
    assert_eq!(cs, vec![TransportCommodity::Grain, TransportCommodity::Coal]);
    assert!(t.demand.is_empty());
}

#[test]
fn market_volume_sums_interest_and_reservations() {
    let make = |entity: u64, buys: Vec<Good>, sells: Vec<(Good, usize)>| {
        let record = AllocationRecord { production: vec![], recruitment: 0, training: vec![], market_buys: buys, market_sells: sells };
        nation_turn_snapshot(
            entity,
            &vec![],
            workforce(),
            AiAllocationSnapshot::from_allocations(Some(&record)),
            AiTransportSnapshot::from_resources(None, None, None),
        )
    };
    let mut context = AiTurnContext::new();
    context.populate(
        1,
        TurnPhase::EnemyTurn,
        vec![make(1, vec![Good::Coal], vec![(Good::Iron, 3)]), make(2, vec![Good::Coal, Good::Iron], vec![(Good::Iron, 4)])],
    );
    assert_eq!(context.market_volume(Good::Coal), (0, 2));
    assert_eq!(context.market_volume(Good::Iron), (7, 1));
    assert_eq!(context.market_volume(Good::Wool), (0, 0));
}
