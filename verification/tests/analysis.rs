use rust_imperialism::ai::analysis::{
    belief_of_nation, gather_turn_candidates, rail_upgrade_candidates, target_stock_units, BeliefState,
    CandidateReason, RailLink, TransportAnalysis, TurnCandidate,
};
use rust_imperialism::ai::census::DepotRecord;
use rust_imperialism::ai::context::{AiPlanLedger, BeliefNation, MacroTag, MarketObservation, MarketView, MinorId};
use rust_imperialism::ai::snapshot::StockpileEntry;
use rust_imperialism::economy::Good;
use rust_imperialism::map::{Rails, TilePos};

fn entry(good: Good, total: u32, available: u32) -> StockpileEntry {
    StockpileEntry { good, total, available }
}

fn belief(entity: u64, stock: Vec<StockpileEntry>) -> BeliefNation {
    BeliefNation { entity, stockpile: stock, treasury: 100 }
}

#[test]
fn rebuild_keeps_last_belief_per_nation() {
    let mut state = BeliefState::new();
    assert!(state.for_entity(1).is_none());
    state.rebuild(
        7,
        vec![belief(1, vec![entry(Good::Coal, 1, 1)]), belief(2, vec![]), belief(1, vec![entry(Good::Coal, 9, 9)])],
    );
    assert_eq!(state.turn(), 7);
    assert_eq!(state.nations().len(), 2);
    assert_eq!(state.for_entity(1).unwrap().stockpile_amount(Good::Coal), 9);
    assert!(state.for_entity(2).is_some());
    assert!(state.for_entity(3).is_none());
    state.rebuild(8, vec![]);
    assert!(state.for_entity(1).is_none());
    assert!(state.nations().is_empty());
}

#[test]
fn belief_orders_stock_by_good() {
    let b = belief_of_nation(4, &vec![entry(Good::Steel, 1, 1), entry(Good::Grain, 2, 2), entry(Good::Coal, 3, 3)], -5);
    let goods: Vec<Good> = b.stockpile.iter().map(|e| e.good).collect();
    assert_eq!(goods, vec![Good::Grain, Good::Coal, Good::Steel]);
    assert_eq!(b.treasury, -5);
    assert_eq!(b.entity, 4);
}

#[test]
fn food_targets_are_smaller() {
    assert_eq!(target_stock_units(Good::Grain), 12);
    assert_eq!(target_stock_units(Good::Fish), 12);
    assert_eq!(target_stock_units(Good::Livestock), 12);
    assert_eq!(target_stock_units(Good::Fruit), 12);
    assert_eq!(target_stock_units(Good::Coal), 20);
    assert_eq!(target_stock_units(Good::Cotton), 20);
}

fn depot(x: u32, y: u32, owner: u64, connected: bool) -> DepotRecord {
    DepotRecord { position: TilePos::new(x, y), owner, connected }
}

#[test]
fn rail_candidates_shortest_first_at_most_four() {
    let capital = TilePos::new(10, 10);
    let depots = vec![
        depot(15, 10, 1, false),
        depot(11, 10, 1, false),
        depot(10, 12, 1, true),
        depot(12, 12, 2, false),
        depot(40, 10, 1, false),
        depot(10, 40, 1, false),
        depot(13, 10, 1, false),
        depot(9, 10, 1, false),
    ];
    let mut rails = Rails::new();
    rails.insert(capital, TilePos::new(9, 10));
    let links = rail_upgrade_candidates(1, capital, &depots, &rails);
    let spans: Vec<u64> = links.iter().map(|l| l.span).collect();
    assert_eq!(spans, vec![1, 3, 5, 30]);
    assert_eq!(links[0].to, TilePos::new(11, 10));
    assert_eq!(links[0].from, capital);
    // Beyond a span of 19 the two remaining links keep their listed order.
    assert_eq!(links[3].to, TilePos::new(40, 10));
}

#[test]
fn transport_analysis_answers_per_nation() {
    let link = RailLink { nation: 1, from: TilePos::new(0, 0), to: TilePos::new(2, 0), span: 2 };
    let mut analysis = TransportAnalysis::new();
    assert!(analysis.candidates_for(1).is_empty());
    analysis.replace(vec![(1, vec![link]), (2, vec![])]);
    assert_eq!(analysis.candidates_for(1), vec![link]);
    assert!(analysis.candidates_for(2).is_empty());
    assert!(analysis.candidates_for(3).is_empty());
}

#[test]
fn candidates_cover_purchases_rails_and_minors() {
    let mut state = BeliefState::new();
    state.rebuild(1, vec![belief(6, vec![entry(Good::Coal, 20, 20), entry(Good::Grain, 2, 2)])]);
    let mut market = MarketView::new();
    market.record(Good::Grain, MarketObservation { price: 100, supply: 0, demand: 4 });
    let link = RailLink { nation: 6, from: TilePos::new(0, 0), to: TilePos::new(3, 0), span: 3 };
    let mut transport = TransportAnalysis::new();
    transport.replace(vec![(6, vec![link])]);
    let mut ledger = AiPlanLedger::new();
    let goods = vec![Good::Grain, Good::Coal, Good::Iron];
    let all = gather_turn_candidates(&vec![6, 8], &state, &transport, &market, &ledger, &goods);
    assert_eq!(
        all,
        vec![
            TurnCandidate {
                nation: 6,
                tag: MacroTag::BuyResource { good: Good::Grain },
                reason: CandidateReason::Shortfall { qty: 4, desired: 12 },
            },
            TurnCandidate {
                nation: 6,
                tag: MacroTag::BuyResource { good: Good::Iron },
                reason: CandidateReason::Shortfall { qty: 20, desired: 20 },
            },
            TurnCandidate {
                nation: 6,
                tag: MacroTag::UpgradeRail { from: TilePos::new(0, 0), to: TilePos::new(3, 0) },
                reason: CandidateReason::Link { link },
            },
            TurnCandidate { nation: 6, tag: MacroTag::InvestMinor { minor: MinorId(1) }, reason: CandidateReason::Standing },
            TurnCandidate { nation: 8, tag: MacroTag::InvestMinor { minor: MinorId(3) }, reason: CandidateReason::Standing },
        ]
    );
    ledger.apply_cooldown(6, MacroTag::BuyResource { good: Good::Grain }, 2);
    ledger.apply_cooldown(8, MacroTag::InvestMinor { minor: MinorId(3) }, 2);
    let cooled = gather_turn_candidates(&vec![6, 8], &state, &transport, &market, &ledger, &goods);
    assert_eq!(cooled.len(), 3);
    assert_eq!(cooled[0].tag, MacroTag::BuyResource { good: Good::Iron });
}

/// The goods traded on the market in these tests: the raw resources.
fn market_resources() -> Vec<Good> {
    vec![
        Good::Grain,
        Good::Fruit,
        Good::Livestock,
        Good::Fish,
        Good::Cotton,
        Good::Wool,
        Good::Timber,
        Good::Coal,
        Good::Iron,
        Good::Oil,
    ]
}

#[test]
fn gathers_market_candidates_for_multiple_resources() {
    let nation: u64 = 7;
    let mut stockpile: Vec<StockpileEntry> = market_resources()
        .into_iter()
        .map(|good| {
            let target = target_stock_units(good);
            StockpileEntry { good, total: target, available: target }
        })
        .collect();
    for (good, available) in [(Good::Grain, 4), (Good::Coal, 2)] {
        if let Some(entry) = stockpile.iter_mut().find(|entry| entry.good == good) {
            entry.total = available;
            entry.available = available;
        }
    }
    let mut belief = BeliefState::new();
    belief.rebuild(1, vec![BeliefNation { entity: nation, stockpile, treasury: 0 }]);

    let mut market = MarketView::new();
    market.record(Good::Grain, MarketObservation { price: 60, supply: 1, demand: 6 });
    market.record(Good::Coal, MarketObservation { price: 100, supply: 0, demand: 5 });

    let candidates = gather_turn_candidates(
        &vec![nation],
        &belief,
        &TransportAnalysis::new(),
        &market,
        &AiPlanLedger::new(),
        &market_resources(),
    );
    let mut saw_grain = false;
    let mut saw_coal = false;
    for candidate in candidates.iter().filter(|c| c.nation == nation) {
        match candidate.tag {
            MacroTag::BuyResource { good: Good::Grain } => saw_grain = true,
            MacroTag::BuyResource { good: Good::Coal } => saw_coal = true,
            _ => {},
        }
    }
    assert!(saw_grain);
    assert!(saw_coal);
}

#[test]
fn test_resource_target_days() {
    assert_eq!(target_stock_units(Good::Grain) as f32, 12.0);
    assert_eq!(target_stock_units(Good::Fish) as f32, 12.0);
    assert_eq!(target_stock_units(Good::Coal) as f32, 20.0);
    assert_eq!(target_stock_units(Good::Steel) as f32, 20.0);
}
