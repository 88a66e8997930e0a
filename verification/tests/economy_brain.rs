use rust_imperialism::ai::economy_brain::{AiEconomyBrain, EconomyStep};
use rust_imperialism::ai::snapshot::BuildingCapacity;
use rust_imperialism::ai::trade::{MarketGoodState, MarketInterest};
use rust_imperialism::economy::{BuildingKind, Good};

fn food_plant() -> Vec<BuildingCapacity> {
    vec![BuildingCapacity { kind: BuildingKind::FoodProcessingCenter, capacity: 4 }]
}

#[test]
fn fresh_routine_plans_production_first() {
    let brain = AiEconomyBrain::new();
    assert!(brain.should_plan_buildings(1));
    assert!(!brain.should_apply_production(1));
    assert!(brain.should_plan_market(1));
    assert_eq!(brain.next_step(1), Some(EconomyStep::PlanBuildingFocus));
}

#[test]
fn routine_runs_each_step_once_per_turn() {
    let mut brain = AiEconomyBrain::new();
    brain.plan_building_focus(3, 7, &food_plant(), &vec![], &vec![]);
    assert_eq!(brain.planned_production.len(), 1);
    assert_eq!(brain.planned_production[0].output_good, Good::CannedFood);
    assert_eq!(brain.planned_production[0].target_output, 4);
    assert_eq!(brain.next_step(3), Some(EconomyStep::ApplyProductionPlan));

    let issued = brain.take_production_plan(3);
    assert_eq!(issued.len(), 1);
    assert_eq!(issued[0].nation, 7);
    assert!(brain.planned_production.is_empty());
    assert_eq!(brain.last_production_turn, Some(3));
    assert_eq!(brain.next_step(3), Some(EconomyStep::PlanMarketOrders));

    let goods = vec![MarketGoodState {
        good: Good::Grain,
        available: 1,
        current_price: 60,
        has_buy_interest: false,
        sell_count: 0,
    }];
    let orders = brain.plan_market_orders(3, 7, &goods, 1_000);
    assert!(orders.iter().any(|o| o.kind == MarketInterest::Buy && o.good == Good::Grain));
    assert_eq!(brain.next_step(3), None);
    assert_eq!(brain.next_step(4), Some(EconomyStep::PlanBuildingFocus));
}

#[test]
fn empty_plan_skips_issuing() {
    let mut brain = AiEconomyBrain::new();
    brain.plan_building_focus(2, 1, &vec![], &vec![], &vec![]);
    assert!(brain.planned_production.is_empty());
    assert_eq!(brain.next_step(2), Some(EconomyStep::PlanMarketOrders));
    let issued = brain.take_production_plan(2);
    assert!(issued.is_empty());
    assert_eq!(brain.last_production_turn, None);
}

#[test]
fn new_plan_replaces_the_old_one() {
    let mut brain = AiEconomyBrain::new();
    brain.plan_building_focus(1, 1, &food_plant(), &vec![], &vec![]);
    assert_eq!(brain.planned_production.len(), 1);
    brain.plan_building_focus(2, 1, &vec![], &vec![], &vec![]);
    assert!(brain.planned_production.is_empty());
    assert_eq!(brain.last_building_turn, Some(2));
}
