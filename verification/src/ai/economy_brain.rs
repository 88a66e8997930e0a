//! The per-nation economy routine of the AI: each turn it plans production,
//! issues the planned production changes, and places market orders, each at
//! most once, in that order of preference.

use crate::ai::snapshot::{BuildingCapacity, StockpileEntry};
use crate::ai::trade::{
    evaluate_market_orders, evaluate_production_plan, market_orders, production_plan,
    production_priorities, AdjustMarketOrder, AdjustProduction, MarketGoodState,
};
use crate::economy::Good;
use vstd::prelude::*;

verus! {

/// The economy step that a nation's AI takes next.
#[derive(Clone, Copy, Debug, PartialEq, Eq, Structural)]
pub enum EconomyStep {
    /// Work out which production changes the nation wants.
    PlanBuildingFocus,
    /// Issue the production changes planned earlier.
    ApplyProductionPlan,
    /// Place this turn's market orders.
    PlanMarketOrders,
}

/// What the economy routine of one AI nation remembers between steps.
pub struct AiEconomyBrain {
    /// Production changes planned and not yet issued.
    pub planned_production: Vec<AdjustProduction>,
    /// Turn on which production was last planned.
    pub last_building_turn: Option<u32>,
    /// Turn on which planned production was last issued.
    pub last_production_turn: Option<u32>,
    /// Turn on which market orders were last placed.
    pub last_market_turn: Option<u32>,
}

/// Production may be planned on `turn`: it was not planned on that turn yet.
pub open spec fn building_ready(b: &AiEconomyBrain, turn: u32) -> bool {
    b.last_building_turn != Some(turn)
}

/// Planned production may be issued on `turn`: it was not issued on that
/// turn yet and there is something to issue.
pub open spec fn production_ready(b: &AiEconomyBrain, turn: u32) -> bool {
    b.last_production_turn != Some(turn) && b.planned_production@.len() > 0
}

/// Market orders may be placed on `turn`: none were placed on that turn yet.
pub open spec fn market_ready(b: &AiEconomyBrain, turn: u32) -> bool {
    b.last_market_turn != Some(turn)
}

/// The first ready step in order of preference; `None` when the nation has
/// nothing left to do this turn.
pub open spec fn economy_step(b: &AiEconomyBrain, turn: u32) -> Option<EconomyStep> {
    if building_ready(b, turn) {
        Some(EconomyStep::PlanBuildingFocus)
    } else if production_ready(b, turn) {
        Some(EconomyStep::ApplyProductionPlan)
    } else if market_ready(b, turn) {
        Some(EconomyStep::PlanMarketOrders)
    } else {
        None
    }
}

impl AiEconomyBrain {
    /// A routine that has planned nothing and taken no step yet.
    pub fn new() -> (b: Self)
        ensures
            b.planned_production@.len() == 0,
            b.last_building_turn is None,
            b.last_production_turn is None,
            b.last_market_turn is None,
    {
        AiEconomyBrain {
            planned_production: Vec::new(),
            last_building_turn: None,
            last_production_turn: None,
            last_market_turn: None,
        }
    }

    /// Whether production may be planned on `turn`.
    pub fn should_plan_buildings(&self, turn: u32) -> (r: bool)
        ensures
            r == building_ready(self, turn),
    {
        match self.last_building_turn {
            Some(t) => t != turn,
            None => true,
        }
    }

    /// Whether planned production may be issued on `turn`.
    pub fn should_apply_production(&self, turn: u32) -> (r: bool)
        ensures
            r == production_ready(self, turn),
    {
        let fresh = match self.last_production_turn {
            Some(t) => t != turn,
            None => true,
        };
        fresh && self.planned_production.len() > 0
    }

    /// Whether market orders may be placed on `turn`.
    pub fn should_plan_market(&self, turn: u32) -> (r: bool)
        ensures
            r == market_ready(self, turn),
    {
        match self.last_market_turn {
            Some(t) => t != turn,
            None => true,
        }
    }

    /// The step to take next on `turn`.
    pub fn next_step(&self, turn: u32) -> (r: Option<EconomyStep>)
        ensures
            r == economy_step(self, turn),
    {
        if self.should_plan_buildings(turn) {
            Some(EconomyStep::PlanBuildingFocus)
        } else if self.should_apply_production(turn) {
            Some(EconomyStep::ApplyProductionPlan)
        } else if self.should_plan_market(turn) {
            Some(EconomyStep::PlanMarketOrders)
        } else {
            None
        }
    }

    /// Plans production for `nation` on `turn`: the plan replaces whatever
    /// was planned before.
    pub fn plan_building_focus(
        &mut self,
        turn: u32,
        nation: u64,
        buildings: &Vec<BuildingCapacity>,
        stockpile: &Vec<StockpileEntry>,
        current_production: &Vec<(Good, u32)>,
    )
        ensures
            final(self).planned_production@ == production_plan(
                nation,
                buildings@,
                stockpile@,
                current_production@,
                production_priorities(),
            ),
            final(self).last_building_turn == Some(turn),
            final(self).last_production_turn == old(self).last_production_turn,
            final(self).last_market_turn == old(self).last_market_turn,
    {
        let plans = evaluate_production_plan(nation, buildings, stockpile, current_production);
        self.planned_production = plans;
        self.last_building_turn = Some(turn);
    }

    /// Hands out the planned production changes for issuing on `turn` and
    /// forgets them. With nothing planned, nothing changes.
    pub fn take_production_plan(&mut self, turn: u32) -> (orders: Vec<AdjustProduction>)
        ensures
            orders@ == old(self).planned_production@,
            final(self).planned_production@.len() == 0,
            final(self).last_building_turn == old(self).last_building_turn,
            final(self).last_production_turn == (if old(self).planned_production@.len() == 0 {
                old(self).last_production_turn
            } else {
                Some(turn)
            }),
            final(self).last_market_turn == old(self).last_market_turn,
    {
        if self.planned_production.len() == 0 {
            return Vec::new();
        }
        let mut orders: Vec<AdjustProduction> = Vec::new();
        std::mem::swap(&mut orders, &mut self.planned_production);
        self.last_production_turn = Some(turn);
        orders
    }

    /// Places `nation`'s market orders for `turn` and returns them.
    pub fn plan_market_orders(
        &mut self,
        turn: u32,
        nation: u64,
        goods: &Vec<MarketGoodState>,
        cash_available: i64,
    ) -> (orders: Vec<AdjustMarketOrder>)
        ensures
            orders@ == market_orders(nation, goods@, cash_available),
            final(self).planned_production@ == old(self).planned_production@,
            final(self).last_building_turn == old(self).last_building_turn,
            final(self).last_production_turn == old(self).last_production_turn,
            final(self).last_market_turn == Some(turn),
    {
        let orders = evaluate_market_orders(nation, goods, cash_available);
        self.last_market_turn = Some(turn);
        orders
    }
}

/// No step is taken twice on one turn: once a step has been recorded for a
/// turn, it is not the next step again on that turn.
pub proof fn law_no_step_repeats_within_a_turn(b: AiEconomyBrain, turn: u32)
    ensures
        b.last_building_turn == Some(turn) ==> economy_step(&b, turn) != Some(
            EconomyStep::PlanBuildingFocus,
        ),
        b.last_production_turn == Some(turn) ==> economy_step(&b, turn) != Some(
            EconomyStep::ApplyProductionPlan,
        ),
        b.last_market_turn == Some(turn) ==> economy_step(&b, turn) != Some(
            EconomyStep::PlanMarketOrders,
        ),
{
}

/// On a turn where production has been planned and issued and market orders
/// placed, the routine has nothing left to do; on the next turn it plans
/// production again.
pub proof fn law_routine_finishes_and_restarts(b: AiEconomyBrain, turn: u32)
    requires
        turn < u32::MAX,
        b.last_building_turn == Some(turn),
        b.last_production_turn == Some(turn) || b.planned_production@.len() == 0,
        b.last_market_turn == Some(turn),
    ensures
        economy_step(&b, turn) is None,
        economy_step(&b, (turn + 1) as u32) == Some(EconomyStep::PlanBuildingFocus),
{
}

} // verus!
