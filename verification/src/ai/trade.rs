//! Economic decisions of AI nations: what to produce, what to trade on the
//! market, and whom to hire.

use crate::ai::snapshot::{stock_entry, BuildingCapacity, StockpileEntry};
use crate::ai::planner::{building_capacity, sat_sub};
use crate::civilians::types::{Civilian, CivilianKind};
use crate::economy::{BuildingKind, Good};
use vstd::prelude::*;

verus! {

/// Stock below which the AI wants to buy, at normal prices.
pub const BUY_SHORTAGE_THRESHOLD: u32 = 12;

/// Stock kept back before selling, at normal prices.
pub const SELL_RESERVE: u32 = 8;

/// Most units of one good put up for sale per turn.
pub const SELL_MAX_PER_GOOD: u32 = 8;

/// Most civilians hired per turn.
pub const AI_CIVILIAN_MAX_HIRES_PER_TURN: usize = 1;

/// Whether an order buys or sells.
#[derive(Clone, Copy, Debug, PartialEq, Eq, Structural)]
pub enum MarketInterest {
    Buy,
    Sell,
}

/// A change to a nation's standing market order for one good.
#[derive(Clone, Copy, Debug, PartialEq, Eq, Structural)]
pub struct AdjustMarketOrder {
    /// Entity id of the nation.
    pub nation: u64,
    pub good: Good,
    pub kind: MarketInterest,
    pub requested: u32,
}

/// A change to how much of a good a building produces.
#[derive(Clone, Copy, Debug, PartialEq, Eq, Structural)]
pub struct AdjustProduction {
    /// Entity id of the nation.
    pub nation: u64,
    /// Entity id of the producing building.
    pub building: u64,
    pub output_good: Good,
    pub target_output: u32,
}

/// A purchase order for `qty` units of `good` on behalf of `nation`.
pub fn build_market_buy_order(nation: u64, good: Good, qty: u32) -> (o: AdjustMarketOrder)
    ensures
        o == (AdjustMarketOrder { nation, good, kind: MarketInterest::Buy, requested: qty }),
{
    AdjustMarketOrder { nation, good, kind: MarketInterest::Buy, requested: qty }
}

/// Civilian counts wanted by a nation of one or two provinces.
pub open spec fn base_targets() -> Seq<(CivilianKind, u32)> {
    seq![
        (CivilianKind::Engineer, 2u32),
        (CivilianKind::Prospector, 2u32),
        (CivilianKind::Farmer, 2u32),
        (CivilianKind::Miner, 2u32),
        (CivilianKind::Rancher, 1u32),
        (CivilianKind::Forester, 1u32),
    ]
}

/// A base target scaled to the nation's size: as is up to 2 provinces, half
/// again (rounded half up) up to 5, doubled beyond.
pub open spec fn scaled_target(base: u32, province_count: int) -> u32 {
    if province_count <= 2 {
        base
    } else if province_count <= 5 {
        ((3 * base + 1) / 2) as u32
    } else {
        (2 * base) as u32
    }
}

/// The civilian targets of a nation owning `province_count` provinces.
pub open spec fn civilian_targets(province_count: int) -> Seq<(CivilianKind, u32)> {
    base_targets().map_values(|t: (CivilianKind, u32)| (t.0, scaled_target(t.1, province_count)))
}

fn scale(base: u32, province_count: usize) -> (r: u32)
    requires
        base <= 2,
    ensures
        r == scaled_target(base, province_count as int),
{
    if province_count <= 2 {
        base
    } else if province_count <= 5 {
        (3 * base + 1) / 2
    } else {
        2 * base
    }
}

/// How many civilians of each kind a nation of `province_count` provinces
/// aims for.
pub fn calculate_civilian_targets(province_count: usize) -> (r: Vec<(CivilianKind, u32)>)
    ensures
        r@ == civilian_targets(province_count as int),
{
    let mut r: Vec<(CivilianKind, u32)> = Vec::new();
    r.push((CivilianKind::Engineer, scale(2, province_count)));
    r.push((CivilianKind::Prospector, scale(2, province_count)));
    r.push((CivilianKind::Farmer, scale(2, province_count)));
    r.push((CivilianKind::Miner, scale(2, province_count)));
    r.push((CivilianKind::Rancher, scale(1, province_count)));
    r.push((CivilianKind::Forester, scale(1, province_count)));
    assert(r@ =~= civilian_targets(province_count as int));
    r
}

/// The building that makes a good, if a building makes it.
pub open spec fn producer_of(good: Good) -> Option<BuildingKind> {
    match good {
        Good::Fabric => Some(BuildingKind::TextileMill),
        Good::Paper | Good::Lumber => Some(BuildingKind::LumberMill),
        Good::Steel => Some(BuildingKind::SteelMill),
        Good::CannedFood => Some(BuildingKind::FoodProcessingCenter),
        Good::Clothing => Some(BuildingKind::ClothingFactory),
        Good::Furniture => Some(BuildingKind::FurnitureFactory),
        Good::Hardware | Good::Armaments => Some(BuildingKind::MetalWorks),
        Good::Fuel => Some(BuildingKind::Refinery),
        Good::Transport => Some(BuildingKind::Railyard),
        _ => None,
    }
}

/// The building that makes `good`.
pub fn building_for_good(good: Good) -> (r: Option<BuildingKind>)
    ensures
        r == producer_of(good),
{
    match good {
        Good::Fabric => Some(BuildingKind::TextileMill),
        Good::Paper | Good::Lumber => Some(BuildingKind::LumberMill),
        Good::Steel => Some(BuildingKind::SteelMill),
        Good::CannedFood => Some(BuildingKind::FoodProcessingCenter),
        Good::Clothing => Some(BuildingKind::ClothingFactory),
        Good::Furniture => Some(BuildingKind::FurnitureFactory),
        Good::Hardware | Good::Armaments => Some(BuildingKind::MetalWorks),
        Good::Fuel => Some(BuildingKind::Refinery),
        Good::Transport => Some(BuildingKind::Railyard),
        _ => None,
    }
}

/// The price of a good in normal times.
pub open spec fn base_price(good: Good) -> u32 {
    match good {
        Good::Grain | Good::Fruit => 60,
        Good::Livestock | Good::Fish => 80,
        Good::Cotton | Good::Wool => 90,
        Good::Timber => 70,
        Good::Coal | Good::Iron => 100,
        Good::Oil => 110,
        _ => 100,
    }
}

/// The price of `good` in normal times, against which the current price is
/// judged.
pub fn default_price(good: Good) -> (p: u32)
    ensures
        p == base_price(good),
{
    match good {
        Good::Grain | Good::Fruit => 60,
        Good::Livestock | Good::Fish => 80,
        Good::Cotton | Good::Wool => 90,
        Good::Timber => 70,
        Good::Coal | Good::Iron => 100,
        Good::Oil => 110,
        _ => 100,
    }
}

/// Goods the AI produces, in order of priority, with the stock it wants.
pub open spec fn production_priorities() -> Seq<(Good, u32)> {
    seq![
        (Good::CannedFood, 8u32),
        (Good::Clothing, 6u32),
        (Good::Furniture, 6u32),
        (Good::Steel, 4u32),
        (Good::Fabric, 6u32),
    ]
}

/// Units of `good` in stock: all of them, and those free to use (0 and 0
/// without an entry).
pub open spec fn stock_total(stock: Seq<StockpileEntry>, good: Good) -> u32 {
    match stock_entry(stock, good) {
        Some(e) => e.total,
        None => 0,
    }
}

pub open spec fn stock_available(stock: Seq<StockpileEntry>, good: Good) -> u32 {
    match stock_entry(stock, good) {
        Some(e) => e.available,
        None => 0,
    }
}

/// The first listed count for `good`, or 0.
pub open spec fn listed_count(counts: Seq<(Good, u32)>, good: Good) -> u32
    decreases counts.len(),
{
    if counts.len() == 0 {
        0
    } else if counts[0].0 == good {
        counts[0].1
    } else {
        listed_count(counts.drop_first(), good)
    }
}

/// The production change for one priority good, if any: produce what is
/// missing from the wanted stock (nothing once the total stock, reserved
/// units included, reaches it), at most what the building can make; no
/// change when that is what is produced already.
pub open spec fn production_change(
    nation: u64,
    buildings: Seq<BuildingCapacity>,
    stock: Seq<StockpileEntry>,
    current: Seq<(Good, u32)>,
    good: Good,
    desired: u32,
) -> Option<AdjustProduction> {
    match producer_of(good) {
        None => None,
        Some(kind) => match building_capacity(buildings, kind) {
            None => None,
            Some(capacity) => {
                let shortage = if stock_total(stock, good) >= desired {
                    0
                } else {
                    sat_sub(desired, stock_available(stock, good))
                };
                let target: u32 = if shortage < capacity {
                    shortage
                } else {
                    capacity
                };
                if target == listed_count(current, good) {
                    None
                } else {
                    Some(
                        AdjustProduction {
                            nation,
                            building: nation,
                            output_good: good,
                            target_output: target,
                        },
                    )
                }
            },
        },
    }
}

/// Production changes for the priority goods, in priority order.
pub open spec fn production_plan(
    nation: u64,
    buildings: Seq<BuildingCapacity>,
    stock: Seq<StockpileEntry>,
    current: Seq<(Good, u32)>,
    priorities: Seq<(Good, u32)>,
) -> Seq<AdjustProduction>
    decreases priorities.len(),
{
    if priorities.len() == 0 {
        Seq::empty()
    } else {
        let prev = production_plan(nation, buildings, stock, current, priorities.drop_last());
        let (good, desired) = priorities.last();
        match production_change(nation, buildings, stock, current, good, desired) {
            Some(o) => prev.push(o),
            None => prev,
        }
    }
}

fn find_stock(stock: &Vec<StockpileEntry>, good: Good) -> (r: Option<StockpileEntry>)
    ensures
        r == stock_entry(stock@, good),
{
    let mut i: usize = 0;
    assert(stock@.skip(0) =~= stock@);
    while i < stock.len()
        invariant
            i <= stock@.len(),
            stock_entry(stock@, good) == stock_entry(stock@.skip(i as int), good),
        decreases stock@.len() - i,
    {
        assert(stock@.skip(i as int).drop_first() =~= stock@.skip(i + 1));
        if stock[i].good == good {
            return Some(stock[i]);
        }
        i = i + 1;
    }
    None
}

fn find_count(counts: &Vec<(Good, u32)>, good: Good) -> (r: u32)
    ensures
        r == listed_count(counts@, good),
{
    let mut i: usize = 0;
    assert(counts@.skip(0) =~= counts@);
    while i < counts.len()
        invariant
            i <= counts@.len(),
            listed_count(counts@, good) == listed_count(counts@.skip(i as int), good),
        decreases counts@.len() - i,
    {
        assert(counts@.skip(i as int).drop_first() =~= counts@.skip(i + 1));
        if counts[i].0 == good {
            return counts[i].1;
        }
        i = i + 1;
    }
    0
}

fn find_capacity(buildings: &Vec<BuildingCapacity>, kind: BuildingKind) -> (r: Option<u32>)
    ensures
        r == building_capacity(buildings@, kind),
{
    let mut i: usize = 0;
    assert(buildings@.skip(0) =~= buildings@);
    while i < buildings.len()
        invariant
            i <= buildings@.len(),
            building_capacity(buildings@, kind) == building_capacity(buildings@.skip(i as int), kind),
        decreases buildings@.len() - i,
    {
        assert(buildings@.skip(i as int).drop_first() =~= buildings@.skip(i + 1));
        if buildings[i].kind == kind {
            return Some(buildings[i].capacity);
        }
        i = i + 1;
    }
    None
}

/// Production changes that bring each priority good toward its wanted
/// stock; `current_production` gives what each good is produced at now.
pub fn evaluate_production_plan(
    nation: u64,
    buildings: &Vec<BuildingCapacity>,
    stockpile: &Vec<StockpileEntry>,
    current_production: &Vec<(Good, u32)>,
) -> (plans: Vec<AdjustProduction>)
    ensures
        plans@ == production_plan(nation, buildings@, stockpile@, current_production@, production_priorities()),
{
    let mut priorities: Vec<(Good, u32)> = Vec::new();
    priorities.push((Good::CannedFood, 8));
    priorities.push((Good::Clothing, 6));
    priorities.push((Good::Furniture, 6));
    priorities.push((Good::Steel, 4));
    priorities.push((Good::Fabric, 6));
    assert(priorities@ =~= production_priorities());
    let mut plans: Vec<AdjustProduction> = Vec::new();
    let mut i: usize = 0;
    while i < priorities.len()
        invariant
            i <= priorities@.len(),
            priorities@ == production_priorities(),
            plans@ == production_plan(nation, buildings@, stockpile@, current_production@, priorities@.take(i as int)),
        decreases priorities@.len() - i,
    {
        let (good, desired) = priorities[i];
        assert(priorities@.take(i + 1).drop_last() =~= priorities@.take(i as int));
        if let Some(kind) = building_for_good(good) {
            if let Some(capacity) = find_capacity(buildings, kind) {
                let (total, available) = match find_stock(stockpile, good) {
                    Some(e) => (e.total, e.available),
                    None => (0, 0),
                };
                let current = find_count(current_production, good);
                let shortage: u32 = if total >= desired {
                    0
                } else {
                    desired.saturating_sub(available)
                };
                let target: u32 = if shortage < capacity {
                    shortage
                } else {
                    capacity
                };
                if target != current {
                    plans.push(AdjustProduction { nation, building: nation, output_good: good, target_output: target });
                }
            }
        }
        i = i + 1;
    }
    assert(priorities@.take(i as int) =~= priorities@);
    plans
}

/// What the AI reads about one good when placing market orders.
#[derive(Clone, Copy, Debug, PartialEq, Eq, Structural)]
pub struct MarketGoodState {
    pub good: Good,
    /// Units free to use.
    pub available: u32,
    pub current_price: u32,
    /// The nation already asks to buy this good.
    pub has_buy_interest: bool,
    /// Units the nation already offers for sale.
    pub sell_count: u32,
}

/// Stock at or below which the AI buys, by how the current price compares
/// with the normal one: 20 below 0.6 of it, 16 below 0.8, 12 below 1.2, 7
/// below 1.5, 4 otherwise.
pub open spec fn buy_threshold(price: int, base: int) -> u32 {
    if 10 * price < 6 * base {
        20
    } else if 10 * price < 8 * base {
        16
    } else if 10 * price < 12 * base {
        12
    } else if 10 * price < 15 * base {
        7
    } else {
        4
    }
}

/// Stock kept back from sale, by how the current price compares with the
/// normal one: 3 above 1.5 of it, 5 above 1.2, 8 above 0.8, 12 above 0.6, 14
/// otherwise.
pub open spec fn sell_reserve(price: int, base: int) -> u32 {
    if 10 * price > 15 * base {
        3
    } else if 10 * price > 12 * base {
        5
    } else if 10 * price > 8 * base {
        8
    } else if 10 * price > 6 * base {
        12
    } else {
        14
    }
}

/// The market orders for one good: register buy interest when the stock is
/// low and the nation can pay a unit (withdraw it otherwise), and offer the
/// stock above the reserve (at most 8) when that differs from the offer
/// standing.
pub open spec fn good_orders(nation: u64, s: MarketGoodState, cash: i64) -> Seq<AdjustMarketOrder> {
    let base = base_price(s.good) as int;
    let wants_buy = s.available <= buy_threshold(s.current_price as int, base);
    let can_afford = cash >= s.current_price && s.current_price > 0;
    let buys = if wants_buy && can_afford {
        if !s.has_buy_interest {
            seq![AdjustMarketOrder { nation, good: s.good, kind: MarketInterest::Buy, requested: 1 }]
        } else {
            Seq::empty()
        }
    } else if s.has_buy_interest {
        seq![AdjustMarketOrder { nation, good: s.good, kind: MarketInterest::Buy, requested: 0 }]
    } else {
        Seq::empty()
    };
    let reserve = sell_reserve(s.current_price as int, base);
    let desired_sell: u32 = if s.available > reserve {
        if s.available - reserve < SELL_MAX_PER_GOOD {
            (s.available - reserve) as u32
        } else {
            SELL_MAX_PER_GOOD
        }
    } else {
        0
    };
    if desired_sell != s.sell_count {
        buys.push(AdjustMarketOrder { nation, good: s.good, kind: MarketInterest::Sell, requested: desired_sell })
    } else {
        buys
    }
}

/// The market orders for the goods in turn.
pub open spec fn market_orders(nation: u64, goods: Seq<MarketGoodState>, cash: i64) -> Seq<AdjustMarketOrder>
    decreases goods.len(),
{
    if goods.len() == 0 {
        Seq::empty()
    } else {
        market_orders(nation, goods.drop_last(), cash) + good_orders(nation, goods.last(), cash)
    }
}

/// Market orders for each traded good, in the order given; see
/// `good_orders`. Comparing `10 * price` with multiples of the normal price
/// decides exactly as comparing their ratio with 0.6, 0.8, 1.2 and 1.5.
pub fn evaluate_market_orders(nation: u64, goods: &Vec<MarketGoodState>, cash_available: i64) -> (orders: Vec<
    AdjustMarketOrder,
>)
    ensures
        orders@ == market_orders(nation, goods@, cash_available),
{
    let mut orders: Vec<AdjustMarketOrder> = Vec::new();
    let mut i: usize = 0;
    while i < goods.len()
        invariant
            i <= goods@.len(),
            orders@ == market_orders(nation, goods@.take(i as int), cash_available),
        decreases goods@.len() - i,
    {
        let s = goods[i];
        assert(goods@.take(i + 1).drop_last() =~= goods@.take(i as int));
        let ghost before = orders@;
        let price: u64 = s.current_price as u64;
        let base: u64 = default_price(s.good) as u64;
        let threshold: u32 = if 10 * price < 6 * base {
            BUY_SHORTAGE_THRESHOLD + 8
        } else if 10 * price < 8 * base {
            BUY_SHORTAGE_THRESHOLD + 4
        } else if 10 * price < 12 * base {
            BUY_SHORTAGE_THRESHOLD
        } else if 10 * price < 15 * base {
            BUY_SHORTAGE_THRESHOLD - 5
        } else {
            BUY_SHORTAGE_THRESHOLD - 8
        };
        let wants_buy = s.available <= threshold;
        let can_afford = cash_available >= s.current_price as i64 && s.current_price > 0;
        if wants_buy && can_afford {
            if !s.has_buy_interest {
                orders.push(AdjustMarketOrder { nation, good: s.good, kind: MarketInterest::Buy, requested: 1 });
            }
        } else if s.has_buy_interest {
            orders.push(AdjustMarketOrder { nation, good: s.good, kind: MarketInterest::Buy, requested: 0 });
        }
        let reserve: u32 = if 10 * price > 15 * base {
            SELL_RESERVE - 5
        } else if 10 * price > 12 * base {
            SELL_RESERVE - 3
        } else if 10 * price > 8 * base {
            SELL_RESERVE
        } else if 10 * price > 6 * base {
            SELL_RESERVE + 4
        } else {
            SELL_RESERVE + 6
        };
        let desired_sell: u32 = if s.available > reserve {
            if s.available - reserve < SELL_MAX_PER_GOOD {
                s.available - reserve
            } else {
                SELL_MAX_PER_GOOD
            }
        } else {
            0
        };
        if desired_sell != s.sell_count {
            orders.push(AdjustMarketOrder { nation, good: s.good, kind: MarketInterest::Sell, requested: desired_sell });
        }
        i = i + 1;
        assert(orders@ =~= before + good_orders(nation, s, cash_available));
    }
    assert(goods@.take(i as int) =~= goods@);
    orders
}

/// Civilians of `kind` owned by `nation`.
pub open spec fn owned_count(civilians: Seq<Civilian>, nation: u64, kind: CivilianKind) -> nat
    decreases civilians.len(),
{
    if civilians.len() == 0 {
        0
    } else {
        let c = civilians.last();
        owned_count(civilians.drop_last(), nation, kind) + if c.owner == nation && c.kind == kind {
            1nat
        } else {
            0nat
        }
    }
}

/// The listed hiring cost of `kind`, if listed.
pub open spec fn listed_cost(costs: Seq<(CivilianKind, i64)>, kind: CivilianKind) -> Option<i64>
    decreases costs.len(),
{
    if costs.len() == 0 {
        None
    } else if costs[0].0 == kind {
        Some(costs[0].1)
    } else {
        listed_cost(costs.drop_first(), kind)
    }
}

/// The hires after walking the targets in order: stop after one hire or at
/// the first kind below target that the cash cannot pay for; skip kinds at
/// or above target and kinds without a listed cost.
pub open spec fn hires_for(
    targets: Seq<(CivilianKind, u32)>,
    civilians: Seq<Civilian>,
    nation: u64,
    cash: i64,
    costs: Seq<(CivilianKind, i64)>,
) -> Seq<CivilianKind>
    decreases targets.len(),
{
    if targets.len() == 0 {
        Seq::empty()
    } else {
        let (kind, target) = targets[0];
        if owned_count(civilians, nation, kind) >= target {
            hires_for(targets.drop_first(), civilians, nation, cash, costs)
        } else {
            match listed_cost(costs, kind) {
                None => hires_for(targets.drop_first(), civilians, nation, cash, costs),
                Some(cost) => if cash < cost {
                    Seq::empty()
                } else {
                    seq![kind]
                },
            }
        }
    }
}

fn count_owned(civilians: &Vec<Civilian>, nation: u64, kind: CivilianKind) -> (n: u64)
    ensures
        n == owned_count(civilians@, nation, kind),
{
    let mut n: u64 = 0;
    let mut i: usize = 0;
    while i < civilians.len()
        invariant
            i <= civilians@.len(),
            n == owned_count(civilians@.take(i as int), nation, kind),
            n <= i,
        decreases civilians@.len() - i,
    {
        assert(civilians@.take(i + 1).drop_last() =~= civilians@.take(i as int));
        if civilians[i].owner == nation && civilians[i].kind == kind {
            n = n + 1;
        }
        i = i + 1;
    }
    assert(civilians@.take(i as int) =~= civilians@);
    n
}

pub(crate) fn find_cost(costs: &Vec<(CivilianKind, i64)>, kind: CivilianKind) -> (r: Option<i64>)
    ensures
        r == listed_cost(costs@, kind),
{
    let mut i: usize = 0;
    assert(costs@.skip(0) =~= costs@);
    while i < costs.len()
        invariant
            i <= costs@.len(),
            listed_cost(costs@, kind) == listed_cost(costs@.skip(i as int), kind),
        decreases costs@.len() - i,
    {
        assert(costs@.skip(i as int).drop_first() =~= costs@.skip(i + 1));
        if costs[i].0 == kind {
            return Some(costs[i].1);
        }
        i = i + 1;
    }
    None
}

/// The civilian the nation hires this turn, if any: the first kind, in
/// target order, of which it owns fewer than its size calls for, when it can
/// pay for it; see `hires_for`.
pub fn plan_ai_civilian_hiring(
    nation: u64,
    cash: i64,
    province_count: usize,
    civilians: &Vec<Civilian>,
    hiring_costs: &Vec<(CivilianKind, i64)>,
) -> (hires: Vec<CivilianKind>)
    ensures
        hires@ == hires_for(civilian_targets(province_count as int), civilians@, nation, cash, hiring_costs@),
        hires@.len() <= AI_CIVILIAN_MAX_HIRES_PER_TURN,
{
    let targets = calculate_civilian_targets(province_count);
    let mut hires: Vec<CivilianKind> = Vec::new();
    let mut i: usize = 0;
    assert(targets@.skip(0) =~= targets@);
    while i < targets.len()
        invariant
            i <= targets@.len(),
            targets@ == civilian_targets(province_count as int),
            hires@.len() == 0,
            hires_for(targets@, civilians@, nation, cash, hiring_costs@) == hires_for(
                targets@.skip(i as int),
                civilians@,
                nation,
                cash,
                hiring_costs@,
            ),
        decreases targets@.len() - i,
    {
        let (kind, target) = targets[i];
        assert(targets@.skip(i as int).drop_first() =~= targets@.skip(i + 1));
        assert(targets@.skip(i as int)[0] == targets@[i as int]);
        let current = count_owned(civilians, nation, kind);
        if current >= target as u64 {
            i = i + 1;
        } else {
            match find_cost(hiring_costs, kind) {
                None => {
                    i = i + 1;
                },
                Some(cost) => {
                    if cash < cost {
                        return hires;
                    }
                    hires.push(kind);
                    assert(hires@ =~= seq![kind]);
                    return hires;
                },
            }
        }
    }
    proof {
        assert(hires@ =~= hires_for(targets@.skip(i as int), civilians@, nation, cash, hiring_costs@));
    }
    hires
}


/// A nation's buy interest in a good ends up exactly where it is needed:
/// when the stock is at or below the buy threshold and the nation can pay a
/// unit, an interest not yet standing is registered (a buy of 1); when
/// either fails, a standing interest is withdrawn (a buy of 0); otherwise no
/// buy order is issued. Every order concerns that nation and good, there is
/// at most one buy order and it comes first, and a sale never offers more
/// than the stock or more than 8 units.
pub proof fn law_buy_interest_follows_need(nation: u64, s: MarketGoodState, cash: i64)
    ensures
        ({
            let o = market_orders(nation, seq![s], cash);
            let need = s.available <= buy_threshold(s.current_price as int, base_price(s.good) as int)
                && cash >= s.current_price && s.current_price > 0;
            let buy = |requested: u32| AdjustMarketOrder { nation, good: s.good, kind: MarketInterest::Buy, requested };
            &&& forall|k: int| 0 <= k < o.len() ==> (#[trigger] o[k]).nation == nation && o[k].good == s.good
            &&& forall|k: int| 1 <= k < o.len() ==> (#[trigger] o[k]).kind == MarketInterest::Sell
            &&& forall|k: int| 0 <= k < o.len() && (#[trigger] o[k]).kind == MarketInterest::Sell
                ==> o[k].requested <= s.available && o[k].requested <= SELL_MAX_PER_GOOD
            &&& (need && !s.has_buy_interest) ==> o.len() >= 1 && o[0] == buy(1)
            &&& (!need && s.has_buy_interest) ==> o.len() >= 1 && o[0] == buy(0)
            &&& (need == s.has_buy_interest) ==> forall|k: int| 0 <= k < o.len() ==> (#[trigger] o[k]).kind == MarketInterest::Sell
        }),
{
    let one = seq![s];
    assert(one.drop_last() =~= Seq::<MarketGoodState>::empty());
    assert(one.last() == s);
    assert(market_orders(nation, one.drop_last(), cash) =~= Seq::<AdjustMarketOrder>::empty());
    assert(market_orders(nation, seq![s], cash) =~= good_orders(nation, s, cash));
}

} // verus!
