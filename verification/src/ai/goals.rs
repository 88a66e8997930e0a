//! The goals a nation sets itself each turn, before they are ranked: trade
//! on the market, depots to build and connect, tiles to improve or
//! prospect, civilians to hire.

use crate::ai::analysis::{free_units, target_stock};
use crate::ai::planner::NationGoal;
use crate::ai::snapshot::{civilians_of_kind, CivilianSnapshot, DepotInfo, ImprovableTile, NationSnapshot, ProspectableTile, SuggestedDepot};
use crate::ai::trade::{find_cost, listed_cost, BUY_SHORTAGE_THRESHOLD, SELL_MAX_PER_GOOD, SELL_RESERVE};
use crate::ai::snapshot::StockpileEntry;
use crate::civilians::types::CivilianKind;
use crate::economy::Good;
use vstd::prelude::*;

verus! {

/// The purchase and sale goals for one good, given the units free to use:
/// buy up to ten towards the target while short of it and of the shortage
/// threshold; sell up to the per-good cap of what exceeds the target when
/// holding more than twice the target and more than the reserve.
pub open spec fn trade_goals_for_good(good: Good, available: u32) -> Seq<NationGoal> {
    let target = target_stock(good);
    let buy: Seq<NationGoal> = if available < BUY_SHORTAGE_THRESHOLD && available < target {
        seq![NationGoal::BuyResource { good, qty: if target - available < 10 { (target - available) as u32 } else { 10 } }]
    } else {
        Seq::empty()
    };
    let sell: Seq<NationGoal> = if available > 2 * target && available > SELL_RESERVE {
        seq![
            NationGoal::SellResource {
                good,
                qty: if available - target < SELL_MAX_PER_GOOD {
                    (available - target) as u32
                } else {
                    SELL_MAX_PER_GOOD
                },
            },
        ]
    } else {
        Seq::empty()
    };
    buy + sell
}

/// The market goals for `goods`, in that order.
pub open spec fn market_goals_for(stock: Seq<StockpileEntry>, goods: Seq<Good>) -> Seq<NationGoal>
    decreases goods.len(),
{
    if goods.len() == 0 {
        Seq::empty()
    } else {
        market_goals_for(stock, goods.drop_last()) + trade_goals_for_good(goods.last(), free_units(stock, goods.last()))
    }
}

/// What the nation should buy and sell of each of `goods` (see
/// `trade_goals_for_good`).
pub fn generate_market_goals(nation: &NationSnapshot, goods: &Vec<Good>) -> (r: Vec<NationGoal>)
    ensures
        r@ == market_goals_for(nation.stockpile@, goods@),
{
    let mut out: Vec<NationGoal> = Vec::new();
    let mut i: usize = 0;
    while i < goods.len()
        invariant
            i <= goods@.len(),
            out@ == market_goals_for(nation.stockpile@, goods@.take(i as int)),
        decreases goods@.len() - i,
    {
        let good = goods[i];
        assert(goods@.take(i + 1).drop_last() =~= goods@.take(i as int));
        assert(goods@.take(i + 1).last() == good);
        let available = nation.available_amount(good);
        let target = crate::ai::analysis::target_stock_units(good);
        let ghost before = out@;
        if available < BUY_SHORTAGE_THRESHOLD && available < target {
            let gap = target - available;
            let qty = if gap < 10 {
                gap
            } else {
                10
            };
            out.push(NationGoal::BuyResource { good, qty });
        }
        if available > 2 * target && available > SELL_RESERVE {
            let surplus = available - target;
            let qty = if surplus < SELL_MAX_PER_GOOD {
                surplus
            } else {
                SELL_MAX_PER_GOOD
            };
            out.push(NationGoal::SellResource { good, qty });
        }
        assert(out@ =~= before + trade_goals_for_good(good, free_units(nation.stockpile@, good)));
        i = i + 1;
    }
    assert(goods@.take(i as int) =~= goods@);
    out
}

/// A depot to build at each suggested site, then a connection for each
/// depot still off the network, in the orders listed.
pub open spec fn infrastructure_goals_for(suggested: Seq<SuggestedDepot>, unconnected: Seq<DepotInfo>) -> Seq<
    NationGoal,
> {
    suggested.map_values(|d: SuggestedDepot| NationGoal::BuildDepotAt { tile: d.position }) + unconnected.map_values(
        |d: DepotInfo| NationGoal::ConnectDepot { tile: d.position },
    )
}

/// Goals to build depots at the suggested sites and to connect the depots
/// still off the network.
pub fn generate_infrastructure_goals(nation: &NationSnapshot) -> (r: Vec<NationGoal>)
    ensures
        r@ == infrastructure_goals_for(nation.suggested_depots@, nation.unconnected_depots@),
{
    let mut out: Vec<NationGoal> = Vec::new();
    let mut i: usize = 0;
    while i < nation.suggested_depots.len()
        invariant
            i <= nation.suggested_depots@.len(),
            out@ == nation.suggested_depots@.take(i as int).map_values(
                |d: SuggestedDepot| NationGoal::BuildDepotAt { tile: d.position },
            ),
        decreases nation.suggested_depots@.len() - i,
    {
        out.push(NationGoal::BuildDepotAt { tile: nation.suggested_depots[i].position });
        i = i + 1;
        assert(out@ =~= nation.suggested_depots@.take(i as int).map_values(
            |d: SuggestedDepot| NationGoal::BuildDepotAt { tile: d.position },
        ));
    }
    assert(nation.suggested_depots@.take(i as int) =~= nation.suggested_depots@);
    let ghost first = out@;
    let mut j: usize = 0;
    while j < nation.unconnected_depots.len()
        invariant
            j <= nation.unconnected_depots@.len(),
            out@ == first + nation.unconnected_depots@.take(j as int).map_values(
                |d: DepotInfo| NationGoal::ConnectDepot { tile: d.position },
            ),
        decreases nation.unconnected_depots@.len() - j,
    {
        out.push(NationGoal::ConnectDepot { tile: nation.unconnected_depots[j].position });
        j = j + 1;
        assert(out@ =~= first + nation.unconnected_depots@.take(j as int).map_values(
            |d: DepotInfo| NationGoal::ConnectDepot { tile: d.position },
        ));
    }
    assert(nation.unconnected_depots@.take(j as int) =~= nation.unconnected_depots@);
    out
}

/// A goal to improve each improvable tile, by the civilian kind it needs.
/// (Every such tile earns a goal: its priority, at least 0.27, always clears
/// the 0.2 floor that goals must pass.)
pub fn generate_improvement_goals(nation: &NationSnapshot) -> (r: Vec<NationGoal>)
    ensures
        r@ == nation.improvable_tiles@.map_values(
            |t: ImprovableTile| NationGoal::ImproveTile { tile: t.position, civilian_kind: t.improver_kind },
        ),
{
    let mut out: Vec<NationGoal> = Vec::new();
    let mut i: usize = 0;
    while i < nation.improvable_tiles.len()
        invariant
            i <= nation.improvable_tiles@.len(),
            out@ == nation.improvable_tiles@.take(i as int).map_values(
                |t: ImprovableTile| NationGoal::ImproveTile { tile: t.position, civilian_kind: t.improver_kind },
            ),
        decreases nation.improvable_tiles@.len() - i,
    {
        let t = nation.improvable_tiles[i];
        out.push(NationGoal::ImproveTile { tile: t.position, civilian_kind: t.improver_kind });
        i = i + 1;
        assert(out@ =~= nation.improvable_tiles@.take(i as int).map_values(
            |t: ImprovableTile| NationGoal::ImproveTile { tile: t.position, civilian_kind: t.improver_kind },
        ));
    }
    assert(nation.improvable_tiles@.take(i as int) =~= nation.improvable_tiles@);
    out
}

/// A goal to prospect each prospectable tile.
pub fn generate_prospecting_goals(nation: &NationSnapshot) -> (r: Vec<NationGoal>)
    ensures
        r@ == nation.prospectable_tiles@.map_values(|t: ProspectableTile| NationGoal::ProspectTile { tile: t.position }),
{
    let mut out: Vec<NationGoal> = Vec::new();
    let mut i: usize = 0;
    while i < nation.prospectable_tiles.len()
        invariant
            i <= nation.prospectable_tiles@.len(),
            out@ == nation.prospectable_tiles@.take(i as int).map_values(
                |t: ProspectableTile| NationGoal::ProspectTile { tile: t.position },
            ),
        decreases nation.prospectable_tiles@.len() - i,
    {
        out.push(NationGoal::ProspectTile { tile: nation.prospectable_tiles[i].position });
        i = i + 1;
        assert(out@ =~= nation.prospectable_tiles@.take(i as int).map_values(
            |t: ProspectableTile| NationGoal::ProspectTile { tile: t.position },
        ));
    }
    assert(nation.prospectable_tiles@.take(i as int) =~= nation.prospectable_tiles@);
    out
}

/// How many civilians of each kind a nation aims to keep.
pub open spec fn staffing_targets() -> Seq<(CivilianKind, u32)> {
    seq![
        (CivilianKind::Engineer, 2u32),
        (CivilianKind::Prospector, 2u32),
        (CivilianKind::Farmer, 2u32),
        (CivilianKind::Miner, 2u32),
        (CivilianKind::Rancher, 1u32),
        (CivilianKind::Forester, 1u32),
    ]
}

/// A hiring goal for each kind of `targets`, in order, of which the nation
/// has fewer than its target and whose listed cost the treasury covers.
pub open spec fn hiring_goals_for(
    targets: Seq<(CivilianKind, u32)>,
    civilians: Seq<CivilianSnapshot>,
    treasury: i64,
    costs: Seq<(CivilianKind, i64)>,
) -> Seq<NationGoal>
    decreases targets.len(),
{
    if targets.len() == 0 {
        Seq::empty()
    } else {
        let prev = hiring_goals_for(targets.drop_last(), civilians, treasury, costs);
        let (kind, target) = targets.last();
        if civilians_of_kind(civilians, kind).len() < target && (listed_cost(costs, kind) matches Some(c)
            && treasury >= c) {
            prev.push(NationGoal::HireCivilian { kind })
        } else {
            prev
        }
    }
}

/// Goals to hire the civilians the nation lacks and can pay for, given the
/// hiring cost of each kind (see `hiring_goals_for` and `staffing_targets`).
pub fn generate_hiring_goals(nation: &NationSnapshot, costs: &Vec<(CivilianKind, i64)>) -> (r: Vec<NationGoal>)
    ensures
        r@ == hiring_goals_for(staffing_targets(), nation.civilians@, nation.treasury, costs@),
{
    let targets: Vec<(CivilianKind, u32)> = vec![
        (CivilianKind::Engineer, 2u32),
        (CivilianKind::Prospector, 2u32),
        (CivilianKind::Farmer, 2u32),
        (CivilianKind::Miner, 2u32),
        (CivilianKind::Rancher, 1u32),
        (CivilianKind::Forester, 1u32),
    ];
    assert(targets@ =~= staffing_targets());
    let mut out: Vec<NationGoal> = Vec::new();
    let mut i: usize = 0;
    while i < targets.len()
        invariant
            i <= targets@.len(),
            targets@ == staffing_targets(),
            out@ == hiring_goals_for(targets@.take(i as int), nation.civilians@, nation.treasury, costs@),
        decreases targets@.len() - i,
    {
        let (kind, target) = targets[i];
        assert(targets@.take(i + 1).drop_last() =~= targets@.take(i as int));
        assert(targets@.take(i + 1).last() == (kind, target));
        let current = nation.civilian_count(kind);
        if current < target as usize {
            match find_cost(costs, kind) {
                Some(cost) => {
                    if nation.treasury >= cost {
                        out.push(NationGoal::HireCivilian { kind });
                    }
                },
                None => {},
            }
        }
        i = i + 1;
    }
    assert(targets@.take(i as int) =~= targets@);
    out
}

} // verus!
