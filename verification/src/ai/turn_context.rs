//! The economic picture of every nation the AI reads during its turn: stock,
//! workforce, what is reserved for production, training and the market, and
//! transport capacity and demand.

use crate::ai::analysis::stock_sorted;
use crate::ai::context::TurnPhase;
use crate::ai::snapshot::StockpileEntry;
use crate::economy::{good_rank, Good, TransportCommodity};
use vstd::multiset::Multiset;
use vstd::prelude::*;

verus! {

/// Skill of a worker.
#[derive(Clone, Copy, Debug, PartialEq, Eq, Hash, Structural)]
pub enum WorkerSkill {
    Untrained,
    Trained,
    Expert,
}

pub open spec fn skill_rank(s: WorkerSkill) -> nat {
    match s {
        WorkerSkill::Untrained => 0,
        WorkerSkill::Trained => 1,
        WorkerSkill::Expert => 2,
    }
}

/// Order in which training allocations are listed: untrained first.
pub fn training_skill_order(skill: WorkerSkill) -> (r: u8)
    ensures
        r == skill_rank(skill),
{
    match skill {
        WorkerSkill::Untrained => 0,
        WorkerSkill::Trained => 1,
        WorkerSkill::Expert => 2,
    }
}

/// Head counts of a nation's workforce and the labour it can put in.
#[derive(Clone, Copy, Debug, PartialEq, Eq, Structural)]
pub struct AiWorkforceSnapshot {
    pub untrained: u32,
    pub trained: u32,
    pub expert: u32,
    pub available_labor: u32,
}

/// Workers reserved for producing a good in a building.
#[derive(Clone, Copy, Debug, PartialEq, Eq, Structural)]
pub struct AiProductionAllocation {
    /// Entity id of the building.
    pub building: u64,
    pub output: Good,
    pub reserved: usize,
}

/// Workers reserved for training at a skill.
#[derive(Clone, Copy, Debug, PartialEq, Eq, Structural)]
pub struct AiTrainingAllocation {
    pub skill: WorkerSkill,
    pub reserved: usize,
}

/// Stock reserved for sale on the market.
#[derive(Clone, Copy, Debug, PartialEq, Eq, Structural)]
pub struct AiMarketSell {
    pub good: Good,
    pub reserved: usize,
}

/// A standing interest in buying a good.
#[derive(Clone, Copy, Debug, PartialEq, Eq, Structural)]
pub struct AiMarketBuy {
    pub good: Good,
}

/// A nation's reservations: for each kind, how many reservations it holds.
#[derive(Clone, Debug)]
pub struct AllocationRecord {
    /// `(building, output, reservations)`.
    pub production: Vec<(u64, Good, usize)>,
    pub recruitment: usize,
    /// `(skill, reservations)`.
    pub training: Vec<(WorkerSkill, usize)>,
    /// Goods the nation wants to buy.
    pub market_buys: Vec<Good>,
    /// `(good, reservations)`.
    pub market_sells: Vec<(Good, usize)>,
}

/// The reservations of a nation as the AI reads them, each list ordered.
#[derive(Clone, Debug)]
pub struct AiAllocationSnapshot {
    /// By building, then by good.
    pub production: Vec<AiProductionAllocation>,
    pub recruitment: usize,
    /// Untrained first.
    pub training: Vec<AiTrainingAllocation>,
    /// By good.
    pub market_buys: Vec<AiMarketBuy>,
    /// By good.
    pub market_sells: Vec<AiMarketSell>,
}

pub open spec fn production_le(a: AiProductionAllocation, b: AiProductionAllocation) -> bool {
    a.building < b.building || (a.building == b.building && good_rank(a.output) <= good_rank(b.output))
}

pub open spec fn production_sorted(s: Seq<AiProductionAllocation>) -> bool {
    forall|i: int, j: int| 0 <= i < j < s.len() ==> production_le(#[trigger] s[i], #[trigger] s[j])
}

pub open spec fn training_sorted(s: Seq<AiTrainingAllocation>) -> bool {
    forall|i: int, j: int| 0 <= i < j < s.len() ==> skill_rank((#[trigger] s[i]).skill) <= skill_rank((#[trigger] s[j]).skill)
}

pub open spec fn buys_sorted(s: Seq<AiMarketBuy>) -> bool {
    forall|i: int, j: int| 0 <= i < j < s.len() ==> good_rank((#[trigger] s[i]).good) <= good_rank((#[trigger] s[j]).good)
}

pub open spec fn sells_sorted(s: Seq<AiMarketSell>) -> bool {
    forall|i: int, j: int| 0 <= i < j < s.len() ==> good_rank((#[trigger] s[i]).good) <= good_rank((#[trigger] s[j]).good)
}

pub open spec fn production_entries(s: Seq<(u64, Good, usize)>) -> Seq<AiProductionAllocation>
    decreases s.len(),
{
    if s.len() == 0 {
        Seq::empty()
    } else {
        production_entries(s.drop_last()).push(
            AiProductionAllocation { building: s.last().0, output: s.last().1, reserved: s.last().2 },
        )
    }
}

pub open spec fn training_entries(s: Seq<(WorkerSkill, usize)>) -> Seq<AiTrainingAllocation>
    decreases s.len(),
{
    if s.len() == 0 {
        Seq::empty()
    } else {
        training_entries(s.drop_last()).push(AiTrainingAllocation { skill: s.last().0, reserved: s.last().1 })
    }
}

pub open spec fn buy_entries(s: Seq<Good>) -> Seq<AiMarketBuy>
    decreases s.len(),
{
    if s.len() == 0 {
        Seq::empty()
    } else {
        buy_entries(s.drop_last()).push(AiMarketBuy { good: s.last() })
    }
}

pub open spec fn sell_entries(s: Seq<(Good, usize)>) -> Seq<AiMarketSell>
    decreases s.len(),
{
    if s.len() == 0 {
        Seq::empty()
    } else {
        sell_entries(s.drop_last()).push(AiMarketSell { good: s.last().0, reserved: s.last().1 })
    }
}

fn insert_production(sorted: &mut Vec<AiProductionAllocation>, e: AiProductionAllocation)
    requires
        production_sorted(old(sorted)@),
    ensures
        production_sorted(final(sorted)@),
        final(sorted)@.to_multiset() == old(sorted)@.to_multiset().insert(e),
{
    let r = e.output.rank();
    let mut pos: usize = 0;
    while pos < sorted.len() && (sorted[pos].building < e.building || (sorted[pos].building == e.building
        && sorted[pos].output.rank() <= r))
        invariant
            pos <= sorted@.len(),
            r == good_rank(e.output),
            forall|k: int| 0 <= k < pos ==> production_le(#[trigger] sorted@[k], e),
        decreases sorted@.len() - pos,
    {
        pos = pos + 1;
    }
    proof {
        broadcast use vstd::seq_lib::to_multiset_insert;
    }
    sorted.insert(pos, e);
    assert(sorted@ == old(sorted)@.insert(pos as int, e));
}

fn insert_training(sorted: &mut Vec<AiTrainingAllocation>, e: AiTrainingAllocation)
    requires
        training_sorted(old(sorted)@),
    ensures
        training_sorted(final(sorted)@),
        final(sorted)@.to_multiset() == old(sorted)@.to_multiset().insert(e),
{
    let r = training_skill_order(e.skill);
    let mut pos: usize = 0;
    while pos < sorted.len() && training_skill_order(sorted[pos].skill) <= r
        invariant
            pos <= sorted@.len(),
            r == skill_rank(e.skill),
            forall|k: int| 0 <= k < pos ==> skill_rank((#[trigger] sorted@[k]).skill) <= skill_rank(e.skill),
        decreases sorted@.len() - pos,
    {
        pos = pos + 1;
    }
    proof {
        broadcast use vstd::seq_lib::to_multiset_insert;
    }
    sorted.insert(pos, e);
    assert(sorted@ == old(sorted)@.insert(pos as int, e));
}

fn insert_buy(sorted: &mut Vec<AiMarketBuy>, e: AiMarketBuy)
    requires
        buys_sorted(old(sorted)@),
    ensures
        buys_sorted(final(sorted)@),
        final(sorted)@.to_multiset() == old(sorted)@.to_multiset().insert(e),
{
    let r = e.good.rank();
    let mut pos: usize = 0;
    while pos < sorted.len() && sorted[pos].good.rank() <= r
        invariant
            pos <= sorted@.len(),
            r == good_rank(e.good),
            forall|k: int| 0 <= k < pos ==> good_rank((#[trigger] sorted@[k]).good) <= good_rank(e.good),
        decreases sorted@.len() - pos,
    {
        pos = pos + 1;
    }
    proof {
        broadcast use vstd::seq_lib::to_multiset_insert;
    }
    sorted.insert(pos, e);
    assert(sorted@ == old(sorted)@.insert(pos as int, e));
}

fn insert_sell(sorted: &mut Vec<AiMarketSell>, e: AiMarketSell)
    requires
        sells_sorted(old(sorted)@),
    ensures
        sells_sorted(final(sorted)@),
        final(sorted)@.to_multiset() == old(sorted)@.to_multiset().insert(e),
{
    let r = e.good.rank();
    let mut pos: usize = 0;
    while pos < sorted.len() && sorted[pos].good.rank() <= r
        invariant
            pos <= sorted@.len(),
            r == good_rank(e.good),
            forall|k: int| 0 <= k < pos ==> good_rank((#[trigger] sorted@[k]).good) <= good_rank(e.good),
        decreases sorted@.len() - pos,
    {
        pos = pos + 1;
    }
    proof {
        broadcast use vstd::seq_lib::to_multiset_insert;
    }
    sorted.insert(pos, e);
    assert(sorted@ == old(sorted)@.insert(pos as int, e));
}

impl AiAllocationSnapshot {
    /// No reservations.
    pub fn new() -> (s: AiAllocationSnapshot)
        ensures
            s.production@.len() == 0,
            s.recruitment == 0,
            s.training@.len() == 0,
            s.market_buys@.len() == 0,
            s.market_sells@.len() == 0,
    {
        AiAllocationSnapshot {
            production: Vec::new(),
            recruitment: 0,
            training: Vec::new(),
            market_buys: Vec::new(),
            market_sells: Vec::new(),
        }
    }

    /// The reservations of `allocations` with each list ordered; none
    /// without a record.
    pub fn from_allocations(allocations: Option<&AllocationRecord>) -> (s: AiAllocationSnapshot)
        ensures
            match allocations {
                Some(a) => {
                    &&& s.recruitment == a.recruitment
                    &&& production_sorted(s.production@)
                    &&& s.production@.to_multiset() == production_entries(a.production@).to_multiset()
                    &&& training_sorted(s.training@)
                    &&& s.training@.to_multiset() == training_entries(a.training@).to_multiset()
                    &&& buys_sorted(s.market_buys@)
                    &&& s.market_buys@.to_multiset() == buy_entries(a.market_buys@).to_multiset()
                    &&& sells_sorted(s.market_sells@)
                    &&& s.market_sells@.to_multiset() == sell_entries(a.market_sells@).to_multiset()
                },
                None => {
                    &&& s.production@.len() == 0
                    &&& s.recruitment == 0
                    &&& s.training@.len() == 0
                    &&& s.market_buys@.len() == 0
                    &&& s.market_sells@.len() == 0
                },
            },
    {
        broadcast use vstd::seq_lib::to_multiset_build;

        let a = match allocations {
            Some(a) => a,
            None => {
                return AiAllocationSnapshot::new();
            },
        };
        let mut production: Vec<AiProductionAllocation> = Vec::new();
        let mut i: usize = 0;
        while i < a.production.len()
            invariant
                i <= a.production@.len(),
                production_sorted(production@),
                production@.to_multiset() == production_entries(a.production@.take(i as int)).to_multiset(),
            decreases a.production@.len() - i,
        {
            let (building, output, reserved) = a.production[i];
            let e = AiProductionAllocation { building, output, reserved };
            insert_production(&mut production, e);
            proof {
                assert(a.production@.take(i + 1).drop_last() =~= a.production@.take(i as int));
                let pre = production_entries(a.production@.take(i as int));
                assert(production_entries(a.production@.take(i + 1)) == pre.push(e));
                vstd::seq_lib::to_multiset_build(pre, e);
            }
            i = i + 1;
        }
        assert(a.production@.take(i as int) =~= a.production@);
        let mut training: Vec<AiTrainingAllocation> = Vec::new();
        let mut i: usize = 0;
        while i < a.training.len()
            invariant
                i <= a.training@.len(),
                training_sorted(training@),
                training@.to_multiset() == training_entries(a.training@.take(i as int)).to_multiset(),
            decreases a.training@.len() - i,
        {
            let (skill, reserved) = a.training[i];
            let e = AiTrainingAllocation { skill, reserved };
            insert_training(&mut training, e);
            proof {
                assert(a.training@.take(i + 1).drop_last() =~= a.training@.take(i as int));
                let pre = training_entries(a.training@.take(i as int));
                assert(training_entries(a.training@.take(i + 1)) == pre.push(e));
                vstd::seq_lib::to_multiset_build(pre, e);
            }
            i = i + 1;
        }
        assert(a.training@.take(i as int) =~= a.training@);
        let mut buys: Vec<AiMarketBuy> = Vec::new();
        let mut i: usize = 0;
        while i < a.market_buys.len()
            invariant
                i <= a.market_buys@.len(),
                buys_sorted(buys@),
                buys@.to_multiset() == buy_entries(a.market_buys@.take(i as int)).to_multiset(),
            decreases a.market_buys@.len() - i,
        {
            let e = AiMarketBuy { good: a.market_buys[i] };
            insert_buy(&mut buys, e);
            proof {
                assert(a.market_buys@.take(i + 1).drop_last() =~= a.market_buys@.take(i as int));
                let pre = buy_entries(a.market_buys@.take(i as int));
                assert(buy_entries(a.market_buys@.take(i + 1)) == pre.push(e));
                vstd::seq_lib::to_multiset_build(pre, e);
            }
            i = i + 1;
        }
        assert(a.market_buys@.take(i as int) =~= a.market_buys@);
        let mut sells: Vec<AiMarketSell> = Vec::new();
        let mut i: usize = 0;
        while i < a.market_sells.len()
            invariant
                i <= a.market_sells@.len(),
                sells_sorted(sells@),
                sells@.to_multiset() == sell_entries(a.market_sells@.take(i as int)).to_multiset(),
            decreases a.market_sells@.len() - i,
        {
            let (good, reserved) = a.market_sells[i];
            let e = AiMarketSell { good, reserved };
            insert_sell(&mut sells, e);
            proof {
                assert(a.market_sells@.take(i + 1).drop_last() =~= a.market_sells@.take(i as int));
                let pre = sell_entries(a.market_sells@.take(i as int));
                assert(sell_entries(a.market_sells@.take(i + 1)) == pre.push(e));
                vstd::seq_lib::to_multiset_build(pre, e);
            }
            i = i + 1;
        }
        assert(a.market_sells@.take(i as int) =~= a.market_sells@);
        AiAllocationSnapshot {
            production,
            recruitment: a.recruitment,
            training,
            market_buys: buys,
            market_sells: sells,
        }
    }
}

/// Transport capacity of a nation: all of it and the part in use.
#[derive(Clone, Copy, Debug, PartialEq, Eq, Structural)]
pub struct CapacitySnapshot {
    pub total: u32,
    pub used: u32,
}

/// Transport capacity asked for and given to a commodity.
#[derive(Clone, Copy, Debug, PartialEq, Eq, Structural)]
pub struct AiTransportAllocation {
    pub commodity: TransportCommodity,
    pub requested: u32,
    pub granted: u32,
}

/// Supply and demand of transport for a commodity.
#[derive(Clone, Copy, Debug, PartialEq, Eq, Structural)]
pub struct AiTransportDemand {
    pub commodity: TransportCommodity,
    pub supply: u32,
    pub demand: u32,
}

/// A nation's transport: capacity, and the commodities with an allocation
/// or a demand, in the order commodities are listed.
#[derive(Clone, Debug)]
pub struct AiTransportSnapshot {
    pub capacity: CapacitySnapshot,
    pub allocations: Vec<AiTransportAllocation>,
    pub demand: Vec<AiTransportDemand>,
}

/// The order in which transport commodities are listed.
pub open spec fn ordered_commodities() -> Seq<TransportCommodity> {
    seq![
        TransportCommodity::Grain,
        TransportCommodity::Fruit,
        TransportCommodity::Fiber,
        TransportCommodity::Meat,
        TransportCommodity::Timber,
        TransportCommodity::Coal,
        TransportCommodity::Iron,
        TransportCommodity::Precious,
        TransportCommodity::Oil,
        TransportCommodity::Fabric,
        TransportCommodity::Lumber,
        TransportCommodity::Paper,
        TransportCommodity::Steel,
        TransportCommodity::Fuel,
        TransportCommodity::Clothing,
        TransportCommodity::Furniture,
        TransportCommodity::Hardware,
        TransportCommodity::Armaments,
        TransportCommodity::CannedFood,
        TransportCommodity::Horses,
    ]
}

/// The two figures listed first for `c` in `entries`; zero without an entry.
pub open spec fn commodity_figures(entries: Seq<(TransportCommodity, u32, u32)>, c: TransportCommodity) -> (u32, u32)
    decreases entries.len(),
{
    if entries.len() == 0 {
        (0, 0)
    } else if entries[0].0 == c {
        (entries[0].1, entries[0].2)
    } else {
        commodity_figures(entries.drop_first(), c)
    }
}

/// The allocations, for each of `cs` in order, of which something was
/// requested or granted.
pub open spec fn allocation_rows(slots: Seq<(TransportCommodity, u32, u32)>, cs: Seq<TransportCommodity>) -> Seq<
    AiTransportAllocation,
>
    decreases cs.len(),
{
    if cs.len() == 0 {
        Seq::empty()
    } else {
        let prev = allocation_rows(slots, cs.drop_last());
        let (r, g) = commodity_figures(slots, cs.last());
        if r > 0 || g > 0 {
            prev.push(AiTransportAllocation { commodity: cs.last(), requested: r, granted: g })
        } else {
            prev
        }
    }
}

/// The demands, for each of `cs` in order, with some supply or demand.
pub open spec fn demand_rows(entries: Seq<(TransportCommodity, u32, u32)>, cs: Seq<TransportCommodity>) -> Seq<
    AiTransportDemand,
>
    decreases cs.len(),
{
    if cs.len() == 0 {
        Seq::empty()
    } else {
        let prev = demand_rows(entries, cs.drop_last());
        let (sup, dem) = commodity_figures(entries, cs.last());
        if sup > 0 || dem > 0 {
            prev.push(AiTransportDemand { commodity: cs.last(), supply: sup, demand: dem })
        } else {
            prev
        }
    }
}

fn figures_for(entries: &Vec<(TransportCommodity, u32, u32)>, c: TransportCommodity) -> (r: (u32, u32))
    ensures
        r == commodity_figures(entries@, c),
{
    let mut i: usize = 0;
    assert(entries@.skip(0) =~= entries@);
    while i < entries.len()
        invariant
            i <= entries@.len(),
            commodity_figures(entries@, c) == commodity_figures(entries@.skip(i as int), c),
        decreases entries@.len() - i,
    {
        assert(entries@.skip(i as int).drop_first() =~= entries@.skip(i + 1));
        let (k, a, b) = entries[i];
        if k == c {
            return (a, b);
        }
        i = i + 1;
    }
    (0, 0)
}

fn commodity_list() -> (v: Vec<TransportCommodity>)
    ensures
        v@ == ordered_commodities(),
{
    let v = vec![
        TransportCommodity::Grain,
        TransportCommodity::Fruit,
        TransportCommodity::Fiber,
        TransportCommodity::Meat,
        TransportCommodity::Timber,
        TransportCommodity::Coal,
        TransportCommodity::Iron,
        TransportCommodity::Precious,
        TransportCommodity::Oil,
        TransportCommodity::Fabric,
        TransportCommodity::Lumber,
        TransportCommodity::Paper,
        TransportCommodity::Steel,
        TransportCommodity::Fuel,
        TransportCommodity::Clothing,
        TransportCommodity::Furniture,
        TransportCommodity::Hardware,
        TransportCommodity::Armaments,
        TransportCommodity::CannedFood,
        TransportCommodity::Horses,
    ];
    assert(v@ =~= ordered_commodities());
    v
}

impl AiTransportSnapshot {
    /// The transport picture of a nation from its capacity, its slots
    /// `(commodity, requested, granted)` and its demand entries
    /// `(commodity, supply, demand)`; a missing part reads as empty.
    pub fn from_resources(
        capacity: Option<CapacitySnapshot>,
        slots: Option<&Vec<(TransportCommodity, u32, u32)>>,
        demand: Option<&Vec<(TransportCommodity, u32, u32)>>,
    ) -> (s: AiTransportSnapshot)
        ensures
            s.capacity == match capacity {
                Some(c) => c,
                None => CapacitySnapshot { total: 0, used: 0 },
            },
            s.allocations@ == match slots {
                Some(v) => allocation_rows(v@, ordered_commodities()),
                None => Seq::empty(),
            },
            s.demand@ == match demand {
                Some(v) => demand_rows(v@, ordered_commodities()),
                None => Seq::empty(),
            },
    {
        let cs = commodity_list();
        let mut allocations: Vec<AiTransportAllocation> = Vec::new();
        if let Some(v) = slots {
            let mut i: usize = 0;
            while i < cs.len()
                invariant
                    i <= cs@.len(),
                    allocations@ == allocation_rows(v@, cs@.take(i as int)),
                decreases cs@.len() - i,
            {
                let c = cs[i];
                assert(cs@.take(i + 1).drop_last() =~= cs@.take(i as int));
                assert(cs@.take(i + 1).last() == c);
                let (r, g) = figures_for(v, c);
                if r > 0 || g > 0 {
                    allocations.push(AiTransportAllocation { commodity: c, requested: r, granted: g });
                }
                i = i + 1;
            }
            assert(cs@.take(i as int) =~= cs@);
        }
        let mut rows: Vec<AiTransportDemand> = Vec::new();
        if let Some(v) = demand {
            let mut i: usize = 0;
            while i < cs.len()
                invariant
                    i <= cs@.len(),
                    rows@ == demand_rows(v@, cs@.take(i as int)),
                decreases cs@.len() - i,
            {
                let c = cs[i];
                assert(cs@.take(i + 1).drop_last() =~= cs@.take(i as int));
                assert(cs@.take(i + 1).last() == c);
                let (sup, dem) = figures_for(v, c);
                if sup > 0 || dem > 0 {
                    rows.push(AiTransportDemand { commodity: c, supply: sup, demand: dem });
                }
                i = i + 1;
            }
            assert(cs@.take(i as int) =~= cs@);
        }
        let capacity = match capacity {
            Some(c) => c,
            None => CapacitySnapshot { total: 0, used: 0 },
        };
        AiTransportSnapshot { capacity, allocations, demand: rows }
    }
}

/// The economic picture of one nation.
#[derive(Clone, Debug)]
pub struct AiNationSnapshot {
    /// Entity id of the nation.
    pub entity: u64,
    /// Ordered by good.
    pub stockpile: Vec<StockpileEntry>,
    pub workforce: AiWorkforceSnapshot,
    pub allocations: AiAllocationSnapshot,
    pub transport: AiTransportSnapshot,
}

/// The picture of one nation, its stock ordered by good.
pub fn nation_turn_snapshot(
    entity: u64,
    stockpile: &Vec<StockpileEntry>,
    workforce: AiWorkforceSnapshot,
    allocations: AiAllocationSnapshot,
    transport: AiTransportSnapshot,
) -> (s: AiNationSnapshot)
    ensures
        s.entity == entity,
        stock_sorted(s.stockpile@),
        s.stockpile@.to_multiset() == stockpile@.to_multiset(),
        s.workforce == workforce,
        s.allocations == allocations,
        s.transport == transport,
{
    AiNationSnapshot {
        entity,
        stockpile: crate::ai::analysis::sort_stock_by_good(stockpile),
        workforce,
        allocations,
        transport,
    }
}

pub open spec fn entities_ascending(s: Seq<AiNationSnapshot>) -> bool {
    forall|i: int, j: int| 0 <= i < j < s.len() ==> (#[trigger] s[i]).entity <= (#[trigger] s[j]).entity
}

/// The first picture of nation `e` in `s`.
pub open spec fn first_of_nation(s: Seq<AiNationSnapshot>, e: u64) -> Option<AiNationSnapshot>
    decreases s.len(),
{
    if s.len() == 0 {
        None
    } else if s[0].entity == e {
        Some(s[0])
    } else {
        first_of_nation(s.drop_first(), e)
    }
}

/// What the AI knows of every nation during the current turn.
pub struct AiTurnContext {
    turn: u32,
    phase: TurnPhase,
    nations: Vec<AiNationSnapshot>,
}

fn insert_by_entity(sorted: &mut Vec<AiNationSnapshot>, n: AiNationSnapshot)
    requires
        entities_ascending(old(sorted)@),
    ensures
        entities_ascending(final(sorted)@),
        final(sorted)@.to_multiset() == old(sorted)@.to_multiset().insert(n),
{
    let mut pos: usize = 0;
    while pos < sorted.len() && sorted[pos].entity <= n.entity
        invariant
            pos <= sorted@.len(),
            forall|k: int| 0 <= k < pos ==> (#[trigger] sorted@[k]).entity <= n.entity,
        decreases sorted@.len() - pos,
    {
        pos = pos + 1;
    }
    proof {
        broadcast use vstd::seq_lib::to_multiset_insert;
    }
    sorted.insert(pos, n);
    assert(sorted@ == old(sorted)@.insert(pos as int, n));
}

impl AiTurnContext {
    pub closed spec fn turn_number(&self) -> u32 {
        self.turn
    }

    pub closed spec fn turn_phase(&self) -> TurnPhase {
        self.phase
    }

    pub closed spec fn pictures(&self) -> Seq<AiNationSnapshot> {
        self.nations@
    }

    /// Turn 0, the player's turn, no nations.
    pub fn new() -> (c: AiTurnContext)
        ensures
            c.turn_number() == 0,
            c.turn_phase() == TurnPhase::PlayerTurn,
            c.pictures().len() == 0,
    {
        AiTurnContext { turn: 0, phase: TurnPhase::PlayerTurn, nations: Vec::new() }
    }

    /// Back to turn 0, the player's turn, no nations.
    pub fn clear(&mut self)
        ensures
            final(self).turn_number() == 0,
            final(self).turn_phase() == TurnPhase::PlayerTurn,
            final(self).pictures().len() == 0,
    {
        self.turn = 0;
        self.phase = TurnPhase::PlayerTurn;
        self.nations.clear();
    }

    pub fn turn(&self) -> (t: u32)
        ensures
            t == self.turn_number(),
    {
        self.turn
    }

    pub fn phase(&self) -> (p: TurnPhase)
        ensures
            p == self.turn_phase(),
    {
        self.phase
    }

    /// True when no nation is pictured.
    pub fn is_empty(&self) -> (r: bool)
        ensures
            r == (self.pictures().len() == 0),
    {
        self.nations.len() == 0
    }

    /// Every nation's picture, by entity id.
    pub fn nations(&self) -> (r: &Vec<AiNationSnapshot>)
        ensures
            r@ == self.pictures(),
    {
        &self.nations
    }

    /// The first picture of nation `nation`, if any.
    pub fn for_nation(&self, nation: u64) -> (r: Option<&AiNationSnapshot>)
        ensures
            match r {
                Some(n) => first_of_nation(self.pictures(), nation) == Some(*n),
                None => first_of_nation(self.pictures(), nation) is None,
            },
    {
        let mut i: usize = 0;
        assert(self.nations@.skip(0) =~= self.nations@);
        while i < self.nations.len()
            invariant
                i <= self.nations@.len(),
                first_of_nation(self.nations@, nation) == first_of_nation(self.nations@.skip(i as int), nation),
            decreases self.nations@.len() - i,
        {
            assert(self.nations@.skip(i as int).drop_first() =~= self.nations@.skip(i + 1));
            if self.nations[i].entity == nation {
                return Some(&self.nations[i]);
            }
            i = i + 1;
        }
        None
    }

    /// Replaces the context by turn `turn` in phase `phase` with the given
    /// pictures, ordered by entity id.
    pub fn populate(&mut self, turn: u32, phase: TurnPhase, snapshots: Vec<AiNationSnapshot>)
        ensures
            final(self).turn_number() == turn,
            final(self).turn_phase() == phase,
            entities_ascending(final(self).pictures()),
            final(self).pictures().to_multiset() == snapshots@.to_multiset(),
    {
        broadcast use vstd::multiset::group_multiset_axioms;
        broadcast use vstd::seq_lib::group_to_multiset_ensures;

        let ghost orig = snapshots@;
        let mut rest = snapshots;
        let mut sorted: Vec<AiNationSnapshot> = Vec::new();
        assert(sorted@.to_multiset() =~= Multiset::empty());
        assert(sorted@.to_multiset().add(rest@.to_multiset()) =~= orig.to_multiset());
        while rest.len() > 0
            invariant
                entities_ascending(sorted@),
                sorted@.to_multiset().add(rest@.to_multiset()) == orig.to_multiset(),
            decreases rest@.len(),
        {
            let ghost before = rest@;
            let ghost had = sorted@;
            let x = rest.pop().unwrap();
            assert(before =~= rest@.push(x));
            insert_by_entity(&mut sorted, x);
            proof {
                vstd::seq_lib::to_multiset_build(rest@, x);
                assert(before.to_multiset() == rest@.to_multiset().insert(x));
                assert(sorted@.to_multiset() == had.to_multiset().insert(x));
                assert(sorted@.to_multiset().add(rest@.to_multiset()) =~= had.to_multiset().add(before.to_multiset()));
            }
        }
        assert(rest@.to_multiset() =~= Multiset::empty());
        assert(sorted@.to_multiset() =~= orig.to_multiset());
        self.turn = turn;
        self.phase = phase;
        self.nations = sorted;
    }
}

/// How many of `buys` are for `good`.
pub open spec fn buy_count(buys: Seq<AiMarketBuy>, good: Good) -> nat
    decreases buys.len(),
{
    if buys.len() == 0 {
        0
    } else {
        buy_count(buys.drop_last(), good) + if buys.last().good == good {
            1nat
        } else {
            0nat
        }
    }
}

/// The reserved units (each read as a `u32`) of the sales of `good` in `sells`.
pub open spec fn sell_total(sells: Seq<AiMarketSell>, good: Good) -> nat
    decreases sells.len(),
{
    if sells.len() == 0 {
        0
    } else {
        sell_total(sells.drop_last(), good) + if sells.last().good == good {
            (sells.last().reserved as u32) as nat
        } else {
            0nat
        }
    }
}

/// Demand for `good` on the market: the buy interests of all nations.
pub open spec fn market_demand(nations: Seq<AiNationSnapshot>, good: Good) -> nat
    decreases nations.len(),
{
    if nations.len() == 0 {
        0
    } else {
        market_demand(nations.drop_last(), good) + buy_count(nations.last().allocations.market_buys@, good)
    }
}

/// Supply of `good` on the market: what all nations reserved for sale.
pub open spec fn market_supply(nations: Seq<AiNationSnapshot>, good: Good) -> nat
    decreases nations.len(),
{
    if nations.len() == 0 {
        0
    } else {
        market_supply(nations.drop_last(), good) + sell_total(nations.last().allocations.market_sells@, good)
    }
}

proof fn lemma_demand_grows(nations: Seq<AiNationSnapshot>, good: Good, i: int)
    requires
        0 <= i <= nations.len(),
    ensures
        market_demand(nations.take(i), good) <= market_demand(nations, good),
        market_supply(nations.take(i), good) <= market_supply(nations, good),
    decreases nations.len(),
{
    if i < nations.len() {
        assert(nations.drop_last().take(i) =~= nations.take(i));
        lemma_demand_grows(nations.drop_last(), good, i);
    } else {
        assert(nations.take(i) =~= nations);
    }
}

fn count_buys(buys: &Vec<AiMarketBuy>, good: Good) -> (n: u32)
    requires
        buy_count(buys@, good) <= u32::MAX,
    ensures
        n == buy_count(buys@, good),
{
    let mut n: u32 = 0;
    let mut i: usize = 0;
    while i < buys.len()
        invariant
            i <= buys@.len(),
            n == buy_count(buys@.take(i as int), good),
            buy_count(buys@, good) <= u32::MAX,
        decreases buys@.len() - i,
    {
        proof {
            assert(buys@.take(i + 1).drop_last() =~= buys@.take(i as int));
            lemma_buy_count_prefix(buys@, good, i + 1);
        }
        if buys[i].good == good {
            n = n + 1;
        }
        i = i + 1;
    }
    assert(buys@.take(i as int) =~= buys@);
    n
}

proof fn lemma_buy_count_prefix(buys: Seq<AiMarketBuy>, good: Good, i: int)
    requires
        0 <= i <= buys.len(),
    ensures
        buy_count(buys.take(i), good) <= buy_count(buys, good),
    decreases buys.len(),
{
    if i < buys.len() {
        assert(buys.drop_last().take(i) =~= buys.take(i));
        lemma_buy_count_prefix(buys.drop_last(), good, i);
    } else {
        assert(buys.take(i) =~= buys);
    }
}

proof fn lemma_sell_total_prefix(sells: Seq<AiMarketSell>, good: Good, i: int)
    requires
        0 <= i <= sells.len(),
    ensures
        sell_total(sells.take(i), good) <= sell_total(sells, good),
    decreases sells.len(),
{
    if i < sells.len() {
        assert(sells.drop_last().take(i) =~= sells.take(i));
        lemma_sell_total_prefix(sells.drop_last(), good, i);
    } else {
        assert(sells.take(i) =~= sells);
    }
}

fn total_sells(sells: &Vec<AiMarketSell>, good: Good) -> (n: u32)
    requires
        sell_total(sells@, good) <= u32::MAX,
    ensures
        n == sell_total(sells@, good),
{
    let mut n: u32 = 0;
    let mut i: usize = 0;
    while i < sells.len()
        invariant
            i <= sells@.len(),
            n == sell_total(sells@.take(i as int), good),
            sell_total(sells@, good) <= u32::MAX,
        decreases sells@.len() - i,
    {
        proof {
            assert(sells@.take(i + 1).drop_last() =~= sells@.take(i as int));
            lemma_sell_total_prefix(sells@, good, i + 1);
        }
        if sells[i].good == good {
            n = n + sells[i].reserved as u32;
        }
        i = i + 1;
    }
    assert(sells@.take(i as int) =~= sells@);
    n
}

impl AiTurnContext {
    /// Supply and demand of `good` on the market: the units all pictured
    /// nations reserved for sale, and their buy interests in it. Both must
    /// fit in a `u32`.
    pub fn market_volume(&self, good: Good) -> (r: (u32, u32))
        requires
            market_supply(self.pictures(), good) <= u32::MAX,
            market_demand(self.pictures(), good) <= u32::MAX,
        ensures
            r == (market_supply(self.pictures(), good) as u32, market_demand(self.pictures(), good) as u32),
    {
        let mut supply: u32 = 0;
        let mut demand: u32 = 0;
        let mut i: usize = 0;
        while i < self.nations.len()
            invariant
                i <= self.nations@.len(),
                supply == market_supply(self.nations@.take(i as int), good),
                demand == market_demand(self.nations@.take(i as int), good),
                market_supply(self.nations@, good) <= u32::MAX,
                market_demand(self.nations@, good) <= u32::MAX,
            decreases self.nations@.len() - i,
        {
            proof {
                assert(self.nations@.take(i + 1).drop_last() =~= self.nations@.take(i as int));
                lemma_demand_grows(self.nations@, good, i + 1);
            }
            let n = &self.nations[i];
            let d = count_buys(&n.allocations.market_buys, good);
            let s = total_sells(&n.allocations.market_sells, good);
            demand = demand + d;
            supply = supply + s;
            i = i + 1;
        }
        assert(self.nations@.take(i as int) =~= self.nations@);
        (supply, demand)
    }
}

} // verus!
