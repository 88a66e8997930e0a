//! The AI's reading of the world before it plans: what it believes of each
//! nation, which depots a rail from the capital would connect, and the macro
//! actions worth weighing this turn.

use crate::ai::census::DepotRecord;
use crate::ai::context::{
    buy_recommendation, AiPlanLedger, BeliefNation, MacroTag, MarketObservation, MarketView, MinorId,
};
use crate::ai::snapshot::{stock_entry, StockpileEntry};
use crate::economy::{good_rank, raw_food, Good};
use crate::map::{edge_of, Rails, TilePos};
use vstd::prelude::*;

verus! {

/// The belief about nation `e` that comes last in `entries`.
pub open spec fn last_belief(entries: Seq<BeliefNation>, e: u64) -> Option<BeliefNation>
    decreases entries.len(),
{
    if entries.len() == 0 {
        None
    } else if entries.last().entity == e {
        Some(entries.last())
    } else {
        last_belief(entries.drop_last(), e)
    }
}

/// No two beliefs are about the same nation.
pub open spec fn entities_distinct(s: Seq<BeliefNation>) -> bool {
    forall|i: int, j: int| 0 <= i < j < s.len() ==> (#[trigger] s[i]).entity != (#[trigger] s[j]).entity
}

proof fn lemma_last_belief_found(s: Seq<BeliefNation>, e: u64)
    ensures
        last_belief(s, e) is Some <==> exists|i: int| 0 <= i < s.len() && (#[trigger] s[i]).entity == e,
        last_belief(s, e) matches Some(b) ==> b.entity == e,
    decreases s.len(),
{
    if s.len() > 0 {
        lemma_last_belief_found(s.drop_last(), e);
        if s.last().entity != e && exists|i: int| 0 <= i < s.len() && (#[trigger] s[i]).entity == e {
            let i = choose|i: int| 0 <= i < s.len() && (#[trigger] s[i]).entity == e;
            assert(s.drop_last()[i] == s[i]);
        }
        if last_belief(s.drop_last(), e) is Some {
            let i = choose|i: int| 0 <= i < s.len() - 1 && (#[trigger] s.drop_last()[i]).entity == e;
            assert(s[i] == s.drop_last()[i]);
        }
    }
}

proof fn lemma_distinct_lookup(s: Seq<BeliefNation>, i: int)
    requires
        entities_distinct(s),
        0 <= i < s.len(),
    ensures
        last_belief(s, s[i].entity) == Some(s[i]),
    decreases s.len(),
{
    if i < s.len() - 1 {
        assert(s.last().entity != s[i].entity);
        assert(s.drop_last()[i] == s[i]);
        lemma_distinct_lookup(s.drop_last(), i);
    }
}

/// What the AI believes of every nation this turn.
pub struct BeliefState {
    nations: Vec<BeliefNation>,
    turn: u32,
}

impl BeliefState {
    #[verifier::type_invariant]
    spec fn one_per_nation(self) -> bool {
        entities_distinct(self.nations@)
    }

    /// The belief held about nation `e`.
    pub closed spec fn belief(&self, e: u64) -> Option<BeliefNation> {
        last_belief(self.nations@, e)
    }

    /// The turn the beliefs were gathered on.
    pub closed spec fn turn_number(&self) -> u32 {
        self.turn
    }

    /// No beliefs, on turn 0.
    pub fn new() -> (s: BeliefState)
        ensures
            forall|e: u64| s.belief(e) is None,
            s.turn_number() == 0,
    {
        BeliefState { nations: Vec::new(), turn: 0 }
    }

    /// Replaces every belief by those in `entries` (the last one about a
    /// nation counts) and records the turn.
    pub fn rebuild(&mut self, turn: u32, entries: Vec<BeliefNation>)
        ensures
            forall|e: u64| final(self).belief(e) == last_belief(entries@, e),
            final(self).turn_number() == turn,
    {
        let ghost orig = entries@;
        let mut rest = entries;
        let mut kept: Vec<BeliefNation> = Vec::new();
        while rest.len() > 0
            invariant
                rest@.len() <= orig.len(),
                rest@ == orig.take(rest@.len() as int),
                entities_distinct(kept@),
                forall|e: u64|
                    last_belief(orig, e) == match last_belief(kept@, e) {
                        Some(b) => Some(b),
                        None => last_belief(rest@, e),
                    },
            decreases rest@.len(),
        {
            let ghost before = rest@;
            let x = rest.pop().unwrap();
            assert(before.drop_last() =~= rest@);
            assert(rest@ =~= orig.take(rest@.len() as int));
            let mut present = false;
            let mut k: usize = 0;
            while k < kept.len()
                invariant
                    k <= kept@.len(),
                    present == exists|j: int| 0 <= j < k && (#[trigger] kept@[j]).entity == x.entity,
                decreases kept@.len() - k,
            {
                if kept[k].entity == x.entity {
                    present = true;
                }
                k = k + 1;
            }
            proof {
                lemma_last_belief_found(kept@, x.entity);
            }
            let ghost prev = kept@;
            if !present {
                kept.push(x);
                proof {
                    assert forall|i: int, j: int| 0 <= i < j < kept@.len() implies (#[trigger] kept@[i]).entity
                        != (#[trigger] kept@[j]).entity by {
                        if j == prev.len() {
                            assert(kept@[i] == prev[i]);
                        } else {
                            assert(kept@[i] == prev[i] && kept@[j] == prev[j]);
                        }
                    }
                    assert(kept@.drop_last() =~= prev);
                }
            }
            proof {
                assert forall|e: u64|
                    last_belief(orig, e) == match last_belief(kept@, e) {
                        Some(b) => Some(b),
                        None => last_belief(rest@, e),
                    } by {
                    lemma_last_belief_found(prev, e);
                }
            }
        }
        self.nations = kept;
        self.turn = turn;
    }

    /// Every belief, one per nation.
    pub fn nations(&self) -> (r: &Vec<BeliefNation>)
        ensures
            entities_distinct(r@),
            forall|i: int| 0 <= i < r@.len() ==> self.belief((#[trigger] r@[i]).entity) == Some(r@[i]),
            forall|e: u64| self.belief(e) is Some ==> exists|i: int| 0 <= i < r@.len() && (#[trigger] r@[i]).entity == e,
    {
        proof {
            use_type_invariant(self);
            assert forall|i: int| 0 <= i < self.nations@.len() implies self.belief((#[trigger] self.nations@[i]).entity)
                == Some(self.nations@[i]) by {
                lemma_distinct_lookup(self.nations@, i);
            }
            assert forall|e: u64| self.belief(e) is Some implies exists|i: int|
                0 <= i < self.nations@.len() && (#[trigger] self.nations@[i]).entity == e by {
                lemma_last_belief_found(self.nations@, e);
            }
        }
        &self.nations
    }

    /// The belief about nation `entity`, if any.
    pub fn for_entity(&self, entity: u64) -> (r: Option<&BeliefNation>)
        ensures
            match r {
                Some(b) => self.belief(entity) == Some(*b),
                None => self.belief(entity) is None,
            },
    {
        proof {
            use_type_invariant(self);
            lemma_last_belief_found(self.nations@, entity);
        }
        let mut i: usize = 0;
        while i < self.nations.len()
            invariant
                i <= self.nations@.len(),
                entities_distinct(self.nations@),
                forall|j: int| 0 <= j < i ==> (#[trigger] self.nations@[j]).entity != entity,
            decreases self.nations@.len() - i,
        {
            if self.nations[i].entity == entity {
                proof {
                    lemma_distinct_lookup(self.nations@, i as int);
                }
                return Some(&self.nations[i]);
            }
            i = i + 1;
        }
        None
    }

    /// The turn the beliefs were gathered on.
    pub fn turn(&self) -> (t: u32)
        ensures
            t == self.turn_number(),
    {
        self.turn
    }
}

/// Stock entries ordered by good.
pub open spec fn stock_sorted(s: Seq<StockpileEntry>) -> bool {
    forall|i: int, j: int| 0 <= i < j < s.len() ==> good_rank((#[trigger] s[i]).good) <= good_rank((#[trigger] s[j]).good)
}

fn insert_by_good(sorted: &mut Vec<StockpileEntry>, e: StockpileEntry)
    requires
        stock_sorted(old(sorted)@),
    ensures
        stock_sorted(final(sorted)@),
        final(sorted)@.to_multiset() == old(sorted)@.to_multiset().insert(e),
{
    let r = e.good.rank();
    let mut pos: usize = 0;
    while pos < sorted.len() && sorted[pos].good.rank() <= r
        invariant
            pos <= sorted@.len(),
            r == good_rank(e.good),
            forall|k: int| 0 <= k < pos ==> good_rank((#[trigger] sorted@[k]).good) <= good_rank(e.good),
        decreases sorted@.len() - pos,
    {
        pos = pos + 1;
    }
    proof {
        broadcast use vstd::seq_lib::to_multiset_insert;
    }
    sorted.insert(pos, e);
    assert(sorted@ == old(sorted)@.insert(pos as int, e));
}

/// The entries of `stockpile` ordered by good.
pub fn sort_stock_by_good(stockpile: &Vec<StockpileEntry>) -> (r: Vec<StockpileEntry>)
    ensures
        stock_sorted(r@),
        r@.to_multiset() == stockpile@.to_multiset(),
{
    broadcast use vstd::seq_lib::group_to_multiset_ensures;

    let mut sorted: Vec<StockpileEntry> = Vec::new();
    assert(stockpile@.take(0) =~= Seq::<StockpileEntry>::empty());
    let mut i: usize = 0;
    while i < stockpile.len()
        invariant
            i <= stockpile@.len(),
            stock_sorted(sorted@),
            sorted@.to_multiset() == stockpile@.take(i as int).to_multiset(),
        decreases stockpile@.len() - i,
    {
        let e = stockpile[i];
        insert_by_good(&mut sorted, e);
        proof {
            let pre = stockpile@.take(i as int);
            assert(stockpile@.take(i + 1) =~= pre.push(e));
            vstd::seq_lib::to_multiset_build(pre, e);
        }
        i = i + 1;
    }
    assert(stockpile@.take(i as int) =~= stockpile@);
    sorted
}

/// The belief about a nation: its stock, ordered by good, and its cash.
pub fn belief_of_nation(entity: u64, stockpile: &Vec<StockpileEntry>, treasury: i64) -> (b: BeliefNation)
    ensures
        b.entity == entity,
        b.treasury == treasury,
        stock_sorted(b.stockpile@),
        b.stockpile@.to_multiset() == stockpile@.to_multiset(),
{
    BeliefNation { entity, stockpile: sort_stock_by_good(stockpile), treasury }
}

/// How many units of `good` the AI wants in store: twelve of raw food,
/// twenty of anything else.
pub open spec fn target_stock(good: Good) -> u32 {
    if raw_food(good) {
        12
    } else {
        20
    }
}

/// How many units of `good` the AI wants in store (see `target_stock`).
pub fn target_stock_units(good: Good) -> (r: u32)
    ensures
        r == target_stock(good),
{
    if good.is_raw_food() {
        12
    } else {
        20
    }
}

/// A rail the AI could lay from its capital straight to one of its depots
/// that still needs a connection.
#[derive(Clone, Copy, Debug, PartialEq, Eq, Structural)]
pub struct RailLink {
    /// Entity id of the nation.
    pub nation: u64,
    pub from: TilePos,
    pub to: TilePos,
    /// Steps along rows plus steps along columns between the two tiles.
    pub span: u64,
}

/// Steps along rows plus steps along columns between two tiles.
pub open spec fn grid_span(a: TilePos, b: TilePos) -> int {
    crate::map::int_abs(a.x - b.x) + crate::map::int_abs(a.y - b.y)
}

/// Rank of a link by what it gains: shorter is better; from a span of 19 on
/// the gain is at its floor, so all such links rank alike.
pub open spec fn gain_rank(l: RailLink) -> nat {
    if l.span < 19 {
        l.span as nat
    } else {
        19
    }
}

/// The links from `capital` to each unconnected depot of `nation` that no
/// rail joins to it directly, in the order the depots are listed.
pub open spec fn link_candidates(
    depots: Seq<DepotRecord>,
    nation: u64,
    capital: TilePos,
    rails: Set<(TilePos, TilePos)>,
) -> Seq<RailLink>
    decreases depots.len(),
{
    if depots.len() == 0 {
        Seq::empty()
    } else {
        let prev = link_candidates(depots.drop_last(), nation, capital, rails);
        let d = depots.last();
        if d.owner == nation && !d.connected && !rails.contains(edge_of(capital, d.position)) {
            prev.push(RailLink { nation, from: capital, to: d.position, span: grid_span(capital, d.position) as u64 })
        } else {
            prev
        }
    }
}

/// Where `x` goes in `sorted`: after every link ranked no worse.
pub open spec fn link_slot(sorted: Seq<RailLink>, x: RailLink) -> int
    decreases sorted.len(),
{
    if sorted.len() == 0 {
        0
    } else if gain_rank(sorted[0]) > gain_rank(x) {
        0
    } else {
        1 + link_slot(sorted.drop_first(), x)
    }
}

/// `links` ordered best first, links of equal rank in their given order.
pub open spec fn ranked_links(links: Seq<RailLink>) -> Seq<RailLink>
    decreases links.len(),
{
    if links.len() == 0 {
        Seq::empty()
    } else {
        let r = ranked_links(links.drop_last());
        r.insert(link_slot(r, links.last()), links.last())
    }
}

proof fn lemma_link_slot_bounds(sorted: Seq<RailLink>, x: RailLink)
    ensures
        0 <= link_slot(sorted, x) <= sorted.len(),
    decreases sorted.len(),
{
    if sorted.len() > 0 {
        lemma_link_slot_bounds(sorted.drop_first(), x);
    }
}

proof fn lemma_ranked_len(links: Seq<RailLink>)
    ensures
        ranked_links(links).len() == links.len(),
    decreases links.len(),
{
    if links.len() > 0 {
        lemma_ranked_len(links.drop_last());
        lemma_link_slot_bounds(ranked_links(links.drop_last()), links.last());
    }
}

fn link_rank(l: &RailLink) -> (r: u64)
    ensures
        r == gain_rank(*l),
{
    if l.span < 19 {
        l.span
    } else {
        19
    }
}

fn abs_diff(a: u32, b: u32) -> (d: u64)
    ensures
        d == crate::map::int_abs(a - b),
{
    if a >= b {
        (a - b) as u64
    } else {
        (b - a) as u64
    }
}

/// The best four (at most) rails from `capital` to unconnected depots of
/// `nation` that no rail joins to it directly: shortest first, from a span of
/// 19 on all alike, ties in the order the depots are listed.
pub fn rail_upgrade_candidates(nation: u64, capital: TilePos, depots: &Vec<DepotRecord>, rails: &Rails) -> (r: Vec<
    RailLink,
>)
    ensures
        ({
            let ranked = ranked_links(link_candidates(depots@, nation, capital, rails@));
            r@ == if ranked.len() <= 4 {
                ranked
            } else {
                ranked.take(4)
            }
        }),
{
    let mut ranked: Vec<RailLink> = Vec::new();
    let mut i: usize = 0;
    while i < depots.len()
        invariant
            i <= depots@.len(),
            ranked@ == ranked_links(link_candidates(depots@.take(i as int), nation, capital, rails@)),
        decreases depots@.len() - i,
    {
        let d = depots[i];
        let ghost pre = depots@.take(i as int);
        assert(depots@.take(i + 1).drop_last() =~= pre);
        assert(depots@.take(i + 1).last() == d);
        if d.owner == nation && !d.connected && !rails.connects(capital, d.position) {
            let span: u64 = abs_diff(capital.x, d.position.x) + abs_diff(capital.y, d.position.y);
            let link = RailLink { nation, from: capital, to: d.position, span };
            let rank: u64 = link_rank(&link);
            let ghost cands = link_candidates(pre, nation, capital, rails@);
            assert(link_candidates(depots@.take(i + 1), nation, capital, rails@) == cands.push(link));
            assert(cands.push(link).drop_last() =~= cands);
            let mut k: usize = 0;
            proof {
                assert(ranked@.skip(0) =~= ranked@);
            }
            while k < ranked.len() && link_rank(&ranked[k]) <= rank
                invariant
                    k <= ranked@.len(),
                    rank == gain_rank(link),
                    link_slot(ranked@, link) == k + link_slot(ranked@.skip(k as int), link),
                decreases ranked@.len() - k,
            {
                assert(ranked@.skip(k as int).drop_first() =~= ranked@.skip(k + 1));
                k = k + 1;
            }
            proof {
                if k < ranked@.len() {
                    assert(ranked@.skip(k as int)[0] == ranked@[k as int]);
                }
            }
            ranked.insert(k, link);
        }
        i = i + 1;
    }
    assert(depots@.take(i as int) =~= depots@);
    proof {
        lemma_ranked_len(link_candidates(depots@, nation, capital, rails@));
    }
    ranked.truncate(4);
    ranked
}

/// The links kept for nation `n`: those of the last entry for it, none
/// without one.
pub open spec fn links_of(entries: Seq<(u64, Vec<RailLink>)>, n: u64) -> Seq<RailLink>
    decreases entries.len(),
{
    if entries.len() == 0 {
        Seq::empty()
    } else if entries.last().0 == n {
        entries.last().1@
    } else {
        links_of(entries.drop_last(), n)
    }
}

/// The rails each AI nation could lay to connect its depots.
pub struct TransportAnalysis {
    upgrades: Vec<(u64, Vec<RailLink>)>,
}

impl TransportAnalysis {
    /// The links kept for nation `n`.
    pub closed spec fn links(&self, n: u64) -> Seq<RailLink> {
        links_of(self.upgrades@, n)
    }

    /// An analysis with no links.
    pub fn new() -> (a: TransportAnalysis)
        ensures
            forall|n: u64| a.links(n) == Seq::<RailLink>::empty(),
    {
        TransportAnalysis { upgrades: Vec::new() }
    }

    /// Replaces every nation's links by those of `entries` (the last entry
    /// for a nation counts).
    pub fn replace(&mut self, entries: Vec<(u64, Vec<RailLink>)>)
        ensures
            forall|n: u64| final(self).links(n) == links_of(entries@, n),
    {
        self.upgrades = entries;
    }

    /// The links kept for `nation`, best first.
    pub fn candidates_for(&self, nation: u64) -> (r: Vec<RailLink>)
        ensures
            r@ == self.links(nation),
    {
        let mut k: usize = self.upgrades.len();
        assert(self.upgrades@.take(k as int) =~= self.upgrades@);
        while k > 0
            invariant
                k <= self.upgrades@.len(),
                links_of(self.upgrades@, nation) == links_of(self.upgrades@.take(k as int), nation),
            decreases k,
        {
            assert(self.upgrades@.take(k as int).drop_last() =~= self.upgrades@.take(k - 1));
            if self.upgrades[k - 1].0 == nation {
                return self.upgrades[k - 1].1.clone();
            }
            k = k - 1;
        }
        Vec::new()
    }
}

/// Why a macro action is worth weighing.
#[derive(Clone, Copy, Debug, PartialEq, Eq, Structural)]
pub enum CandidateReason {
    /// The nation holds too little of a good: `qty` units would help towards
    /// the `desired` stock.
    Shortfall { qty: u32, desired: u32 },
    /// The best rail link the nation could lay.
    Link { link: RailLink },
    /// Always worth a look, so the economy does not stall.
    Standing,
}

/// A macro action one nation might pursue this turn, and why.
#[derive(Clone, Copy, Debug, PartialEq, Eq, Structural)]
pub struct TurnCandidate {
    /// Entity id of the nation.
    pub nation: u64,
    pub tag: MacroTag,
    pub reason: CandidateReason,
}

/// A cooldown runs on `tag` for `nation`.
pub open spec fn cooling(cooldowns: Map<(u64, MacroTag), u8>, nation: u64, tag: MacroTag) -> bool {
    cooldowns.contains_key((nation, tag)) && cooldowns[(nation, tag)] > 0
}

/// The observation of `good`, if there is one.
pub open spec fn observed(market: Map<Good, MarketObservation>, good: Good) -> Option<MarketObservation> {
    if market.contains_key(good) {
        Some(market[good])
    } else {
        None
    }
}

/// Units of `good` free to use in `stock`.
pub open spec fn free_units(stock: Seq<StockpileEntry>, good: Good) -> u32 {
    match stock_entry(stock, good) {
        Some(e) => e.available,
        None => 0,
    }
}

/// The minor nation a nation looks at investing in.
pub open spec fn minor_for(nation: u64) -> MinorId {
    MinorId(((nation % 65536) % 5) as u16)
}

/// Purchases of each of `goods` (in that order) that `belief`'s nation is
/// short of and has no cooldown on.
pub open spec fn buy_candidates(
    belief: BeliefNation,
    goods: Seq<Good>,
    market: Map<Good, MarketObservation>,
    cooldowns: Map<(u64, MacroTag), u8>,
) -> Seq<TurnCandidate>
    decreases goods.len(),
{
    if goods.len() == 0 {
        Seq::empty()
    } else {
        let prev = buy_candidates(belief, goods.drop_last(), market, cooldowns);
        let good = goods.last();
        let desired = target_stock(good);
        let tag = MacroTag::BuyResource { good };
        if cooling(cooldowns, belief.entity, tag) {
            prev
        } else {
            match buy_recommendation(observed(market, good), free_units(belief.stockpile@, good), desired) {
                Some(qty) => prev.push(
                    TurnCandidate { nation: belief.entity, tag, reason: CandidateReason::Shortfall { qty, desired } },
                ),
                None => prev,
            }
        }
    }
}

/// The candidates of one nation: purchases it is short of (when the AI
/// holds a belief about it), its best rail link, and an investment in its
/// minor nation, each unless a cooldown runs on it.
pub open spec fn nation_candidates(
    nation: u64,
    belief: Option<BeliefNation>,
    links: Seq<RailLink>,
    goods: Seq<Good>,
    market: Map<Good, MarketObservation>,
    cooldowns: Map<(u64, MacroTag), u8>,
) -> Seq<TurnCandidate> {
    let buys = match belief {
        Some(b) => buy_candidates(b, goods, market, cooldowns),
        None => Seq::empty(),
    };
    let with_rail = if links.len() > 0 && !cooling(
        cooldowns,
        nation,
        MacroTag::UpgradeRail { from: links[0].from, to: links[0].to },
    ) {
        buys.push(
            TurnCandidate {
                nation,
                tag: MacroTag::UpgradeRail { from: links[0].from, to: links[0].to },
                reason: CandidateReason::Link { link: links[0] },
            },
        )
    } else {
        buys
    };
    let minor = MacroTag::InvestMinor { minor: minor_for(nation) };
    if cooling(cooldowns, nation, minor) {
        with_rail
    } else {
        with_rail.push(TurnCandidate { nation, tag: minor, reason: CandidateReason::Standing })
    }
}

fn buy_candidates_of(
    belief: &BeliefNation,
    goods: &Vec<Good>,
    market: &MarketView,
    ledger: &AiPlanLedger,
    out: &mut Vec<TurnCandidate>,
)
    ensures
        final(out)@ == old(out)@ + buy_candidates(*belief, goods@, market@, ledger@),
{
    let ghost start = out@;
    let mut i: usize = 0;
    while i < goods.len()
        invariant
            i <= goods@.len(),
            out@ == start + buy_candidates(*belief, goods@.take(i as int), market@, ledger@),
        decreases goods@.len() - i,
    {
        let good = goods[i];
        let ghost pre = goods@.take(i as int);
        assert(goods@.take(i + 1).drop_last() =~= pre);
        assert(goods@.take(i + 1).last() == good);
        let desired = target_stock_units(good);
        let tag = MacroTag::BuyResource { good };
        if !ledger.cooldown_active(belief.entity, &tag) {
            let available = belief.available_amount(good);
            match market.recommended_buy_qty(good, available, desired) {
                Some(qty) => {
                    let c = TurnCandidate { nation: belief.entity, tag, reason: CandidateReason::Shortfall { qty, desired } };
                    out.push(c);
                    assert(start + buy_candidates(*belief, pre, market@, ledger@).push(c) =~= start + (buy_candidates(
                        *belief,
                        pre,
                        market@,
                        ledger@,
                    ).push(c)));
                },
                None => {},
            }
        }
        i = i + 1;
    }
    assert(goods@.take(i as int) =~= goods@);
}

/// The macro actions worth weighing this turn for each of `ai_nations`, in
/// that order (see `nation_candidates`): `goods` are the goods on the market.
pub fn gather_turn_candidates(
    ai_nations: &Vec<u64>,
    belief: &BeliefState,
    transport: &TransportAnalysis,
    market: &MarketView,
    ledger: &AiPlanLedger,
    goods: &Vec<Good>,
) -> (r: Vec<TurnCandidate>)
    ensures
        exists|parts: Seq<Seq<TurnCandidate>>|
            parts.len() == ai_nations@.len() && r@ == parts.flatten() && forall|i: int|
                0 <= i < ai_nations@.len() ==> #[trigger] parts[i] == nation_candidates(
                    ai_nations@[i],
                    belief.belief(ai_nations@[i]),
                    transport.links(ai_nations@[i]),
                    goods@,
                    market@,
                    ledger@,
                ),
{
    let mut out: Vec<TurnCandidate> = Vec::new();
    let ghost mut parts: Seq<Seq<TurnCandidate>> = Seq::empty();
    let mut i: usize = 0;
    while i < ai_nations.len()
        invariant
            i <= ai_nations@.len(),
            parts.len() == i,
            out@ == parts.flatten(),
            forall|k: int|
                0 <= k < i ==> #[trigger] parts[k] == nation_candidates(
                    ai_nations@[k],
                    belief.belief(ai_nations@[k]),
                    transport.links(ai_nations@[k]),
                    goods@,
                    market@,
                    ledger@,
                ),
        decreases ai_nations@.len() - i,
    {
        let nation = ai_nations[i];
        let ghost before = out@;
        match belief.for_entity(nation) {
            Some(b) => buy_candidates_of(b, goods, market, ledger, &mut out),
            None => {},
        }
        let links = transport.candidates_for(nation);
        if links.len() > 0 {
            let tag = MacroTag::UpgradeRail { from: links[0].from, to: links[0].to };
            if !ledger.cooldown_active(nation, &tag) {
                out.push(TurnCandidate { nation, tag, reason: CandidateReason::Link { link: links[0] } });
            }
        }
        let minor = MacroTag::InvestMinor { minor: MinorId(((nation % 65536) % 5) as u16) };
        if !ledger.cooldown_active(nation, &minor) {
            out.push(TurnCandidate { nation, tag: minor, reason: CandidateReason::Standing });
        }
        let ghost part = nation_candidates(
            nation,
            belief.belief(nation),
            transport.links(nation),
            goods@,
            market@,
            ledger@,
        );
        proof {
            assert(out@ =~= before + part);
            parts.lemma_flatten_push(part);
            parts = parts.push(part);
        }
        i = i + 1;
    }
    out
}

proof fn lemma_buy_candidates_respect_cooldowns(
    belief: BeliefNation,
    goods: Seq<Good>,
    market: Map<Good, MarketObservation>,
    cooldowns: Map<(u64, MacroTag), u8>,
)
    ensures
        forall|i: int|
            0 <= i < buy_candidates(belief, goods, market, cooldowns).len() ==> {
                let c = #[trigger] buy_candidates(belief, goods, market, cooldowns)[i];
                c.nation == belief.entity && !cooling(cooldowns, belief.entity, c.tag)
            },
    decreases goods.len(),
{
    if goods.len() > 0 {
        lemma_buy_candidates_respect_cooldowns(belief, goods.drop_last(), market, cooldowns);
    }
}

/// A nation is never offered a macro action whose tag is cooling down for
/// it: the ledger's cooldowns keep the AI from taking up the same plan again
/// and again.
pub proof fn law_cooling_tags_are_not_candidates(
    nation: u64,
    belief: Option<BeliefNation>,
    links: Seq<RailLink>,
    goods: Seq<Good>,
    market: Map<Good, MarketObservation>,
    cooldowns: Map<(u64, MacroTag), u8>,
    i: int,
)
    requires
        belief matches Some(b) ==> b.entity == nation,
        0 <= i < nation_candidates(nation, belief, links, goods, market, cooldowns).len(),
    ensures
        nation_candidates(nation, belief, links, goods, market, cooldowns)[i].nation == nation,
        !cooling(cooldowns, nation, nation_candidates(nation, belief, links, goods, market, cooldowns)[i].tag),
{
    if let Some(b) = belief {
        lemma_buy_candidates_respect_cooldowns(b, goods, market, cooldowns);
    }
}

/// The belief the state holds about a nation is about that nation.
pub proof fn law_belief_is_about_its_nation(state: BeliefState, e: u64)
    ensures
        state.belief(e) matches Some(b) ==> b.entity == e,
{
    lemma_last_belief_found(state.nations@, e);
}

} // verus!
