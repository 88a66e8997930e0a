//! The state of an AI nation as its planner sees it at the start of its turn.

use crate::civilians::types::CivilianKind;
use crate::economy::{BuildingKind, Good};
use crate::map::{
    adjacent, edge_of, hex_distance, hex_neighbors, tile_listed, Rails, TilePos,
};
use crate::resources::{DevelopmentLevel, ResourceType};
use vstd::prelude::*;
use vstd::set_lib::lemma_len_subset;

verus! {

/// Snapshot of a civilian unit.
#[derive(Clone, Copy, Debug, PartialEq, Eq, Structural)]
pub struct CivilianSnapshot {
    /// Entity id of the unit.
    pub entity: u64,
    pub kind: CivilianKind,
    pub position: TilePos,
    pub has_moved: bool,
}

/// A depot that still needs a rail connection.
#[derive(Clone, Copy, Debug, PartialEq, Eq, Structural)]
pub struct DepotInfo {
    pub position: TilePos,
    pub distance_from_capital: u32,
}

/// A suggested depot location and how many uncovered resources it covers.
#[derive(Clone, Copy, Debug, PartialEq, Eq, Structural)]
pub struct SuggestedDepot {
    pub position: TilePos,
    pub covers_count: u32,
    pub distance_from_capital: u32,
}

/// A resource tile a civilian can improve.
#[derive(Clone, Copy, Debug, PartialEq, Eq, Structural)]
pub struct ImprovableTile {
    pub position: TilePos,
    pub resource_type: ResourceType,
    pub development: DevelopmentLevel,
    pub improver_kind: CivilianKind,
    pub distance_from_capital: u32,
    /// The tile is reached by the rail network.
    pub is_connected: bool,
    /// Number of neighbouring tiles already developed.
    pub adjacent_developed_count: u32,
}

/// A tile a prospector could survey.
#[derive(Clone, Copy, Debug, PartialEq, Eq, Structural)]
pub struct ProspectableTile {
    pub position: TilePos,
    pub distance_from_capital: u32,
}

/// A rail under construction between two tiles.
#[derive(Clone, Copy, Debug, PartialEq, Eq, Structural)]
pub struct RailConstruction {
    pub from: TilePos,
    pub to: TilePos,
}

/// Stock of one good: all of it, and the part not reserved.
#[derive(Clone, Copy, Debug, PartialEq, Eq, Structural)]
pub struct StockpileEntry {
    pub good: Good,
    pub total: u32,
    pub available: u32,
}

/// A production building and how much it can make per turn.
#[derive(Clone, Copy, Debug, PartialEq, Eq, Structural)]
pub struct BuildingCapacity {
    pub kind: BuildingKind,
    pub capacity: u32,
}

/// Snapshot of a single AI nation's state.
#[derive(Clone, Debug)]
pub struct NationSnapshot {
    /// Entity id of the nation.
    pub entity: u64,
    pub capital_pos: TilePos,
    pub treasury: i64,
    pub stockpile: Vec<StockpileEntry>,
    pub civilians: Vec<CivilianSnapshot>,
    pub connected_tiles: Vec<TilePos>,
    pub unconnected_depots: Vec<DepotInfo>,
    pub suggested_depots: Vec<SuggestedDepot>,
    pub improvable_tiles: Vec<ImprovableTile>,
    pub prospectable_tiles: Vec<ProspectableTile>,
    pub owned_tiles: Vec<TilePos>,
    pub depot_positions: Vec<TilePos>,
    pub rail_constructions: Vec<RailConstruction>,
    /// Owned tiles whose terrain takes rail with the nation's technologies.
    pub rail_buildable: Vec<TilePos>,
    /// Owned tiles whose terrain takes a depot.
    pub depot_buildable: Vec<TilePos>,
    pub buildings: Vec<BuildingCapacity>,
}

/// The first stock entry for `good`, if any.
pub open spec fn stock_entry(stock: Seq<StockpileEntry>, good: Good) -> Option<StockpileEntry>
    decreases stock.len(),
{
    if stock.len() == 0 {
        None
    } else if stock[0].good == good {
        Some(stock[0])
    } else {
        stock_entry(stock.drop_first(), good)
    }
}

/// Civilians that have not acted this turn.
pub open spec fn idle_civilians(civs: Seq<CivilianSnapshot>) -> Seq<CivilianSnapshot>
    decreases civs.len(),
{
    if civs.len() == 0 {
        Seq::empty()
    } else if civs.last().has_moved {
        idle_civilians(civs.drop_last())
    } else {
        idle_civilians(civs.drop_last()).push(civs.last())
    }
}

/// Civilians of one kind.
pub open spec fn civilians_of_kind(civs: Seq<CivilianSnapshot>, kind: CivilianKind) -> Seq<
    CivilianSnapshot,
>
    decreases civs.len(),
{
    if civs.len() == 0 {
        Seq::empty()
    } else if civs.last().kind == kind {
        civilians_of_kind(civs.drop_last(), kind).push(civs.last())
    } else {
        civilians_of_kind(civs.drop_last(), kind)
    }
}

impl NationSnapshot {
    fn find_stock(&self, good: Good) -> (r: Option<StockpileEntry>)
        ensures
            r == stock_entry(self.stockpile@, good),
    {
        let mut i: usize = 0;
        assert(self.stockpile@.skip(0) =~= self.stockpile@);
        while i < self.stockpile.len()
            invariant
                i <= self.stockpile@.len(),
                stock_entry(self.stockpile@, good) == stock_entry(self.stockpile@.skip(i as int), good),
            decreases self.stockpile@.len() - i,
        {
            assert(self.stockpile@.skip(i as int).drop_first() =~= self.stockpile@.skip(i + 1));
            if self.stockpile[i].good == good {
                return Some(self.stockpile[i]);
            }
            i = i + 1;
        }
        None
    }

    /// Units of `good` held, reserved ones included; 0 without an entry.
    pub fn stockpile_amount(&self, good: Good) -> (r: u32)
        ensures
            r == match stock_entry(self.stockpile@, good) {
                Some(e) => e.total,
                None => 0,
            },
    {
        match self.find_stock(good) {
            Some(e) => e.total,
            None => 0,
        }
    }

    /// Units of `good` free to use; 0 without an entry.
    pub fn available_amount(&self, good: Good) -> (r: u32)
        ensures
            r == match stock_entry(self.stockpile@, good) {
                Some(e) => e.available,
                None => 0,
            },
    {
        match self.find_stock(good) {
            Some(e) => e.available,
            None => 0,
        }
    }

    /// Number of civilians of `kind`.
    pub fn civilian_count(&self, kind: CivilianKind) -> (n: usize)
        ensures
            n == civilians_of_kind(self.civilians@, kind).len(),
    {
        let mut n: usize = 0;
        let mut i: usize = 0;
        while i < self.civilians.len()
            invariant
                i <= self.civilians@.len(),
                n == civilians_of_kind(self.civilians@.take(i as int), kind).len(),
                n <= i,
            decreases self.civilians@.len() - i,
        {
            assert(self.civilians@.take(i + 1).drop_last() =~= self.civilians@.take(i as int));
            if self.civilians[i].kind == kind {
                n = n + 1;
            }
            i = i + 1;
        }
        assert(self.civilians@.take(i as int) =~= self.civilians@);
        n
    }

    /// Civilians that have not acted this turn, in roster order.
    pub fn available_civilians(&self) -> (r: Vec<CivilianSnapshot>)
        ensures
            r@ == idle_civilians(self.civilians@),
    {
        let mut r: Vec<CivilianSnapshot> = Vec::new();
        let mut i: usize = 0;
        while i < self.civilians.len()
            invariant
                i <= self.civilians@.len(),
                r@ == idle_civilians(self.civilians@.take(i as int)),
            decreases self.civilians@.len() - i,
        {
            assert(self.civilians@.take(i + 1).drop_last() =~= self.civilians@.take(i as int));
            if !self.civilians[i].has_moved {
                r.push(self.civilians[i]);
            }
            i = i + 1;
        }
        assert(self.civilians@.take(i as int) =~= self.civilians@);
        r
    }
}

/// Market prices the AI plans with.
#[derive(Clone, Debug)]
pub struct MarketSnapshot {
    pub prices: Vec<(Good, u32)>,
}

/// The first listed price of `good`, or 100 when it has none.
pub open spec fn listed_price(prices: Seq<(Good, u32)>, good: Good) -> u32
    decreases prices.len(),
{
    if prices.len() == 0 {
        100
    } else if prices[0].0 == good {
        prices[0].1
    } else {
        listed_price(prices.drop_first(), good)
    }
}

impl MarketSnapshot {
    /// Price of `good`; 100 for a good without a price.
    pub fn price_for(&self, good: Good) -> (p: u32)
        ensures
            p == listed_price(self.prices@, good),
    {
        let mut i: usize = 0;
        assert(self.prices@.skip(0) =~= self.prices@);
        while i < self.prices.len()
            invariant
                i <= self.prices@.len(),
                listed_price(self.prices@, good) == listed_price(self.prices@.skip(i as int), good),
            decreases self.prices@.len() - i,
        {
            assert(self.prices@.skip(i as int).drop_first() =~= self.prices@.skip(i + 1));
            if self.prices[i].0 == good {
                return self.prices[i].1;
            }
            i = i + 1;
        }
        100
    }
}

/// The tiles a depot at `position` serves: the tile itself and its neighbours.
pub open spec fn covered_by(position: TilePos, t: TilePos) -> bool {
    t == position || adjacent(position, t)
}

/// Tiles served by a depot at `position`: its neighbours, then the tile itself.
pub fn depot_coverage(position: TilePos) -> (v: Vec<TilePos>)
    ensures
        forall|t: TilePos| v@.contains(t) <==> covered_by(position, t),
        v@.no_duplicates(),
        v@.len() <= 7,
        v@.last() == position,
{
    let mut v = hex_neighbors(position);
    proof {
        assert(!adjacent(position, position));
        assert(!v@.contains(position));
    }
    let ghost before = v@;
    v.push(position);
    proof {
        assert forall|t: TilePos| v@.contains(t) <==> covered_by(position, t) by {
            if v@.contains(t) && t != position {
                let i = choose|i: int| 0 <= i < v@.len() && v@[i] == t;
                assert(before[i] == t);
            }
            if adjacent(position, t) {
                let i = choose|i: int| 0 <= i < before.len() && before[i] == t;
                assert(v@[i] == t);
            }
            if t == position {
                assert(v@[v@.len() - 1] == t);
            }
        }
        assert forall|i: int, j: int| 0 <= i < j < v@.len() implies v@[i] != v@[j] by {
            if j == v@.len() - 1 {
                assert(before.contains(before[i]));
            }
        }
    }
    v
}

/// The civilian kind that develops a resource; fish is developed by ports.
pub open spec fn improver_of(r: ResourceType) -> Option<CivilianKind> {
    match r {
        ResourceType::Grain | ResourceType::Cotton | ResourceType::Fruit => Some(CivilianKind::Farmer),
        ResourceType::Wool | ResourceType::Livestock => Some(CivilianKind::Rancher),
        ResourceType::Timber => Some(CivilianKind::Forester),
        ResourceType::Coal | ResourceType::Iron | ResourceType::Gold | ResourceType::Gems => Some(
            CivilianKind::Miner,
        ),
        ResourceType::Oil => Some(CivilianKind::Driller),
        ResourceType::Fish => None,
    }
}

/// Which civilian kind can improve a resource type.
pub fn improver_for_resource(resource_type: &ResourceType) -> (r: Option<CivilianKind>)
    ensures
        r == improver_of(*resource_type),
{
    match resource_type {
        ResourceType::Grain | ResourceType::Cotton | ResourceType::Fruit => Some(CivilianKind::Farmer),
        ResourceType::Wool | ResourceType::Livestock => Some(CivilianKind::Rancher),
        ResourceType::Timber => Some(CivilianKind::Forester),
        ResourceType::Coal | ResourceType::Iron | ResourceType::Gold | ResourceType::Gems => Some(
            CivilianKind::Miner,
        ),
        ResourceType::Oil => Some(CivilianKind::Driller),
        ResourceType::Fish => None,
    }
}

/// One step of the rail network out of `a`: onto an owned neighbour joined to
/// it by rail.
pub open spec fn rail_step(
    a: TilePos,
    b: TilePos,
    owned: Seq<TilePos>,
    rails: Set<(TilePos, TilePos)>,
) -> bool {
    adjacent(a, b) && owned.contains(b) && rails.contains(edge_of(a, b))
}

/// `path` starts at `from`, ends at `to`, and follows rail steps.
pub open spec fn rail_route(
    path: Seq<TilePos>,
    from: TilePos,
    to: TilePos,
    owned: Seq<TilePos>,
    rails: Set<(TilePos, TilePos)>,
) -> bool {
    &&& path.len() >= 1
    &&& path[0] == from
    &&& path.last() == to
    &&& forall|i: int| 1 <= i < path.len() ==> rail_step(path[i - 1], #[trigger] path[i], owned, rails)
}

/// `to` can be reached from `from` by rail over owned tiles.
pub open spec fn rail_reachable(
    from: TilePos,
    to: TilePos,
    owned: Seq<TilePos>,
    rails: Set<(TilePos, TilePos)>,
) -> bool {
    exists|path: Seq<TilePos>| rail_route(path, from, to, owned, rails)
}

proof fn lemma_route_extend(
    path: Seq<TilePos>,
    from: TilePos,
    to: TilePos,
    next: TilePos,
    owned: Seq<TilePos>,
    rails: Set<(TilePos, TilePos)>,
)
    requires
        rail_route(path, from, to, owned, rails),
        rail_step(to, next, owned, rails),
    ensures
        rail_route(path.push(next), from, next, owned, rails),
{
    let p2 = path.push(next);
    assert forall|i: int| 1 <= i < p2.len() implies rail_step(p2[i - 1], #[trigger] p2[i], owned, rails) by {
        if i < path.len() {
            assert(p2[i] == path[i] && p2[i - 1] == path[i - 1]);
        }
    }
}

proof fn lemma_closed_contains_route(
    path: Seq<TilePos>,
    from: TilePos,
    to: TilePos,
    owned: Seq<TilePos>,
    rails: Set<(TilePos, TilePos)>,
    visited: Seq<TilePos>,
)
    requires
        rail_route(path, from, to, owned, rails),
        visited.contains(from),
        forall|a: TilePos, b: TilePos|
            visited.contains(a) && #[trigger] rail_step(a, b, owned, rails) ==> visited.contains(b),
    ensures
        visited.contains(to),
    decreases path.len(),
{
    if path.len() > 1 {
        let prev = path.drop_last();
        let p = prev.last();
        assert forall|i: int| 1 <= i < prev.len() implies rail_step(prev[i - 1], #[trigger] prev[i], owned, rails) by {
            assert(prev[i] == path[i] && prev[i - 1] == path[i - 1]);
        }
        lemma_closed_contains_route(prev, from, p, owned, rails, visited);
        assert(rail_step(path[path.len() - 2], path[path.len() - 1], owned, rails));
    }
}

/// The tiles joined to the capital by rail over owned tiles (the capital
/// first, then in breadth-first order), each once.
pub fn compute_connected_tiles(capital: TilePos, owned_tiles: &Vec<TilePos>, rails: &Rails) -> (r: Vec<
    TilePos,
>)
    ensures
        r@.no_duplicates(),
        r@[0] == capital,
        forall|t: TilePos| r@.contains(t) <==> rail_reachable(capital, t, owned_tiles@, rails@),
{
    let mut visited: Vec<TilePos> = Vec::new();
    visited.push(capital);
    proof {
        let p = seq![capital];
        assert(rail_route(p, capital, capital, owned_tiles@, rails@));
    }
    let mut head: usize = 0;
    while head < visited.len()
        invariant
            visited@.len() >= 1,
            visited@[0] == capital,
            head <= visited@.len(),
            visited@.no_duplicates(),
            forall|t: TilePos| #[trigger] visited@.contains(t) ==> t == capital || owned_tiles@.contains(t),
            forall|t: TilePos| #[trigger] visited@.contains(t) ==> rail_reachable(capital, t, owned_tiles@, rails@),
            forall|i: int, b: TilePos|
                0 <= i < head && #[trigger] rail_step(visited@[i], b, owned_tiles@, rails@) ==> visited@.contains(b),
        decreases owned_tiles@.len() + 1 - head,
    {
        let cur = visited[head];
        let nbrs = hex_neighbors(cur);
        let mut j: usize = 0;
        while j < nbrs.len()
            invariant
                visited@.len() >= 1,
                visited@[0] == capital,
                head < visited@.len(),
                cur == visited@[head as int],
                j <= nbrs@.len(),
                forall|t: TilePos| nbrs@.contains(t) <==> adjacent(cur, t),
                visited@.no_duplicates(),
                forall|t: TilePos| #[trigger] visited@.contains(t) ==> t == capital || owned_tiles@.contains(t),
                forall|t: TilePos| #[trigger] visited@.contains(t) ==> rail_reachable(capital, t, owned_tiles@, rails@),
                forall|i: int, b: TilePos|
                    0 <= i < head && #[trigger] rail_step(visited@[i], b, owned_tiles@, rails@) ==> visited@.contains(b),
                forall|k: int|
                    0 <= k < j && rail_step(cur, nbrs@[k], owned_tiles@, rails@) ==> visited@.contains(#[trigger] nbrs@[k]),
            decreases nbrs@.len() - j,
        {
            let nb = nbrs[j];
            assert(nbrs@.contains(nb));
            if tile_listed(owned_tiles, nb) && rails.connects(cur, nb) && !tile_listed(&visited, nb) {
                let ghost old_visited = visited@;
                proof {
                    assert(old_visited.contains(cur));
                    let path = choose|path: Seq<TilePos>| rail_route(path, capital, cur, owned_tiles@, rails@);
                    lemma_route_extend(path, capital, cur, nb, owned_tiles@, rails@);
                }
                visited.push(nb);
                proof {
                    assert forall|t: TilePos| #[trigger] visited@.contains(t) implies old_visited.contains(t) || t == nb by {
                        let i = choose|i: int| 0 <= i < visited@.len() && visited@[i] == t;
                        if i < old_visited.len() {
                            assert(old_visited[i] == t);
                        }
                    }
                    assert forall|t: TilePos| old_visited.contains(t) implies #[trigger] visited@.contains(t) by {
                        let i = choose|i: int| 0 <= i < old_visited.len() && old_visited[i] == t;
                        assert(visited@[i] == t);
                    }
                    assert(visited@[visited@.len() - 1] == nb);
                    assert forall|a: int, b: int| 0 <= a < b < visited@.len() implies visited@[a] != visited@[b] by {
                        if b == visited@.len() - 1 {
                            assert(old_visited.contains(old_visited[a]));
                        } else {
                            assert(old_visited[a] == visited@[a] && old_visited[b] == visited@[b]);
                        }
                    }
                    assert forall|i: int, b: TilePos|
                        0 <= i < head && #[trigger] rail_step(visited@[i], b, owned_tiles@, rails@) implies visited@.contains(b) by {
                        assert(old_visited[i] == visited@[i]);
                        assert(old_visited.contains(b));
                    }
                }
            }
            j = j + 1;
        }
        proof {
            assert forall|b: TilePos| rail_step(cur, b, owned_tiles@, rails@) implies #[trigger] visited@.contains(b) by {
                assert(nbrs@.contains(b));
                let k = choose|k: int| 0 <= k < nbrs@.len() && nbrs@[k] == b;
            }
            lemma_visited_bound(visited@, capital, owned_tiles@);
        }
        head = head + 1;
    }
    proof {
        assert forall|t: TilePos| rail_reachable(capital, t, owned_tiles@, rails@) implies #[trigger] visited@.contains(t) by {
            let path = choose|path: Seq<TilePos>| rail_route(path, capital, t, owned_tiles@, rails@);
            assert forall|a: TilePos, b: TilePos|
                visited@.contains(a) && #[trigger] rail_step(a, b, owned_tiles@, rails@) implies visited@.contains(b) by {
                let i = choose|i: int| 0 <= i < visited@.len() && visited@[i] == a;
            }
            assert(visited@[0] == capital);
            lemma_closed_contains_route(path, capital, t, owned_tiles@, rails@, visited@);
        }
    }
    visited
}

proof fn lemma_visited_bound(visited: Seq<TilePos>, capital: TilePos, owned: Seq<TilePos>)
    requires
        visited.no_duplicates(),
        forall|t: TilePos| #[trigger] visited.contains(t) ==> t == capital || owned.contains(t),
    ensures
        visited.len() <= owned.len() + 1,
{
    visited.unique_seq_to_set();
    owned.lemma_cardinality_of_set();
    let bound = owned.to_set().insert(capital);
    assert forall|t: TilePos| visited.to_set().contains(t) implies bound.contains(t) by {
        assert(visited.contains(t));
    }
    lemma_len_subset(visited.to_set(), bound);
}

/// Served by the capital or by one of the existing depots.
pub open spec fn already_served(t: TilePos, depots: Seq<TilePos>, capital: TilePos) -> bool {
    covered_by(capital, t) || exists|i: int| 0 <= i < depots.len() && covered_by(#[trigger] depots[i], t)
}

/// The resource tiles no depot serves yet, each once, in the order listed.
pub open spec fn uncovered_resources(
    resources: Seq<TilePos>,
    depots: Seq<TilePos>,
    capital: TilePos,
) -> Seq<TilePos>
    decreases resources.len(),
{
    if resources.len() == 0 {
        Seq::empty()
    } else {
        let prev = uncovered_resources(resources.drop_last(), depots, capital);
        let t = resources.last();
        if already_served(t, depots, capital) || prev.contains(t) {
            prev
        } else {
            prev.push(t)
        }
    }
}

/// How many of the `remaining` tiles a depot at `pos` would serve.
pub open spec fn coverage_count(remaining: Seq<TilePos>, pos: TilePos) -> nat {
    remaining.filter(|t: TilePos| covered_by(pos, t)).len()
}

/// The site among `cands` (skipping existing depots) that serves the most
/// remaining tiles, the closer to the capital on a tie, the later listed on a
/// full tie; with its count and distance. None when no site serves any.
pub open spec fn best_site(
    remaining: Seq<TilePos>,
    cands: Seq<TilePos>,
    depots: Seq<TilePos>,
    capital: TilePos,
) -> Option<(TilePos, nat, u32)>
    decreases cands.len(),
{
    if cands.len() == 0 {
        None
    } else {
        let prev = best_site(remaining, cands.drop_last(), depots, capital);
        let p = cands.last();
        let c = coverage_count(remaining, p);
        let d = hex_distance(capital, p) as u32;
        if depots.contains(p) || c == 0 {
            prev
        } else {
            match prev {
                None => Some((p, c, d)),
                Some((q, cq, dq)) => if c > cq || (c == cq && d <= dq) {
                    Some((p, c, d))
                } else {
                    prev
                },
            }
        }
    }
}

/// Depot sites chosen greedily, one at a time, until every remaining tile is
/// served or no site serves any (at most `budget` sites).
pub open spec fn greedy_sites(
    remaining: Seq<TilePos>,
    cands: Seq<TilePos>,
    depots: Seq<TilePos>,
    capital: TilePos,
    budget: nat,
) -> Seq<SuggestedDepot>
    decreases budget,
{
    if budget == 0 {
        Seq::empty()
    } else {
        match best_site(remaining, cands, depots, capital) {
            None => Seq::empty(),
            Some((p, c, d)) => seq![SuggestedDepot { position: p, covers_count: c as u32, distance_from_capital: d }]
                + greedy_sites(
                remaining.filter(|t: TilePos| !covered_by(p, t)),
                cands,
                depots,
                capital,
                (budget - 1) as nat,
            ),
        }
    }
}

/// Suggestions come closest first, the one serving more first on a tie.
pub open spec fn suggestion_le(a: SuggestedDepot, b: SuggestedDepot) -> bool {
    a.distance_from_capital < b.distance_from_capital || (a.distance_from_capital
        == b.distance_from_capital && a.covers_count >= b.covers_count)
}

pub open spec fn suggestions_sorted(s: Seq<SuggestedDepot>) -> bool {
    forall|i: int, j: int| 0 <= i < j < s.len() ==> suggestion_le(#[trigger] s[i], #[trigger] s[j])
}

proof fn lemma_filter_shrinks(s: Seq<TilePos>, p: TilePos)
    requires
        coverage_count(s, p) > 0,
    ensures
        s.filter(|t: TilePos| !covered_by(p, t)).len() < s.len(),
        s.filter(|t: TilePos| !covered_by(p, t)).len() + coverage_count(s, p) == s.len(),
    decreases s.len(),
{
    lemma_filter_split(s, p);
}

proof fn lemma_filter_split(s: Seq<TilePos>, p: TilePos)
    ensures
        s.filter(|t: TilePos| !covered_by(p, t)).len() + coverage_count(s, p) == s.len(),
    decreases s.len(),
{
    let keep = |t: TilePos| !covered_by(p, t);
    let cov = |t: TilePos| covered_by(p, t);
    if s.len() == 0 {
        assert(s.filter(keep) =~= s);
        assert(s.filter(cov) =~= s);
    } else {
        let init = s.drop_last();
        lemma_filter_split(init, p);
        assert(s =~= init.push(s.last()));
        init.lemma_filter_push(s.last(), keep);
        init.lemma_filter_push(s.last(), cov);
    }
}

/// The seven tiles a depot at `p` may serve, listed with the tile itself first.
spec fn cover_candidates(p: TilePos) -> Seq<TilePos> {
    let a: int = if p.y % 2 == 0 { p.x - 1 } else { p.x as int };
    let b: int = if p.y % 2 == 0 { p.x as int } else { p.x + 1 };
    seq![
        p,
        TilePos { x: (p.x + 1) as u32, y: p.y },
        TilePos { x: (p.x - 1) as u32, y: p.y },
        TilePos { x: a as u32, y: (p.y - 1) as u32 },
        TilePos { x: b as u32, y: (p.y - 1) as u32 },
        TilePos { x: a as u32, y: (p.y + 1) as u32 },
        TilePos { x: b as u32, y: (p.y + 1) as u32 },
    ]
}

proof fn lemma_covered_in_candidates(p: TilePos, t: TilePos)
    requires
        covered_by(p, t),
    ensures
        cover_candidates(p).contains(t),
{
    let c = cover_candidates(p);
    if t == p {
        assert(c[0] == t);
    } else {
        crate::map::lemma_adjacent_cases(p, t);
        if t.y == p.y && t.x == p.x + 1 {
            assert(c[1] == t);
        } else if t.y == p.y {
            assert(c[2] == t);
        } else if t.y == p.y - 1 {
            if (p.y % 2 == 0 && t.x == p.x - 1) || (p.y % 2 == 1 && t.x == p.x) {
                assert(c[3] == t);
            } else {
                assert(c[4] == t);
            }
        } else {
            if (p.y % 2 == 0 && t.x == p.x - 1) || (p.y % 2 == 1 && t.x == p.x) {
                assert(c[5] == t);
            } else {
                assert(c[6] == t);
            }
        }
    }
}

/// Filtering keeps a list free of repeats, and keeps only listed tiles.
proof fn lemma_filter_distinct(s: Seq<TilePos>, keep: spec_fn(TilePos) -> bool)
    requires
        s.no_duplicates(),
    ensures
        s.filter(keep).no_duplicates(),
        forall|x: TilePos| s.filter(keep).contains(x) ==> s.contains(x) && keep(x),
    decreases s.len(),
{
    broadcast use vstd::seq_lib::group_seq_properties;

    if s.len() == 0 {
        assert(s.filter(keep) =~= s);
    } else {
        let init = s.drop_last();
        let l = s.last();
        assert(init.no_duplicates());
        lemma_filter_distinct(init, keep);
        assert(s =~= init.push(l));
        init.lemma_filter_push(l, keep);
        assert(!init.contains(l));
        assert forall|x: TilePos| s.filter(keep).contains(x) implies s.contains(x) && keep(x) by {
            if x != l || !keep(l) {
                assert(init.filter(keep).contains(x));
                assert(init.contains(x));
                let k = choose|k: int| 0 <= k < init.len() && init[k] == x;
                assert(s[k] == x);
            } else {
                assert(s[s.len() - 1] == x);
            }
        }
    }
}

/// A depot serves at most seven of a list of distinct tiles.
proof fn lemma_coverage_at_most_seven(s: Seq<TilePos>, p: TilePos)
    requires
        s.no_duplicates(),
    ensures
        coverage_count(s, p) <= 7,
{
    let f = s.filter(|t: TilePos| covered_by(p, t));
    lemma_filter_distinct(s, |t: TilePos| covered_by(p, t));
    f.unique_seq_to_set();
    let cands = cover_candidates(p);
    cands.lemma_cardinality_of_set();
    assert forall|x: TilePos| f.to_set().contains(x) implies cands.to_set().contains(x) by {
        lemma_covered_in_candidates(p, x);
    }
    lemma_len_subset(f.to_set(), cands.to_set());
}

fn count_covered(remaining: &Vec<TilePos>, pos: TilePos) -> (n: u32)
    requires
        remaining@.no_duplicates(),
    ensures
        n == coverage_count(remaining@, pos),
{
    let ghost cov = |t: TilePos| covered_by(pos, t);
    let mut n: u32 = 0;
    let mut i: usize = 0;
    while i < remaining.len()
        invariant
            i <= remaining@.len(),
            remaining@.no_duplicates(),
            n == remaining@.take(i as int).filter(cov).len(),
            n <= 7,
            cov == (|t: TilePos| covered_by(pos, t)),
        decreases remaining@.len() - i,
    {
        proof {
            assert(remaining@.take(i + 1) =~= remaining@.take(i as int).push(remaining@[i as int]));
            remaining@.take(i as int).lemma_filter_push(remaining@[i as int], cov);
            assert(remaining@.take(i + 1).no_duplicates());
            lemma_coverage_at_most_seven(remaining@.take(i + 1), pos);
        }
        let t = remaining[i];
        if t == pos || crate::map::is_adjacent(pos, t) {
            n = n + 1;
        }
        i = i + 1;
    }
    assert(remaining@.take(i as int) =~= remaining@);
    n
}

fn pick_best_site(
    remaining: &Vec<TilePos>,
    owned_tiles: &Vec<TilePos>,
    depot_positions: &Vec<TilePos>,
    capital: TilePos,
) -> (r: Option<(TilePos, u32, u32)>)
    requires
        remaining@.no_duplicates(),
    ensures
        match r {
            Some((p, c, d)) => best_site(remaining@, owned_tiles@, depot_positions@, capital) == Some(
                (p, c as nat, d),
            ),
            None => best_site(remaining@, owned_tiles@, depot_positions@, capital) is None,
        },
{
    let mut best: Option<(TilePos, u32, u32)> = None;
    let mut i: usize = 0;
    while i < owned_tiles.len()
        invariant
            i <= owned_tiles@.len(),
            remaining@.no_duplicates(),
            match best {
                Some((p, c, d)) => best_site(remaining@, owned_tiles@.take(i as int), depot_positions@, capital)
                    == Some((p, c as nat, d)),
                None => best_site(remaining@, owned_tiles@.take(i as int), depot_positions@, capital) is None,
            },
        decreases owned_tiles@.len() - i,
    {
        let p = owned_tiles[i];
        assert(owned_tiles@.take(i + 1).drop_last() =~= owned_tiles@.take(i as int));
        if !tile_listed(depot_positions, p) {
            let c = count_covered(remaining, p);
            let d: u32 = crate::map::distance(capital, p) as u32;
            if c > 0 {
                best = match best {
                    None => Some((p, c, d)),
                    Some((q, cq, dq)) => if c > cq || (c == cq && d <= dq) {
                        Some((p, c, d))
                    } else {
                        Some((q, cq, dq))
                    },
                };
            }
        }
        i = i + 1;
    }
    assert(owned_tiles@.take(i as int) =~= owned_tiles@);
    best
}

/// Where suggestion `s` goes in `sorted`: after every suggestion listed no
/// later than it.
pub open spec fn suggestion_slot(sorted: Seq<SuggestedDepot>, s: SuggestedDepot) -> int
    decreases sorted.len(),
{
    if sorted.len() == 0 {
        0
    } else if !suggestion_le(sorted[0], s) {
        0
    } else {
        1 + suggestion_slot(sorted.drop_first(), s)
    }
}

/// `picks` listed closest first, the one serving more first on a tie, and
/// in the order picked on a full tie.
pub open spec fn sort_suggestions(picks: Seq<SuggestedDepot>) -> Seq<SuggestedDepot>
    decreases picks.len(),
{
    if picks.len() == 0 {
        Seq::empty()
    } else {
        let r = sort_suggestions(picks.drop_last());
        r.insert(suggestion_slot(r, picks.last()), picks.last())
    }
}

fn insert_suggestion(sorted: &mut Vec<SuggestedDepot>, s: SuggestedDepot)
    requires
        suggestions_sorted(old(sorted)@),
    ensures
        suggestions_sorted(final(sorted)@),
        final(sorted)@.to_multiset() == old(sorted)@.to_multiset().insert(s),
        final(sorted)@ == old(sorted)@.insert(suggestion_slot(old(sorted)@, s), s),
{
    let mut pos: usize = 0;
    assert(sorted@.skip(0) =~= sorted@);
    while pos < sorted.len() && (sorted[pos].distance_from_capital < s.distance_from_capital || (
    sorted[pos].distance_from_capital == s.distance_from_capital && sorted[pos].covers_count
        >= s.covers_count))
        invariant
            pos <= sorted@.len(),
            sorted@ == old(sorted)@,
            forall|k: int| 0 <= k < pos ==> suggestion_le(#[trigger] sorted@[k], s),
            suggestion_slot(sorted@, s) == pos + suggestion_slot(sorted@.skip(pos as int), s),
        decreases sorted@.len() - pos,
    {
        assert(sorted@.skip(pos as int).drop_first() =~= sorted@.skip(pos + 1));
        assert(sorted@.skip(pos as int)[0] == sorted@[pos as int]);
        pos = pos + 1;
    }
    proof {
        if pos < sorted@.len() {
            assert(sorted@.skip(pos as int)[0] == sorted@[pos as int]);
        }
        broadcast use vstd::seq_lib::to_multiset_insert;
    }
    sorted.insert(pos, s);
    assert(sorted@ == old(sorted)@.insert(pos as int, s));
}

fn served_already(t: TilePos, depot_positions: &Vec<TilePos>, capital: TilePos) -> (r: bool)
    ensures
        r == already_served(t, depot_positions@, capital),
{
    if t == capital || crate::map::is_adjacent(capital, t) {
        return true;
    }
    let mut i: usize = 0;
    while i < depot_positions.len()
        invariant
            i <= depot_positions@.len(),
            forall|k: int| 0 <= k < i ==> !covered_by(#[trigger] depot_positions@[k], t),
        decreases depot_positions@.len() - i,
    {
        let d = depot_positions[i];
        if t == d || crate::map::is_adjacent(d, t) {
            return true;
        }
        i = i + 1;
    }
    false
}

/// Depot sites that serve every resource tile not yet served by the capital
/// or an existing depot, chosen greedily (the owned, depot-free tile serving
/// the most unserved resources first, the closer to the capital on a tie),
/// then listed closest first, the one serving more first on a tie.
pub fn calculate_suggested_depots(
    resource_tiles: &Vec<TilePos>,
    owned_tiles: &Vec<TilePos>,
    depot_positions: &Vec<TilePos>,
    capital_pos: TilePos,
) -> (r: Vec<SuggestedDepot>)
    ensures
        ({
            let rem = uncovered_resources(resource_tiles@, depot_positions@, capital_pos);
            r@.to_multiset() == greedy_sites(rem, owned_tiles@, depot_positions@, capital_pos, rem.len()).to_multiset()
        }),
        ({
            let rem = uncovered_resources(resource_tiles@, depot_positions@, capital_pos);
            r@ == sort_suggestions(greedy_sites(rem, owned_tiles@, depot_positions@, capital_pos, rem.len()))
        }),
        suggestions_sorted(r@),
        forall|t: TilePos|
            resource_tiles@.contains(t) && servable(t, owned_tiles@, depot_positions@) ==> already_served(
                t,
                depot_positions@,
                capital_pos,
            ) || served_by_suggestion(t, r@),
{
    let mut remaining: Vec<TilePos> = Vec::new();
    let mut i: usize = 0;
    while i < resource_tiles.len()
        invariant
            i <= resource_tiles@.len(),
            remaining@ == uncovered_resources(resource_tiles@.take(i as int), depot_positions@, capital_pos),
            remaining@.len() <= i,
            remaining@.no_duplicates(),
        decreases resource_tiles@.len() - i,
    {
        let t = resource_tiles[i];
        assert(resource_tiles@.take(i + 1).drop_last() =~= resource_tiles@.take(i as int));
        if !served_already(t, depot_positions, capital_pos) && !tile_listed(&remaining, t) {
            proof {
                broadcast use vstd::seq_lib::group_seq_properties;
            }
            remaining.push(t);
        }
        i = i + 1;
    }
    assert(resource_tiles@.take(i as int) =~= resource_tiles@);
    let ghost rem0 = remaining@;
    let ghost mut budget: nat = remaining@.len();
    let mut picks: Vec<SuggestedDepot> = Vec::new();
    let mut sorted: Vec<SuggestedDepot> = Vec::new();
    loop
        invariant
            remaining@.len() <= budget,
            remaining@.no_duplicates(),
            greedy_sites(rem0, owned_tiles@, depot_positions@, capital_pos, rem0.len()) == picks@
                + greedy_sites(remaining@, owned_tiles@, depot_positions@, capital_pos, budget),
            suggestions_sorted(sorted@),
            sorted@.to_multiset() == picks@.to_multiset(),
            sorted@ == sort_suggestions(picks@),
        ensures
            greedy_sites(rem0, owned_tiles@, depot_positions@, capital_pos, rem0.len()) == picks@,
            suggestions_sorted(sorted@),
            sorted@.to_multiset() == picks@.to_multiset(),
            sorted@ == sort_suggestions(picks@),
        decreases remaining@.len(),
    {
        if remaining.len() == 0 {
            proof {
                assert(best_site(remaining@, owned_tiles@, depot_positions@, capital_pos) is None) by {
                    lemma_best_site_needs_remaining(remaining@, owned_tiles@, depot_positions@, capital_pos);
                }
                assert(picks@ + Seq::<SuggestedDepot>::empty() =~= picks@);
            }
            break;
        }
        match pick_best_site(&remaining, owned_tiles, depot_positions, capital_pos) {
            None => {
                proof {
                    assert(picks@ + Seq::<SuggestedDepot>::empty() =~= picks@);
                }
                break;
            },
            Some((p, c, d)) => {
                let sd = SuggestedDepot { position: p, covers_count: c, distance_from_capital: d };
                let ghost old_remaining = remaining@;
                let mut next: Vec<TilePos> = Vec::new();
                let mut k: usize = 0;
                while k < remaining.len()
                    invariant
                        k <= remaining@.len(),
                        remaining@ == old_remaining,
                        next@ == remaining@.take(k as int).filter(|t: TilePos| !covered_by(p, t)),
                    decreases remaining@.len() - k,
                {
                    let t = remaining[k];
                    proof {
                        assert(remaining@.take(k + 1) =~= remaining@.take(k as int).push(t));
                        remaining@.take(k as int).lemma_filter_push(t, |t: TilePos| !covered_by(p, t));
                    }
                    if !(t == p || crate::map::is_adjacent(p, t)) {
                        next.push(t);
                    }
                    k = k + 1;
                }
                proof {
                    assert(remaining@.take(k as int) =~= remaining@);
                    lemma_best_site_counts(remaining@, owned_tiles@, depot_positions@, capital_pos);
                    lemma_filter_shrinks(remaining@, p);
                    lemma_filter_distinct(remaining@, |t: TilePos| !covered_by(p, t));
                    assert(budget >= 1);
                    let ghost nb: nat = (budget - 1) as nat;
                    assert(greedy_sites(remaining@, owned_tiles@, depot_positions@, capital_pos, budget) == seq![sd]
                        + greedy_sites(next@, owned_tiles@, depot_positions@, capital_pos, nb));
                    assert(picks@ + (seq![sd] + greedy_sites(next@, owned_tiles@, depot_positions@, capital_pos, nb))
                        =~= picks@.push(sd) + greedy_sites(next@, owned_tiles@, depot_positions@, capital_pos, nb));
                    budget = nb;
                }
                let ghost old_picks = picks@;
                picks.push(sd);
                insert_suggestion(&mut sorted, sd);
                proof {
                    broadcast use vstd::seq_lib::to_multiset_build;

                    assert(picks@.drop_last() =~= old_picks);
                }
                remaining = next;
            },
        }
    }
    proof {
        let rem = rem0;
        assert(rem0 == uncovered_resources(resource_tiles@, depot_positions@, capital_pos));
        assert forall|t: TilePos|
            resource_tiles@.contains(t) && servable(t, owned_tiles@, depot_positions@) implies already_served(
                t,
                depot_positions@,
                capital_pos,
            ) || served_by_suggestion(t, sorted@) by {
            law_suggestions_serve_every_servable_resource(resource_tiles@, owned_tiles@, depot_positions@, capital_pos, t);
            if !already_served(t, depot_positions@, capital_pos) {
                let g = picks@;
                let i = choose|i: int| 0 <= i < g.len() && covered_by(#[trigger] g[i].position, t);
                broadcast use vstd::seq_lib::to_multiset_contains;
                assert(g.contains(g[i]));
                assert(sorted@.to_multiset().count(g[i]) > 0);
                assert(sorted@.contains(g[i]));
                let j = choose|j: int| 0 <= j < sorted@.len() && sorted@[j] == g[i];
                assert(covered_by(sorted@[j].position, t));
            }
        }
    }
    sorted
}

proof fn lemma_best_site_needs_remaining(
    remaining: Seq<TilePos>,
    cands: Seq<TilePos>,
    depots: Seq<TilePos>,
    capital: TilePos,
)
    requires
        remaining.len() == 0,
    ensures
        best_site(remaining, cands, depots, capital) is None,
    decreases cands.len(),
{
    if cands.len() > 0 {
        lemma_best_site_needs_remaining(remaining, cands.drop_last(), depots, capital);
        lemma_filter_split(remaining, cands.last());
    }
}

proof fn lemma_best_site_counts(
    remaining: Seq<TilePos>,
    cands: Seq<TilePos>,
    depots: Seq<TilePos>,
    capital: TilePos,
)
    ensures
        match best_site(remaining, cands, depots, capital) {
            Some((p, c, d)) => c == coverage_count(remaining, p) && c > 0,
            None => true,
        },
    decreases cands.len(),
{
    if cands.len() > 0 {
        lemma_best_site_counts(remaining, cands.drop_last(), depots, capital);
    }
}

/// Some owned tile without a depot could serve `t`.
pub open spec fn servable(t: TilePos, owned: Seq<TilePos>, depots: Seq<TilePos>) -> bool {
    exists|c: TilePos| owned.contains(c) && !depots.contains(c) && #[trigger] covered_by(c, t)
}

/// Some suggested depot serves `t`.
pub open spec fn served_by_suggestion(t: TilePos, sites: Seq<SuggestedDepot>) -> bool {
    exists|i: int| 0 <= i < sites.len() && covered_by(#[trigger] sites[i].position, t)
}

proof fn lemma_no_site_serves_nothing(
    remaining: Seq<TilePos>,
    cands: Seq<TilePos>,
    depots: Seq<TilePos>,
    capital: TilePos,
)
    requires
        best_site(remaining, cands, depots, capital) is None,
    ensures
        forall|c: TilePos| cands.contains(c) && !depots.contains(c) ==> coverage_count(remaining, c) == 0,
    decreases cands.len(),
{
    if cands.len() > 0 {
        let init = cands.drop_last();
        lemma_no_site_serves_nothing(remaining, init, depots, capital);
        assert forall|c: TilePos| cands.contains(c) && !depots.contains(c) implies coverage_count(remaining, c) == 0 by {
            let k = choose|k: int| 0 <= k < cands.len() && cands[k] == c;
            if k < init.len() {
                assert(init[k] == c);
                assert(init.contains(c));
            }
        }
    }
}

proof fn lemma_member_counts(remaining: Seq<TilePos>, c: TilePos, t: TilePos)
    requires
        remaining.contains(t),
        covered_by(c, t),
    ensures
        coverage_count(remaining, c) > 0,
        true,
{
    let cov = |x: TilePos| covered_by(c, x);
    let k = choose|k: int| 0 <= k < remaining.len() && remaining[k] == t;
    remaining.lemma_filter_contains(cov, k);
    assert(remaining.filter(cov).contains(t));
}

proof fn lemma_member_survives(remaining: Seq<TilePos>, p: TilePos, t: TilePos)
    requires
        remaining.contains(t),
        !covered_by(p, t),
    ensures
        remaining.filter(|x: TilePos| !covered_by(p, x)).contains(t),
{
    let keep = |x: TilePos| !covered_by(p, x);
    let k = choose|k: int| 0 <= k < remaining.len() && remaining[k] == t;
    remaining.lemma_filter_contains(keep, k);
}

proof fn lemma_greedy_serves(
    remaining: Seq<TilePos>,
    cands: Seq<TilePos>,
    depots: Seq<TilePos>,
    capital: TilePos,
    budget: nat,
)
    requires
        remaining.len() <= budget,
    ensures
        forall|t: TilePos|
            remaining.contains(t) && servable(t, cands, depots) ==> served_by_suggestion(
                t,
                greedy_sites(remaining, cands, depots, capital, budget),
            ),
    decreases budget,
{
    let g = greedy_sites(remaining, cands, depots, capital, budget);
    if budget == 0 {
    } else {
        match best_site(remaining, cands, depots, capital) {
            None => {
                lemma_no_site_serves_nothing(remaining, cands, depots, capital);
                assert forall|t: TilePos| remaining.contains(t) && servable(t, cands, depots) implies served_by_suggestion(t, g) by {
                    let c = choose|c: TilePos| cands.contains(c) && !depots.contains(c) && #[trigger] covered_by(c, t);
                    lemma_member_counts(remaining, c, t);
                }
            },
            Some((p, c, d)) => {
                lemma_best_site_counts(remaining, cands, depots, capital);
                lemma_filter_shrinks(remaining, p);
                let rest = remaining.filter(|x: TilePos| !covered_by(p, x));
                let nb = (budget - 1) as nat;
                lemma_greedy_serves(rest, cands, depots, capital, nb);
                let tail = greedy_sites(rest, cands, depots, capital, nb);
                let first = SuggestedDepot { position: p, covers_count: c as u32, distance_from_capital: d };
                assert(g == seq![first] + tail);
                assert forall|t: TilePos| remaining.contains(t) && servable(t, cands, depots) implies served_by_suggestion(t, g) by {
                    if covered_by(p, t) {
                        assert(g[0].position == p);
                    } else {
                        lemma_member_survives(remaining, p, t);
                        let i = choose|i: int| 0 <= i < tail.len() && covered_by(#[trigger] tail[i].position, t);
                        assert(g[i + 1] == tail[i]);
                    }
                }
            },
        }
    }
}

proof fn lemma_uncovered_members(resources: Seq<TilePos>, depots: Seq<TilePos>, capital: TilePos, t: TilePos)
    requires
        resources.contains(t),
        !already_served(t, depots, capital),
    ensures
        uncovered_resources(resources, depots, capital).contains(t),
    decreases resources.len(),
{
    let init = resources.drop_last();
    let prev = uncovered_resources(init, depots, capital);
    if resources.last() == t {
        if prev.contains(t) {
        } else {
            assert(prev.push(t)[prev.len() as int] == t);
        }
    } else {
        let k = choose|k: int| 0 <= k < resources.len() && resources[k] == t;
        assert(init[k] == t);
        lemma_uncovered_members(init, depots, capital, t);
        let j = choose|j: int| 0 <= j < prev.len() && prev[j] == t;
        let last = resources.last();
        if !(already_served(last, depots, capital) || prev.contains(last)) {
            assert(prev.push(last)[j] == t);
        }
    }
}

/// Every resource tile that an owned, depot-free tile could serve ends up
/// served: by the capital, by an existing depot, or by one of the suggested
/// depots.
pub proof fn law_suggestions_serve_every_servable_resource(
    resources: Seq<TilePos>,
    owned: Seq<TilePos>,
    depots: Seq<TilePos>,
    capital: TilePos,
    t: TilePos,
)
    requires
        resources.contains(t),
        servable(t, owned, depots),
    ensures
        ({
            let rem = uncovered_resources(resources, depots, capital);
            already_served(t, depots, capital) || served_by_suggestion(
                t,
                greedy_sites(rem, owned, depots, capital, rem.len()),
            )
        }),
{
    let rem = uncovered_resources(resources, depots, capital);
    if !already_served(t, depots, capital) {
        lemma_uncovered_members(resources, depots, capital, t);
        lemma_greedy_serves(rem, owned, depots, capital, rem.len());
    }
}

} // verus!
