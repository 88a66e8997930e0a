//! Building the AI snapshot from the state of the world at the start of the
//! AI's turn: owned land, depots, resources worth developing, civilians.

use crate::ai::snapshot::{
    calculate_suggested_depots, compute_connected_tiles, greedy_sites, improver_for_resource,
    improver_of, rail_reachable, sort_suggestions, uncovered_resources, BuildingCapacity, CivilianSnapshot, DepotInfo, ImprovableTile,
    MarketSnapshot, NationSnapshot, ProspectableTile, RailConstruction, StockpileEntry,
};
use crate::civilians::types::{Civilian, ProspectingKnowledge};
use crate::economy::Good;
use crate::map::{adjacent, hex_distance, hex_neighbors, tile_listed, MapTile, Province, Rails, TileGrid, TilePos};
use crate::resources::{is_mineral, level_rank, TileResource};
use vstd::prelude::*;

verus! {

/// A depot on the map.
#[derive(Clone, Copy, Debug, PartialEq, Eq, Structural)]
pub struct DepotRecord {
    pub position: TilePos,
    /// Entity id of the owning nation.
    pub owner: u64,
    /// Whether rails join the depot to the capital.
    pub connected: bool,
}

/// One of the first `n` provinces belongs to `nation` and holds `t`.
pub open spec fn owned_among(provinces: Seq<Province>, n: int, nation: u64, t: TilePos) -> bool {
    exists|k: int|
        0 <= k < n && provinces[k].owner == Some(nation) && #[trigger] provinces[k].tiles@.contains(t)
}

/// `t` lies in a province of `nation`.
pub open spec fn owns_tile(provinces: Seq<Province>, nation: u64, t: TilePos) -> bool {
    owned_among(provinces, provinces.len() as int, nation, t)
}

proof fn lemma_push_distinct(s: Seq<TilePos>, x: TilePos)
    requires
        s.no_duplicates(),
        !s.contains(x),
    ensures
        s.push(x).no_duplicates(),
        forall|u: TilePos| s.push(x).contains(u) <==> (s.contains(u) || u == x),
{
    let t = s.push(x);
    assert forall|i: int, j: int| 0 <= i < j < t.len() implies t[i] != t[j] by {
        if j == s.len() {
            assert(t[i] == s[i]);
        } else {
            assert(t[i] == s[i] && t[j] == s[j]);
        }
    }
    assert forall|u: TilePos| t.contains(u) <==> (s.contains(u) || u == x) by {
        vstd::seq_lib::lemma_seq_contains_after_push(s, x, u);
    }
}

proof fn lemma_prefix_contains(s: Seq<TilePos>, j: int, u: TilePos)
    requires
        0 <= j < s.len(),
    ensures
        s.take(j + 1).contains(u) <==> (s.take(j).contains(u) || u == s[j]),
{
    assert(s.take(j + 1) =~= s.take(j).push(s[j]));
    vstd::seq_lib::lemma_seq_contains_after_push(s.take(j), s[j], u);
}

/// Appends each tile of `tiles` that `out` does not list yet.
fn add_new_tiles(out: &mut Vec<TilePos>, tiles: &Vec<TilePos>)
    requires
        old(out)@.no_duplicates(),
    ensures
        final(out)@.no_duplicates(),
        forall|t: TilePos| final(out)@.contains(t) <==> (old(out)@.contains(t) || tiles@.contains(t)),
{
    let mut j: usize = 0;
    while j < tiles.len()
        invariant
            j <= tiles@.len(),
            out@.no_duplicates(),
            forall|t: TilePos| out@.contains(t) <==> (old(out)@.contains(t) || tiles@.take(j as int).contains(t)),
        decreases tiles@.len() - j,
    {
        let t = tiles[j];
        let ghost prev = out@;
        if !tile_listed(out, t) {
            proof {
                lemma_push_distinct(prev, t);
            }
            out.push(t);
        }
        assert forall|u: TilePos|
            out@.contains(u) <==> (old(out)@.contains(u) || tiles@.take(j + 1).contains(u)) by {
            lemma_prefix_contains(tiles@, j as int, u);
        }
        j = j + 1;
    }
    assert(tiles@.take(j as int) =~= tiles@);
}

/// The tiles of every province `nation` owns, each once.
pub fn owned_tiles_of(provinces: &Vec<Province>, nation: u64) -> (r: Vec<TilePos>)
    ensures
        r@.no_duplicates(),
        forall|t: TilePos| r@.contains(t) <==> owns_tile(provinces@, nation, t),
{
    let mut out: Vec<TilePos> = Vec::new();
    let mut i: usize = 0;
    while i < provinces.len()
        invariant
            i <= provinces@.len(),
            out@.no_duplicates(),
            forall|t: TilePos| out@.contains(t) <==> owned_among(provinces@, i as int, nation, t),
        decreases provinces@.len() - i,
    {
        let ghost prev = out@;
        let owned = match provinces[i].owner {
            Some(o) => o == nation,
            None => false,
        };
        if owned {
            add_new_tiles(&mut out, &provinces[i].tiles);
        }
        assert forall|t: TilePos| out@.contains(t) <==> owned_among(provinces@, i + 1, nation, t) by {
            if prev.contains(t) {
                let k = choose|k: int|
                    0 <= k < i && provinces@[k].owner == Some(nation) && #[trigger] provinces@[k].tiles@.contains(t);
                assert(provinces@[k].tiles@.contains(t));
            }
            if owned && provinces@[i as int].tiles@.contains(t) {
                assert(provinces@[i as int].tiles@.contains(t));
            }
            if owned_among(provinces@, i + 1, nation, t) {
                let k = choose|k: int|
                    0 <= k < i + 1 && provinces@[k].owner == Some(nation) && #[trigger] provinces@[k].tiles@.contains(t);
                if k < i {
                    assert(owned_among(provinces@, i as int, nation, t));
                }
            }
        }
        i = i + 1;
    }
    out
}

/// One of the first `n` depots belongs to `nation` and stands on `t`.
pub open spec fn depot_among(depots: Seq<DepotRecord>, n: int, nation: u64, t: TilePos) -> bool {
    exists|k: int| 0 <= k < n && (#[trigger] depots[k]).owner == nation && depots[k].position == t
}

/// `t` holds a depot of `nation`.
pub open spec fn depot_of(depots: Seq<DepotRecord>, nation: u64, t: TilePos) -> bool {
    depot_among(depots, depots.len() as int, nation, t)
}

/// Where `nation` has depots, each tile once.
pub fn depot_positions_of(depots: &Vec<DepotRecord>, nation: u64) -> (r: Vec<TilePos>)
    ensures
        r@.no_duplicates(),
        forall|t: TilePos| r@.contains(t) <==> depot_of(depots@, nation, t),
{
    let mut out: Vec<TilePos> = Vec::new();
    let mut i: usize = 0;
    while i < depots.len()
        invariant
            i <= depots@.len(),
            out@.no_duplicates(),
            forall|t: TilePos| out@.contains(t) <==> depot_among(depots@, i as int, nation, t),
        decreases depots@.len() - i,
    {
        let d = depots[i];
        let ghost prev = out@;
        if d.owner == nation && !tile_listed(&out, d.position) {
            proof {
                lemma_push_distinct(prev, d.position);
            }
            out.push(d.position);
        }
        assert forall|t: TilePos| out@.contains(t) <==> depot_among(depots@, i + 1, nation, t) by {
            if prev.contains(t) {
                let k = choose|k: int| 0 <= k < i && (#[trigger] depots@[k]).owner == nation && depots@[k].position == t;
                assert(depots@[k].owner == nation);
            }
            if d.owner == nation && d.position == t {
                assert(depots@[i as int].owner == nation);
            }
            if depot_among(depots@, i + 1, nation, t) {
                let k = choose|k: int| 0 <= k < i + 1 && (#[trigger] depots@[k]).owner == nation && depots@[k].position == t;
                if k < i {
                    assert(depot_among(depots@, i as int, nation, t));
                }
            }
        }
        i = i + 1;
    }
    out
}

/// The depots of `nation` not yet joined by rail, in the order listed, with
/// their distance from the capital.
pub open spec fn unconnected_infos(depots: Seq<DepotRecord>, nation: u64, capital: TilePos) -> Seq<DepotInfo>
    decreases depots.len(),
{
    if depots.len() == 0 {
        Seq::empty()
    } else {
        let prev = unconnected_infos(depots.drop_last(), nation, capital);
        let d = depots.last();
        if d.owner == nation && !d.connected {
            prev.push(DepotInfo { position: d.position, distance_from_capital: hex_distance(capital, d.position) as u32 })
        } else {
            prev
        }
    }
}

/// Closest to the capital first.
pub open spec fn depot_infos_sorted(s: Seq<DepotInfo>) -> bool {
    forall|i: int, j: int|
        0 <= i < j < s.len() ==> (#[trigger] s[i]).distance_from_capital <= (#[trigger] s[j]).distance_from_capital
}

/// Where `d` goes in `sorted`: after every depot no farther away.
pub open spec fn depot_slot(sorted: Seq<DepotInfo>, d: DepotInfo) -> int
    decreases sorted.len(),
{
    if sorted.len() == 0 {
        0
    } else if sorted[0].distance_from_capital > d.distance_from_capital {
        0
    } else {
        1 + depot_slot(sorted.drop_first(), d)
    }
}

/// `infos` closest first, in their given order on a tie.
pub open spec fn sort_depot_infos(infos: Seq<DepotInfo>) -> Seq<DepotInfo>
    decreases infos.len(),
{
    if infos.len() == 0 {
        Seq::empty()
    } else {
        let r = sort_depot_infos(infos.drop_last());
        r.insert(depot_slot(r, infos.last()), infos.last())
    }
}

fn insert_depot_info(sorted: &mut Vec<DepotInfo>, d: DepotInfo)
    requires
        depot_infos_sorted(old(sorted)@),
    ensures
        depot_infos_sorted(final(sorted)@),
        final(sorted)@.to_multiset() == old(sorted)@.to_multiset().insert(d),
        final(sorted)@ == old(sorted)@.insert(depot_slot(old(sorted)@, d), d),
{
    let mut pos: usize = 0;
    assert(sorted@.skip(0) =~= sorted@);
    while pos < sorted.len() && sorted[pos].distance_from_capital <= d.distance_from_capital
        invariant
            pos <= sorted@.len(),
            sorted@ == old(sorted)@,
            forall|k: int| 0 <= k < pos ==> (#[trigger] sorted@[k]).distance_from_capital <= d.distance_from_capital,
            depot_slot(sorted@, d) == pos + depot_slot(sorted@.skip(pos as int), d),
        decreases sorted@.len() - pos,
    {
        assert(sorted@.skip(pos as int).drop_first() =~= sorted@.skip(pos + 1));
        assert(sorted@.skip(pos as int)[0] == sorted@[pos as int]);
        pos = pos + 1;
    }
    proof {
        if pos < sorted@.len() {
            assert(sorted@.skip(pos as int)[0] == sorted@[pos as int]);
        }
        broadcast use vstd::seq_lib::to_multiset_insert;
    }
    sorted.insert(pos, d);
    assert(sorted@ == old(sorted)@.insert(pos as int, d));
}

/// The depots of `nation` that still need a rail connection, closest to the
/// capital first.
pub fn unconnected_depots_of(depots: &Vec<DepotRecord>, nation: u64, capital: TilePos) -> (r: Vec<DepotInfo>)
    ensures
        r@ == sort_depot_infos(unconnected_infos(depots@, nation, capital)),
        depot_infos_sorted(r@),
        r@.to_multiset() == unconnected_infos(depots@, nation, capital).to_multiset(),
{
    broadcast use vstd::seq_lib::to_multiset_build;

    let mut sorted: Vec<DepotInfo> = Vec::new();
    let mut i: usize = 0;
    while i < depots.len()
        invariant
            i <= depots@.len(),
            depot_infos_sorted(sorted@),
            sorted@.to_multiset() == unconnected_infos(depots@.take(i as int), nation, capital).to_multiset(),
            sorted@ == sort_depot_infos(unconnected_infos(depots@.take(i as int), nation, capital)),
        decreases depots@.len() - i,
    {
        let d = depots[i];
        assert(depots@.take(i + 1).drop_last() =~= depots@.take(i as int));
        assert(depots@.take(i + 1).last() == d);
        if d.owner == nation && !d.connected {
            let dist: u64 = crate::map::distance(capital, d.position);
            let info = DepotInfo { position: d.position, distance_from_capital: dist as u32 };
            insert_depot_info(&mut sorted, info);
            proof {
                let u = unconnected_infos(depots@.take(i as int), nation, capital);
                assert(unconnected_infos(depots@.take(i + 1), nation, capital) == u.push(info));
                assert(u.push(info).drop_last() =~= u);
                vstd::seq_lib::to_multiset_build(u, info);
            }
        } else {
            assert(unconnected_infos(depots@.take(i + 1), nation, capital) == unconnected_infos(
                depots@.take(i as int),
                nation,
                capital,
            ));
        }
        i = i + 1;
    }
    assert(depots@.take(i as int) =~= depots@);
    sorted
}

/// What `nation` knows of the resource on `t`: a discovered resource, and
/// for a mineral only once the nation has prospected the tile.
pub open spec fn known_resource(
    grid: &TileGrid,
    knowledge: Set<(TilePos, u64)>,
    nation: u64,
    t: TilePos,
) -> Option<TileResource> {
    match grid.tile_at(t) {
        Some(tile) => match tile.resource {
            Some(r) => if r.discovered && (!is_mineral(r.resource_type) || knowledge.contains((t, nation))) {
                Some(r)
            } else {
                None
            },
            None => None,
        },
        None => None,
    }
}

/// The tiles of `owned` with a resource `nation` knows of, in the order listed.
pub open spec fn resource_tiles_among(
    owned: Seq<TilePos>,
    grid: &TileGrid,
    knowledge: Set<(TilePos, u64)>,
    nation: u64,
) -> Seq<TilePos>
    decreases owned.len(),
{
    if owned.len() == 0 {
        Seq::empty()
    } else {
        let prev = resource_tiles_among(owned.drop_last(), grid, knowledge, nation);
        if known_resource(grid, knowledge, nation, owned.last()) is Some {
            prev.push(owned.last())
        } else {
            prev
        }
    }
}

/// The tile holds a resource developed above the lowest level.
pub open spec fn has_developed_resource(tile: Option<MapTile>) -> bool {
    match tile {
        Some(mt) => match mt.resource {
            Some(r) => level_rank(r.development) > 0,
            None => false,
        },
        None => false,
    }
}

/// The neighbours of `t` holding a developed resource.
pub open spec fn developed_neighbours(grid: &TileGrid, t: TilePos) -> Set<TilePos> {
    Set::new(|q: TilePos| adjacent(t, q) && has_developed_resource(grid.tile_at(q)))
}

/// The entry for `t` among the tiles a civilian can improve: a known
/// resource below the highest level that some civilian kind develops.
pub open spec fn improvable_entry(
    grid: &TileGrid,
    knowledge: Set<(TilePos, u64)>,
    nation: u64,
    capital: TilePos,
    connected: Seq<TilePos>,
    t: TilePos,
) -> Option<ImprovableTile> {
    match known_resource(grid, knowledge, nation, t) {
        Some(r) => if level_rank(r.development) < 3 && improver_of(r.resource_type) is Some {
            Some(
                ImprovableTile {
                    position: t,
                    resource_type: r.resource_type,
                    development: r.development,
                    improver_kind: improver_of(r.resource_type).unwrap(),
                    distance_from_capital: hex_distance(capital, t) as u32,
                    is_connected: connected.contains(t),
                    adjacent_developed_count: developed_neighbours(grid, t).len() as u32,
                },
            )
        } else {
            None
        },
        None => None,
    }
}

/// The improvable tiles among `owned`, in the order listed.
pub open spec fn improvable_entries(
    owned: Seq<TilePos>,
    grid: &TileGrid,
    knowledge: Set<(TilePos, u64)>,
    nation: u64,
    capital: TilePos,
    connected: Seq<TilePos>,
) -> Seq<ImprovableTile>
    decreases owned.len(),
{
    if owned.len() == 0 {
        Seq::empty()
    } else {
        let prev = improvable_entries(owned.drop_last(), grid, knowledge, nation, capital, connected);
        match improvable_entry(grid, knowledge, nation, capital, connected, owned.last()) {
            Some(e) => prev.push(e),
            None => prev,
        }
    }
}

/// Closer to the capital first, the less developed first on a tie.
pub open spec fn improvable_le(a: ImprovableTile, b: ImprovableTile) -> bool {
    a.distance_from_capital < b.distance_from_capital || (a.distance_from_capital == b.distance_from_capital
        && level_rank(a.development) <= level_rank(b.development))
}

pub open spec fn improvables_sorted(s: Seq<ImprovableTile>) -> bool {
    forall|i: int, j: int| 0 <= i < j < s.len() ==> improvable_le(#[trigger] s[i], #[trigger] s[j])
}

/// Where `e` goes in `sorted`: after every tile listed no later than it.
pub open spec fn improvable_slot(sorted: Seq<ImprovableTile>, e: ImprovableTile) -> int
    decreases sorted.len(),
{
    if sorted.len() == 0 {
        0
    } else if !improvable_le(sorted[0], e) {
        0
    } else {
        1 + improvable_slot(sorted.drop_first(), e)
    }
}

/// `tiles` closest first, less developed first on a tie, in their given
/// order on a full tie.
pub open spec fn sort_improvables(tiles: Seq<ImprovableTile>) -> Seq<ImprovableTile>
    decreases tiles.len(),
{
    if tiles.len() == 0 {
        Seq::empty()
    } else {
        let r = sort_improvables(tiles.drop_last());
        r.insert(improvable_slot(r, tiles.last()), tiles.last())
    }
}

fn insert_improvable(sorted: &mut Vec<ImprovableTile>, e: ImprovableTile)
    requires
        improvables_sorted(old(sorted)@),
    ensures
        improvables_sorted(final(sorted)@),
        final(sorted)@.to_multiset() == old(sorted)@.to_multiset().insert(e),
        final(sorted)@ == old(sorted)@.insert(improvable_slot(old(sorted)@, e), e),
{
    let mut pos: usize = 0;
    assert(sorted@.skip(0) =~= sorted@);
    while pos < sorted.len() && (sorted[pos].distance_from_capital < e.distance_from_capital || (
    sorted[pos].distance_from_capital == e.distance_from_capital && sorted[pos].development.rank()
        <= e.development.rank()))
        invariant
            pos <= sorted@.len(),
            sorted@ == old(sorted)@,
            forall|k: int| 0 <= k < pos ==> improvable_le(#[trigger] sorted@[k], e),
            improvable_slot(sorted@, e) == pos + improvable_slot(sorted@.skip(pos as int), e),
        decreases sorted@.len() - pos,
    {
        assert(sorted@.skip(pos as int).drop_first() =~= sorted@.skip(pos + 1));
        assert(sorted@.skip(pos as int)[0] == sorted@[pos as int]);
        pos = pos + 1;
    }
    proof {
        if pos < sorted@.len() {
            assert(sorted@.skip(pos as int)[0] == sorted@[pos as int]);
        }
        broadcast use vstd::seq_lib::to_multiset_insert;
    }
    sorted.insert(pos, e);
    assert(sorted@ == old(sorted)@.insert(pos as int, e));
}

/// How many neighbours of `t` hold a developed resource.
fn developed_neighbour_count(grid: &TileGrid, t: TilePos) -> (n: u32)
    ensures
        n == developed_neighbours(grid, t).len(),
{
    let nb = hex_neighbors(t);
    let mut dev: Vec<TilePos> = Vec::new();
    let mut k: usize = 0;
    while k < nb.len()
        invariant
            k <= nb@.len() <= 6,
            nb@.no_duplicates(),
            forall|u: TilePos| nb@.contains(u) <==> adjacent(t, u),
            dev@.no_duplicates(),
            dev@.len() <= k,
            forall|u: TilePos|
                dev@.contains(u) <==> (nb@.take(k as int).contains(u) && has_developed_resource(grid.tile_at(u))),
        decreases nb@.len() - k,
    {
        let q = nb[k];
        let ghost prev = dev@;
        let developed = match grid.get(q) {
            Some(tile) => match tile.resource {
                Some(r) => r.development.rank() > 0,
                None => false,
            },
            None => false,
        };
        assert(developed == has_developed_resource(grid.tile_at(q)));
        if developed {
            proof {
                if prev.contains(q) {
                    assert(nb@.take(k as int).contains(q));
                    let m = choose|m: int| 0 <= m < k && nb@.take(k as int)[m] == q;
                    assert(nb@[m] == nb@[k as int]);
                }
                lemma_push_distinct(prev, q);
            }
            dev.push(q);
        }
        assert forall|u: TilePos|
            dev@.contains(u) <==> (nb@.take(k + 1).contains(u) && has_developed_resource(grid.tile_at(u))) by {
            lemma_prefix_contains(nb@, k as int, u);
            assert(prev.contains(u) <==> (nb@.take(k as int).contains(u) && has_developed_resource(grid.tile_at(u))));
            if developed {
                assert(dev@ == prev.push(q));
            }
        }
        k = k + 1;
    }
    proof {
        assert(nb@.take(k as int) =~= nb@);
        dev@.unique_seq_to_set();
        assert(dev@.to_set() =~= developed_neighbours(grid, t));
    }
    dev.len() as u32
}

/// The resource `nation` knows of on `t` (see `known_resource`).
fn known_resource_at(grid: &TileGrid, knowledge: &ProspectingKnowledge, nation: u64, t: TilePos) -> (r: Option<
    TileResource,
>)
    ensures
        r == known_resource(grid, knowledge@, nation, t),
{
    match grid.get(t) {
        Some(tile) => match tile.resource {
            Some(res) => if res.discovered && (!res.requires_prospecting() || knowledge.is_discovered_by(t, nation)) {
                Some(res)
            } else {
                None
            },
            None => None,
        },
        None => None,
    }
}

/// The owned tiles with a resource `nation` knows of, in the order of
/// `owned`, and the improvable ones among them, closest to the capital first
/// and the less developed first on a tie.
pub fn survey_resources(
    owned: &Vec<TilePos>,
    connected: &Vec<TilePos>,
    grid: &TileGrid,
    knowledge: &ProspectingKnowledge,
    nation: u64,
    capital: TilePos,
) -> (r: (Vec<TilePos>, Vec<ImprovableTile>))
    ensures
        r.0@ == resource_tiles_among(owned@, grid, knowledge@, nation),
        r.1@ == sort_improvables(improvable_entries(owned@, grid, knowledge@, nation, capital, connected@)),
        improvables_sorted(r.1@),
        r.1@.to_multiset() == improvable_entries(owned@, grid, knowledge@, nation, capital, connected@).to_multiset(),
{
    broadcast use vstd::seq_lib::to_multiset_build;

    let mut resources: Vec<TilePos> = Vec::new();
    let mut sorted: Vec<ImprovableTile> = Vec::new();
    let mut i: usize = 0;
    while i < owned.len()
        invariant
            i <= owned@.len(),
            resources@ == resource_tiles_among(owned@.take(i as int), grid, knowledge@, nation),
            improvables_sorted(sorted@),
            sorted@.to_multiset() == improvable_entries(
                owned@.take(i as int),
                grid,
                knowledge@,
                nation,
                capital,
                connected@,
            ).to_multiset(),
            sorted@ == sort_improvables(
                improvable_entries(owned@.take(i as int), grid, knowledge@, nation, capital, connected@),
            ),
        decreases owned@.len() - i,
    {
        let t = owned[i];
        let ghost pre = owned@.take(i as int);
        assert(owned@.take(i + 1).drop_last() =~= pre);
        assert(owned@.take(i + 1).last() == t);
        let ghost prev_entries = improvable_entries(pre, grid, knowledge@, nation, capital, connected@);
        match known_resource_at(grid, knowledge, nation, t) {
            Some(res) => {
                resources.push(t);
                let improver = improver_for_resource(&res.resource_type);
                if res.development.rank() < 3 && improver.is_some() {
                    let dist: u64 = crate::map::distance(capital, t);
                    let entry = ImprovableTile {
                        position: t,
                        resource_type: res.resource_type,
                        development: res.development,
                        improver_kind: improver.unwrap(),
                        distance_from_capital: dist as u32,
                        is_connected: tile_listed(connected, t),
                        adjacent_developed_count: developed_neighbour_count(grid, t),
                    };
                    insert_improvable(&mut sorted, entry);
                    proof {
                        assert(improvable_entry(grid, knowledge@, nation, capital, connected@, t) == Some(entry));
                        assert(prev_entries.push(entry).drop_last() =~= prev_entries);
                        vstd::seq_lib::to_multiset_build(prev_entries, entry);
                    }
                }
            },
            None => {},
        }
        i = i + 1;
    }
    assert(owned@.take(i as int) =~= owned@);
    (resources, sorted)
}

/// The civilians of `nation` as the planner sees them, in the order listed.
pub open spec fn civilian_snapshots(civilians: Seq<(u64, Civilian)>, nation: u64) -> Seq<CivilianSnapshot>
    decreases civilians.len(),
{
    if civilians.len() == 0 {
        Seq::empty()
    } else {
        let prev = civilian_snapshots(civilians.drop_last(), nation);
        let (e, c) = civilians.last();
        if c.owner == nation {
            prev.push(CivilianSnapshot { entity: e, kind: c.kind, position: c.position, has_moved: c.has_moved })
        } else {
            prev
        }
    }
}

/// Snapshots of the civilians of `nation`; each unit comes with its entity id.
pub fn civilians_of_nation(civilians: &Vec<(u64, Civilian)>, nation: u64) -> (r: Vec<CivilianSnapshot>)
    ensures
        r@ == civilian_snapshots(civilians@, nation),
{
    let mut out: Vec<CivilianSnapshot> = Vec::new();
    let mut i: usize = 0;
    while i < civilians.len()
        invariant
            i <= civilians@.len(),
            out@ == civilian_snapshots(civilians@.take(i as int), nation),
        decreases civilians@.len() - i,
    {
        let (e, c) = civilians[i];
        assert(civilians@.take(i + 1).drop_last() =~= civilians@.take(i as int));
        assert(civilians@.take(i + 1).last() == (e, c));
        if c.owner == nation {
            out.push(CivilianSnapshot { entity: e, kind: c.kind, position: c.position, has_moved: c.has_moved });
        }
        i = i + 1;
    }
    assert(civilians@.take(i as int) =~= civilians@);
    out
}

/// What the snapshot takes over from an AI nation as it stands: its id,
/// capital, cash and stock, and the lists that the transport, prospecting and
/// production systems prepare for it.
#[derive(Clone, Debug)]
pub struct NationRecord {
    /// Entity id of the nation.
    pub entity: u64,
    pub capital: TilePos,
    /// Cash available to spend.
    pub treasury: i64,
    pub stockpile: Vec<StockpileEntry>,
    pub prospectable_tiles: Vec<ProspectableTile>,
    pub rail_constructions: Vec<RailConstruction>,
    pub rail_buildable: Vec<TilePos>,
    pub depot_buildable: Vec<TilePos>,
    pub buildings: Vec<BuildingCapacity>,
}

/// `s` is the snapshot of the nation `rec` in the world given by the
/// provinces, depots, map, prospecting knowledge, rails and civilians.
pub open spec fn snapshot_of(
    s: NationSnapshot,
    rec: NationRecord,
    provinces: Seq<Province>,
    depots: Seq<DepotRecord>,
    grid: &TileGrid,
    knowledge: Set<(TilePos, u64)>,
    rails: Set<(TilePos, TilePos)>,
    civilians: Seq<(u64, Civilian)>,
) -> bool {
    let nation = rec.entity;
    let capital = rec.capital;
    let owned = s.owned_tiles@;
    let resources = resource_tiles_among(owned, grid, knowledge, nation);
    let rem = uncovered_resources(resources, s.depot_positions@, capital);
    &&& s.entity == nation
    &&& s.capital_pos == capital
    &&& s.treasury == rec.treasury
    &&& s.stockpile@ == rec.stockpile@
    &&& s.civilians@ == civilian_snapshots(civilians, nation)
    &&& owned.no_duplicates()
    &&& forall|t: TilePos| owned.contains(t) <==> owns_tile(provinces, nation, t)
    &&& s.connected_tiles@.no_duplicates()
    &&& s.connected_tiles@[0] == capital
    &&& forall|t: TilePos| s.connected_tiles@.contains(t) <==> rail_reachable(capital, t, owned, rails)
    &&& s.depot_positions@.no_duplicates()
    &&& forall|t: TilePos| s.depot_positions@.contains(t) <==> depot_of(depots, nation, t)
    &&& s.unconnected_depots@ == sort_depot_infos(unconnected_infos(depots, nation, capital))
    &&& s.improvable_tiles@ == sort_improvables(
        improvable_entries(owned, grid, knowledge, nation, capital, s.connected_tiles@),
    )
    &&& s.suggested_depots@ == sort_suggestions(greedy_sites(rem, owned, s.depot_positions@, capital, rem.len()))
    &&& s.prospectable_tiles@ == rec.prospectable_tiles@
    &&& s.rail_constructions@ == rec.rail_constructions@
    &&& s.rail_buildable@ == rec.rail_buildable@
    &&& s.depot_buildable@ == rec.depot_buildable@
    &&& s.buildings@ == rec.buildings@
}

/// The snapshot of one AI nation: the tiles of its provinces, those joined to
/// the capital by rail, its depots (those still unconnected closest first),
/// the resources it knows of with the improvable ones closest first, depot
/// sites that would serve the resources no depot serves yet, and its
/// civilians.
pub fn build_nation_snapshot(
    rec: &NationRecord,
    provinces: &Vec<Province>,
    depots: &Vec<DepotRecord>,
    grid: &TileGrid,
    knowledge: &ProspectingKnowledge,
    rails: &Rails,
    civilians: &Vec<(u64, Civilian)>,
) -> (s: NationSnapshot)
    ensures
        snapshot_of(s, *rec, provinces@, depots@, grid, knowledge@, rails@, civilians@),
{
    let nation = rec.entity;
    let capital = rec.capital;
    let owned_tiles = owned_tiles_of(provinces, nation);
    let connected_tiles = compute_connected_tiles(capital, &owned_tiles, rails);
    let depot_positions = depot_positions_of(depots, nation);
    let unconnected_depots = unconnected_depots_of(depots, nation, capital);
    let (resource_tiles, improvable_tiles) = survey_resources(
        &owned_tiles,
        &connected_tiles,
        grid,
        knowledge,
        nation,
        capital,
    );
    let suggested_depots = calculate_suggested_depots(&resource_tiles, &owned_tiles, &depot_positions, capital);
    NationSnapshot {
        entity: nation,
        capital_pos: capital,
        treasury: rec.treasury,
        stockpile: rec.stockpile.clone(),
        civilians: civilians_of_nation(civilians, nation),
        connected_tiles,
        unconnected_depots,
        suggested_depots,
        improvable_tiles,
        prospectable_tiles: rec.prospectable_tiles.clone(),
        owned_tiles,
        depot_positions,
        rail_constructions: rec.rail_constructions.clone(),
        rail_buildable: rec.rail_buildable.clone(),
        depot_buildable: rec.depot_buildable.clone(),
        buildings: rec.buildings.clone(),
    }
}

/// Everything the AI reads at the start of its turn.
#[derive(Clone, Debug)]
pub struct AiSnapshot {
    pub turn: u32,
    /// One snapshot per AI nation.
    pub nations: Vec<NationSnapshot>,
    pub market: MarketSnapshot,
}

impl AiSnapshot {
    /// The first snapshot of the nation `entity`, if there is one.
    pub fn get_nation(&self, entity: u64) -> (r: Option<&NationSnapshot>)
        ensures
            match r {
                Some(n) => exists|i: int|
                    0 <= i < self.nations@.len() && self.nations@[i] == *n && n.entity == entity && forall|j: int|
                        0 <= j < i ==> (#[trigger] self.nations@[j]).entity != entity,
                None => forall|i: int| 0 <= i < self.nations@.len() ==> (#[trigger] self.nations@[i]).entity != entity,
            },
    {
        let mut i: usize = 0;
        while i < self.nations.len()
            invariant
                i <= self.nations@.len(),
                forall|j: int| 0 <= j < i ==> (#[trigger] self.nations@[j]).entity != entity,
            decreases self.nations@.len() - i,
        {
            if self.nations[i].entity == entity {
                return Some(&self.nations[i]);
            }
            i = i + 1;
        }
        None
    }
}

/// The market prices of a snapshot: each good of `goods`, in that order, at
/// the price given at the same place of `prices`.
pub open spec fn market_prices(goods: Seq<Good>, prices: Seq<u32>) -> Seq<(Good, u32)> {
    Seq::new(goods.len(), |i: int| (goods[i], prices[i]))
}

/// The snapshot for turn `turn`: the market lists each good of
/// `market_goods` at its price in `good_prices`; without a map (`grid` is
/// `None`) there are no nation snapshots, else one per nation of `records`,
/// in that order (see `build_nation_snapshot`).
pub fn build_ai_snapshot(
    turn: u32,
    market_goods: &Vec<Good>,
    good_prices: &Vec<u32>,
    records: &Vec<NationRecord>,
    provinces: &Vec<Province>,
    depots: &Vec<DepotRecord>,
    grid: Option<&TileGrid>,
    knowledge: &ProspectingKnowledge,
    rails: &Rails,
    civilians: &Vec<(u64, Civilian)>,
) -> (r: AiSnapshot)
    requires
        market_goods@.len() == good_prices@.len(),
    ensures
        r.turn == turn,
        r.market.prices@ == market_prices(market_goods@, good_prices@),
        grid is None ==> r.nations@.len() == 0,
        grid is Some ==> r.nations@.len() == records@.len(),
        grid is Some ==> forall|i: int|
            0 <= i < records@.len() ==> snapshot_of(
                #[trigger] r.nations@[i],
                records@[i],
                provinces@,
                depots@,
                grid.unwrap(),
                knowledge@,
                rails@,
                civilians@,
            ),
{
    let mut prices: Vec<(Good, u32)> = Vec::new();
    let mut m: usize = 0;
    while m < market_goods.len()
        invariant
            m <= market_goods@.len(),
            market_goods@.len() == good_prices@.len(),
            prices@ == market_prices(market_goods@.take(m as int), good_prices@.take(m as int)),
        decreases market_goods@.len() - m,
    {
        prices.push((market_goods[m], good_prices[m]));
        m = m + 1;
        assert(prices@ =~= market_prices(market_goods@.take(m as int), good_prices@.take(m as int)));
    }
    assert(market_goods@.take(m as int) =~= market_goods@);
    assert(good_prices@.take(m as int) =~= good_prices@);
    let market = MarketSnapshot { prices };
    let mut nations: Vec<NationSnapshot> = Vec::new();
    let g = match grid {
        Some(g) => g,
        None => {
            return AiSnapshot { turn, market, nations };
        },
    };
    let mut i: usize = 0;
    while i < records.len()
        invariant
            i <= records@.len(),
            nations@.len() == i,
            forall|k: int|
                0 <= k < i ==> snapshot_of(
                    #[trigger] nations@[k],
                    records@[k],
                    provinces@,
                    depots@,
                    g,
                    knowledge@,
                    rails@,
                    civilians@,
                ),
        decreases records@.len() - i,
    {
        let s = build_nation_snapshot(&records[i], provinces, depots, g, knowledge, rails, civilians);
        nations.push(s);
        i = i + 1;
    }
    AiSnapshot { turn, market, nations }
}

} // verus!
