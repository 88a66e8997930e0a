//! Nation-level planning: which civilian works toward which goal, and how an
//! engineer gets to a depot site or extends the rail network.

use crate::ai::execute::{distinct_civilians, has_task};
use crate::ai::snapshot::{idle_civilians, CivilianSnapshot, NationSnapshot, RailConstruction};
use crate::civilians::types::CivilianKind;
use crate::ai::snapshot::{listed_price, stock_entry, BuildingCapacity, MarketSnapshot};
use crate::economy::{BuildingKind, Good, TransportCommodity};
use crate::map::{adjacent, edge_of, hex_distance, hex_neighbors, tile_listed, Rails, TilePos};
use vstd::prelude::*;

verus! {

/// Something a nation wants to accomplish this turn. Goals reach the
/// planner already ranked, most urgent first.
#[derive(Clone, Copy, Debug, PartialEq, Eq, Structural)]
pub enum NationGoal {
    /// Buy a resource from the market.
    BuyResource { good: Good, qty: u32 },
    /// Sell excess resources on the market.
    SellResource { good: Good, qty: u32 },
    /// Build a depot on a resource tile.
    BuildDepotAt { tile: TilePos },
    /// Connect an unconnected depot to the rail network.
    ConnectDepot { tile: TilePos },
    /// Improve a resource tile.
    ImproveTile { tile: TilePos, civilian_kind: CivilianKind },
    /// Prospect a tile for minerals.
    ProspectTile { tile: TilePos },
    /// Hire a new civilian.
    HireCivilian { kind: CivilianKind },
    /// Produce goods in a building.
    ProduceGoods { building: u64, good: Good, qty: u32 },
}

/// A task assigned to a specific civilian.
#[derive(Clone, Copy, Debug, PartialEq, Eq, Structural)]
pub enum CivilianTask {
    /// Build rail toward a target tile.
    BuildRailTo { target: TilePos },
    /// Build a depot at the current location.
    BuildDepot,
    /// Improve the tile at the target position.
    ImproveTile { target: TilePos },
    /// Prospect a tile for minerals.
    ProspectTile { target: TilePos },
    /// Move toward a target tile.
    MoveTo { target: TilePos },
    /// Skip the turn.
    Idle,
}

/// `p` is a tile a unit at `from` may step onto: a neighbour in `allowed`
/// and not in `avoid`.
pub open spec fn step_option(from: TilePos, p: TilePos, allowed: Seq<TilePos>, avoid: Seq<TilePos>) -> bool {
    adjacent(from, p) && allowed.contains(p) && !avoid.contains(p)
}

/// `p` ranks before `q` as a step toward `to`: nearer to it, then by `x`,
/// then by `y`.
pub open spec fn step_before(p: TilePos, q: TilePos, to: TilePos) -> bool {
    let dp = hex_distance(p, to);
    let dq = hex_distance(q, to);
    dp < dq || (dp == dq && (p.x < q.x || (p.x == q.x && p.y <= q.y)))
}

/// The best step from `from` toward `to`, if there is any step at all.
pub open spec fn best_step(from: TilePos, to: TilePos, allowed: Seq<TilePos>, avoid: Seq<TilePos>) -> Option<
    TilePos,
> {
    if exists|p: TilePos| step_option(from, p, allowed, avoid) {
        Some(
            choose|p: TilePos|
                step_option(from, p, allowed, avoid) && forall|q: TilePos|
                    step_option(from, q, allowed, avoid) ==> #[trigger] step_before(p, q, to),
        )
    } else {
        None
    }
}

/// The neighbour of `from` in `allowed_tiles` and not in `avoid_tiles` that
/// is nearest to `to` (ties broken by `x`, then `y`).
pub fn find_step_toward(
    from: TilePos,
    to: TilePos,
    allowed_tiles: &Vec<TilePos>,
    avoid_tiles: &Vec<TilePos>,
) -> (r: Option<TilePos>)
    ensures
        r == best_step(from, to, allowed_tiles@, avoid_tiles@),
{
    let nbrs = hex_neighbors(from);
    let mut best: Option<TilePos> = None;
    let mut best_d: u64 = 0;
    let mut j: usize = 0;
    while j < nbrs.len()
        invariant
            j <= nbrs@.len(),
            forall|t: TilePos| nbrs@.contains(t) <==> adjacent(from, t),
            match best {
                Some(b) => {
                    &&& step_option(from, b, allowed_tiles@, avoid_tiles@)
                    &&& best_d == hex_distance(b, to)
                    &&& forall|k: int|
                        0 <= k < j && step_option(from, nbrs@[k], allowed_tiles@, avoid_tiles@)
                            ==> step_before(b, #[trigger] nbrs@[k], to)
                },
                None => forall|k: int|
                    0 <= k < j ==> !step_option(from, #[trigger] nbrs@[k], allowed_tiles@, avoid_tiles@),
            },
        decreases nbrs@.len() - j,
    {
        let p = nbrs[j];
        assert(nbrs@.contains(p));
        if tile_listed(allowed_tiles, p) && !tile_listed(avoid_tiles, p) {
            let d = crate::map::distance(p, to);
            let better = match best {
                None => true,
                Some(b) => d < best_d || (d == best_d && (p.x < b.x || (p.x == b.x && p.y < b.y))),
            };
            if better {
                best = Some(p);
                best_d = d;
            }
        }
        j = j + 1;
    }
    proof {
        match best {
            Some(b) => {
                assert forall|q: TilePos| step_option(from, q, allowed_tiles@, avoid_tiles@) implies #[trigger] step_before(b, q, to) by {
                    assert(nbrs@.contains(q));
                    let k = choose|k: int| 0 <= k < nbrs@.len() && nbrs@[k] == q;
                }
                let c = choose|p: TilePos|
                    step_option(from, p, allowed_tiles@, avoid_tiles@) && forall|q: TilePos|
                        step_option(from, q, allowed_tiles@, avoid_tiles@) ==> #[trigger] step_before(p, q, to);
                assert(step_before(c, b, to));
                assert(step_before(b, c, to));
            },
            None => {
                assert forall|p: TilePos| !step_option(from, p, allowed_tiles@, avoid_tiles@) by {
                    if step_option(from, p, allowed_tiles@, avoid_tiles@) {
                        assert(nbrs@.contains(p));
                        let k = choose|k: int| 0 <= k < nbrs@.len() && nbrs@[k] == p;
                    }
                }
            },
        }
    }
    best
}

/// The task an engineer at `engineer_pos` takes toward a depot at `target`:
/// build it when standing there on terrain that takes a depot, else step
/// toward it over owned tiles avoiding `occupied`.
pub open spec fn depot_task(
    nation: NationSnapshot,
    occupied: Seq<TilePos>,
    engineer_pos: TilePos,
    target: TilePos,
) -> Option<CivilianTask> {
    if engineer_pos == target {
        if nation.depot_buildable@.contains(target) {
            Some(CivilianTask::BuildDepot)
        } else {
            None
        }
    } else {
        match best_step(engineer_pos, target, nation.owned_tiles@, occupied) {
            Some(n) => Some(CivilianTask::MoveTo { target: n }),
            None => None,
        }
    }
}

/// Plans an engineer's task toward building a depot at `target`.
pub fn plan_engineer_depot_task(
    nation: &NationSnapshot,
    occupied_tiles: &Vec<TilePos>,
    engineer_pos: TilePos,
    target: TilePos,
) -> (r: Option<CivilianTask>)
    ensures
        r == depot_task(*nation, occupied_tiles@, engineer_pos, target),
{
    if engineer_pos == target {
        if tile_listed(&nation.depot_buildable, target) {
            return Some(CivilianTask::BuildDepot);
        }
        return None;
    }
    match find_step_toward(engineer_pos, target, &nation.owned_tiles, occupied_tiles) {
        Some(n) => Some(CivilianTask::MoveTo { target: n }),
        None => None,
    }
}

/// `p` ranks before `q` as the tile of the network from which to build
/// toward `depot`: nearer to it, then the engineer's own tile, then by `x`,
/// then by `y`.
pub open spec fn bridgehead_before(p: TilePos, q: TilePos, depot: TilePos, engineer: TilePos) -> bool {
    let dp = hex_distance(p, depot);
    let dq = hex_distance(q, depot);
    let ep: int = if p == engineer {
        0
    } else {
        1
    };
    let eq: int = if q == engineer {
        0
    } else {
        1
    };
    dp < dq || (dp == dq && (ep < eq || (ep == eq && (p.x < q.x || (p.x == q.x && p.y <= q.y)))))
}

/// The connected tile from which to build rail toward `depot`.
pub open spec fn bridgehead(connected: Seq<TilePos>, depot: TilePos, engineer: TilePos) -> Option<TilePos> {
    if connected.len() == 0 {
        None
    } else {
        Some(
            choose|p: TilePos|
                connected.contains(p) && forall|q: TilePos|
                    connected.contains(q) ==> #[trigger] bridgehead_before(p, q, depot, engineer),
        )
    }
}

/// A rail between `a` and `b` is already being built.
pub open spec fn rail_in_progress(a: TilePos, b: TilePos, rcs: Seq<RailConstruction>) -> bool {
    exists|i: int| 0 <= i < rcs.len() && edge_of((#[trigger] rcs[i]).from, rcs[i].to) == edge_of(a, b)
}

/// The task an engineer at `engineer_pos` takes toward joining the depot at
/// `depot_pos` to the network: go to the bridgehead, then lay rail (or ride
/// an existing one) one step toward the depot.
pub open spec fn rail_task(
    nation: NationSnapshot,
    rails: Set<(TilePos, TilePos)>,
    avoid: Seq<TilePos>,
    engineer_pos: TilePos,
    depot_pos: TilePos,
) -> Option<CivilianTask> {
    match bridgehead(nation.connected_tiles@, depot_pos, engineer_pos) {
        None => None,
        Some(b) => if engineer_pos != b {
            Some(CivilianTask::MoveTo { target: b })
        } else {
            match best_step(b, depot_pos, nation.owned_tiles@, avoid) {
                None => None,
                Some(n) => if rails.contains(edge_of(b, n)) {
                    Some(CivilianTask::MoveTo { target: n })
                } else if rail_in_progress(b, n, nation.rail_constructions@) {
                    None
                } else if nation.rail_buildable@.contains(b) && nation.rail_buildable@.contains(n) {
                    Some(CivilianTask::BuildRailTo { target: n })
                } else {
                    None
                },
            }
        },
    }
}

#[verifier::spinoff_prover]
#[verifier::rlimit(40)]
fn find_bridgehead(connected: &Vec<TilePos>, depot: TilePos, engineer: TilePos) -> (r: Option<TilePos>)
    ensures
        r == bridgehead(connected@, depot, engineer),
{
    if connected.len() == 0 {
        return None;
    }
    let mut b = connected[0];
    let mut j: usize = 1;
    while j < connected.len()
        invariant
            1 <= j <= connected@.len(),
            connected@.contains(b),
            forall|k: int| 0 <= k < j ==> bridgehead_before(b, #[trigger] connected@[k], depot, engineer),
        decreases connected@.len() - j,
    {
        let p = connected[j];
        let dp = crate::map::distance(p, depot);
        let db = crate::map::distance(b, depot);
        let ep: u8 = if p == engineer {
            0
        } else {
            1
        };
        let eb: u8 = if b == engineer {
            0
        } else {
            1
        };
        if dp < db || (dp == db && (ep < eb || (ep == eb && (p.x < b.x || (p.x == b.x && p.y < b.y))))) {
            b = p;
        }
        j = j + 1;
    }
    proof {
        assert forall|q: TilePos| connected@.contains(q) implies #[trigger] bridgehead_before(b, q, depot, engineer) by {
            let k = choose|k: int| 0 <= k < connected@.len() && connected@[k] == q;
        }
        let c = choose|p: TilePos|
            connected@.contains(p) && forall|q: TilePos|
                connected@.contains(q) ==> #[trigger] bridgehead_before(p, q, depot, engineer);
        assert(bridgehead_before(c, b, depot, engineer));
        assert(bridgehead_before(b, c, depot, engineer));
    }
    Some(b)
}

/// True when a rail between `a` and `b` is already under construction.
pub fn is_rail_being_built(a: TilePos, b: TilePos, nation: &NationSnapshot) -> (r: bool)
    ensures
        r == rail_in_progress(a, b, nation.rail_constructions@),
{
    let e = crate::map::ordered_edge(a, b);
    let mut i: usize = 0;
    while i < nation.rail_constructions.len()
        invariant
            i <= nation.rail_constructions@.len(),
            e == edge_of(a, b),
            forall|k: int|
                0 <= k < i ==> edge_of((#[trigger] nation.rail_constructions@[k]).from, nation.rail_constructions@[k].to) != e,
        decreases nation.rail_constructions@.len() - i,
    {
        let rc = nation.rail_constructions[i];
        let f = crate::map::ordered_edge(rc.from, rc.to);
        if f.0 == e.0 && f.1 == e.1 {
            assert(edge_of(nation.rail_constructions@[i as int].from, nation.rail_constructions@[i as int].to) == e);
            return true;
        }
        i = i + 1;
    }
    false
}

/// Plans an engineer's task toward joining the depot at `depot_pos` to the
/// rail network.
pub fn plan_engineer_rail_task(
    nation: &NationSnapshot,
    rails: &Rails,
    avoid_tiles: &Vec<TilePos>,
    engineer_pos: TilePos,
    depot_pos: TilePos,
) -> (r: Option<CivilianTask>)
    ensures
        r == rail_task(*nation, rails@, avoid_tiles@, engineer_pos, depot_pos),
{
    let b = match find_bridgehead(&nation.connected_tiles, depot_pos, engineer_pos) {
        Some(b) => b,
        None => {
            return None;
        },
    };
    if engineer_pos != b {
        return Some(CivilianTask::MoveTo { target: b });
    }
    match find_step_toward(b, depot_pos, &nation.owned_tiles, avoid_tiles) {
        None => None,
        Some(n) => {
            if rails.connects(b, n) {
                Some(CivilianTask::MoveTo { target: n })
            } else if is_rail_being_built(b, n, nation) {
                None
            } else if tile_listed(&nation.rail_buildable, b) && tile_listed(&nation.rail_buildable, n) {
                Some(CivilianTask::BuildRailTo { target: n })
            } else {
                None
            }
        },
    }
}

/// The task civilian `c` would take for `goal`, avoiding the tiles `avoid`.
pub open spec fn candidate_task(
    nation: NationSnapshot,
    rails: Set<(TilePos, TilePos)>,
    avoid: Seq<TilePos>,
    c: CivilianSnapshot,
    goal: NationGoal,
) -> Option<CivilianTask> {
    match goal {
        NationGoal::BuildDepotAt { tile } => if c.kind == CivilianKind::Engineer {
            depot_task(nation, avoid, c.position, tile)
        } else {
            None
        },
        NationGoal::ConnectDepot { tile } => if c.kind == CivilianKind::Engineer {
            rail_task(nation, rails, avoid, c.position, tile)
        } else {
            None
        },
        NationGoal::ProspectTile { tile } => if c.kind == CivilianKind::Prospector {
            if c.position == tile || adjacent(c.position, tile) {
                Some(CivilianTask::ProspectTile { target: tile })
            } else if !avoid.contains(tile) {
                Some(CivilianTask::MoveTo { target: tile })
            } else {
                None
            }
        } else {
            None
        },
        NationGoal::ImproveTile { tile, civilian_kind } => if c.kind == civilian_kind {
            if c.position == tile || adjacent(c.position, tile) {
                Some(CivilianTask::ImproveTile { target: tile })
            } else if !avoid.contains(tile) {
                Some(CivilianTask::MoveTo { target: tile })
            } else {
                None
            }
        } else {
            None
        },
        _ => None,
    }
}

/// How far a task takes its civilian from `pos` (0 for work on the spot).
pub open spec fn task_distance(pos: TilePos, t: CivilianTask) -> u32 {
    match t {
        CivilianTask::MoveTo { target } => hex_distance(pos, target) as u32,
        CivilianTask::BuildRailTo { target } => hex_distance(pos, target) as u32,
        _ => 0,
    }
}

/// Civilians still without a task, with their positions.
pub open spec fn is_unplanned(unplanned: Seq<(u64, TilePos)>, e: u64) -> bool {
    exists|i: int| 0 <= i < unplanned.len() && (#[trigger] unplanned[i]).0 == e
}

/// Tiles civilian `me` must keep off: the reserved ones and those where the
/// other unplanned civilians stand.
pub open spec fn avoid_for(reserved: Seq<TilePos>, unplanned: Seq<(u64, TilePos)>, me: u64) -> Seq<TilePos> {
    reserved + others_positions(unplanned, me)
}

/// Positions of the unplanned civilians other than `me`.
pub open spec fn others_positions(unplanned: Seq<(u64, TilePos)>, me: u64) -> Seq<TilePos>
    decreases unplanned.len(),
{
    if unplanned.len() == 0 {
        Seq::empty()
    } else {
        let prev = others_positions(unplanned.drop_last(), me);
        if unplanned.last().0 != me {
            prev.push(unplanned.last().1)
        } else {
            prev
        }
    }
}

/// The nearest civilian of `civs` (the first among equals) that can work
/// toward `goal`, with its task, after scanning `civs`; the scan stops at a
/// civilian that can act on the spot. Returns the pick, its distance, and
/// whether the scan stopped.
pub open spec fn scan_candidates(
    nation: NationSnapshot,
    rails: Set<(TilePos, TilePos)>,
    reserved: Seq<TilePos>,
    unplanned: Seq<(u64, TilePos)>,
    goal: NationGoal,
    civs: Seq<CivilianSnapshot>,
) -> (Option<(u64, CivilianTask)>, u32, bool)
    decreases civs.len(),
{
    if civs.len() == 0 {
        (None, u32::MAX, false)
    } else {
        let prev = scan_candidates(nation, rails, reserved, unplanned, goal, civs.drop_last());
        let c = civs.last();
        if prev.2 || !is_unplanned(unplanned, c.entity) {
            prev
        } else {
            match candidate_task(nation, rails, avoid_for(reserved, unplanned, c.entity), c, goal) {
                None => prev,
                Some(t) => {
                    let d = task_distance(c.position, t);
                    if d < prev.1 {
                        (Some((c.entity, t)), d, d == 0)
                    } else {
                        prev
                    }
                },
            }
        }
    }
}

/// Position of the first unplanned entry of civilian `e`.
pub open spec fn unplanned_pos(unplanned: Seq<(u64, TilePos)>, e: u64) -> Option<TilePos>
    decreases unplanned.len(),
{
    if unplanned.len() == 0 {
        None
    } else if unplanned[0].0 == e {
        Some(unplanned[0].1)
    } else {
        unplanned_pos(unplanned.drop_first(), e)
    }
}

/// Where a civilian with task `t`, now at `current`, will stand next turn.
pub open spec fn task_end_tile(t: CivilianTask, current: TilePos) -> TilePos {
    match t {
        CivilianTask::MoveTo { target } => target,
        CivilianTask::BuildRailTo { target } => target,
        _ => current,
    }
}

/// The unplanned entries of civilians other than `e`.
pub open spec fn without_entity(unplanned: Seq<(u64, TilePos)>, e: u64) -> Seq<(u64, TilePos)>
    decreases unplanned.len(),
{
    if unplanned.len() == 0 {
        Seq::empty()
    } else {
        let prev = without_entity(unplanned.drop_last(), e);
        if unplanned.last().0 != e {
            prev.push(unplanned.last())
        } else {
            prev
        }
    }
}

/// Planning state: tasks given so far, civilians still free, reserved tiles.
pub type PlanState = (Seq<(u64, CivilianTask)>, Seq<(u64, TilePos)>, Seq<TilePos>);

/// Gives `goal` to the best free civilian, if any can work toward it.
pub open spec fn goal_step(
    nation: NationSnapshot,
    rails: Set<(TilePos, TilePos)>,
    st: PlanState,
    goal: NationGoal,
) -> PlanState {
    let (tasks, unplanned, reserved) = st;
    match scan_candidates(nation, rails, reserved, unplanned, goal, idle_civilians(nation.civilians@)).0 {
        None => st,
        Some((e, t)) => match unplanned_pos(unplanned, e) {
            None => st,
            Some(cur) => (
                tasks.push((e, t)),
                without_entity(unplanned, e),
                reserved.push(task_end_tile(t, cur)),
            ),
        },
    }
}

/// Positions of the idle civilians, and whether `t` is one of them.
pub open spec fn idle_at(nation: NationSnapshot, t: TilePos) -> bool {
    exists|i: int|
        0 <= i < idle_civilians(nation.civilians@).len() && (#[trigger] idle_civilians(
            nation.civilians@,
        )[i]).position == t
}

/// Civilian `e` has not acted this turn.
pub open spec fn is_idle_entity(nation: NationSnapshot, e: u64) -> bool {
    exists|i: int|
        0 <= i < idle_civilians(nation.civilians@).len() && (#[trigger] idle_civilians(
            nation.civilians@,
        )[i]).entity == e
}

/// Tiles reserved before any goal is planned: occupied tiles where no idle
/// civilian of the nation stands, then the tiles of its busy civilians.
pub open spec fn initial_reserved(nation: NationSnapshot, occupied: Seq<TilePos>) -> Seq<TilePos> {
    tiles_without_idle(nation, occupied) + busy_positions(nation, nation.civilians@)
}

/// The tiles of `occupied` where no idle civilian of the nation stands.
pub open spec fn tiles_without_idle(nation: NationSnapshot, occupied: Seq<TilePos>) -> Seq<TilePos>
    decreases occupied.len(),
{
    if occupied.len() == 0 {
        Seq::empty()
    } else {
        let prev = tiles_without_idle(nation, occupied.drop_last());
        if idle_at(nation, occupied.last()) {
            prev
        } else {
            prev.push(occupied.last())
        }
    }
}

/// Positions of the civilians of `civs` that are not idle.
pub open spec fn busy_positions(nation: NationSnapshot, civs: Seq<CivilianSnapshot>) -> Seq<TilePos>
    decreases civs.len(),
{
    if civs.len() == 0 {
        Seq::empty()
    } else {
        let prev = busy_positions(nation, civs.drop_last());
        if is_idle_entity(nation, civs.last().entity) {
            prev
        } else {
            prev.push(civs.last().position)
        }
    }
}

/// Each idle civilian with its position.
pub open spec fn idle_entries(civs: Seq<CivilianSnapshot>) -> Seq<(u64, TilePos)>
    decreases civs.len(),
{
    if civs.len() == 0 {
        Seq::empty()
    } else {
        idle_entries(civs.drop_last()).push((civs.last().entity, civs.last().position))
    }
}

/// An `Idle` task for each unplanned civilian.
pub open spec fn idle_tasks(unplanned: Seq<(u64, TilePos)>) -> Seq<(u64, CivilianTask)>
    decreases unplanned.len(),
{
    if unplanned.len() == 0 {
        Seq::empty()
    } else {
        idle_tasks(unplanned.drop_last()).push((unplanned.last().0, CivilianTask::Idle))
    }
}

/// The planning state after the goals in turn.
pub open spec fn plan_goals(
    nation: NationSnapshot,
    rails: Set<(TilePos, TilePos)>,
    occupied: Seq<TilePos>,
    goals: Seq<NationGoal>,
) -> PlanState
    decreases goals.len(),
{
    if goals.len() == 0 {
        (
            Seq::empty(),
            idle_entries(idle_civilians(nation.civilians@)),
            initial_reserved(nation, occupied),
        )
    } else {
        goal_step(nation, rails, plan_goals(nation, rails, occupied, goals.drop_last()), goals.last())
    }
}

/// The tasks of all civilians that have not acted: those picked for goals,
/// in goal order, then `Idle` for the rest.
pub open spec fn assignment(
    nation: NationSnapshot,
    rails: Set<(TilePos, TilePos)>,
    occupied: Seq<TilePos>,
    goals: Seq<NationGoal>,
) -> Seq<(u64, CivilianTask)> {
    let st = plan_goals(nation, rails, occupied, goals);
    st.0 + idle_tasks(st.1)
}

/// No two civilians of the roster share an entity.
pub open spec fn distinct_entities(civs: Seq<CivilianSnapshot>) -> bool {
    forall|i: int, j: int|
        0 <= i < civs.len() && 0 <= j < civs.len() && i != j ==> (#[trigger] civs[i]).entity
            != (#[trigger] civs[j]).entity
}

fn candidate_for(
    nation: &NationSnapshot,
    rails: &Rails,
    avoid: &Vec<TilePos>,
    c: CivilianSnapshot,
    goal: NationGoal,
) -> (r: Option<CivilianTask>)
    ensures
        r == candidate_task(*nation, rails@, avoid@, c, goal),
{
    match goal {
        NationGoal::BuildDepotAt { tile } => if c.kind == CivilianKind::Engineer {
            plan_engineer_depot_task(nation, avoid, c.position, tile)
        } else {
            None
        },
        NationGoal::ConnectDepot { tile } => if c.kind == CivilianKind::Engineer {
            plan_engineer_rail_task(nation, rails, avoid, c.position, tile)
        } else {
            None
        },
        NationGoal::ProspectTile { tile } => if c.kind == CivilianKind::Prospector {
            if c.position == tile || crate::map::is_adjacent(c.position, tile) {
                Some(CivilianTask::ProspectTile { target: tile })
            } else if !tile_listed(avoid, tile) {
                Some(CivilianTask::MoveTo { target: tile })
            } else {
                None
            }
        } else {
            None
        },
        NationGoal::ImproveTile { tile, civilian_kind } => if c.kind == civilian_kind {
            if c.position == tile || crate::map::is_adjacent(c.position, tile) {
                Some(CivilianTask::ImproveTile { target: tile })
            } else if !tile_listed(avoid, tile) {
                Some(CivilianTask::MoveTo { target: tile })
            } else {
                None
            }
        } else {
            None
        },
        _ => None,
    }
}

fn avoid_tiles_for(reserved: &Vec<TilePos>, unplanned: &Vec<(u64, TilePos)>, me: u64) -> (r: Vec<TilePos>)
    ensures
        r@ == avoid_for(reserved@, unplanned@, me),
{
    let mut r: Vec<TilePos> = Vec::new();
    let mut i: usize = 0;
    while i < reserved.len()
        invariant
            i <= reserved@.len(),
            r@ == reserved@.take(i as int),
        decreases reserved@.len() - i,
    {
        r.push(reserved[i]);
        i = i + 1;
        assert(r@ =~= reserved@.take(i as int));
    }
    assert(reserved@.take(i as int) =~= reserved@);
    let mut k: usize = 0;
    while k < unplanned.len()
        invariant
            k <= unplanned@.len(),
            r@ == reserved@ + others_positions(unplanned@.take(k as int), me),
        decreases unplanned@.len() - k,
    {
        let u = unplanned[k];
        assert(unplanned@.take(k + 1).drop_last() =~= unplanned@.take(k as int));
        if u.0 != me {
            r.push(u.1);
        }
        k = k + 1;
        assert(r@ =~= reserved@ + others_positions(unplanned@.take(k as int), me));
    }
    assert(unplanned@.take(k as int) =~= unplanned@);
    r
}

fn find_unplanned(unplanned: &Vec<(u64, TilePos)>, e: u64) -> (r: Option<TilePos>)
    ensures
        r == unplanned_pos(unplanned@, e),
        r is Some <==> is_unplanned(unplanned@, e),
{
    let mut i: usize = 0;
    assert(unplanned@.skip(0) =~= unplanned@);
    while i < unplanned.len()
        invariant
            i <= unplanned@.len(),
            unplanned_pos(unplanned@, e) == unplanned_pos(unplanned@.skip(i as int), e),
            forall|k: int| 0 <= k < i ==> (#[trigger] unplanned@[k]).0 != e,
        decreases unplanned@.len() - i,
    {
        assert(unplanned@.skip(i as int).drop_first() =~= unplanned@.skip(i + 1));
        if unplanned[i].0 == e {
            return Some(unplanned[i].1);
        }
        i = i + 1;
    }
    proof {
        assert(unplanned@.skip(i as int).len() == 0);
    }
    None
}

fn scan_civilians(
    nation: &NationSnapshot,
    rails: &Rails,
    reserved: &Vec<TilePos>,
    unplanned: &Vec<(u64, TilePos)>,
    goal: NationGoal,
    civs: &Vec<CivilianSnapshot>,
) -> (r: (Option<(u64, CivilianTask)>, u32, bool))
    ensures
        r == scan_candidates(*nation, rails@, reserved@, unplanned@, goal, civs@),
{
    let mut best: Option<(u64, CivilianTask)> = None;
    let mut min_d: u32 = u32::MAX;
    let mut stopped = false;
    let mut i: usize = 0;
    while i < civs.len()
        invariant
            i <= civs@.len(),
            (best, min_d, stopped) == scan_candidates(*nation, rails@, reserved@, unplanned@, goal, civs@.take(i as int)),
        decreases civs@.len() - i,
    {
        let c = civs[i];
        assert(civs@.take(i + 1).drop_last() =~= civs@.take(i as int));
        if !stopped && find_unplanned(unplanned, c.entity).is_some() {
            let avoid = avoid_tiles_for(reserved, unplanned, c.entity);
            match candidate_for(nation, rails, &avoid, c, goal) {
                None => {},
                Some(t) => {
                    let d: u32 = match t {
                        CivilianTask::MoveTo { target } => crate::map::distance(c.position, target) as u32,
                        CivilianTask::BuildRailTo { target } => crate::map::distance(c.position, target) as u32,
                        _ => 0,
                    };
                    if d < min_d {
                        best = Some((c.entity, t));
                        min_d = d;
                        stopped = d == 0;
                    }
                },
            }
        }
        i = i + 1;
    }
    assert(civs@.take(i as int) =~= civs@);
    (best, min_d, stopped)
}

fn without_civilian(unplanned: &Vec<(u64, TilePos)>, e: u64) -> (r: Vec<(u64, TilePos)>)
    ensures
        r@ == without_entity(unplanned@, e),
{
    let mut r: Vec<(u64, TilePos)> = Vec::new();
    let mut i: usize = 0;
    while i < unplanned.len()
        invariant
            i <= unplanned@.len(),
            r@ == without_entity(unplanned@.take(i as int), e),
        decreases unplanned@.len() - i,
    {
        let u = unplanned[i];
        assert(unplanned@.take(i + 1).drop_last() =~= unplanned@.take(i as int));
        if u.0 != e {
            r.push(u);
        }
        i = i + 1;
    }
    assert(unplanned@.take(i as int) =~= unplanned@);
    r
}

fn initial_reserved_tiles(nation: &NationSnapshot, occupied: &Vec<TilePos>, idle: &Vec<CivilianSnapshot>) -> (r: Vec<
    TilePos,
>)
    requires
        idle@ == idle_civilians(nation.civilians@),
    ensures
        r@ == initial_reserved(*nation, occupied@),
{
    let mut r: Vec<TilePos> = Vec::new();
    let mut i: usize = 0;
    while i < occupied.len()
        invariant
            i <= occupied@.len(),
            idle@ == idle_civilians(nation.civilians@),
            r@ == tiles_without_idle(*nation, occupied@.take(i as int)),
        decreases occupied@.len() - i,
    {
        let t = occupied[i];
        assert(occupied@.take(i + 1).drop_last() =~= occupied@.take(i as int));
        let mut found = false;
        let mut k: usize = 0;
        while k < idle.len()
            invariant
                k <= idle@.len(),
                idle@ == idle_civilians(nation.civilians@),
                found <==> exists|j: int| 0 <= j < k && (#[trigger] idle@[j]).position == t,
            decreases idle@.len() - k,
        {
            if idle[k].position == t {
                found = true;
            }
            k = k + 1;
        }
        if !found {
            r.push(t);
        }
        i = i + 1;
    }
    assert(occupied@.take(i as int) =~= occupied@);
    let ghost base = r@;
    let mut c: usize = 0;
    while c < nation.civilians.len()
        invariant
            c <= nation.civilians@.len(),
            idle@ == idle_civilians(nation.civilians@),
            r@ == base + busy_positions(*nation, nation.civilians@.take(c as int)),
        decreases nation.civilians@.len() - c,
    {
        let civ = nation.civilians[c];
        assert(nation.civilians@.take(c + 1).drop_last() =~= nation.civilians@.take(c as int));
        let mut found = false;
        let mut k: usize = 0;
        while k < idle.len()
            invariant
                k <= idle@.len(),
                idle@ == idle_civilians(nation.civilians@),
                found <==> exists|j: int| 0 <= j < k && (#[trigger] idle@[j]).entity == civ.entity,
            decreases idle@.len() - k,
        {
            if idle[k].entity == civ.entity {
                found = true;
            }
            k = k + 1;
        }
        if !found {
            r.push(civ.position);
        }
        c = c + 1;
        assert(r@ =~= base + busy_positions(*nation, nation.civilians@.take(c as int)));
    }
    assert(nation.civilians@.take(c as int) =~= nation.civilians@);
    r
}

/// No two unplanned entries belong to the same civilian.
pub open spec fn distinct_entries(u: Seq<(u64, TilePos)>) -> bool {
    forall|i: int, j: int|
        0 <= i < u.len() && 0 <= j < u.len() && i != j ==> (#[trigger] u[i]).0 != (#[trigger] u[j]).0
}

proof fn lemma_without_entity(u: Seq<(u64, TilePos)>, e: u64)
    ensures
        forall|x: u64| #[trigger] is_unplanned(without_entity(u, e), x) ==> is_unplanned(u, x) && x != e,
        distinct_entries(u) ==> distinct_entries(without_entity(u, e)),
    decreases u.len(),
{
    if u.len() > 0 {
        let init = u.drop_last();
        lemma_without_entity(init, e);
        let w = without_entity(init, e);
        assert forall|x: u64| is_unplanned(without_entity(u, e), x) implies is_unplanned(u, x) && x != e by {
            let wu = without_entity(u, e);
            let i = choose|i: int| 0 <= i < wu.len() && (#[trigger] wu[i]).0 == x;
            if i < w.len() {
                assert(wu[i] == w[i]);
                assert(is_unplanned(w, x));
                let j = choose|j: int| 0 <= j < init.len() && (#[trigger] init[j]).0 == x;
                assert(u[j] == init[j]);
            } else {
                assert(u[u.len() - 1].0 == x);
            }
        }
        if distinct_entries(u) {
            assert forall|i: int, j: int| 0 <= i < init.len() && 0 <= j < init.len() && i != j implies (#[trigger] init[i]).0
                != (#[trigger] init[j]).0 by {
                assert(init[i] == u[i] && init[j] == u[j]);
            }
            if u.last().0 != e {
                let wu = without_entity(u, e);
                assert forall|i: int, j: int| 0 <= i < wu.len() && 0 <= j < wu.len() && i != j implies (#[trigger] wu[i]).0
                    != (#[trigger] wu[j]).0 by {
                    if i == w.len() || j == w.len() {
                        let k = if i == w.len() { j } else { i };
                        if 0 <= k < w.len() && wu[k].0 == u.last().0 {
                            assert(wu[k] == w[k]);
                            assert(is_unplanned(w, u.last().0));
                            let m = choose|m: int| 0 <= m < init.len() && (#[trigger] init[m]).0 == u.last().0;
                            assert(u[m] == init[m]);
                            assert(u[u.len() - 1] == u.last());
                        }
                    } else {
                        assert(wu[i] == w[i] && wu[j] == w[j]);
                    }
                }
            }
        }
    }
}

proof fn lemma_idle_entries(civs: Seq<CivilianSnapshot>)
    ensures
        forall|x: u64|
            #[trigger] is_unplanned(idle_entries(idle_civilians(civs)), x) ==> exists|i: int|
                0 <= i < civs.len() && (#[trigger] civs[i]).entity == x,
        distinct_entities(civs) ==> distinct_entries(idle_entries(idle_civilians(civs))),
    decreases civs.len(),
{
    if civs.len() > 0 {
        let init = civs.drop_last();
        let c = civs.last();
        lemma_idle_entries(init);
        let w = idle_entries(idle_civilians(init));
        let wc = idle_entries(idle_civilians(civs));
        let ic = idle_civilians(civs);
        if !c.has_moved {
            assert(ic == idle_civilians(init).push(c));
            assert(ic.drop_last() =~= idle_civilians(init));
            assert(wc == w.push((c.entity, c.position)));
        } else {
            assert(wc == w);
        }
        assert forall|x: u64| is_unplanned(wc, x) implies exists|i: int|
            0 <= i < civs.len() && (#[trigger] civs[i]).entity == x by {
            let i = choose|i: int| 0 <= i < wc.len() && (#[trigger] wc[i]).0 == x;
            if !c.has_moved && i == w.len() {
                assert(civs[civs.len() - 1].entity == x);
            } else {
                assert(wc[i] == w[i]);
                assert(is_unplanned(w, x));
                let j = choose|j: int| 0 <= j < init.len() && (#[trigger] init[j]).entity == x;
                assert(civs[j] == init[j]);
            }
        }
        if distinct_entities(civs) {
            assert forall|i: int, j: int| 0 <= i < init.len() && 0 <= j < init.len() && i != j implies (#[trigger] init[i]).entity
                != (#[trigger] init[j]).entity by {
                assert(init[i] == civs[i] && init[j] == civs[j]);
            }
            assert forall|i: int, j: int| 0 <= i < wc.len() && 0 <= j < wc.len() && i != j implies (#[trigger] wc[i]).0
                != (#[trigger] wc[j]).0 by {
                if !c.has_moved && (i == w.len() || j == w.len()) {
                    let k = if i == w.len() { j } else { i };
                    if 0 <= k < w.len() && wc[k].0 == c.entity {
                        assert(wc[k] == w[k]);
                        assert(is_unplanned(w, c.entity));
                        let m = choose|m: int| 0 <= m < init.len() && (#[trigger] init[m]).entity == c.entity;
                        assert(civs[m] == init[m]);
                        assert(civs[civs.len() - 1] == c);
                    }
                } else {
                    assert(wc[i] == w[i] && wc[j] == w[j]);
                }
            }
        }
    }
}

proof fn lemma_idle_tasks(u: Seq<(u64, TilePos)>)
    ensures
        forall|x: u64| #[trigger] has_task(idle_tasks(u), x) ==> is_unplanned(u, x),
        distinct_entries(u) ==> distinct_civilians(idle_tasks(u)),
        idle_tasks(u).len() == u.len(),
        forall|i: int| 0 <= i < u.len() ==> (#[trigger] idle_tasks(u)[i]).0 == u[i].0,
    decreases u.len(),
{
    if u.len() > 0 {
        lemma_idle_tasks(u.drop_last());
        let t = idle_tasks(u);
        let ti = idle_tasks(u.drop_last());
        assert forall|i: int| 0 <= i < u.len() implies (#[trigger] idle_tasks(u)[i]).0 == u[i].0 by {
            if i < u.len() - 1 {
                assert(t[i] == ti[i]);
                assert(u.drop_last()[i] == u[i]);
            }
        }
        assert forall|x: u64| has_task(t, x) implies is_unplanned(u, x) by {
            let i = choose|i: int| 0 <= i < t.len() && (#[trigger] t[i]).0 == x;
            assert(u[i].0 == x);
        }
        if distinct_entries(u) {
            assert forall|i: int, j: int| 0 <= i < t.len() && 0 <= j < t.len() && i != j implies (#[trigger] t[i]).0
                != (#[trigger] t[j]).0 by {
                assert(t[i].0 == u[i].0 && t[j].0 == u[j].0);
            }
        }
    }
}

/// Gives each goal, most urgent first, to the nearest free civilian that can
/// work toward it (the first of equals; one acting on the spot is taken at
/// once), keeping clear of the tiles other units hold or will hold; the
/// civilians left over are idle. See `assignment`.
pub fn assign_civilians_to_goals(
    nation: &NationSnapshot,
    occupied_tiles: &Vec<TilePos>,
    rails: &Rails,
    goals: &Vec<NationGoal>,
) -> (tasks: Vec<(u64, CivilianTask)>)
    ensures
        tasks@ == assignment(*nation, rails@, occupied_tiles@, goals@),
        distinct_entities(nation.civilians@) ==> distinct_civilians(tasks@),
{
    let idle = nation.available_civilians();
    let mut unplanned: Vec<(u64, TilePos)> = Vec::new();
    let mut i: usize = 0;
    while i < idle.len()
        invariant
            i <= idle@.len(),
            unplanned@ == idle_entries(idle@.take(i as int)),
        decreases idle@.len() - i,
    {
        assert(idle@.take(i + 1).drop_last() =~= idle@.take(i as int));
        unplanned.push((idle[i].entity, idle[i].position));
        i = i + 1;
    }
    assert(idle@.take(i as int) =~= idle@);
    proof {
        lemma_idle_entries(nation.civilians@);
    }
    let ghost distinct_roster = distinct_entities(nation.civilians@);
    let mut reserved = initial_reserved_tiles(nation, occupied_tiles, &idle);
    let mut tasks: Vec<(u64, CivilianTask)> = Vec::new();
    let mut g: usize = 0;
    while g < goals.len()
        invariant
            g <= goals@.len(),
            idle@ == idle_civilians(nation.civilians@),
            (tasks@, unplanned@, reserved@) == plan_goals(*nation, rails@, occupied_tiles@, goals@.take(g as int)),
            distinct_roster == distinct_entities(nation.civilians@),
            distinct_roster ==> distinct_civilians(tasks@) && distinct_entries(unplanned@),
            forall|x: u64| has_task(tasks@, x) ==> !is_unplanned(unplanned@, x),
        decreases goals@.len() - g,
    {
        let goal = goals[g];
        assert(goals@.take(g + 1).drop_last() =~= goals@.take(g as int));
        let (best, _d, _stop) = scan_civilians(nation, rails, &reserved, &unplanned, goal, &idle);
        match best {
            None => {},
            Some((e, t)) => {
                match find_unplanned(&unplanned, e) {
                    None => {},
                    Some(cur) => {
                        let ghost old_tasks = tasks@;
                        let ghost old_unplanned = unplanned@;
                        proof {
                            lemma_without_entity(unplanned@, e);
                        }
                        tasks.push((e, t));
                        unplanned = without_civilian(&unplanned, e);
                        proof {
                            assert forall|x: u64| has_task(tasks@, x) implies !is_unplanned(unplanned@, x) by {
                                let i = choose|i: int| 0 <= i < tasks@.len() && (#[trigger] tasks@[i]).0 == x;
                                if i < old_tasks.len() {
                                    assert(old_tasks[i] == tasks@[i]);
                                    assert(has_task(old_tasks, x));
                                }
                            }
                            if distinct_roster {
                                assert forall|i: int, j: int|
                                    0 <= i < tasks@.len() && 0 <= j < tasks@.len() && i != j implies (#[trigger] tasks@[i]).0
                                        != (#[trigger] tasks@[j]).0 by {
                                    if i < old_tasks.len() && j < old_tasks.len() {
                                        assert(old_tasks[i] == tasks@[i] && old_tasks[j] == tasks@[j]);
                                    } else {
                                        let k = if i < old_tasks.len() { i } else { j };
                                        if k < old_tasks.len() {
                                            assert(old_tasks[k] == tasks@[k]);
                                            assert(has_task(old_tasks, old_tasks[k].0));
                                        }
                                    }
                                }
                            }
                        }
                        let end = match t {
                            CivilianTask::MoveTo { target } => target,
                            CivilianTask::BuildRailTo { target } => target,
                            _ => cur,
                        };
                        reserved.push(end);
                    },
                }
            },
        }
        g = g + 1;
    }
    assert(goals@.take(g as int) =~= goals@);
    let ghost planned = tasks@;
    proof {
        lemma_idle_tasks(unplanned@);
    }
    let mut k: usize = 0;
    while k < unplanned.len()
        invariant
            k <= unplanned@.len(),
            tasks@ == planned + idle_tasks(unplanned@.take(k as int)),
        decreases unplanned@.len() - k,
    {
        assert(unplanned@.take(k + 1).drop_last() =~= unplanned@.take(k as int));
        tasks.push((unplanned[k].0, CivilianTask::Idle));
        k = k + 1;
        assert(tasks@ =~= planned + idle_tasks(unplanned@.take(k as int)));
    }
    assert(unplanned@.take(k as int) =~= unplanned@);
    proof {
        if distinct_roster {
            let it = idle_tasks(unplanned@);
            assert forall|i: int, j: int|
                0 <= i < tasks@.len() && 0 <= j < tasks@.len() && i != j implies (#[trigger] tasks@[i]).0
                    != (#[trigger] tasks@[j]).0 by {
                if i < planned.len() && j < planned.len() {
                    assert(planned[i] == tasks@[i] && planned[j] == tasks@[j]);
                } else if i >= planned.len() && j >= planned.len() {
                    assert(it[i - planned.len()] == tasks@[i] && it[j - planned.len()] == tasks@[j]);
                } else {
                    let a = if i < planned.len() { i } else { j };
                    let b = if i < planned.len() { j } else { i };
                    assert(planned[a] == tasks@[a]);
                    assert(it[b - planned.len()] == tasks@[b]);
                    assert(has_task(planned, planned[a].0));
                    assert(has_task(it, it[b - planned.len()].0));
                }
            }
        }
    }
    tasks
}

/// An order to produce goods.
#[derive(Clone, Copy, Debug, PartialEq, Eq, Structural)]
pub struct ProductionOrder {
    /// Entity id of the producing building (or nation).
    pub building: u64,
    pub output: Good,
    pub qty: u32,
}

/// Output of nation planning: goals and concrete orders.
#[derive(Clone, Debug)]
pub struct NationPlan {
    pub goals: Vec<NationGoal>,
    pub civilian_tasks: Vec<(u64, CivilianTask)>,
    pub market_buys: Vec<(Good, u32)>,
    pub market_sells: Vec<(Good, u32)>,
    pub production_orders: Vec<ProductionOrder>,
    pub civilians_to_hire: Vec<CivilianKind>,
    pub transport_allocations: Vec<(TransportCommodity, u32)>,
}

impl NationPlan {
    /// A plan with nothing in it.
    pub fn new() -> (p: NationPlan)
        ensures
            p.goals@.len() == 0,
            p.civilian_tasks@.len() == 0,
            p.market_buys@.len() == 0,
            p.market_sells@.len() == 0,
            p.production_orders@.len() == 0,
            p.civilians_to_hire@.len() == 0,
            p.transport_allocations@.len() == 0,
    {
        NationPlan {
            goals: Vec::new(),
            civilian_tasks: Vec::new(),
            market_buys: Vec::new(),
            market_sells: Vec::new(),
            production_orders: Vec::new(),
            civilians_to_hire: Vec::new(),
            transport_allocations: Vec::new(),
        }
    }
}

/// Market and production orders read off the goals, in goal order: every
/// purchase, sale and production goal, and the first hiring goal only (one
/// hire per turn).
pub open spec fn goal_orders(goals: Seq<NationGoal>) -> (
    Seq<(Good, u32)>,
    Seq<(Good, u32)>,
    Seq<CivilianKind>,
    Seq<ProductionOrder>,
)
    decreases goals.len(),
{
    if goals.len() == 0 {
        (Seq::empty(), Seq::empty(), Seq::empty(), Seq::empty())
    } else {
        let (b, s, h, p) = goal_orders(goals.drop_last());
        match goals.last() {
            NationGoal::BuyResource { good, qty } => (b.push((good, qty)), s, h, p),
            NationGoal::SellResource { good, qty } => (b, s.push((good, qty)), h, p),
            NationGoal::HireCivilian { kind } => (b, s, if h.len() == 0 {
                h.push(kind)
            } else {
                h
            }, p),
            NationGoal::ProduceGoods { building, good, qty } => (
                b,
                s,
                h,
                p.push(ProductionOrder { building, output: good, qty }),
            ),
            _ => (b, s, h, p),
        }
    }
}

/// Appends to `plan` the orders its ranked goals call for; see `goal_orders`.
pub fn orders_from_goals(goals: &Vec<NationGoal>, plan: &mut NationPlan)
    ensures
        final(plan).market_buys@ == old(plan).market_buys@ + goal_orders(goals@).0,
        final(plan).market_sells@ == old(plan).market_sells@ + goal_orders(goals@).1,
        old(plan).civilians_to_hire@.len() == 0 ==> final(plan).civilians_to_hire@ == goal_orders(goals@).2,
        old(plan).civilians_to_hire@.len() > 0 ==> final(plan).civilians_to_hire@ == old(plan).civilians_to_hire@,
        final(plan).production_orders@ == old(plan).production_orders@ + goal_orders(goals@).3,
        final(plan).goals@ == old(plan).goals@,
        final(plan).civilian_tasks@ == old(plan).civilian_tasks@,
        final(plan).transport_allocations@ == old(plan).transport_allocations@,
{
    let mut i: usize = 0;
    while i < goals.len()
        invariant
            i <= goals@.len(),
            plan.market_buys@ == old(plan).market_buys@ + goal_orders(goals@.take(i as int)).0,
            plan.market_sells@ == old(plan).market_sells@ + goal_orders(goals@.take(i as int)).1,
            old(plan).civilians_to_hire@.len() == 0 ==> plan.civilians_to_hire@ == goal_orders(goals@.take(i as int)).2,
            old(plan).civilians_to_hire@.len() > 0 ==> plan.civilians_to_hire@ == old(plan).civilians_to_hire@,
            plan.production_orders@ == old(plan).production_orders@ + goal_orders(goals@.take(i as int)).3,
            plan.goals@ == old(plan).goals@,
            plan.civilian_tasks@ == old(plan).civilian_tasks@,
            plan.transport_allocations@ == old(plan).transport_allocations@,
        decreases goals@.len() - i,
    {
        assert(goals@.take(i + 1).drop_last() =~= goals@.take(i as int));
        match goals[i] {
            NationGoal::BuyResource { good, qty } => {
                plan.market_buys.push((good, qty));
            },
            NationGoal::SellResource { good, qty } => {
                plan.market_sells.push((good, qty));
            },
            NationGoal::HireCivilian { kind } => {
                if plan.civilians_to_hire.len() == 0 {
                    plan.civilians_to_hire.push(kind);
                }
            },
            NationGoal::ProduceGoods { building, good, qty } => {
                plan.production_orders.push(ProductionOrder { building, output: good, qty });
            },
            _ => {},
        }
        i = i + 1;
        assert(plan.market_buys@ =~= old(plan).market_buys@ + goal_orders(goals@.take(i as int)).0);
        assert(plan.market_sells@ =~= old(plan).market_sells@ + goal_orders(goals@.take(i as int)).1);
        assert(plan.production_orders@ =~= old(plan).production_orders@ + goal_orders(goals@.take(i as int)).3);
    }
    assert(goals@.take(i as int) =~= goals@);
}

/// The capacity of the first listed building of `kind`.
pub open spec fn building_capacity(buildings: Seq<BuildingCapacity>, kind: BuildingKind) -> Option<u32>
    decreases buildings.len(),
{
    if buildings.len() == 0 {
        None
    } else if buildings[0].kind == kind {
        Some(buildings[0].capacity)
    } else {
        building_capacity(buildings.drop_first(), kind)
    }
}

fn find_building(buildings: &Vec<BuildingCapacity>, kind: BuildingKind) -> (r: Option<u32>)
    ensures
        r == building_capacity(buildings@, kind),
{
    let mut i: usize = 0;
    assert(buildings@.skip(0) =~= buildings@);
    while i < buildings.len()
        invariant
            i <= buildings@.len(),
            building_capacity(buildings@, kind) == building_capacity(buildings@.skip(i as int), kind),
        decreases buildings@.len() - i,
    {
        assert(buildings@.skip(i as int).drop_first() =~= buildings@.skip(i + 1));
        if buildings[i].kind == kind {
            return Some(buildings[i].capacity);
        }
        i = i + 1;
    }
    None
}

/// `a + b`, staying at `u32::MAX` once reached.
pub open spec fn sat_add(a: u32, b: u32) -> u32 {
    if a + b > u32::MAX {
        u32::MAX
    } else {
        (a + b) as u32
    }
}

/// `a * b`, staying at `u32::MAX` once reached.
pub open spec fn sat_mul(a: u32, b: u32) -> u32 {
    if a * b > u32::MAX {
        u32::MAX
    } else {
        (a * b) as u32
    }
}

/// `a - b`, stopping at 0.
pub open spec fn sat_sub(a: u32, b: u32) -> u32 {
    if a < b {
        0
    } else {
        (a - b) as u32
    }
}

/// Units of `good` the nation may use now.
pub open spec fn free_stock(nation: NationSnapshot, good: Good) -> u32 {
    match stock_entry(nation.stockpile@, good) {
        Some(e) => e.available,
        None => 0,
    }
}

/// The hardware chain: when the nation has a steel mill and metal works and
/// hardware sells above the cost of two steel, make up to 2 hardware (as the
/// metal works allow) and sell it; when short of the two steel per hardware
/// and steel sells above iron plus coal, also make the missing steel (as the
/// mill allows) and buy the iron and coal it lacks for it. Returns the
/// production orders, purchases and sales.
pub open spec fn value_added_trade(nation: NationSnapshot, market: MarketSnapshot) -> (
    Seq<ProductionOrder>,
    Seq<(Good, u32)>,
    Seq<(Good, u32)>,
) {
    let none = (Seq::<ProductionOrder>::empty(), Seq::<(Good, u32)>::empty(), Seq::<(Good, u32)>::empty());
    match (
        building_capacity(nation.buildings@, BuildingKind::SteelMill),
        building_capacity(nation.buildings@, BuildingKind::MetalWorks),
    ) {
        (Some(mill), Some(works)) => {
            let iron = listed_price(market.prices@, Good::Iron);
            let coal = listed_price(market.prices@, Good::Coal);
            let steel = listed_price(market.prices@, Good::Steel);
            let hardware = listed_price(market.prices@, Good::Hardware);
            let desired: u32 = if works < 2 {
                works
            } else {
                2
            };
            if hardware <= sat_mul(steel, 2) || desired == 0 {
                none
            } else {
                let shortfall = sat_sub(sat_mul(desired, 2), free_stock(nation, Good::Steel));
                let hw = ProductionOrder { building: nation.entity, output: Good::Hardware, qty: desired };
                if shortfall > 0 && steel > sat_add(iron, coal) {
                    let batches: u32 = if shortfall < mill {
                        shortfall
                    } else {
                        mill
                    };
                    let iron_buy = sat_sub(batches, free_stock(nation, Good::Iron));
                    let coal_buy = sat_sub(batches, free_stock(nation, Good::Coal));
                    let b1 = if iron_buy > 0 {
                        seq![(Good::Iron, iron_buy)]
                    } else {
                        Seq::empty()
                    };
                    let b2 = if coal_buy > 0 {
                        b1.push((Good::Coal, coal_buy))
                    } else {
                        b1
                    };
                    (
                        seq![ProductionOrder { building: nation.entity, output: Good::Steel, qty: batches }, hw],
                        b2,
                        seq![(Good::Hardware, desired)],
                    )
                } else {
                    (seq![hw], Seq::empty(), seq![(Good::Hardware, desired)])
                }
            }
        },
        _ => none,
    }
}

fn double_saturating(x: u32) -> (r: u32)
    ensures
        r == sat_mul(x, 2),
{
    if x > u32::MAX / 2 {
        u32::MAX
    } else {
        x * 2
    }
}

/// Appends to `plan` the orders of the hardware chain; see `value_added_trade`.
pub fn generate_value_added_trade(nation: &NationSnapshot, market: &MarketSnapshot, plan: &mut NationPlan)
    ensures
        final(plan).production_orders@ == old(plan).production_orders@ + value_added_trade(*nation, *market).0,
        final(plan).market_buys@ == old(plan).market_buys@ + value_added_trade(*nation, *market).1,
        final(plan).market_sells@ == old(plan).market_sells@ + value_added_trade(*nation, *market).2,
        final(plan).goals@ == old(plan).goals@,
        final(plan).civilian_tasks@ == old(plan).civilian_tasks@,
        final(plan).civilians_to_hire@ == old(plan).civilians_to_hire@,
        final(plan).transport_allocations@ == old(plan).transport_allocations@,
{
    let ghost va = value_added_trade(*nation, *market);
    let mill = match find_building(&nation.buildings, BuildingKind::SteelMill) {
        Some(c) => c,
        None => {
            assert(old(plan).production_orders@ + va.0 =~= old(plan).production_orders@);
            assert(old(plan).market_buys@ + va.1 =~= old(plan).market_buys@);
            assert(old(plan).market_sells@ + va.2 =~= old(plan).market_sells@);
            return;
        },
    };
    let works = match find_building(&nation.buildings, BuildingKind::MetalWorks) {
        Some(c) => c,
        None => {
            assert(old(plan).production_orders@ + va.0 =~= old(plan).production_orders@);
            assert(old(plan).market_buys@ + va.1 =~= old(plan).market_buys@);
            assert(old(plan).market_sells@ + va.2 =~= old(plan).market_sells@);
            return;
        },
    };
    let iron = market.price_for(Good::Iron);
    let coal = market.price_for(Good::Coal);
    let steel = market.price_for(Good::Steel);
    let hardware = market.price_for(Good::Hardware);
    let steel_input_cost = iron.saturating_add(coal);
    let hardware_input_cost = double_saturating(steel);
    let desired: u32 = if works < 2 {
        works
    } else {
        2
    };
    if hardware <= hardware_input_cost || desired == 0 {
        assert(old(plan).production_orders@ + va.0 =~= old(plan).production_orders@);
        assert(old(plan).market_buys@ + va.1 =~= old(plan).market_buys@);
        assert(old(plan).market_sells@ + va.2 =~= old(plan).market_sells@);
        return;
    }
    let steel_needed = double_saturating(desired);
    let available_steel = nation.available_amount(Good::Steel);
    let shortfall = steel_needed.saturating_sub(available_steel);
    if shortfall > 0 && steel > steel_input_cost {
        let batches: u32 = if shortfall < mill {
            shortfall
        } else {
            mill
        };
        plan.production_orders.push(ProductionOrder { building: nation.entity, output: Good::Steel, qty: batches });
        let iron_have = nation.available_amount(Good::Iron);
        let coal_have = nation.available_amount(Good::Coal);
        let iron_buy = batches.saturating_sub(iron_have);
        let coal_buy = batches.saturating_sub(coal_have);
        if iron_buy > 0 {
            plan.market_buys.push((Good::Iron, iron_buy));
        }
        if coal_buy > 0 {
            plan.market_buys.push((Good::Coal, coal_buy));
        }
    }
    plan.production_orders.push(ProductionOrder { building: nation.entity, output: Good::Hardware, qty: desired });
    plan.market_sells.push((Good::Hardware, desired));
    assert(plan.production_orders@ =~= old(plan).production_orders@ + va.0);
    assert(plan.market_buys@ =~= old(plan).market_buys@ + va.1);
    assert(plan.market_sells@ =~= old(plan).market_sells@ + va.2);
}

/// The transport capacity the AI asks for, per commodity.
pub open spec fn transport_wishes() -> Seq<(TransportCommodity, u32)> {
    seq![
        (TransportCommodity::Grain, 10u32),
        (TransportCommodity::Fruit, 8u32),
        (TransportCommodity::Fiber, 8u32),
        (TransportCommodity::Meat, 8u32),
        (TransportCommodity::Timber, 10u32),
        (TransportCommodity::Coal, 10u32),
        (TransportCommodity::Iron, 10u32),
        (TransportCommodity::Precious, 5u32),
        (TransportCommodity::Oil, 8u32),
        (TransportCommodity::Fabric, 5u32),
        (TransportCommodity::Lumber, 5u32),
        (TransportCommodity::Paper, 5u32),
        (TransportCommodity::Steel, 5u32),
        (TransportCommodity::Fuel, 5u32),
        (TransportCommodity::Clothing, 3u32),
        (TransportCommodity::Furniture, 3u32),
        (TransportCommodity::Hardware, 3u32),
        (TransportCommodity::Armaments, 3u32),
        (TransportCommodity::CannedFood, 3u32),
        (TransportCommodity::Horses, 2u32),
    ]
}

/// Appends the AI's standing transport allocations to `plan`; see
/// `transport_wishes`.
pub fn generate_transport_allocations(plan: &mut NationPlan)
    ensures
        final(plan).transport_allocations@ == old(plan).transport_allocations@ + transport_wishes(),
        final(plan).goals@ == old(plan).goals@,
        final(plan).civilian_tasks@ == old(plan).civilian_tasks@,
        final(plan).market_buys@ == old(plan).market_buys@,
        final(plan).market_sells@ == old(plan).market_sells@,
        final(plan).production_orders@ == old(plan).production_orders@,
        final(plan).civilians_to_hire@ == old(plan).civilians_to_hire@,
{
    let t = &mut plan.transport_allocations;
    t.push((TransportCommodity::Grain, 10));
    t.push((TransportCommodity::Fruit, 8));
    t.push((TransportCommodity::Fiber, 8));
    t.push((TransportCommodity::Meat, 8));
    t.push((TransportCommodity::Timber, 10));
    t.push((TransportCommodity::Coal, 10));
    t.push((TransportCommodity::Iron, 10));
    t.push((TransportCommodity::Precious, 5));
    t.push((TransportCommodity::Oil, 8));
    t.push((TransportCommodity::Fabric, 5));
    t.push((TransportCommodity::Lumber, 5));
    t.push((TransportCommodity::Paper, 5));
    t.push((TransportCommodity::Steel, 5));
    t.push((TransportCommodity::Fuel, 5));
    t.push((TransportCommodity::Clothing, 3));
    t.push((TransportCommodity::Furniture, 3));
    t.push((TransportCommodity::Hardware, 3));
    t.push((TransportCommodity::Armaments, 3));
    t.push((TransportCommodity::CannedFood, 3));
    t.push((TransportCommodity::Horses, 2));
    assert(plan.transport_allocations@ =~= old(plan).transport_allocations@ + transport_wishes());
}

} // verus!
