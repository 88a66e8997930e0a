//! Carrying out civilian orders and advancing their multi-turn jobs.
//!
//! Each step is stated for one unit by a spec function; the functions that
//! run a step over a whole roster apply it to every unit in turn.

use crate::civilians::types::{
    kind_improvement_job, kind_predicate, predicate_accepts, job_duration, ActionTurn, Civilian,
    CivilianId, CivilianJob, CivilianKind, CivilianOrder, CivilianOrderKind, JobType,
    PreviousPosition, ProspectingKnowledge,
};
use crate::civilians::validation::{command_outcome, validate_command, CivilianCommandError};
use crate::map::{
    edge_of, tile_owned_by, tile_owned_by_nation, MapTile, ProspectRecord, Province, Rails,
    TileGrid, TilePos,
};
use crate::economy::{saturate_i64, Treasury};
use crate::resources::{is_mineral, level_rank, TileResource};
use vstd::prelude::*;

verus! {

/// A civilian together with its optional pending order, job, and undo data.
#[derive(Clone, Copy, Debug, PartialEq, Eq, Structural)]
pub struct CivilianUnit {
    pub civilian: Civilian,
    pub order: Option<CivilianOrder>,
    pub job: Option<CivilianJob>,
    pub previous_position: Option<PreviousPosition>,
    pub action_turn: Option<ActionTurn>,
}

impl CivilianUnit {
    /// A unit with no order, job or undo data.
    pub fn new(civilian: Civilian) -> (u: CivilianUnit)
        ensures
            u.civilian == civilian,
            u.order.is_none(),
            u.job.is_none(),
            u.previous_position.is_none(),
            u.action_turn.is_none(),
    {
        CivilianUnit {
            civilian,
            order: None,
            job: None,
            previous_position: None,
            action_turn: None,
        }
    }
}

/// Kind of infrastructure an engineer asks to have placed.
#[derive(Clone, Copy, Debug, PartialEq, Eq, Structural)]
pub enum ImprovementKind {
    Rail,
    Depot,
    Port,
}

/// Request to place infrastructure between `a` and `b` (the same tile for depots and ports).
#[derive(Clone, Copy, Debug, PartialEq, Eq, Structural)]
pub struct PlaceImprovement {
    pub a: TilePos,
    pub b: TilePos,
    pub kind: ImprovementKind,
    pub engineer: Option<CivilianId>,
}

/// The unit with its pending order removed.
pub open spec fn without_order(u: CivilianUnit) -> CivilianUnit {
    CivilianUnit { order: None, ..u }
}

/// The unit after it acts this turn: it stands on `to`, has moved, its order
/// is consumed, it remembers where it came from and when, and `job` (if any)
/// becomes its job.
pub open spec fn act(u: CivilianUnit, to: TilePos, job: Option<CivilianJob>, turn: u32) -> CivilianUnit {
    CivilianUnit {
        civilian: Civilian { position: to, has_moved: true, ..u.civilian },
        order: None,
        job: match job {
            Some(j) => Some(j),
            None => u.job,
        },
        previous_position: Some(PreviousPosition(u.civilian.position)),
        action_turn: Some(ActionTurn(turn)),
    }
}

/// A fresh job of the given type at `target`.
pub open spec fn new_job(job_type: JobType, target: TilePos) -> CivilianJob {
    CivilianJob { job_type, turns_remaining: job_duration(job_type) as u32, target }
}

fn make_job(job_type: JobType, target: TilePos) -> (j: CivilianJob)
    ensures
        j == new_job(job_type, target),
{
    CivilianJob { job_type, turns_remaining: job_type.duration(), target }
}

fn act_exec(u: &mut CivilianUnit, to: TilePos, job: Option<CivilianJob>, turn: u32)
    ensures
        *final(u) == act(*old(u), to, job, turn),
{
    let previous = u.civilian.position;
    u.civilian.position = to;
    u.civilian.has_moved = true;
    u.order = None;
    if let Some(j) = job {
        u.job = Some(j);
    }
    u.previous_position = Some(PreviousPosition(previous));
    u.action_turn = Some(ActionTurn(turn));
}

/// Effect of a pending move order.
pub open spec fn move_step(u: CivilianUnit, turn: u32) -> CivilianUnit {
    match u.order {
        Some(o) => match o.target {
            CivilianOrderKind::Move { to } => act(u, to, None, turn),
            _ => u,
        },
        None => u,
    }
}

/// Effect of a pending skip or sleep order: the unit is done for the turn; a
/// skip order is consumed, a sleep order persists.
pub open spec fn rest_step(u: CivilianUnit) -> CivilianUnit {
    match u.order {
        Some(o) => match o.target {
            CivilianOrderKind::SkipTurn => CivilianUnit {
                civilian: Civilian { has_moved: true, ..u.civilian },
                order: None,
                ..u
            },
            CivilianOrderKind::Sleep => CivilianUnit {
                civilian: Civilian { has_moved: true, ..u.civilian },
                ..u
            },
            _ => u,
        },
        None => u,
    }
}

/// Effect of an engineer's pending order, and the infrastructure request it makes.
pub open spec fn engineer_step(
    u: CivilianUnit,
    rails: Set<(TilePos, TilePos)>,
    grid: &TileGrid,
    provinces: Seq<Province>,
    turn: u32,
) -> (CivilianUnit, Option<PlaceImprovement>) {
    let c = u.civilian;
    match u.order {
        None => (u, None),
        Some(o) => if c.kind != CivilianKind::Engineer {
            (u, None)
        } else if !tile_owned_by(grid, provinces, c.position, c.owner) {
            (without_order(u), None)
        } else {
            match o.target {
                CivilianOrderKind::BuildRail { to } => if !tile_owned_by(
                    grid,
                    provinces,
                    to,
                    c.owner,
                ) {
                    (without_order(u), None)
                } else if rails.contains(edge_of(c.position, to)) {
                    (act(u, to, None, turn), None)
                } else {
                    (
                        act(u, to, Some(new_job(JobType::BuildingRail, to)), turn),
                        Some(
                            PlaceImprovement {
                                a: c.position,
                                b: to,
                                kind: ImprovementKind::Rail,
                                engineer: Some(c.civilian_id),
                            },
                        ),
                    )
                },
                CivilianOrderKind::BuildDepot => (
                    act(u, c.position, Some(new_job(JobType::BuildingDepot, c.position)), turn),
                    Some(
                        PlaceImprovement {
                            a: c.position,
                            b: c.position,
                            kind: ImprovementKind::Depot,
                            engineer: Some(c.civilian_id),
                        },
                    ),
                ),
                CivilianOrderKind::BuildPort => (
                    act(u, c.position, Some(new_job(JobType::BuildingPort, c.position)), turn),
                    Some(
                        PlaceImprovement {
                            a: c.position,
                            b: c.position,
                            kind: ImprovementKind::Port,
                            engineer: Some(c.civilian_id),
                        },
                    ),
                ),
                _ => (without_order(u), None),
            }
        },
    }
}

/// Effect of a prospector's pending order.
pub open spec fn prospector_step(
    u: CivilianUnit,
    grid: &TileGrid,
    provinces: Seq<Province>,
    turn: u32,
) -> CivilianUnit {
    let c = u.civilian;
    match u.order {
        None => u,
        Some(o) => if c.kind != CivilianKind::Prospector {
            u
        } else {
            match o.target {
                CivilianOrderKind::Prospect { to } => if !tile_owned_by(
                    grid,
                    provinces,
                    to,
                    c.owner,
                ) {
                    without_order(u)
                } else {
                    match grid.tile_at(to) {
                        None => without_order(u),
                        Some(t) => if t.prospected != ProspectRecord::NotProspected {
                            without_order(u)
                        } else if t.potential_mineral.is_some() {
                            act(u, to, Some(new_job(JobType::Prospecting, to)), turn)
                        } else {
                            without_order(u)
                        },
                    }
                },
                _ => without_order(u),
            }
        },
    }
}

/// The tile targeted by an improvement order.
pub open spec fn improvement_target(o: CivilianOrderKind) -> Option<TilePos> {
    match o {
        CivilianOrderKind::ImproveTile { to }
        | CivilianOrderKind::Mine { to }
        | CivilianOrderKind::BuildFarm { to }
        | CivilianOrderKind::BuildOrchard { to } => Some(to),
        _ => None,
    }
}

/// Effect of a tile improver's pending order (farmer, rancher, forester, miner, driller).
pub open spec fn improver_step(
    u: CivilianUnit,
    grid: &TileGrid,
    provinces: Seq<Province>,
    knowledge: Set<(TilePos, u64)>,
    turn: u32,
) -> CivilianUnit {
    let c = u.civilian;
    match (u.order, kind_predicate(c.kind), kind_improvement_job(c.kind)) {
        (Some(o), Some(pred), Some(job)) => match improvement_target(o.target) {
            None => u,
            Some(to) => if !tile_owned_by(grid, provinces, to, c.owner) {
                without_order(u)
            } else {
                match grid.tile_at(to) {
                    None => without_order(u),
                    Some(t) => match t.resource {
                        None => without_order(u),
                        Some(res) => if is_mineral(res.resource_type) && !knowledge.contains(
                            (to, c.owner),
                        ) {
                            without_order(u)
                        } else if !res.discovered {
                            without_order(u)
                        } else if predicate_accepts(pred, res.resource_type) && level_rank(
                            res.development,
                        ) < 3 {
                            act(u, to, Some(new_job(job, to)), turn)
                        } else {
                            without_order(u)
                        },
                    },
                }
            },
        },
        _ => u,
    }
}

/// Carries out a pending move order of one unit.
pub fn execute_move(u: &mut CivilianUnit, turn: u32)
    ensures
        *final(u) == move_step(*old(u), turn),
{
    if let Some(o) = u.order {
        if let CivilianOrderKind::Move { to } = o.target {
            act_exec(u, to, None, turn);
        }
    }
}

/// Carries out a pending skip or sleep order of one unit.
pub fn execute_skip_or_sleep(u: &mut CivilianUnit)
    ensures
        *final(u) == rest_step(*old(u)),
{
    if let Some(o) = u.order {
        match o.target {
            CivilianOrderKind::SkipTurn => {
                u.civilian.has_moved = true;
                u.order = None;
            },
            CivilianOrderKind::Sleep => {
                u.civilian.has_moved = true;
            },
            _ => {},
        }
    }
}

/// Carries out an engineer's pending order; returns the infrastructure to place, if any.
pub fn execute_engineer_order(
    u: &mut CivilianUnit,
    rails: &Rails,
    grid: &TileGrid,
    provinces: &Vec<Province>,
    turn: u32,
) -> (msg: Option<PlaceImprovement>)
    ensures
        (*final(u), msg) == engineer_step(*old(u), rails@, grid, provinces@, turn),
{
    let o = match u.order {
        Some(o) => o,
        None => {
            return None;
        },
    };
    if u.civilian.kind != CivilianKind::Engineer {
        return None;
    }
    let c = u.civilian;
    if !tile_owned_by_nation(c.position, c.owner, grid, provinces) {
        u.order = None;
        return None;
    }
    match o.target {
        CivilianOrderKind::BuildRail { to } => {
            if !tile_owned_by_nation(to, c.owner, grid, provinces) {
                u.order = None;
                None
            } else if rails.connects(c.position, to) {
                act_exec(u, to, None, turn);
                None
            } else {
                let job = make_job(JobType::BuildingRail, to);
                act_exec(u, to, Some(job), turn);
                Some(
                    PlaceImprovement {
                        a: c.position,
                        b: to,
                        kind: ImprovementKind::Rail,
                        engineer: Some(c.civilian_id),
                    },
                )
            }
        },
        CivilianOrderKind::BuildDepot => {
            let job = make_job(JobType::BuildingDepot, c.position);
            act_exec(u, c.position, Some(job), turn);
            Some(
                PlaceImprovement {
                    a: c.position,
                    b: c.position,
                    kind: ImprovementKind::Depot,
                    engineer: Some(c.civilian_id),
                },
            )
        },
        CivilianOrderKind::BuildPort => {
            let job = make_job(JobType::BuildingPort, c.position);
            act_exec(u, c.position, Some(job), turn);
            Some(
                PlaceImprovement {
                    a: c.position,
                    b: c.position,
                    kind: ImprovementKind::Port,
                    engineer: Some(c.civilian_id),
                },
            )
        },
        _ => {
            u.order = None;
            None
        },
    }
}

/// Carries out a prospector's pending order.
pub fn execute_prospector_order(
    u: &mut CivilianUnit,
    grid: &TileGrid,
    provinces: &Vec<Province>,
    turn: u32,
)
    ensures
        *final(u) == prospector_step(*old(u), grid, provinces@, turn),
{
    let o = match u.order {
        Some(o) => o,
        None => {
            return ;
        },
    };
    if u.civilian.kind != CivilianKind::Prospector {
        return ;
    }
    let c = u.civilian;
    match o.target {
        CivilianOrderKind::Prospect { to } => {
            if !tile_owned_by_nation(to, c.owner, grid, provinces) {
                u.order = None;
                return ;
            }
            match grid.get(to) {
                None => {
                    u.order = None;
                },
                Some(t) => {
                    if t.prospected != ProspectRecord::NotProspected {
                        u.order = None;
                    } else if t.potential_mineral.is_some() {
                        let job = make_job(JobType::Prospecting, to);
                        act_exec(u, to, Some(job), turn);
                    } else {
                        u.order = None;
                    }
                },
            }
        },
        _ => {
            u.order = None;
        },
    }
}

/// Carries out a tile improver's pending order.
pub fn execute_improvement_order(
    u: &mut CivilianUnit,
    grid: &TileGrid,
    provinces: &Vec<Province>,
    knowledge: &ProspectingKnowledge,
    turn: u32,
)
    ensures
        *final(u) == improver_step(*old(u), grid, provinces@, knowledge@, turn),
{
    let o = match u.order {
        Some(o) => o,
        None => {
            return ;
        },
    };
    let c = u.civilian;
    let pred = match c.kind.improvement_predicate() {
        Some(p) => p,
        None => {
            return ;
        },
    };
    let job_type = match c.kind.improvement_job() {
        Some(j) => j,
        None => {
            return ;
        },
    };
    let to = match o.target {
        CivilianOrderKind::ImproveTile { to }
        | CivilianOrderKind::Mine { to }
        | CivilianOrderKind::BuildFarm { to }
        | CivilianOrderKind::BuildOrchard { to } => to,
        _ => {
            return ;
        },
    };
    if !tile_owned_by_nation(to, c.owner, grid, provinces) {
        u.order = None;
        return ;
    }
    let tile = match grid.get(to) {
        Some(t) => t,
        None => {
            u.order = None;
            return ;
        },
    };
    let res = match tile.resource {
        Some(r) => r,
        None => {
            u.order = None;
            return ;
        },
    };
    if res.requires_prospecting() && !knowledge.is_discovered_by(to, c.owner) {
        u.order = None;
        return ;
    }
    if !res.discovered {
        u.order = None;
        return ;
    }
    if pred.accepts(&res) && !res.development.is_max() {
        let job = make_job(job_type, to);
        act_exec(u, to, Some(job), turn);
    } else {
        u.order = None;
    }
}

/// Runs pending move orders of every unit.
pub fn execute_move_orders(units: &mut Vec<CivilianUnit>, turn: u32)
    ensures
        final(units)@.len() == old(units)@.len(),
        forall|i: int|
            0 <= i < old(units)@.len() ==> #[trigger] final(units)@[i] == move_step(
                old(units)@[i],
                turn,
            ),
{
    let mut i: usize = 0;
    while i < units.len()
        invariant
            units@.len() == old(units)@.len(),
            i <= units@.len(),
            forall|j: int| 0 <= j < i ==> #[trigger] units@[j] == move_step(old(units)@[j], turn),
            forall|j: int| i <= j < units@.len() ==> #[trigger] units@[j] == old(units)@[j],
        decreases units@.len() - i,
    {
        let mut u = units[i];
        execute_move(&mut u, turn);
        units.set(i, u);
        i = i + 1;
    }
}

/// Runs pending skip and sleep orders of every unit.
pub fn execute_skip_and_sleep_orders(units: &mut Vec<CivilianUnit>)
    ensures
        final(units)@.len() == old(units)@.len(),
        forall|i: int|
            0 <= i < old(units)@.len() ==> #[trigger] final(units)@[i] == rest_step(
                old(units)@[i],
            ),
{
    let mut i: usize = 0;
    while i < units.len()
        invariant
            units@.len() == old(units)@.len(),
            i <= units@.len(),
            forall|j: int| 0 <= j < i ==> #[trigger] units@[j] == rest_step(old(units)@[j]),
            forall|j: int| i <= j < units@.len() ==> #[trigger] units@[j] == old(units)@[j],
        decreases units@.len() - i,
    {
        let mut u = units[i];
        execute_skip_or_sleep(&mut u);
        units.set(i, u);
        i = i + 1;
    }
}

/// The infrastructure requests made by the engineers among `units`, in roster order.
pub open spec fn engineer_requests(
    units: Seq<CivilianUnit>,
    rails: Set<(TilePos, TilePos)>,
    grid: &TileGrid,
    provinces: Seq<Province>,
    turn: u32,
) -> Seq<PlaceImprovement>
    decreases units.len(),
{
    if units.len() == 0 {
        seq![]
    } else {
        let rest = engineer_requests(units.drop_last(), rails, grid, provinces, turn);
        match engineer_step(units.last(), rails, grid, provinces, turn).1 {
            Some(m) => rest.push(m),
            None => rest,
        }
    }
}

/// Runs the pending orders of every engineer; returns the infrastructure to place.
pub fn execute_engineer_orders(
    units: &mut Vec<CivilianUnit>,
    rails: &Rails,
    grid: &TileGrid,
    provinces: &Vec<Province>,
    turn: u32,
) -> (msgs: Vec<PlaceImprovement>)
    ensures
        final(units)@.len() == old(units)@.len(),
        forall|i: int|
            0 <= i < old(units)@.len() ==> #[trigger] final(units)@[i] == engineer_step(
                old(units)@[i],
                rails@,
                grid,
                provinces@,
                turn,
            ).0,
        msgs@ == engineer_requests(old(units)@, rails@, grid, provinces@, turn),
{
    let mut msgs: Vec<PlaceImprovement> = Vec::new();
    let mut i: usize = 0;
    while i < units.len()
        invariant
            units@.len() == old(units)@.len(),
            i <= units@.len(),
            forall|j: int|
                0 <= j < i ==> #[trigger] units@[j] == engineer_step(
                    old(units)@[j],
                    rails@,
                    grid,
                    provinces@,
                    turn,
                ).0,
            forall|j: int| i <= j < units@.len() ==> #[trigger] units@[j] == old(units)@[j],
            msgs@ == engineer_requests(old(units)@.take(i as int), rails@, grid, provinces@, turn),
        decreases units@.len() - i,
    {
        let mut u = units[i];
        let m = execute_engineer_order(&mut u, rails, grid, provinces, turn);
        assert(old(units)@.take(i + 1).drop_last() =~= old(units)@.take(i as int));
        if let Some(m) = m {
            msgs.push(m);
        }
        units.set(i, u);
        i = i + 1;
    }
    assert(old(units)@.take(i as int) =~= old(units)@);
    msgs
}

/// Runs the pending orders of every prospector.
pub fn execute_prospector_orders(
    units: &mut Vec<CivilianUnit>,
    grid: &TileGrid,
    provinces: &Vec<Province>,
    turn: u32,
)
    ensures
        final(units)@.len() == old(units)@.len(),
        forall|i: int|
            0 <= i < old(units)@.len() ==> #[trigger] final(units)@[i] == prospector_step(
                old(units)@[i],
                grid,
                provinces@,
                turn,
            ),
{
    let mut i: usize = 0;
    while i < units.len()
        invariant
            units@.len() == old(units)@.len(),
            i <= units@.len(),
            forall|j: int|
                0 <= j < i ==> #[trigger] units@[j] == prospector_step(
                    old(units)@[j],
                    grid,
                    provinces@,
                    turn,
                ),
            forall|j: int| i <= j < units@.len() ==> #[trigger] units@[j] == old(units)@[j],
        decreases units@.len() - i,
    {
        let mut u = units[i];
        execute_prospector_order(&mut u, grid, provinces, turn);
        units.set(i, u);
        i = i + 1;
    }
}

/// Runs the pending orders of every tile improver.
pub fn execute_civilian_improvement_orders(
    units: &mut Vec<CivilianUnit>,
    grid: &TileGrid,
    provinces: &Vec<Province>,
    knowledge: &ProspectingKnowledge,
    turn: u32,
)
    ensures
        final(units)@.len() == old(units)@.len(),
        forall|i: int|
            0 <= i < old(units)@.len() ==> #[trigger] final(units)@[i] == improver_step(
                old(units)@[i],
                grid,
                provinces@,
                knowledge@,
                turn,
            ),
{
    let mut i: usize = 0;
    while i < units.len()
        invariant
            units@.len() == old(units)@.len(),
            i <= units@.len(),
            forall|j: int|
                0 <= j < i ==> #[trigger] units@[j] == improver_step(
                    old(units)@[j],
                    grid,
                    provinces@,
                    knowledge@,
                    turn,
                ),
            forall|j: int| i <= j < units@.len() ==> #[trigger] units@[j] == old(units)@[j],
        decreases units@.len() - i,
    {
        let mut u = units[i];
        execute_improvement_order(&mut u, grid, provinces, knowledge, turn);
        units.set(i, u);
        i = i + 1;
    }
}

/// `i` is the index of the first unit with the given id.
pub open spec fn is_first_unit(units: Seq<CivilianUnit>, id: CivilianId, i: int) -> bool {
    &&& 0 <= i < units.len()
    &&& units[i].civilian.civilian_id == id
    &&& forall|j: int| 0 <= j < i ==> (#[trigger] units[j]).civilian.civilian_id != id
}

/// Index of the first unit with the given id, if any unit has it.
pub open spec fn unit_index(units: Seq<CivilianUnit>, id: CivilianId) -> Option<int> {
    if exists|i: int| is_first_unit(units, id, i) {
        Some(choose|i: int| is_first_unit(units, id, i))
    } else {
        None
    }
}

/// The civilians of a roster, in roster order.
pub open spec fn roster_civilians(units: Seq<CivilianUnit>) -> Seq<Civilian> {
    units.map_values(|u: CivilianUnit| u.civilian)
}

fn find_unit(units: &Vec<CivilianUnit>, id: CivilianId) -> (r: Option<usize>)
    ensures
        match r {
            Some(i) => unit_index(units@, id) == Some(i as int),
            None => unit_index(units@, id).is_none(),
        },
{
    let mut i: usize = 0;
    while i < units.len()
        invariant
            i <= units@.len(),
            forall|j: int| 0 <= j < i ==> (#[trigger] units@[j]).civilian.civilian_id != id,
        decreases units@.len() - i,
    {
        if units[i].civilian.civilian_id == id {
            assert(is_first_unit(units@, id, i as int));
            let ghost k = choose|k: int| is_first_unit(units@, id, k);
            assert(k == i) by {
                if k < i {
                } else if k > i {
                    assert(units@[i as int].civilian.civilian_id == id);
                }
            }
            return Some(i);
        }
        i = i + 1;
    }
    assert forall|k: int| !is_first_unit(units@, id, k) by {
        if 0 <= k < units@.len() {
            assert(units@[k].civilian.civilian_id != id);
        }
    }
    None
}

fn civilians_of(units: &Vec<CivilianUnit>) -> (v: Vec<Civilian>)
    ensures
        v@ == roster_civilians(units@),
{
    let mut v: Vec<Civilian> = Vec::new();
    let mut i: usize = 0;
    while i < units.len()
        invariant
            i <= units@.len(),
            v@ == roster_civilians(units@.take(i as int)),
        decreases units@.len() - i,
    {
        v.push(units[i].civilian);
        assert(roster_civilians(units@.take(i + 1)) =~= roster_civilians(units@.take(i as int)).push(
            units@[i as int].civilian,
        ));
        i = i + 1;
    }
    assert(units@.take(i as int) =~= units@);
    v
}

/// Validates `order` for the civilian with id `id` and, when it is accepted,
/// attaches it as that civilian's pending order.
pub fn handle_civilian_command(
    units: &mut Vec<CivilianUnit>,
    id: CivilianId,
    order: CivilianOrderKind,
    grid: Option<&TileGrid>,
    provinces: &Vec<Province>,
) -> (r: Result<(), CivilianCommandError>)
    ensures
        match unit_index(old(units)@, id) {
            None => r == Err::<(), CivilianCommandError>(CivilianCommandError::MissingCivilian)
                && final(units)@ == old(units)@,
            Some(i) => {
                let u = old(units)@[i];
                &&& r == command_outcome(
                    u.civilian,
                    u.job.is_some(),
                    u.order.is_some(),
                    order,
                    grid,
                    provinces@,
                    roster_civilians(old(units)@),
                )
                &&& final(units)@ == if r is Ok {
                    old(units)@.update(i, CivilianUnit { order: Some(CivilianOrder { target: order }), ..u })
                } else {
                    old(units)@
                }
            },
        },
{
    let idx = match find_unit(units, id) {
        Some(i) => i,
        None => {
            return Err(CivilianCommandError::MissingCivilian);
        },
    };
    let all = civilians_of(units);
    let u = units[idx];
    let job = u.job;
    let existing = u.order;
    let r = validate_command(&u.civilian, job.as_ref(), existing.as_ref(), &order, grid, provinces, &all);
    if r.is_ok() {
        let mut v = u;
        v.order = Some(CivilianOrder { target: order });
        units.set(idx, v);
    }
    r
}

/// Job counter after one turn passes: one turn less remains.
pub open spec fn advance_step(u: CivilianUnit) -> CivilianUnit {
    match u.job {
        Some(j) => CivilianUnit {
            job: Some(CivilianJob { turns_remaining: (j.turns_remaining - 1) as u32, ..j }),
            ..u
        },
        None => u,
    }
}

/// Every job of the roster still has at least one turn to go.
pub open spec fn jobs_pending(units: Seq<CivilianUnit>) -> bool {
    forall|i: int|
        0 <= i < units.len() ==> match (#[trigger] units[i]).job {
            Some(j) => j.turns_remaining > 0,
            None => true,
        }
}

/// Counts down every civilian job by one turn.
pub fn advance_civilian_jobs(units: &mut Vec<CivilianUnit>)
    requires
        jobs_pending(old(units)@),
    ensures
        final(units)@.len() == old(units)@.len(),
        forall|i: int|
            0 <= i < old(units)@.len() ==> #[trigger] final(units)@[i] == advance_step(
                old(units)@[i],
            ),
{
    let mut i: usize = 0;
    while i < units.len()
        invariant
            jobs_pending(old(units)@),
            units@.len() == old(units)@.len(),
            i <= units@.len(),
            forall|j: int| 0 <= j < i ==> #[trigger] units@[j] == advance_step(old(units)@[j]),
            forall|j: int| i <= j < units@.len() ==> #[trigger] units@[j] == old(units)@[j],
        decreases units@.len() - i,
    {
        let mut u = units[i];
        assert(units@[i as int] == old(units)@[i as int]);
        if let Some(j) = u.job {
            u.job = Some(CivilianJob { turns_remaining: j.turns_remaining - 1, ..j });
        }
        units.set(i, u);
        i = i + 1;
    }
}

/// Clears the moved flag of every civilian for the new turn.
pub fn reset_civilian_actions(units: &mut Vec<CivilianUnit>)
    ensures
        final(units)@.len() == old(units)@.len(),
        forall|i: int|
            0 <= i < old(units)@.len() ==> #[trigger] final(units)@[i] == (CivilianUnit {
                civilian: Civilian { has_moved: false, ..old(units)@[i].civilian },
                ..old(units)@[i]
            }),
{
    let mut i: usize = 0;
    while i < units.len()
        invariant
            units@.len() == old(units)@.len(),
            i <= units@.len(),
            forall|j: int|
                0 <= j < i ==> #[trigger] units@[j] == (CivilianUnit {
                    civilian: Civilian { has_moved: false, ..old(units)@[j].civilian },
                    ..old(units)@[j]
                }),
            forall|j: int| i <= j < units@.len() ==> #[trigger] units@[j] == old(units)@[j],
        decreases units@.len() - i,
    {
        let mut u = units[i];
        u.civilian.has_moved = false;
        units.set(i, u);
        i = i + 1;
    }
}

/// The job of `u` has just finished.
pub open spec fn job_finished(u: CivilianUnit) -> bool {
    u.job matches Some(j) && j.turns_remaining == 0
}

/// A finished job is removed together with the undo data of the action that started it.
pub open spec fn complete_unit(u: CivilianUnit) -> CivilianUnit {
    if job_finished(u) {
        CivilianUnit { job: None, previous_position: None, action_turn: None, ..u }
    } else {
        u
    }
}

/// The tile a finished job changes, as it is afterwards: an improvement job
/// develops the tile's resource one level; a prospecting job reveals the
/// potential deposit (or records the tile as empty) and removes the potential.
/// Construction jobs change no tile here.
pub open spec fn completed_tile(job: CivilianJob, t: MapTile) -> MapTile {
    match job.job_type {
        JobType::ImprovingTile | JobType::Mining | JobType::Drilling => match t.resource {
            Some(r) => if level_rank(r.development) < 3 {
                MapTile {
                    resource: Some(
                        TileResource {
                            development: crate::resources::next_level(r.development),
                            ..r
                        },
                    ),
                    ..t
                }
            } else {
                t
            },
            None => t,
        },
        JobType::Prospecting => match t.potential_mineral {
            Some(p) => match p.deposit {
                Some(rt) => MapTile {
                    resource: Some(
                        TileResource {
                            resource_type: rt,
                            development: crate::resources::DevelopmentLevel::Lv0,
                            discovered: true,
                        },
                    ),
                    potential_mineral: None,
                    prospected: ProspectRecord::Mineral(rt),
                    ..t
                },
                None => MapTile {
                    potential_mineral: None,
                    prospected: ProspectRecord::Empty,
                    ..t
                },
            },
            None => t,
        },
        _ => t,
    }
}

/// A finished prospecting job at a tile with a deposit teaches its owner that
/// the tile has been prospected.
pub open spec fn completed_discovery(job: CivilianJob, t: MapTile) -> bool {
    &&& job.job_type == JobType::Prospecting
    &&& t.potential_mineral matches Some(p) && p.deposit.is_some()
}

/// Applies the effect of one unit's finished job to the map and to prospecting knowledge.
pub fn complete_job(
    u: &mut CivilianUnit,
    grid: &mut TileGrid,
    knowledge: &mut ProspectingKnowledge,
)
    ensures
        *final(u) == complete_unit(*old(u)),
        final(grid).width() == old(grid).width(),
        final(grid).height() == old(grid).height(),
        match old(u).job {
            Some(j) => if j.turns_remaining == 0 {
                &&& forall|q: TilePos| q != j.target ==> final(grid).tile_at(q) == old(grid).tile_at(q)
                &&& final(grid).tile_at(j.target) == match old(grid).tile_at(j.target) {
                    Some(t) => Some(completed_tile(j, t)),
                    None => None,
                }
                &&& final(knowledge)@ == match old(grid).tile_at(j.target) {
                    Some(t) => if completed_discovery(j, t) {
                        old(knowledge)@.insert((j.target, old(u).civilian.owner))
                    } else {
                        old(knowledge)@
                    },
                    None => old(knowledge)@,
                }
            } else {
                final(grid).tile_at_all_eq(old(grid)) && final(knowledge)@ == old(knowledge)@
            },
            None => final(grid).tile_at_all_eq(old(grid)) && final(knowledge)@ == old(knowledge)@,
        },
{
    let j = match u.job {
        Some(j) => j,
        None => {
            return ;
        },
    };
    if j.turns_remaining != 0 {
        return ;
    }
    match grid.get(j.target) {
        None => {},
        Some(t) => {
            match j.job_type {
                JobType::ImprovingTile | JobType::Mining | JobType::Drilling => {
                    if let Some(r) = t.resource {
                        let mut r2 = r;
                        if r2.improve() {
                            let t2 = MapTile { resource: Some(r2), ..t };
                            grid.set(j.target, t2);
                        }
                    }
                },
                JobType::Prospecting => {
                    if let Some(p) = t.potential_mineral {
                        match p.deposit {
                            Some(rt) => {
                                let t2 = MapTile {
                                    resource: Some(TileResource::visible(rt)),
                                    potential_mineral: None,
                                    prospected: ProspectRecord::Mineral(rt),
                                    ..t
                                };
                                grid.set(j.target, t2);
                                knowledge.mark_discovered(j.target, u.civilian.owner);
                            },
                            None => {
                                let t2 = MapTile {
                                    potential_mineral: None,
                                    prospected: ProspectRecord::Empty,
                                    ..t
                                };
                                grid.set(j.target, t2);
                            },
                        }
                    }
                },
                _ => {},
            }
        },
    }
    u.job = None;
    u.previous_position = None;
    u.action_turn = None;
}

/// The tile at `q` after the finished jobs of `units` are completed in
/// roster order, starting from `t`: each finished job that targets `q`
/// applies `completed_tile` to the tile as the jobs before it left it.
pub open spec fn tile_after_jobs(units: Seq<CivilianUnit>, t: Option<MapTile>, q: TilePos) -> Option<MapTile>
    decreases units.len(),
{
    if units.len() == 0 {
        t
    } else {
        let before = tile_after_jobs(units.drop_last(), t, q);
        let u = units.last();
        if job_finished(u) && u.job.unwrap().target == q {
            match before {
                Some(x) => Some(completed_tile(u.job.unwrap(), x)),
                None => None,
            }
        } else {
            before
        }
    }
}

/// Prospecting knowledge after the finished jobs of `units` are completed in
/// roster order on the map `g`, starting from `k`: each finished job that
/// finds a deposit on its target, as the jobs before it left that tile, adds
/// the pair of the target and the unit's owner.
pub open spec fn knowledge_after_jobs(
    units: Seq<CivilianUnit>,
    k: Set<(TilePos, u64)>,
    g: TileGrid,
) -> Set<(TilePos, u64)>
    decreases units.len(),
{
    if units.len() == 0 {
        k
    } else {
        let before = knowledge_after_jobs(units.drop_last(), k, g);
        let u = units.last();
        if job_finished(u) {
            let j = u.job.unwrap();
            match tile_after_jobs(units.drop_last(), g.tile_at(j.target), j.target) {
                Some(t) => if completed_discovery(j, t) {
                    before.insert((j.target, u.civilian.owner))
                } else {
                    before
                },
                None => before,
            }
        } else {
            before
        }
    }
}

/// Completes every finished job, in roster order: the job and its undo data
/// leave the unit, the job's effect (`completed_tile`) is applied to the tile
/// it targets, and a prospecting job that finds a deposit records the
/// discovery for the unit's owner (`complete_job` for each unit in turn).
pub fn complete_improvement_jobs(
    units: &mut Vec<CivilianUnit>,
    grid: &mut TileGrid,
    knowledge: &mut ProspectingKnowledge,
)
    ensures
        final(units)@.len() == old(units)@.len(),
        forall|i: int|
            0 <= i < old(units)@.len() ==> #[trigger] final(units)@[i] == complete_unit(
                old(units)@[i],
            ),
        final(grid).width() == old(grid).width(),
        final(grid).height() == old(grid).height(),
        forall|q: TilePos|
            #[trigger] final(grid).tile_at(q) == tile_after_jobs(old(units)@, old(grid).tile_at(q), q),
        final(knowledge)@ == knowledge_after_jobs(old(units)@, old(knowledge)@, *old(grid)),
{
    let mut i: usize = 0;
    while i < units.len()
        invariant
            grid.width() == old(grid).width(),
            grid.height() == old(grid).height(),
            units@.len() == old(units)@.len(),
            i <= units@.len(),
            forall|j: int| 0 <= j < i ==> #[trigger] units@[j] == complete_unit(old(units)@[j]),
            forall|j: int| i <= j < units@.len() ==> #[trigger] units@[j] == old(units)@[j],
            forall|q: TilePos|
                #[trigger] grid.tile_at(q) == tile_after_jobs(
                    old(units)@.take(i as int),
                    old(grid).tile_at(q),
                    q,
                ),
            knowledge@ == knowledge_after_jobs(old(units)@.take(i as int), old(knowledge)@, *old(grid)),
        decreases units@.len() - i,
    {
        let mut u = units[i];
        let ghost g0 = *grid;
        let ghost k0 = knowledge@;
        let ghost pre = old(units)@.take(i as int);
        let ghost post = old(units)@.take(i + 1);
        assert(post.drop_last() =~= pre);
        assert(post.last() == old(units)@[i as int]);
        assert(units@[i as int] == old(units)@[i as int]);
        complete_job(&mut u, grid, knowledge);
        units.set(i, u);
        assert forall|q: TilePos|
            #[trigger] grid.tile_at(q) == tile_after_jobs(post, old(grid).tile_at(q), q) by {
            assert(g0.tile_at(q) == tile_after_jobs(pre, old(grid).tile_at(q), q));
        }
        i = i + 1;
    }
    assert(old(units)@.take(i as int) =~= old(units)@);
}

/// Refund owed when an action of the given job type is rescinded on the turn it was taken.
pub open spec fn job_refund(j: JobType) -> Option<u32> {
    match j {
        JobType::BuildingRail => Some(50),
        JobType::BuildingDepot => Some(100),
        JobType::BuildingPort => Some(150),
        _ => None,
    }
}

/// Undoing a civilian's action: it returns to where it was, may act again,
/// and loses its order, job and undo data. A construction rescinded on the
/// turn it was ordered is refunded.
pub open spec fn rescind_step(u: CivilianUnit, current_turn: u32) -> (CivilianUnit, Option<u32>) {
    match u.previous_position {
        None => (u, None),
        Some(pp) => {
            let refund = if u.action_turn == Some(ActionTurn(current_turn)) {
                match u.job {
                    Some(j) => job_refund(j.job_type),
                    None => None,
                }
            } else {
                None
            };
            (
                CivilianUnit {
                    civilian: Civilian { position: pp.0, has_moved: false, ..u.civilian },
                    order: None,
                    job: None,
                    previous_position: None,
                    action_turn: None,
                },
                refund,
            )
        },
    }
}

/// Rescinds the orders of a civilian; returns the amount to refund to its owner, if any.
pub fn rescind_orders(u: &mut CivilianUnit, current_turn: u32) -> (refund: Option<u32>)
    ensures
        (*final(u), refund) == rescind_step(*old(u), current_turn),
{
    let pp = match u.previous_position {
        Some(pp) => pp,
        None => {
            return None;
        },
    };
    let same_turn = match u.action_turn {
        Some(at) => at.0 == current_turn,
        None => false,
    };
    let refund = if same_turn {
        match u.job {
            Some(j) => match j.job_type {
                JobType::BuildingRail => Some(50u32),
                JobType::BuildingDepot => Some(100u32),
                JobType::BuildingPort => Some(150u32),
                _ => None,
            },
            None => None,
        }
    } else {
        None
    };
    u.civilian.position = pp.0;
    u.civilian.has_moved = false;
    u.order = None;
    u.job = None;
    u.previous_position = None;
    u.action_turn = None;
    refund
}

/// The owner's treasury after a rescind that owes `refund`: the refund is
/// added when the owner has a treasury, and nothing changes otherwise.
pub open spec fn credited(treasury: Option<Treasury>, refund: Option<u32>) -> Option<Treasury> {
    match (refund, treasury) {
        (Some(amount), Some(t)) => Some(Treasury { total: saturate_i64(t.total + amount) }),
        _ => treasury,
    }
}

/// Rescinds the orders of a civilian and credits any refund owed to its
/// owner's treasury, `owner_treasury` (`None` when the owner has none).
pub fn handle_rescind_orders(u: &mut CivilianUnit, current_turn: u32, owner_treasury: &mut Option<Treasury>)
    ensures
        *final(u) == rescind_step(*old(u), current_turn).0,
        *final(owner_treasury) == credited(*old(owner_treasury), rescind_step(*old(u), current_turn).1),
{
    let refund = rescind_orders(u, current_turn);
    if let Some(amount) = refund {
        let current = *owner_treasury;
        if let Some(t) = current {
            let mut t2 = t;
            t2.add(amount as i64);
            *owner_treasury = Some(t2);
        }
    }
}

/// Rescinding a move on the turn it was made undoes it: the civilian is back
/// where it stood, may act again, holds no order, and nothing is refunded.
pub proof fn law_rescind_undoes_move(u: CivilianUnit, to: TilePos, turn: u32)
    requires
        u.order == Some(CivilianOrder { target: CivilianOrderKind::Move { to } }),
        u.job.is_none(),
    ensures
        ({
            let (back, refund) = rescind_step(move_step(u, turn), turn);
            &&& back.civilian == Civilian { has_moved: false, ..u.civilian }
            &&& back.order.is_none()
            &&& back.job.is_none()
            &&& back.previous_position.is_none()
            &&& back.action_turn.is_none()
            &&& refund.is_none()
        }),
{
}

/// A finished improvement develops its tile's resource by exactly one level,
/// and never past the highest.
pub proof fn law_improvement_adds_one_level(job: CivilianJob, t: MapTile)
    requires
        job.job_type == JobType::ImprovingTile || job.job_type == JobType::Mining || job.job_type
            == JobType::Drilling,
        t.resource.is_some(),
    ensures
        ({
            let after = completed_tile(job, t).resource.unwrap();
            let before = t.resource.unwrap();
            &&& after.resource_type == before.resource_type
            &&& level_rank(before.development) < 3 ==> level_rank(after.development) == level_rank(
                before.development,
            ) + 1
            &&& level_rank(before.development) == 3 ==> after.development == before.development
            &&& level_rank(after.development) <= 3
        }),
{
}

/// A skip order is spent after one turn; a sleep order stays until it is
/// rescinded. Either way the civilian is done for the turn and stays put.
pub proof fn law_skip_is_spent_sleep_persists(u: CivilianUnit)
    requires
        u.order matches Some(o) && (o.target == CivilianOrderKind::SkipTurn || o.target
            == CivilianOrderKind::Sleep),
    ensures
        rest_step(u).civilian.has_moved,
        rest_step(u).civilian.position == u.civilian.position,
        (u.order.unwrap().target == CivilianOrderKind::SkipTurn) ==> rest_step(u).order.is_none(),
        (u.order.unwrap().target == CivilianOrderKind::Sleep) ==> rest_step(u).order == u.order,
{
}


/// A prospector works only on its own nation's land: whenever its step moves
/// it or gives it a new job, it ends on a tile owned by its nation, with a
/// prospecting job on that tile, which exists, has a potential deposit and
/// was not prospected yet. A prospector's order to prospect a tile its
/// nation does not own is dropped, and the prospector stays where it is with the job it had.
/// The step never changes who the civilian is or whom it serves.
pub proof fn law_prospecting_stays_on_own_land(
    u: CivilianUnit,
    grid: &TileGrid,
    provinces: Seq<Province>,
    turn: u32,
)
    ensures
        ({
            let r = prospector_step(u, grid, provinces, turn);
            let owner = u.civilian.owner;
            &&& r.civilian.owner == owner
            &&& r.civilian.kind == u.civilian.kind
            &&& r.civilian.civilian_id == u.civilian.civilian_id
            &&& r.civilian.position != u.civilian.position ==> tile_owned_by(
                grid,
                provinces,
                r.civilian.position,
                owner,
            )
            &&& r.job != u.job ==> {
                &&& r.job is Some
                &&& r.job.unwrap().job_type == JobType::Prospecting
                &&& r.job.unwrap().target == r.civilian.position
                &&& tile_owned_by(grid, provinces, r.job.unwrap().target, owner)
                &&& grid.tile_at(r.job.unwrap().target) is Some
                &&& grid.tile_at(r.job.unwrap().target).unwrap().potential_mineral is Some
                &&& grid.tile_at(r.job.unwrap().target).unwrap().prospected == ProspectRecord::NotProspected
            }
            &&& (u.civilian.kind == CivilianKind::Prospector && u.order is Some
                && u.order.unwrap().target is Prospect && !tile_owned_by(
                grid,
                provinces,
                u.order.unwrap().target->Prospect_to,
                owner,
            )) ==> {
                &&& r.order is None
                &&& r.civilian == u.civilian
                &&& r.job == u.job
            }
        }),
{
}


/// An engineer builds only on its own nation's land: whenever its step moves
/// it, gives it a new job or asks for a rail, depot or port, the tile it
/// stood on and the tile it ends on are owned by its nation, and a requested
/// improvement is placed by this engineer between those two tiles.
pub proof fn law_engineering_stays_on_own_land(
    u: CivilianUnit,
    rails: Set<(TilePos, TilePos)>,
    grid: &TileGrid,
    provinces: Seq<Province>,
    turn: u32,
)
    ensures
        ({
            let (r, req) = engineer_step(u, rails, grid, provinces, turn);
            let owner = u.civilian.owner;
            let acted = r.civilian.position != u.civilian.position || r.job != u.job || req is Some;
            &&& r.civilian.owner == owner
            &&& r.civilian.civilian_id == u.civilian.civilian_id
            &&& acted ==> {
                &&& u.civilian.kind == CivilianKind::Engineer
                &&& tile_owned_by(grid, provinces, u.civilian.position, owner)
                &&& tile_owned_by(grid, provinces, r.civilian.position, owner)
            }
            &&& req is Some ==> {
                &&& req.unwrap().a == u.civilian.position
                &&& req.unwrap().b == r.civilian.position
                &&& req.unwrap().engineer == Some(u.civilian.civilian_id)
            }
        }),
{
}

/// A tile improver works only on its own nation's land: whenever its step
/// gives it a new job, the target is a tile owned by its nation whose
/// resource is discovered (and, for a mineral, prospected by that nation),
/// below the top level, and the improver stands on it.
pub proof fn law_improving_stays_on_own_land(
    u: CivilianUnit,
    grid: &TileGrid,
    provinces: Seq<Province>,
    knowledge: Set<(TilePos, u64)>,
    turn: u32,
)
    ensures
        ({
            let r = improver_step(u, grid, provinces, knowledge, turn);
            let owner = u.civilian.owner;
            &&& r.civilian.owner == owner
            &&& r.civilian.civilian_id == u.civilian.civilian_id
            &&& (r.job != u.job || r.civilian.position != u.civilian.position) ==> {
                let to = r.civilian.position;
                &&& r.job is Some
                &&& r.job.unwrap().target == to
                &&& tile_owned_by(grid, provinces, to, owner)
                &&& grid.tile_at(to) is Some
                &&& grid.tile_at(to).unwrap().resource is Some
                &&& grid.tile_at(to).unwrap().resource.unwrap().discovered
                &&& level_rank(grid.tile_at(to).unwrap().resource.unwrap().development) < 3
                &&& is_mineral(grid.tile_at(to).unwrap().resource.unwrap().resource_type)
                    ==> knowledge.contains((to, owner))
            }
        }),
{
}

} // verus!
