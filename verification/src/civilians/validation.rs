//! Validation of orders given to civilians.

use crate::civilians::types::{Civilian, CivilianId, CivilianJob, CivilianKind, CivilianOrder, CivilianOrderKind};
use crate::map::{tile_owned_by, tile_owned_by_nation, Province, TileGrid, TilePos};
use vstd::prelude::*;

verus! {

/// Why an order given to a civilian was rejected.
#[derive(Clone, Copy, Debug, PartialEq, Eq, Structural)]
pub enum CivilianCommandError {
    MissingCivilian,
    AlreadyHasJob,
    AlreadyActed,
    MissingTileStorage,
    MissingTargetTile(TilePos),
    TargetTileUnowned,
    CurrentTileUnowned,
    TargetTileOccupied,
    RequiresEngineer,
    RequiresProspector,
    RequiresImprover,
}

/// Some other civilian stands on `pos`.
pub open spec fn occupied_by_other(civilians: Seq<Civilian>, me: CivilianId, pos: TilePos) -> bool {
    exists|i: int|
        0 <= i < civilians.len() && (#[trigger] civilians[i]).position == pos
            && civilians[i].civilian_id != me
}

/// Kinds that can improve a tile.
pub open spec fn is_improver(k: CivilianKind) -> bool {
    matches!(k, CivilianKind::Farmer | CivilianKind::Rancher | CivilianKind::Forester | CivilianKind::Driller | CivilianKind::Miner)
}

/// Checks on the target tile shared by orders that act on another tile:
/// it must exist and be owned by the civilian's nation.
pub open spec fn target_check(
    civilian: Civilian,
    to: TilePos,
    grid: &TileGrid,
    provinces: Seq<Province>,
) -> Result<(), CivilianCommandError> {
    if grid.tile_at(to).is_none() {
        Err(CivilianCommandError::MissingTargetTile(to))
    } else if !tile_owned_by(grid, provinces, to, civilian.owner) {
        Err(CivilianCommandError::TargetTileUnowned)
    } else {
        Ok(())
    }
}

/// The outcome of validating `order` for `civilian`.
pub open spec fn command_outcome(
    civilian: Civilian,
    has_job: bool,
    has_order: bool,
    order: CivilianOrderKind,
    grid: Option<&TileGrid>,
    provinces: Seq<Province>,
    civilians: Seq<Civilian>,
) -> Result<(), CivilianCommandError> {
    if has_job {
        Err(CivilianCommandError::AlreadyHasJob)
    } else if has_order {
        Err(CivilianCommandError::AlreadyActed)
    } else {
        match grid {
            None => Err(CivilianCommandError::MissingTileStorage),
            Some(g) => match order {
                CivilianOrderKind::Move { to } => match target_check(civilian, to, g, provinces) {
                    Err(e) => Err(e),
                    Ok(()) => if occupied_by_other(civilians, civilian.civilian_id, to) {
                        Err(CivilianCommandError::TargetTileOccupied)
                    } else {
                        Ok(())
                    },
                },
                CivilianOrderKind::BuildRail { to } => if civilian.kind != CivilianKind::Engineer {
                    Err(CivilianCommandError::RequiresEngineer)
                } else if g.tile_at(to).is_none() {
                    Err(CivilianCommandError::MissingTargetTile(to))
                } else if !tile_owned_by(g, provinces, civilian.position, civilian.owner) {
                    Err(CivilianCommandError::CurrentTileUnowned)
                } else if !tile_owned_by(g, provinces, to, civilian.owner) {
                    Err(CivilianCommandError::TargetTileUnowned)
                } else {
                    Ok(())
                },
                CivilianOrderKind::BuildDepot | CivilianOrderKind::BuildPort => if civilian.kind
                    != CivilianKind::Engineer {
                    Err(CivilianCommandError::RequiresEngineer)
                } else if !tile_owned_by(g, provinces, civilian.position, civilian.owner) {
                    Err(CivilianCommandError::CurrentTileUnowned)
                } else {
                    Ok(())
                },
                CivilianOrderKind::SkipTurn | CivilianOrderKind::Sleep => Ok(()),
                CivilianOrderKind::Prospect { to } => if civilian.kind
                    != CivilianKind::Prospector {
                    Err(CivilianCommandError::RequiresProspector)
                } else {
                    target_check(civilian, to, g, provinces)
                },
                CivilianOrderKind::Mine { to } => if civilian.kind != CivilianKind::Miner {
                    Err(CivilianCommandError::RequiresImprover)
                } else {
                    target_check(civilian, to, g, provinces)
                },
                CivilianOrderKind::ImproveTile { to }
                | CivilianOrderKind::BuildFarm { to }
                | CivilianOrderKind::BuildOrchard { to } => if !is_improver(civilian.kind) {
                    Err(CivilianCommandError::RequiresImprover)
                } else {
                    target_check(civilian, to, g, provinces)
                },
            },
        }
    }
}

/// True if a civilian other than `me` stands on `pos`.
pub fn is_tile_occupied_by_other(civilians: &Vec<Civilian>, me: CivilianId, pos: TilePos) -> (r:
    bool)
    ensures
        r == occupied_by_other(civilians@, me, pos),
{
    let mut i: usize = 0;
    while i < civilians.len()
        invariant
            i <= civilians@.len(),
            forall|j: int|
                0 <= j < i ==> !((#[trigger] civilians@[j]).position == pos
                    && civilians@[j].civilian_id != me),
        decreases civilians@.len() - i,
    {
        if civilians[i].position == pos && civilians[i].civilian_id != me {
            assert(civilians@[i as int].position == pos);
            return true;
        }
        i = i + 1;
    }
    false
}

fn check_target(civilian: &Civilian, to: TilePos, grid: &TileGrid, provinces: &Vec<Province>) -> (r:
    Result<(), CivilianCommandError>)
    ensures
        r == target_check(*civilian, to, grid, provinces@),
{
    if grid.get(to).is_none() {
        return Err(CivilianCommandError::MissingTargetTile(to));
    }
    if !tile_owned_by_nation(to, civilian.owner, grid, provinces) {
        return Err(CivilianCommandError::TargetTileUnowned);
    }
    Ok(())
}

/// Decides whether `order` may be given to `civilian`; `Ok` means the order
/// can be attached, otherwise the error says why it is refused.
pub fn validate_command(
    civilian: &Civilian,
    job: Option<&CivilianJob>,
    existing_order: Option<&CivilianOrder>,
    order: &CivilianOrderKind,
    grid: Option<&TileGrid>,
    provinces: &Vec<Province>,
    civilians: &Vec<Civilian>,
) -> (r: Result<(), CivilianCommandError>)
    ensures
        r == command_outcome(
            *civilian,
            job.is_some(),
            existing_order.is_some(),
            *order,
            grid,
            provinces@,
            civilians@,
        ),
{
    if job.is_some() {
        return Err(CivilianCommandError::AlreadyHasJob);
    }
    if existing_order.is_some() {
        return Err(CivilianCommandError::AlreadyActed);
    }
    let g = match grid {
        Some(g) => g,
        None => {
            return Err(CivilianCommandError::MissingTileStorage);
        },
    };
    match *order {
        CivilianOrderKind::Move { to } => {
            match check_target(civilian, to, g, provinces) {
                Err(e) => Err(e),
                Ok(()) => {
                    if is_tile_occupied_by_other(civilians, civilian.civilian_id, to) {
                        Err(CivilianCommandError::TargetTileOccupied)
                    } else {
                        Ok(())
                    }
                },
            }
        },
        CivilianOrderKind::BuildRail { to } => {
            if civilian.kind != CivilianKind::Engineer {
                return Err(CivilianCommandError::RequiresEngineer);
            }
            if g.get(to).is_none() {
                return Err(CivilianCommandError::MissingTargetTile(to));
            }
            if !tile_owned_by_nation(civilian.position, civilian.owner, g, provinces) {
                return Err(CivilianCommandError::CurrentTileUnowned);
            }
            if !tile_owned_by_nation(to, civilian.owner, g, provinces) {
                return Err(CivilianCommandError::TargetTileUnowned);
            }
            Ok(())
        },
        CivilianOrderKind::BuildDepot | CivilianOrderKind::BuildPort => {
            if civilian.kind != CivilianKind::Engineer {
                return Err(CivilianCommandError::RequiresEngineer);
            }
            if !tile_owned_by_nation(civilian.position, civilian.owner, g, provinces) {
                return Err(CivilianCommandError::CurrentTileUnowned);
            }
            Ok(())
        },
        CivilianOrderKind::SkipTurn | CivilianOrderKind::Sleep => Ok(()),
        CivilianOrderKind::Prospect { to } => {
            if civilian.kind != CivilianKind::Prospector {
                return Err(CivilianCommandError::RequiresProspector);
            }
            check_target(civilian, to, g, provinces)
        },
        CivilianOrderKind::Mine { to } => {
            if civilian.kind != CivilianKind::Miner {
                return Err(CivilianCommandError::RequiresImprover);
            }
            check_target(civilian, to, g, provinces)
        },
        CivilianOrderKind::ImproveTile { to }
        | CivilianOrderKind::BuildFarm { to }
        | CivilianOrderKind::BuildOrchard { to } => {
            match civilian.kind {
                CivilianKind::Farmer | CivilianKind::Rancher | CivilianKind::Forester
                | CivilianKind::Driller | CivilianKind::Miner => {},
                _ => {
                    return Err(CivilianCommandError::RequiresImprover);
                },
            }
            check_target(civilian, to, g, provinces)
        },
    }
}


/// An accepted order stays within the civilian's own territory: it is only
/// accepted for a civilian with no job and no pending order, on a map, and
/// every tile it acts on (the target of a move, rail, prospecting, mining or
/// improvement order) exists and is owned by the civilian's nation; an
/// engineer's construction also needs the tile it stands on to be owned by
/// that nation, and a move needs its target free of other civilians.
pub proof fn law_accepted_orders_stay_in_own_territory(
    civilian: Civilian,
    has_job: bool,
    has_order: bool,
    order: CivilianOrderKind,
    grid: Option<&TileGrid>,
    provinces: Seq<Province>,
    civilians: Seq<Civilian>,
)
    requires
        command_outcome(civilian, has_job, has_order, order, grid, provinces, civilians) is Ok,
    ensures
        !has_job,
        !has_order,
        grid is Some,
        order matches CivilianOrderKind::Move { to } ==> grid.unwrap().tile_at(to) is Some
            && tile_owned_by(grid.unwrap(), provinces, to, civilian.owner)
            && !occupied_by_other(civilians, civilian.civilian_id, to),
        order matches CivilianOrderKind::BuildRail { to } ==> civilian.kind == CivilianKind::Engineer
            && grid.unwrap().tile_at(to) is Some
            && tile_owned_by(grid.unwrap(), provinces, to, civilian.owner)
            && tile_owned_by(grid.unwrap(), provinces, civilian.position, civilian.owner),
        (order is BuildDepot || order is BuildPort) ==> civilian.kind == CivilianKind::Engineer
            && tile_owned_by(grid.unwrap(), provinces, civilian.position, civilian.owner),
        order matches CivilianOrderKind::Prospect { to } ==> civilian.kind == CivilianKind::Prospector
            && grid.unwrap().tile_at(to) is Some
            && tile_owned_by(grid.unwrap(), provinces, to, civilian.owner),
        order matches CivilianOrderKind::Mine { to } ==> civilian.kind == CivilianKind::Miner
            && grid.unwrap().tile_at(to) is Some
            && tile_owned_by(grid.unwrap(), provinces, to, civilian.owner),
        order matches CivilianOrderKind::ImproveTile { to } ==> is_improver(civilian.kind)
            && grid.unwrap().tile_at(to) is Some
            && tile_owned_by(grid.unwrap(), provinces, to, civilian.owner),
        order matches CivilianOrderKind::BuildFarm { to } ==> is_improver(civilian.kind)
            && grid.unwrap().tile_at(to) is Some
            && tile_owned_by(grid.unwrap(), provinces, to, civilian.owner),
        order matches CivilianOrderKind::BuildOrchard { to } ==> is_improver(civilian.kind)
            && grid.unwrap().tile_at(to) is Some
            && tile_owned_by(grid.unwrap(), provinces, to, civilian.owner),
{
}

} // verus!
