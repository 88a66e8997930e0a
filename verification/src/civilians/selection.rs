//! What the player may select and which order panels appear: only the
//! player's own units can be selected or given orders.

use crate::civilians::types::{
    describes, Civilian, CivilianKind, CivilianKindDefinition, CivilianOrderKind, PreviousPosition,
};
use crate::map::TilePos;
use vstd::prelude::*;

verus! {

/// The civilian selected after the player clicks `clicked`, whose owner is
/// `owner` (none when the unit does not exist): with a player nation set
/// and a unit of its own, the clicked unit becomes the only one selected;
/// otherwise the selection stays as it was.
pub fn select_civilian(player: Option<u64>, selected: Option<u64>, clicked: u64, owner: Option<u64>) -> (r: Option<
    u64,
>)
    ensures
        r == (if player is Some && owner == player {
            Some(clicked)
        } else {
            selected
        }),
{
    let p = match player {
        Some(p) => p,
        None => {
            return selected;
        },
    };
    let o = match owner {
        Some(o) => o,
        None => {
            return selected;
        },
    };
    if o != p {
        return selected;
    }
    if selected == Some(clicked) {
        return selected;
    }
    Some(clicked)
}

/// The unit exists and belongs to the player's nation, which is set.
pub open spec fn own_unit(player: Option<u64>, civilian: Option<Civilian>) -> bool {
    player matches Some(p) && civilian matches Some(c) && c.owner == p
}

/// The orders panel for a selected unit: the definition of its kind, whose
/// name titles the panel and whose orders are its buttons. None unless the
/// unit is the player's own and its kind shows a panel with some order.
pub fn orders_panel_for(player: Option<u64>, civilian: Option<Civilian>) -> (r: Option<CivilianKindDefinition>)
    ensures
        match r {
            Some(d) => own_unit(player, civilian) && describes(d, civilian.unwrap().kind) && d.show_orders_panel
                && d.orders@.len() > 0,
            None => !own_unit(player, civilian) || civilian.unwrap().kind != CivilianKind::Engineer,
        },
{
    let p = match player {
        Some(p) => p,
        None => {
            return None;
        },
    };
    let c = match civilian {
        Some(c) => c,
        None => {
            return None;
        },
    };
    if c.owner != p {
        return None;
    }
    let definition = c.kind.definition();
    if !definition.show_orders_panel || definition.orders.len() == 0 {
        return None;
    }
    Some(definition)
}

/// Where the "undo" panel of a selected unit says it was: shown only for the
/// player's own unit that has a position to go back to.
pub fn rescind_panel_for(
    player: Option<u64>,
    civilian: Option<Civilian>,
    previous: Option<PreviousPosition>,
) -> (r: Option<TilePos>)
    ensures
        r == (if own_unit(player, civilian) && previous is Some {
            Some(previous.unwrap().0)
        } else {
            None
        }),
{
    match (player, civilian, previous) {
        (Some(p), Some(c), Some(prev)) => if c.owner == p {
            Some(prev.0)
        } else {
            None
        },
        _ => None,
    }
}

/// The order a panel button sends for a unit standing at `position`: orders
/// aimed at a tile aim at the unit's own tile (the origin when the unit is
/// gone); other orders go as listed.
pub fn button_order(order: CivilianOrderKind, position: Option<TilePos>) -> (r: CivilianOrderKind)
    ensures
        ({
            let t = match position {
                Some(p) => p,
                None => TilePos { x: 0, y: 0 },
            };
            r == match order {
                CivilianOrderKind::Prospect { .. } => CivilianOrderKind::Prospect { to: t },
                CivilianOrderKind::Mine { .. } => CivilianOrderKind::Mine { to: t },
                CivilianOrderKind::ImproveTile { .. } => CivilianOrderKind::ImproveTile { to: t },
                CivilianOrderKind::BuildFarm { .. } => CivilianOrderKind::BuildFarm { to: t },
                CivilianOrderKind::BuildOrchard { .. } => CivilianOrderKind::BuildOrchard { to: t },
                other => other,
            }
        }),
{
    let t = match position {
        Some(p) => p,
        None => TilePos { x: 0, y: 0 },
    };
    match order {
        CivilianOrderKind::Prospect { .. } => CivilianOrderKind::Prospect { to: t },
        CivilianOrderKind::Mine { .. } => CivilianOrderKind::Mine { to: t },
        CivilianOrderKind::ImproveTile { .. } => CivilianOrderKind::ImproveTile { to: t },
        CivilianOrderKind::BuildFarm { .. } => CivilianOrderKind::BuildFarm { to: t },
        CivilianOrderKind::BuildOrchard { .. } => CivilianOrderKind::BuildOrchard { to: t },
        other => other,
    }
}

} // verus!
