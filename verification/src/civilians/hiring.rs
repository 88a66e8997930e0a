//! Recruiting civilians: where a new unit appears and what it costs.

use crate::civilians::types::{Civilian, CivilianId, CivilianKind};
use crate::economy::Treasury;
use crate::map::{hex_distance, TileGrid, TilePos};
use vstd::prelude::*;

verus! {

/// Some civilian stands on `pos`.
pub open spec fn occupied(civilians: Seq<Civilian>, pos: TilePos) -> bool {
    exists|i: int| 0 <= i < civilians.len() && (#[trigger] civilians[i]).position == pos
}

/// A free map tile between one and three steps from `center`.
pub open spec fn free_tile_near(center: TilePos, p: TilePos, grid: &TileGrid, civilians: Seq<Civilian>) -> bool {
    &&& 1 <= hex_distance(center, p) <= 3
    &&& grid.tile_at(p).is_some()
    &&& !occupied(civilians, p)
}

fn tile_occupied(civilians: &Vec<Civilian>, pos: TilePos) -> (r: bool)
    ensures
        r == occupied(civilians@, pos),
{
    let mut i: usize = 0;
    while i < civilians.len()
        invariant
            i <= civilians@.len(),
            forall|j: int| 0 <= j < i ==> (#[trigger] civilians@[j]).position != pos,
        decreases civilians@.len() - i,
    {
        if civilians[i].position == pos {
            return true;
        }
        i = i + 1;
    }
    false
}

/// Tiles within three steps lie within six columns and three rows.
proof fn lemma_near_tiles_in_box(center: TilePos, p: TilePos)
    requires
        hex_distance(center, p) <= 3,
    ensures
        center.y - 3 <= p.y <= center.y + 3,
        center.x - 6 <= p.x <= center.x + 6,
{
}

/// `a` comes before `b` reading the map row by row, left to right.
pub open spec fn reads_before(a: TilePos, b: TilePos) -> bool {
    a.y < b.y || (a.y == b.y && a.x < b.x)
}

/// The tiles with `x` within 6 and `y` within 3 of `center`, row by row.
fn box_around(center: TilePos) -> (v: Vec<TilePos>)
    ensures
        forall|p: TilePos|
            center.y - 3 <= p.y <= center.y + 3 && center.x - 6 <= p.x <= center.x + 6 ==> #[trigger] v@.contains(p),
        forall|i: int, j: int| 0 <= i < j < v@.len() ==> reads_before(#[trigger] v@[i], #[trigger] v@[j]),
{
    let mut v: Vec<TilePos> = Vec::new();
    let y0: u32 = if center.y >= 3 {
        center.y - 3
    } else {
        0
    };
    let y1: u32 = if center.y <= u32::MAX - 3 {
        center.y + 3
    } else {
        u32::MAX
    };
    let x0: u32 = if center.x >= 6 {
        center.x - 6
    } else {
        0
    };
    let x1: u32 = if center.x <= u32::MAX - 6 {
        center.x + 6
    } else {
        u32::MAX
    };
    let mut y: u32 = y0;
    loop
        invariant_except_break
            forall|i: int| 0 <= i < v@.len() ==> (#[trigger] v@[i]).y < y,
        invariant
            y0 <= y <= y1,
            x0 <= x1,
            y0 == (if center.y >= 3 { center.y - 3 } else { 0 }),
            y1 == (if center.y <= u32::MAX - 3 { (center.y + 3) as u32 } else { u32::MAX }),
            x0 == (if center.x >= 6 { center.x - 6 } else { 0 }),
            x1 == (if center.x <= u32::MAX - 6 { (center.x + 6) as u32 } else { u32::MAX }),
            forall|p: TilePos| y0 <= p.y < y && x0 <= p.x <= x1 ==> #[trigger] v@.contains(p),
            forall|i: int, j: int| 0 <= i < j < v@.len() ==> reads_before(#[trigger] v@[i], #[trigger] v@[j]),
        ensures
            forall|p: TilePos| y0 <= p.y <= y1 && x0 <= p.x <= x1 ==> #[trigger] v@.contains(p),
            forall|i: int, j: int| 0 <= i < j < v@.len() ==> reads_before(#[trigger] v@[i], #[trigger] v@[j]),
        decreases y1 - y,
    {
        let mut x: u32 = x0;
        loop
            invariant_except_break
                forall|i: int| 0 <= i < v@.len() ==> reads_before(#[trigger] v@[i], TilePos { x, y }),
            invariant
                x0 <= x <= x1,
                y0 <= y <= y1,
                forall|p: TilePos| y0 <= p.y < y && x0 <= p.x <= x1 ==> #[trigger] v@.contains(p),
                forall|p: TilePos| p.y == y && x0 <= p.x < x ==> #[trigger] v@.contains(p),
                forall|i: int, j: int| 0 <= i < j < v@.len() ==> reads_before(#[trigger] v@[i], #[trigger] v@[j]),
            ensures
                forall|p: TilePos| y0 <= p.y <= y && x0 <= p.x <= x1 ==> #[trigger] v@.contains(p),
                forall|i: int, j: int| 0 <= i < j < v@.len() ==> reads_before(#[trigger] v@[i], #[trigger] v@[j]),
                forall|i: int| 0 <= i < v@.len() ==> (#[trigger] v@[i]).y <= y,
            decreases x1 - x,
        {
            let ghost before = v@;
            v.push(TilePos { x, y });
            proof {
                assert forall|i: int, j: int| 0 <= i < j < v@.len() implies reads_before(#[trigger] v@[i], #[trigger] v@[j]) by {
                    if j == before.len() {
                        assert(v@[i] == before[i]);
                    } else {
                        assert(v@[i] == before[i] && v@[j] == before[j]);
                    }
                }
                assert forall|i: int| 0 <= i < v@.len() implies (#[trigger] v@[i]).y <= y by {
                    if i < before.len() {
                        assert(v@[i] == before[i]);
                        assert(reads_before(before[i], TilePos { x, y }));
                    }
                }
                assert forall|p: TilePos| y0 <= p.y < y && x0 <= p.x <= x1 implies #[trigger] v@.contains(p) by {
                    assert(before.contains(p));
                    let k = choose|k: int| 0 <= k < before.len() && before[k] == p;
                    assert(v@[k] == p);
                }
                assert forall|p: TilePos| p.y == y && x0 <= p.x <= x implies #[trigger] v@.contains(p) by {
                    if p.x == x {
                        assert(v@[v@.len() - 1] == p);
                    } else {
                        assert(before.contains(p));
                        let k = choose|k: int| 0 <= k < before.len() && before[k] == p;
                        assert(v@[k] == p);
                    }
                }
            }
            if x == x1 {
                break;
            }
            x = x + 1;
        }
        if y == y1 {
            break;
        }
        y = y + 1;
    }
    v
}

/// Where a new civilian appears near `center`: the center itself if no
/// civilian stands there; otherwise a free map tile as close to it as
/// possible, at most three steps away, the first in reading order among
/// those as close; none if there is no such tile.
pub fn find_unoccupied_tile_near(center: TilePos, grid: &TileGrid, civilians: &Vec<Civilian>) -> (r: Option<TilePos>)
    ensures
        match r {
            Some(p) => (p == center && !occupied(civilians@, center)) || (occupied(civilians@, center)
                && free_tile_near(center, p, grid, civilians@) && forall|q: TilePos|
                free_tile_near(center, q, grid, civilians@) ==> hex_distance(center, p) <= hex_distance(center, q)),
            None => occupied(civilians@, center) && forall|q: TilePos| !free_tile_near(center, q, grid, civilians@),
        },
{
    if !tile_occupied(civilians, center) {
        return Some(center);
    }
    let cands = box_around(center);
    let mut radius: u64 = 1;
    while radius <= 3
        invariant
            1 <= radius <= 4,
            occupied(civilians@, center),
            forall|p: TilePos|
                center.y - 3 <= p.y <= center.y + 3 && center.x - 6 <= p.x <= center.x + 6 ==> #[trigger] cands@.contains(p),
            forall|i: int, j: int| 0 <= i < j < cands@.len() ==> reads_before(#[trigger] cands@[i], #[trigger] cands@[j]),
            forall|q: TilePos| free_tile_near(center, q, grid, civilians@) ==> hex_distance(center, q) >= radius,
        decreases 4 - radius,
    {
        let mut k: usize = 0;
        while k < cands.len()
            invariant
                k <= cands@.len(),
                1 <= radius <= 3,
                occupied(civilians@, center),
                forall|p: TilePos|
                    center.y - 3 <= p.y <= center.y + 3 && center.x - 6 <= p.x <= center.x + 6 ==> #[trigger] cands@.contains(p),
                forall|i: int, j: int| 0 <= i < j < cands@.len() ==> reads_before(#[trigger] cands@[i], #[trigger] cands@[j]),
                forall|q: TilePos| free_tile_near(center, q, grid, civilians@) ==> hex_distance(center, q) >= radius,
                forall|j: int|
                    0 <= j < k ==> !(free_tile_near(center, #[trigger] cands@[j], grid, civilians@) && hex_distance(
                        center,
                        cands@[j],
                    ) == radius),
            decreases cands@.len() - k,
        {
            let p = cands[k];
            if crate::map::distance(center, p) == radius && grid.get(p).is_some() && !tile_occupied(civilians, p) {
                proof {
                    assert forall|q: TilePos|
                        free_tile_near(center, q, grid, civilians@) && hex_distance(center, q) == hex_distance(center, p)
                            implies !reads_before(q, p) by {
                        lemma_near_tiles_in_box(center, q);
                        assert(cands@.contains(q));
                        let j = choose|j: int| 0 <= j < cands@.len() && cands@[j] == q;
                        if reads_before(q, p) {
                            if j > k {
                                assert(reads_before(cands@[k as int], cands@[j]));
                            }
                        }
                    }
                }
                return Some(p);
            }
            k = k + 1;
        }
        proof {
            assert forall|q: TilePos| free_tile_near(center, q, grid, civilians@) implies hex_distance(center, q) >= radius + 1 by {
                if hex_distance(center, q) == radius {
                    lemma_near_tiles_in_box(center, q);
                    assert(cands@.contains(q));
                    let j = choose|j: int| 0 <= j < cands@.len() && cands@[j] == q;
                }
            }
        }
        radius = radius + 1;
    }
    None
}

/// Why a civilian could not be hired.
#[derive(Clone, Copy, Debug, PartialEq, Eq, Structural)]
pub enum HireRefusal {
    /// The nation has no capital.
    NoCapital,
    /// No free tile near the capital.
    NoOpenTiles,
    /// The treasury holds less than the cost.
    InsufficientFunds { cost: i64 },
}

/// Hires a civilian of `kind` for `nation`: it appears at the free tile
/// nearest the capital (see `find_unoccupied_tile_near`) and its `cost` is
/// charged. Refused without a capital, without room, or without the money,
/// in that order, and then nothing changes.
pub fn spawn_hired_civilian(
    kind: CivilianKind,
    nation: u64,
    capital: Option<TilePos>,
    treasury: &mut Treasury,
    cost: i64,
    grid: &TileGrid,
    civilians: &Vec<Civilian>,
    new_id: CivilianId,
) -> (r: Result<Civilian, HireRefusal>)
    ensures
        match r {
            Ok(c) => {
                &&& capital is Some
                &&& c == Civilian { kind, position: c.position, owner: nation, civilian_id: new_id, has_moved: false }
                &&& !occupied(civilians@, c.position)
                &&& (c.position == capital.unwrap() || free_tile_near(capital.unwrap(), c.position, grid, civilians@))
                &&& old(treasury).total >= cost
                &&& final(treasury).total == crate::economy::saturate_i64(old(treasury).total - cost)
            },
            Err(HireRefusal::NoCapital) => capital is None && *final(treasury) == *old(treasury),
            Err(HireRefusal::NoOpenTiles) => capital is Some && occupied(civilians@, capital.unwrap())
                && (forall|q: TilePos| !free_tile_near(capital.unwrap(), q, grid, civilians@))
                && *final(treasury) == *old(treasury),
            Err(HireRefusal::InsufficientFunds { cost: c }) => c == cost && old(treasury).total < cost
                && *final(treasury) == *old(treasury),
        },
{
    let center = match capital {
        Some(c) => c,
        None => {
            return Err(HireRefusal::NoCapital);
        },
    };
    let spot = match find_unoccupied_tile_near(center, grid, civilians) {
        Some(p) => p,
        None => {
            return Err(HireRefusal::NoOpenTiles);
        },
    };
    if treasury.available() < cost {
        return Err(HireRefusal::InsufficientFunds { cost });
    }
    treasury.subtract(cost);
    Ok(Civilian { kind, position: spot, owner: nation, civilian_id: new_id, has_moved: false })
}

} // verus!
