//! Hex map geometry and tile ownership.
//!
//! Tiles are addressed by offset coordinates `(x, y)` in an odd-row layout:
//! odd rows are shifted half a tile to the right. Distances and neighbours
//! are computed in axial coordinates `q = x - (y - y % 2) / 2`, `r = y`.

use crate::resources::{ResourceType, TileResource};
use vstd::prelude::*;

verus! {

/// Offset coordinates of a map tile.
#[derive(Clone, Copy, Debug, PartialEq, Eq, Hash, Structural)]
pub struct TilePos {
    pub x: u32,
    pub y: u32,
}

impl TilePos {
    pub fn new(x: u32, y: u32) -> (p: TilePos)
        ensures
            p.x == x,
            p.y == y,
    {
        TilePos { x, y }
    }
}

/// Axial column of a tile.
pub open spec fn axial_q(p: TilePos) -> int {
    p.x - (p.y - p.y % 2) / 2
}

/// Axial row of a tile.
pub open spec fn axial_r(p: TilePos) -> int {
    p.y as int
}

pub open spec fn int_abs(v: int) -> int {
    if v < 0 {
        -v
    } else {
        v
    }
}

/// Number of hex steps between two tiles.
pub open spec fn hex_distance(a: TilePos, b: TilePos) -> int {
    let dq = axial_q(b) - axial_q(a);
    let dr = axial_r(b) - axial_r(a);
    (int_abs(dq) + int_abs(dr) + int_abs(dq + dr)) / 2
}

/// Two tiles share an edge.
pub open spec fn adjacent(a: TilePos, b: TilePos) -> bool {
    hex_distance(a, b) == 1
}

fn axial_q_exec(p: TilePos) -> (q: i64)
    ensures
        q == axial_q(p),
{
    let y: i64 = p.y as i64;
    let parity: i64 = (p.y % 2) as i64;
    p.x as i64 - (y - parity) / 2
}

fn abs_i64(v: i64) -> (r: i64)
    requires
        v > i64::MIN,
    ensures
        r == int_abs(v as int),
{
    if v < 0 {
        -v
    } else {
        v
    }
}

/// Hex distance between two tiles.
pub fn distance(a: TilePos, b: TilePos) -> (d: u64)
    ensures
        d == hex_distance(a, b),
{
    let dq: i64 = axial_q_exec(b) - axial_q_exec(a);
    let dr: i64 = b.y as i64 - a.y as i64;
    let s: i64 = abs_i64(dq) + abs_i64(dr) + abs_i64(dq + dr);
    (s / 2) as u64
}

/// True when the two tiles share an edge.
pub fn is_adjacent(a: TilePos, b: TilePos) -> (res: bool)
    ensures
        res == adjacent(a, b),
{
    distance(a, b) == 1
}

/// Every tile at distance one from `p` is one of the six offset neighbours.
pub proof fn lemma_adjacent_cases(p: TilePos, t: TilePos)
    requires
        adjacent(p, t),
    ensures
        (t.y == p.y && (t.x == p.x + 1 || t.x == p.x - 1)) || (p.y % 2 == 0 && (t.y == p.y - 1
            || t.y == p.y + 1) && (t.x == p.x - 1 || t.x == p.x)) || (p.y % 2 == 1 && (t.y == p.y
            - 1 || t.y == p.y + 1) && (t.x == p.x || t.x == p.x + 1)),
{
}

/// The existing neighbours of `p`, each once.
pub fn hex_neighbors(p: TilePos) -> (v: Vec<TilePos>)
    ensures
        forall|t: TilePos| v@.contains(t) <==> adjacent(p, t),
        v@.no_duplicates(),
        v@.len() <= 6,
{
    broadcast use vstd::seq_lib::group_seq_properties;

    let mut v: Vec<TilePos> = Vec::new();
    let x = p.x;
    let y = p.y;
    if x < u32::MAX {
        v.push(TilePos { x: x + 1, y });
    }
    if x > 0 {
        v.push(TilePos { x: x - 1, y });
    }
    if y % 2 == 0 {
        if y > 0 {
            if x > 0 {
                v.push(TilePos { x: x - 1, y: y - 1 });
            }
            v.push(TilePos { x, y: y - 1 });
        }
        if y < u32::MAX {
            if x > 0 {
                v.push(TilePos { x: x - 1, y: y + 1 });
            }
            v.push(TilePos { x, y: y + 1 });
        }
    } else {
        v.push(TilePos { x, y: y - 1 });
        if x < u32::MAX {
            v.push(TilePos { x: x + 1, y: y - 1 });
        }
        if y < u32::MAX {
            v.push(TilePos { x, y: y + 1 });
            if x < u32::MAX {
                v.push(TilePos { x: x + 1, y: y + 1 });
            }
        }
    }
    assert forall|t: TilePos| adjacent(p, t) implies v@.contains(t) by {
        lemma_adjacent_cases(p, t);
    }
    v
}

/// Canonical (unordered) rail edge between two tiles: the smaller tile,
/// by row-major order of `(x, y)`, comes first.
pub open spec fn edge_of(a: TilePos, b: TilePos) -> (TilePos, TilePos) {
    if a.x < b.x || (a.x == b.x && a.y <= b.y) {
        (a, b)
    } else {
        (b, a)
    }
}

/// The canonical edge between two tiles; the same for either order.
pub fn ordered_edge(a: TilePos, b: TilePos) -> (e: (TilePos, TilePos))
    ensures
        e == edge_of(a, b),
        e == edge_of(b, a) || a == b,
{
    if a.x < b.x || (a.x == b.x && a.y <= b.y) {
        (a, b)
    } else {
        (b, a)
    }
}

/// Identifier of a province.
#[derive(Clone, Copy, Debug, PartialEq, Eq, Hash, Structural)]
pub struct ProvinceId(pub u32);

/// A province: a group of tiles held by at most one nation.
#[derive(Clone, Debug)]
pub struct Province {
    pub id: ProvinceId,
    /// Entity id of the owning nation, if any.
    pub owner: Option<u64>,
    pub tiles: Vec<TilePos>,
    pub city_tile: TilePos,
}

/// Terrain of a map tile.
#[derive(Clone, Copy, Debug, PartialEq, Eq, Hash, Structural)]
pub enum TerrainType {
    Grass,
    Water,
    Mountain,
    Hills,
    Forest,
    Desert,
    Swamp,
    Farmland,
}

/// A possible mineral deposit under a tile; prospecting reveals `deposit`
/// (`None` when the tile turns out to hold nothing).
#[derive(Clone, Copy, Debug, PartialEq, Eq, Structural)]
pub struct PotentialMineral {
    pub deposit: Option<ResourceType>,
}

/// What prospecting has found on a tile.
#[derive(Clone, Copy, Debug, PartialEq, Eq, Structural)]
pub enum ProspectRecord {
    NotProspected,
    Empty,
    Mineral(ResourceType),
}

/// A tile that exists on the map.
#[derive(Clone, Copy, Debug, PartialEq, Eq, Structural)]
pub struct MapTile {
    /// The province the tile belongs to, if any.
    pub province: Option<ProvinceId>,
    pub terrain: TerrainType,
    /// The known resource on the tile, if any.
    pub resource: Option<TileResource>,
    /// A deposit that prospecting may reveal, if any.
    pub potential_mineral: Option<PotentialMineral>,
    pub prospected: ProspectRecord,
}

impl MapTile {
    /// A bare tile of the given terrain in the given province.
    pub fn new(province: Option<ProvinceId>, terrain: TerrainType) -> (t: MapTile)
        ensures
            t.province == province,
            t.terrain == terrain,
            t.resource.is_none(),
            t.potential_mineral.is_none(),
            t.prospected == ProspectRecord::NotProspected,
    {
        MapTile {
            province,
            terrain,
            resource: None,
            potential_mineral: None,
            prospected: ProspectRecord::NotProspected,
        }
    }
}

/// Rectangular storage of the map's tiles; a slot may be empty.
pub struct TileGrid {
    size_x: u32,
    size_y: u32,
    cells: Vec<Option<MapTile>>,
}

proof fn lemma_cell_index(x: int, y: int, w: int, h: int)
    by (nonlinear_arith)
    requires
        0 <= x < w,
        0 <= y < h,
    ensures
        0 <= y * w + x < w * h,
{
}

impl TileGrid {
    /// The storage holds exactly one slot per grid position.
    #[verifier::type_invariant]
    pub closed spec fn wf(&self) -> bool {
        self.cells@.len() == self.size_x * self.size_y
    }

    pub closed spec fn width(&self) -> nat {
        self.size_x as nat
    }

    pub closed spec fn height(&self) -> nat {
        self.size_y as nat
    }

    /// The tile stored at `p`; `None` outside the grid or in an empty slot.
    pub closed spec fn tile_at(&self, p: TilePos) -> Option<MapTile> {
        if p.x < self.size_x && p.y < self.size_y {
            self.cells@[p.y * self.size_x + p.x]
        } else {
            None
        }
    }

    /// A grid of the given size with every slot empty.
    pub fn empty(size_x: u32, size_y: u32) -> (g: TileGrid)
        requires
            size_x * size_y <= usize::MAX,
        ensures
            g.width() == size_x,
            g.height() == size_y,
            forall|p: TilePos| g.tile_at(p).is_none(),
    {
        let n: usize = size_x as usize * size_y as usize;
        let mut cells: Vec<Option<MapTile>> = Vec::new();
        let mut i: usize = 0;
        while i < n
            invariant
                i <= n,
                cells@.len() == i,
                forall|j: int| 0 <= j < i ==> cells@[j].is_none(),
            decreases n - i,
        {
            cells.push(None);
            i = i + 1;
        }
        let g = TileGrid { size_x, size_y, cells };
        assert forall|p: TilePos| g.tile_at(p).is_none() by {
            if p.x < size_x && p.y < size_y {
                lemma_cell_index(p.x as int, p.y as int, size_x as int, size_y as int);
            }
        }
        g
    }

    pub fn size_x(&self) -> (w: u32)
        ensures
            w == self.width(),
    {
        self.size_x
    }

    pub fn size_y(&self) -> (h: u32)
        ensures
            h == self.height(),
    {
        self.size_y
    }

    /// Stores `tile` at `p`, which must lie inside the grid.
    pub fn set(&mut self, p: TilePos, tile: MapTile)
        requires
            p.x < old(self).width(),
            p.y < old(self).height(),
        ensures
            final(self).width() == old(self).width(),
            final(self).height() == old(self).height(),
            final(self).tile_at(p) == Some(tile),
            forall|q: TilePos| q != p ==> final(self).tile_at(q) == old(self).tile_at(q),
    {
        proof {
            use_type_invariant(&*self);
            lemma_cell_index(p.x as int, p.y as int, self.size_x as int, self.size_y as int);
        }
        let len = self.cells.len();
        assert(p.y * self.size_x + p.x < len);
        let idx: usize = p.y as usize * self.size_x as usize + p.x as usize;
        let mut taken = TileGrid { size_x: 0, size_y: 0, cells: Vec::new() };
        std::mem::swap(&mut taken, self);
        let TileGrid { size_x, size_y, mut cells } = taken;
        cells.set(idx, Some(tile));
        *self = TileGrid { size_x, size_y, cells };
        proof {
            assert forall|q: TilePos| q != p implies self.tile_at(q) == old(self).tile_at(q) by {
                if q.x < self.size_x && q.y < self.size_y {
                    lemma_cell_index(q.x as int, q.y as int, self.size_x as int, self.size_y as int);
                    lemma_distinct_cells(p, q, self.size_x as int);
                }
            }
        }
    }

    /// Both grids hold the same tile at every position.
    pub open spec fn tile_at_all_eq(&self, other: &TileGrid) -> bool {
        forall|q: TilePos| self.tile_at(q) == other.tile_at(q)
    }

    /// The tile at `p`, if the slot is inside the grid and filled.
    pub fn get(&self, p: TilePos) -> (t: Option<MapTile>)
        ensures
            t == self.tile_at(p),
            t.is_some() ==> p.x < self.width() && p.y < self.height(),
    {
        proof {
            use_type_invariant(self);
        }
        if p.x < self.size_x && p.y < self.size_y {
            proof {
                lemma_cell_index(p.x as int, p.y as int, self.size_x as int, self.size_y as int);
            }
            let len = self.cells.len();
            assert(p.y * self.size_x + p.x < len);
            self.cells[p.y as usize * self.size_x as usize + p.x as usize]
        } else {
            None
        }
    }
}

proof fn lemma_distinct_cells(p: TilePos, q: TilePos, w: int)
    requires
        p != q,
        p.x < w,
        q.x < w,
    ensures
        p.y * w + p.x != q.y * w + q.x,
{
    if p.y == q.y {
    } else if p.y < q.y {
        assert(p.y * w + w <= q.y * w) by (nonlinear_arith)
            requires
                p.y < q.y,
                w > 0,
        ;
    } else {
        assert(q.y * w + w <= p.y * w) by (nonlinear_arith)
            requires
                q.y < p.y,
                w > 0,
        ;
    }
}

/// Owner of the first province in `provinces` with the given id:
/// `None` when no province has that id.
pub open spec fn province_owner(provinces: Seq<Province>, id: ProvinceId) -> Option<Option<u64>>
    decreases provinces.len(),
{
    if provinces.len() == 0 {
        None
    } else if provinces[0].id == id {
        Some(provinces[0].owner)
    } else {
        province_owner(provinces.drop_first(), id)
    }
}

/// The tile at `p` exists, belongs to a province, and that province is held by `nation`.
pub open spec fn tile_owned_by(
    grid: &TileGrid,
    provinces: Seq<Province>,
    p: TilePos,
    nation: u64,
) -> bool {
    match grid.tile_at(p) {
        Some(tile) => match tile.province {
            Some(pid) => province_owner(provinces, pid) == Some(Some(nation)),
            None => false,
        },
        None => false,
    }
}

/// Looks up the owner of the first province with the given id.
pub fn find_province_owner(provinces: &Vec<Province>, id: ProvinceId) -> (r: Option<Option<u64>>)
    ensures
        r == province_owner(provinces@, id),
{
    let mut i: usize = 0;
    assert(provinces@.skip(0) =~= provinces@);
    while i < provinces.len()
        invariant
            i <= provinces@.len(),
            province_owner(provinces@, id) == province_owner(provinces@.skip(i as int), id),
        decreases provinces@.len() - i,
    {
        assert(provinces@.skip(i as int).drop_first() =~= provinces@.skip(i + 1));
        if provinces[i].id == id {
            return Some(provinces[i].owner);
        }
        i = i + 1;
    }
    None
}

/// Returns true if the tile at `tile_pos` is owned by `nation`.
/// Returns false if the position is out of bounds, empty, or not owned.
pub fn tile_owned_by_nation(
    tile_pos: TilePos,
    nation: u64,
    grid: &TileGrid,
    provinces: &Vec<Province>,
) -> (res: bool)
    ensures
        res == tile_owned_by(grid, provinces@, tile_pos, nation),
{
    match grid.get(tile_pos) {
        Some(tile) => match tile.province {
            Some(pid) => match find_province_owner(provinces, pid) {
                Some(Some(owner)) => owner == nation,
                _ => false,
            },
            None => false,
        },
        None => false,
    }
}

/// The rail network: a set of canonical edges between adjacent tiles.
pub struct Rails {
    edges: Vec<(TilePos, TilePos)>,
}

impl View for Rails {
    type V = Set<(TilePos, TilePos)>;

    closed spec fn view(&self) -> Set<(TilePos, TilePos)> {
        self.edges@.to_set()
    }
}

impl Rails {
    /// A network without rails.
    pub fn new() -> (r: Rails)
        ensures
            r@ == Set::<(TilePos, TilePos)>::empty(),
    {
        let r = Rails { edges: Vec::new() };
        assert(r@ =~= Set::<(TilePos, TilePos)>::empty());
        r
    }

    /// Adds the rail between `a` and `b`.
    pub fn insert(&mut self, a: TilePos, b: TilePos)
        ensures
            final(self)@ == old(self)@.insert(edge_of(a, b)),
    {
        broadcast use vstd::seq_lib::group_seq_properties;

        let e = ordered_edge(a, b);
        self.edges.push(e);
        assert(self@ =~= old(self)@.insert(edge_of(a, b)));
    }

    /// True when a rail joins `a` and `b`.
    pub fn connects(&self, a: TilePos, b: TilePos) -> (r: bool)
        ensures
            r == self@.contains(edge_of(a, b)),
    {
        let e = ordered_edge(a, b);
        let mut i: usize = 0;
        while i < self.edges.len()
            invariant
                e == edge_of(a, b),
                i <= self.edges@.len(),
                forall|j: int| 0 <= j < i ==> self.edges@[j] != e,
            decreases self.edges@.len() - i,
        {
            if self.edges[i].0 == e.0 && self.edges[i].1 == e.1 {
                assert(self.edges@[i as int] == e);
                return true;
            }
            i = i + 1;
        }
        false
    }
}

/// True when `tile` is one of `tiles`.
pub fn tile_listed(tiles: &Vec<TilePos>, tile: TilePos) -> (r: bool)
    ensures
        r == tiles@.contains(tile),
{
    let mut i: usize = 0;
    while i < tiles.len()
        invariant
            i <= tiles@.len(),
            forall|j: int| 0 <= j < i ==> tiles@[j] != tile,
        decreases tiles@.len() - i,
    {
        if tiles[i] == tile {
            assert(tiles@[i as int] == tile);
            return true;
        }
        i = i + 1;
    }
    false
}

} // verus!
