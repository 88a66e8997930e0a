//! Which bitmap draws each terrain, unit and building.

use crate::civilians::types::CivilianKind;
use crate::map::TerrainType;
use vstd::prelude::*;

verus! {

/// Bitmap of a terrain type.
pub open spec fn terrain_bitmap(terrain: TerrainType) -> Seq<char> {
    match terrain {
        TerrainType::Grass => "extracted/bitmaps/10000.BMP"@,
        TerrainType::Water => "extracted/bitmaps/10005.BMP"@,
        TerrainType::Mountain => "extracted/bitmaps/10003.BMP"@,
        TerrainType::Hills => "extracted/bitmaps/10002.BMP"@,
        TerrainType::Forest => "extracted/bitmaps/10001.BMP"@,
        TerrainType::Desert => "extracted/bitmaps/10006.BMP"@,
        TerrainType::Swamp => "extracted/bitmaps/10004.BMP"@,
        TerrainType::Farmland => "extracted/bitmaps/10007.BMP"@,
    }
}

/// The bitmap that draws a terrain type.
pub fn terrain_asset_path(terrain: TerrainType) -> (path: &'static str)
    ensures
        path@ == terrain_bitmap(terrain),
{
    match terrain {
        TerrainType::Grass => "extracted/bitmaps/10000.BMP",
        TerrainType::Water => "extracted/bitmaps/10005.BMP",
        TerrainType::Mountain => "extracted/bitmaps/10003.BMP",
        TerrainType::Hills => "extracted/bitmaps/10002.BMP",
        TerrainType::Forest => "extracted/bitmaps/10001.BMP",
        TerrainType::Desert => "extracted/bitmaps/10006.BMP",
        TerrainType::Swamp => "extracted/bitmaps/10004.BMP",
        TerrainType::Farmland => "extracted/bitmaps/10007.BMP",
    }
}

/// Bitmap of a civilian unit type.
pub open spec fn civilian_bitmap(kind: CivilianKind) -> Seq<char> {
    match kind {
        CivilianKind::Engineer => "extracted/bitmaps/400.BMP"@,
        CivilianKind::Farmer => "extracted/bitmaps/401.BMP"@,
        CivilianKind::Miner => "extracted/bitmaps/402.BMP"@,
        CivilianKind::Prospector => "extracted/bitmaps/403.BMP"@,
        CivilianKind::Developer => "extracted/bitmaps/404.BMP"@,
        CivilianKind::Forester => "extracted/bitmaps/406.BMP"@,
        CivilianKind::Rancher => "extracted/bitmaps/407.BMP"@,
        CivilianKind::Driller => "extracted/bitmaps/408.BMP"@,
    }
}

/// The bitmap that draws a civilian unit type.
pub fn civilian_asset_path(kind: CivilianKind) -> (path: &'static str)
    ensures
        path@ == civilian_bitmap(kind),
{
    match kind {
        CivilianKind::Engineer => "extracted/bitmaps/400.BMP",
        CivilianKind::Farmer => "extracted/bitmaps/401.BMP",
        CivilianKind::Miner => "extracted/bitmaps/402.BMP",
        CivilianKind::Prospector => "extracted/bitmaps/403.BMP",
        CivilianKind::Developer => "extracted/bitmaps/404.BMP",
        CivilianKind::Forester => "extracted/bitmaps/406.BMP",
        CivilianKind::Rancher => "extracted/bitmaps/407.BMP",
        CivilianKind::Driller => "extracted/bitmaps/408.BMP",
    }
}

/// The bitmap that draws a depot.
pub fn depot_asset_path() -> (path: &'static str)
    ensures
        path@ == "extracted/bitmaps/554.BMP"@,
{
    "extracted/bitmaps/554.BMP"
}

/// The bitmap that draws a port.
pub fn port_asset_path() -> (path: &'static str)
    ensures
        path@ == "extracted/bitmaps/557.BMP"@,
{
    "extracted/bitmaps/557.BMP"
}

/// The bitmap that draws a capital city.
pub fn capital_asset_path() -> (path: &'static str)
    ensures
        path@ == "extracted/bitmaps/550.BMP"@,
{
    "extracted/bitmaps/550.BMP"
}

/// The bitmap that draws a town (the small town for every size).
pub fn town_asset_path() -> (path: &'static str)
    ensures
        path@ == "extracted/bitmaps/551.BMP"@,
{
    "extracted/bitmaps/551.BMP"
}

} // verus!
