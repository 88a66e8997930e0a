//! Natural resources found on map tiles and their development levels.

use vstd::prelude::*;

verus! {

/// Kind of natural resource a tile can hold.
#[derive(Clone, Copy, Debug, PartialEq, Eq, Hash, Structural)]
pub enum ResourceType {
    Grain,
    Cotton,
    Fruit,
    Wool,
    Livestock,
    Timber,
    Coal,
    Iron,
    Gold,
    Gems,
    Oil,
    Fish,
}

/// How far a resource tile has been developed.
#[derive(Clone, Copy, Debug, PartialEq, Eq, Hash, Structural)]
pub enum DevelopmentLevel {
    Lv0,
    Lv1,
    Lv2,
    Lv3,
}

/// Numeric rank of a development level (0 to 3).
pub open spec fn level_rank(d: DevelopmentLevel) -> nat {
    match d {
        DevelopmentLevel::Lv0 => 0,
        DevelopmentLevel::Lv1 => 1,
        DevelopmentLevel::Lv2 => 2,
        DevelopmentLevel::Lv3 => 3,
    }
}

/// The level one above `d` (the highest level stays where it is).
pub open spec fn next_level(d: DevelopmentLevel) -> DevelopmentLevel {
    match d {
        DevelopmentLevel::Lv0 => DevelopmentLevel::Lv1,
        DevelopmentLevel::Lv1 => DevelopmentLevel::Lv2,
        DevelopmentLevel::Lv2 => DevelopmentLevel::Lv3,
        DevelopmentLevel::Lv3 => DevelopmentLevel::Lv3,
    }
}

impl DevelopmentLevel {
    /// Numeric rank of this level.
    pub fn rank(&self) -> (r: u8)
        ensures
            r == level_rank(*self),
    {
        match self {
            DevelopmentLevel::Lv0 => 0,
            DevelopmentLevel::Lv1 => 1,
            DevelopmentLevel::Lv2 => 2,
            DevelopmentLevel::Lv3 => 3,
        }
    }

    /// True for the highest level, which cannot be improved further.
    pub fn is_max(&self) -> (r: bool)
        ensures
            r == (level_rank(*self) == 3),
    {
        match self {
            DevelopmentLevel::Lv3 => true,
            _ => false,
        }
    }
}

/// Minerals and oil must be prospected before they can be developed.
pub open spec fn is_mineral(r: ResourceType) -> bool {
    matches!(r, ResourceType::Coal | ResourceType::Iron | ResourceType::Gold | ResourceType::Gems | ResourceType::Oil)
}

/// A resource present on a tile.
#[derive(Clone, Copy, Debug, PartialEq, Eq, Structural)]
pub struct TileResource {
    pub resource_type: ResourceType,
    pub development: DevelopmentLevel,
    /// Whether the resource is known to exist.
    pub discovered: bool,
}

impl TileResource {
    /// A resource that is visible on the map from the start.
    pub fn visible(resource_type: ResourceType) -> (r: TileResource)
        ensures
            r.resource_type == resource_type,
            r.development == DevelopmentLevel::Lv0,
            r.discovered,
    {
        TileResource { resource_type, development: DevelopmentLevel::Lv0, discovered: true }
    }

    /// A mineral deposit that stays hidden until it is prospected.
    pub fn hidden_mineral(resource_type: ResourceType) -> (r: TileResource)
        ensures
            r.resource_type == resource_type,
            r.development == DevelopmentLevel::Lv0,
            !r.discovered,
    {
        TileResource { resource_type, development: DevelopmentLevel::Lv0, discovered: false }
    }

    /// True when the resource must be prospected by a nation before it can be developed.
    pub fn requires_prospecting(&self) -> (r: bool)
        ensures
            r == is_mineral(self.resource_type),
    {
        match self.resource_type {
            ResourceType::Coal | ResourceType::Iron | ResourceType::Gold | ResourceType::Gems
            | ResourceType::Oil => true,
            _ => false,
        }
    }

    /// Raises the development level by one; returns false, changing nothing,
    /// when the resource is already at the highest level.
    pub fn improve(&mut self) -> (changed: bool)
        ensures
            changed == (level_rank(old(self).development) < 3),
            level_rank(final(self).development) == if changed {
                level_rank(old(self).development) + 1
            } else {
                level_rank(old(self).development)
            },
            final(self).development == if changed {
                next_level(old(self).development)
            } else {
                old(self).development
            },
            final(self).resource_type == old(self).resource_type,
            final(self).discovered == old(self).discovered,
    {
        let next = match self.development {
            DevelopmentLevel::Lv0 => DevelopmentLevel::Lv1,
            DevelopmentLevel::Lv1 => DevelopmentLevel::Lv2,
            DevelopmentLevel::Lv2 => DevelopmentLevel::Lv3,
            DevelopmentLevel::Lv3 => {
                return false;
            },
        };
        self.development = next;
        true
    }

    /// Grain, cotton and fruit.
    pub fn improvable_by_farmer(&self) -> (r: bool)
        ensures
            r == matches!(self.resource_type, ResourceType::Grain | ResourceType::Cotton | ResourceType::Fruit),
    {
        matches!(self.resource_type, ResourceType::Grain | ResourceType::Cotton | ResourceType::Fruit)
    }

    /// Wool and livestock.
    pub fn improvable_by_rancher(&self) -> (r: bool)
        ensures
            r == matches!(self.resource_type, ResourceType::Wool | ResourceType::Livestock),
    {
        matches!(self.resource_type, ResourceType::Wool | ResourceType::Livestock)
    }

    /// Timber.
    pub fn improvable_by_forester(&self) -> (r: bool)
        ensures
            r == (self.resource_type == ResourceType::Timber),
    {
        matches!(self.resource_type, ResourceType::Timber)
    }

    /// Coal, iron, gold and gems.
    pub fn improvable_by_miner(&self) -> (r: bool)
        ensures
            r == matches!(self.resource_type, ResourceType::Coal | ResourceType::Iron | ResourceType::Gold | ResourceType::Gems),
    {
        matches!(self.resource_type, ResourceType::Coal | ResourceType::Iron | ResourceType::Gold | ResourceType::Gems)
    }

    /// Oil.
    pub fn improvable_by_driller(&self) -> (r: bool)
        ensures
            r == (self.resource_type == ResourceType::Oil),
    {
        matches!(self.resource_type, ResourceType::Oil)
    }
}

} // verus!
