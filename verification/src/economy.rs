//! Nation treasuries, goods and production buildings.

use vstd::prelude::*;

verus! {

/// Cash held by a nation.
#[derive(Clone, Copy, Debug, PartialEq, Eq, Structural)]
pub struct Treasury {
    pub total: i64,
}

/// `v` kept within the bounds of `i64`.
pub open spec fn saturate_i64(v: int) -> i64 {
    if v > i64::MAX {
        i64::MAX
    } else if v < i64::MIN {
        i64::MIN
    } else {
        v as i64
    }
}

impl Treasury {
    /// A treasury holding `total`.
    pub fn new(total: i64) -> (t: Treasury)
        ensures
            t.total == total,
    {
        Treasury { total }
    }

    /// All cash held.
    pub fn total(&self) -> (r: i64)
        ensures
            r == self.total,
    {
        self.total
    }

    /// Cash that can be spent now.
    pub fn available(&self) -> (r: i64)
        ensures
            r == self.total,
    {
        self.total
    }

    /// Adds `amount`; the balance saturates at the bounds of `i64`.
    pub fn add(&mut self, amount: i64)
        ensures
            final(self).total == saturate_i64(old(self).total + amount),
    {
        let sum: i128 = self.total as i128 + amount as i128;
        if sum > i64::MAX as i128 {
            self.total = i64::MAX;
        } else if sum < i64::MIN as i128 {
            self.total = i64::MIN;
        } else {
            self.total = sum as i64;
        }
    }

    /// Spends `amount`, which must not exceed the available cash; a negative
    /// amount adds cash, saturating at the bounds of `i64`.
    pub fn subtract(&mut self, amount: i64)
        requires
            amount <= old(self).total,
        ensures
            final(self).total == saturate_i64(old(self).total - amount),
    {
        let diff: i128 = self.total as i128 - amount as i128;
        if diff > i64::MAX as i128 {
            self.total = i64::MAX;
        } else {
            self.total = diff as i64;
        }
    }
}

/// A tradable good.
#[derive(Clone, Copy, Debug, PartialEq, Eq, Hash, Structural)]
pub enum Good {
    Grain,
    Fruit,
    Livestock,
    Fish,
    Cotton,
    Wool,
    Timber,
    Coal,
    Iron,
    Oil,
    Fabric,
    Paper,
    Lumber,
    Steel,
    Fuel,
    CannedFood,
    Clothing,
    Furniture,
    Hardware,
    Armaments,
    Transport,
}

/// Position of a good in the order goods are listed in.
pub open spec fn good_rank(g: Good) -> nat {
    match g {
        Good::Grain => 0,
        Good::Fruit => 1,
        Good::Livestock => 2,
        Good::Fish => 3,
        Good::Cotton => 4,
        Good::Wool => 5,
        Good::Timber => 6,
        Good::Coal => 7,
        Good::Iron => 8,
        Good::Oil => 9,
        Good::Fabric => 10,
        Good::Paper => 11,
        Good::Lumber => 12,
        Good::Steel => 13,
        Good::Fuel => 14,
        Good::CannedFood => 15,
        Good::Clothing => 16,
        Good::Furniture => 17,
        Good::Hardware => 18,
        Good::Armaments => 19,
        Good::Transport => 20,
    }
}

/// Grain, fruit, livestock and fish: food that is eaten as it comes.
pub open spec fn raw_food(g: Good) -> bool {
    matches!(g, Good::Grain | Good::Fruit | Good::Livestock | Good::Fish)
}

impl Good {
    /// Position of the good in the order goods are listed in.
    pub fn rank(&self) -> (r: u8)
        ensures
            r == good_rank(*self),
    {
        match self {
            Good::Grain => 0,
            Good::Fruit => 1,
            Good::Livestock => 2,
            Good::Fish => 3,
            Good::Cotton => 4,
            Good::Wool => 5,
            Good::Timber => 6,
            Good::Coal => 7,
            Good::Iron => 8,
            Good::Oil => 9,
            Good::Fabric => 10,
            Good::Paper => 11,
            Good::Lumber => 12,
            Good::Steel => 13,
            Good::Fuel => 14,
            Good::CannedFood => 15,
            Good::Clothing => 16,
            Good::Furniture => 17,
            Good::Hardware => 18,
            Good::Armaments => 19,
            Good::Transport => 20,
        }
    }

    /// True for food that is eaten as it comes (see `raw_food`).
    pub fn is_raw_food(&self) -> (r: bool)
        ensures
            r == raw_food(*self),
    {
        match self {
            Good::Grain | Good::Fruit | Good::Livestock | Good::Fish => true,
            _ => false,
        }
    }
}

/// A production building.
#[derive(Clone, Copy, Debug, PartialEq, Eq, Hash, Structural)]
pub enum BuildingKind {
    TextileMill,
    LumberMill,
    SteelMill,
    FoodProcessingCenter,
    ClothingFactory,
    FurnitureFactory,
    MetalWorks,
    Refinery,
    Railyard,
}

/// A category of goods the transport network carries.
#[derive(Clone, Copy, Debug, PartialEq, Eq, Hash, Structural)]
pub enum TransportCommodity {
    Grain,
    Fruit,
    Fiber,
    Meat,
    Timber,
    Coal,
    Iron,
    Precious,
    Oil,
    Fabric,
    Lumber,
    Paper,
    Steel,
    Fuel,
    Clothing,
    Furniture,
    Hardware,
    Armaments,
    CannedFood,
    Horses,
}

} // verus!
