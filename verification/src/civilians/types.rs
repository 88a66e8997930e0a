//! Civilian kinds, their orders and jobs, and prospecting knowledge.

use crate::map::TilePos;
use crate::resources::{ResourceType, TileResource};
use vstd::prelude::*;

verus! {

/// Tracks which nations have successfully prospected each mineral tile,
/// as `(tile, nation entity)` pairs.
pub struct ProspectingKnowledge {
    discoveries: Vec<(TilePos, u64)>,
}

impl View for ProspectingKnowledge {
    type V = Set<(TilePos, u64)>;

    closed spec fn view(&self) -> Set<(TilePos, u64)> {
        self.discoveries@.to_set()
    }
}

impl ProspectingKnowledge {
    /// Knowledge in which nothing has been prospected.
    pub fn new() -> (k: ProspectingKnowledge)
        ensures
            k@ == Set::<(TilePos, u64)>::empty(),
    {
        let k = ProspectingKnowledge { discoveries: Vec::new() };
        assert(k@ =~= Set::<(TilePos, u64)>::empty());
        k
    }

    /// Records that `nation` has prospected `tile`; true when this is new knowledge.
    pub fn mark_discovered(&mut self, tile: TilePos, nation: u64) -> (inserted: bool)
        ensures
            inserted == !old(self)@.contains((tile, nation)),
            final(self)@ == old(self)@.insert((tile, nation)),
    {
        broadcast use vstd::seq_lib::group_seq_properties;

        if self.is_discovered_by(tile, nation) {
            assert(old(self)@.insert((tile, nation)) =~= old(self)@);
            false
        } else {
            self.discoveries.push((tile, nation));
            assert(self@ =~= old(self)@.insert((tile, nation)));
            true
        }
    }

    /// True if `nation` has prospected `tile`.
    pub fn is_discovered_by(&self, tile: TilePos, nation: u64) -> (r: bool)
        ensures
            r == self@.contains((tile, nation)),
    {
        let mut i: usize = 0;
        while i < self.discoveries.len()
            invariant
                i <= self.discoveries@.len(),
                forall|j: int| 0 <= j < i ==> self.discoveries@[j] != (tile, nation),
            decreases self.discoveries@.len() - i,
        {
            let (t, n) = self.discoveries[i];
            if t == tile && n == nation {
                assert(self.discoveries@[i as int] == (tile, nation));
                return true;
            }
            i = i + 1;
        }
        false
    }

    /// Forgets everything known about `tile`.
    pub fn forget_tile(&mut self, tile: TilePos)
        ensures
            final(self)@ == old(self)@.filter(|p: (TilePos, u64)| p.0 != tile),
    {
        broadcast use vstd::seq_lib::group_seq_properties;

        let mut kept: Vec<(TilePos, u64)> = Vec::new();
        let mut i: usize = 0;
        while i < self.discoveries.len()
            invariant
                i <= self.discoveries@.len(),
                forall|p: (TilePos, u64)|
                    kept@.contains(p) <==> (self.discoveries@.take(i as int).contains(p) && p.0
                        != tile),
            decreases self.discoveries@.len() - i,
        {
            let entry = self.discoveries[i];
            assert(self.discoveries@.take(i + 1) =~= self.discoveries@.take(i as int).push(entry));
            let ghost prev = kept@;
            if entry.0 != tile {
                kept.push(entry);
            }
            assert forall|p: (TilePos, u64)|
                kept@.contains(p) <==> (self.discoveries@.take(i + 1).contains(p) && p.0
                    != tile) by {
                vstd::seq_lib::lemma_seq_contains_after_push(
                    self.discoveries@.take(i as int),
                    entry,
                    p,
                );
                if entry.0 != tile {
                    vstd::seq_lib::lemma_seq_contains_after_push(prev, entry, p);
                }
            }
            i = i + 1;
        }
        assert(self.discoveries@.take(i as int) =~= self.discoveries@);
        self.discoveries = kept;
        assert(self@ =~= old(self)@.filter(|p: (TilePos, u64)| p.0 != tile));
    }

    /// Forgets every discovery made by `nation`.
    pub fn forget_nation(&mut self, nation: u64)
        ensures
            final(self)@ == old(self)@.filter(|p: (TilePos, u64)| p.1 != nation),
    {
        broadcast use vstd::seq_lib::group_seq_properties;

        let mut kept: Vec<(TilePos, u64)> = Vec::new();
        let mut i: usize = 0;
        while i < self.discoveries.len()
            invariant
                i <= self.discoveries@.len(),
                forall|p: (TilePos, u64)|
                    kept@.contains(p) <==> (self.discoveries@.take(i as int).contains(p) && p.1
                        != nation),
            decreases self.discoveries@.len() - i,
        {
            let entry = self.discoveries[i];
            assert(self.discoveries@.take(i + 1) =~= self.discoveries@.take(i as int).push(entry));
            let ghost prev = kept@;
            if entry.1 != nation {
                kept.push(entry);
            }
            assert forall|p: (TilePos, u64)|
                kept@.contains(p) <==> (self.discoveries@.take(i + 1).contains(p) && p.1
                    != nation) by {
                vstd::seq_lib::lemma_seq_contains_after_push(
                    self.discoveries@.take(i as int),
                    entry,
                    p,
                );
                if entry.1 != nation {
                    vstd::seq_lib::lemma_seq_contains_after_push(prev, entry, p);
                }
            }
            i = i + 1;
        }
        assert(self.discoveries@.take(i as int) =~= self.discoveries@);
        self.discoveries = kept;
        assert(self@ =~= old(self)@.filter(|p: (TilePos, u64)| p.1 != nation));
    }
}

/// The type of multi-turn job a civilian can perform.
#[derive(Clone, Copy, Debug, PartialEq, Eq, Hash, Structural)]
pub enum JobType {
    BuildingRail,
    BuildingDepot,
    BuildingPort,
    Mining,
    Drilling,
    Prospecting,
    ImprovingTile,
}

/// Number of turns each job takes.
pub open spec fn job_duration(j: JobType) -> nat {
    match j {
        JobType::BuildingRail => 3,
        JobType::BuildingDepot => 2,
        JobType::BuildingPort => 2,
        JobType::Mining => 2,
        JobType::Drilling => 3,
        JobType::Prospecting => 1,
        JobType::ImprovingTile => 2,
    }
}

impl JobType {
    /// The number of turns required for this job type.
    pub fn duration(&self) -> (d: u32)
        ensures
            d == job_duration(*self),
    {
        match self {
            JobType::BuildingRail => 3,
            JobType::BuildingDepot => 2,
            JobType::BuildingPort => 2,
            JobType::Mining => 2,
            JobType::Drilling => 3,
            JobType::Prospecting => 1,
            JobType::ImprovingTile => 2,
        }
    }
}

/// How an order is executed once issued.
#[derive(Clone, Copy, Debug, PartialEq, Eq, Structural)]
pub enum CivilianOrderExecution {
    /// The order completes immediately with no persistent job.
    Instant,
    /// The order starts a job with a fixed duration.
    StartJob(JobType),
}

impl CivilianOrderExecution {
    /// The job started by this execution, if any.
    pub fn job_type(&self) -> (r: Option<JobType>)
        ensures
            r == match *self {
                CivilianOrderExecution::Instant => None,
                CivilianOrderExecution::StartJob(j) => Some(j),
            },
    {
        match self {
            CivilianOrderExecution::Instant => None,
            CivilianOrderExecution::StartJob(job_type) => Some(*job_type),
        }
    }
}

/// An order a civilian can be given.
#[derive(Clone, Copy, Debug, PartialEq, Eq, Structural)]
pub enum CivilianOrderKind {
    /// Build rail to an adjacent tile.
    BuildRail { to: TilePos },
    /// Build a depot at the current position.
    BuildDepot,
    /// Build a port at the current position.
    BuildPort,
    /// Move to the target tile.
    Move { to: TilePos },
    /// Reveal minerals at the target tile (prospector).
    Prospect { to: TilePos },
    /// Open or upgrade a mine at the target tile (miner).
    Mine { to: TilePos },
    /// Improve the resource at the target tile.
    ImproveTile { to: TilePos },
    /// Build a farm on a grain, fruit or cotton tile.
    BuildFarm { to: TilePos },
    /// Build an orchard on a fruit tile.
    BuildOrchard { to: TilePos },
    /// Do nothing this turn.
    SkipTurn,
    /// Do nothing until the order is rescinded.
    Sleep,
}

/// Index of the variant of an order, ignoring its target.
pub open spec fn order_variant(o: CivilianOrderKind) -> nat {
    match o {
        CivilianOrderKind::BuildRail { .. } => 0,
        CivilianOrderKind::BuildDepot => 1,
        CivilianOrderKind::BuildPort => 2,
        CivilianOrderKind::Move { .. } => 3,
        CivilianOrderKind::Prospect { .. } => 4,
        CivilianOrderKind::Mine { .. } => 5,
        CivilianOrderKind::ImproveTile { .. } => 6,
        CivilianOrderKind::BuildFarm { .. } => 7,
        CivilianOrderKind::BuildOrchard { .. } => 8,
        CivilianOrderKind::SkipTurn => 9,
        CivilianOrderKind::Sleep => 10,
    }
}

impl CivilianOrderKind {
    /// Index of the variant of this order, ignoring its target.
    pub fn variant_index(&self) -> (r: u8)
        ensures
            r == order_variant(*self),
    {
        match self {
            CivilianOrderKind::BuildRail { .. } => 0,
            CivilianOrderKind::BuildDepot => 1,
            CivilianOrderKind::BuildPort => 2,
            CivilianOrderKind::Move { .. } => 3,
            CivilianOrderKind::Prospect { .. } => 4,
            CivilianOrderKind::Mine { .. } => 5,
            CivilianOrderKind::ImproveTile { .. } => 6,
            CivilianOrderKind::BuildFarm { .. } => 7,
            CivilianOrderKind::BuildOrchard { .. } => 8,
            CivilianOrderKind::SkipTurn => 9,
            CivilianOrderKind::Sleep => 10,
        }
    }
}

/// Descriptor for an order that appears in the civilian UI and is available to the AI.
#[derive(Clone, Copy, Debug)]
pub struct CivilianOrderDefinition {
    pub label: &'static str,
    pub order: CivilianOrderKind,
    pub execution: CivilianOrderExecution,
}

impl CivilianOrderDefinition {
    /// True if this definition is for the same order variant as `other`.
    pub fn matches(&self, other: &CivilianOrderKind) -> (r: bool)
        ensures
            r == (order_variant(self.order) == order_variant(*other)),
    {
        self.order.variant_index() == other.variant_index()
    }
}

/// Predicate that decides which resources a civilian kind can improve.
#[derive(Clone, Copy, Debug, PartialEq, Eq, Structural)]
pub enum ImprovementPredicate {
    Farmer,
    Rancher,
    Forester,
    Miner,
    Driller,
}

/// Resource types each predicate accepts.
pub open spec fn predicate_accepts(p: ImprovementPredicate, r: ResourceType) -> bool {
    match p {
        ImprovementPredicate::Farmer => matches!(r, ResourceType::Grain | ResourceType::Cotton | ResourceType::Fruit),
        ImprovementPredicate::Rancher => matches!(r, ResourceType::Wool | ResourceType::Livestock),
        ImprovementPredicate::Forester => r == ResourceType::Timber,
        ImprovementPredicate::Miner => matches!(r, ResourceType::Coal | ResourceType::Iron | ResourceType::Gold | ResourceType::Gems),
        ImprovementPredicate::Driller => r == ResourceType::Oil,
    }
}

impl ImprovementPredicate {
    /// Whether a civilian with this predicate can improve `resource`.
    pub fn accepts(&self, resource: &TileResource) -> (r: bool)
        ensures
            r == predicate_accepts(*self, resource.resource_type),
    {
        match self {
            ImprovementPredicate::Farmer => resource.improvable_by_farmer(),
            ImprovementPredicate::Rancher => resource.improvable_by_rancher(),
            ImprovementPredicate::Forester => resource.improvable_by_forester(),
            ImprovementPredicate::Miner => resource.improvable_by_miner(),
            ImprovementPredicate::Driller => resource.improvable_by_driller(),
        }
    }
}

/// Static metadata describing how a civilian behaves in the UI and systems.
#[derive(Clone, Debug)]
pub struct CivilianKindDefinition {
    pub display_name: &'static str,
    pub orders: Vec<CivilianOrderDefinition>,
    pub resource_predicate: Option<ImprovementPredicate>,
    pub improvement_job: Option<JobType>,
    pub show_orders_panel: bool,
}

/// Type of civilian unit.
#[derive(Clone, Copy, Debug, PartialEq, Eq, Hash, Structural)]
pub enum CivilianKind {
    /// Reveals minerals (coal, iron, gold, gems, oil).
    Prospector,
    /// Opens and upgrades mines.
    Miner,
    /// Improves grain, fruit and cotton.
    Farmer,
    /// Improves wool and livestock.
    Rancher,
    /// Improves timber.
    Forester,
    /// Improves oil.
    Driller,
    /// Builds rails, depots and ports.
    Engineer,
    /// Works in minor nations.
    Developer,
}

/// Placeholder target carried by the orders listed in a kind's definition.
pub open spec fn origin() -> TilePos {
    TilePos { x: 0, y: 0 }
}

/// The orders (order, execution) each kind offers, in display order.
pub open spec fn kind_orders(k: CivilianKind) -> Seq<(CivilianOrderKind, CivilianOrderExecution)> {
    match k {
        CivilianKind::Engineer => seq![
            (CivilianOrderKind::BuildDepot, CivilianOrderExecution::StartJob(JobType::BuildingDepot)),
            (CivilianOrderKind::BuildPort, CivilianOrderExecution::StartJob(JobType::BuildingPort)),
        ],
        CivilianKind::Farmer | CivilianKind::Rancher | CivilianKind::Forester => seq![
            (CivilianOrderKind::ImproveTile { to: origin() }, CivilianOrderExecution::StartJob(JobType::ImprovingTile)),
        ],
        CivilianKind::Miner => seq![
            (CivilianOrderKind::Mine { to: origin() }, CivilianOrderExecution::StartJob(JobType::Mining)),
        ],
        CivilianKind::Driller => seq![
            (CivilianOrderKind::ImproveTile { to: origin() }, CivilianOrderExecution::StartJob(JobType::Drilling)),
        ],
        CivilianKind::Prospector => seq![
            (CivilianOrderKind::Prospect { to: origin() }, CivilianOrderExecution::StartJob(JobType::Prospecting)),
        ],
        CivilianKind::Developer => seq![],
    }
}

/// The UI labels of each kind's orders, in the same order as `kind_orders`.
pub open spec fn kind_order_labels(k: CivilianKind) -> Seq<Seq<char>> {
    match k {
        CivilianKind::Engineer => seq!["Build Depot"@, "Build Port"@],
        CivilianKind::Farmer | CivilianKind::Rancher | CivilianKind::Forester => seq!["Improve Tile"@],
        CivilianKind::Miner => seq!["Develop Mine"@],
        CivilianKind::Driller => seq!["Drill Well"@],
        CivilianKind::Prospector => seq!["Prospect Tile"@],
        CivilianKind::Developer => seq![],
    }
}

/// Display name of each kind.
pub open spec fn kind_display_name(k: CivilianKind) -> Seq<char> {
    match k {
        CivilianKind::Engineer => "Engineer"@,
        CivilianKind::Farmer => "Farmer"@,
        CivilianKind::Rancher => "Rancher"@,
        CivilianKind::Forester => "Forester"@,
        CivilianKind::Miner => "Miner"@,
        CivilianKind::Driller => "Driller"@,
        CivilianKind::Prospector => "Prospector"@,
        CivilianKind::Developer => "Developer"@,
    }
}

/// The resource predicate of each kind that improves tiles.
pub open spec fn kind_predicate(k: CivilianKind) -> Option<ImprovementPredicate> {
    match k {
        CivilianKind::Farmer => Some(ImprovementPredicate::Farmer),
        CivilianKind::Rancher => Some(ImprovementPredicate::Rancher),
        CivilianKind::Forester => Some(ImprovementPredicate::Forester),
        CivilianKind::Miner => Some(ImprovementPredicate::Miner),
        CivilianKind::Driller => Some(ImprovementPredicate::Driller),
        _ => None,
    }
}

/// The job each tile-improving kind starts.
pub open spec fn kind_improvement_job(k: CivilianKind) -> Option<JobType> {
    match k {
        CivilianKind::Farmer | CivilianKind::Rancher | CivilianKind::Forester => Some(
            JobType::ImprovingTile,
        ),
        CivilianKind::Miner => Some(JobType::Mining),
        CivilianKind::Driller => Some(JobType::Drilling),
        _ => None,
    }
}

/// The definition `d` describes kind `k`.
pub open spec fn describes(d: CivilianKindDefinition, k: CivilianKind) -> bool {
    &&& d.display_name@ == kind_display_name(k)
    &&& d.orders@.len() == kind_orders(k).len()
    &&& forall|i: int|
        0 <= i < d.orders@.len() ==> (#[trigger] d.orders@[i]).order == kind_orders(k)[i].0
            && d.orders@[i].execution == kind_orders(k)[i].1 && d.orders@[i].label@
            == kind_order_labels(k)[i]
    &&& d.resource_predicate == kind_predicate(k)
    &&& d.improvement_job == kind_improvement_job(k)
    &&& d.show_orders_panel == (k == CivilianKind::Engineer)
}

/// The order definition a kind offers for the variant of `o`: the first
/// listed one with that variant, or `None`.
pub open spec fn definition_for(k: CivilianKind, o: CivilianOrderKind) -> Option<
    (CivilianOrderKind, CivilianOrderExecution),
> {
    let orders = kind_orders(k);
    if orders.len() > 0 && order_variant(orders[0].0) == order_variant(o) {
        Some(orders[0])
    } else if orders.len() > 1 && order_variant(orders[1].0) == order_variant(o) {
        Some(orders[1])
    } else {
        None
    }
}

/// Whether a kind can carry out an order.
pub open spec fn kind_supports(k: CivilianKind, o: CivilianOrderKind) -> bool {
    match o {
        CivilianOrderKind::Move { .. } => true,
        CivilianOrderKind::BuildRail { .. } => k == CivilianKind::Engineer,
        _ => definition_for(k, o).is_some(),
    }
}

/// The order a kind issues when its own tile is clicked.
pub open spec fn default_tile_order(k: CivilianKind, tile: TilePos) -> Option<CivilianOrderKind> {
    match k {
        CivilianKind::Prospector => Some(CivilianOrderKind::Prospect { to: tile }),
        CivilianKind::Miner => Some(CivilianOrderKind::Mine { to: tile }),
        CivilianKind::Farmer | CivilianKind::Rancher | CivilianKind::Forester
        | CivilianKind::Driller => Some(CivilianOrderKind::ImproveTile { to: tile }),
        _ => None,
    }
}

fn order_def(
    label: &'static str,
    order: CivilianOrderKind,
    execution: CivilianOrderExecution,
) -> (d: CivilianOrderDefinition)
    ensures
        d.label == label,
        d.order == order,
        d.execution == execution,
{
    CivilianOrderDefinition { label, order, execution }
}

impl CivilianKind {
    /// Metadata of this kind: name, orders, improvement rules and UI panel.
    pub fn definition(&self) -> (d: CivilianKindDefinition)
        ensures
            describes(d, *self),
    {
        let origin = TilePos { x: 0, y: 0 };
        let mut orders: Vec<CivilianOrderDefinition> = Vec::new();
        match self {
            CivilianKind::Engineer => {
                orders.push(
                    order_def(
                        "Build Depot",
                        CivilianOrderKind::BuildDepot,
                        CivilianOrderExecution::StartJob(JobType::BuildingDepot),
                    ),
                );
                orders.push(
                    order_def(
                        "Build Port",
                        CivilianOrderKind::BuildPort,
                        CivilianOrderExecution::StartJob(JobType::BuildingPort),
                    ),
                );
                CivilianKindDefinition {
                    display_name: "Engineer",
                    orders,
                    resource_predicate: None,
                    improvement_job: None,
                    show_orders_panel: true,
                }
            },
            CivilianKind::Farmer => {
                orders.push(
                    order_def(
                        "Improve Tile",
                        CivilianOrderKind::ImproveTile { to: origin },
                        CivilianOrderExecution::StartJob(JobType::ImprovingTile),
                    ),
                );
                CivilianKindDefinition {
                    display_name: "Farmer",
                    orders,
                    resource_predicate: Some(ImprovementPredicate::Farmer),
                    improvement_job: Some(JobType::ImprovingTile),
                    show_orders_panel: false,
                }
            },
            CivilianKind::Rancher => {
                orders.push(
                    order_def(
                        "Improve Tile",
                        CivilianOrderKind::ImproveTile { to: origin },
                        CivilianOrderExecution::StartJob(JobType::ImprovingTile),
                    ),
                );
                CivilianKindDefinition {
                    display_name: "Rancher",
                    orders,
                    resource_predicate: Some(ImprovementPredicate::Rancher),
                    improvement_job: Some(JobType::ImprovingTile),
                    show_orders_panel: false,
                }
            },
            CivilianKind::Forester => {
                orders.push(
                    order_def(
                        "Improve Tile",
                        CivilianOrderKind::ImproveTile { to: origin },
                        CivilianOrderExecution::StartJob(JobType::ImprovingTile),
                    ),
                );
                CivilianKindDefinition {
                    display_name: "Forester",
                    orders,
                    resource_predicate: Some(ImprovementPredicate::Forester),
                    improvement_job: Some(JobType::ImprovingTile),
                    show_orders_panel: false,
                }
            },
            CivilianKind::Miner => {
                orders.push(
                    order_def(
                        "Develop Mine",
                        CivilianOrderKind::Mine { to: origin },
                        CivilianOrderExecution::StartJob(JobType::Mining),
                    ),
                );
                CivilianKindDefinition {
                    display_name: "Miner",
                    orders,
                    resource_predicate: Some(ImprovementPredicate::Miner),
                    improvement_job: Some(JobType::Mining),
                    show_orders_panel: false,
                }
            },
            CivilianKind::Driller => {
                orders.push(
                    order_def(
                        "Drill Well",
                        CivilianOrderKind::ImproveTile { to: origin },
                        CivilianOrderExecution::StartJob(JobType::Drilling),
                    ),
                );
                CivilianKindDefinition {
                    display_name: "Driller",
                    orders,
                    resource_predicate: Some(ImprovementPredicate::Driller),
                    improvement_job: Some(JobType::Drilling),
                    show_orders_panel: false,
                }
            },
            CivilianKind::Prospector => {
                orders.push(
                    order_def(
                        "Prospect Tile",
                        CivilianOrderKind::Prospect { to: origin },
                        CivilianOrderExecution::StartJob(JobType::Prospecting),
                    ),
                );
                CivilianKindDefinition {
                    display_name: "Prospector",
                    orders,
                    resource_predicate: None,
                    improvement_job: None,
                    show_orders_panel: false,
                }
            },
            CivilianKind::Developer => CivilianKindDefinition {
                display_name: "Developer",
                orders,
                resource_predicate: None,
                improvement_job: None,
                show_orders_panel: false,
            },
        }
    }

    /// True if the civilian can improve tile resources.
    pub fn supports_improvements(&self) -> (r: bool)
        ensures
            r == kind_improvement_job(*self).is_some(),
    {
        self.definition().improvement_job.is_some()
    }

    /// True if the civilian shows an orders panel when selected.
    pub fn shows_orders_panel(&self) -> (r: bool)
        ensures
            r == (*self == CivilianKind::Engineer),
    {
        self.definition().show_orders_panel
    }

    /// The order to issue when the civilian's own tile is clicked.
    pub fn default_tile_action_order(&self, tile_pos: TilePos) -> (r: Option<CivilianOrderKind>)
        ensures
            r == default_tile_order(*self, tile_pos),
    {
        match self {
            CivilianKind::Prospector => Some(CivilianOrderKind::Prospect { to: tile_pos }),
            CivilianKind::Miner => Some(CivilianOrderKind::Mine { to: tile_pos }),
            CivilianKind::Farmer | CivilianKind::Rancher | CivilianKind::Forester
            | CivilianKind::Driller => Some(CivilianOrderKind::ImproveTile { to: tile_pos }),
            _ => None,
        }
    }

    /// The predicate used to validate improvements.
    pub fn improvement_predicate(&self) -> (r: Option<ImprovementPredicate>)
        ensures
            r == kind_predicate(*self),
    {
        self.definition().resource_predicate
    }

    /// The job started when issuing an improvement order.
    pub fn improvement_job(&self) -> (r: Option<JobType>)
        ensures
            r == kind_improvement_job(*self),
    {
        self.definition().improvement_job
    }

    /// All orders the civilian exposes to the UI and AI.
    pub fn available_orders(&self) -> (r: Vec<CivilianOrderDefinition>)
        ensures
            r@.len() == kind_orders(*self).len(),
            forall|i: int|
                0 <= i < r@.len() ==> (#[trigger] r@[i]).order == kind_orders(*self)[i].0
                    && r@[i].execution == kind_orders(*self)[i].1,
    {
        self.definition().orders
    }

    /// The first listed order definition with the variant of `order`, if any.
    pub fn order_definition(&self, order: &CivilianOrderKind) -> (r: Option<
        CivilianOrderDefinition,
    >)
        ensures
            match r {
                Some(d) => definition_for(*self, *order) == Some((d.order, d.execution)),
                None => definition_for(*self, *order).is_none(),
            },
    {
        let orders = self.available_orders();
        let mut i: usize = 0;
        while i < orders.len()
            invariant
                orders@.len() == kind_orders(*self).len(),
                orders@.len() <= 2,
                forall|j: int|
                    0 <= j < orders@.len() ==> (#[trigger] orders@[j]).order == kind_orders(
                        *self,
                    )[j].0 && orders@[j].execution == kind_orders(*self)[j].1,
                i <= orders@.len(),
                forall|j: int|
                    0 <= j < i ==> order_variant(kind_orders(*self)[j].0) != order_variant(
                        *order,
                    ),
            decreases orders@.len() - i,
        {
            if orders[i].matches(order) {
                return Some(orders[i]);
            }
            i = i + 1;
        }
        None
    }

    /// Whether this civilian can carry out `order`.
    pub fn supports_order(&self, order: &CivilianOrderKind) -> (r: bool)
        ensures
            r == kind_supports(*self, *order),
    {
        match order {
            CivilianOrderKind::Move { .. } => true,
            CivilianOrderKind::BuildRail { .. } => *self == CivilianKind::Engineer,
            _ => self.order_definition(order).is_some(),
        }
    }
}

/// Identifier of a civilian unit, unique across the game.
#[derive(Clone, Copy, Debug, PartialEq, Eq, Hash, Structural)]
pub struct CivilianId(pub u32);

/// A civilian unit.
#[derive(Clone, Copy, Debug, PartialEq, Eq, Structural)]
pub struct Civilian {
    pub kind: CivilianKind,
    pub position: TilePos,
    /// Entity id of the nation that owns this unit.
    pub owner: u64,
    pub civilian_id: CivilianId,
    /// True once the unit has used its action this turn.
    pub has_moved: bool,
}

/// Pending order of a civilian unit.
#[derive(Clone, Copy, Debug, PartialEq, Eq, Structural)]
pub struct CivilianOrder {
    pub target: CivilianOrderKind,
}

/// Ongoing multi-turn job of a civilian.
#[derive(Clone, Copy, Debug, PartialEq, Eq, Structural)]
pub struct CivilianJob {
    pub job_type: JobType,
    pub turns_remaining: u32,
    /// Where the job is happening.
    pub target: TilePos,
}

/// Position of a civilian before it moved or acted, kept so the action can be undone.
#[derive(Clone, Copy, Debug, PartialEq, Eq, Structural)]
pub struct PreviousPosition(pub TilePos);

/// Turn on which an action was taken, used to decide refunds when rescinding.
#[derive(Clone, Copy, Debug, PartialEq, Eq, Structural)]
pub struct ActionTurn(pub u32);

} // verus!
