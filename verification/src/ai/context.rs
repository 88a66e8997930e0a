//! What the AI remembers between the steps of a turn: market observations,
//! cooldowns on its plans, and its beliefs about nations.

use crate::ai::snapshot::{stock_entry, StockpileEntry};
use crate::economy::Good;
use crate::map::TilePos;
use vstd::prelude::*;

verus! {

/// Phase of the game turn.
#[derive(Clone, Copy, Debug, PartialEq, Eq, Structural)]
pub enum TurnPhase {
    PlayerTurn,
    Processing,
    EnemyTurn,
}

/// True exactly when the enemy turn has just begun: the phase is the enemy
/// turn and the phase seen last time was not. Remembers the phase.
pub fn enemy_turn_entered(last_phase: &mut Option<TurnPhase>, current: TurnPhase) -> (r: bool)
    ensures
        *final(last_phase) == Some(current),
        r == (current == TurnPhase::EnemyTurn && *old(last_phase) != Some(TurnPhase::EnemyTurn)),
{
    let previous = *last_phase;
    *last_phase = Some(current);
    let was_enemy = match previous {
        Some(TurnPhase::EnemyTurn) => true,
        _ => false,
    };
    current == TurnPhase::EnemyTurn && !was_enemy
}

/// Identifier of a minor nation the AI can invest in.
#[derive(Clone, Copy, Debug, PartialEq, Eq, Hash, Structural)]
pub struct MinorId(pub u16);

/// A macro-level action the AI can pursue this turn.
#[derive(Clone, Copy, Debug, PartialEq, Eq, Hash, Structural)]
pub enum MacroTag {
    BuyResource { good: Good },
    UpgradeRail { from: TilePos, to: TilePos },
    InvestMinor { minor: MinorId },
}

/// Market facts about one good.
#[derive(Clone, Copy, Debug, PartialEq, Eq, Structural)]
pub struct MarketObservation {
    pub price: u32,
    pub supply: u32,
    pub demand: u32,
}

/// The latest observation of each good.
pub open spec fn observations_map(s: Seq<(Good, MarketObservation)>) -> Map<Good, MarketObservation>
    decreases s.len(),
{
    if s.len() == 0 {
        Map::empty()
    } else {
        observations_map(s.drop_last()).insert(s.last().0, s.last().1)
    }
}

/// Market information shared by the AI's decisions.
#[derive(Clone, Debug)]
pub struct MarketView {
    observations: Vec<(Good, MarketObservation)>,
}

impl View for MarketView {
    type V = Map<Good, MarketObservation>;

    closed spec fn view(&self) -> Map<Good, MarketObservation> {
        observations_map(self.observations@)
    }
}

/// The deficit to buy, capped by the market's unmet demand (at least 1);
/// none when nothing is missing.
pub open spec fn buy_recommendation(obs: Option<MarketObservation>, available: u32, desired: u32) -> Option<u32> {
    if available >= desired {
        None
    } else {
        let deficit = (desired - available) as u32;
        let max_qty: u32 = match obs {
            Some(o) => if o.demand > o.supply {
                (o.demand - o.supply) as u32
            } else {
                0
            },
            None => deficit,
        };
        let cap: u32 = if max_qty < 1 {
            1
        } else {
            max_qty
        };
        Some(
            if deficit < cap {
                deficit
            } else {
                cap
            },
        )
    }
}

impl MarketView {
    /// A view with no observations.
    pub fn new() -> (v: MarketView)
        ensures
            v@ == Map::<Good, MarketObservation>::empty(),
    {
        MarketView { observations: Vec::new() }
    }

    /// Forgets every observation.
    pub fn clear(&mut self)
        ensures
            final(self)@ == Map::<Good, MarketObservation>::empty(),
    {
        self.observations.clear();
    }

    /// Records the latest observation of `good`.
    pub fn record(&mut self, good: Good, observation: MarketObservation)
        ensures
            final(self)@ == old(self)@.insert(good, observation),
    {
        self.observations.push((good, observation));
        assert(self.observations@.drop_last() =~= old(self).observations@);
    }

    fn observation(&self, good: Good) -> (r: Option<MarketObservation>)
        ensures
            r == (if self@.contains_key(good) {
                Some(self@[good])
            } else {
                None
            }),
    {
        let mut k: usize = self.observations.len();
        assert(self.observations@.take(k as int) =~= self.observations@);
        while k > 0
            invariant
                k <= self.observations@.len(),
                forall|j: int| k <= j < self.observations@.len() ==> (#[trigger] self.observations@[j]).0 != good,
                (if self@.contains_key(good) {
                    Some(self@[good])
                } else {
                    None
                }) == (if observations_map(self.observations@.take(k as int)).contains_key(good) {
                    Some(observations_map(self.observations@.take(k as int))[good])
                } else {
                    None
                }),
            decreases k,
        {
            let (g, o) = self.observations[k - 1];
            assert(self.observations@.take(k as int).drop_last() =~= self.observations@.take(k - 1));
            if g == good {
                return Some(o);
            }
            k = k - 1;
        }
        None
    }

    /// The observed price of `good`, or 100 when unobserved.
    pub fn price_for(&self, good: Good) -> (p: u32)
        ensures
            p == (if self@.contains_key(good) {
                self@[good].price
            } else {
                100
            }),
    {
        match self.observation(good) {
            Some(o) => o.price,
            None => 100,
        }
    }

    /// How much of `good` to buy to go from `available` to `desired`, no more
    /// than the market's unmet demand (but at least 1); none when nothing is
    /// missing.
    pub fn recommended_buy_qty(&self, good: Good, available: u32, desired: u32) -> (r: Option<u32>)
        ensures
            r == buy_recommendation(
                if self@.contains_key(good) {
                    Some(self@[good])
                } else {
                    None
                },
                available,
                desired,
            ),
    {
        if available >= desired {
            return None;
        }
        let deficit = desired - available;
        let max_qty = match self.observation(good) {
            Some(o) => o.demand.saturating_sub(o.supply),
            None => deficit,
        };
        let cap = if max_qty < 1 {
            1
        } else {
            max_qty
        };
        Some(
            if deficit < cap {
                deficit
            } else {
                cap
            },
        )
    }
}

/// Cooldowns on macro plans, so the AI does not toggle them every turn.
pub struct AiPlanLedger {
    cooldowns: Vec<((u64, MacroTag), u8)>,
    last_turn: Option<u32>,
}

spec fn keys_distinct(s: Seq<((u64, MacroTag), u8)>) -> bool {
    forall|i: int, j: int| 0 <= i < j < s.len() ==> (#[trigger] s[i]).0 != (#[trigger] s[j]).0
}

spec fn has_key(s: Seq<((u64, MacroTag), u8)>, k: (u64, MacroTag)) -> bool {
    exists|j: int| 0 <= j < s.len() && (#[trigger] s[j]).0 == k
}

spec fn had_long(s: Seq<((u64, MacroTag), u8)>, n: int, k: (u64, MacroTag)) -> bool {
    exists|j: int| 0 <= j < n && (#[trigger] s[j]).0 == k && s[j].1 > 1
}

/// Each kept entry is an entry of `s` before `n` with a cooldown above 1,
/// lowered by one.
spec fn kept_from(kept: Seq<((u64, MacroTag), u8)>, s: Seq<((u64, MacroTag), u8)>, n: int) -> bool {
    forall|j: int| 0 <= j < kept.len() ==> kept_entry_from(#[trigger] kept[j], s, n)
}

spec fn kept_entry_from(e: ((u64, MacroTag), u8), s: Seq<((u64, MacroTag), u8)>, n: int) -> bool {
    exists|o: int| 0 <= o < n && (#[trigger] s[o]).0 == e.0 && s[o].1 > 1 && e.1 == s[o].1 - 1
}

proof fn lemma_kept_from_grow(kept: Seq<((u64, MacroTag), u8)>, s: Seq<((u64, MacroTag), u8)>, n: int, m: int)
    requires
        kept_from(kept, s, n),
        n <= m,
    ensures
        kept_from(kept, s, m),
{
    assert forall|j: int| 0 <= j < kept.len() implies kept_entry_from(#[trigger] kept[j], s, m) by {
        assert(kept_entry_from(kept[j], s, n));
        let o = choose|o: int| 0 <= o < n && (#[trigger] s[o]).0 == kept[j].0 && s[o].1 > 1 && kept[j].1 == s[o].1 - 1;
        assert(0 <= o < m && s[o].0 == kept[j].0 && s[o].1 > 1 && kept[j].1 == s[o].1 - 1);
    }
}

spec fn cooldown_map(s: Seq<((u64, MacroTag), u8)>) -> Map<(u64, MacroTag), u8> {
    Map::new(
        |k: (u64, MacroTag)| exists|i: int| 0 <= i < s.len() && (#[trigger] s[i]).0 == k,
        |k: (u64, MacroTag)| s[choose|i: int| 0 <= i < s.len() && (#[trigger] s[i]).0 == k].1,
    )
}

/// Cooldowns after a new turn: each drops by one, and those reaching zero end.
pub open spec fn cooled(m: Map<(u64, MacroTag), u8>) -> Map<(u64, MacroTag), u8> {
    Map::new(|k: (u64, MacroTag)| m.contains_key(k) && m[k] > 1, |k: (u64, MacroTag)| (m[k] - 1) as u8)
}

impl View for AiPlanLedger {
    type V = Map<(u64, MacroTag), u8>;

    closed spec fn view(&self) -> Map<(u64, MacroTag), u8> {
        cooldown_map(self.cooldowns@)
    }
}

impl AiPlanLedger {
    #[verifier::type_invariant]
    spec fn ledger_ok(self) -> bool {
        keys_distinct(self.cooldowns@)
    }

    /// The turn the ledger last advanced to.
    pub closed spec fn last_turn_seen(&self) -> Option<u32> {
        self.last_turn
    }

    /// An empty ledger that has seen no turn.
    pub fn new() -> (l: AiPlanLedger)
        ensures
            l@ == Map::<(u64, MacroTag), u8>::empty(),
            l.last_turn_seen() is None,
    {
        let l = AiPlanLedger { cooldowns: Vec::new(), last_turn: None };
        assert(l@ =~= Map::<(u64, MacroTag), u8>::empty());
        l
    }

    fn index_of(&self, key: (u64, MacroTag)) -> (r: Option<usize>)
        ensures
            match r {
                Some(i) => i < self.cooldowns@.len() && self.cooldowns@[i as int].0 == key,
                None => !self@.contains_key(key),
            },
    {
        let mut i: usize = 0;
        while i < self.cooldowns.len()
            invariant
                i <= self.cooldowns@.len(),
                forall|j: int| 0 <= j < i ==> (#[trigger] self.cooldowns@[j]).0 != key,
            decreases self.cooldowns@.len() - i,
        {
            let (k, _v) = self.cooldowns[i];
            if k.0 == key.0 && k.1 == key.1 {
                return Some(i);
            }
            i = i + 1;
        }
        None
    }

    /// Puts a cooldown of `turns` (at least 1) on `tag` for `nation`.
    pub fn apply_cooldown(&mut self, nation: u64, tag: MacroTag, turns: u8)
        ensures
            final(self)@ == old(self)@.insert(
                (nation, tag),
                if turns < 1 {
                    1u8
                } else {
                    turns
                },
            ),
            final(self).last_turn_seen() == old(self).last_turn_seen(),
    {
        proof {
            use_type_invariant(&*self);
        }
        let key = (nation, tag);
        let value: u8 = if turns < 1 {
            1
        } else {
            turns
        };
        let ghost old_s = self.cooldowns@;
        let found = self.index_of(key);
        let mut v: Vec<((u64, MacroTag), u8)> = Vec::new();
        std::mem::swap(&mut v, &mut self.cooldowns);
        match found {
            Some(i) => {
                v.set(i, (key, value));
                proof {
                    let s = v@;
                    assert forall|a: int, b: int| 0 <= a < b < s.len() implies (#[trigger] s[a]).0 != (#[trigger] s[b]).0 by {
                        assert(old_s[a].0 != old_s[b].0);
                    }
                    assert forall|k: (u64, MacroTag)| cooldown_map(s).contains_key(k) == old(self)@.insert(key, value).contains_key(k) by {
                        if k == key {
                            assert(s[i as int].0 == k);
                        } else if cooldown_map(s).contains_key(k) {
                            let j = choose|j: int| 0 <= j < s.len() && (#[trigger] s[j]).0 == k;
                            assert(old_s[j].0 == k);
                        } else if old(self)@.contains_key(k) {
                            let j = choose|j: int| 0 <= j < old_s.len() && (#[trigger] old_s[j]).0 == k;
                            assert(s[j].0 == k);
                        }
                    }
                    assert forall|k: (u64, MacroTag)| #[trigger] cooldown_map(s).contains_key(k) implies cooldown_map(s)[k] == old(self)@.insert(key, value)[k] by {
                        let j = choose|j: int| 0 <= j < s.len() && (#[trigger] s[j]).0 == k;
                        if k != key {
                            assert(old_s[j].0 == k);
                            let jo = choose|jo: int| 0 <= jo < old_s.len() && (#[trigger] old_s[jo]).0 == k;
                            assert(jo == j);
                        } else {
                            assert(j == i);
                        }
                    }
                    assert(cooldown_map(s) =~= old(self)@.insert(key, value));
                }
            },
            None => {
                v.push((key, value));
                proof {
                    let s = v@;
                    assert forall|a: int, b: int| 0 <= a < b < s.len() implies (#[trigger] s[a]).0 != (#[trigger] s[b]).0 by {
                        if b == s.len() - 1 {
                            if old_s[a].0 == key {
                                assert(old(self)@.contains_key(key));
                            }
                        } else {
                            assert(old_s[a].0 != old_s[b].0);
                        }
                    }
                    assert forall|k: (u64, MacroTag)| cooldown_map(s).contains_key(k) == old(self)@.insert(key, value).contains_key(k) by {
                        if k == key {
                            assert(s[s.len() - 1].0 == k);
                        } else if cooldown_map(s).contains_key(k) {
                            let j = choose|j: int| 0 <= j < s.len() && (#[trigger] s[j]).0 == k;
                            assert(old_s[j].0 == k);
                        } else if old(self)@.contains_key(k) {
                            let j = choose|j: int| 0 <= j < old_s.len() && (#[trigger] old_s[j]).0 == k;
                            assert(s[j].0 == k);
                        }
                    }
                    assert forall|k: (u64, MacroTag)| #[trigger] cooldown_map(s).contains_key(k) implies cooldown_map(s)[k] == old(self)@.insert(key, value)[k] by {
                        let j = choose|j: int| 0 <= j < s.len() && (#[trigger] s[j]).0 == k;
                        if k != key {
                            assert(old_s[j].0 == k);
                            let jo = choose|jo: int| 0 <= jo < old_s.len() && (#[trigger] old_s[jo]).0 == k;
                            assert(jo == j);
                        } else {
                            assert(j == s.len() - 1);
                        }
                    }
                    assert(cooldown_map(s) =~= old(self)@.insert(key, value));
                }
            },
        }
        self.cooldowns = v;
    }

    /// True while a cooldown runs on `tag` for `nation`.
    pub fn cooldown_active(&self, nation: u64, tag: &MacroTag) -> (r: bool)
        ensures
            r == (self@.contains_key((nation, *tag)) && self@[(nation, *tag)] > 0),
    {
        proof {
            use_type_invariant(self);
        }
        match self.index_of((nation, *tag)) {
            Some(i) => {
                proof {
                    let s = self.cooldowns@;
                    assert(cooldown_map(s).contains_key((nation, *tag)));
                    let j = choose|j: int| 0 <= j < s.len() && (#[trigger] s[j]).0 == (nation, *tag);
                    assert(j == i);
                }
                self.cooldowns[i].1 > 0
            },
            None => false,
        }
    }

    /// Starts turn `turn`: the first time it is seen, every cooldown drops by
    /// one and those reaching zero end; seeing the same turn again changes
    /// nothing.
    pub fn advance_turn(&mut self, turn: u32)
        ensures
            old(self).last_turn_seen() == Some(turn) ==> final(self)@ == old(self)@,
            old(self).last_turn_seen() != Some(turn) ==> final(self)@ == cooled(old(self)@),
            final(self).last_turn_seen() == Some(turn),
    {
        proof {
            use_type_invariant(&*self);
        }
        if self.last_turn == Some(turn) {
            return;
        }
        let ghost old_s = self.cooldowns@;
        let mut kept: Vec<((u64, MacroTag), u8)> = Vec::new();
        let mut i: usize = 0;
        while i < self.cooldowns.len()
            invariant
                i <= old_s.len(),
                self.cooldowns@ == old_s,
                keys_distinct(old_s),
                keys_distinct(kept@),
                forall|k: (u64, MacroTag)| #[trigger] has_key(kept@, k) <==> had_long(old_s, i as int, k),
                kept_from(kept@, old_s, i as int),
            decreases old_s.len() - i,
        {
            let (k, v) = self.cooldowns[i];
            if v > 1 {
                let ghost before = kept@;
                kept.push((k, v - 1));
                proof {
                    assert forall|a: int, b: int| 0 <= a < b < kept@.len() implies (#[trigger] kept@[a]).0 != (#[trigger] kept@[b]).0 by {
                        if b == kept@.len() - 1 {
                            assert(kept_entry_from(before[a], old_s, i as int));
                            let o = choose|o: int|
                                0 <= o < i && (#[trigger] old_s[o]).0 == before[a].0 && old_s[o].1 > 1
                                    && before[a].1 == old_s[o].1 - 1;
                            assert(old_s[o].0 != old_s[i as int].0);
                        } else {
                            assert(before[a] == kept@[a] && before[b] == kept@[b]);
                        }
                    }
                    assert forall|kk: (u64, MacroTag)| #[trigger] has_key(kept@, kk) <==> had_long(old_s, i + 1, kk) by {
                        if has_key(kept@, kk) {
                            let j = choose|j: int| 0 <= j < kept@.len() && (#[trigger] kept@[j]).0 == kk;
                            if j < before.len() {
                                assert(before[j] == kept@[j]);
                                assert(has_key(before, kk));
                                assert(had_long(old_s, i as int, kk));
                                let o = choose|o: int| 0 <= o < i && (#[trigger] old_s[o]).0 == kk && old_s[o].1 > 1;
                                assert(0 <= o < i + 1 && old_s[o].0 == kk && old_s[o].1 > 1);
                            } else {
                                assert(old_s[i as int].0 == kk && old_s[i as int].1 > 1);
                            }
                        }
                        if had_long(old_s, i + 1, kk) {
                            let j = choose|j: int| 0 <= j < i + 1 && (#[trigger] old_s[j]).0 == kk && old_s[j].1 > 1;
                            if j < i {
                                assert(had_long(old_s, i as int, kk));
                                assert(has_key(before, kk));
                                let jj = choose|jj: int| 0 <= jj < before.len() && (#[trigger] before[jj]).0 == kk;
                                assert(kept@[jj] == before[jj]);
                            } else {
                                assert(kept@[kept@.len() - 1].0 == kk);
                            }
                        }
                    }
                    assert forall|j: int| 0 <= j < kept@.len() implies kept_entry_from(#[trigger] kept@[j], old_s, i + 1) by {
                        if j < before.len() {
                            assert(before[j] == kept@[j]);
                            assert(kept_entry_from(before[j], old_s, i as int));
                            let o = choose|o: int|
                                0 <= o < i && (#[trigger] old_s[o]).0 == before[j].0 && old_s[o].1 > 1
                                    && before[j].1 == old_s[o].1 - 1;
                            assert(0 <= o < i + 1 && old_s[o].0 == kept@[j].0 && old_s[o].1 > 1 && kept@[j].1 == old_s[o].1 - 1);
                        } else {
                            assert(old_s[i as int] == (k, v));
                            assert(kept@[j] == (k, (v - 1) as u8));
                            assert(0 <= i < i + 1 && old_s[i as int].0 == kept@[j].0 && old_s[i as int].1 > 1
                                && kept@[j].1 == old_s[i as int].1 - 1);
                        }
                    }
                    assert(kept_from(kept@, old_s, i + 1));
                }
            } else {
                proof {
                    lemma_kept_from_grow(kept@, old_s, i as int, i + 1);
                    assert forall|kk: (u64, MacroTag)| #[trigger] has_key(kept@, kk) <==> had_long(old_s, i + 1, kk) by {
                        if had_long(old_s, i + 1, kk) {
                            let j = choose|j: int| 0 <= j < i + 1 && (#[trigger] old_s[j]).0 == kk && old_s[j].1 > 1;
                            assert(j < i);
                            assert(had_long(old_s, i as int, kk));
                        }
                        if has_key(kept@, kk) {
                            assert(had_long(old_s, i as int, kk));
                            let o = choose|o: int| 0 <= o < i && (#[trigger] old_s[o]).0 == kk && old_s[o].1 > 1;
                            assert(0 <= o < i + 1 && old_s[o].0 == kk && old_s[o].1 > 1);
                        }
                    }
                }
            }
            i = i + 1;
        }
        self.cooldowns = kept;
        self.last_turn = Some(turn);
        proof {
            let s = self.cooldowns@;
            let m = cooled(cooldown_map(old_s));
            assert forall|k: (u64, MacroTag)| cooldown_map(s).contains_key(k) == m.contains_key(k) by {
                if cooldown_map(s).contains_key(k) {
                    assert(has_key(s, k));
                    let j = choose|j: int| 0 <= j < s.len() && (#[trigger] s[j]).0 == k;
                    let o = choose|o: int| 0 <= o < old_s.len() && (#[trigger] old_s[o]).0 == k && old_s[o].1 > 1;
                    let oo = choose|oo: int| 0 <= oo < old_s.len() && (#[trigger] old_s[oo]).0 == k;
                    assert(oo == o);
                }
                if m.contains_key(k) {
                    let oo = choose|oo: int| 0 <= oo < old_s.len() && (#[trigger] old_s[oo]).0 == k;
                    assert(old_s[oo].1 > 1);
                    assert(had_long(old_s, old_s.len() as int, k));
                    assert(has_key(s, k));
                }
            }
            assert(kept_from(s, old_s, old_s.len() as int));
            assert forall|k: (u64, MacroTag)| #[trigger] cooldown_map(s).contains_key(k) implies cooldown_map(s)[k] == m[k] by {
                let j = choose|j: int| 0 <= j < s.len() && (#[trigger] s[j]).0 == k;
                assert(kept_entry_from(s[j], old_s, old_s.len() as int));
                let o = choose|o: int|
                    0 <= o < old_s.len() && (#[trigger] old_s[o]).0 == s[j].0 && old_s[o].1 > 1
                        && s[j].1 == old_s[o].1 - 1;
                let oo = choose|oo: int| 0 <= oo < old_s.len() && (#[trigger] old_s[oo]).0 == k;
                assert(oo == o);
            }
            assert(cooldown_map(s) =~= m);
        }
    }
}

/// What the AI believes about one nation.
#[derive(Clone, Debug)]
pub struct BeliefNation {
    /// Entity id of the nation.
    pub entity: u64,
    pub stockpile: Vec<StockpileEntry>,
    pub treasury: i64,
}

impl BeliefNation {
    /// Units of `good` held, reserved ones included; 0 without an entry.
    pub fn stockpile_amount(&self, good: Good) -> (r: u32)
        ensures
            r == match stock_entry(self.stockpile@, good) {
                Some(e) => e.total,
                None => 0,
            },
    {
        match find_entry(&self.stockpile, good) {
            Some(e) => e.total,
            None => 0,
        }
    }

    /// Units of `good` free to use; 0 without an entry.
    pub fn available_amount(&self, good: Good) -> (r: u32)
        ensures
            r == match stock_entry(self.stockpile@, good) {
                Some(e) => e.available,
                None => 0,
            },
    {
        match find_entry(&self.stockpile, good) {
            Some(e) => e.available,
            None => 0,
        }
    }
}

fn find_entry(stock: &Vec<StockpileEntry>, good: Good) -> (r: Option<StockpileEntry>)
    ensures
        r == stock_entry(stock@, good),
{
    let mut i: usize = 0;
    assert(stock@.skip(0) =~= stock@);
    while i < stock.len()
        invariant
            i <= stock@.len(),
            stock_entry(stock@, good) == stock_entry(stock@.skip(i as int), good),
        decreases stock@.len() - i,
    {
        assert(stock@.skip(i as int).drop_first() =~= stock@.skip(i + 1));
        if stock[i].good == good {
            return Some(stock[i]);
        }
        i = i + 1;
    }
    None
}

/// Cooldowns after `n` new turns.
pub open spec fn cooled_for(m: Map<(u64, MacroTag), u8>, n: nat) -> Map<(u64, MacroTag), u8>
    decreases n,
{
    if n == 0 {
        m
    } else {
        cooled(cooled_for(m, (n - 1) as nat))
    }
}

/// A cooldown of `turns` stays active for exactly `turns` new turns: after
/// `n` of them it is active, with `turns - n` to go, if and only if `n <
/// turns`.
pub proof fn law_cooldown_lasts_its_turns(m: Map<(u64, MacroTag), u8>, key: (u64, MacroTag), turns: u8, n: nat)
    requires
        turns >= 1,
    ensures
        cooled_for(m.insert(key, turns), n).contains_key(key) == (n < turns),
        n < turns ==> cooled_for(m.insert(key, turns), n)[key] == turns - n,
    decreases n,
{
    if n > 0 {
        law_cooldown_lasts_its_turns(m, key, turns, (n - 1) as nat);
    }
}

} // verus!
