//! Diplomacy between nations: relationship scores, treaties, foreign aid,
//! offers awaiting an answer, and the rules that turn orders into changes.

use crate::economy::{saturate_i64, Treasury};
use vstd::prelude::*;

verus! {

/// Identifier of a nation.
#[derive(Clone, Copy, Debug, PartialEq, Eq, Hash, Structural)]
pub struct NationId(pub u32);

/// Key under which the relation between `a` and `b` is stored: the pair
/// ordered by id, so that it does not depend on the order of `a` and `b`.
pub open spec fn pair_key(a: NationId, b: NationId) -> (NationId, NationId) {
    if a.0 <= b.0 {
        (a, b)
    } else {
        (b, a)
    }
}

/// Unordered pair of nations, stored with the smaller id first.
#[derive(Clone, Copy, Debug, PartialEq, Eq, Hash, Structural)]
struct DiplomacyPair(NationId, NationId);

impl DiplomacyPair {
    fn new(a: NationId, b: NationId) -> (p: DiplomacyPair)
        ensures
            (p.0, p.1) == pair_key(a, b),
    {
        if a.0 <= b.0 {
            DiplomacyPair(a, b)
        } else {
            DiplomacyPair(b, a)
        }
    }

    fn contains(&self, nation: NationId) -> (r: bool)
        ensures
            r == (self.0 == nation || self.1 == nation),
    {
        self.0 == nation || self.1 == nation
    }

    fn other(&self, nation: NationId) -> (r: Option<NationId>)
        ensures
            r == pair_other((self.0, self.1), nation),
    {
        if self.0 == nation {
            Some(self.1)
        } else if self.1 == nation {
            Some(self.0)
        } else {
            None
        }
    }
}

/// The member of pair `k` other than `nation`, if `nation` is a member.
pub open spec fn pair_other(k: (NationId, NationId), nation: NationId) -> Option<NationId> {
    if k.0 == nation {
        Some(k.1)
    } else if k.1 == nation {
        Some(k.0)
    } else {
        None
    }
}

/// Relationship tiers used for UI labelling and thresholds.
#[derive(Clone, Copy, Debug, PartialEq, Eq, Structural)]
pub enum RelationshipBand {
    Hostile,
    Unfriendly,
    Neutral,
    Cordial,
    Warm,
    Allied,
}

/// Display label of each band.
pub open spec fn band_label(b: RelationshipBand) -> Seq<char> {
    match b {
        RelationshipBand::Hostile => "Hostile"@,
        RelationshipBand::Unfriendly => "Unfriendly"@,
        RelationshipBand::Neutral => "Neutral"@,
        RelationshipBand::Cordial => "Cordial"@,
        RelationshipBand::Warm => "Warm"@,
        RelationshipBand::Allied => "Allied"@,
    }
}

impl RelationshipBand {
    /// Display label of the band.
    pub fn label(&self) -> (s: &'static str)
        ensures
            s@ == band_label(*self),
    {
        match self {
            RelationshipBand::Hostile => "Hostile",
            RelationshipBand::Unfriendly => "Unfriendly",
            RelationshipBand::Neutral => "Neutral",
            RelationshipBand::Cordial => "Cordial",
            RelationshipBand::Warm => "Warm",
            RelationshipBand::Allied => "Allied",
        }
    }
}

/// The band a relationship score falls in.
pub open spec fn score_band(score: int) -> RelationshipBand {
    if score <= -50 {
        RelationshipBand::Hostile
    } else if score <= -11 {
        RelationshipBand::Unfriendly
    } else if score <= 10 {
        RelationshipBand::Neutral
    } else if score <= 39 {
        RelationshipBand::Cordial
    } else if score <= 69 {
        RelationshipBand::Warm
    } else {
        RelationshipBand::Allied
    }
}

/// Treaty flags between two nations.
#[derive(Clone, Copy, Debug, PartialEq, Eq, Structural)]
pub struct TreatyState {
    pub at_war: bool,
    pub consulate: bool,
    pub embassy: bool,
    pub non_aggression_pact: bool,
    pub alliance: bool,
}

/// Two nations at peace with no treaties.
pub open spec fn peace_treaty() -> TreatyState {
    TreatyState {
        at_war: false,
        consulate: false,
        embassy: false,
        non_aggression_pact: false,
        alliance: false,
    }
}

impl TreatyState {
    /// Peace with no treaties.
    pub fn peace() -> (t: TreatyState)
        ensures
            t == peace_treaty(),
    {
        TreatyState {
            at_war: false,
            consulate: false,
            embassy: false,
            non_aggression_pact: false,
            alliance: false,
        }
    }
}

/// A change to treaty flags: each `Some` flag is set to its value, each `None` is kept.
#[derive(Clone, Copy, Debug, PartialEq, Eq, Structural)]
pub struct TreatyUpdate {
    pub at_war: Option<bool>,
    pub consulate: Option<bool>,
    pub embassy: Option<bool>,
    pub non_aggression_pact: Option<bool>,
    pub alliance: Option<bool>,
}

pub open spec fn flag_after(old_flag: bool, change: Option<bool>) -> bool {
    match change {
        Some(v) => v,
        None => old_flag,
    }
}

/// The treaty after applying an update.
pub open spec fn apply_update(t: TreatyState, u: TreatyUpdate) -> TreatyState {
    TreatyState {
        at_war: flag_after(t.at_war, u.at_war),
        consulate: flag_after(t.consulate, u.consulate),
        embassy: flag_after(t.embassy, u.embassy),
        non_aggression_pact: flag_after(t.non_aggression_pact, u.non_aggression_pact),
        alliance: flag_after(t.alliance, u.alliance),
    }
}

impl TreatyUpdate {
    /// An update that changes nothing.
    pub fn none() -> (u: TreatyUpdate)
        ensures
            u.at_war.is_none(),
            u.consulate.is_none(),
            u.embassy.is_none(),
            u.non_aggression_pact.is_none(),
            u.alliance.is_none(),
    {
        TreatyUpdate {
            at_war: None,
            consulate: None,
            embassy: None,
            non_aggression_pact: None,
            alliance: None,
        }
    }

    /// Applies this update to `t`.
    pub fn apply(&self, t: TreatyState) -> (r: TreatyState)
        ensures
            r == apply_update(t, *self),
    {
        TreatyState {
            at_war: match self.at_war {
                Some(v) => v,
                None => t.at_war,
            },
            consulate: match self.consulate {
                Some(v) => v,
                None => t.consulate,
            },
            embassy: match self.embassy {
                Some(v) => v,
                None => t.embassy,
            },
            non_aggression_pact: match self.non_aggression_pact {
                Some(v) => v,
                None => t.non_aggression_pact,
            },
            alliance: match self.alliance {
                Some(v) => v,
                None => t.alliance,
            },
        }
    }
}

/// Persistent diplomatic state between two nations.
#[derive(Clone, Copy, Debug, PartialEq, Eq, Structural)]
pub struct DiplomaticRelation {
    pub score: i32,
    pub treaty: TreatyState,
}

/// The relation two nations have before anything happens between them.
pub open spec fn default_relation() -> DiplomaticRelation {
    DiplomaticRelation { score: 0, treaty: peace_treaty() }
}

impl DiplomaticRelation {
    /// Neutral score, peace, no treaties.
    pub fn default() -> (r: DiplomaticRelation)
        ensures
            r == default_relation(),
    {
        DiplomaticRelation { score: 0, treaty: TreatyState::peace() }
    }

    /// The band the score falls in.
    pub fn band(&self) -> (b: RelationshipBand)
        ensures
            b == score_band(self.score as int),
    {
        if self.score <= -50 {
            RelationshipBand::Hostile
        } else if self.score <= -11 {
            RelationshipBand::Unfriendly
        } else if self.score <= 10 {
            RelationshipBand::Neutral
        } else if self.score <= 39 {
            RelationshipBand::Cordial
        } else if self.score <= 69 {
            RelationshipBand::Warm
        } else {
            RelationshipBand::Allied
        }
    }
}

/// A score kept within the range -100 to 100.
pub open spec fn clamp_score(v: int) -> int {
    if v < -100 {
        -100
    } else if v > 100 {
        100
    } else {
        v
    }
}

/// The relation of `a` and `b` in `m`, or the default one when none is stored.
pub open spec fn relation_or_default(
    m: Map<(NationId, NationId), DiplomaticRelation>,
    a: NationId,
    b: NationId,
) -> DiplomaticRelation {
    if m.contains_key(pair_key(a, b)) {
        m[pair_key(a, b)]
    } else {
        default_relation()
    }
}

/// `m` after moving the score of `a` and `b` by `delta`, kept within -100 to 100.
pub open spec fn with_adjusted_score(
    m: Map<(NationId, NationId), DiplomaticRelation>,
    a: NationId,
    b: NationId,
    delta: int,
) -> Map<(NationId, NationId), DiplomaticRelation> {
    let r = relation_or_default(m, a, b);
    m.insert(
        pair_key(a, b),
        DiplomaticRelation { score: clamp_score(r.score + delta) as i32, ..r },
    )
}

/// `m` after applying a treaty update to the relation of `a` and `b`.
pub open spec fn with_treaty(
    m: Map<(NationId, NationId), DiplomaticRelation>,
    a: NationId,
    b: NationId,
    u: TreatyUpdate,
) -> Map<(NationId, NationId), DiplomaticRelation> {
    let r = relation_or_default(m, a, b);
    m.insert(pair_key(a, b), DiplomaticRelation { treaty: apply_update(r.treaty, u), ..r })
}

/// One turn of decay: scores of nations not at war drift one point toward zero.
pub open spec fn decayed(r: DiplomaticRelation) -> DiplomaticRelation {
    if r.treaty.at_war {
        r
    } else if r.score > 0 {
        DiplomaticRelation { score: (r.score - 1) as i32, ..r }
    } else if r.score < 0 {
        DiplomaticRelation { score: (r.score + 1) as i32, ..r }
    } else {
        r
    }
}

/// All relationships between nations.
pub struct DiplomacyState {
    relations: Vec<(DiplomacyPair, DiplomaticRelation)>,
}

spec fn entry_key(e: (DiplomacyPair, DiplomaticRelation)) -> (NationId, NationId) {
    (e.0.0, e.0.1)
}

spec fn entries_ok(s: Seq<(DiplomacyPair, DiplomaticRelation)>) -> bool {
    &&& forall|i: int|
        0 <= i < s.len() ==> (#[trigger] s[i]).0.0.0 <= s[i].0.1.0 && -100 <= s[i].1.score <= 100
    &&& forall|i: int, j: int|
        0 <= i < s.len() && 0 <= j < s.len() && i != j ==> entry_key(#[trigger] s[i])
            != entry_key(#[trigger] s[j])
}

spec fn entries_map(s: Seq<(DiplomacyPair, DiplomaticRelation)>) -> Map<
    (NationId, NationId),
    DiplomaticRelation,
> {
    Map::new(
        |k: (NationId, NationId)| exists|i: int| 0 <= i < s.len() && entry_key(s[i]) == k,
        |k: (NationId, NationId)|
            s[choose|i: int| 0 <= i < s.len() && entry_key(s[i]) == k].1,
    )
}

proof fn lemma_entry_in_map(s: Seq<(DiplomacyPair, DiplomaticRelation)>, i: int)
    requires
        entries_ok(s),
        0 <= i < s.len(),
    ensures
        entries_map(s).contains_key(entry_key(s[i])),
        entries_map(s)[entry_key(s[i])] == s[i].1,
{
    let k = entry_key(s[i]);
    assert(exists|j: int| 0 <= j < s.len() && entry_key(s[j]) == k);
    let j = choose|j: int| 0 <= j < s.len() && entry_key(s[j]) == k;
    if i != j {
        assert(entry_key(s[i]) != entry_key(s[j]));
    }
}

impl View for DiplomacyState {
    type V = Map<(NationId, NationId), DiplomaticRelation>;

    closed spec fn view(&self) -> Map<(NationId, NationId), DiplomaticRelation> {
        entries_map(self.relations@)
    }
}

/// Every stored key is ordered, and every score lies within -100 to 100.
pub open spec fn relations_well_formed(m: Map<(NationId, NationId), DiplomaticRelation>) -> bool {
    &&& m.dom().finite()
    &&& forall|k: (NationId, NationId)|
        #[trigger] m.contains_key(k) ==> k.0.0 <= k.1.0 && -100 <= m[k].score <= 100
}

impl DiplomacyState {
    #[verifier::type_invariant]
    spec fn inv(&self) -> bool {
        entries_ok(self.relations@)
    }

    /// No relations at all.
    pub fn new() -> (s: DiplomacyState)
        ensures
            s@ == Map::<(NationId, NationId), DiplomaticRelation>::empty(),
            relations_well_formed(s@),
    {
        let s = DiplomacyState { relations: Vec::new() };
        assert(s@ =~= Map::<(NationId, NationId), DiplomaticRelation>::empty());
        s.well_formed();
        s
    }

    /// Scores stay within -100 to 100, whatever sequence of operations built
    /// the state, and relations are stored under ordered keys.
    pub fn well_formed(&self) -> (r: bool)
        ensures
            r,
            relations_well_formed(self@),
    {
        proof {
            use_type_invariant(self);
        }
        let ghost s = self.relations@;
        assert forall|k: (NationId, NationId)| #[trigger] self@.contains_key(k) implies k.0.0
            <= k.1.0 && -100 <= self@[k].score <= 100 by {
            let i = choose|i: int| 0 <= i < s.len() && entry_key(s[i]) == k;
            lemma_entry_in_map(s, i);
        }
        let ghost f = |e: (DiplomacyPair, DiplomaticRelation)| entry_key(e);
        assert(self@.dom() =~= s.map_values(f).to_set()) by {
            assert forall|k: (NationId, NationId)| #[trigger] self@.dom().contains(k) implies s.map_values(
                f,
            ).to_set().contains(k) by {
                let i = choose|i: int| 0 <= i < s.len() && entry_key(s[i]) == k;
                assert(s.map_values(f)[i] == k);
            }
            assert forall|k: (NationId, NationId)| #[trigger] s.map_values(f).to_set().contains(k) implies self@.dom().contains(
                k,
            ) by {
                let i = choose|i: int| 0 <= i < s.map_values(f).len() && s.map_values(f)[i] == k;
                assert(entry_key(s[i]) == k);
            }
        }
        proof {
            vstd::seq_lib::seq_to_set_is_finite(s.map_values(f));
        }
        true
    }

    fn find(&self, key: DiplomacyPair) -> (r: Option<usize>)
        ensures
            match r {
                Some(i) => i < self.relations@.len() && self.relations@[i as int].0 == key,
                None => forall|i: int|
                    0 <= i < self.relations@.len() ==> (#[trigger] self.relations@[i]).0 != key,
            },
    {
        let mut i: usize = 0;
        while i < self.relations.len()
            invariant
                i <= self.relations@.len(),
                forall|j: int| 0 <= j < i ==> (#[trigger] self.relations@[j]).0 != key,
            decreases self.relations@.len() - i,
        {
            if self.relations[i].0 == key {
                return Some(i);
            }
            i = i + 1;
        }
        None
    }

    /// The relation between `a` and `b`, if one is stored.
    pub fn relation(&self, a: NationId, b: NationId) -> (r: Option<DiplomaticRelation>)
        ensures
            r == if self@.contains_key(pair_key(a, b)) {
                Some(self@[pair_key(a, b)])
            } else {
                None
            },
    {
        proof {
            use_type_invariant(self);
        }
        let key = DiplomacyPair::new(a, b);
        match self.find(key) {
            Some(i) => {
                proof {
                    lemma_entry_in_map(self.relations@, i as int);
                }
                Some(self.relations[i].1)
            },
            None => {
                assert(!self@.contains_key(pair_key(a, b)));
                None
            },
        }
    }

    /// Stores `rel` as the relation between `a` and `b`.
    fn put(&mut self, a: NationId, b: NationId, rel: DiplomaticRelation)
        requires
            -100 <= rel.score <= 100,
        ensures
            final(self)@ == old(self)@.insert(pair_key(a, b), rel),
    {
        proof {
            use_type_invariant(&*self);
        }
        let key = DiplomacyPair::new(a, b);
        let ghost s0 = self.relations@;
        let mut v: Vec<(DiplomacyPair, DiplomaticRelation)> = Vec::new();
        std::mem::swap(&mut v, &mut self.relations);
        let ghost pos: int;
        match self.find_in(&v, key) {
            Some(i) => {
                v.set(i, (key, rel));
                proof {
                    pos = i as int;
                }
            },
            None => {
                proof {
                    pos = v@.len() as int;
                }
                v.push((key, rel));
            },
        }
        proof {
            let s1 = v@;
            assert forall|i: int, j: int|
                0 <= i < s1.len() && 0 <= j < s1.len() && i != j implies entry_key(
                #[trigger] s1[i],
            ) != entry_key(#[trigger] s1[j]) by {
                if i < s0.len() && j < s0.len() {
                    if s1[i] != s0[i] {
                    } else if s1[j] != s0[j] {
                    } else {
                        assert(entry_key(s0[i]) != entry_key(s0[j]));
                    }
                }
            }
            assert(entries_ok(s1));
            let m0 = entries_map(s0);
            let m1 = entries_map(s1);
            let k = pair_key(a, b);
            assert forall|q: (NationId, NationId)| #[trigger] m1.contains_key(q) == m0.insert(
                k,
                rel,
            ).contains_key(q) by {
                if m1.contains_key(q) {
                    let i = choose|i: int| 0 <= i < s1.len() && entry_key(s1[i]) == q;
                    if i < s0.len() && s1[i] == s0[i] {
                        lemma_entry_in_map(s0, i);
                    }
                }
                if m0.contains_key(q) && q != k {
                    let i = choose|i: int| 0 <= i < s0.len() && entry_key(s0[i]) == q;
                    assert(s1[i] == s0[i]);
                    lemma_entry_in_map(s1, i);
                }
                if q == k {
                    assert(s1[pos].0 == key);
                    lemma_entry_in_map(s1, pos);
                }
            }
            assert forall|q: (NationId, NationId)| #[trigger] m1.contains_key(q) implies m1[q] == m0.insert(
                k,
                rel,
            )[q] by {
                let i = choose|i: int| 0 <= i < s1.len() && entry_key(s1[i]) == q;
                lemma_entry_in_map(s1, i);
                if q != k {
                    assert(s1[i] == s0[i]);
                    lemma_entry_in_map(s0, i);
                }
            }
            assert(m1 =~= m0.insert(k, rel));
        }
        self.relations = v;
    }

    fn find_in(&self, v: &Vec<(DiplomacyPair, DiplomaticRelation)>, key: DiplomacyPair) -> (r: Option<
        usize,
    >)
        ensures
            match r {
                Some(i) => i < v@.len() && v@[i as int].0 == key,
                None => forall|i: int| 0 <= i < v@.len() ==> (#[trigger] v@[i]).0 != key,
            },
    {
        let mut i: usize = 0;
        while i < v.len()
            invariant
                i <= v@.len(),
                forall|j: int| 0 <= j < i ==> (#[trigger] v@[j]).0 != key,
            decreases v@.len() - i,
        {
            if v[i].0 == key {
                return Some(i);
            }
            i = i + 1;
        }
        None
    }

    /// The relation between `a` and `b`, or the default one when none is stored.
    pub fn relation_or_default(&self, a: NationId, b: NationId) -> (r: DiplomaticRelation)
        ensures
            r == relation_or_default(self@, a, b),
    {
        match self.relation(a, b) {
            Some(r) => r,
            None => DiplomaticRelation::default(),
        }
    }

    /// Makes sure every pair of distinct positions in `nations` has a relation,
    /// adding the default relation where none is stored.
    pub fn ensure_pairs(&mut self, nations: &[NationId])
        ensures
            forall|k: (NationId, NationId)| #[trigger]
                final(self)@.contains_key(k) <==> (old(self)@.contains_key(k) || exists|
                    i: int,
                    j: int,
                | 0 <= i < j < nations@.len() && pair_key(nations@[i], nations@[j]) == k),
            forall|k: (NationId, NationId)| #[trigger]
                final(self)@.contains_key(k) ==> final(self)@[k] == if old(self)@.contains_key(k) {
                    old(self)@[k]
                } else {
                    default_relation()
                },
    {
        let mut index: usize = 0;
        while index < nations.len()
            invariant
                index <= nations@.len(),
                forall|k: (NationId, NationId)| #[trigger]
                    self@.contains_key(k) <==> (old(self)@.contains_key(k) || exists|
                        i: int,
                        j: int,
                    | 0 <= i < j < nations@.len() && i < index && pair_key(nations@[i], nations@[j])
                        == k),
                forall|k: (NationId, NationId)| #[trigger]
                    self@.contains_key(k) ==> self@[k] == if old(self)@.contains_key(k) {
                        old(self)@[k]
                    } else {
                        default_relation()
                    },
            decreases nations@.len() - index,
        {
            let a = nations[index];
            let mut other: usize = index + 1;
            while other < nations.len()
                invariant
                    index < nations@.len(),
                    a == nations@[index as int],
                    index + 1 <= other <= nations@.len(),
                    forall|k: (NationId, NationId)| #[trigger]
                        self@.contains_key(k) <==> (old(self)@.contains_key(k) || exists|
                            i: int,
                            j: int,
                        | 0 <= i < j < nations@.len() && (i < index || (i == index && j < other))
                            && pair_key(nations@[i], nations@[j]) == k),
                    forall|k: (NationId, NationId)| #[trigger]
                        self@.contains_key(k) ==> self@[k] == if old(self)@.contains_key(k) {
                            old(self)@[k]
                        } else {
                            default_relation()
                        },
                decreases nations@.len() - other,
            {
                let b = nations[other];
                if self.relation(a, b).is_none() {
                    self.put(a, b, DiplomaticRelation::default());
                }
                proof {
                    assert forall|k: (NationId, NationId)| #[trigger]
                        self@.contains_key(k) <==> (old(self)@.contains_key(k) || exists|
                            i: int,
                            j: int,
                        | 0 <= i < j < nations@.len() && (i < index || (i == index && j < other
                            + 1)) && pair_key(nations@[i], nations@[j]) == k) by {
                        if k == pair_key(a, b) {
                            assert(pair_key(nations@[index as int], nations@[other as int]) == k);
                        }
                    }
                }
                other = other + 1;
            }
            index = index + 1;
        }
    }

    /// Moves the score of `a` and `b` by `delta`, keeping it within -100 to
    /// 100; a missing relation starts from the default. Returns the new score.
    /// The sum of the score and `delta` must be an `i32`.
    pub fn adjust_score(&mut self, a: NationId, b: NationId, delta: i32) -> (score: i32)
        requires
            i32::MIN <= relation_or_default(old(self)@, a, b).score + delta <= i32::MAX,
        ensures
            final(self)@ == with_adjusted_score(old(self)@, a, b, delta as int),
            relations_well_formed(final(self)@),
            score == final(self)@[pair_key(a, b)].score,
    {
        self.well_formed();
        let r = self.relation_or_default(a, b);
        let sum: i32 = r.score + delta;
        let score: i32 = if sum < -100 {
            -100
        } else if sum > 100 {
            100
        } else {
            sum
        };
        self.put(a, b, DiplomaticRelation { score, ..r });
        score
    }

    /// Applies `update` to the treaty between `a` and `b`; a missing relation starts from the default.
    pub fn set_treaty(&mut self, a: NationId, b: NationId, update: TreatyUpdate)
        ensures
            final(self)@ == with_treaty(old(self)@, a, b, update),
            relations_well_formed(final(self)@),
    {
        self.well_formed();
        let r = self.relation_or_default(a, b);
        let t = update.apply(r.treaty);
        self.put(a, b, DiplomaticRelation { treaty: t, ..r });
    }

    /// Every relation involving `nation`, with the other nation of the pair.
    pub fn relations_for(&self, nation: NationId) -> (v: Vec<(NationId, DiplomaticRelation)>)
        ensures
            forall|o: NationId, r: DiplomaticRelation|
                v@.contains((o, r)) <==> exists|k: (NationId, NationId)|
                    #[trigger] self@.contains_key(k) && pair_other(k, nation) == Some(o) && self@[k]
                        == r,
    {
        proof {
            use_type_invariant(self);
        }
        let ghost s = self.relations@;
        let mut v: Vec<(NationId, DiplomaticRelation)> = Vec::new();
        let mut i: usize = 0;
        while i < self.relations.len()
            invariant
                s == self.relations@,
                entries_ok(s),
                i <= s.len(),
                forall|o: NationId, r: DiplomaticRelation|
                    v@.contains((o, r)) <==> exists|j: int|
                        0 <= j < i && pair_other(entry_key(#[trigger] s[j]), nation) == Some(o)
                            && s[j].1 == r,
            decreases s.len() - i,
        {
            let (pair, relation) = self.relations[i];
            let ghost v0 = v@;
            if let Some(other) = pair.other(nation) {
                if pair.contains(nation) {
                    v.push((other, relation));
                }
            }
            assert forall|o: NationId, r: DiplomaticRelation|
                v@.contains((o, r)) <==> exists|j: int|
                    0 <= j < i + 1 && pair_other(entry_key(#[trigger] s[j]), nation) == Some(o)
                        && s[j].1 == r by {
                vstd::seq_lib::lemma_seq_contains_after_push(v0, (o, r), (o, r));
                if v@ != v0 {
                    vstd::seq_lib::lemma_seq_contains_after_push(v0, v@.last(), (o, r));
                }
                if pair_other(entry_key(s[i as int]), nation) == Some(o) && s[i as int].1 == r {
                    assert(v@.contains((o, r)));
                }
            }
            i = i + 1;
        }
        assert forall|o: NationId, r: DiplomaticRelation|
            v@.contains((o, r)) <==> exists|k: (NationId, NationId)|
                #[trigger] self@.contains_key(k) && pair_other(k, nation) == Some(o) && self@[k]
                    == r by {
            if v@.contains((o, r)) {
                let j = choose|j: int|
                    0 <= j < i && pair_other(entry_key(#[trigger] s[j]), nation) == Some(o) && s[j].1
                        == r;
                lemma_entry_in_map(s, j);
            }
            if exists|k: (NationId, NationId)|
                #[trigger] self@.contains_key(k) && pair_other(k, nation) == Some(o) && self@[k]
                    == r {
                let k = choose|k: (NationId, NationId)|
                    #[trigger] self@.contains_key(k) && pair_other(k, nation) == Some(o) && self@[k]
                        == r;
                let j = choose|j: int| 0 <= j < s.len() && entry_key(s[j]) == k;
                lemma_entry_in_map(s, j);
            }
        }
        v
    }

    /// One turn of decay: every score of nations not at war drifts one point toward zero.
    pub fn decay_relationships(&mut self)
        ensures
            final(self)@.dom() == old(self)@.dom(),
            relations_well_formed(final(self)@),
            forall|k: (NationId, NationId)| #[trigger]
                final(self)@.contains_key(k) ==> final(self)@[k] == decayed(old(self)@[k]),
    {
        proof {
            use_type_invariant(&*self);
        }
        let ghost s0 = self.relations@;
        let mut v: Vec<(DiplomacyPair, DiplomaticRelation)> = Vec::new();
        std::mem::swap(&mut v, &mut self.relations);
        let mut i: usize = 0;
        while i < v.len()
            invariant
                v@.len() == s0.len(),
                entries_ok(s0),
                i <= v@.len(),
                forall|j: int|
                    0 <= j < i ==> #[trigger] v@[j] == (s0[j].0, decayed(s0[j].1)),
                forall|j: int| i <= j < v@.len() ==> #[trigger] v@[j] == s0[j],
            decreases v@.len() - i,
        {
            let (pair, r) = v[i];
            let mut r2 = r;
            if !r.treaty.at_war {
                if r.score > 0 {
                    r2.score = r.score - 1;
                } else if r.score < 0 {
                    r2.score = r.score + 1;
                }
            }
            v.set(i, (pair, r2));
            i = i + 1;
        }
        proof {
            let s1 = v@;
            assert(forall|j: int| 0 <= j < s1.len() ==> entry_key(#[trigger] s1[j]) == entry_key(s0[j]));
            assert forall|a: int, b: int|
                0 <= a < s1.len() && 0 <= b < s1.len() && a != b implies entry_key(#[trigger] s1[a])
                != entry_key(#[trigger] s1[b]) by {
                assert(entry_key(s0[a]) != entry_key(s0[b]));
            }
            assert(entries_ok(s1));
            let m0 = entries_map(s0);
            let m1 = entries_map(s1);
            assert forall|k: (NationId, NationId)| #[trigger] m1.contains_key(k) == m0.contains_key(k) by {
                if m1.contains_key(k) {
                    let j = choose|j: int| 0 <= j < s1.len() && entry_key(s1[j]) == k;
                    assert(entry_key(s0[j]) == k);
                }
                if m0.contains_key(k) {
                    let j = choose|j: int| 0 <= j < s0.len() && entry_key(s0[j]) == k;
                    assert(entry_key(s1[j]) == k);
                }
            }
            assert(m1.dom() =~= m0.dom());
            assert forall|k: (NationId, NationId)| #[trigger] m1.contains_key(k) implies m1[k]
                == decayed(m0[k]) by {
                let j = choose|j: int| 0 <= j < s1.len() && entry_key(s1[j]) == k;
                lemma_entry_in_map(s1, j);
                lemma_entry_in_map(s0, j);
            }
        }
        self.relations = v;
        self.well_formed();
    }
}


/// A recurring aid payment.
#[derive(Clone, Copy, Debug, PartialEq, Eq, Structural)]
pub struct RecurringGrant {
    pub from: NationId,
    pub to: NationId,
    pub amount: i32,
}

/// `grants` without any grant from `from` to `to`, order kept.
pub open spec fn without_grant(grants: Seq<RecurringGrant>, from: NationId, to: NationId) -> Seq<
    RecurringGrant,
> {
    grants.filter(|g: RecurringGrant| !(g.from == from && g.to == to))
}

/// Some grant from `from` to `to` is recorded.
pub open spec fn has_grant(grants: Seq<RecurringGrant>, from: NationId, to: NationId) -> bool {
    exists|i: int| 0 <= i < grants.len() && (#[trigger] grants[i]).from == from && grants[i].to == to
}

/// Recurring aid payments, at most one per (donor, recipient) when built through `upsert`.
pub struct ForeignAidLedger {
    recurring: Vec<RecurringGrant>,
}

impl View for ForeignAidLedger {
    type V = Seq<RecurringGrant>;

    closed spec fn view(&self) -> Seq<RecurringGrant> {
        self.recurring@
    }
}

impl ForeignAidLedger {
    /// A ledger without grants.
    pub fn new() -> (l: ForeignAidLedger)
        ensures
            l@ == Seq::<RecurringGrant>::empty(),
    {
        ForeignAidLedger { recurring: Vec::new() }
    }

    fn remove_pair(&mut self, from: NationId, to: NationId)
        ensures
            final(self)@ == without_grant(old(self)@, from, to),
    {
        broadcast use vstd::seq_lib::group_seq_properties;

        let ghost pred = |g: RecurringGrant| !(g.from == from && g.to == to);
        let mut kept: Vec<RecurringGrant> = Vec::new();
        let mut i: usize = 0;
        while i < self.recurring.len()
            invariant
                i <= self.recurring@.len(),
                pred == (|g: RecurringGrant| !(g.from == from && g.to == to)),
                kept@ == self.recurring@.take(i as int).filter(pred),
            decreases self.recurring@.len() - i,
        {
            let g = self.recurring[i];
            assert(self.recurring@.take(i + 1) == self.recurring@.take(i as int).push(g));
            proof {
                self.recurring@.take(i as int).lemma_filter_push(g, pred);
            }
            if !(g.from == from && g.to == to) {
                kept.push(g);
            }
            i = i + 1;
        }
        assert(self.recurring@.take(i as int) =~= self.recurring@);
        self.recurring = kept;
    }

    /// Records `grant`, replacing any grant with the same donor and recipient.
    pub fn upsert(&mut self, grant: RecurringGrant)
        ensures
            final(self)@ == without_grant(old(self)@, grant.from, grant.to).push(grant),
    {
        self.remove_pair(grant.from, grant.to);
        self.recurring.push(grant);
    }

    /// Removes the grants from `from` to `to`; true if there was one.
    pub fn cancel(&mut self, from: NationId, to: NationId) -> (removed: bool)
        ensures
            final(self)@ == without_grant(old(self)@, from, to),
            removed == has_grant(old(self)@, from, to),
            !removed ==> final(self)@ == old(self)@,
    {
        let before = self.recurring.len();
        self.remove_pair(from, to);
        proof {
            lemma_without_grant_len(old(self)@, from, to);
            if !has_grant(old(self)@, from, to) {
                lemma_without_absent_grant(old(self)@, from, to);
            }
        }
        before != self.recurring.len()
    }

    /// True if some grant from `from` to `to` is recorded.
    pub fn has_recurring(&self, from: NationId, to: NationId) -> (r: bool)
        ensures
            r == has_grant(self@, from, to),
    {
        let mut i: usize = 0;
        while i < self.recurring.len()
            invariant
                i <= self.recurring@.len(),
                forall|j: int|
                    0 <= j < i ==> !((#[trigger] self.recurring@[j]).from == from
                        && self.recurring@[j].to == to),
            decreases self.recurring@.len() - i,
        {
            if self.recurring[i].from == from && self.recurring[i].to == to {
                assert(self.recurring@[i as int].from == from);
                return true;
            }
            i = i + 1;
        }
        false
    }

    /// All recorded grants, in the order they were recorded.
    pub fn all(&self) -> (r: &[RecurringGrant])
        ensures
            r@ == self@,
    {
        self.recurring.as_slice()
    }
}

/// Removing the grants of one pair shortens the list exactly when there was one.
proof fn lemma_without_grant_len(grants: Seq<RecurringGrant>, from: NationId, to: NationId)
    ensures
        (without_grant(grants, from, to).len() < grants.len()) == has_grant(grants, from, to),
        without_grant(grants, from, to).len() <= grants.len(),
    decreases grants.len(),
{
    let pred = |g: RecurringGrant| !(g.from == from && g.to == to);
    if grants.len() > 0 {
        let init = grants.drop_last();
        lemma_without_grant_len(init, from, to);
        assert(grants =~= init.push(grants.last()));
        init.lemma_filter_push(grants.last(), pred);
        if has_grant(grants, from, to) && !has_grant(init, from, to) {
            let i = choose|i: int|
                0 <= i < grants.len() && (#[trigger] grants[i]).from == from && grants[i].to == to;
            if i < init.len() {
                assert(init[i] == grants[i]);
            }
        }
        if has_grant(init, from, to) {
            let i = choose|i: int|
                0 <= i < init.len() && (#[trigger] init[i]).from == from && init[i].to == to;
            assert(grants[i] == init[i]);
        }
    } else {
        assert(grants.filter(pred) =~= grants);
    }
}

proof fn lemma_without_absent_grant(grants: Seq<RecurringGrant>, from: NationId, to: NationId)
    requires
        !has_grant(grants, from, to),
    ensures
        without_grant(grants, from, to) == grants,
    decreases grants.len(),
{
    let pred = |g: RecurringGrant| !(g.from == from && g.to == to);
    if grants.len() > 0 {
        let init = grants.drop_last();
        if has_grant(init, from, to) {
            let i = choose|i: int|
                0 <= i < init.len() && (#[trigger] init[i]).from == from && init[i].to == to;
            assert(grants[i] == init[i]);
        }
        lemma_without_absent_grant(init, from, to);
        assert(grants =~= init.push(grants.last()));
        init.lemma_filter_push(grants.last(), pred);
        assert(grants[grants.len() - 1] == grants.last());
    } else {
        assert(grants.filter(pred) =~= grants);
    }
}

/// Identifier of a pending offer.
#[derive(Clone, Copy, Debug, PartialEq, Eq, Hash, Structural)]
pub struct OfferId(pub u32);

impl OfferId {
    /// The number behind the id.
    pub fn raw(self) -> (r: u32)
        ensures
            r == self.0,
    {
        self.0
    }
}

/// What is being offered.
#[derive(Clone, Copy, Debug, PartialEq, Eq, Structural)]
pub enum DiplomaticOfferKind {
    OfferPeace,
    Alliance,
    NonAggressionPact,
    ForeignAid { amount: i32, locked: bool },
    /// A call from an ally to join a war against `enemy`; `defensive` when the
    /// caller is the one attacked.
    JoinWar { enemy: NationId, defensive: bool },
}

/// An offer from one nation to another, awaiting an answer.
#[derive(Clone, Copy, Debug, PartialEq, Eq, Structural)]
pub struct DiplomaticOffer {
    pub id: OfferId,
    pub from: NationId,
    pub to: NationId,
    pub kind: DiplomaticOfferKind,
}

impl DiplomaticOffer {
    /// An offer not yet given an id (its id is 0 until it is queued).
    pub fn new(from: NationId, to: NationId, kind: DiplomaticOfferKind) -> (o: DiplomaticOffer)
        ensures
            o == (DiplomaticOffer { id: OfferId(0), from, to, kind }),
    {
        DiplomaticOffer { id: OfferId(0), from, to, kind }
    }
}

/// `n + 1`, staying at `u32::MAX` once reached.
pub open spec fn next_offer_id(n: u32) -> u32 {
    if n == u32::MAX {
        u32::MAX
    } else {
        (n + 1) as u32
    }
}

/// Offers awaiting an answer, in the order they were made.
pub struct DiplomaticOffers {
    next_id: u32,
    pending: Vec<DiplomaticOffer>,
}

impl View for DiplomaticOffers {
    type V = Seq<DiplomaticOffer>;

    closed spec fn view(&self) -> Seq<DiplomaticOffer> {
        self.pending@
    }
}

/// The offers with recipient `nation`, in order.
pub open spec fn offers_to(offers: Seq<DiplomaticOffer>, nation: NationId) -> Seq<DiplomaticOffer> {
    offers.filter(|o: DiplomaticOffer| o.to == nation)
}

/// `i` is the position of the first offer with id `id`.
pub open spec fn is_first_offer(offers: Seq<DiplomaticOffer>, id: OfferId, i: int) -> bool {
    &&& 0 <= i < offers.len()
    &&& offers[i].id == id
    &&& forall|j: int| 0 <= j < i ==> (#[trigger] offers[j]).id != id
}

impl DiplomaticOffers {
    #[verifier::type_invariant]
    spec fn inv(&self) -> bool {
        &&& forall|i: int| 0 <= i < self.pending@.len() ==> (#[trigger] self.pending@[i]).id.0 <= self.next_id
        &&& forall|i: int, j: int|
            0 <= i < j < self.pending@.len() ==> (#[trigger] self.pending@[i]).id.0 < (
            #[trigger] self.pending@[j]).id.0 || self.pending@[j].id.0 == u32::MAX
    }

    /// The id given to the most recent offer (0 before any).
    pub closed spec fn last_id(&self) -> u32 {
        self.next_id
    }

    /// No pending offers.
    pub fn new() -> (o: DiplomaticOffers)
        ensures
            o@ == Seq::<DiplomaticOffer>::empty(),
            o.last_id() == 0,
    {
        DiplomaticOffers { next_id: 0, pending: Vec::new() }
    }

    /// Queues `offer` under the next id. Until ids run out at `u32::MAX`,
    /// the new id is larger than, so distinct from, every pending id.
    pub fn push(&mut self, offer: DiplomaticOffer)
        ensures
            final(self).last_id() == next_offer_id(old(self).last_id()),
            final(self)@ == old(self)@.push(
                DiplomaticOffer { id: OfferId(next_offer_id(old(self).last_id())), ..offer },
            ),
            old(self).last_id() < u32::MAX ==> forall|i: int|
                0 <= i < old(self)@.len() ==> (#[trigger] old(self)@[i]).id.0 < final(self).last_id(),
    {
        proof {
            use_type_invariant(&*self);
        }
        let id = if self.next_id == u32::MAX {
            u32::MAX
        } else {
            self.next_id + 1
        };
        let queued = DiplomaticOffer { id: OfferId(id), ..offer };
        let ghost s0 = self.pending@;
        let mut v: Vec<DiplomaticOffer> = Vec::new();
        std::mem::swap(&mut v, &mut self.pending);
        v.push(queued);
        self.next_id = id;
        proof {
            assert forall|a: int, b: int|
                0 <= a < b < v@.len() implies (#[trigger] v@[a]).id.0 < (#[trigger] v@[b]).id.0
                || v@[b].id.0 == u32::MAX by {
                if b < s0.len() {
                    assert(v@[a] == s0[a] && v@[b] == s0[b]);
                } else {
                    assert(v@[a] == s0[a]);
                }
            }
            assert forall|a: int| 0 <= a < v@.len() implies (#[trigger] v@[a]).id.0 <= id by {
                if a < s0.len() {
                    assert(v@[a] == s0[a]);
                }
            }
        }
        self.pending = v;
    }

    /// The offers addressed to `nation`, in order.
    pub fn iter_for(&self, nation: NationId) -> (r: Vec<DiplomaticOffer>)
        ensures
            r@ == offers_to(self@, nation),
    {
        let ghost pred = |o: DiplomaticOffer| o.to == nation;
        let mut r: Vec<DiplomaticOffer> = Vec::new();
        let mut i: usize = 0;
        while i < self.pending.len()
            invariant
                i <= self.pending@.len(),
                pred == (|o: DiplomaticOffer| o.to == nation),
                r@ == self.pending@.take(i as int).filter(pred),
            decreases self.pending@.len() - i,
        {
            let o = self.pending[i];
            assert(self.pending@.take(i + 1) == self.pending@.take(i as int).push(o));
            proof {
                self.pending@.take(i as int).lemma_filter_push(o, pred);
            }
            if o.to == nation {
                r.push(o);
            }
            i = i + 1;
        }
        assert(self.pending@.take(i as int) =~= self.pending@);
        r
    }

    /// True if some offer is addressed to `nation`.
    pub fn has_pending_for(&self, nation: NationId) -> (r: bool)
        ensures
            r == exists|i: int| 0 <= i < self@.len() && (#[trigger] self@[i]).to == nation,
    {
        let mut i: usize = 0;
        while i < self.pending.len()
            invariant
                i <= self.pending@.len(),
                forall|j: int| 0 <= j < i ==> (#[trigger] self.pending@[j]).to != nation,
            decreases self.pending@.len() - i,
        {
            if self.pending[i].to == nation {
                assert(self.pending@[i as int].to == nation);
                return true;
            }
            i = i + 1;
        }
        false
    }

    /// Removes and returns the first offer with id `id`, if any.
    pub fn take(&mut self, id: OfferId) -> (r: Option<DiplomaticOffer>)
        ensures
            final(self).last_id() == old(self).last_id(),
            match r {
                Some(o) => exists|i: int|
                    is_first_offer(old(self)@, id, i) && o == old(self)@[i] && final(self)@ == old(self)@.remove(i),
                None => (forall|i: int| 0 <= i < old(self)@.len() ==> (#[trigger] old(self)@[i]).id
                    != id) && final(self)@ == old(self)@,
            },
    {
        proof {
            use_type_invariant(&*self);
        }
        let mut i: usize = 0;
        while i < self.pending.len()
            invariant
                self.pending@ == old(self).pending@,
                self.next_id == old(self).next_id,
                i <= self.pending@.len(),
                forall|j: int| 0 <= j < i ==> (#[trigger] self.pending@[j]).id != id,
            decreases self.pending@.len() - i,
        {
            proof {
                use_type_invariant(&*self);
            }
            if self.pending[i].id == id {
                let ghost s0 = self.pending@;
                let mut v: Vec<DiplomaticOffer> = Vec::new();
                std::mem::swap(&mut v, &mut self.pending);
                let o = v.remove(i);
                proof {
                    assert(is_first_offer(s0, id, i as int));
                    assert forall|a: int, b: int|
                        0 <= a < b < v@.len() implies (#[trigger] v@[a]).id.0 < (#[trigger] v@[b]).id.0
                        || v@[b].id.0 == u32::MAX by {
                        let a0 = if a < i { a } else { a + 1 };
                        let b0 = if b < i { b } else { b + 1 };
                        assert(v@[a] == s0[a0]);
                        assert(v@[b] == s0[b0]);
                    }
                    assert forall|a: int| 0 <= a < v@.len() implies (#[trigger] v@[a]).id.0 <= self.next_id by {
                        let a0 = if a < i { a } else { a + 1 };
                        assert(v@[a] == s0[a0]);
                    }
                }
                self.pending = v;
                return Some(o);
            }
            i = i + 1;
        }
        None
    }

    /// Number of pending offers.
    pub fn len(&self) -> (n: usize)
        ensures
            n == self@.len(),
    {
        self.pending.len()
    }
}


/// A nation as diplomacy sees it: its id and, if it has one, its treasury.
#[derive(Clone, Copy, Debug, PartialEq, Eq, Structural)]
pub struct NationAccount {
    pub id: NationId,
    pub treasury: Option<Treasury>,
}

/// Orders issued during the player turn.
#[derive(Clone, Copy, Debug, PartialEq, Eq, Structural)]
pub struct DiplomaticOrder {
    pub actor: NationId,
    pub target: NationId,
    pub kind: DiplomaticOrderKind,
}

/// What an order asks for.
#[derive(Clone, Copy, Debug, PartialEq, Eq, Structural)]
pub enum DiplomaticOrderKind {
    DeclareWar,
    OfferPeace,
    EstablishConsulate,
    OpenEmbassy,
    SignNonAggressionPact,
    FormAlliance,
    SendAid { amount: i32, locked: bool },
    CancelAid,
}

/// The nation selected in the diplomacy screen.
#[derive(Clone, Copy, Debug, PartialEq, Eq, Structural)]
pub struct DiplomacySelection {
    pub selected: Option<NationId>,
}

/// What became of an order.
#[derive(Clone, Copy, Debug, PartialEq, Eq, Structural)]
pub enum DiplomacyOutcome {
    /// Dropped without effect: the order targets its own nation, names a
    /// nation that does not exist, needs a relation or treasury that is
    /// missing, sends no money, or cancels aid that was never granted.
    Ignored,
    AlreadyAtWar,
    WarDeclared,
    NotAtWar,
    PeaceOffered,
    ConsulateExists,
    RelationsTooPoor,
    InsufficientFunds { needed: i64 },
    ConsulateEstablished,
    ConsulateRequired,
    EmbassyExists,
    RelationsBelow { required: i32 },
    EmbassyOpened,
    AtWar,
    EmbassyRequired,
    PactExists,
    PactProposed,
    AllianceExists,
    AllianceProposed,
    AidSent,
    AidCancelled,
}

/// Price of a consulate.
pub const CONSULATE_COST: i64 = 500;

/// Price of an embassy.
pub const EMBASSY_COST: i64 = 5000;

/// `i` is the position of the first account of nation `id`.
pub open spec fn is_first_account(nations: Seq<NationAccount>, id: NationId, i: int) -> bool {
    &&& 0 <= i < nations.len()
    &&& nations[i].id == id
    &&& forall|j: int| 0 <= j < i ==> (#[trigger] nations[j]).id != id
}

/// Position of the first account of nation `id`, if it exists.
pub open spec fn account_index(nations: Seq<NationAccount>, id: NationId) -> Option<int> {
    if exists|i: int| is_first_account(nations, id, i) {
        Some(choose|i: int| is_first_account(nations, id, i))
    } else {
        None
    }
}

/// The accounts after charging `amount` to account `i`.
pub open spec fn debited(nations: Seq<NationAccount>, i: int, amount: int) -> Seq<NationAccount> {
    nations.update(
        i,
        NationAccount {
            treasury: Some(Treasury { total: saturate_i64(nations[i].treasury.unwrap().total - amount) }),
            ..nations[i]
        },
    )
}

/// The accounts after paying `amount` into account `i`, when it has a treasury.
pub open spec fn credited(nations: Seq<NationAccount>, i: int, amount: int) -> Seq<NationAccount> {
    match nations[i].treasury {
        Some(t) => nations.update(
            i,
            NationAccount { treasury: Some(Treasury { total: saturate_i64(t.total + amount) }), ..nations[i] },
        ),
        None => nations,
    }
}

/// The offers after queueing one more.
pub open spec fn queued(
    offers: (u32, Seq<DiplomaticOffer>),
    from: NationId,
    to: NationId,
    kind: DiplomaticOfferKind,
) -> (u32, Seq<DiplomaticOffer>) {
    let id = next_offer_id(offers.0);
    (id, offers.1.push(DiplomaticOffer { id: OfferId(id), from, to, kind }))
}

/// Score change that declaring war on `target` brings from a nation whose
/// score with `target` is `score`: friends of the target turn against the
/// aggressor, its enemies warm to it (a tenth of the score, truncated).
pub open spec fn opinion_delta(score: int) -> int {
    if score >= 0 {
        -(score / 10)
    } else {
        (-score) / 10
    }
}

/// Scores after the rest of the world reacts to `actor` declaring war on `target`.
pub open spec fn opinion_shift(
    m: Map<(NationId, NationId), DiplomaticRelation>,
    nations: Seq<NationAccount>,
    actor: NationId,
    target: NationId,
) -> Map<(NationId, NationId), DiplomaticRelation>
    decreases nations.len(),
{
    if nations.len() == 0 {
        m
    } else {
        let m1 = opinion_shift(m, nations.drop_last(), actor, target);
        let n = nations.last().id;
        if n == actor || n == target {
            m1
        } else {
            with_adjusted_score(
                m1,
                actor,
                n,
                opinion_delta(relation_or_default(m1, n, target).score as int),
            )
        }
    }
}

/// Offers after the allies of both sides are called to war: each ally of the
/// target is asked by the target to defend it against the actor, each ally of
/// the actor is asked by the actor to join against the target.
pub open spec fn alliance_calls(
    offers: (u32, Seq<DiplomaticOffer>),
    m: Map<(NationId, NationId), DiplomaticRelation>,
    nations: Seq<NationAccount>,
    actor: NationId,
    target: NationId,
) -> (u32, Seq<DiplomaticOffer>)
    decreases nations.len(),
{
    if nations.len() == 0 {
        offers
    } else {
        let o1 = alliance_calls(offers, m, nations.drop_last(), actor, target);
        let n = nations.last().id;
        if n == actor || n == target {
            o1
        } else {
            let o2 = if relation_or_default(m, target, n).treaty.alliance {
                queued(o1, target, n, DiplomaticOfferKind::JoinWar { enemy: actor, defensive: true })
            } else {
                o1
            };
            if relation_or_default(m, actor, n).treaty.alliance {
                queued(o2, actor, n, DiplomaticOfferKind::JoinWar { enemy: target, defensive: false })
            } else {
                o2
            }
        }
    }
}

/// Treaty change when two nations go to war: pacts and alliances end.
pub open spec fn war_update() -> TreatyUpdate {
    TreatyUpdate {
        at_war: Some(true),
        consulate: None,
        embassy: None,
        non_aggression_pact: Some(false),
        alliance: Some(false),
    }
}

/// `a` goes to war with `b`: the treaty turns to war, the score drops by 40,
/// and aid from `a` to `b` stops.
pub open spec fn enter_war(
    m: Map<(NationId, NationId), DiplomaticRelation>,
    grants: Seq<RecurringGrant>,
    a: NationId,
    b: NationId,
) -> (Map<(NationId, NationId), DiplomaticRelation>, Seq<RecurringGrant>) {
    (with_adjusted_score(with_treaty(m, a, b, war_update()), a, b, -40), without_grant(grants, a, b))
}

pub open spec fn only_consulate() -> TreatyUpdate {
    TreatyUpdate { consulate: Some(true), at_war: None, embassy: None, non_aggression_pact: None, alliance: None }
}

pub open spec fn only_embassy() -> TreatyUpdate {
    TreatyUpdate { embassy: Some(true), at_war: None, consulate: None, non_aggression_pact: None, alliance: None }
}

/// Relation bonus for aid sent by order: a point per 200, between 1 and 10.
pub open spec fn aid_order_bonus(amount: int) -> int {
    if amount / 200 < 1 {
        1
    } else if amount / 200 > 10 {
        10
    } else {
        amount / 200
    }
}

/// Relation bonus for accepted or recurring aid: a point per 200, at least 1.
pub open spec fn aid_bonus(amount: int) -> int {
    if amount >= 200 {
        amount / 200
    } else {
        1
    }
}

/// The effect of one order: relations, grants, offers and accounts after it,
/// and its outcome.
pub open spec fn order_effect(
    o: DiplomaticOrder,
    m: Map<(NationId, NationId), DiplomaticRelation>,
    grants: Seq<RecurringGrant>,
    offers: (u32, Seq<DiplomaticOffer>),
    nations: Seq<NationAccount>,
) -> (
    Map<(NationId, NationId), DiplomaticRelation>,
    Seq<RecurringGrant>,
    (u32, Seq<DiplomaticOffer>),
    Seq<NationAccount>,
    DiplomacyOutcome,
) {
    let a = o.actor;
    let b = o.target;
    let unchanged = (m, grants, offers, nations, DiplomacyOutcome::Ignored);
    let key = pair_key(a, b);
    let rel = relation_or_default(m, a, b);
    if a == b || account_index(nations, a).is_none() || account_index(nations, b).is_none() {
        unchanged
    } else {
        let ai = account_index(nations, a).unwrap();
        let bi = account_index(nations, b).unwrap();
        match o.kind {
            DiplomaticOrderKind::DeclareWar => if rel.treaty.at_war {
                (m, grants, offers, nations, DiplomacyOutcome::AlreadyAtWar)
            } else {
                let (m1, g1) = enter_war(m, grants, a, b);
                let m2 = opinion_shift(m1, nations, a, b);
                (m2, g1, alliance_calls(offers, m2, nations, a, b), nations, DiplomacyOutcome::WarDeclared)
            },
            DiplomaticOrderKind::OfferPeace => if !rel.treaty.at_war {
                (m, grants, offers, nations, DiplomacyOutcome::NotAtWar)
            } else {
                (m, grants, queued(offers, a, b, DiplomaticOfferKind::OfferPeace), nations, DiplomacyOutcome::PeaceOffered)
            },
            DiplomaticOrderKind::EstablishConsulate => if rel.treaty.consulate {
                (m, grants, offers, nations, DiplomacyOutcome::ConsulateExists)
            } else if rel.score < 0 {
                (m, grants, offers, nations, DiplomacyOutcome::RelationsTooPoor)
            } else {
                match nations[ai].treasury {
                    None => unchanged,
                    Some(t) => if t.total < CONSULATE_COST {
                        (m, grants, offers, nations, DiplomacyOutcome::InsufficientFunds { needed: CONSULATE_COST })
                    } else {
                        (
                            with_adjusted_score(with_treaty(m, a, b, only_consulate()), a, b, 5),
                            grants,
                            offers,
                            debited(nations, ai, CONSULATE_COST as int),
                            DiplomacyOutcome::ConsulateEstablished,
                        )
                    },
                }
            },
            DiplomaticOrderKind::OpenEmbassy => if !m.contains_key(key) {
                unchanged
            } else if !rel.treaty.consulate {
                (m, grants, offers, nations, DiplomacyOutcome::ConsulateRequired)
            } else if rel.treaty.embassy {
                (m, grants, offers, nations, DiplomacyOutcome::EmbassyExists)
            } else if rel.score < 30 {
                (m, grants, offers, nations, DiplomacyOutcome::RelationsBelow { required: 30 })
            } else {
                match nations[ai].treasury {
                    None => unchanged,
                    Some(t) => if t.total < EMBASSY_COST {
                        (m, grants, offers, nations, DiplomacyOutcome::InsufficientFunds { needed: EMBASSY_COST })
                    } else {
                        (
                            with_adjusted_score(with_treaty(m, a, b, only_embassy()), a, b, 10),
                            grants,
                            offers,
                            debited(nations, ai, EMBASSY_COST as int),
                            DiplomacyOutcome::EmbassyOpened,
                        )
                    },
                }
            },
            DiplomaticOrderKind::SignNonAggressionPact => if !m.contains_key(key) {
                unchanged
            } else if rel.treaty.at_war {
                (m, grants, offers, nations, DiplomacyOutcome::AtWar)
            } else if !rel.treaty.embassy {
                (m, grants, offers, nations, DiplomacyOutcome::EmbassyRequired)
            } else if rel.treaty.non_aggression_pact {
                (m, grants, offers, nations, DiplomacyOutcome::PactExists)
            } else {
                (m, grants, queued(offers, a, b, DiplomaticOfferKind::NonAggressionPact), nations, DiplomacyOutcome::PactProposed)
            },
            DiplomaticOrderKind::FormAlliance => if !m.contains_key(key) {
                unchanged
            } else if rel.treaty.at_war {
                (m, grants, offers, nations, DiplomacyOutcome::AtWar)
            } else if !rel.treaty.embassy {
                (m, grants, offers, nations, DiplomacyOutcome::EmbassyRequired)
            } else if rel.score < 40 {
                (m, grants, offers, nations, DiplomacyOutcome::RelationsBelow { required: 40 })
            } else if rel.treaty.alliance {
                (m, grants, offers, nations, DiplomacyOutcome::AllianceExists)
            } else {
                (m, grants, queued(offers, a, b, DiplomaticOfferKind::Alliance), nations, DiplomacyOutcome::AllianceProposed)
            },
            DiplomaticOrderKind::SendAid { amount, locked } => if amount <= 0 || !m.contains_key(key) {
                unchanged
            } else if rel.treaty.at_war {
                (m, grants, offers, nations, DiplomacyOutcome::AtWar)
            } else {
                match nations[ai].treasury {
                    None => unchanged,
                    Some(t) => if t.total < amount {
                        (m, grants, offers, nations, DiplomacyOutcome::InsufficientFunds { needed: amount as i64 })
                    } else {
                        (
                            with_adjusted_score(m, a, b, aid_order_bonus(amount as int)),
                            if locked {
                                without_grant(grants, a, b).push(RecurringGrant { from: a, to: b, amount })
                            } else {
                                grants
                            },
                            offers,
                            credited(debited(nations, ai, amount as int), bi, amount as int),
                            DiplomacyOutcome::AidSent,
                        )
                    },
                }
            },
            DiplomaticOrderKind::CancelAid => if has_grant(grants, a, b) {
                (with_adjusted_score(m, a, b, -5), without_grant(grants, a, b), offers, nations, DiplomacyOutcome::AidCancelled)
            } else {
                unchanged
            },
        }
    }
}

/// Looks up the first account of nation `id`.
pub fn find_account(nations: &Vec<NationAccount>, id: NationId) -> (r: Option<usize>)
    ensures
        match r {
            Some(i) => account_index(nations@, id) == Some(i as int),
            None => account_index(nations@, id).is_none(),
        },
{
    let mut i: usize = 0;
    while i < nations.len()
        invariant
            i <= nations@.len(),
            forall|j: int| 0 <= j < i ==> (#[trigger] nations@[j]).id != id,
        decreases nations@.len() - i,
    {
        if nations[i].id == id {
            assert(is_first_account(nations@, id, i as int));
            let ghost k = choose|k: int| is_first_account(nations@, id, k);
            assert(k == i) by {
                if k > i {
                    assert(nations@[i as int].id == id);
                }
            }
            return Some(i);
        }
        i = i + 1;
    }
    assert forall|k: int| !is_first_account(nations@, id, k) by {
        if 0 <= k < nations@.len() {
            assert(nations@[k].id != id);
        }
    }
    None
}

fn debit(nations: &mut Vec<NationAccount>, i: usize, amount: i64)
    requires
        i < old(nations)@.len(),
        old(nations)@[i as int].treasury matches Some(t) && amount <= t.total,
    ensures
        final(nations)@ == debited(old(nations)@, i as int, amount as int),
{
    let mut acc = nations[i];
    let mut t = acc.treasury.unwrap();
    t.subtract(amount);
    acc.treasury = Some(t);
    nations.set(i, acc);
}

fn credit(nations: &mut Vec<NationAccount>, i: usize, amount: i64)
    requires
        i < old(nations)@.len(),
    ensures
        final(nations)@ == credited(old(nations)@, i as int, amount as int),
{
    let mut acc = nations[i];
    if let Some(t0) = acc.treasury {
        let mut t = t0;
        t.add(amount);
        acc.treasury = Some(t);
        nations.set(i, acc);
    }
}

fn apply_opinion_shift(
    state: &mut DiplomacyState,
    nations: &Vec<NationAccount>,
    actor: NationId,
    target: NationId,
)
    ensures
        final(state)@ == opinion_shift(old(state)@, nations@, actor, target),
{
    let mut i: usize = 0;
    while i < nations.len()
        invariant
            i <= nations@.len(),
            state@ == opinion_shift(old(state)@, nations@.take(i as int), actor, target),
        decreases nations@.len() - i,
    {
        let n = nations[i].id;
        assert(nations@.take(i + 1).drop_last() =~= nations@.take(i as int));
        if n != actor && n != target {
            let score = state.relation_or_default(n, target).score;
            state.well_formed();
            let delta: i32 = if score >= 0 {
                -(score / 10)
            } else {
                (-score) / 10
            };
            state.adjust_score(actor, n, delta);
        }
        i = i + 1;
    }
    assert(nations@.take(i as int) =~= nations@);
}

fn call_allies(
    offers: &mut DiplomaticOffers,
    state: &DiplomacyState,
    nations: &Vec<NationAccount>,
    actor: NationId,
    target: NationId,
)
    ensures
        (final(offers).last_id(), final(offers)@) == alliance_calls(
            (old(offers).last_id(), old(offers)@),
            state@,
            nations@,
            actor,
            target,
        ),
{
    let mut i: usize = 0;
    while i < nations.len()
        invariant
            i <= nations@.len(),
            (offers.last_id(), offers@) == alliance_calls(
                (old(offers).last_id(), old(offers)@),
                state@,
                nations@.take(i as int),
                actor,
                target,
            ),
        decreases nations@.len() - i,
    {
        let n = nations[i].id;
        assert(nations@.take(i + 1).drop_last() =~= nations@.take(i as int));
        if n != actor && n != target {
            if state.relation_or_default(target, n).treaty.alliance {
                offers.push(
                    DiplomaticOffer::new(
                        target,
                        n,
                        DiplomaticOfferKind::JoinWar { enemy: actor, defensive: true },
                    ),
                );
            }
            if state.relation_or_default(actor, n).treaty.alliance {
                offers.push(
                    DiplomaticOffer::new(
                        actor,
                        n,
                        DiplomaticOfferKind::JoinWar { enemy: target, defensive: false },
                    ),
                );
            }
        }
        i = i + 1;
    }
    assert(nations@.take(i as int) =~= nations@);
}

fn war_update_exec() -> (u: TreatyUpdate)
    ensures
        u == war_update(),
{
    TreatyUpdate {
        at_war: Some(true),
        consulate: None,
        embassy: None,
        non_aggression_pact: Some(false),
        alliance: Some(false),
    }
}

/// `a` goes to war with `b`.
fn go_to_war(state: &mut DiplomacyState, ledger: &mut ForeignAidLedger, a: NationId, b: NationId)
    ensures
        (final(state)@, final(ledger)@) == enter_war(old(state)@, old(ledger)@, a, b),
{
    state.set_treaty(a, b, war_update_exec());
    state.adjust_score(a, b, -40);
    ledger.cancel(a, b);
}

fn declare_war(
    state: &mut DiplomacyState,
    ledger: &mut ForeignAidLedger,
    offers: &mut DiplomaticOffers,
    nations: &Vec<NationAccount>,
    a: NationId,
    b: NationId,
)
    ensures
        final(ledger)@ == enter_war(old(state)@, old(ledger)@, a, b).1,
        final(state)@ == opinion_shift(enter_war(old(state)@, old(ledger)@, a, b).0, nations@, a, b),
        (final(offers).last_id(), final(offers)@) == alliance_calls(
            (old(offers).last_id(), old(offers)@),
            final(state)@,
            nations@,
            a,
            b,
        ),
{
    go_to_war(state, ledger, a, b);
    apply_opinion_shift(state, nations, a, b);
    call_allies(offers, state, nations, a, b);
}

/// Carries out one diplomatic order against the current state; see
/// `order_effect` for what each order does and when it is refused.
pub fn process_diplomatic_order(
    order: &DiplomaticOrder,
    state: &mut DiplomacyState,
    ledger: &mut ForeignAidLedger,
    offers: &mut DiplomaticOffers,
    nations: &mut Vec<NationAccount>,
) -> (outcome: DiplomacyOutcome)
    ensures
        final(state)@ == order_effect(*order, old(state)@, old(ledger)@, (old(offers).last_id(), old(offers)@), old(nations)@).0,
        final(ledger)@ == order_effect(*order, old(state)@, old(ledger)@, (old(offers).last_id(), old(offers)@), old(nations)@).1,
        (final(offers).last_id(), final(offers)@) == order_effect(*order, old(state)@, old(ledger)@, (old(offers).last_id(), old(offers)@), old(nations)@).2,
        final(nations)@ == order_effect(*order, old(state)@, old(ledger)@, (old(offers).last_id(), old(offers)@), old(nations)@).3,
        outcome == order_effect(*order, old(state)@, old(ledger)@, (old(offers).last_id(), old(offers)@), old(nations)@).4,
{
    let a = order.actor;
    let b = order.target;
    if a == b {
        return DiplomacyOutcome::Ignored;
    }
    let ai = match find_account(nations, a) {
        Some(i) => i,
        None => {
            return DiplomacyOutcome::Ignored;
        },
    };
    let bi = match find_account(nations, b) {
        Some(i) => i,
        None => {
            return DiplomacyOutcome::Ignored;
        },
    };
    let existing = state.relation(a, b);
    let rel = state.relation_or_default(a, b);
    match order.kind {
        DiplomaticOrderKind::DeclareWar => {
            if rel.treaty.at_war {
                return DiplomacyOutcome::AlreadyAtWar;
            }
            declare_war(state, ledger, offers, nations, a, b);
            DiplomacyOutcome::WarDeclared
        },
        DiplomaticOrderKind::OfferPeace => {
            if !rel.treaty.at_war {
                return DiplomacyOutcome::NotAtWar;
            }
            offers.push(DiplomaticOffer::new(a, b, DiplomaticOfferKind::OfferPeace));
            DiplomacyOutcome::PeaceOffered
        },
        DiplomaticOrderKind::EstablishConsulate => {
            if rel.treaty.consulate {
                return DiplomacyOutcome::ConsulateExists;
            }
            if rel.score < 0 {
                return DiplomacyOutcome::RelationsTooPoor;
            }
            let t = match nations[ai].treasury {
                Some(t) => t,
                None => {
                    return DiplomacyOutcome::Ignored;
                },
            };
            if t.available() < CONSULATE_COST {
                return DiplomacyOutcome::InsufficientFunds { needed: CONSULATE_COST };
            }
            debit(nations, ai, CONSULATE_COST);
            state.set_treaty(
                a,
                b,
                TreatyUpdate { consulate: Some(true), ..TreatyUpdate::none() },
            );
            state.adjust_score(a, b, 5);
            DiplomacyOutcome::ConsulateEstablished
        },
        DiplomaticOrderKind::OpenEmbassy => {
            if existing.is_none() {
                return DiplomacyOutcome::Ignored;
            }
            if !rel.treaty.consulate {
                return DiplomacyOutcome::ConsulateRequired;
            }
            if rel.treaty.embassy {
                return DiplomacyOutcome::EmbassyExists;
            }
            if rel.score < 30 {
                return DiplomacyOutcome::RelationsBelow { required: 30 };
            }
            let t = match nations[ai].treasury {
                Some(t) => t,
                None => {
                    return DiplomacyOutcome::Ignored;
                },
            };
            if t.available() < EMBASSY_COST {
                return DiplomacyOutcome::InsufficientFunds { needed: EMBASSY_COST };
            }
            debit(nations, ai, EMBASSY_COST);
            state.set_treaty(a, b, TreatyUpdate { embassy: Some(true), ..TreatyUpdate::none() });
            state.adjust_score(a, b, 10);
            DiplomacyOutcome::EmbassyOpened
        },
        DiplomaticOrderKind::SignNonAggressionPact => {
            if existing.is_none() {
                return DiplomacyOutcome::Ignored;
            }
            if rel.treaty.at_war {
                return DiplomacyOutcome::AtWar;
            }
            if !rel.treaty.embassy {
                return DiplomacyOutcome::EmbassyRequired;
            }
            if rel.treaty.non_aggression_pact {
                return DiplomacyOutcome::PactExists;
            }
            offers.push(DiplomaticOffer::new(a, b, DiplomaticOfferKind::NonAggressionPact));
            DiplomacyOutcome::PactProposed
        },
        DiplomaticOrderKind::FormAlliance => {
            if existing.is_none() {
                return DiplomacyOutcome::Ignored;
            }
            if rel.treaty.at_war {
                return DiplomacyOutcome::AtWar;
            }
            if !rel.treaty.embassy {
                return DiplomacyOutcome::EmbassyRequired;
            }
            if rel.score < 40 {
                return DiplomacyOutcome::RelationsBelow { required: 40 };
            }
            if rel.treaty.alliance {
                return DiplomacyOutcome::AllianceExists;
            }
            offers.push(DiplomaticOffer::new(a, b, DiplomaticOfferKind::Alliance));
            DiplomacyOutcome::AllianceProposed
        },
        DiplomaticOrderKind::SendAid { amount, locked } => {
            if amount <= 0 || existing.is_none() {
                return DiplomacyOutcome::Ignored;
            }
            if rel.treaty.at_war {
                return DiplomacyOutcome::AtWar;
            }
            let t = match nations[ai].treasury {
                Some(t) => t,
                None => {
                    return DiplomacyOutcome::Ignored;
                },
            };
            let amount64: i64 = amount as i64;
            if t.available() < amount64 {
                return DiplomacyOutcome::InsufficientFunds { needed: amount64 };
            }
            debit(nations, ai, amount64);
            credit(nations, bi, amount64);
            let q: i32 = amount / 200;
            let bonus: i32 = if q < 1 {
                1
            } else if q > 10 {
                10
            } else {
                q
            };
            state.well_formed();
            state.adjust_score(a, b, bonus);
            if locked {
                ledger.upsert(RecurringGrant { from: a, to: b, amount });
            }
            DiplomacyOutcome::AidSent
        },
        DiplomaticOrderKind::CancelAid => {
            if ledger.cancel(a, b) {
                state.well_formed();
                state.adjust_score(a, b, -5);
                DiplomacyOutcome::AidCancelled
            } else {
                DiplomacyOutcome::Ignored
            }
        },
    }
}


/// What became of the answer to an offer.
#[derive(Clone, Copy, Debug, PartialEq, Eq, Structural)]
pub enum OfferResolution {
    /// A call to war against the very nation that answers it; nothing happens.
    Ignored,
    PeaceMade,
    AllianceFormed,
    PactSigned,
    AidDelivered,
    /// The donor's treasury holds less than the promised aid.
    AidUnaffordable,
    JoinedWar,
    PeaceRefused,
    AllianceDeclined,
    PactRejected,
    AidDeclined,
    WarCallRefused,
}

/// Treaty change when peace is accepted.
pub open spec fn peace_terms() -> TreatyUpdate {
    TreatyUpdate {
        at_war: Some(false),
        non_aggression_pact: Some(false),
        consulate: None,
        embassy: None,
        alliance: None,
    }
}

/// Treaty change when an alliance is accepted: allies also keep a pact.
pub open spec fn alliance_terms() -> TreatyUpdate {
    TreatyUpdate {
        alliance: Some(true),
        non_aggression_pact: Some(true),
        at_war: None,
        consulate: None,
        embassy: None,
    }
}

/// Treaty change when a non-aggression pact is accepted.
pub open spec fn pact_terms() -> TreatyUpdate {
    TreatyUpdate {
        non_aggression_pact: Some(true),
        at_war: None,
        consulate: None,
        embassy: None,
        alliance: None,
    }
}

/// Treaty change when an ally refuses to defend its partner: the alliance ends.
pub open spec fn broken_alliance() -> TreatyUpdate {
    TreatyUpdate {
        alliance: Some(false),
        non_aggression_pact: None,
        at_war: None,
        consulate: None,
        embassy: None,
    }
}

/// Scores after every listed nation other than `who` thinks 10 points less
/// of `who`.
pub open spec fn reputation_loss(
    m: Map<(NationId, NationId), DiplomaticRelation>,
    nations: Seq<NationAccount>,
    who: NationId,
) -> Map<(NationId, NationId), DiplomaticRelation>
    decreases nations.len(),
{
    if nations.len() == 0 {
        m
    } else {
        let m1 = reputation_loss(m, nations.drop_last(), who);
        let n = nations.last().id;
        if n == who {
            m1
        } else {
            with_adjusted_score(m1, who, n, -10)
        }
    }
}

/// Accounts after `amount` of aid goes from `from` to `to`: charged to the
/// donor if it has a treasury, paid to the recipient if it has one.
pub open spec fn aid_transfer(
    nations: Seq<NationAccount>,
    from: NationId,
    to: NationId,
    amount: int,
) -> Seq<NationAccount> {
    let n1 = match account_index(nations, from) {
        Some(i) => if nations[i].treasury.is_some() {
            debited(nations, i, amount)
        } else {
            nations
        },
        None => nations,
    };
    match account_index(nations, to) {
        Some(j) => credited(n1, j, amount),
        None => n1,
    }
}

/// The donor of aid exists, has a treasury, and that treasury holds less
/// than `amount`.
pub open spec fn donor_short(nations: Seq<NationAccount>, from: NationId, amount: int) -> bool {
    match account_index(nations, from) {
        Some(i) => match nations[i].treasury {
            Some(t) => t.total < amount,
            None => false,
        },
        None => false,
    }
}

/// The effect of answering `offer` (accepting it when `accept`): relations,
/// grants and accounts after it, and what became of it.
pub open spec fn response_effect(
    offer: DiplomaticOffer,
    accept: bool,
    m: Map<(NationId, NationId), DiplomaticRelation>,
    grants: Seq<RecurringGrant>,
    nations: Seq<NationAccount>,
) -> (
    Map<(NationId, NationId), DiplomaticRelation>,
    Seq<RecurringGrant>,
    Seq<NationAccount>,
    OfferResolution,
) {
    let a = offer.from;
    let b = offer.to;
    if accept {
        match offer.kind {
            DiplomaticOfferKind::OfferPeace => (
                with_adjusted_score(with_treaty(m, a, b, peace_terms()), a, b, 15),
                grants,
                nations,
                OfferResolution::PeaceMade,
            ),
            DiplomaticOfferKind::Alliance => (
                with_adjusted_score(with_treaty(m, a, b, alliance_terms()), a, b, 12),
                grants,
                nations,
                OfferResolution::AllianceFormed,
            ),
            DiplomaticOfferKind::NonAggressionPact => (
                with_adjusted_score(with_treaty(m, a, b, pact_terms()), a, b, 8),
                grants,
                nations,
                OfferResolution::PactSigned,
            ),
            DiplomaticOfferKind::ForeignAid { amount, locked } => if donor_short(
                nations,
                a,
                amount as int,
            ) {
                (m, grants, nations, OfferResolution::AidUnaffordable)
            } else {
                (
                    with_adjusted_score(m, a, b, aid_bonus(amount as int)),
                    if locked {
                        without_grant(grants, a, b).push(RecurringGrant { from: a, to: b, amount })
                    } else {
                        grants
                    },
                    aid_transfer(nations, a, b, amount as int),
                    OfferResolution::AidDelivered,
                )
            },
            DiplomaticOfferKind::JoinWar { enemy, defensive } => if b == enemy {
                (m, grants, nations, OfferResolution::Ignored)
            } else {
                let (m1, g1) = enter_war(m, grants, b, enemy);
                (m1, g1, nations, OfferResolution::JoinedWar)
            },
        }
    } else {
        match offer.kind {
            DiplomaticOfferKind::OfferPeace => (
                with_adjusted_score(m, a, b, -10),
                grants,
                nations,
                OfferResolution::PeaceRefused,
            ),
            DiplomaticOfferKind::Alliance => (
                with_adjusted_score(m, a, b, -12),
                grants,
                nations,
                OfferResolution::AllianceDeclined,
            ),
            DiplomaticOfferKind::NonAggressionPact => (
                with_adjusted_score(m, a, b, -6),
                grants,
                nations,
                OfferResolution::PactRejected,
            ),
            DiplomaticOfferKind::ForeignAid { .. } => (
                with_adjusted_score(m, a, b, -3),
                grants,
                nations,
                OfferResolution::AidDeclined,
            ),
            DiplomaticOfferKind::JoinWar { enemy, defensive } => if defensive {
                (
                    reputation_loss(with_treaty(m, a, b, broken_alliance()), nations, b),
                    grants,
                    nations,
                    OfferResolution::WarCallRefused,
                )
            } else {
                (with_adjusted_score(m, a, b, -5), grants, nations, OfferResolution::WarCallRefused)
            },
        }
    }
}

fn apply_reputation_loss(state: &mut DiplomacyState, nations: &Vec<NationAccount>, who: NationId)
    ensures
        final(state)@ == reputation_loss(old(state)@, nations@, who),
{
    let mut i: usize = 0;
    while i < nations.len()
        invariant
            i <= nations@.len(),
            state@ == reputation_loss(old(state)@, nations@.take(i as int), who),
        decreases nations@.len() - i,
    {
        let n = nations[i].id;
        assert(nations@.take(i + 1).drop_last() =~= nations@.take(i as int));
        if n != who {
            state.well_formed();
            state.adjust_score(who, n, -10);
        }
        i = i + 1;
    }
    assert(nations@.take(i as int) =~= nations@);
}

/// Relation bonus for accepted or recurring aid, as an integer of the game.
fn aid_bonus_exec(amount: i32) -> (r: i32)
    ensures
        r == aid_bonus(amount as int),
        1 <= r <= i32::MAX / 200,
{
    let q: i32 = amount / 200;
    if q < 1 {
        1
    } else {
        q
    }
}

fn transfer_aid(nations: &mut Vec<NationAccount>, from: NationId, to: NationId, amount: i64)
    requires
        !donor_short(old(nations)@, from, amount as int),
    ensures
        final(nations)@ == aid_transfer(old(nations)@, from, to, amount as int),
{
    let to_index = find_account(nations, to);
    match find_account(nations, from) {
        Some(i) => {
            if nations[i].treasury.is_some() {
                debit(nations, i, amount);
            }
        },
        None => {},
    }
    match to_index {
        Some(j) => {
            credit(nations, j, amount);
        },
        None => {},
    }
}

/// Carries out the answer to `offer`: accepting or refusing it changes the
/// relation of the two nations (and, for aid, the accounts and grants; for a
/// call to war, the answering nation's wars or standing); see
/// `response_effect`.
pub fn resolve_offer_response(
    offer: DiplomaticOffer,
    accept: bool,
    state: &mut DiplomacyState,
    ledger: &mut ForeignAidLedger,
    nations: &mut Vec<NationAccount>,
) -> (r: OfferResolution)
    ensures
        final(state)@ == response_effect(offer, accept, old(state)@, old(ledger)@, old(nations)@).0,
        final(ledger)@ == response_effect(offer, accept, old(state)@, old(ledger)@, old(nations)@).1,
        final(nations)@ == response_effect(offer, accept, old(state)@, old(ledger)@, old(nations)@).2,
        r == response_effect(offer, accept, old(state)@, old(ledger)@, old(nations)@).3,
{
    let a = offer.from;
    let b = offer.to;
    if accept {
        match offer.kind {
            DiplomaticOfferKind::OfferPeace => {
                state.set_treaty(
                    a,
                    b,
                    TreatyUpdate { at_war: Some(false), non_aggression_pact: Some(false), ..TreatyUpdate::none() },
                );
                state.adjust_score(a, b, 15);
                OfferResolution::PeaceMade
            },
            DiplomaticOfferKind::Alliance => {
                state.set_treaty(
                    a,
                    b,
                    TreatyUpdate { alliance: Some(true), non_aggression_pact: Some(true), ..TreatyUpdate::none() },
                );
                state.adjust_score(a, b, 12);
                OfferResolution::AllianceFormed
            },
            DiplomaticOfferKind::NonAggressionPact => {
                state.set_treaty(
                    a,
                    b,
                    TreatyUpdate { non_aggression_pact: Some(true), ..TreatyUpdate::none() },
                );
                state.adjust_score(a, b, 8);
                OfferResolution::PactSigned
            },
            DiplomaticOfferKind::ForeignAid { amount, locked } => {
                let amount64: i64 = amount as i64;
                match find_account(nations, a) {
                    Some(i) => match nations[i].treasury {
                        Some(t) => {
                            if t.available() < amount64 {
                                return OfferResolution::AidUnaffordable;
                            }
                        },
                        None => {},
                    },
                    None => {},
                }
                transfer_aid(nations, a, b, amount64);
                state.well_formed();
                state.adjust_score(a, b, aid_bonus_exec(amount));
                if locked {
                    ledger.upsert(RecurringGrant { from: a, to: b, amount });
                }
                OfferResolution::AidDelivered
            },
            DiplomaticOfferKind::JoinWar { enemy, defensive } => {
                if b == enemy {
                    return OfferResolution::Ignored;
                }
                go_to_war(state, ledger, b, enemy);
                OfferResolution::JoinedWar
            },
        }
    } else {
        match offer.kind {
            DiplomaticOfferKind::OfferPeace => {
                state.well_formed();
                state.adjust_score(a, b, -10);
                OfferResolution::PeaceRefused
            },
            DiplomaticOfferKind::Alliance => {
                state.well_formed();
                state.adjust_score(a, b, -12);
                OfferResolution::AllianceDeclined
            },
            DiplomaticOfferKind::NonAggressionPact => {
                state.well_formed();
                state.adjust_score(a, b, -6);
                OfferResolution::PactRejected
            },
            DiplomaticOfferKind::ForeignAid { .. } => {
                state.well_formed();
                state.adjust_score(a, b, -3);
                OfferResolution::AidDeclined
            },
            DiplomaticOfferKind::JoinWar { enemy, defensive } => {
                if defensive {
                    state.set_treaty(a, b, TreatyUpdate { alliance: Some(false), ..TreatyUpdate::none() });
                    apply_reputation_loss(state, nations, b);
                } else {
                    state.well_formed();
                    state.adjust_score(a, b, -5);
                }
                OfferResolution::WarCallRefused
            },
        }
    }
}


/// What became of one recurring grant at the start of a turn.
#[derive(Clone, Copy, Debug, PartialEq, Eq, Structural)]
pub enum RecurringAidOutcome {
    /// The donor or the recipient is not among the nations.
    MissingNation,
    /// The donor has no treasury.
    NoTreasury,
    /// The donor holds less than the grant.
    Unaffordable,
    Delivered,
}

/// The effect of paying one grant: relations and accounts after it, and what
/// became of it.
pub open spec fn grant_payment(
    g: RecurringGrant,
    m: Map<(NationId, NationId), DiplomaticRelation>,
    nations: Seq<NationAccount>,
) -> (Map<(NationId, NationId), DiplomaticRelation>, Seq<NationAccount>, RecurringAidOutcome) {
    match (account_index(nations, g.from), account_index(nations, g.to)) {
        (Some(i), Some(j)) => match nations[i].treasury {
            None => (m, nations, RecurringAidOutcome::NoTreasury),
            Some(t) => if t.total < g.amount {
                (m, nations, RecurringAidOutcome::Unaffordable)
            } else {
                (
                    with_adjusted_score(m, g.from, g.to, aid_bonus(g.amount as int)),
                    credited(debited(nations, i, g.amount as int), j, g.amount as int),
                    RecurringAidOutcome::Delivered,
                )
            },
        },
        _ => (m, nations, RecurringAidOutcome::MissingNation),
    }
}

/// The effect of paying `grants` in order.
pub open spec fn grant_payments(
    grants: Seq<RecurringGrant>,
    m: Map<(NationId, NationId), DiplomaticRelation>,
    nations: Seq<NationAccount>,
) -> (Map<(NationId, NationId), DiplomaticRelation>, Seq<NationAccount>, Seq<RecurringAidOutcome>)
    decreases grants.len(),
{
    if grants.len() == 0 {
        (m, nations, Seq::empty())
    } else {
        let (m1, n1, outs) = grant_payments(grants.drop_last(), m, nations);
        let (m2, n2, o) = grant_payment(grants.last(), m1, n1);
        (m2, n2, outs.push(o))
    }
}

/// Pays every recurring grant of `ledger`, in the order they were recorded;
/// returns what became of each.
pub fn apply_recurring_aid(
    ledger: &ForeignAidLedger,
    state: &mut DiplomacyState,
    nations: &mut Vec<NationAccount>,
) -> (outcomes: Vec<RecurringAidOutcome>)
    ensures
        final(state)@ == grant_payments(ledger@, old(state)@, old(nations)@).0,
        final(nations)@ == grant_payments(ledger@, old(state)@, old(nations)@).1,
        outcomes@ == grant_payments(ledger@, old(state)@, old(nations)@).2,
{
    let grants = ledger.all();
    let mut outcomes: Vec<RecurringAidOutcome> = Vec::new();
    let mut k: usize = 0;
    while k < grants.len()
        invariant
            k <= grants@.len(),
            grants@ == ledger@,
            (state@, nations@, outcomes@) == grant_payments(
                grants@.take(k as int),
                old(state)@,
                old(nations)@,
            ),
        decreases grants@.len() - k,
    {
        let g = grants[k];
        assert(grants@.take(k + 1).drop_last() =~= grants@.take(k as int));
        let outcome = match (find_account(nations, g.from), find_account(nations, g.to)) {
            (Some(i), Some(j)) => match nations[i].treasury {
                None => RecurringAidOutcome::NoTreasury,
                Some(t) => {
                    let amount: i64 = g.amount as i64;
                    if t.available() < amount {
                        RecurringAidOutcome::Unaffordable
                    } else {
                        debit(nations, i, amount);
                        credit(nations, j, amount);
                        state.well_formed();
                        state.adjust_score(g.from, g.to, aid_bonus_exec(g.amount));
                        RecurringAidOutcome::Delivered
                    }
                },
            },
            _ => RecurringAidOutcome::MissingNation,
        };
        outcomes.push(outcome);
        k = k + 1;
    }
    assert(grants@.take(k as int) =~= grants@);
    outcomes
}

/// The effect of carrying out `orders` one after another.
pub open spec fn orders_effect(
    orders: Seq<DiplomaticOrder>,
    m: Map<(NationId, NationId), DiplomaticRelation>,
    grants: Seq<RecurringGrant>,
    offers: (u32, Seq<DiplomaticOffer>),
    nations: Seq<NationAccount>,
) -> (
    Map<(NationId, NationId), DiplomaticRelation>,
    Seq<RecurringGrant>,
    (u32, Seq<DiplomaticOffer>),
    Seq<NationAccount>,
    Seq<DiplomacyOutcome>,
)
    decreases orders.len(),
{
    if orders.len() == 0 {
        (m, grants, offers, nations, Seq::empty())
    } else {
        let prev = orders_effect(orders.drop_last(), m, grants, offers, nations);
        let step = order_effect(orders.last(), prev.0, prev.1, prev.2, prev.3);
        (step.0, step.1, step.2, step.3, prev.4.push(step.4))
    }
}

/// Carries out the orders of a turn in the order they were given; returns
/// what became of each.
pub fn process_diplomatic_orders(
    orders: &Vec<DiplomaticOrder>,
    state: &mut DiplomacyState,
    ledger: &mut ForeignAidLedger,
    offers: &mut DiplomaticOffers,
    nations: &mut Vec<NationAccount>,
) -> (outcomes: Vec<DiplomacyOutcome>)
    ensures
        ({
            let e = orders_effect(
                orders@,
                old(state)@,
                old(ledger)@,
                (old(offers).last_id(), old(offers)@),
                old(nations)@,
            );
            &&& final(state)@ == e.0
            &&& final(ledger)@ == e.1
            &&& (final(offers).last_id(), final(offers)@) == e.2
            &&& final(nations)@ == e.3
            &&& outcomes@ == e.4
        }),
{
    let mut outcomes: Vec<DiplomacyOutcome> = Vec::new();
    let mut k: usize = 0;
    while k < orders.len()
        invariant
            k <= orders@.len(),
            ({
                let e = orders_effect(
                    orders@.take(k as int),
                    old(state)@,
                    old(ledger)@,
                    (old(offers).last_id(), old(offers)@),
                    old(nations)@,
                );
                &&& state@ == e.0
                &&& ledger@ == e.1
                &&& (offers.last_id(), offers@) == e.2
                &&& nations@ == e.3
                &&& outcomes@ == e.4
            }),
        decreases orders@.len() - k,
    {
        assert(orders@.take(k + 1).drop_last() =~= orders@.take(k as int));
        let outcome = process_diplomatic_order(&orders[k], state, ledger, offers, nations);
        outcomes.push(outcome);
        k = k + 1;
    }
    assert(orders@.take(k as int) =~= orders@);
    outcomes
}

/// The relation of two nations does not depend on the order they are named in.
pub proof fn law_relation_is_symmetric(
    m: Map<(NationId, NationId), DiplomaticRelation>,
    a: NationId,
    b: NationId,
)
    ensures
        relation_or_default(m, a, b) == relation_or_default(m, b, a),
{
}

/// Declaring war on a nation one is not at war with puts the two at war,
/// ends their pact and alliance, lowers their score by 40 (to no less than
/// -100), and stops aid from the aggressor to its victim; the treasuries are
/// untouched.
pub proof fn law_declaring_war(
    actor: NationId,
    target: NationId,
    m: Map<(NationId, NationId), DiplomaticRelation>,
    grants: Seq<RecurringGrant>,
    offers: (u32, Seq<DiplomaticOffer>),
    nations: Seq<NationAccount>,
)
    requires
        actor != target,
        account_index(nations, actor) is Some,
        account_index(nations, target) is Some,
        !relation_or_default(m, actor, target).treaty.at_war,
    ensures
        ({
            let e = order_effect(
                DiplomaticOrder { actor, target, kind: DiplomaticOrderKind::DeclareWar },
                m,
                grants,
                offers,
                nations,
            );
            let r = relation_or_default(e.0, actor, target);
            &&& e.4 == DiplomacyOutcome::WarDeclared
            &&& r.treaty.at_war
            &&& !r.treaty.non_aggression_pact
            &&& !r.treaty.alliance
            &&& r.score == clamp_score(relation_or_default(m, actor, target).score - 40)
            &&& !has_grant(e.1, actor, target)
            &&& e.3 == nations
        }),
{
    let m1 = enter_war(m, grants, actor, target).0;
    lemma_opinion_shift_keeps_pair(m1, nations, actor, target);
    lemma_without_grant_removes(grants, actor, target);
}

proof fn lemma_opinion_shift_keeps_pair(
    m: Map<(NationId, NationId), DiplomaticRelation>,
    nations: Seq<NationAccount>,
    actor: NationId,
    target: NationId,
)
    ensures
        relation_or_default(opinion_shift(m, nations, actor, target), actor, target)
            == relation_or_default(m, actor, target),
    decreases nations.len(),
{
    if nations.len() > 0 {
        lemma_opinion_shift_keeps_pair(m, nations.drop_last(), actor, target);
        let n = nations.last().id;
        if n != actor && n != target {
            assert(pair_key(actor, n) != pair_key(actor, target));
        }
    }
}

proof fn lemma_without_grant_removes(grants: Seq<RecurringGrant>, from: NationId, to: NationId)
    ensures
        !has_grant(without_grant(grants, from, to), from, to),
{
    let pred = |g: RecurringGrant| !(g.from == from && g.to == to);
    let w = grants.filter(pred);
    if has_grant(w, from, to) {
        let i = choose|i: int| 0 <= i < w.len() && (#[trigger] w[i]).from == from && w[i].to == to;
        grants.filter_lemma(pred);
        assert(pred(w[i]));
    }
}

/// Accepting peace ends the war between the two nations and raises their
/// score by 15 (to no more than 100).
pub proof fn law_accepted_peace_ends_war(
    from: NationId,
    to: NationId,
    id: OfferId,
    m: Map<(NationId, NationId), DiplomaticRelation>,
    grants: Seq<RecurringGrant>,
    nations: Seq<NationAccount>,
)
    ensures
        ({
            let e = response_effect(
                DiplomaticOffer { id, from, to, kind: DiplomaticOfferKind::OfferPeace },
                true,
                m,
                grants,
                nations,
            );
            let r = relation_or_default(e.0, from, to);
            &&& !r.treaty.at_war
            &&& !r.treaty.non_aggression_pact
            &&& r.score == clamp_score(relation_or_default(m, from, to).score + 15)
            &&& e.3 == OfferResolution::PeaceMade
        }),
{
}

/// A consulate is opened only with a treasury holding its price and a score
/// of at least 0; opening it charges exactly its price to the actor and sets
/// the consulate flag.
pub proof fn law_consulate_needs_funds_and_goodwill(
    actor: NationId,
    target: NationId,
    m: Map<(NationId, NationId), DiplomaticRelation>,
    grants: Seq<RecurringGrant>,
    offers: (u32, Seq<DiplomaticOffer>),
    nations: Seq<NationAccount>,
)
    ensures
        ({
            let e = order_effect(
                DiplomaticOrder { actor, target, kind: DiplomaticOrderKind::EstablishConsulate },
                m,
                grants,
                offers,
                nations,
            );
            e.4 == DiplomacyOutcome::ConsulateEstablished ==> {
                let i = account_index(nations, actor).unwrap();
                &&& relation_or_default(m, actor, target).score >= 0
                &&& nations[i].treasury.unwrap().total >= CONSULATE_COST
                &&& e.3[i].treasury.unwrap().total == nations[i].treasury.unwrap().total - CONSULATE_COST
                &&& relation_or_default(e.0, actor, target).treaty.consulate
            }
        }),
{
}

/// An embassy is opened only where a consulate stands and the score is at
/// least 30; it costs exactly its price.
pub proof fn law_embassy_needs_consulate_and_goodwill(
    actor: NationId,
    target: NationId,
    m: Map<(NationId, NationId), DiplomaticRelation>,
    grants: Seq<RecurringGrant>,
    offers: (u32, Seq<DiplomaticOffer>),
    nations: Seq<NationAccount>,
)
    ensures
        ({
            let e = order_effect(
                DiplomaticOrder { actor, target, kind: DiplomaticOrderKind::OpenEmbassy },
                m,
                grants,
                offers,
                nations,
            );
            e.4 == DiplomacyOutcome::EmbassyOpened ==> {
                let i = account_index(nations, actor).unwrap();
                &&& relation_or_default(m, actor, target).treaty.consulate
                &&& relation_or_default(m, actor, target).score >= 30
                &&& e.3[i].treasury.unwrap().total == nations[i].treasury.unwrap().total - EMBASSY_COST
                &&& relation_or_default(e.0, actor, target).treaty.embassy
            }
        }),
{
}

/// Aid sent by order moves exactly the amount from the donor's treasury to
/// the recipient's, as long as the recipient's total stays within `i64`.
pub proof fn law_aid_moves_money(
    actor: NationId,
    target: NationId,
    amount: i32,
    locked: bool,
    m: Map<(NationId, NationId), DiplomaticRelation>,
    grants: Seq<RecurringGrant>,
    offers: (u32, Seq<DiplomaticOffer>),
    nations: Seq<NationAccount>,
)
    requires
        account_index(nations, target) matches Some(j) && nations[j].treasury matches Some(t)
            && t.total + amount <= i64::MAX,
    ensures
        ({
            let e = order_effect(
                DiplomaticOrder { actor, target, kind: DiplomaticOrderKind::SendAid { amount, locked } },
                m,
                grants,
                offers,
                nations,
            );
            e.4 == DiplomacyOutcome::AidSent ==> {
                let i = account_index(nations, actor).unwrap();
                let j = account_index(nations, target).unwrap();
                &&& e.3[i].treasury.unwrap().total == nations[i].treasury.unwrap().total - amount
                &&& e.3[j].treasury.unwrap().total == nations[j].treasury.unwrap().total + amount
                &&& locked ==> has_grant(e.1, actor, target)
            }
        }),
{
    let e = order_effect(
        DiplomaticOrder { actor, target, kind: DiplomaticOrderKind::SendAid { amount, locked } },
        m,
        grants,
        offers,
        nations,
    );
    if e.4 == DiplomacyOutcome::AidSent {
        let i = account_index(nations, actor).unwrap();
        let j = account_index(nations, target).unwrap();
        assert(is_first_account(nations, actor, i));
        assert(is_first_account(nations, target, j));
        assert(i != j);
        if locked {
            let w = without_grant(grants, actor, target).push(RecurringGrant { from: actor, to: target, amount });
            assert(w[w.len() - 1].from == actor);
        }
    }
}

/// After `upsert`, the ledger holds exactly one grant from the donor to the
/// recipient, the new one, and still no two grants for the same pair if it
/// had none before.
pub proof fn law_upsert_keeps_one_grant_per_pair(grants: Seq<RecurringGrant>, g: RecurringGrant)
    requires
        forall|i: int, j: int|
            0 <= i < j < grants.len() ==> !((#[trigger] grants[i]).from == (#[trigger] grants[j]).from
                && grants[i].to == grants[j].to),
    ensures
        ({
            let after = without_grant(grants, g.from, g.to).push(g);
            &&& has_grant(after, g.from, g.to)
            &&& forall|i: int, j: int|
                0 <= i < j < after.len() ==> !((#[trigger] after[i]).from == (#[trigger] after[j]).from
                    && after[i].to == after[j].to)
        }),
{
    let pred = |x: RecurringGrant| !(x.from == g.from && x.to == g.to);
    let w = grants.filter(pred);
    let after = w.push(g);
    assert(after[after.len() - 1] == g);
    grants.filter_lemma(pred);
    lemma_filter_keeps_distinct(grants, pred);
    assert forall|i: int, j: int| 0 <= i < j < after.len() implies !((#[trigger] after[i]).from
        == (#[trigger] after[j]).from && after[i].to == after[j].to) by {
        if j == after.len() - 1 {
            assert(pred(w[i]));
        } else {
            assert(after[i] == w[i] && after[j] == w[j]);
        }
    }
}

proof fn lemma_filter_keeps_distinct(grants: Seq<RecurringGrant>, pred: spec_fn(RecurringGrant) -> bool)
    requires
        forall|i: int, j: int|
            0 <= i < j < grants.len() ==> !((#[trigger] grants[i]).from == (#[trigger] grants[j]).from
                && grants[i].to == grants[j].to),
    ensures
        ({
            let w = grants.filter(pred);
            forall|i: int, j: int|
                0 <= i < j < w.len() ==> !((#[trigger] w[i]).from == (#[trigger] w[j]).from && w[i].to
                    == w[j].to)
        }),
    decreases grants.len(),
{
    if grants.len() > 0 {
        let init = grants.drop_last();
        assert forall|i: int, j: int|
            0 <= i < j < init.len() implies !((#[trigger] init[i]).from == (#[trigger] init[j]).from
                && init[i].to == init[j].to) by {
            assert(init[i] == grants[i] && init[j] == grants[j]);
        }
        lemma_filter_keeps_distinct(init, pred);
        assert(grants =~= init.push(grants.last()));
        init.lemma_filter_push(grants.last(), pred);
        let wi = init.filter(pred);
        let w = grants.filter(pred);
        if pred(grants.last()) {
            assert forall|i: int, j: int|
                0 <= i < j < w.len() implies !((#[trigger] w[i]).from == (#[trigger] w[j]).from
                    && w[i].to == w[j].to) by {
                if j == w.len() - 1 {
                    assert(wi.contains(wi[i]));
                    init.lemma_filter_contains_rev(pred, wi[i]);
                    assert(init.contains(wi[i]));
                    let k = choose|k: int| 0 <= k < init.len() && init[k] == wi[i];
                    if wi[i].from == grants.last().from && wi[i].to == grants.last().to {
                        assert(init[k] == grants[k]);
                        assert(grants[grants.len() - 1] == grants.last());
                    }
                    assert(w[i] == wi[i]);
                } else {
                    assert(w[i] == wi[i] && w[j] == wi[j]);
                }
            }
        }
    }
}


/// Peace is offered only between nations at war: an offer of peace between
/// two listed nations that are not at war is refused with `NotAtWar` and
/// queues nothing; between nations at war it queues exactly one peace offer
/// from the actor to the target. It never changes relations, grants or
/// accounts, and whenever the offers change the two were at war.
pub proof fn law_peace_is_offered_only_in_war(
    actor: NationId,
    target: NationId,
    m: Map<(NationId, NationId), DiplomaticRelation>,
    grants: Seq<RecurringGrant>,
    offers: (u32, Seq<DiplomaticOffer>),
    nations: Seq<NationAccount>,
)
    ensures
        ({
            let e = order_effect(
                DiplomaticOrder { actor, target, kind: DiplomaticOrderKind::OfferPeace },
                m,
                grants,
                offers,
                nations,
            );
            let at_war = relation_or_default(m, actor, target).treaty.at_war;
            let listed = actor != target && account_index(nations, actor) is Some
                && account_index(nations, target) is Some;
            &&& e.0 == m
            &&& e.1 == grants
            &&& e.3 == nations
            &&& e.2 != offers ==> at_war
            &&& !at_war ==> e.2 == offers
            &&& (listed && !at_war) ==> e.4 == DiplomacyOutcome::NotAtWar
            &&& (listed && at_war) ==> {
                &&& e.4 == DiplomacyOutcome::PeaceOffered
                &&& e.2.1.len() == offers.1.len() + 1
                &&& e.2.1.drop_last() == offers.1
                &&& e.2.1.last().from == actor
                &&& e.2.1.last().to == target
                &&& e.2.1.last().kind == DiplomaticOfferKind::OfferPeace
            }
        }),
{
    let e = order_effect(
        DiplomaticOrder { actor, target, kind: DiplomaticOrderKind::OfferPeace },
        m,
        grants,
        offers,
        nations,
    );
    if e.2 != offers {
        assert(e.2.1.len() == offers.1.len() + 1);
    }
    assert(offers.1.push(DiplomaticOffer {
        id: OfferId(next_offer_id(offers.0)),
        from: actor,
        to: target,
        kind: DiplomaticOfferKind::OfferPeace,
    }).drop_last() =~= offers.1);
}

/// Accepting an alliance makes the two nations allies bound by a pact,
/// leaves their war, consulate and embassy flags as they were, raises their
/// score by 12 (to no more than 100), and touches no grant or account.
pub proof fn law_accepted_alliance_allies(
    from: NationId,
    to: NationId,
    id: OfferId,
    m: Map<(NationId, NationId), DiplomaticRelation>,
    grants: Seq<RecurringGrant>,
    nations: Seq<NationAccount>,
)
    ensures
        ({
            let e = response_effect(
                DiplomaticOffer { id, from, to, kind: DiplomaticOfferKind::Alliance },
                true,
                m,
                grants,
                nations,
            );
            let before = relation_or_default(m, from, to);
            let r = relation_or_default(e.0, from, to);
            &&& e.3 == OfferResolution::AllianceFormed
            &&& r.treaty.alliance
            &&& r.treaty.non_aggression_pact
            &&& r.treaty.at_war == before.treaty.at_war
            &&& r.treaty.consulate == before.treaty.consulate
            &&& r.treaty.embassy == before.treaty.embassy
            &&& r.score == clamp_score(before.score + 12)
            &&& e.1 == grants
            &&& e.2 == nations
        }),
{
}

} // verus!
