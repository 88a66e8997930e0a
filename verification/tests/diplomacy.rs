use rust_imperialism::diplomacy::{
    apply_recurring_aid, process_diplomatic_order, process_diplomatic_orders, resolve_offer_response,
    DiplomacyOutcome, DiplomacyState, DiplomaticOffer, DiplomaticOfferKind, DiplomaticOffers,
    DiplomaticOrder, DiplomaticOrderKind, ForeignAidLedger, NationAccount, NationId, OfferResolution,
    RecurringAidOutcome, RelationshipBand, TreatyUpdate, CONSULATE_COST, EMBASSY_COST,
};
use rust_imperialism::economy::Treasury;

fn nation(id: u32, cash: i64) -> NationAccount {
    NationAccount { id: NationId(id), treasury: Some(Treasury::new(cash)) }
}

fn cash(nations: &[NationAccount], id: u32) -> i64 {
    nations.iter().find(|n| n.id == NationId(id)).unwrap().treasury.unwrap().total()
}

struct World {
    state: DiplomacyState,
    ledger: ForeignAidLedger,
    offers: DiplomaticOffers,
    nations: Vec<NationAccount>,
}

fn world(nations: Vec<NationAccount>) -> World {
    let mut state = DiplomacyState::new();
    let ids: Vec<NationId> = nations.iter().map(|n| n.id).collect();
    state.ensure_pairs(&ids);
    World { state, ledger: ForeignAidLedger::new(), offers: DiplomaticOffers::new(), nations }
}

fn order(w: &mut World, actor: u32, target: u32, kind: DiplomaticOrderKind) -> DiplomacyOutcome {
    let o = DiplomaticOrder { actor: NationId(actor), target: NationId(target), kind };
    process_diplomatic_order(&o, &mut w.state, &mut w.ledger, &mut w.offers, &mut w.nations)
}

fn update_with(f: impl Fn(&mut TreatyUpdate)) -> TreatyUpdate {
    let mut u = TreatyUpdate::none();
    f(&mut u);
    u
}

#[test]
fn consulate_requires_funds_and_relations() {
    let mut w = world(vec![nation(1, 400), nation(2, 0)]);
    order(&mut w, 1, 2, DiplomaticOrderKind::EstablishConsulate);
    assert_eq!(cash(&w.nations, 1), 400);
    assert!(!w.state.relation(NationId(1), NationId(2)).unwrap().treaty.consulate);

    w.nations[0].treasury.as_mut().unwrap().add(200);
    w.state.adjust_score(NationId(1), NationId(2), 5);
    order(&mut w, 1, 2, DiplomaticOrderKind::EstablishConsulate);
    assert_eq!(cash(&w.nations, 1), 100);
    assert!(w.state.relation(NationId(1), NationId(2)).unwrap().treaty.consulate);
}

#[test]
fn recurring_aid_transfers_each_turn() {
    let mut w = world(vec![nation(1, 5_000), nation(2, 0)]);
    order(&mut w, 1, 2, DiplomaticOrderKind::SendAid { amount: 1_000, locked: true });
    let outcomes = apply_recurring_aid(&w.ledger, &mut w.state, &mut w.nations);
    assert_eq!(outcomes, vec![RecurringAidOutcome::Delivered]);
    assert_eq!(cash(&w.nations, 1), 3_000);
    assert_eq!(cash(&w.nations, 2), 2_000);
    let before_score = w.state.relation(NationId(1), NationId(2)).unwrap().score;
    assert!(before_score >= 5);
    w.state.decay_relationships();
    let after_score = w.state.relation(NationId(1), NationId(2)).unwrap().score;
    assert!(after_score <= before_score);
}

#[test]
fn embassy_requires_consulate_and_relations() {
    let mut w = world(vec![nation(1, 10_000), nation(2, 0)]);
    order(&mut w, 1, 2, DiplomaticOrderKind::OpenEmbassy);
    assert!(!w.state.relation(NationId(1), NationId(2)).unwrap().treaty.embassy);

    w.state.set_treaty(NationId(1), NationId(2), update_with(|t| t.consulate = Some(true)));
    w.state.adjust_score(NationId(1), NationId(2), 35);
    order(&mut w, 1, 2, DiplomaticOrderKind::OpenEmbassy);
    assert!(w.state.relation(NationId(1), NationId(2)).unwrap().treaty.embassy);
}

#[test]
fn declare_war_shifts_world_opinion() {
    let (empire, rival, friend, foe) = (1, 2, 3, 4);
    let mut w = world(vec![nation(empire, 1_000), nation(rival, 1_000), nation(friend, 1_000), nation(foe, 1_000)]);
    w.state.adjust_score(NationId(friend), NationId(rival), 60);
    w.state.adjust_score(NationId(foe), NationId(rival), -70);
    order(&mut w, empire, rival, DiplomaticOrderKind::DeclareWar);

    let with_friend = w.state.relation(NationId(empire), NationId(friend)).unwrap().score;
    let with_foe = w.state.relation(NationId(empire), NationId(foe)).unwrap().score;
    let war = w.state.relation(NationId(empire), NationId(rival)).unwrap().treaty.at_war;
    assert!(war, "war flag should be set against rival");
    assert!(with_friend < 0, "friend of rival should dislike us");
    assert!(with_foe > 0, "enemy of rival should appreciate us");
    assert!(with_friend <= -6);
    assert!(with_foe >= 6);
}

#[test]
fn offer_peace_creates_pending_offer() {
    let mut w = world(vec![nation(1, 1_000), nation(2, 1_000)]);
    w.state.set_treaty(NationId(1), NationId(2), update_with(|t| t.at_war = Some(true)));
    order(&mut w, 1, 2, DiplomaticOrderKind::OfferPeace);
    assert!(w.state.relation(NationId(1), NationId(2)).unwrap().treaty.at_war);
    assert_eq!(w.offers.len(), 1);
}

#[test]
fn proposing_non_aggression_creates_offer() {
    let mut w = world(vec![nation(1, 2_000), nation(2, 1_000)]);
    w.state.set_treaty(NationId(1), NationId(2), update_with(|t| t.embassy = Some(true)));
    order(&mut w, 1, 2, DiplomaticOrderKind::SignNonAggressionPact);
    let pending = w.offers.iter_for(NationId(2));
    let offer = pending.first().expect("pact offer present");
    assert!(matches!(offer.kind, DiplomaticOfferKind::NonAggressionPact));
}

#[test]
fn accepting_peace_offer_sets_peace() {
    let mut w = world(vec![nation(1, 1_000), nation(2, 1_000)]);
    w.state.set_treaty(NationId(1), NationId(2), update_with(|t| t.at_war = Some(true)));
    let offer = DiplomaticOffer::new(NationId(2), NationId(1), DiplomaticOfferKind::OfferPeace);
    resolve_offer_response(offer, true, &mut w.state, &mut w.ledger, &mut w.nations);
    let relation = w.state.relation(NationId(1), NationId(2)).unwrap();
    assert!(!relation.treaty.at_war);
    assert!(relation.score >= 10);
}

#[test]
fn declare_war_triggers_alliance_calls() {
    let (attacker, victim, defender_ally, aggressor_ally) = (1, 2, 3, 4);
    let mut w = world(vec![
        nation(attacker, 1_000),
        nation(victim, 1_000),
        nation(defender_ally, 1_000),
        nation(aggressor_ally, 1_000),
    ]);
    let allied = update_with(|t| {
        t.alliance = Some(true);
        t.non_aggression_pact = Some(true);
        t.embassy = Some(true);
    });
    w.state.set_treaty(NationId(victim), NationId(defender_ally), allied);
    w.state.set_treaty(NationId(attacker), NationId(aggressor_ally), allied);
    order(&mut w, attacker, victim, DiplomaticOrderKind::DeclareWar);

    let defensive_calls = w.offers.iter_for(NationId(defender_ally));
    match defensive_calls.first().expect("defensive call present").kind {
        DiplomaticOfferKind::JoinWar { enemy, defensive } => {
            assert_eq!(enemy, NationId(attacker));
            assert!(defensive);
        }
        _ => panic!("expected defensive join war offer"),
    }
    let offensive_calls = w.offers.iter_for(NationId(aggressor_ally));
    match offensive_calls.first().expect("offensive call present").kind {
        DiplomaticOfferKind::JoinWar { enemy, defensive } => {
            assert_eq!(enemy, NationId(victim));
            assert!(!defensive);
        }
        _ => panic!("expected offensive join war offer"),
    }
}

#[test]
fn accepting_locked_aid_creates_grant() {
    let mut w = world(vec![nation(1, 5_000), nation(2, 500)]);
    w.state.set_treaty(NationId(1), NationId(2), update_with(|t| t.consulate = Some(true)));
    let offer = DiplomaticOffer::new(
        NationId(1),
        NationId(2),
        DiplomaticOfferKind::ForeignAid { amount: 1_500, locked: true },
    );
    resolve_offer_response(offer, true, &mut w.state, &mut w.ledger, &mut w.nations);
    assert_eq!(cash(&w.nations, 1), 3_500);
    assert_eq!(cash(&w.nations, 2), 2_000);
    assert!(w.ledger.has_recurring(NationId(1), NationId(2)));
}

#[test]
fn accepting_defensive_join_war_sets_war() {
    let (aggressor, ally, responder) = (1, 2, 3);
    let mut w = world(vec![nation(aggressor, 1_000), nation(ally, 1_000), nation(responder, 1_000)]);
    w.state.set_treaty(
        NationId(ally),
        NationId(responder),
        update_with(|t| {
            t.alliance = Some(true);
            t.non_aggression_pact = Some(true);
            t.embassy = Some(true);
        }),
    );
    let offer = DiplomaticOffer::new(
        NationId(ally),
        NationId(responder),
        DiplomaticOfferKind::JoinWar { enemy: NationId(aggressor), defensive: true },
    );
    resolve_offer_response(offer, true, &mut w.state, &mut w.ledger, &mut w.nations);
    let relation = w.state.relation(NationId(responder), NationId(aggressor)).expect("war relation");
    assert!(relation.treaty.at_war);
    assert!(relation.score <= -34);
}

#[test]
fn declining_defensive_join_war_penalizes() {
    let (aggressor, attacked_ally, refuser, observer) = (1, 2, 3, 4);
    let mut w = world(vec![
        nation(aggressor, 1_000),
        nation(attacked_ally, 1_000),
        nation(refuser, 1_000),
        nation(observer, 1_000),
    ]);
    w.state.set_treaty(
        NationId(attacked_ally),
        NationId(refuser),
        update_with(|t| {
            t.alliance = Some(true);
            t.non_aggression_pact = Some(true);
            t.embassy = Some(true);
        }),
    );
    w.state.adjust_score(NationId(refuser), NationId(observer), 20);
    let offer = DiplomaticOffer::new(
        NationId(attacked_ally),
        NationId(refuser),
        DiplomaticOfferKind::JoinWar { enemy: NationId(aggressor), defensive: true },
    );
    resolve_offer_response(offer, false, &mut w.state, &mut w.ledger, &mut w.nations);
    let alliance = w.state.relation(NationId(attacked_ally), NationId(refuser)).expect("alliance relation");
    assert!(!alliance.treaty.alliance);
    let observed = w.state.relation(NationId(refuser), NationId(observer)).expect("observer relation");
    assert!(observed.score <= 10);
}

#[test]
fn declining_offensive_join_war_preserves_alliance() {
    let (aggressor, target, ally) = (1, 2, 3);
    let mut w = world(vec![nation(aggressor, 1_000), nation(target, 1_000), nation(ally, 1_000)]);
    w.state.set_treaty(
        NationId(aggressor),
        NationId(ally),
        update_with(|t| {
            t.alliance = Some(true);
            t.non_aggression_pact = Some(true);
            t.embassy = Some(true);
        }),
    );
    let offer = DiplomaticOffer::new(
        NationId(aggressor),
        NationId(ally),
        DiplomaticOfferKind::JoinWar { enemy: NationId(target), defensive: false },
    );
    resolve_offer_response(offer, false, &mut w.state, &mut w.ledger, &mut w.nations);
    let relation = w.state.relation(NationId(aggressor), NationId(ally)).expect("alliance relation");
    assert!(relation.treaty.alliance);
}

// Further scenarios and edge cases.

#[test]
fn orders_against_self_or_unknown_nations_are_ignored() {
    let mut w = world(vec![nation(1, 1_000), nation(2, 1_000)]);
    assert_eq!(order(&mut w, 1, 1, DiplomaticOrderKind::DeclareWar), DiplomacyOutcome::Ignored);
    assert_eq!(order(&mut w, 1, 9, DiplomaticOrderKind::DeclareWar), DiplomacyOutcome::Ignored);
    assert!(!w.state.relation(NationId(1), NationId(2)).unwrap().treaty.at_war);
}

#[test]
fn declaring_war_twice_reports_already_at_war() {
    let mut w = world(vec![nation(1, 1_000), nation(2, 1_000)]);
    assert_eq!(order(&mut w, 1, 2, DiplomaticOrderKind::DeclareWar), DiplomacyOutcome::WarDeclared);
    let score = w.state.relation(NationId(1), NationId(2)).unwrap().score;
    assert_eq!(score, -40);
    assert_eq!(order(&mut w, 1, 2, DiplomaticOrderKind::DeclareWar), DiplomacyOutcome::AlreadyAtWar);
    assert_eq!(w.state.relation(NationId(1), NationId(2)).unwrap().score, -40);
}

#[test]
fn war_cancels_locked_aid() {
    let mut w = world(vec![nation(1, 5_000), nation(2, 0)]);
    order(&mut w, 1, 2, DiplomaticOrderKind::SendAid { amount: 400, locked: true });
    assert!(w.ledger.has_recurring(NationId(1), NationId(2)));
    order(&mut w, 1, 2, DiplomaticOrderKind::DeclareWar);
    assert!(!w.ledger.has_recurring(NationId(1), NationId(2)));
}

#[test]
fn consulate_refused_when_relations_poor() {
    let mut w = world(vec![nation(1, 1_000), nation(2, 0)]);
    w.state.adjust_score(NationId(1), NationId(2), -1);
    assert_eq!(order(&mut w, 1, 2, DiplomaticOrderKind::EstablishConsulate), DiplomacyOutcome::RelationsTooPoor);
    assert_eq!(
        order(&mut w, 1, 2, DiplomaticOrderKind::OpenEmbassy),
        DiplomacyOutcome::ConsulateRequired
    );
}

#[test]
fn embassy_outcomes() {
    let mut w = world(vec![nation(1, EMBASSY_COST - 1), nation(2, 0)]);
    w.state.set_treaty(NationId(1), NationId(2), update_with(|t| t.consulate = Some(true)));
    assert_eq!(
        order(&mut w, 1, 2, DiplomaticOrderKind::OpenEmbassy),
        DiplomacyOutcome::RelationsBelow { required: 30 }
    );
    w.state.adjust_score(NationId(1), NationId(2), 30);
    assert_eq!(
        order(&mut w, 1, 2, DiplomaticOrderKind::OpenEmbassy),
        DiplomacyOutcome::InsufficientFunds { needed: EMBASSY_COST }
    );
    w.nations[0].treasury.as_mut().unwrap().add(1);
    assert_eq!(order(&mut w, 1, 2, DiplomaticOrderKind::OpenEmbassy), DiplomacyOutcome::EmbassyOpened);
    assert_eq!(cash(&w.nations, 1), 0);
    assert_eq!(w.state.relation(NationId(1), NationId(2)).unwrap().score, 40);
    assert_eq!(order(&mut w, 1, 2, DiplomaticOrderKind::OpenEmbassy), DiplomacyOutcome::EmbassyExists);
}

#[test]
fn alliance_and_pact_requirements() {
    let mut w = world(vec![nation(1, 1_000), nation(2, 1_000)]);
    assert_eq!(order(&mut w, 1, 2, DiplomaticOrderKind::FormAlliance), DiplomacyOutcome::EmbassyRequired);
    w.state.set_treaty(NationId(1), NationId(2), update_with(|t| t.embassy = Some(true)));
    assert_eq!(
        order(&mut w, 1, 2, DiplomaticOrderKind::FormAlliance),
        DiplomacyOutcome::RelationsBelow { required: 40 }
    );
    w.state.adjust_score(NationId(1), NationId(2), 40);
    assert_eq!(order(&mut w, 1, 2, DiplomaticOrderKind::FormAlliance), DiplomacyOutcome::AllianceProposed);
    assert_eq!(order(&mut w, 1, 2, DiplomaticOrderKind::SignNonAggressionPact), DiplomacyOutcome::PactProposed);
    assert_eq!(w.offers.len(), 2);
}

#[test]
fn aid_outcomes_and_cancellation() {
    let mut w = world(vec![nation(1, 300), nation(2, 0)]);
    assert_eq!(
        order(&mut w, 1, 2, DiplomaticOrderKind::SendAid { amount: 0, locked: false }),
        DiplomacyOutcome::Ignored
    );
    assert_eq!(
        order(&mut w, 1, 2, DiplomaticOrderKind::SendAid { amount: 500, locked: false }),
        DiplomacyOutcome::InsufficientFunds { needed: 500 }
    );
    assert_eq!(
        order(&mut w, 1, 2, DiplomaticOrderKind::SendAid { amount: 300, locked: true }),
        DiplomacyOutcome::AidSent
    );
    assert_eq!(cash(&w.nations, 2), 300);
    assert_eq!(w.state.relation(NationId(1), NationId(2)).unwrap().score, 1);
    assert_eq!(order(&mut w, 1, 2, DiplomaticOrderKind::CancelAid), DiplomacyOutcome::AidCancelled);
    assert_eq!(w.state.relation(NationId(1), NationId(2)).unwrap().score, -4);
    assert_eq!(order(&mut w, 1, 2, DiplomaticOrderKind::CancelAid), DiplomacyOutcome::Ignored);
}

#[test]
fn batch_of_orders_runs_in_sequence() {
    let mut w = world(vec![nation(1, 1_000), nation(2, 0)]);
    let orders = vec![
        DiplomaticOrder { actor: NationId(1), target: NationId(2), kind: DiplomaticOrderKind::EstablishConsulate },
        DiplomaticOrder { actor: NationId(1), target: NationId(2), kind: DiplomaticOrderKind::EstablishConsulate },
    ];
    let outcomes = process_diplomatic_orders(&orders, &mut w.state, &mut w.ledger, &mut w.offers, &mut w.nations);
    assert_eq!(outcomes, vec![DiplomacyOutcome::ConsulateEstablished, DiplomacyOutcome::ConsulateExists]);
    assert_eq!(cash(&w.nations, 1), 1_000 - CONSULATE_COST);
}

#[test]
fn unaffordable_aid_offer_changes_nothing() {
    let mut w = world(vec![nation(1, 100), nation(2, 0)]);
    let offer = DiplomaticOffer::new(
        NationId(1),
        NationId(2),
        DiplomaticOfferKind::ForeignAid { amount: 500, locked: true },
    );
    let r = resolve_offer_response(offer, true, &mut w.state, &mut w.ledger, &mut w.nations);
    assert_eq!(r, OfferResolution::AidUnaffordable);
    assert_eq!(cash(&w.nations, 1), 100);
    assert!(!w.ledger.has_recurring(NationId(1), NationId(2)));
}

#[test]
fn declined_offers_cost_goodwill() {
    let mut w = world(vec![nation(1, 100), nation(2, 0)]);
    let cases = [
        (DiplomaticOfferKind::OfferPeace, -10, OfferResolution::PeaceRefused),
        (DiplomaticOfferKind::Alliance, -22, OfferResolution::AllianceDeclined),
        (DiplomaticOfferKind::NonAggressionPact, -28, OfferResolution::PactRejected),
        (DiplomaticOfferKind::ForeignAid { amount: 10, locked: false }, -31, OfferResolution::AidDeclined),
    ];
    for (kind, score, expected) in cases {
        let offer = DiplomaticOffer::new(NationId(1), NationId(2), kind);
        let r = resolve_offer_response(offer, false, &mut w.state, &mut w.ledger, &mut w.nations);
        assert_eq!(r, expected);
        assert_eq!(w.state.relation(NationId(1), NationId(2)).unwrap().score, score);
    }
}

#[test]
fn recurring_aid_skips_missing_and_short_donors() {
    let mut w = world(vec![nation(1, 5_000), nation(2, 0), nation(3, 0)]);
    order(&mut w, 1, 2, DiplomaticOrderKind::SendAid { amount: 4_000, locked: true });
    order(&mut w, 2, 3, DiplomaticOrderKind::SendAid { amount: 4_000, locked: true });
    w.nations.pop();
    let outcomes = apply_recurring_aid(&w.ledger, &mut w.state, &mut w.nations);
    assert_eq!(outcomes, vec![RecurringAidOutcome::Unaffordable, RecurringAidOutcome::MissingNation]);
}

#[test]
fn offers_get_increasing_ids_and_can_be_taken() {
    let mut offers = DiplomaticOffers::new();
    offers.push(DiplomaticOffer::new(NationId(1), NationId(2), DiplomaticOfferKind::OfferPeace));
    offers.push(DiplomaticOffer::new(NationId(3), NationId(2), DiplomaticOfferKind::Alliance));
    let pending = offers.iter_for(NationId(2));
    assert_eq!(pending.len(), 2);
    assert!(pending[0].id.raw() < pending[1].id.raw());
    let taken = offers.take(pending[0].id).unwrap();
    assert_eq!(taken.from, NationId(1));
    assert!(offers.take(pending[0].id).is_none());
    assert_eq!(offers.len(), 1);
    assert!(offers.has_pending_for(NationId(2)));
    assert!(!offers.has_pending_for(NationId(1)));
}

#[test]
fn decay_moves_scores_toward_zero_except_at_war() {
    let mut w = world(vec![nation(1, 0), nation(2, 0), nation(3, 0)]);
    w.state.adjust_score(NationId(1), NationId(2), 5);
    w.state.adjust_score(NationId(1), NationId(3), -5);
    w.state.set_treaty(NationId(2), NationId(3), update_with(|t| t.at_war = Some(true)));
    w.state.adjust_score(NationId(2), NationId(3), -50);
    w.state.decay_relationships();
    assert_eq!(w.state.relation(NationId(1), NationId(2)).unwrap().score, 4);
    assert_eq!(w.state.relation(NationId(1), NationId(3)).unwrap().score, -4);
    assert_eq!(w.state.relation(NationId(2), NationId(3)).unwrap().score, -50);
}

#[test]
fn scores_are_clamped_and_banded() {
    let mut state = DiplomacyState::new();
    assert_eq!(state.adjust_score(NationId(1), NationId(2), 500), 100);
    assert_eq!(state.relation(NationId(2), NationId(1)).unwrap().band(), RelationshipBand::Allied);
    assert_eq!(state.adjust_score(NationId(1), NationId(2), -500), -100);
    assert_eq!(state.relation(NationId(1), NationId(2)).unwrap().band(), RelationshipBand::Hostile);
}
