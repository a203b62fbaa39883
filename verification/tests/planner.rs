use akagi::events::MjaiEvent;
use akagi::planner::{
    decision_kind, delay_input, is_our_decision, pre_delay, ActionContext, DecisionKind,
    DelayInput, DelayTargets, PlanResult, PlayerState, RiichiCityAutoplay, Step,
};
use akagi::requests::encode_action_with;

fn ctx(action: &MjaiEvent) -> ActionContext<'_> {
    ActionContext {
        action,
        players: &[],
        our_seat: 0,
        last_kawa_tile: None,
        self_riichi_accepted: false,
        legal_action_count: 0,
        legacy_delay: false,
    }
}

/// A model that never waits, over the floor that always applies.
const FASTEST: DelayTargets = DelayTargets { scripted: None, modelled: 0, floor: 150 };

#[test]
fn discard_plan_is_delay_then_frame() {
    let ev = MjaiEvent::Dahai { actor: 0, pai: "5mr".into(), tsumogiri: false };
    let plan = RiichiCityAutoplay::new().plan(&ctx(&ev), &FASTEST);
    assert_eq!(plan.steps.len(), 2);
    assert!(matches!(plan.steps[0], Step::Sleep { .. }));
    let Step::SendFrame(packet) = &plan.steps[1] else {
        panic!("expected a frame step");
    };
    assert_eq!(packet.body.get("cmd").unwrap().as_str(), Some("req_game_action"));
}

#[test]
fn other_seats_actions_produce_no_plan() {
    let ev = MjaiEvent::Dahai { actor: 2, pai: "1p".into(), tsumogiri: true };
    assert!(RiichiCityAutoplay::new().plan(&ctx(&ev), &FASTEST).steps.is_empty());
}

#[test]
fn delay_is_never_zero_ms() {
    // The functional floor applies even with the fastest config.
    let ev = MjaiEvent::Dahai { actor: 0, pai: "1p".into(), tsumogiri: true };
    let plan = RiichiCityAutoplay::new().plan(&ctx(&ev), &FASTEST);
    let Step::Sleep { duration_ms } = plan.steps[0] else {
        panic!("expected sleep");
    };
    assert!(duration_ms > 0);
}

/// A kyuushu declaration is ours to send (no actor field — it can only come
/// from the bot's own decision) and plans like any button decision: think,
/// then frame.
#[test]
fn kyuushu_declaration_plans_a_frame() {
    let ev = MjaiEvent::Ryukyoku { deltas: None };
    let plan = RiichiCityAutoplay::new().plan(&ctx(&ev), &FASTEST);
    assert_eq!(plan.steps.len(), 2, "sleep then frame");
    let Step::SendFrame(packet) = &plan.steps[1] else {
        panic!("expected a frame step");
    };
    assert_eq!(packet.body.get("data").unwrap().get("action").unwrap().as_i64(), Some(12));
}

/// An observed exhaustive draw (deltas present) is not a decision — it must
/// not plan, let alone send.
#[test]
fn observed_draw_does_not_plan() {
    let ev = MjaiEvent::Ryukyoku { deltas: Some(vec![1500, -500, -500, -500]) };
    assert!(RiichiCityAutoplay::new().plan(&ctx(&ev), &FASTEST).steps.is_empty());
}

fn seat(tehai: &[&str], drawn: Option<&str>, river: &[&str]) -> PlayerState {
    PlayerState {
        tehai: tehai.iter().map(|s| s.to_string()).collect(),
        drawn_tile: drawn.map(|s| s.to_string()),
        river: river.iter().map(|s| s.to_string()).collect(),
    }
}

#[test]
fn the_plan_uses_our_own_hand_and_draw() {
    let players = [seat(&["E", "E"], None, &[]), seat(&["1m", "2m", "3m"], Some("2m"), &["9p"])];
    let ev = MjaiEvent::Dahai { actor: 1, pai: "3m".into(), tsumogiri: false };
    let context = ActionContext { players: &players, our_seat: 1, ..ctx(&ev) };
    let plan = RiichiCityAutoplay::default().plan(&context, &FASTEST);
    let want = encode_action_with(&ev, Some("2m"), None, Some(&players[1].tehai)).unwrap();
    assert_eq!(
        plan,
        PlanResult { steps: vec![Step::Sleep { duration_ms: 150 }, Step::SendFrame(want)] }
    );
}

#[test]
fn a_ron_is_planned_with_the_last_discard() {
    let ev = MjaiEvent::Hora { actor: 0, target: 3, deltas: None, ura_markers: None };
    let context = ActionContext { last_kawa_tile: Some("7s"), ..ctx(&ev) };
    let plan = RiichiCityAutoplay::new().plan(&context, &FASTEST);
    let Step::SendFrame(packet) = &plan.steps[1] else {
        panic!("expected a frame step");
    };
    assert_eq!(packet.body.get("data").unwrap().get("card").unwrap().as_i64(), Some(0x17));
}

#[test]
fn what_cannot_be_sent_is_not_planned() {
    let hidden = MjaiEvent::Dahai { actor: 0, pai: "?".into(), tsumogiri: true };
    assert_eq!(RiichiCityAutoplay::new().plan(&ctx(&hidden), &FASTEST), PlanResult::default());
    assert_eq!(RiichiCityAutoplay::new().packet(&ctx(&hidden)), None);
    assert_eq!(RiichiCityAutoplay::new().packet(&ctx(&MjaiEvent::Other)), None);
    let end = MjaiEvent::EndKyoku;
    assert_eq!(RiichiCityAutoplay::new().plan(&ctx(&end), &FASTEST), PlanResult::default());
}

#[test]
fn the_wait_follows_the_script_outside_the_legacy_mode() {
    let delay = DelayTargets { scripted: Some(900), modelled: 500, floor: 200 };
    assert_eq!(pre_delay(false, &delay), 900);
    assert_eq!(pre_delay(true, &delay), 500);
    assert_eq!(pre_delay(false, &DelayTargets { scripted: None, ..delay }), 500);
    assert_eq!(pre_delay(false, &DelayTargets { scripted: Some(3), ..delay }), 200);
}

#[test]
fn the_delay_model_is_told_of_the_decision() {
    let players = [seat(&["E"], None, &[])];
    let ev = MjaiEvent::Dahai { actor: 0, pai: "E".into(), tsumogiri: true };
    let context =
        ActionContext { players: &players, legal_action_count: 7, self_riichi_accepted: true, ..ctx(&ev) };
    assert_eq!(
        delay_input(&context),
        DelayInput {
            kind: DecisionKind::Dahai,
            is_tsumogiri: true,
            is_post_call: false,
            first_action_of_kyoku: true,
            opening_animation: false,
            can_riichi: false,
            in_riichi: true,
            opponent_riichi: false,
            junme: 0,
            legal_action_count: 7,
            click_overhead_ms: 0,
        }
    );
    // Without a tracked table no discard is known to be the first.
    assert!(!delay_input(&ctx(&ev)).first_action_of_kyoku);
    let reach = MjaiEvent::Reach { actor: 0, pai: Some("E".into()) };
    let input = delay_input(&ActionContext { players: &players, ..ctx(&reach) });
    assert!(input.can_riichi && !input.first_action_of_kyoku && !input.is_tsumogiri);
}

#[test]
fn decisions_have_their_kind_and_their_seat() {
    let t = || "E".to_string();
    let cases = [
        (MjaiEvent::Dahai { actor: 1, pai: t(), tsumogiri: false }, DecisionKind::Dahai),
        (MjaiEvent::Reach { actor: 1, pai: None }, DecisionKind::Reach),
        (
            MjaiEvent::Chi { actor: 1, target: 0, pai: t(), consumed: [t(), t()] },
            DecisionKind::Chi,
        ),
        (
            MjaiEvent::Pon { actor: 1, target: 0, pai: t(), consumed: [t(), t()] },
            DecisionKind::Pon,
        ),
        (
            MjaiEvent::Daiminkan { actor: 1, target: 0, pai: t(), consumed: [t(), t(), t()] },
            DecisionKind::Daiminkan,
        ),
        (MjaiEvent::Ankan { actor: 1, consumed: [t(), t(), t(), t()] }, DecisionKind::Ankan),
        (
            MjaiEvent::Kakan { actor: 1, pai: t(), consumed: [t(), t(), t()] },
            DecisionKind::Kakan,
        ),
        (
            MjaiEvent::Hora { actor: 1, target: 1, deltas: None, ura_markers: None },
            DecisionKind::Hora,
        ),
        (MjaiEvent::Kita { actor: 1, pai: None }, DecisionKind::Kita),
    ];
    for (ev, kind) in &cases {
        assert_eq!(decision_kind(ev), *kind);
        assert!(is_our_decision(ev, 1));
        assert!(!is_our_decision(ev, 2));
    }
    assert_eq!(decision_kind(&MjaiEvent::Ryukyoku { deltas: None }), DecisionKind::Ryukyoku);
    assert_eq!(decision_kind(&MjaiEvent::Pass), DecisionKind::Pass);
    assert!(is_our_decision(&MjaiEvent::Pass, 3));
    assert!(is_our_decision(&MjaiEvent::Ryukyoku { deltas: None }, 3));
    assert!(!is_our_decision(&MjaiEvent::Tsumo { actor: 1, pai: t() }, 1));
}
