use akagi::events::MjaiEvent;
use akagi::requests::user_prepare;
use akagi::round_advance::{
    bus_event, ok_button_beat_ms, step, AdvanceAction, AdvanceEvent, AdvanceState, InjectFrame,
};

/// The beat is a 1500ms base plus half a second per yaku line past two,
/// capped at 4s.
#[test]
fn ok_button_beat_scales_with_yaku_count() {
    assert_eq!(ok_button_beat_ms(0), 1_500, "a draw reads the fastest");
    assert_eq!(ok_button_beat_ms(2), 1_500, "two lines are still base");
    assert_eq!(ok_button_beat_ms(3), 2_000);
    assert_eq!(ok_button_beat_ms(9), 4_000, "capped at 4s");
    assert_eq!(ok_button_beat_ms(20), 4_000);
    assert_eq!(ok_button_beat_ms(u32::MAX), 4_000);
}

const ENDED: AdvanceEvent =
    AdvanceEvent::RoundEnd { autoplay_enabled: true, on_riichi_city: true, yakus: 3 };

/// The state and the actions after a history of events.
fn run(events: &[AdvanceEvent]) -> (AdvanceState, Vec<AdvanceAction>) {
    let mut state = AdvanceState::Waiting;
    let mut actions = Vec::new();
    for event in events {
        let (next, action) = step(state, *event);
        state = next;
        actions.push(action);
    }
    (state, actions)
}

#[test]
fn a_sighted_button_is_pressed_once_after_the_beat() {
    let (state, actions) = run(&[
        ENDED,
        AdvanceEvent::Tick { elapsed_ms: 0 },
        AdvanceEvent::Looked { sighted: false },
        AdvanceEvent::Tick { elapsed_ms: 1_000 },
        AdvanceEvent::Looked { sighted: true },
        AdvanceEvent::Held,
        AdvanceEvent::Message,
    ]);
    assert_eq!(state, AdvanceState::Waiting);
    assert_eq!(
        actions,
        vec![
            AdvanceAction::Poll,
            AdvanceAction::Look,
            AdvanceAction::Poll,
            AdvanceAction::Look,
            AdvanceAction::Hold { duration_ms: 2_000 },
            AdvanceAction::Press(InjectFrame { gameplay: true, packet: user_prepare() }),
            AdvanceAction::Listen,
        ]
    );
}

#[test]
fn a_message_while_sighting_voids_the_cycle() {
    // The end of another round voids it too, and begins none.
    for event in [AdvanceEvent::Message, ENDED] {
        let (state, actions) = run(&[ENDED, event, AdvanceEvent::Tick { elapsed_ms: 2_000 }]);
        assert_eq!(state, AdvanceState::Waiting);
        assert_eq!(
            actions,
            vec![AdvanceAction::Poll, AdvanceAction::Listen, AdvanceAction::Ignore]
        );
    }
}

#[test]
fn the_sighting_is_given_up_after_the_timeout() {
    let (state, actions) = run(&[
        ENDED,
        AdvanceEvent::Tick { elapsed_ms: 89_999 },
        AdvanceEvent::Looked { sighted: false },
        AdvanceEvent::Tick { elapsed_ms: 90_000 },
    ]);
    assert_eq!(state, AdvanceState::Waiting);
    assert_eq!(actions[3], AdvanceAction::GiveUp);
}

#[test]
fn rounds_are_left_alone_where_autoplay_is_off() {
    for (autoplay_enabled, on_riichi_city) in [(false, true), (true, false), (false, false)] {
        let event = AdvanceEvent::RoundEnd { autoplay_enabled, on_riichi_city, yakus: 1 };
        assert_eq!(step(AdvanceState::Waiting, event), (AdvanceState::Waiting, AdvanceAction::Listen));
    }
}

#[test]
fn missed_messages_are_skipped_and_a_closed_stream_stops() {
    let sighting = AdvanceState::Sighting { yakus: 1 };
    assert_eq!(
        step(AdvanceState::Waiting, AdvanceEvent::Lagged),
        (AdvanceState::Waiting, AdvanceAction::Listen)
    );
    assert_eq!(step(sighting, AdvanceEvent::Lagged), (sighting, AdvanceAction::Poll));
    assert_eq!(
        step(AdvanceState::Waiting, AdvanceEvent::Closed),
        (AdvanceState::Stopped, AdvanceAction::Stop)
    );
    assert_eq!(
        step(sighting, AdvanceEvent::Closed),
        (AdvanceState::Stopped, AdvanceAction::Stop)
    );
    assert_eq!(step(AdvanceState::Stopped, ENDED), (AdvanceState::Stopped, AdvanceAction::Ignore));
}

#[test]
fn only_the_end_of_a_round_counts() {
    assert_eq!(bus_event(&MjaiEvent::EndKyoku, true, true, 3), ENDED);
    assert_eq!(bus_event(&MjaiEvent::Pass, true, true, 3), AdvanceEvent::Message);
    assert_eq!(bus_event(&MjaiEvent::Other, true, true, 3), AdvanceEvent::Message);
    let end = MjaiEvent::EndGame {
        reason: String::new(),
        final_scores: None,
        final_ranks: None,
    };
    assert_eq!(bus_event(&end, true, true, 3), AdvanceEvent::Message);
}
