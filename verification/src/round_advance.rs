//! Round advance: after each hand's settlement the client waits on a "ready"
//! press before the next round is dealt.
//!
//! The press goes out only after the client has actually rendered the
//! settlement OK button, looked for on the screen once a second, and a short
//! reading beat later. There is no timed fallback: if the button is never
//! sighted, the server's own countdown advances the table.
//!
//! This module decides; the caller listens, looks, sleeps and sends. It starts
//! in [`AdvanceState::Waiting`] with [`AdvanceAction::Listen`], performs each
//! action that [`step`] gives, and hands back the event that comes of it.
use crate::events::{EventModel, MjaiEvent};
use crate::requests;
use crate::requests::{PacketModel, WPacket};
use vstd::prelude::*;

verus! {

/// How often the caller looks for the button.
pub const POLL_INTERVAL_MS: u64 = 1000;

/// Give up on sighting after this long: the client's own countdown is 59 s, so
/// anything past this means that the window is gone or the detector is broken,
/// and we must not fire blind.
pub const SIGHTING_TIMEOUT_MS: u64 = 90_000;

/// The shortest and the longest reading beat, and what a yaku line adds.
pub const BEAT_BASE_MS: u64 = 1500;

pub const BEAT_CAP_MS: u64 = 4000;

pub const BEAT_PER_YAKU_MS: u64 = 500;

/// Where the watcher is in its cycle.
#[derive(Debug, Clone, Copy, PartialEq, Eq, Structural)]
pub enum AdvanceState {
    /// Listening for the end of a round.
    Waiting,
    /// A round ended; between two looks at the screen.
    Sighting { yakus: u32 },
    /// A look at the screen is under way.
    Looking { yakus: u32 },
    /// The button was sighted; the reading beat runs.
    Holding,
    /// The event stream is closed.
    Stopped,
}

/// What happened.
#[derive(Debug, Clone, Copy, PartialEq, Eq, Structural)]
pub enum AdvanceEvent {
    /// A round ended. The hand that won it had this many yaku lines, none for
    /// a draw.
    RoundEnd { autoplay_enabled: bool, on_riichi_city: bool, yakus: u32 },
    /// Any other message of the event stream.
    Message,
    /// Messages of the event stream were missed.
    Lagged,
    /// The event stream is closed.
    Closed,
    /// The poll timer fired, this long after the round ended.
    Tick { elapsed_ms: u64 },
    /// The look at the screen is done.
    Looked { sighted: bool },
    /// The reading beat is over.
    Held,
}

/// A packet for the relay that injects into the client's connection, and
/// whether it belongs to the game being played.
#[derive(Debug, PartialEq)]
pub struct InjectFrame {
    pub gameplay: bool,
    pub packet: WPacket,
}

pub struct InjectModel {
    pub gameplay: bool,
    pub packet: PacketModel,
}

impl View for InjectFrame {
    type V = InjectModel;

    open spec fn view(&self) -> InjectModel {
        InjectModel { gameplay: self.gameplay, packet: self.packet@ }
    }
}

/// The press: the ready request, as a frame of the game.
pub open spec fn press_frame() -> InjectModel {
    InjectModel { gameplay: true, packet: requests::ready_packet() }
}

/// What the caller does next.
#[derive(Debug, PartialEq)]
pub enum AdvanceAction {
    /// Wait for a message of the event stream.
    Listen,
    /// Wait for a message or for the poll timer, whichever comes first.
    Poll,
    /// Look for the button on the screen.
    Look,
    /// The button was never sighted: report it, then listen.
    GiveUp,
    /// Sleep for the reading beat.
    Hold { duration_ms: u64 },
    /// Send the press once, whether or not a relay takes it, then listen.
    Press(InjectFrame),
    /// Return.
    Stop,
    /// The event does not belong to the state: keep doing what was asked for.
    Ignore,
}

/// What the caller does next, where a press is always the same frame.
pub enum ActionModel {
    Listen,
    Poll,
    Look,
    GiveUp,
    Hold { duration_ms: int },
    Press,
    Stop,
    Ignore,
}

/// An action says what a model says; a press carries its frame.
pub open spec fn is_action(action: AdvanceAction, model: ActionModel) -> bool {
    match action {
        AdvanceAction::Listen => model is Listen,
        AdvanceAction::Poll => model is Poll,
        AdvanceAction::Look => model is Look,
        AdvanceAction::GiveUp => model is GiveUp,
        AdvanceAction::Hold { duration_ms } => model == (ActionModel::Hold {
            duration_ms: duration_ms as int,
        }),
        AdvanceAction::Press(frame) => model is Press && frame@ == press_frame(),
        AdvanceAction::Stop => model is Stop,
        AdvanceAction::Ignore => model is Ignore,
    }
}

/// The reading beat in milliseconds: half a second per yaku line past two on
/// top of the base, up to the cap.
pub open spec fn beat_of(yakus: int) -> int {
    let beat = BEAT_BASE_MS + BEAT_PER_YAKU_MS * (if yakus > 2 {
        yakus - 2
    } else {
        0
    });
    if beat < BEAT_CAP_MS {
        beat
    } else {
        BEAT_CAP_MS as int
    }
}

/// A round ended in a game that autoplay is to advance.
pub open spec fn opens_cycle(event: AdvanceEvent) -> bool {
    event matches AdvanceEvent::RoundEnd { autoplay_enabled, on_riichi_city, yakus: _ }
        && autoplay_enabled && on_riichi_city
}

/// A message of the event stream, the end of a round too.
pub open spec fn is_message(event: AdvanceEvent) -> bool {
    event is RoundEnd || event is Message
}

/// The event can come of what the caller does in a state.
pub open spec fn belongs(state: AdvanceState, event: AdvanceEvent) -> bool {
    match state {
        AdvanceState::Waiting => is_message(event) || event is Lagged || event is Closed,
        AdvanceState::Sighting { .. } => is_message(event) || event is Lagged || event is Closed
            || event is Tick,
        AdvanceState::Looking { .. } => event is Looked,
        AdvanceState::Holding => event is Held,
        AdvanceState::Stopped => false,
    }
}

/// A tick that comes too late to go on looking.
pub open spec fn is_overdue(event: AdvanceEvent) -> bool {
    event matches AdvanceEvent::Tick { elapsed_ms } && elapsed_ms >= SIGHTING_TIMEOUT_MS
}

/// A round end begins a cycle; a message while sighting voids it, as the round
/// moved on without us; a late tick gives it up.
pub open spec fn next_state(state: AdvanceState, event: AdvanceEvent) -> AdvanceState {
    if !belongs(state, event) || event is Lagged {
        state
    } else if event is Closed {
        AdvanceState::Stopped
    } else {
        match state {
            AdvanceState::Waiting => if opens_cycle(event) {
                AdvanceState::Sighting { yakus: event->yakus }
            } else {
                state
            },
            AdvanceState::Sighting { yakus } => if is_message(event) || is_overdue(event) {
                AdvanceState::Waiting
            } else {
                AdvanceState::Looking { yakus }
            },
            AdvanceState::Looking { yakus } => if event->sighted {
                AdvanceState::Holding
            } else {
                AdvanceState::Sighting { yakus }
            },
            AdvanceState::Holding => AdvanceState::Waiting,
            AdvanceState::Stopped => state,
        }
    }
}

/// The press follows the beat and the beat follows a sighting; otherwise the
/// action is what the new state waits for.
pub open spec fn next_action(state: AdvanceState, event: AdvanceEvent) -> ActionModel {
    if !belongs(state, event) {
        ActionModel::Ignore
    } else if state is Holding {
        ActionModel::Press
    } else if is_overdue(event) {
        ActionModel::GiveUp
    } else {
        match next_state(state, event) {
            AdvanceState::Waiting => ActionModel::Listen,
            AdvanceState::Sighting { .. } => ActionModel::Poll,
            AdvanceState::Looking { .. } => ActionModel::Look,
            AdvanceState::Holding => ActionModel::Hold {
                duration_ms: beat_of(state->Looking_yakus as int),
            },
            AdvanceState::Stopped => ActionModel::Stop,
        }
    }
}

/// What the watcher makes of a message of the event stream, given the
/// configuration and the last settlement: only the end of a round counts.
pub open spec fn event_of(
    ev: EventModel,
    autoplay_enabled: bool,
    on_riichi_city: bool,
    yakus: u32,
) -> AdvanceEvent {
    if ev is EndKyoku {
        AdvanceEvent::RoundEnd { autoplay_enabled, on_riichi_city, yakus }
    } else {
        AdvanceEvent::Message
    }
}

/// Reading beat between sighting the OK button and pressing it: the button only
/// renders once the breakdown is up, so this is pure viewing time, scaled by
/// the number of yaku lines in the winning hand. Draws count as zero yakus.
pub fn ok_button_beat_ms(yakus: u32) -> (beat: u64)
    ensures
        beat == beat_of(yakus as int),
{
    let lines: u64 = if yakus > 2 {
        yakus as u64 - 2
    } else {
        0
    };
    let beat: u64 = BEAT_BASE_MS + BEAT_PER_YAKU_MS * lines;
    if beat < BEAT_CAP_MS {
        beat
    } else {
        BEAT_CAP_MS
    }
}

/// What the watcher makes of a message of the event stream.
pub fn bus_event(
    ev: &MjaiEvent,
    autoplay_enabled: bool,
    on_riichi_city: bool,
    yakus: u32,
) -> (event: AdvanceEvent)
    ensures
        event == event_of(ev@, autoplay_enabled, on_riichi_city, yakus),
{
    match ev {
        MjaiEvent::EndKyoku => AdvanceEvent::RoundEnd { autoplay_enabled, on_riichi_city, yakus },
        _ => AdvanceEvent::Message,
    }
}

/// The next state and the next action of the watcher.
pub fn step(state: AdvanceState, event: AdvanceEvent) -> (next: (AdvanceState, AdvanceAction))
    ensures
        next.0 == next_state(state, event),
        is_action(next.1, next_action(state, event)),
{
    match state {
        AdvanceState::Waiting => match event {
            AdvanceEvent::RoundEnd { autoplay_enabled, on_riichi_city, yakus } => {
                if autoplay_enabled && on_riichi_city {
                    (AdvanceState::Sighting { yakus }, AdvanceAction::Poll)
                } else {
                    (state, AdvanceAction::Listen)
                }
            },
            AdvanceEvent::Message => (state, AdvanceAction::Listen),
            AdvanceEvent::Lagged => (state, AdvanceAction::Listen),
            AdvanceEvent::Closed => (AdvanceState::Stopped, AdvanceAction::Stop),
            _ => (state, AdvanceAction::Ignore),
        },
        AdvanceState::Sighting { yakus } => match event {
            AdvanceEvent::RoundEnd { .. } => (AdvanceState::Waiting, AdvanceAction::Listen),
            AdvanceEvent::Message => (AdvanceState::Waiting, AdvanceAction::Listen),
            AdvanceEvent::Lagged => (state, AdvanceAction::Poll),
            AdvanceEvent::Closed => (AdvanceState::Stopped, AdvanceAction::Stop),
            AdvanceEvent::Tick { elapsed_ms } => {
                if elapsed_ms >= SIGHTING_TIMEOUT_MS {
                    (AdvanceState::Waiting, AdvanceAction::GiveUp)
                } else {
                    (AdvanceState::Looking { yakus }, AdvanceAction::Look)
                }
            },
            _ => (state, AdvanceAction::Ignore),
        },
        AdvanceState::Looking { yakus } => match event {
            AdvanceEvent::Looked { sighted } => {
                if sighted {
                    (
                        AdvanceState::Holding,
                        AdvanceAction::Hold { duration_ms: ok_button_beat_ms(yakus) },
                    )
                } else {
                    (AdvanceState::Sighting { yakus }, AdvanceAction::Poll)
                }
            },
            _ => (state, AdvanceAction::Ignore),
        },
        AdvanceState::Holding => match event {
            AdvanceEvent::Held => (
                AdvanceState::Waiting,
                AdvanceAction::Press(
                    InjectFrame { gameplay: true, packet: requests::user_prepare() },
                ),
            ),
            _ => (state, AdvanceAction::Ignore),
        },
        AdvanceState::Stopped => (state, AdvanceAction::Ignore),
    }
}

/// The state after a history of events, from the start.
pub open spec fn state_after(events: Seq<AdvanceEvent>) -> AdvanceState
    decreases events.len(),
{
    if events.len() == 0 {
        AdvanceState::Waiting
    } else {
        next_state(state_after(events.drop_last()), events.last())
    }
}

/// The event at `i` of a history makes the watcher press.
pub open spec fn presses_at(events: Seq<AdvanceEvent>, i: int) -> bool {
    next_action(state_after(events.take(i)), events[i]) is Press
}

/// How many presses a history makes.
pub open spec fn presses(events: Seq<AdvanceEvent>) -> nat
    decreases events.len(),
{
    if events.len() == 0 {
        0
    } else {
        presses(events.drop_last()) + (if next_action(
            state_after(events.drop_last()),
            events.last(),
        ) is Press {
            1nat
        } else {
            0
        })
    }
}

/// How many rounds ended in a history that autoplay was to advance.
pub open spec fn rounds(events: Seq<AdvanceEvent>) -> nat
    decreases events.len(),
{
    if events.len() == 0 {
        0
    } else {
        rounds(events.drop_last()) + (if opens_cycle(events.last()) {
            1nat
        } else {
            0
        })
    }
}

/// How many looks of a history sighted the button.
pub open spec fn sightings(events: Seq<AdvanceEvent>) -> nat
    decreases events.len(),
{
    if events.len() == 0 {
        0
    } else {
        sightings(events.drop_last()) + (if events.last() == (AdvanceEvent::Looked {
            sighted: true,
        }) {
            1nat
        } else {
            0
        })
    }
}

/// At most one press goes out per round that ended with autoplay on, and at
/// most one per sighting of the button.
pub proof fn law_one_press_per_round(events: Seq<AdvanceEvent>)
    ensures
        presses(events) <= rounds(events),
        presses(events) <= sightings(events),
{
    lemma_presses_are_earned(events);
}

proof fn lemma_presses_are_earned(events: Seq<AdvanceEvent>)
    ensures
        presses(events) <= rounds(events),
        presses(events) <= sightings(events),
        state_after(events) is Sighting || state_after(events) is Looking || state_after(
            events,
        ) is Holding ==> presses(events) < rounds(events),
        state_after(events) is Holding ==> presses(events) < sightings(events),
    decreases events.len(),
{
    if events.len() > 0 {
        lemma_presses_are_earned(events.drop_last());
    }
}

/// A press comes when the reading beat ends, and the beat began with a look
/// that sighted the button.
pub proof fn law_a_press_follows_a_sighting(events: Seq<AdvanceEvent>, i: int)
    requires
        0 <= i < events.len(),
        presses_at(events, i),
    ensures
        events[i] is Held,
        exists|j: int|
            0 <= j < i && #[trigger] events[j] == (AdvanceEvent::Looked { sighted: true })
                && forall|k: int| j < k < i ==> state_after(#[trigger] events.take(k + 1)) is Holding,
{
    lemma_holding_began_with_a_sighting(events, i);
}

proof fn lemma_holding_began_with_a_sighting(events: Seq<AdvanceEvent>, i: int)
    requires
        0 <= i <= events.len(),
        state_after(events.take(i)) is Holding,
    ensures
        exists|j: int|
            0 <= j < i && #[trigger] events[j] == (AdvanceEvent::Looked { sighted: true })
                && forall|k: int| j < k < i ==> state_after(#[trigger] events.take(k + 1)) is Holding,
    decreases i,
{
    assert(i > 0);
    assert(events.take(i).drop_last() =~= events.take(i - 1));
    assert(events.take(i).last() == events[i - 1]);
    if state_after(events.take(i - 1)) is Holding {
        lemma_holding_began_with_a_sighting(events, i - 1);
        let j = choose|j: int|
            0 <= j < i - 1 && #[trigger] events[j] == (AdvanceEvent::Looked { sighted: true })
                && forall|k: int|
                j < k < i - 1 ==> state_after(#[trigger] events.take(k + 1)) is Holding;
        assert forall|k: int| j < k < i implies state_after(
            #[trigger] events.take(k + 1),
        ) is Holding by {
            if k == i - 1 {
                assert(events.take(k + 1) =~= events.take(i));
            }
        }
        assert(events[j] == (AdvanceEvent::Looked { sighted: true }));
    } else {
        assert(events[i - 1] == (AdvanceEvent::Looked { sighted: true }));
    }
}

/// A voided or given-up cycle presses nothing: from waiting, no press goes out
/// before another round ends with autoplay on.
pub proof fn law_no_press_without_a_new_round(
    events: Seq<AdvanceEvent>,
    later: Seq<AdvanceEvent>,
)
    requires
        state_after(events) is Waiting || state_after(events) is Stopped,
        forall|i: int| 0 <= i < later.len() ==> !opens_cycle(#[trigger] later[i]),
    ensures
        presses(events + later) == presses(events),
        state_after(events + later) is Waiting || state_after(events + later) is Stopped,
    decreases later.len(),
{
    if later.len() == 0 {
        assert(events + later =~= events);
    } else {
        let rest = later.drop_last();
        assert((events + later).drop_last() =~= events + rest);
        assert(!opens_cycle(later[later.len() - 1]));
        law_no_press_without_a_new_round(events, rest);
    }
}

/// A message, a late tick or the end of the stream ends a cycle in which the
/// button was not sighted.
pub proof fn law_what_ends_a_cycle(yakus: u32, event: AdvanceEvent)
    ensures
        is_message(event) || is_overdue(event) ==> next_state(
            AdvanceState::Sighting { yakus },
            event,
        ) is Waiting,
        event is Closed ==> next_state(AdvanceState::Sighting { yakus }, event) is Stopped,
        event is Lagged ==> next_state(AdvanceState::Sighting { yakus }, event) == (
        AdvanceState::Sighting { yakus }),
        !(next_action(AdvanceState::Sighting { yakus }, event) is Press),
{
}

/// The beat is never shorter than the base nor longer than the cap, and more
/// yaku lines never make it shorter.
pub proof fn law_the_beat_grows_to_the_cap(fewer: u32, more: u32)
    requires
        fewer <= more,
    ensures
        BEAT_BASE_MS <= beat_of(fewer as int) <= beat_of(more as int) <= BEAT_CAP_MS,
{
}

/// The action that the last event of a history calls for.
pub open spec fn action_after(events: Seq<AdvanceEvent>) -> ActionModel {
    next_action(state_after(events.drop_last()), events.last())
}

/// Looks at the screen at these times after the round ended, none of which
/// sights the button.
pub open spec fn missed(looks: Seq<u64>) -> Seq<AdvanceEvent>
    decreases looks.len(),
{
    if looks.len() == 0 {
        Seq::empty()
    } else {
        missed(looks.drop_last()).push(AdvanceEvent::Tick { elapsed_ms: looks.last() }).push(
            AdvanceEvent::Looked { sighted: false },
        )
    }
}

proof fn lemma_missed_looks(events: Seq<AdvanceEvent>, looks: Seq<u64>, yakus: u32)
    requires
        state_after(events) == (AdvanceState::Sighting { yakus }),
        forall|i: int| 0 <= i < looks.len() ==> #[trigger] looks[i] < 90_000,
    ensures
        state_after(events + missed(looks)) == (AdvanceState::Sighting { yakus }),
        presses(events + missed(looks)) == presses(events),
    decreases looks.len(),
{
    if looks.len() == 0 {
        assert(events + missed(looks) =~= events);
    } else {
        let fewer = looks.drop_last();
        assert(looks[looks.len() - 1] < 90_000);
        assert forall|i: int| 0 <= i < fewer.len() implies #[trigger] fewer[i] < 90_000 by {
            assert(looks[i] < 90_000);
        }
        lemma_missed_looks(events, fewer, yakus);
        let before = events + missed(fewer);
        let ticked = before.push(AdvanceEvent::Tick { elapsed_ms: looks.last() });
        let looked = ticked.push(AdvanceEvent::Looked { sighted: false });
        assert(ticked.drop_last() =~= before);
        assert(looked.drop_last() =~= ticked);
        assert(state_after(ticked) == (AdvanceState::Looking { yakus }));
        assert(presses(ticked) == presses(before));
        assert(state_after(looked) == (AdvanceState::Sighting { yakus }));
        assert(presses(looked) == presses(ticked));
        assert(events + missed(looks) =~= looked);
    }
}

/// Every sighted round that autoplay is to advance gets exactly one press,
/// whatever its number of yaku lines and however many looks came before. From
/// waiting, such a round end makes the caller poll, a tick before the timeout
/// makes it look, a look that sights the button makes it hold for the beat (a
/// second and a half, and half a second for each line past two, up to four
/// seconds), and the end of the beat makes it press and wait again.
pub proof fn law_a_sighted_round_is_pressed(
    events: Seq<AdvanceEvent>,
    yakus: u32,
    looks: Seq<u64>,
    at: u64,
)
    requires
        state_after(events) is Waiting,
        forall|i: int| 0 <= i < looks.len() ==> #[trigger] looks[i] < 90_000,
        at < 90_000,
    ensures
        ({
            let begun = events.push(
                AdvanceEvent::RoundEnd { autoplay_enabled: true, on_riichi_city: true, yakus },
            );
            let searched = begun + missed(looks);
            let ticked = searched.push(AdvanceEvent::Tick { elapsed_ms: at });
            let sighted = ticked.push(AdvanceEvent::Looked { sighted: true });
            let held = sighted.push(AdvanceEvent::Held);
            &&& action_after(begun) is Poll
            &&& looks.len() > 0 ==> action_after(searched) is Poll
            &&& action_after(ticked) is Look
            &&& action_after(sighted) matches ActionModel::Hold { duration_ms }
            &&& yakus <= 2 ==> duration_ms == 1500
            &&& 2 <= yakus <= 7 ==> duration_ms == 500 + 500 * yakus
            &&& 7 <= yakus ==> duration_ms == 4000
            &&& action_after(held) is Press
            &&& state_after(held) is Waiting
            &&& presses(sighted) == presses(events)
            &&& presses(held) == presses(events) + 1
        }),
{
    let end = AdvanceEvent::RoundEnd { autoplay_enabled: true, on_riichi_city: true, yakus };
    let begun = events.push(end);
    let searched = begun + missed(looks);
    let ticked = searched.push(AdvanceEvent::Tick { elapsed_ms: at });
    let sighted = ticked.push(AdvanceEvent::Looked { sighted: true });
    let held = sighted.push(AdvanceEvent::Held);
    assert(begun.drop_last() =~= events);
    assert(ticked.drop_last() =~= searched);
    assert(sighted.drop_last() =~= ticked);
    assert(held.drop_last() =~= sighted);
    assert(state_after(begun) == (AdvanceState::Sighting { yakus }));
    assert(presses(begun) == presses(events));
    lemma_missed_looks(begun, looks, yakus);
    assert(state_after(ticked) == (AdvanceState::Looking { yakus }));
    assert(presses(ticked) == presses(searched));
    assert(state_after(sighted) is Holding);
    assert(presses(sighted) == presses(ticked));
    assert(presses(held) == presses(sighted) + 1);
    if looks.len() > 0 {
        let fewer = looks.drop_last();
        assert(looks[looks.len() - 1] < 90_000);
        assert forall|i: int| 0 <= i < fewer.len() implies #[trigger] fewer[i] < 90_000 by {
            assert(looks[i] < 90_000);
        }
        lemma_missed_looks(begun, fewer, yakus);
        let last_tick = (begun + missed(fewer)).push(
            AdvanceEvent::Tick { elapsed_ms: looks.last() },
        );
        assert(last_tick.drop_last() =~= begun + missed(fewer));
        assert(state_after(last_tick) == (AdvanceState::Looking { yakus }));
        assert(searched.drop_last() =~= last_tick);
        assert(searched.last() == (AdvanceEvent::Looked { sighted: false }));
    }
}

/// What an event does while waiting: only the end of a round with autoplay on,
/// on this platform, begins a search; missed messages are skipped, and the end
/// of the stream stops the watcher.
pub proof fn law_while_waiting(events: Seq<AdvanceEvent>, event: AdvanceEvent)
    requires
        state_after(events) is Waiting,
    ensures
        ({
            let next = events.push(event);
            match event {
                AdvanceEvent::RoundEnd { autoplay_enabled, on_riichi_city, yakus } =>
                    if autoplay_enabled && on_riichi_city {
                        action_after(next) is Poll && state_after(next) == (
                        AdvanceState::Sighting { yakus })
                    } else {
                        action_after(next) is Listen && state_after(next) is Waiting
                    },
                AdvanceEvent::Message => action_after(next) is Listen && state_after(
                    next,
                ) is Waiting,
                AdvanceEvent::Lagged => action_after(next) is Listen && state_after(
                    next,
                ) is Waiting,
                AdvanceEvent::Closed => action_after(next) is Stop && state_after(next) is Stopped,
                _ => action_after(next) is Ignore && state_after(next) is Waiting,
            }
        }),
{
    assert(events.push(event).drop_last() =~= events);
}

/// What an event does while the button is searched: a tick within ninety
/// seconds leads to a look, a later one gives up; any message means that the
/// round moved on; missed messages are skipped; a look without a sighting leads
/// back to the search.
pub proof fn law_while_searching(events: Seq<AdvanceEvent>, event: AdvanceEvent, yakus: u32)
    requires
        state_after(events) == (AdvanceState::Sighting { yakus }),
    ensures
        ({
            let next = events.push(event);
            match event {
                AdvanceEvent::RoundEnd { .. } => action_after(next) is Listen && state_after(
                    next,
                ) is Waiting,
                AdvanceEvent::Message => action_after(next) is Listen && state_after(
                    next,
                ) is Waiting,
                AdvanceEvent::Lagged => action_after(next) is Poll && state_after(next)
                    == state_after(events),
                AdvanceEvent::Closed => action_after(next) is Stop && state_after(next) is Stopped,
                AdvanceEvent::Tick { elapsed_ms } => if elapsed_ms < 90_000 {
                    action_after(next) is Look && action_after(
                        next.push(AdvanceEvent::Looked { sighted: false }),
                    ) is Poll && state_after(next.push(AdvanceEvent::Looked { sighted: false }))
                        == state_after(events)
                } else {
                    action_after(next) is GiveUp && state_after(next) is Waiting
                },
                _ => action_after(next) is Ignore && state_after(next) == state_after(events),
            }
        }),
{
    let next = events.push(event);
    assert(next.drop_last() =~= events);
    assert(next.push(AdvanceEvent::Looked { sighted: false }).drop_last() =~= next);
}

/// While a look or the beat is under way nothing but its own end counts, and
/// nothing counts after the stream has ended.
pub proof fn law_one_thing_at_a_time(events: Seq<AdvanceEvent>, event: AdvanceEvent)
    requires
        state_after(events) is Looking && !(event is Looked) || state_after(events) is Holding && !(
        event is Held) || state_after(events) is Stopped,
    ensures
        action_after(events.push(event)) is Ignore,
        state_after(events.push(event)) == state_after(events),
{
    assert(events.push(event).drop_last() =~= events);
}

/// An action is the one that its model names, with the same duration, and a
/// press is a frame of the game under the request command.
pub proof fn law_actions_are_their_models(action: AdvanceAction, model: ActionModel)
    requires
        is_action(action, model),
    ensures
        action is Listen <==> model is Listen,
        action is Poll <==> model is Poll,
        action is Look <==> model is Look,
        action is GiveUp <==> model is GiveUp,
        action is Hold <==> model is Hold,
        action is Press <==> model is Press,
        action is Stop <==> model is Stop,
        action is Ignore <==> model is Ignore,
        action matches AdvanceAction::Hold { duration_ms } ==> model == (ActionModel::Hold {
            duration_ms: duration_ms as int,
        }),
        action matches AdvanceAction::Press(frame) ==> frame.gameplay && frame.packet@
            == requests::ready_packet(),
{
}

/// Of the messages of the stream only the end of a hand counts as the end of a
/// round, with the configuration and the settlement as they are. The caller
/// looks once a second, for ninety seconds.
pub proof fn law_only_the_end_of_a_hand_ends_a_round(
    ev: EventModel,
    autoplay_enabled: bool,
    on_riichi_city: bool,
    yakus: u32,
)
    ensures
        match ev {
            EventModel::EndKyoku => event_of(ev, autoplay_enabled, on_riichi_city, yakus) == (
            AdvanceEvent::RoundEnd { autoplay_enabled, on_riichi_city, yakus }),
            _ => event_of(ev, autoplay_enabled, on_riichi_city, yakus) is Message,
        },
        POLL_INTERVAL_MS == 1000,
        SIGHTING_TIMEOUT_MS == 90 * POLL_INTERVAL_MS,
{
}

} // verus!
