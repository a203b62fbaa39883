//! The autoplay planner: think for a human-like interval, then send the packet
//! that carries the decision.
//!
//! How long to think comes from a delay model outside this crate. The planner
//! says what that model is told ([`delay_input`]) and turns what it answers
//! into the wait ([`pre_delay`]).
use crate::events::{EventModel, MjaiEvent};
use crate::requests;
use crate::requests::{PacketModel, WPacket};
use crate::text;
use vstd::prelude::*;

verus! {

/// What kind of decision a delay is for.
#[derive(Debug, Clone, Copy, PartialEq, Eq, Structural)]
pub enum DecisionKind {
    Dahai,
    Reach,
    Chi,
    Pon,
    Daiminkan,
    Ankan,
    Kakan,
    Hora,
    Kita,
    Ryukyoku,
    Pass,
}

/// One seat of the table, as far as the planner reads it.
#[derive(Debug, Clone, PartialEq)]
pub struct PlayerState {
    /// The concealed hand, a held draw merged in sort order.
    pub tehai: Vec<String>,
    /// The tile currently held from the wall.
    pub drawn_tile: Option<String>,
    pub river: Vec<String>,
}

pub struct PlayerModel {
    pub tehai: Seq<Seq<char>>,
    pub drawn_tile: Option<Seq<char>>,
    pub river: Seq<Seq<char>>,
}

impl View for PlayerState {
    type V = PlayerModel;

    open spec fn view(&self) -> PlayerModel {
        PlayerModel {
            tehai: text::texts(self.tehai@),
            drawn_tile: text::text_of(self.drawn_tile),
            river: text::texts(self.river@),
        }
    }
}

/// A decision and the table it is made at.
pub struct ActionContext<'a> {
    pub action: &'a MjaiEvent,
    /// The seats of the table; empty where the table is not tracked.
    pub players: &'a [PlayerState],
    pub our_seat: u8,
    /// The most recent discard.
    pub last_kawa_tile: Option<&'a str>,
    pub self_riichi_accepted: bool,
    /// How many actions are legal now.
    pub legal_action_count: usize,
    /// The delay model runs in its legacy mode, in which scripts are ignored.
    pub legacy_delay: bool,
}

pub struct ContextModel {
    pub action: EventModel,
    pub players: Seq<PlayerModel>,
    pub our_seat: u8,
    pub last_kawa_tile: Option<Seq<char>>,
    pub self_riichi_accepted: bool,
    pub legal_action_count: usize,
    pub legacy_delay: bool,
}

impl<'a> View for ActionContext<'a> {
    type V = ContextModel;

    open spec fn view(&self) -> ContextModel {
        ContextModel {
            action: self.action@,
            players: self.players@.map_values(|p: PlayerState| p@),
            our_seat: self.our_seat,
            last_kawa_tile: text::str_of(self.last_kawa_tile),
            self_riichi_accepted: self.self_riichi_accepted,
            legal_action_count: self.legal_action_count,
            legacy_delay: self.legacy_delay,
        }
    }
}

/// What the delay model is told of a decision. Flags that a sent packet cannot
/// observe are at their neutral values.
#[derive(Debug, Clone, Copy, PartialEq, Eq, Structural)]
pub struct DelayInput {
    pub kind: DecisionKind,
    pub is_tsumogiri: bool,
    pub is_post_call: bool,
    /// The first discard of a kyoku carries the time to survey a fresh hand.
    pub first_action_of_kyoku: bool,
    pub opening_animation: bool,
    pub can_riichi: bool,
    pub in_riichi: bool,
    pub opponent_riichi: bool,
    pub junme: u32,
    pub legal_action_count: usize,
    pub click_overhead_ms: u32,
}

/// What the delay model answers, in milliseconds.
#[derive(Debug, Clone, Copy, PartialEq, Eq, Structural)]
pub struct DelayTargets {
    /// The user's delay script, where there is one and it decides.
    pub scripted: Option<u32>,
    /// The built-in model.
    pub modelled: u32,
    /// No wait is shorter than this.
    pub floor: u32,
}

/// One step of a plan.
#[derive(Debug, PartialEq)]
pub enum Step {
    Sleep { duration_ms: u32 },
    SendFrame(WPacket),
}

pub enum StepModel {
    Sleep { duration_ms: u32 },
    SendFrame(PacketModel),
}

impl View for Step {
    type V = StepModel;

    open spec fn view(&self) -> StepModel {
        match *self {
            Step::Sleep { duration_ms } => StepModel::Sleep { duration_ms },
            Step::SendFrame(packet) => StepModel::SendFrame(packet@),
        }
    }
}

/// The steps that perform a decision; none where there is nothing to send.
#[derive(Debug, PartialEq)]
pub struct PlanResult {
    pub steps: Vec<Step>,
}

impl View for PlanResult {
    type V = Seq<StepModel>;

    open spec fn view(&self) -> Seq<StepModel> {
        self.steps@.map_values(|s: Step| s@)
    }
}

impl Default for PlanResult {
    fn default() -> (plan: Self)
        ensures
            plan@ == Seq::<StepModel>::empty(),
    {
        let plan = PlanResult { steps: Vec::new() };
        assert(plan@ =~= Seq::<StepModel>::empty());
        plan
    }
}

/// The seat that an event is a decision of: `Some(None)` for a decision that
/// names no seat, which only our own bot makes, and `None` for what is not a
/// decision.
pub open spec fn decider(ev: EventModel) -> Option<Option<u8>> {
    match ev {
        EventModel::Dahai { actor, .. } => Some(Some(actor)),
        EventModel::Reach { actor, .. } => Some(Some(actor)),
        EventModel::Chi { actor, .. } => Some(Some(actor)),
        EventModel::Pon { actor, .. } => Some(Some(actor)),
        EventModel::Daiminkan { actor, .. } => Some(Some(actor)),
        EventModel::Ankan { actor, .. } => Some(Some(actor)),
        EventModel::Kakan { actor, .. } => Some(Some(actor)),
        EventModel::Hora { actor, .. } => Some(Some(actor)),
        EventModel::Kita { actor, .. } => Some(Some(actor)),
        EventModel::Pass => Some(None),
        EventModel::Ryukyoku { deltas } => if deltas is None {
            Some(None)
        } else {
            None
        },
        _ => None,
    }
}

/// An event is a decision that we can transmit.
pub open spec fn ours(ev: EventModel, our_seat: u8) -> bool {
    decider(ev) == Some(None::<u8>) || decider(ev) == Some(Some(our_seat))
}

pub open spec fn kind_of_decision(ev: EventModel) -> DecisionKind {
    match ev {
        EventModel::Dahai { .. } => DecisionKind::Dahai,
        EventModel::Reach { .. } => DecisionKind::Reach,
        EventModel::Chi { .. } => DecisionKind::Chi,
        EventModel::Pon { .. } => DecisionKind::Pon,
        EventModel::Daiminkan { .. } => DecisionKind::Daiminkan,
        EventModel::Ankan { .. } => DecisionKind::Ankan,
        EventModel::Kakan { .. } => DecisionKind::Kakan,
        EventModel::Hora { .. } => DecisionKind::Hora,
        EventModel::Kita { .. } => DecisionKind::Kita,
        EventModel::Ryukyoku { .. } => DecisionKind::Ryukyoku,
        _ => DecisionKind::Pass,
    }
}

impl ContextModel {
    /// Our own seat, where the table is tracked.
    pub open spec fn player(self) -> Option<PlayerModel> {
        if self.our_seat < self.players.len() {
            Some(self.players[self.our_seat as int])
        } else {
            None
        }
    }

    /// A hand whose slots can be numbered.
    pub open spec fn hand_fits(self) -> bool {
        self.player() matches Some(p) ==> p.tehai.len() <= u32::MAX
    }

    /// The packet that performs the decision, where it is ours and can be
    /// sent. The rack comes from our hand and the held draw.
    pub open spec fn packet(self) -> Option<PacketModel> {
        if !ours(self.action, self.our_seat) {
            None
        } else {
            requests::action_request(
                self.action,
                match self.player() {
                    Some(p) => p.drawn_tile,
                    None => None,
                },
                self.last_kawa_tile,
                match self.player() {
                    Some(p) => Some(p.tehai),
                    None => None,
                },
            )
        }
    }

    pub open spec fn delay_input(self) -> DelayInput {
        DelayInput {
            kind: kind_of_decision(self.action),
            is_tsumogiri: self.action matches EventModel::Dahai { actor: _, pai: _, tsumogiri }
                && tsumogiri,
            is_post_call: false,
            first_action_of_kyoku: self.action is Dahai && (self.player() matches Some(p)
                && p.river.len() == 0),
            opening_animation: false,
            can_riichi: self.action is Reach,
            in_riichi: self.self_riichi_accepted,
            opponent_riichi: false,
            junme: 0,
            legal_action_count: self.legal_action_count,
            click_overhead_ms: 0,
        }
    }

    /// The steps of the plan: the wait, then the packet.
    pub open spec fn plan(self, delay: DelayTargets) -> Seq<StepModel> {
        match self.packet() {
            Some(packet) => seq![
                StepModel::Sleep { duration_ms: wait_of(self.legacy_delay, delay) },
                StepModel::SendFrame(packet),
            ],
            None => Seq::empty(),
        }
    }
}

/// The wait: what the script says outside the legacy mode, else what the model
/// says, and never less than the floor.
pub open spec fn wait_of(legacy: bool, delay: DelayTargets) -> u32 {
    let target = if !legacy && delay.scripted is Some {
        delay.scripted->0
    } else {
        delay.modelled
    };
    if target > delay.floor {
        target
    } else {
        delay.floor
    }
}

/// Whether the event is a decision by `our_seat` — the only decisions we can
/// transmit. Other seats' actions pass through the bus too and would otherwise
/// be echoed back to the server as if we had made them.
pub fn is_our_decision(ev: &MjaiEvent, our_seat: u8) -> (is_ours: bool)
    ensures
        is_ours == ours(ev@, our_seat),
{
    match ev {
        MjaiEvent::Dahai { actor, .. } => *actor == our_seat,
        MjaiEvent::Reach { actor, .. } => *actor == our_seat,
        MjaiEvent::Chi { actor, .. } => *actor == our_seat,
        MjaiEvent::Pon { actor, .. } => *actor == our_seat,
        MjaiEvent::Daiminkan { actor, .. } => *actor == our_seat,
        MjaiEvent::Ankan { actor, .. } => *actor == our_seat,
        MjaiEvent::Kakan { actor, .. } => *actor == our_seat,
        MjaiEvent::Hora { actor, .. } => *actor == our_seat,
        MjaiEvent::Kita { actor, .. } => *actor == our_seat,
        // The bot declining our call window: ours to send.
        MjaiEvent::Pass => true,
        // The bot declaring nine terminals on our first draw.
        MjaiEvent::Ryukyoku { deltas } => deltas.is_none(),
        _ => false,
    }
}

pub fn decision_kind(ev: &MjaiEvent) -> (kind: DecisionKind)
    ensures
        kind == kind_of_decision(ev@),
{
    match ev {
        MjaiEvent::Dahai { .. } => DecisionKind::Dahai,
        MjaiEvent::Reach { .. } => DecisionKind::Reach,
        MjaiEvent::Chi { .. } => DecisionKind::Chi,
        MjaiEvent::Pon { .. } => DecisionKind::Pon,
        MjaiEvent::Daiminkan { .. } => DecisionKind::Daiminkan,
        MjaiEvent::Ankan { .. } => DecisionKind::Ankan,
        MjaiEvent::Kakan { .. } => DecisionKind::Kakan,
        MjaiEvent::Hora { .. } => DecisionKind::Hora,
        MjaiEvent::Kita { .. } => DecisionKind::Kita,
        MjaiEvent::Ryukyoku { .. } => DecisionKind::Ryukyoku,
        _ => DecisionKind::Pass,
    }
}

/// What the delay model is told of the decision.
pub fn delay_input(ctx: &ActionContext) -> (input: DelayInput)
    ensures
        input == ctx@.delay_input(),
{
    let seat: usize = ctx.our_seat as usize;
    let river_is_empty: bool = seat < ctx.players.len() && ctx.players[seat].river.len() == 0;
    let is_tsumogiri: bool = match ctx.action {
        MjaiEvent::Dahai { tsumogiri, .. } => *tsumogiri,
        _ => false,
    };
    let is_discard: bool = match ctx.action {
        MjaiEvent::Dahai { .. } => true,
        _ => false,
    };
    let can_riichi: bool = match ctx.action {
        MjaiEvent::Reach { .. } => true,
        _ => false,
    };
    DelayInput {
        kind: decision_kind(ctx.action),
        is_tsumogiri,
        is_post_call: false,
        first_action_of_kyoku: is_discard && river_is_empty,
        opening_animation: false,
        can_riichi,
        in_riichi: ctx.self_riichi_accepted,
        opponent_riichi: false,
        junme: 0,
        legal_action_count: ctx.legal_action_count,
        click_overhead_ms: 0,
    }
}

/// The whole target lands in the wait: a packet costs nothing to send
/// afterwards.
pub fn pre_delay(legacy: bool, delay: &DelayTargets) -> (duration_ms: u32)
    ensures
        duration_ms == wait_of(legacy, *delay),
{
    let target: u32 = match delay.scripted {
        Some(scripted) => if legacy {
            delay.modelled
        } else {
            scripted
        },
        None => delay.modelled,
    };
    if target > delay.floor {
        target
    } else {
        delay.floor
    }
}

#[derive(Debug, Clone, Copy)]
pub struct RiichiCityAutoplay;

impl Default for RiichiCityAutoplay {
    fn default() -> (planner: Self)
        ensures
            planner == RiichiCityAutoplay,
    {
        RiichiCityAutoplay::new()
    }
}

impl RiichiCityAutoplay {
    pub fn new() -> (planner: Self)
        ensures
            planner == RiichiCityAutoplay,
    {
        RiichiCityAutoplay
    }

    /// The packet that performs a decision, where it is ours and can be sent.
    /// A win names its tile, and discards and calls carry rack positions, so
    /// our hand, the held draw and the last discard go into it.
    pub fn packet(&self, ctx: &ActionContext) -> (packet: Option<WPacket>)
        requires
            ctx@.hand_fits(),
        ensures
            requests::packet_of(packet) == ctx@.packet(),
    {
        if !is_our_decision(ctx.action, ctx.our_seat) {
            return None;
        }
        let seat: usize = ctx.our_seat as usize;
        let seated: bool = seat < ctx.players.len();
        let hand: Option<&[String]> = if seated {
            Some(ctx.players[seat].tehai.as_slice())
        } else {
            None
        };
        let drawn: Option<&str> = if seated {
            match &ctx.players[seat].drawn_tile {
                Some(pai) => Some(pai.as_str()),
                None => None,
            }
        } else {
            None
        };
        requests::encode_action_with(ctx.action, drawn, ctx.last_kawa_tile, hand)
    }

    /// The steps that perform a decision: only our own decisions have a
    /// packet, everything else plans nothing. The delay model need not be asked
    /// where [`RiichiCityAutoplay::packet`] gives none.
    pub fn plan(&self, ctx: &ActionContext, delay: &DelayTargets) -> (plan: PlanResult)
        requires
            ctx@.hand_fits(),
        ensures
            plan@ == ctx@.plan(*delay),
    {
        match self.packet(ctx) {
            Some(packet) => {
                let mut steps: Vec<Step> = Vec::new();
                steps.push(Step::Sleep { duration_ms: pre_delay(ctx.legacy_delay, delay) });
                steps.push(Step::SendFrame(packet));
                let plan = PlanResult { steps };
                assert(plan@ =~= ctx@.plan(*delay));
                plan
            },
            None => PlanResult::default(),
        }
    }
}

/// What another seat does is never planned, and neither is what is not a
/// decision.
pub proof fn law_only_our_decisions_are_planned(ctx: ContextModel, delay: DelayTargets)
    requires
        ctx.plan(delay).len() > 0,
    ensures
        decider(ctx.action) matches Some(seat) && (seat matches Some(actor) ==> actor
            == ctx.our_seat),
{
}

/// A plan is empty, or it waits for at least the floor and then sends one
/// packet: the request for the decision.
pub proof fn law_a_plan_waits_and_sends(ctx: ContextModel, delay: DelayTargets)
    ensures
        ctx.plan(delay).len() == 0 || {
            &&& ctx.plan(delay).len() == 2
            &&& ctx.plan(delay)[0] matches StepModel::Sleep { duration_ms }
            &&& duration_ms >= delay.floor
            &&& duration_ms >= delay.modelled || delay.scripted is Some
            &&& ctx.plan(delay)[1] matches StepModel::SendFrame(packet)
            &&& packet.cmd == requests::BIN_CMD_REQUEST
            &&& ctx.packet() == Some(packet)
        },
{
}

/// What is nobody's decision has no request, whatever the table: the planner
/// leaves out nothing that could be sent for our seat.
pub proof fn law_every_request_is_a_decision(
    ev: EventModel,
    drawn: Option<Seq<char>>,
    last_discard: Option<Seq<char>>,
    hand: Option<Seq<Seq<char>>>,
)
    requires
        requests::action_request(ev, drawn, last_discard, hand) is Some,
    ensures
        decider(ev) is Some,
{
}

/// Which events are ours to send: what our seat does, the bot declining a call
/// window, and the bot declaring an abortive draw, which names no deltas.
pub proof fn law_whose_decision_it_is(ev: EventModel, our_seat: u8)
    ensures
        ours(ev, our_seat) <==> match ev {
            EventModel::Dahai { actor, .. } => actor == our_seat,
            EventModel::Reach { actor, .. } => actor == our_seat,
            EventModel::Chi { actor, .. } => actor == our_seat,
            EventModel::Pon { actor, .. } => actor == our_seat,
            EventModel::Daiminkan { actor, .. } => actor == our_seat,
            EventModel::Ankan { actor, .. } => actor == our_seat,
            EventModel::Kakan { actor, .. } => actor == our_seat,
            EventModel::Hora { actor, .. } => actor == our_seat,
            EventModel::Kita { actor, .. } => actor == our_seat,
            EventModel::Pass => true,
            EventModel::Ryukyoku { deltas } => deltas is None,
            _ => false,
        },
{
}

/// What is ours is sent exactly as the request for it reads with our own hand,
/// the draw that we hold and the last discard; what is not ours is never sent.
/// Where the table is not tracked there is neither hand nor draw.
pub proof fn law_our_hand_goes_into_the_request(ctx: ContextModel, delay: DelayTargets)
    ensures
        !ours(ctx.action, ctx.our_seat) ==> ctx.packet() is None && ctx.plan(delay).len() == 0,
        ours(ctx.action, ctx.our_seat) && ctx.our_seat < ctx.players.len() ==> ctx.packet()
            == requests::action_request(
            ctx.action,
            ctx.players[ctx.our_seat as int].drawn_tile,
            ctx.last_kawa_tile,
            Some(ctx.players[ctx.our_seat as int].tehai),
        ),
        ours(ctx.action, ctx.our_seat) && ctx.our_seat >= ctx.players.len() ==> ctx.packet()
            == requests::action_request(ctx.action, None, ctx.last_kawa_tile, None),
        ctx.packet() matches Some(packet) ==> ctx.plan(delay).len() == 2 && ctx.plan(delay)[1]
            == StepModel::SendFrame(packet),
        ctx.packet() is None ==> ctx.plan(delay).len() == 0,
{
}

/// The wait is the longer of the target and the floor. The target is the
/// script's where there is one and the delay model is not in its legacy mode,
/// and the built-in model's everywhere else.
pub proof fn law_the_wait_is_the_target_above_the_floor(
    ctx: ContextModel,
    delay: DelayTargets,
    target: u32,
)
    requires
        ctx.packet() is Some,
        ctx.legacy_delay || delay.scripted is None ==> target == delay.modelled,
        !ctx.legacy_delay ==> (delay.scripted matches Some(ms) ==> target == ms),
    ensures
        ctx.plan(delay).len() == 2,
        ctx.plan(delay)[0] == (StepModel::Sleep {
            duration_ms: if target < delay.floor {
                delay.floor
            } else {
                target
            },
        }),
{
}

/// The delay model is told the decision by its kind, and each kind tells one
/// decision; what is none of the others is a pass.
pub proof fn law_the_kind_tells_the_decision(ctx: ContextModel)
    ensures
        ({
            let kind = ctx.delay_input().kind;
            &&& kind is Dahai <==> ctx.action is Dahai
            &&& kind is Reach <==> ctx.action is Reach
            &&& kind is Chi <==> ctx.action is Chi
            &&& kind is Pon <==> ctx.action is Pon
            &&& kind is Daiminkan <==> ctx.action is Daiminkan
            &&& kind is Ankan <==> ctx.action is Ankan
            &&& kind is Kakan <==> ctx.action is Kakan
            &&& kind is Hora <==> ctx.action is Hora
            &&& kind is Kita <==> ctx.action is Kita
            &&& kind is Ryukyoku <==> ctx.action is Ryukyoku
        }),
{
}

/// What else the delay model is told: a discard of the drawn tile, our first
/// discard of a kyoku, a riichi that can be declared or is on, and how many
/// actions are legal. Everything that a sent packet cannot observe is off.
pub proof fn law_what_the_delay_model_is_told(ctx: ContextModel)
    ensures
        ({
            let input = ctx.delay_input();
            &&& input.is_tsumogiri <==> match ctx.action {
                EventModel::Dahai { tsumogiri, .. } => tsumogiri,
                _ => false,
            }
            &&& input.first_action_of_kyoku <==> ctx.action is Dahai && ctx.our_seat
                < ctx.players.len() && ctx.players[ctx.our_seat as int].river.len() == 0
            &&& input.can_riichi <==> ctx.action is Reach
            &&& input.in_riichi <==> ctx.self_riichi_accepted
            &&& input.legal_action_count == ctx.legal_action_count
            &&& !input.is_post_call && !input.opening_animation && !input.opponent_riichi
            &&& input.junme == 0 && input.click_overhead_ms == 0
        }),
{
}

} // verus!
