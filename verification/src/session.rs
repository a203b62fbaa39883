//! Auto-queue session state: game counting, stop handling, and the
//! start-generation counter by which the queue task tells that a new game
//! started.
use crate::text;
use core::time::Duration;
use std::time::Instant;
use vstd::prelude::*;

verus! {

/// `std::time::Instant`, a reading of the monotonic clock. Nothing is known of
/// its value.
#[verifier::external_type_specification]
#[verifier::external_body]
pub struct ExInstant(Instant);

/// `Instant::now` reads the clock; nothing is claimed of the reading.
pub assume_specification[ Instant::now ]() -> Instant
;

/// The span from one reading of the clock to another, as `Instant::elapsed`
/// measures it.
pub uninterp spec fn span_since(since: Instant, now: Instant) -> Duration;

/// `Instant::elapsed` gives the span from the given reading to one that it
/// takes itself. Nothing is claimed of the reading that it takes.
pub assume_specification[ Instant::elapsed ](since: &Instant) -> (span: Duration)
    ensures
        exists|now: Instant| span == #[trigger] span_since(*since, now),
;

/// The length of a span in nanoseconds.
pub uninterp spec fn span_nanos(span: Duration) -> nat;

/// `Duration::as_secs` returns the whole seconds of a span: the fraction of a
/// second is dropped.
pub assume_specification[ Duration::as_secs ](span: &Duration) -> (secs: u64)
    ensures
        secs == span_nanos(*span) / 1_000_000_000,
;

/// `Duration::from_millis` makes a span of the given number of milliseconds.
pub assume_specification[ Duration::from_millis ](millis: u64) -> (span: Duration)
    ensures
        span_nanos(span) == millis * 1_000_000,
;

/// `rand::random` draws a number; any number can come.
#[verifier::external_body]
fn random_u64() -> (draw: u64) {
    rand::random::<u64>()
}

/// Snapshot for the UI.
#[derive(Debug, Clone, PartialEq, Eq)]
pub struct AutoplaySessionStatus {
    pub active: bool,
    /// Target game count; `None` = play until stopped.
    pub target_games: Option<u32>,
    pub games_completed: u32,
    pub stop_reason: Option<String>,
    /// Seconds spent waiting in the matchmaking queue, if queueing now.
    pub queue_seconds: Option<u64>,
    /// Seconds of the current inter-game wait, if between games.
    pub between_games_seconds: Option<u64>,
}

pub struct StatusModel {
    pub active: bool,
    pub target_games: Option<u32>,
    pub games_completed: u32,
    pub stop_reason: Option<Seq<char>>,
    pub queue_seconds: Option<u64>,
    pub between_games_seconds: Option<u64>,
}

impl View for AutoplaySessionStatus {
    type V = StatusModel;

    open spec fn view(&self) -> StatusModel {
        StatusModel {
            active: self.active,
            target_games: self.target_games,
            games_completed: self.games_completed,
            stop_reason: text::text_of(self.stop_reason),
            queue_seconds: self.queue_seconds,
            between_games_seconds: self.between_games_seconds,
        }
    }
}

pub struct AutoplaySession {
    pub active: bool,
    pub stop_requested: bool,
    /// 0 encodes "no target" (infinite).
    pub target_games: u32,
    pub completed: u32,
    /// Bumped on every game start; a queueing task snapshots it before
    /// queueing and compares afterwards to tell "a match was found" from
    /// "still waiting".
    pub start_generation: u64,
    /// When the current queue attempt started; drives the UI timer.
    pub queued_since: Option<Instant>,
    /// When the current inter-game wait started; drives the UI timer.
    pub between_games_since: Option<Instant>,
    pub stop_reason: Option<String>,
}

pub struct SessionModel {
    pub active: bool,
    pub stop_requested: bool,
    pub target_games: u32,
    pub completed: u32,
    pub start_generation: u64,
    pub queued_since: Option<Instant>,
    pub between_games_since: Option<Instant>,
    pub stop_reason: Option<Seq<char>>,
}

impl View for AutoplaySession {
    type V = SessionModel;

    open spec fn view(&self) -> SessionModel {
        SessionModel {
            active: self.active,
            stop_requested: self.stop_requested,
            target_games: self.target_games,
            completed: self.completed,
            start_generation: self.start_generation,
            queued_since: self.queued_since,
            between_games_since: self.between_games_since,
            stop_reason: text::text_of(self.stop_reason),
        }
    }
}

/// Why a session that played its games stopped.
pub open spec fn finish_reason(done: int, target: int) -> Seq<char> {
    "finished "@ + text::int_text(done) + " of "@ + text::int_text(target) + " games"@
}

/// One more game, in a counter that wraps.
pub open spec fn next_count(completed: u32) -> u32 {
    if completed == u32::MAX {
        0
    } else {
        (completed + 1) as u32
    }
}

impl SessionModel {
    /// A session that was never started.
    pub open spec fn idle() -> SessionModel {
        SessionModel {
            active: false,
            stop_requested: false,
            target_games: 0,
            completed: 0,
            start_generation: 0,
            queued_since: None,
            between_games_since: None,
            stop_reason: None,
        }
    }

    /// A finite session has never completed more games than it was to play,
    /// and while it is active at least one game is left.
    pub open spec fn well_formed(self) -> bool {
        self.target_games > 0 ==> self.completed <= self.target_games && (self.active
            ==> self.completed < self.target_games)
    }

    pub open spec fn is_active(self) -> bool {
        self.active && !self.stop_requested
    }

    pub open spec fn started(self, target_games: Option<u32>) -> SessionModel {
        SessionModel {
            active: true,
            stop_requested: false,
            target_games: match target_games {
                Some(n) => n,
                None => 0,
            },
            completed: 0,
            stop_reason: None,
            ..self
        }
    }

    pub open spec fn stopped(self, reason: Seq<char>) -> SessionModel {
        SessionModel { active: false, stop_requested: true, stop_reason: Some(reason), ..self }
    }

    /// Another game was started; the counter wraps.
    pub open spec fn game_started(self) -> SessionModel {
        SessionModel {
            start_generation: if self.start_generation == u64::MAX {
                0
            } else {
                (self.start_generation + 1) as u64
            },
            ..self
        }
    }

    /// The queue timer runs from `now`, and the wait between games is over.
    pub open spec fn queuing(self, now: Instant) -> SessionModel {
        SessionModel { queued_since: Some(now), between_games_since: None, ..self }
    }

    pub open spec fn queue_left(self) -> SessionModel {
        SessionModel { queued_since: None, ..self }
    }

    /// The timer of the wait between games runs from `now`.
    pub open spec fn between_games(self, now: Instant) -> SessionModel {
        SessionModel { between_games_since: Some(now), ..self }
    }

    pub open spec fn between_games_left(self) -> SessionModel {
        SessionModel { between_games_since: None, ..self }
    }

    /// Whether the game that just ended is the last one of a finite session.
    pub open spec fn reaches_target(self) -> bool {
        self.target_games > 0 && next_count(self.completed) >= self.target_games
    }

    /// The session after a finished game.
    pub open spec fn game_finished(self) -> SessionModel {
        if !self.is_active() {
            self
        } else if self.reaches_target() {
            SessionModel {
                active: false,
                completed: next_count(self.completed),
                stop_reason: Some(
                    finish_reason(next_count(self.completed) as int, self.target_games as int),
                ),
                ..self
            }
        } else {
            SessionModel { completed: next_count(self.completed), ..self }
        }
    }

    /// Whether another game is queued after a finished one.
    pub open spec fn queues_another(self) -> bool {
        self.is_active() && !self.reaches_target()
    }

    /// The session after a number of finished games.
    pub open spec fn games_finished(self, games: nat) -> SessionModel
        decreases games,
    {
        if games == 0 {
            self
        } else {
            self.games_finished((games - 1) as nat).game_finished()
        }
    }

    /// What the UI is shown, given the lengths of the two waits.
    pub open spec fn status(
        self,
        queue_seconds: Option<u64>,
        between_games_seconds: Option<u64>,
    ) -> StatusModel {
        StatusModel {
            active: self.is_active(),
            target_games: if self.target_games == 0 {
                None
            } else {
                Some(self.target_games)
            },
            games_completed: self.completed,
            stop_reason: self.stop_reason,
            queue_seconds,
            between_games_seconds,
        }
    }
}

impl Default for AutoplaySession {
    fn default() -> (session: Self)
        ensures
            session@ == SessionModel::idle(),
    {
        AutoplaySession::new()
    }
}

/// How long a wait has lasted at a reading of the clock, where there is one.
pub open spec fn lasted(since: Option<Instant>, now: Instant) -> Option<Duration> {
    match since {
        Some(t) => Some(span_since(t, now)),
        None => None,
    }
}

/// The whole seconds of a wait, where there is one.
pub open spec fn seconds_of(wait: Option<Duration>) -> Option<u64> {
    match wait {
        Some(span) => Some((span_nanos(span) / 1_000_000_000) as u64),
        None => None,
    }
}

fn elapsed_since(since: Option<Instant>) -> (wait: Option<Duration>)
    ensures
        exists|now: Instant| wait == #[trigger] lasted(since, now),
{
    match since {
        Some(t) => {
            let span: Duration = t.elapsed();
            proof {
                let now = choose|now: Instant| span == #[trigger] span_since(t, now);
                assert(lasted(since, now) == Some(span));
            }
            Some(span)
        },
        None => {
            assert(lasted(since, arbitrary()) is None);
            None
        },
    }
}

fn whole_seconds_of(wait: Option<Duration>) -> (secs: Option<u64>)
    ensures
        secs == seconds_of(wait),
{
    match wait {
        Some(span) => Some(span.as_secs()),
        None => None,
    }
}

impl AutoplaySession {
    pub fn new() -> (session: Self)
        ensures
            session@ == SessionModel::idle(),
            session@.well_formed(),
    {
        AutoplaySession {
            active: false,
            stop_requested: false,
            target_games: 0,
            completed: 0,
            start_generation: 0,
            queued_since: None,
            between_games_since: None,
            stop_reason: None,
        }
    }

    /// `target_games = None` plays until stopped. `Err` if a session is
    /// already active.
    pub fn start(&mut self, target_games: Option<u32>) -> (result: Result<(), String>)
        ensures
            result is Err <==> old(self)@.active,
            result matches Err(e) ==> e@ == "an autoplay session is already running"@,
            result is Err ==> final(self)@ == old(self)@,
            result is Ok ==> final(self)@ == old(self)@.started(target_games),
            result is Ok ==> final(self)@.well_formed(),
    {
        if self.active {
            return Err("an autoplay session is already running".to_owned());
        }
        self.active = true;
        self.stop_requested = false;
        self.completed = 0;
        self.target_games = match target_games {
            Some(n) => n,
            None => 0,
        };
        self.stop_reason = None;
        Ok(())
    }

    /// Takes effect at the next check: the current game (if any) plays out and
    /// no further match is queued.
    pub fn stop(&mut self, reason: &str)
        ensures
            final(self)@ == old(self)@.stopped(reason@),
            old(self)@.well_formed() ==> final(self)@.well_formed(),
    {
        self.stop_requested = true;
        self.deactivate(reason.to_owned());
    }

    fn deactivate(&mut self, reason: String)
        ensures
            final(self)@ == (SessionModel {
                active: false,
                stop_reason: Some(reason@),
                ..old(self)@
            }),
    {
        self.active = false;
        self.stop_reason = Some(reason);
    }

    pub fn is_active(&self) -> (active: bool)
        ensures
            active == self@.is_active(),
    {
        self.active && !self.stop_requested
    }

    /// Called on every game start.
    pub fn note_game_started(&mut self)
        ensures
            final(self)@ == old(self)@.game_started(),
    {
        self.start_generation = self.start_generation.wrapping_add(1);
    }

    pub fn start_generation(&self) -> (generation: u64)
        ensures
            generation == self@.start_generation,
    {
        self.start_generation
    }

    /// Starts the queue timer; queueing takes over from waiting between games.
    /// Which reading the clock gives is open; see
    /// [`AutoplaySession::note_queuing_at`] for the rest.
    pub fn note_queuing(&mut self)
        ensures
            exists|now: Instant| final(self)@ == #[trigger] old(self)@.queuing(now),
    {
        self.note_queuing_at(Instant::now());
    }

    /// Starts the queue timer at a reading of the clock.
    pub fn note_queuing_at(&mut self, now: Instant)
        ensures
            final(self)@ == old(self)@.queuing(now),
    {
        self.queued_since = Some(now);
        self.clear_between_games();
    }

    pub fn clear_queue_wait(&mut self)
        ensures
            final(self)@ == old(self)@.queue_left(),
    {
        self.queued_since = None;
    }

    /// Starts the timer of the wait between games, or restarts it. Which
    /// reading the clock gives is open; see
    /// [`AutoplaySession::note_between_games_at`] for the rest.
    pub fn note_between_games(&mut self)
        ensures
            exists|now: Instant| final(self)@ == #[trigger] old(self)@.between_games(now),
    {
        self.note_between_games_at(Instant::now());
    }

    /// Starts the timer of the wait between games at a reading of the clock,
    /// or restarts it there.
    pub fn note_between_games_at(&mut self, now: Instant)
        ensures
            final(self)@ == old(self)@.between_games(now),
    {
        self.between_games_since = Some(now);
    }

    pub fn clear_between_games(&mut self)
        ensures
            final(self)@ == old(self)@.between_games_left(),
    {
        self.between_games_since = None;
    }

    /// Called on every game end; returns whether another game should be
    /// queued.
    pub fn on_game_finished(&mut self) -> (again: bool)
        ensures
            again == old(self)@.queues_another(),
            final(self)@ == old(self)@.game_finished(),
            old(self)@.well_formed() ==> final(self)@.well_formed(),
    {
        if !self.is_active() {
            return false;
        }
        let done: u32 = self.completed.wrapping_add(1);
        self.completed = done;
        let target: u32 = self.target_games;
        if target > 0 && done >= target {
            let mut reason: String = "finished ".to_owned();
            text::append_int(&mut reason, done as i128);
            reason.append(" of ");
            text::append_int(&mut reason, target as i128);
            reason.append(" games");
            self.deactivate(reason);
            return false;
        }
        true
    }

    /// What the UI is shown: each wait as long as it has lasted at a reading
    /// of the clock. Which readings those are is open.
    pub fn status(&self) -> (status: AutoplaySessionStatus)
        ensures
            exists|a: Instant, b: Instant|
                status@ == self@.status(
                    seconds_of(#[trigger] lasted(self@.queued_since, a)),
                    seconds_of(#[trigger] lasted(self@.between_games_since, b)),
                ),
    {
        self.status_after(
            elapsed_since(self.queued_since),
            elapsed_since(self.between_games_since),
        )
    }

    /// What the UI is shown, given how long the two waits have lasted: their
    /// whole seconds.
    pub fn status_after(
        &self,
        queued: Option<Duration>,
        waited: Option<Duration>,
    ) -> (status: AutoplaySessionStatus)
        ensures
            status@ == self@.status(seconds_of(queued), seconds_of(waited)),
    {
        AutoplaySessionStatus {
            active: self.is_active(),
            target_games: if self.target_games == 0 {
                None
            } else {
                Some(self.target_games)
            },
            games_completed: self.completed,
            stop_reason: match &self.stop_reason {
                Some(reason) => Some(reason.clone()),
                None => None,
            },
            queue_seconds: whole_seconds_of(queued),
            between_games_seconds: whole_seconds_of(waited),
        }
    }
}

/// The wait between games in milliseconds, for a drawn number: the configured
/// value, and up to half as much again.
pub open spec fn inter_game_millis_of(inter_delay_ms: u32, draw: u64) -> int {
    inter_delay_ms + draw as int % (inter_delay_ms as int / 2 + 1)
}

/// Whether a wait is in `[inter_delay_ms, 3/2 × inter_delay_ms]`.
pub open spec fn inter_game_range(inter_delay_ms: u32, millis: int) -> bool {
    inter_delay_ms <= millis && 2 * millis <= 3 * inter_delay_ms
}

/// The wait between games in milliseconds, from a random number.
pub fn inter_game_millis(inter_delay_ms: u32, draw: u64) -> (millis: u64)
    ensures
        millis == inter_game_millis_of(inter_delay_ms, draw),
        inter_game_range(inter_delay_ms, millis as int),
        inter_delay_ms <= millis,
        2 * millis <= 3 * inter_delay_ms,
{
    let inter: u64 = inter_delay_ms as u64;
    inter + draw % (inter / 2 + 1)
}

/// Uniform in `[inter_delay_ms, 3/2 × inter_delay_ms]` — never shorter than
/// the configured value.
pub fn inter_game_delay(inter_delay_ms: u32) -> (delay: Duration)
    ensures
        exists|draw: u64|
            span_nanos(delay) == 1_000_000 * #[trigger] inter_game_millis_of(inter_delay_ms, draw),
        1_000_000 * inter_delay_ms <= span_nanos(delay),
        2 * span_nanos(delay) <= 3 * (1_000_000 * inter_delay_ms),
{
    let draw: u64 = random_u64();
    Duration::from_millis(inter_game_millis(inter_delay_ms, draw))
}

/// Every value of the range is the wait for some drawn number.
pub proof fn law_every_delay_in_range_can_come(inter_delay_ms: u32, millis: int)
    requires
        inter_delay_ms <= millis,
        2 * millis <= 3 * inter_delay_ms,
    ensures
        exists|draw: u64| #[trigger] inter_game_millis_of(inter_delay_ms, draw) == millis,
{
    let inter = inter_delay_ms as int;
    let draw = (millis - inter) as u64;
    assert(draw as int % (inter / 2 + 1) == draw) by (nonlinear_arith)
        requires
            0 <= draw < inter / 2 + 1,
    ;
    assert(inter_game_millis_of(inter_delay_ms, draw) == millis);
}

/// A session that was started for a number of games queues another one after
/// each game but the last; after the last it is inactive, has counted exactly
/// that many, and says so.
pub proof fn law_finite_session_counts_and_stops(s: SessionModel, target: u32, games: nat)
    requires
        0 < games <= target,
    ensures
        s.started(Some(target)).games_finished((games - 1) as nat).queues_another() <==> games
            < target,
        s.started(Some(target)).games_finished(games).completed == games,
        s.started(Some(target)).games_finished(games).is_active() <==> games < target,
        games == target ==> s.started(Some(target)).games_finished(games).stop_reason == Some(
            finish_reason(target as int, target as int),
        ),
    decreases games,
{
    reveal_with_fuel(SessionModel::games_finished, 2);
    lemma_games_finished_keeps_settings(s.started(Some(target)), (games - 1) as nat);
    if games > 1 {
        law_finite_session_counts_and_stops(s, target, (games - 1) as nat);
    }
}

proof fn lemma_games_finished_keeps_settings(s: SessionModel, games: nat)
    ensures
        s.games_finished(games).target_games == s.target_games,
        s.games_finished(games).stop_requested == s.stop_requested,
    decreases games,
{
    if games > 0 {
        lemma_games_finished_keeps_settings(s, (games - 1) as nat);
    }
}

/// A session without a target never stops by itself: it queues another game
/// after every game.
pub proof fn law_infinite_session_runs_until_stopped(s: SessionModel, games: nat)
    ensures
        s.started(None).games_finished(games).is_active(),
        s.started(None).games_finished(games).queues_another(),
    decreases games,
{
    lemma_games_finished_keeps_settings(s.started(None), games);
    if games > 0 {
        law_infinite_session_runs_until_stopped(s, (games - 1) as nat);
    }
}

/// After a stop, and whenever the session is not active, no game is queued and
/// no game is counted, however many end.
pub proof fn law_stopped_session_never_queues(s: SessionModel, games: nat)
    requires
        !s.is_active(),
    ensures
        !s.games_finished(games).queues_another(),
        s.games_finished(games) == s,
    decreases games,
{
    if games > 0 {
        law_stopped_session_never_queues(s, (games - 1) as nat);
    }
}

/// A stop makes the session inactive at once, and a start makes it active with
/// its counters reset.
pub proof fn law_stop_and_restart(s: SessionModel, reason: Seq<char>, target: Option<u32>)
    ensures
        !s.stopped(reason).is_active(),
        s.stopped(reason).completed == s.completed,
        s.stopped(reason).started(target).is_active(),
        s.stopped(reason).started(target).completed == 0,
        s.stopped(reason).started(target).stop_reason is None,
{
}

/// One call of a method that changes a session.
pub enum SessionCall {
    Start(Option<u32>),
    Stop(Seq<char>),
    GameStarted,
    GameFinished,
    Queuing(Instant),
    ClearQueueWait,
    BetweenGames(Instant),
    ClearBetweenGames,
}

impl SessionModel {
    /// The session after one call. A start while active is refused and changes
    /// nothing.
    pub open spec fn after_call(self, call: SessionCall) -> SessionModel {
        match call {
            SessionCall::Start(target_games) => if self.active {
                self
            } else {
                self.started(target_games)
            },
            SessionCall::Stop(reason) => self.stopped(reason),
            SessionCall::GameStarted => self.game_started(),
            SessionCall::GameFinished => self.game_finished(),
            SessionCall::Queuing(now) => self.queuing(now),
            SessionCall::ClearQueueWait => self.queue_left(),
            SessionCall::BetweenGames(now) => self.between_games(now),
            SessionCall::ClearBetweenGames => self.between_games_left(),
        }
    }

    /// A new session after a history of calls.
    pub open spec fn after_calls(calls: Seq<SessionCall>) -> SessionModel
        decreases calls.len(),
    {
        if calls.len() == 0 {
            SessionModel::idle()
        } else {
            SessionModel::after_calls(calls.drop_last()).after_call(calls.last())
        }
    }
}

/// In every state that calls lead to, an active session has no stop request and
/// no stop reason. So a start, which is refused while the session is marked
/// active, is refused exactly while the session is active. And no finite
/// session has counted beyond its target.
pub proof fn law_active_sessions_were_not_stopped(calls: Seq<SessionCall>)
    ensures
        ({
            let s = SessionModel::after_calls(calls);
            &&& s.active ==> !s.stop_requested && s.stop_reason is None
            &&& s.active <==> s.is_active()
            &&& s.well_formed()
        }),
    decreases calls.len(),
{
    if calls.len() > 0 {
        law_active_sessions_were_not_stopped(calls.drop_last());
    }
}

/// A wait between games that runs is restarted: the new reading counts, and
/// the other timer and everything else stay as they were.
pub proof fn law_a_running_wait_is_restarted(s: SessionModel, earlier: Instant, now: Instant)
    ensures
        s.between_games(earlier).between_games(now) == s.between_games(now),
        s.between_games(now).between_games_since == Some(now),
        s.between_games(now) == (SessionModel {
            between_games_since: Some(now),
            ..s
        }),
        s.queuing(earlier).between_games(now).queued_since == Some(earlier),
{
}

/// Queueing takes over from the wait between games, and restarts its own timer.
pub proof fn law_queuing_takes_over(s: SessionModel, earlier: Instant, now: Instant)
    ensures
        s.between_games(earlier).queuing(now).between_games_since is None,
        s.queuing(earlier).queuing(now) == s.queuing(now),
        s.queuing(now).queued_since == Some(now),
{
}

/// No operation lets a finite session count beyond its target.
pub proof fn law_sessions_stay_within_their_target(
    s: SessionModel,
    target: Option<u32>,
    reason: Seq<char>,
    games: nat,
)
    requires
        s.well_formed(),
    ensures
        SessionModel::idle().well_formed(),
        s.started(target).well_formed(),
        s.stopped(reason).well_formed(),
        s.games_finished(games).well_formed(),
    decreases games,
{
    if games > 0 {
        law_sessions_stay_within_their_target(s, target, reason, (games - 1) as nat);
    }
}

/// The drawn number is what is added to the configured wait, up to half of it;
/// a larger number counts from zero again. So no wait is shorter than the
/// configured one, none is longer than half as much again, and each is as
/// likely as the others.
pub proof fn law_the_drawn_number_is_added(inter_delay_ms: u32, draw: u64)
    ensures
        inter_delay_ms <= inter_game_millis_of(inter_delay_ms, draw),
        2 * inter_game_millis_of(inter_delay_ms, draw) <= 3 * inter_delay_ms,
        2 * draw <= inter_delay_ms ==> inter_game_millis_of(inter_delay_ms, draw) == inter_delay_ms
            + draw,
        inter_delay_ms / 2 + 1 <= draw ==> inter_game_millis_of(inter_delay_ms, draw)
            == inter_game_millis_of(inter_delay_ms, (draw - (inter_delay_ms / 2 + 1)) as u64),
{
    let n = inter_delay_ms as int / 2 + 1;
    vstd::arithmetic::div_mod::lemma_mod_bound(draw as int, n);
    if draw < n {
        vstd::arithmetic::div_mod::lemma_small_mod(draw as nat, n as nat);
    } else {
        vstd::arithmetic::div_mod::lemma_mod_sub_multiples_vanish(draw as int, n);
        assert((draw as int - n) % n == (-n + draw as int) % n);
    }
}

/// A session that was never started is inactive, and has neither a target, nor
/// a count, nor a running timer, nor a reason to have stopped.
pub proof fn law_an_idle_session_is_blank()
    ensures
        ({
            let s = SessionModel::idle();
            &&& !s.active && !s.stop_requested && !s.is_active()
            &&& s.target_games == 0 && s.completed == 0 && s.start_generation == 0
            &&& s.queued_since is None && s.between_games_since is None
            &&& s.stop_reason is None
        }),
{
}

/// A start sets the target and starts the count anew, and lifts an earlier
/// stop. The generation and both timers go on as they were.
pub proof fn law_a_start_sets_up_the_run(s: SessionModel, target: Option<u32>)
    ensures
        ({
            let t = s.started(target);
            &&& t.active && !t.stop_requested && t.is_active()
            &&& target matches Some(n) ==> t.target_games == n
            &&& target is None ==> t.target_games == 0
            &&& t.completed == 0 && t.stop_reason is None
            &&& t.start_generation == s.start_generation
            &&& t.queued_since == s.queued_since
            &&& t.between_games_since == s.between_games_since
        }),
{
}

/// A stop says why, and keeps the counters, the target and both timers.
pub proof fn law_a_stop_keeps_the_counters(s: SessionModel, reason: Seq<char>)
    ensures
        ({
            let t = s.stopped(reason);
            &&& !t.active && t.stop_requested && !t.is_active()
            &&& t.stop_reason == Some(reason)
            &&& t.target_games == s.target_games && t.completed == s.completed
            &&& t.start_generation == s.start_generation
            &&& t.queued_since == s.queued_since
            &&& t.between_games_since == s.between_games_since
        }),
{
}

/// Every start of a game changes the generation, by one where the counter does
/// not wrap, and nothing else.
pub proof fn law_a_game_start_is_told_by_the_generation(s: SessionModel)
    ensures
        s.game_started().start_generation != s.start_generation,
        s.start_generation < u64::MAX ==> s.game_started().start_generation == s.start_generation
            + 1,
        s.start_generation == u64::MAX ==> s.game_started().start_generation == 0,
        s.game_started() == (SessionModel {
            start_generation: s.game_started().start_generation,
            ..s
        }),
{
}

/// The timers touch nothing else: queueing sets its own and ends the wait
/// between games, and each timer is cleared alone.
pub proof fn law_the_timers_stand_alone(s: SessionModel, now: Instant)
    ensures
        s.queuing(now) == (SessionModel {
            queued_since: Some(now),
            between_games_since: None,
            ..s
        }),
        s.queue_left() == (SessionModel { queued_since: None, ..s }),
        s.between_games(now) == (SessionModel { between_games_since: Some(now), ..s }),
        s.between_games_left() == (SessionModel { between_games_since: None, ..s }),
        s.queuing(now).queue_left().queued_since is None,
        s.between_games(now).between_games_left().between_games_since is None,
{
}

/// A game that ends in an active session is counted. The session goes on
/// exactly while it has no target or has not reached it, and then queues
/// another game; where it ends it says how many games it played, and it was
/// not stopped. Nothing else changes.
pub proof fn law_a_finished_game_is_counted(s: SessionModel)
    requires
        s.active,
        !s.stop_requested,
        s.completed < u32::MAX,
    ensures
        ({
            let t = s.game_finished();
            let goes_on = s.target_games == 0 || s.completed + 1 < s.target_games;
            &&& t.completed == s.completed + 1
            &&& t.active <==> goes_on
            &&& s.queues_another() <==> goes_on
            &&& goes_on ==> t.stop_reason == s.stop_reason
            &&& !goes_on ==> t.stop_reason == Some(
                "finished "@ + text::int_text(s.completed + 1) + " of "@ + text::int_text(
                    s.target_games as int,
                ) + " games"@,
            )
            &&& !t.stop_requested && t.target_games == s.target_games
            &&& t.start_generation == s.start_generation
            &&& t.queued_since == s.queued_since
            &&& t.between_games_since == s.between_games_since
        }),
{
}

/// A game that ends while the session is inactive, or was asked to stop, is
/// neither counted nor followed by another.
pub proof fn law_no_game_is_counted_after_a_stop(s: SessionModel)
    requires
        !s.active || s.stop_requested,
    ensures
        s.game_finished() == s,
        !s.queues_another(),
        !s.is_active(),
{
}

/// The status shows the session: active while it runs and was not asked to
/// stop, the target where there is one, the games counted, the reason, and the
/// two waits each in its own place.
pub proof fn law_the_status_shows_the_session(
    s: SessionModel,
    queue_seconds: Option<u64>,
    between_games_seconds: Option<u64>,
)
    ensures
        ({
            let status = s.status(queue_seconds, between_games_seconds);
            &&& status.active <==> s.active && !s.stop_requested
            &&& s.target_games == 0 ==> status.target_games is None
            &&& s.target_games > 0 ==> status.target_games == Some(s.target_games)
            &&& status.games_completed == s.completed
            &&& status.stop_reason == s.stop_reason
            &&& status.queue_seconds == queue_seconds
            &&& status.between_games_seconds == between_games_seconds
        }),
{
}

/// A wait is shown in whole seconds, rounded down; where there is none, none is
/// shown. The wait lasts from when it began.
pub proof fn law_waits_are_shown_in_whole_seconds(since: Option<Instant>, now: Instant, secs: u64)
    ensures
        since is None ==> seconds_of(lasted(since, now)) is None,
        since matches Some(t) && secs * 1_000_000_000 <= span_nanos(span_since(t, now)) < (secs + 1)
            * 1_000_000_000 ==> seconds_of(lasted(since, now)) == Some(secs),
{
    if let Some(t) = since {
        let nanos = span_nanos(span_since(t, now));
        if secs * 1_000_000_000 <= nanos < (secs + 1) * 1_000_000_000 {
            assert(nanos / 1_000_000_000 == secs);
        }
    }
}

} // verus!
