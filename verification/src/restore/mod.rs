//! Mid-hand reconnect: rebuild the game state from the snapshot that the
//! server attaches to its enter-room message.
//!
//! The snapshot carries per-player rivers, melds, riichi, scores, our hand,
//! the wall count and the dora indicators. The rebuild is a synthesized event
//! stream: the deal with the true scores, then a replay of the melds and the
//! rivers. Two conventions keep the stream like the one that live play emits:
//! - Other players' draws are hidden; ours use the discarded tile itself,
//!   which entered and left in the same turn.
//! - Claimed tiles are absent from the rivers. Each claim is replayed as the
//!   source's draw and discard of the claimed tile, followed by the meld.
//!
//! Every synthesis is gated by arithmetic: the wall must match the draws that
//! the hands, rivers and melds account for, and every hand size must match its
//! expected value, with at most the current actor holding a pending draw. Any
//! mismatch refuses the restore.
use crate::events;
use crate::events::{EventModel, MjaiEvent};
use crate::json::Json;
use crate::text;
use crate::tiles;
use vstd::prelude::*;

pub mod checks;
pub mod gates;
pub mod laws;
pub mod order;
pub mod reading;
pub mod refusals;
pub mod replay;
pub mod snapshot;
pub mod stream;
pub mod tracker;

use crate::restore::snapshot::{GameStatus, PlayerModel, PlayerSnap, RestoreError};

verus! {

/// The synthesized stream, and whether we held the pending draw (so that the
/// duplicate draw can be suppressed when the server offers the window again).
#[derive(Debug)]
pub struct RestoreOutcome {
    pub events: Vec<MjaiEvent>,
    pub own_pending_draw: bool,
}

pub struct OutcomeModel {
    pub events: Seq<EventModel>,
    pub own_pending_draw: bool,
}

impl View for RestoreOutcome {
    type V = OutcomeModel;

    open spec fn view(&self) -> OutcomeModel {
        OutcomeModel {
            events: events::events_of(self.events@),
            own_pending_draw: self.own_pending_draw,
        }
    }
}

/// The first dora indicator, where it is a nonzero integer.
pub open spec fn dora_at(hs: Json) -> Option<i64> {
    match hs.field("bao_pai_list"@) {
        Some(v) => match v.items() {
            Some(items) => if items.len() == 0 {
                None
            } else {
                match items[0].int_value() {
                    Some(i) => if i == 0 {
                        None
                    } else {
                        Some(i)
                    },
                    None => None,
                }
            },
            None => None,
        },
        None => None,
    }
}

/// The seat of the user whose turn it is.
pub open spec fn current_actor(data: Json, status: GameStatus) -> Option<u8> {
    match data.field("action_info"@) {
        Some(info) => match info.field("current_user_id"@) {
            Some(v) => match v.int_value() {
                Some(uid) => status.actor(uid),
                None => None,
            },
            None => None,
        },
        None => None,
    }
}

/// The dealer's seat: the roster position, rotated into seat order.
pub open spec fn dealer_seat(hs: Json, status: GameStatus) -> int {
    (snapshot::int_or(hs, "dealer_pos"@, 0) - status.shift) % (status.num_players as int)
}

/// The deal: round, scores, our hand, and hidden hands for everyone else.
pub open spec fn deal(
    hs: Json,
    dora: i64,
    players: Seq<PlayerModel>,
    tehai: Seq<Seq<char>>,
    status: GameStatus,
) -> EventModel {
    EventModel::StartKyoku {
        bakaze: tiles::card_text(snapshot::int_or(hs, "quan_feng"@, 0) as u32),
        dora_marker: tiles::card_text(dora as u32),
        kyoku: (dealer_seat(hs, status) + 1) as u8,
        honba: snapshot::int_or(hs, "ben_chang_num"@, 0) as u8,
        kyotaku: snapshot::int_or(hs, "li_zhi_bang_num"@, 0) as u8,
        oya: dealer_seat(hs, status) as u8,
        scores: players.map_values(|p: PlayerModel| p.score),
        tehais: Seq::new(
            status.num_players as nat,
            |k: int|
                if k == status.seat {
                    tehai
                } else {
                    Seq::new(13, |i: int| replay::hidden())
                },
        ),
        num_players: status.num_players,
    }
}

/// The pending draw: our own tile as itself, any other hidden.
pub open spec fn pending_events(pending: Option<u8>, draw: Option<u32>, seat: u8) -> Seq<
    EventModel,
> {
    match pending {
        None => Seq::empty(),
        Some(actor) => match draw {
            Some(tile) => seq![EventModel::Tsumo { actor, pai: replay::draw_text(actor, tile, seat) }],
            None => seq![EventModel::Tsumo { actor, pai: replay::hidden() }],
        },
    }
}

/// The stream for a table that was read, or why it is refused.
pub open spec fn restored_table(
    data: Json,
    hs: Json,
    chairs: Seq<u8>,
    players: Seq<PlayerModel>,
    status: GameStatus,
) -> Result<OutcomeModel, RestoreError> {
    let n = status.num_players;
    let left = snapshot::int_or(hs, "left_pai_shan"@, (-1) as i64);
    match dora_at(hs) {
        None => Err(RestoreError::NoDora),
        Some(dora) => if checks::wall_tiles(n) - checks::draws(players, n) != left {
            Err(
                RestoreError::Wall {
                    base: checks::wall_tiles(n) as i64,
                    draws: checks::draws(players, n) as i128,
                    left,
                },
            )
        } else {
            match checks::pending_draw(players, current_actor(data, status)) {
                Err(e) => Err(e),
                Ok(pending) => if status.seat >= players.len() {
                    Err(RestoreError::Seats)
                } else {
                    let ours = pending == Some(status.seat);
                    match checks::own_hand(players[status.seat as int], ours) {
                        Err(e) => Err(e),
                        Ok((tehai, draw)) => match replay::claims_replay(players, chairs, status.seat) {
                            Err(e) => Err(e),
                            Ok(claims) => Ok(
                                OutcomeModel {
                                    events: seq![deal(hs, dora, players, tehai, status)] + claims
                                        + replay::rivers_replay(players, status.seat) + pending_events(
                                        pending,
                                        draw,
                                        status.seat,
                                    ),
                                    own_pending_draw: ours,
                                },
                            ),
                        },
                    }
                },
            }
        },
    }
}

/// The stream that rebuilds the state of a snapshot, or why it is refused. A
/// table without players, or without a player in our seat, is refused for its
/// seats.
pub open spec fn restored(data: Json, status: GameStatus) -> Result<OutcomeModel, RestoreError> {
    match data.field("hand_status"@) {
        None => Err(RestoreError::NoHandStatus),
        Some(hs) => if hs is Null {
            Err(RestoreError::NoHandStatus)
        } else {
            match data.field("players"@) {
                None => Err(RestoreError::PlayersList),
                Some(v) => match v.items() {
                    None => Err(RestoreError::PlayersList),
                    Some(list) => if list.len() != status.num_players {
                        Err(RestoreError::PlayersList)
                    } else {
                        match snapshot::table_at(list, status) {
                            Err(e) => Err(e),
                            Ok((chairs, players)) => if players.len() == 0 {
                                Err(RestoreError::Seats)
                            } else {
                                restored_table(data, hs, chairs, players, status)
                            },
                        }
                    },
                },
            }
        },
    }
}

/// The hand status of a snapshot that is not refused.
pub open spec fn hand_status_in(data: Json) -> Json {
    data.field("hand_status"@)->0
}

/// The seat of each roster chair of a snapshot that is not refused.
pub open spec fn chairs_in(data: Json, status: GameStatus) -> Seq<u8> {
    (snapshot::table_at(data.field("players"@)->0.items()->0, status)->Ok_0).0
}

/// The players of a snapshot that is not refused, in seat order.
pub open spec fn players_in(data: Json, status: GameStatus) -> Seq<PlayerModel> {
    (snapshot::table_at(data.field("players"@)->0.items()->0, status)->Ok_0).1
}

fn read_dora(hs: &Json) -> (dora: Option<i64>)
    ensures
        dora == dora_at(*hs),
{
    match hs.get("bao_pai_list") {
        Some(v) => match v.as_array() {
            Some(items) => {
                if items.len() == 0 {
                    return None;
                }
                match items[0].as_i64() {
                    Some(i) => if i == 0 {
                        None
                    } else {
                        Some(i)
                    },
                    None => None,
                }
            },
            None => None,
        },
        None => None,
    }
}

fn read_current_actor(data: &Json, status: &GameStatus) -> (actor: Option<u8>)
    ensures
        actor == current_actor(*data, *status),
{
    match data.get("action_info") {
        Some(info) => match info.get("current_user_id") {
            Some(v) => match v.as_i64() {
                Some(uid) => status.actor_of(uid),
                None => None,
            },
            None => None,
        },
        None => None,
    }
}

fn hidden_hand() -> (hand: Vec<String>)
    ensures
        text::texts(hand@) == Seq::new(13, |i: int| replay::hidden()),
{
    let mut hand: Vec<String> = Vec::new();
    let mut i: usize = 0;
    while i < 13
        invariant
            i <= 13,
            hand@.len() == i,
            forall|k: int| 0 <= k < i ==> (#[trigger] hand@[k])@ == replay::hidden(),
        decreases 13 - i,
    {
        hand.push(tiles::hidden_tile());
        i = i + 1;
    }
    assert(text::texts(hand@) =~= Seq::new(13, |i: int| replay::hidden()));
    hand
}

fn deal_hands(tehai: Vec<String>, status: &GameStatus) -> (tehais: Vec<Vec<String>>)
    requires
        status.seat < status.num_players,
    ensures
        events::hands_of(tehais@) == Seq::new(
            status.num_players as nat,
            |k: int|
                if k == status.seat {
                    text::texts(tehai@)
                } else {
                    Seq::new(13, |i: int| replay::hidden())
                },
        ),
{
    let mut tehais: Vec<Vec<String>> = Vec::new();
    let mut k: u8 = 0;
    while k < status.num_players
        invariant
            k <= status.num_players,
            tehais@.len() == k,
            forall|j: int|
                0 <= j < k ==> text::texts((#[trigger] tehais@[j])@) == Seq::new(
                    13,
                    |i: int| replay::hidden(),
                ),
        decreases status.num_players - k,
    {
        tehais.push(hidden_hand());
        k = k + 1;
    }
    tehais.set(status.seat as usize, tehai);
    assert(events::hands_of(tehais@) =~= Seq::new(
        status.num_players as nat,
        |k: int|
            if k == status.seat {
                text::texts(tehai@)
            } else {
                Seq::new(13, |i: int| replay::hidden())
            },
    ));
    tehais
}

fn scores_of(players: &Vec<PlayerSnap>) -> (scores: Vec<i32>)
    ensures
        scores@ == snapshot::players_of(players@).map_values(|p: PlayerModel| p.score),
{
    let mut scores: Vec<i32> = Vec::new();
    let mut i: usize = 0;
    while i < players.len()
        invariant
            i <= players@.len(),
            scores@.len() == i,
            forall|k: int| 0 <= k < i ==> #[trigger] scores@[k] == players@[k].score,
        decreases players.len() - i,
    {
        scores.push(players[i].score);
        i = i + 1;
    }
    assert(scores@ =~= snapshot::players_of(players@).map_values(|p: PlayerModel| p.score));
    scores
}

/// Synthesize the event stream that rebuilds the state of a snapshot, or say
/// why the snapshot is refused.
pub fn restore(data: &Json, status: &GameStatus) -> (outcome: Result<RestoreOutcome, RestoreError>)
    ensures
        match outcome {
            Ok(o) => restored(*data, *status) == Ok::<OutcomeModel, RestoreError>(o@),
            Err(e) => restored(*data, *status) == Err::<OutcomeModel, RestoreError>(e),
        },
{
    let n: u8 = status.num_players;
    let hs = match data.get("hand_status") {
        Some(hs) => hs,
        None => {
            return Err(RestoreError::NoHandStatus);
        },
    };
    if hs.is_null() {
        return Err(RestoreError::NoHandStatus);
    }
    let list = match data.get("players") {
        Some(v) => match v.as_array() {
            Some(list) => list,
            None => {
                return Err(RestoreError::PlayersList);
            },
        },
        None => {
            return Err(RestoreError::PlayersList);
        },
    };
    if list.len() != n as usize {
        return Err(RestoreError::PlayersList);
    }
    let (chairs, players) = snapshot::read_table(list, status)?;
    proof {
        snapshot::lemma_seat_count_bound(snapshot::roster_at(list@, *status)->Ok_0);
        snapshot::lemma_table_fits_the_roster(list@, *status);
    }
    if players.len() == 0 {
        return Err(RestoreError::Seats);
    }
    let dora: i64 = match read_dora(hs) {
        Some(dora) => dora,
        None => {
            return Err(RestoreError::NoDora);
        },
    };
    let left: i64 = snapshot::read_int(hs, "left_pai_shan", -1);
    let base: i64 = checks::wall_base(n);
    let drawn: i128 = checks::sum_tiles_seen(&players) - 13 * n as i128;
    if base as i128 - drawn != left as i128 {
        return Err(RestoreError::Wall { base, draws: drawn, left });
    }
    let pending: Option<u8> = checks::find_pending_draw(&players, read_current_actor(data, status))?;
    if status.seat as usize >= players.len() {
        return Err(RestoreError::Seats);
    }
    let ours: bool = match pending {
        Some(actor) => actor == status.seat,
        None => false,
    };
    let (tehai, draw) = checks::rebuild_own_hand(&players[status.seat as usize], ours)?;
    let ghost tehai_model = text::texts(tehai@);
    let spread: i128 = snapshot::read_int(hs, "dealer_pos", 0) as i128 - status.shift as i128;
    let turns: i128 = n as i128;
    let rel: u8 = (if spread >= 0 {
        spread % turns
    } else {
        (turns - 1) - (-1 - spread) % turns
    }) as u8;
    proof {
        if spread < 0 {
            lemma_negative_remainder(spread as int, turns as int);
        }
        assert(rel == dealer_seat(*hs, *status));
    }
    let mut events: Vec<MjaiEvent> = Vec::new();
    let start = MjaiEvent::StartKyoku {
        bakaze: tiles::card_to_mjai(
            #[verifier::truncate]
            (snapshot::read_int(hs, "quan_feng", 0) as u32),
        ),
        dora_marker: tiles::card_to_mjai(
            #[verifier::truncate]
            (dora as u32),
        ),
        kyoku: rel + 1,
        honba: #[verifier::truncate]
        (snapshot::read_int(hs, "ben_chang_num", 0) as u8),
        kyotaku: #[verifier::truncate]
        (snapshot::read_int(hs, "li_zhi_bang_num", 0) as u8),
        oya: rel,
        scores: scores_of(&players),
        tehais: deal_hands(tehai, status),
        num_players: n,
    };
    let ghost first = start@;
    replay::emit(&mut events, start);
    assert(events::events_of(events@) =~= seq![first]);
    replay::emit_claims_replay(&mut events, &players, &chairs, status.seat)?;
    replay::emit_rivers_replay(&mut events, &players, status.seat);
    if let Some(actor) = pending {
        let pai: String = match draw {
            Some(tile) => replay::draw_tile(actor, tile, status.seat),
            None => tiles::hidden_tile(),
        };
        replay::emit(&mut events, MjaiEvent::Tsumo { actor, pai });
    }
    proof {
        let want = restored(*data, *status)->Ok_0;
        let dealt = deal(*hs, dora, snapshot::players_of(players@), tehai_model, *status);
        assert(first->tehais =~= dealt->tehais);
        assert(first == dealt);
        assert(events::events_of(events@) =~= want.events);
    }
    Ok(RestoreOutcome { events, own_pending_draw: ours })
}

proof fn lemma_negative_remainder(a: int, n: int)
    requires
        a < 0,
        0 < n,
    ensures
        a % n == (n - 1) - (-1 - a) % n,
{
    let b = -1 - a;
    let q = b / n;
    let r = b % n;
    vstd::arithmetic::div_mod::lemma_fundamental_div_mod(b, n);
    vstd::arithmetic::div_mod::lemma_mod_bound(b, n);
    assert(a == (-q - 1) * n + (n - 1 - r)) by (nonlinear_arith)
        requires
            b == n * q + r,
            a == -1 - b,
    ;
    vstd::arithmetic::div_mod::lemma_fundamental_div_mod_converse(a, n, -q - 1, n - 1 - r);
}

/// What a refusal says.
pub open spec fn refusal_text(e: RestoreError) -> Seq<char> {
    match e {
        RestoreError::NoHandStatus => "no hand_status"@,
        RestoreError::PlayersList => "players list missing or wrong length"@,
        RestoreError::NoUserId => "player without user_id"@,
        RestoreError::UnknownUid { uid } => "uid "@ + text::int_text(uid as int)
            + " not in the rotated roster"@,
        RestoreError::Seats => "duplicate or missing seats after rotation"@,
        RestoreError::NoDora => "no dora indicator"@,
        RestoreError::Wall { base, draws, left } => "wall arithmetic mismatch: "@ + text::int_text(
            base as int,
        ) + " - "@ + text::int_text(draws as int) + " draws != "@ + text::int_text(left as int),
        RestoreError::HandSize { actor, hand_n, expected } => "actor "@ + text::int_text(
            actor as int,
        ) + " hand is "@ + text::int_text(hand_n as int) + " tiles, expected "@ + text::int_text(
            expected as int,
        ),
        RestoreError::OwnHand { tiles } => "our hand_cards is "@ + text::int_text(tiles as int)
            + " tiles with a pending draw, not 14"@,
        RestoreError::UnknownMeld { action_type } => "unknown meld action_type "@ + text::int_text(
            action_type as int,
        ),
        RestoreError::Tehai { tiles } => "our reconstructed tehai is "@ + text::int_text(
            tiles as int,
        ) + " tiles, not 13"@,
        RestoreError::NoSource => "meld without a source position"@,
        RestoreError::SourceRange => "meld source position out of range"@,
        RestoreError::ZeroClaim => "meld with a zero claimed tile"@,
        RestoreError::NoPair => "meld without its from-hand tiles"@,
        RestoreError::NoTriple => "daiminkan without its from-hand tiles"@,
        RestoreError::NoQuad => "ankan without four tiles"@,
    }
}

impl RestoreError {
    /// The refusal in words.
    pub fn message(&self) -> (message: String)
        ensures
            message@ == refusal_text(*self),
    {
        match *self {
            RestoreError::NoHandStatus => "no hand_status".to_owned(),
            RestoreError::PlayersList => "players list missing or wrong length".to_owned(),
            RestoreError::NoUserId => "player without user_id".to_owned(),
            RestoreError::UnknownUid { uid } => {
                let mut m: String = "uid ".to_owned();
                text::append_int(&mut m, uid as i128);
                m.append(" not in the rotated roster");
                m
            },
            RestoreError::Seats => "duplicate or missing seats after rotation".to_owned(),
            RestoreError::NoDora => "no dora indicator".to_owned(),
            RestoreError::Wall { base, draws, left } => {
                let mut m: String = "wall arithmetic mismatch: ".to_owned();
                text::append_int(&mut m, base as i128);
                m.append(" - ");
                text::append_int(&mut m, draws);
                m.append(" draws != ");
                text::append_int(&mut m, left as i128);
                m
            },
            RestoreError::HandSize { actor, hand_n, expected } => {
                let mut m: String = "actor ".to_owned();
                text::append_int(&mut m, actor as i128);
                m.append(" hand is ");
                text::append_int(&mut m, hand_n as i128);
                m.append(" tiles, expected ");
                text::append_int(&mut m, expected);
                m
            },
            RestoreError::OwnHand { tiles } => {
                let mut m: String = "our hand_cards is ".to_owned();
                text::append_int(&mut m, tiles as i128);
                m.append(" tiles with a pending draw, not 14");
                m
            },
            RestoreError::UnknownMeld { action_type } => {
                let mut m: String = "unknown meld action_type ".to_owned();
                text::append_int(&mut m, action_type as i128);
                m
            },
            RestoreError::Tehai { tiles } => {
                let mut m: String = "our reconstructed tehai is ".to_owned();
                text::append_int(&mut m, tiles as i128);
                m.append(" tiles, not 13");
                m
            },
            RestoreError::NoSource => "meld without a source position".to_owned(),
            RestoreError::SourceRange => "meld source position out of range".to_owned(),
            RestoreError::ZeroClaim => "meld with a zero claimed tile".to_owned(),
            RestoreError::NoPair => "meld without its from-hand tiles".to_owned(),
            RestoreError::NoTriple => "daiminkan without its from-hand tiles".to_owned(),
            RestoreError::NoQuad => "ankan without four tiles".to_owned(),
        }
    }
}

/// Synthesize the event stream that rebuilds the tracker's state from a
/// mid-hand reconnect snapshot, or say in words why the snapshot is refused.
/// `status` already carries the reconnect-resolved rotation and seat.
pub fn synthesise(data: &Json, status: &GameStatus) -> (outcome: Result<RestoreOutcome, String>)
    ensures
        match outcome {
            Ok(o) => restored(*data, *status) == Ok::<OutcomeModel, RestoreError>(o@),
            Err(message) => match restored(*data, *status) {
                Ok(_) => false,
                Err(e) => message@ == refusal_text(e),
            },
        },
{
    match restore(data, status) {
        Ok(o) => Ok(o),
        Err(e) => Err(e.message()),
    }
}

} // verus!
