//! Which snapshots are refused, and what for.
use crate::events::EventModel;
use crate::json::Json;
use crate::restore;
use crate::restore::checks;
use crate::restore::gates;
use crate::restore::reading;
use crate::restore::replay;
use crate::restore::snapshot;
use crate::restore::snapshot::{GameStatus, MeldModel, PlayerModel, RestoreError};
use crate::restore::tracker;
use crate::restore::OutcomeModel;
use crate::text;
use vstd::prelude::*;

verus! {

/// The snapshot is refused, and this is what for.
pub open spec fn refused(data: Json, status: GameStatus, e: RestoreError) -> bool {
    restore::restored(data, status) == Err::<OutcomeModel, RestoreError>(e)
}

/// A snapshot without a hand status, or without a list of as many players as
/// the game has, is refused for that.
pub proof fn law_a_snapshot_needs_its_parts(data: Json, status: GameStatus)
    ensures
        data.field("hand_status"@) is None || data.field("hand_status"@) == Some(Json::Null)
            ==> refused(data, status, RestoreError::NoHandStatus),
        data.field("hand_status"@) matches Some(hs) && !(hs is Null) && !(data.field("players"@) matches Some(
            Json::Array(v),
        ) && v@.len() == status.num_players) ==> refused(data, status, RestoreError::PlayersList),
{
}

/// The entries name users of the seat order.
pub open spec fn known_users(list: Seq<Json>, status: GameStatus, uids: Seq<i64>) -> bool {
    &&& uids.len() == list.len()
    &&& status.player_list@.len() <= 256
    &&& forall|l: int|
        0 <= l < list.len() ==> reading::names_user(list[l], #[trigger] uids[l])
            && status.player_list@.contains(uids[l])
}

proof fn lemma_known_user(status: GameStatus, uid: i64)
    requires
        status.player_list@.contains(uid),
        status.player_list@.len() <= 256,
    ensures
        status.actor(uid) is Some,
{
    crate::lists::lemma_first_index(status.player_list@, uid);
    let k = choose|k: int| 0 <= k < status.player_list@.len() && status.player_list@[k] == uid;
    assert(status.player_list@[k] == uid);
}

proof fn lemma_known_users(list: Seq<Json>, status: GameStatus, uids: Seq<i64>)
    requires
        known_users(list, status, uids),
    ensures
        snapshot::roster_at(list, status) is Ok,
        snapshot::roster_at(list, status)->Ok_0.len() == list.len(),
        forall|l: int|
            0 <= l < list.len() ==> (#[trigger] snapshot::roster_at(list, status)->Ok_0[l]).actor
                == status.actor(uids[l])->0,
    decreases list.len(),
{
    if list.len() > 0 {
        let rest = list.drop_last();
        let fewer = uids.drop_last();
        assert forall|l: int| 0 <= l < rest.len() implies reading::names_user(
            rest[l],
            #[trigger] fewer[l],
        ) && status.player_list@.contains(fewer[l]) by {
            assert(reading::names_user(list[l], uids[l]));
        }
        lemma_known_users(rest, status, fewer);
        let last = uids[uids.len() - 1];
        assert(reading::names_user(list[list.len() - 1], last));
        reading::lemma_user_id(list.last(), last);
        lemma_known_user(status, last);
        let roster = snapshot::roster_at(list, status)->Ok_0;
        assert forall|l: int| 0 <= l < list.len() implies (#[trigger] roster[l]).actor
            == status.actor(uids[l])->0 by {
            if l < rest.len() {
                assert(roster[l] == snapshot::roster_at(rest, status)->Ok_0[l]);
                assert(fewer[l] == uids[l]);
            }
        }
    }
}

proof fn lemma_refused_entry(list: Seq<Json>, status: GameStatus, count: int)
    requires
        0 <= count <= list.len(),
        snapshot::roster_at(list.take(count), status) is Err,
    ensures
        snapshot::roster_at(list, status) is Err,
        snapshot::roster_at(list, status)->Err_0 == snapshot::roster_at(
            list.take(count),
            status,
        )->Err_0,
    decreases list.len(),
{
    if count == list.len() {
        assert(list.take(count) =~= list);
    } else {
        assert(list.drop_last().take(count) =~= list.take(count));
        lemma_refused_entry(list.drop_last(), status, count);
    }
}

/// The first roster entry that names no user, or a user outside of the seat
/// order, is what a snapshot is refused for, with that user.
pub proof fn law_unknown_users_are_refused(
    data: Json,
    status: GameStatus,
    before: Seq<i64>,
    uid: i64,
)
    requires
        data.field("hand_status"@) matches Some(hs) && !(hs is Null),
        data.field("players"@) matches Some(Json::Array(v)) && v@.len() == status.num_players
            && before.len() < v@.len() && known_users(
            v@.take(before.len() as int),
            status,
            before,
        ),
    ensures
        ({
            let e = data.field("players"@)->0->Array_0@[before.len() as int];
            let no_id = match e.field("user"@) {
                Some(user) => match user.field("user_id"@) {
                    Some(id) => !(id is Int) && !(id is Text),
                    None => true,
                },
                None => true,
            };
            &&& no_id ==> refused(data, status, RestoreError::NoUserId)
            &&& reading::names_user(e, uid) && !status.player_list@.contains(uid)
                ==> refused(data, status, RestoreError::UnknownUid { uid })
        }),
{
    let list = data.field("players"@)->0->Array_0@;
    let at = before.len() as int;
    let e = list[at];
    let upto = list.take(at + 1);
    assert(upto.drop_last() =~= list.take(at));
    assert(upto.last() == e);
    lemma_known_users(list.take(at), status, before);
    if reading::names_user(e, uid) && !status.player_list@.contains(uid) {
        reading::lemma_user_id(e, uid);
        crate::lists::lemma_first_index(status.player_list@, uid);
        assert(status.actor(uid) is None);
    }
    if snapshot::roster_at(upto, status) is Err {
        lemma_refused_entry(list, status, at + 1);
    }
}

proof fn lemma_seat_free(roster: Seq<PlayerModel>, seat: int)
    requires
        forall|l: int| 0 <= l < roster.len() ==> (#[trigger] roster[l]).actor != seat,
    ensures
        snapshot::seated(roster, seat) is None,
    decreases roster.len(),
{
    if roster.len() > 0 {
        assert(roster[roster.len() - 1].actor != seat);
        assert forall|l: int| 0 <= l < roster.drop_last().len() implies (
        #[trigger] roster.drop_last()[l]).actor != seat by {
            assert(roster[l].actor != seat);
        }
        lemma_seat_free(roster.drop_last(), seat);
    }
}

/// A seat that no roster entry takes, below one that is taken, is what a
/// snapshot is refused for.
pub proof fn law_a_free_seat_is_refused(
    data: Json,
    status: GameStatus,
    uids: Seq<i64>,
    free: int,
    l: int,
)
    requires
        data.field("hand_status"@) matches Some(hs) && !(hs is Null),
        data.field("players"@) matches Some(Json::Array(v)) && v@.len() == status.num_players
            && known_users(v@, status, uids),
        0 <= free,
        0 <= l < uids.len(),
        forall|i: int|
            0 <= i < uids.len() ==> !reading::sits_at(status, #[trigger] uids[i], free),
        exists|seat: int| free < seat && #[trigger] reading::sits_at(status, uids[l], seat),
    ensures
        refused(data, status, RestoreError::Seats),
{
    let list = data.field("players"@)->0->Array_0@;
    lemma_known_users(list, status, uids);
    let roster = snapshot::roster_at(list, status)->Ok_0;
    let seat = choose|seat: int| free < seat && #[trigger] reading::sits_at(status, uids[l], seat);
    assert forall|i: int| 0 <= i < roster.len() implies (#[trigger] roster[i]).actor != free by {
        assert(reading::names_user(list[i], uids[i]));
        lemma_known_user(status, uids[i]);
        reading::law_users_sit_in_seat_order(status, uids[i], free);
        assert(!reading::sits_at(status, uids[i], free));
    }
    lemma_seat_free(roster, free);
    reading::law_users_sit_in_seat_order(status, uids[l], seat);
    assert(roster[l].actor == seat);
    gates::lemma_seat_taken(roster, l);
    assert(snapshot::seated(roster, free) is None);
}

/// The first dora indicator is missing, or no nonzero integer.
pub open spec fn no_dora(hs: Json) -> bool {
    match hs.field("bao_pai_list"@) {
        Some(Json::Array(doras)) => doras@.len() == 0 || match doras@[0] {
            Json::Int(dora) => dora == 0,
            _ => true,
        },
        _ => true,
    }
}

/// A snapshot without a dora indicator is refused for that.
pub proof fn law_a_missing_dora_is_refused(data: Json, status: GameStatus, uids: Seq<i64>)
    requires
        gates::seats_taken(data, status, uids),
        no_dora(data.field("hand_status"@)->0),
    ensures
        refused(data, status, RestoreError::NoDora),
{
    gates::lemma_table_read(data, status, uids);
}

/// The tiles of a player that were drawn or dealt: those held, discarded and
/// set aside, four for each kan from a discard or from the hand, three for each
/// chi and pon, and two for each promoted pon.
pub open spec fn tiles_out(p: PlayerModel) -> int {
    p.hand_n + p.river.len() + p.kita.len() + 3 * (gates::of_kind(p.melds, 2) + gates::of_kind(
        p.melds,
        3,
    ) + gates::of_kind(p.melds, 4) + gates::of_kind(p.melds, 5)) + 4 * (gates::of_kind(p.melds, 6)
        + gates::of_kind(p.melds, 8)) + 2 * gates::of_kind(p.melds, 9)
}

/// The same for all players.
pub open spec fn all_tiles_out(players: Seq<PlayerModel>) -> int
    decreases players.len(),
{
    if players.len() == 0 {
        0
    } else {
        all_tiles_out(players.drop_last()) + tiles_out(players.last())
    }
}

proof fn lemma_meld_draws(melds: Seq<MeldModel>)
    ensures
        checks::meld_draws(melds) == 3 * (gates::of_kind(melds, 2) + gates::of_kind(melds, 3)
            + gates::of_kind(melds, 4) + gates::of_kind(melds, 5)) + 4 * (gates::of_kind(melds, 6)
            + gates::of_kind(melds, 8)) + 2 * gates::of_kind(melds, 9),
    decreases melds.len(),
{
    if melds.len() > 0 {
        lemma_meld_draws(melds.drop_last());
    }
}

proof fn lemma_tiles_out(players: Seq<PlayerModel>)
    ensures
        checks::tiles_seen(players) == all_tiles_out(players),
    decreases players.len(),
{
    if players.len() > 0 {
        lemma_tiles_out(players.drop_last());
        lemma_meld_draws(players.last().melds);
    }
}

/// The live wall at the deal: 55 tiles for three players, 70 for four.
pub open spec fn live_wall(status: GameStatus) -> i64 {
    if status.num_players == 3 {
        55
    } else {
        70
    }
}

/// What the wall should have left: the live wall without the tiles that are out
/// and were not dealt.
pub open spec fn wall_left(players: Seq<PlayerModel>, status: GameStatus) -> int {
    live_wall(status) - (all_tiles_out(players) - 13 * status.num_players)
}

/// A wall that does not match the tiles that are out is what a snapshot is
/// refused for, with the three numbers that do not fit. A count that is missing
/// reads as minus one.
pub proof fn law_a_wrong_wall_is_refused(
    data: Json,
    status: GameStatus,
    uids: Seq<i64>,
    left: i64,
)
    requires
        gates::seats_taken(data, status, uids),
        !no_dora(data.field("hand_status"@)->0),
        reading::reads_int(
            left as int,
            data.field("hand_status"@)->0.field("left_pai_shan"@),
            -1,
        ),
        left != wall_left(restore::players_in(data, status), status),
    ensures
        refused(
            data,
            status,
            RestoreError::Wall {
                base: live_wall(status),
                draws: (all_tiles_out(restore::players_in(data, status)) - 13
                    * status.num_players) as i128,
                left,
            },
        ),
{
    gates::lemma_table_read(data, status, uids);
    lemma_tiles_out(restore::players_in(data, status));
}

/// The parts of a snapshot are there, and its wall matches.
pub open spec fn wall_holds(data: Json, status: GameStatus, uids: Seq<i64>) -> bool {
    &&& gates::seats_taken(data, status, uids)
    &&& !no_dora(data.field("hand_status"@)->0)
    &&& reading::reads_int(
        wall_left(restore::players_in(data, status), status),
        data.field("hand_status"@)->0.field("left_pai_shan"@),
        -1,
    )
}

/// The player's hand is at rest, or holds one draw in the player's own turn.
pub open spec fn hand_settled(data: Json, status: GameStatus, k: int) -> bool {
    let p = restore::players_in(data, status)[k];
    gates::held_beyond(p) == 0 || (gates::held_beyond(p) == 1 && restore::current_actor(
        data,
        status,
    ) == Some(k as u8))
}

proof fn lemma_hand_refused(players: Seq<PlayerModel>, current: Option<u8>, k: int)
    requires
        tracker::in_seat_order(players),
        players.len() <= 256,
        0 <= k < players.len(),
        forall|i: int|
            0 <= i < k ==> gates::held_beyond(#[trigger] players[i]) == 0 || (gates::held_beyond(
                players[i],
            ) == 1 && current == Some(i as u8)),
        gates::held_beyond(players[k]) != 0,
        gates::held_beyond(players[k]) == 1 ==> current != Some(k as u8),
    ensures
        checks::pending_draw(players, current) == Err::<Option<u8>, RestoreError>(
            RestoreError::HandSize {
                actor: k as u8,
                hand_n: players[k].hand_n,
                expected: (players[k].hand_n - gates::held_beyond(players[k])) as i128,
            },
        ),
    decreases players.len(),
{
    let rest = players.drop_last();
    assert forall|i: int| 0 <= i < rest.len() implies (#[trigger] rest[i]).actor == i by {
        assert(players[i].actor == i);
    }
    assert forall|i: int| 0 <= i < k implies gates::held_beyond(#[trigger] rest[i]) == 0 || (
    gates::held_beyond(rest[i]) == 1 && current == Some(i as u8)) by {
        assert(gates::held_beyond(players[i]) == 0 || gates::held_beyond(players[i]) == 1);
    }
    if k < players.len() - 1 {
        lemma_hand_refused(rest, current, k);
    } else {
        gates::lemma_pending_found(rest, current);
        gates::lemma_hand_at_rest(players[k]);
        assert(players[k].actor == k);
    }
}

/// The first hand that is neither at rest nor holds one draw in its player's
/// turn is what a snapshot is refused for, with its size and the size at rest:
/// thirteen, less three for each meld, one more for each concealed kan, and one
/// for each north.
pub proof fn law_a_wrong_hand_is_refused(
    data: Json,
    status: GameStatus,
    uids: Seq<i64>,
    k: int,
)
    requires
        wall_holds(data, status, uids),
        0 <= k < status.num_players,
        forall|i: int| 0 <= i < k ==> #[trigger] hand_settled(data, status, i),
        !hand_settled(data, status, k),
    ensures
        ({
            let p = restore::players_in(data, status)[k];
            refused(
                data,
                status,
                RestoreError::HandSize {
                    actor: k as u8,
                    hand_n: p.hand_n,
                    expected: (13 - 3 * p.melds.len() - gates::of_kind(p.melds, 8)
                        - p.kita.len()) as i128,
                },
            )
        }),
{
    let players = restore::players_in(data, status);
    gates::lemma_table_read(data, status, uids);
    lemma_tiles_out(players);
    assert forall|i: int| 0 <= i < k implies gates::held_beyond(#[trigger] players[i]) == 0 || (
    gates::held_beyond(players[i]) == 1 && restore::current_actor(data, status) == Some(
        i as u8,
    )) by {
        assert(hand_settled(data, status, i));
    }
    lemma_hand_refused(players, restore::current_actor(data, status), k);
}

/// The wall matches and every hand is settled.
pub open spec fn table_holds(data: Json, status: GameStatus, uids: Seq<i64>) -> bool {
    &&& wall_holds(data, status, uids)
    &&& forall|k: int| 0 <= k < status.num_players ==> #[trigger] hand_settled(data, status, k)
}

proof fn lemma_table_holds(data: Json, status: GameStatus, uids: Seq<i64>)
    requires
        table_holds(data, status, uids),
    ensures
        ({
            let players = restore::players_in(data, status);
            let current = restore::current_actor(data, status);
            let pending = checks::pending_draw(players, current);
            &&& players.len() == status.num_players
            &&& restore::chairs_in(data, status).len() == status.num_players
            &&& tracker::in_seat_order(players)
            &&& pending is Ok
            &&& status.seat < players.len() ==> (pending->Ok_0 == Some(status.seat)
                <==> gates::held_beyond(players[status.seat as int]) == 1)
            &&& restore::restored(data, status) == restore::restored_table(
                data,
                data.field("hand_status"@)->0,
                restore::chairs_in(data, status),
                players,
                status,
            )
            &&& restore::dora_at(data.field("hand_status"@)->0) is Some
            &&& checks::wall_tiles(status.num_players) - checks::draws(
                players,
                status.num_players,
            ) == snapshot::int_or(
                data.field("hand_status"@)->0,
                "left_pai_shan"@,
                (-1) as i64,
            )
        }),
{
    let players = restore::players_in(data, status);
    let current = restore::current_actor(data, status);
    gates::lemma_table_read(data, status, uids);
    lemma_tiles_out(players);
    assert forall|k: int| 0 <= k < players.len() implies gates::held_beyond(#[trigger] players[k])
        == 0 || (gates::held_beyond(players[k]) == 1 && current == Some(k as u8)) by {
        assert(hand_settled(data, status, k));
    }
    gates::lemma_pending_found(players, current);
    gates::lemma_pending(players, current);
    if status.seat < players.len() {
        assert(gates::held_beyond(players[status.seat as int]) == 0 || gates::held_beyond(
            players[status.seat as int],
        ) == 1);
    }
}

/// A meld of one of the kinds that there are.
pub open spec fn known_kind(m: MeldModel) -> bool {
    2 <= m.action_type <= 6 || m.action_type == 8 || m.action_type == 9
}

proof fn lemma_known_melds(melds: Seq<MeldModel>)
    requires
        forall|i: int| 0 <= i < melds.len() ==> known_kind(#[trigger] melds[i]),
    ensures
        checks::melded_tiles(melds) is Ok,
        checks::melded_tiles(melds)->Ok_0.len() == gates::tiles_known(melds),
    decreases melds.len(),
{
    if melds.len() > 0 {
        assert(known_kind(melds[melds.len() - 1]));
        assert forall|i: int| 0 <= i < melds.drop_last().len() implies known_kind(
            #[trigger] melds.drop_last()[i],
        ) by {
            assert(known_kind(melds[i]));
        }
        lemma_known_melds(melds.drop_last());
    }
}

proof fn lemma_unknown_meld(melds: Seq<MeldModel>, q: int)
    requires
        0 <= q < melds.len(),
        forall|i: int| 0 <= i < q ==> known_kind(#[trigger] melds[i]),
        !known_kind(melds[q]),
    ensures
        checks::melded_tiles(melds) is Err,
        checks::melded_tiles(melds)->Err_0 == (RestoreError::UnknownMeld {
            action_type: melds[q].action_type,
        }),
    decreases melds.len(),
{
    let rest = melds.drop_last();
    assert forall|i: int| 0 <= i < q implies known_kind(#[trigger] rest[i]) by {
        assert(known_kind(melds[i]));
    }
    if q < melds.len() - 1 {
        lemma_unknown_meld(rest, q);
    } else {
        lemma_known_melds(rest);
    }
}

/// What our own seat is refused for, in this order: no such seat at the table;
/// a held draw with other than fourteen tiles in hand; a meld of an unknown
/// kind, the first of them; and a hand that does not come to thirteen tiles at
/// the deal.
pub proof fn law_a_wrong_own_hand_is_refused(
    data: Json,
    status: GameStatus,
    uids: Seq<i64>,
    q: int,
)
    requires
        table_holds(data, status, uids),
    ensures
        status.seat >= status.num_players ==> refused(data, status, RestoreError::Seats),
        status.seat < status.num_players ==> {
            let me = restore::players_in(data, status)[status.seat as int];
            let wrong_draw = gates::held_beyond(me) == 1 && me.hand.len() != 14;
            let dealt = me.hand.len() - gates::held_beyond(me) + gates::tiles_known(me.melds)
                + me.kita.len();
            &&& wrong_draw ==> refused(
                data,
                status,
                RestoreError::OwnHand { tiles: me.hand.len() as usize },
            )
            &&& !wrong_draw && 0 <= q < me.melds.len() && !known_kind(me.melds[q]) && (forall|
                i: int,
            |
                0 <= i < q ==> known_kind(#[trigger] me.melds[i])) ==> refused(
                data,
                status,
                RestoreError::UnknownMeld { action_type: me.melds[q].action_type },
            )
            &&& !wrong_draw && dealt != 13 && (forall|i: int|
                0 <= i < me.melds.len() ==> known_kind(#[trigger] me.melds[i]))
                ==> refused(
                data,
                status,
                RestoreError::Tehai { tiles: dealt as usize },
            )
        },
{
    lemma_table_holds(data, status, uids);
    if status.seat < status.num_players {
        let me = restore::players_in(data, status)[status.seat as int];
        assert(hand_settled(data, status, status.seat as int));
        if forall|i: int| 0 <= i < me.melds.len() ==> known_kind(#[trigger] me.melds[i]) {
            lemma_known_melds(me.melds);
        }
        if 0 <= q < me.melds.len() && !known_kind(me.melds[q]) && (forall|i: int|
            0 <= i < q ==> known_kind(#[trigger] me.melds[i])) {
            lemma_unknown_meld(me.melds, q);
        }
    }
}

/// What a meld is refused for: a source that is missing or not at the table, a
/// claimed tile of no value, an unknown kind, or tiles that are missing. A
/// concealed kan has no source and needs three tiles beside its own. Every
/// sound meld is taken, and no other.
pub proof fn law_why_a_meld_is_refused(m: MeldModel, actor: u8, chairs: Seq<u8>, seat: u8)
    ensures
        ({
            let t = m.action_type;
            let sourced = m.source_roster matches Some(chair) && 0 <= chair < chairs.len();
            let claimed = if t == 9 {
                m.bu_gang
            } else {
                m.card
            };
            match replay::meld_replay(m, actor, chairs, seat) {
                Ok(_) => gates::sound_meld(m, chairs.len() as int),
                Err(e) => !gates::sound_meld(m, chairs.len() as int) && if t == 8 {
                    e is NoQuad
                } else if m.source_roster is None {
                    e is NoSource
                } else if !sourced {
                    e is SourceRange
                } else if claimed == 0 {
                    e is ZeroClaim
                } else if t == 6 {
                    e is NoTriple
                } else if 2 <= t <= 5 || t == 9 {
                    e is NoPair
                } else {
                    e == (RestoreError::UnknownMeld { action_type: t })
                },
            }
        }),
{
}

proof fn lemma_refused_among(
    melds: Seq<MeldModel>,
    actor: u8,
    chairs: Seq<u8>,
    ours: u8,
    q: int,
)
    requires
        0 <= q < melds.len(),
        forall|i: int|
            0 <= i < q ==> gates::sound_meld(#[trigger] melds[i], chairs.len() as int),
        replay::meld_replay(melds[q], actor, chairs, ours) is Err,
    ensures
        replay::melds_replay(melds, actor, chairs, ours) is Err,
        replay::melds_replay(melds, actor, chairs, ours)->Err_0 == replay::meld_replay(
            melds[q],
            actor,
            chairs,
            ours,
        )->Err_0,
    decreases melds.len(),
{
    let rest = melds.drop_last();
    assert forall|i: int| 0 <= i < q implies gates::sound_meld(
        #[trigger] rest[i],
        chairs.len() as int,
    ) by {
        assert(gates::sound_meld(melds[i], chairs.len() as int));
    }
    if q < melds.len() - 1 {
        lemma_refused_among(rest, actor, chairs, ours, q);
    } else {
        gates::lemma_sound_melds(rest, actor, chairs, ours);
    }
}

proof fn lemma_refused_claim(
    players: Seq<PlayerModel>,
    chairs: Seq<u8>,
    ours: u8,
    k: int,
    q: int,
)
    requires
        0 <= k < players.len(),
        0 <= q < players[k].melds.len(),
        forall|j: int, i: int|
            0 <= j < k && 0 <= i < players[j].melds.len() ==> gates::sound_meld(
                #[trigger] players[j].melds[i],
                chairs.len() as int,
            ),
        forall|i: int|
            0 <= i < q ==> gates::sound_meld(#[trigger] players[k].melds[i], chairs.len() as int),
        replay::meld_replay(players[k].melds[q], players[k].actor, chairs, ours) is Err,
    ensures
        replay::claims_replay(players, chairs, ours) is Err,
        replay::claims_replay(players, chairs, ours)->Err_0 == replay::meld_replay(
            players[k].melds[q],
            players[k].actor,
            chairs,
            ours,
        )->Err_0,
    decreases players.len(),
{
    let rest = players.drop_last();
    assert forall|j: int, i: int|
        0 <= j < k && 0 <= i < rest[j].melds.len() implies gates::sound_meld(
        #[trigger] rest[j].melds[i],
        chairs.len() as int,
    ) by {
        assert(gates::sound_meld(players[j].melds[i], chairs.len() as int));
    }
    if k < players.len() - 1 {
        assert(rest[k] == players[k]);
        lemma_refused_claim(rest, chairs, ours, k, q);
    } else {
        gates::lemma_sound_claims(rest, chairs, ours);
        lemma_refused_among(players[k].melds, players[k].actor, chairs, ours, q);
    }
}

/// The first meld that is not sound, in the order of the seats and of each
/// player's melds, is what a snapshot is refused for.
pub proof fn law_the_first_wrong_meld_is_refused(
    data: Json,
    status: GameStatus,
    uids: Seq<i64>,
    k: int,
    q: int,
)
    requires
        table_holds(data, status, uids),
        status.seat < status.num_players,
        0 <= k < status.num_players,
        ({
            let players = restore::players_in(data, status);
            let me = players[status.seat as int];
            let n = status.num_players as int;
            &&& gates::held_beyond(me) == 1 ==> me.hand.len() == 14
            &&& forall|i: int| 0 <= i < me.melds.len() ==> known_kind(#[trigger] me.melds[i])
            &&& me.hand.len() - gates::held_beyond(me) + gates::tiles_known(me.melds)
                + me.kita.len() == 13
            &&& 0 <= q < players[k].melds.len()
            &&& !gates::sound_meld(players[k].melds[q], n)
            &&& forall|i: int|
                0 <= i < q ==> gates::sound_meld(#[trigger] players[k].melds[i], n)
            &&& forall|j: int, i: int|
                0 <= j < k && 0 <= i < players[j].melds.len() ==> gates::sound_meld(
                    #[trigger] players[j].melds[i],
                    n,
                )
        }),
    ensures
        restore::restored(data, status) is Err,
        replay::meld_replay(
            restore::players_in(data, status)[k].melds[q],
            k as u8,
            restore::chairs_in(data, status),
            status.seat,
        ) == Err::<Seq<EventModel>, RestoreError>(restore::restored(data, status)->Err_0),
{
    let players = restore::players_in(data, status);
    let chairs = restore::chairs_in(data, status);
    let me = players[status.seat as int];
    lemma_table_holds(data, status, uids);
    assert(hand_settled(data, status, status.seat as int));
    lemma_known_melds(me.melds);
    assert(players[k].actor == k);
    law_why_a_meld_is_refused(players[k].melds[q], k as u8, chairs, status.seat);
    lemma_refused_claim(players, chairs, status.seat, k, q);
}

/// A refusal names its numbers in words, each where it belongs.
pub proof fn law_refusals_name_their_numbers(
    uid: i64,
    base: i64,
    draws: i128,
    left: i64,
    actor: u8,
    tiles: usize,
)
    ensures
        restore::refusal_text(RestoreError::UnknownUid { uid }) == "uid "@ + text::int_text(
            uid as int,
        ) + " not in the rotated roster"@,
        restore::refusal_text(RestoreError::Wall { base, draws, left })
            == "wall arithmetic mismatch: "@ + text::int_text(base as int) + " - "@
            + text::int_text(draws as int) + " draws != "@ + text::int_text(left as int),
        restore::refusal_text(RestoreError::HandSize { actor, hand_n: left, expected: draws })
            == "actor "@ + text::int_text(actor as int) + " hand is "@ + text::int_text(left as int)
            + " tiles, expected "@ + text::int_text(draws as int),
        restore::refusal_text(RestoreError::OwnHand { tiles }) == "our hand_cards is "@
            + text::int_text(tiles as int) + " tiles with a pending draw, not 14"@,
        restore::refusal_text(RestoreError::Tehai { tiles }) == "our reconstructed tehai is "@
            + text::int_text(tiles as int) + " tiles, not 13"@,
        restore::refusal_text(RestoreError::UnknownMeld { action_type: left })
            == "unknown meld action_type "@ + text::int_text(left as int),
{
}

/// What the refusals without a number say.
pub proof fn law_refusals_say_what_is_missing()
    ensures
        restore::refusal_text(RestoreError::NoHandStatus) == "no hand_status"@,
        restore::refusal_text(RestoreError::PlayersList) == "players list missing or wrong length"@,
        restore::refusal_text(RestoreError::NoUserId) == "player without user_id"@,
        restore::refusal_text(RestoreError::Seats) == "duplicate or missing seats after rotation"@,
        restore::refusal_text(RestoreError::NoDora) == "no dora indicator"@,
        restore::refusal_text(RestoreError::NoSource) == "meld without a source position"@,
        restore::refusal_text(RestoreError::SourceRange) == "meld source position out of range"@,
        restore::refusal_text(RestoreError::ZeroClaim) == "meld with a zero claimed tile"@,
        restore::refusal_text(RestoreError::NoPair) == "meld without its from-hand tiles"@,
        restore::refusal_text(RestoreError::NoTriple) == "daiminkan without its from-hand tiles"@,
        restore::refusal_text(RestoreError::NoQuad) == "ankan without four tiles"@,
{
}

} // verus!
