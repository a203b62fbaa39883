//! When a snapshot is restored, and the draws of a restored stream.
use crate::events::EventModel;
use crate::json::Json;
use crate::restore;
use crate::restore::checks;
use crate::restore::reading;
use crate::restore::replay;
use crate::restore::snapshot;
use crate::restore::snapshot::{GameStatus, MeldModel, PlayerModel};
use crate::restore::tracker;
use crate::tiles;
use vstd::prelude::*;

verus! {

/// How many melds are of a kind.
pub open spec fn of_kind(melds: Seq<MeldModel>, action_type: i64) -> int
    decreases melds.len(),
{
    if melds.len() == 0 {
        0
    } else {
        of_kind(melds.drop_last(), action_type) + if melds.last().action_type == action_type {
            1int
        } else {
            0
        }
    }
}

/// How many tiles a player holds beyond a hand at rest: thirteen, less three
/// for each meld, one more for each concealed kan, and one for each north.
pub open spec fn held_beyond(p: PlayerModel) -> int {
    p.hand_n - (13 - 3 * p.melds.len() - of_kind(p.melds, 8) - p.kita.len())
}

pub proof fn lemma_hand_at_rest(p: PlayerModel)
    ensures
        p.hand_n - checks::hand_at_rest(p) == held_beyond(p),
{
    lemma_meld_cost(p.melds);
}

proof fn lemma_meld_cost(melds: Seq<MeldModel>)
    ensures
        checks::meld_cost(melds) == 3 * melds.len() + of_kind(melds, 8),
    decreases melds.len(),
{
    if melds.len() > 0 {
        lemma_meld_cost(melds.drop_last());
    }
}

/// Who holds a draw is the one player who holds a tile beyond a hand at rest.
pub proof fn lemma_pending(players: Seq<PlayerModel>, current: Option<u8>)
    requires
        checks::pending_draw(players, current) is Ok,
        tracker::in_seat_order(players),
    ensures
        forall|k: int|
            0 <= k < players.len() ==> {
                &&& held_beyond(#[trigger] players[k]) == 0 || held_beyond(players[k]) == 1
                &&& held_beyond(players[k]) == 1 <==> checks::pending_draw(players, current)->Ok_0
                    == Some(k as u8)
                &&& held_beyond(players[k]) == 1 ==> current == Some(k as u8)
            },
        checks::pending_draw(players, current)->Ok_0 matches Some(a) ==> a < players.len()
            && current == Some(a),
    decreases players.len(),
{
    if players.len() > 0 {
        let rest = players.drop_last();
        let p = players.last();
        assert(p == players[players.len() - 1]);
        assert forall|i: int| 0 <= i < rest.len() implies (#[trigger] rest[i]).actor == i by {
            assert(players[i].actor == i);
        }
        lemma_pending(rest, current);
        lemma_hand_at_rest(p);
        assert forall|k: int| 0 <= k < players.len() implies {
            &&& held_beyond(#[trigger] players[k]) == 0 || held_beyond(players[k]) == 1
            &&& held_beyond(players[k]) == 1 <==> checks::pending_draw(players, current)->Ok_0
                == Some(k as u8)
            &&& held_beyond(players[k]) == 1 ==> current == Some(k as u8)
        } by {
            if k < rest.len() {
                assert(rest[k] == players[k]);
            }
        }
    }
}

pub proof fn lemma_pending_found(players: Seq<PlayerModel>, current: Option<u8>)
    requires
        tracker::in_seat_order(players),
        forall|k: int|
            0 <= k < players.len() ==> held_beyond(#[trigger] players[k]) == 0 || (held_beyond(
                players[k],
            ) == 1 && current == Some(k as u8)),
        players.len() <= 256,
    ensures
        checks::pending_draw(players, current) is Ok,
    decreases players.len(),
{
    if players.len() > 0 {
        let rest = players.drop_last();
        let p = players[players.len() - 1];
        assert forall|i: int| 0 <= i < rest.len() implies (#[trigger] rest[i]).actor == i by {
            assert(players[i].actor == i);
        }
        assert forall|k: int| 0 <= k < rest.len() implies held_beyond(#[trigger] rest[k]) == 0 || (
        held_beyond(rest[k]) == 1 && current == Some(k as u8)) by {
            assert(held_beyond(players[k]) == 0 || held_beyond(players[k]) == 1);
        }
        lemma_pending_found(rest, current);
        lemma_hand_at_rest(p);
        assert(held_beyond(p) == 0 || held_beyond(p) == 1);
        assert(p.actor == players.len() - 1);
    }
}

/// Every hand of a restored snapshot is at rest, but that the player whose turn
/// it is may hold one tile more. Where a player does, the stream ends with that
/// player's draw, and it is said to be ours exactly where it is.
pub proof fn law_the_extra_tile_is_the_pending_draw(data: Json, status: GameStatus, k: int)
    requires
        restore::restored(data, status) is Ok,
        0 <= k < restore::players_in(data, status).len(),
    ensures
        ({
            let o = restore::restored(data, status)->Ok_0;
            let p = restore::players_in(data, status)[k];
            &&& held_beyond(p) == 0 || held_beyond(p) == 1
            &&& held_beyond(p) == 1 ==> restore::current_actor(data, status) == Some(k as u8)
            &&& held_beyond(p) == 1 ==> match o.events.last() {
                EventModel::Tsumo { actor, pai } => {
                    &&& actor == k
                    &&& k != status.seat ==> pai == seq!['?']
                    &&& k == status.seat ==> pai == tiles::card_text(p.hand.last())
                },
                _ => false,
            }
            &&& k == status.seat ==> (o.own_pending_draw <==> held_beyond(p) == 1)
        }),
{
    let players = restore::players_in(data, status);
    tracker::lemma_players_in_seat_order(data, status);
    lemma_pending(players, restore::current_actor(data, status));
    assert(held_beyond(players[k]) == 0 || held_beyond(players[k]) == 1);
}

/// 1 for a draw of a seat, -1 for a discard of it.
pub open spec fn turn_change(e: EventModel, seat: u8) -> int {
    match e {
        EventModel::Tsumo { actor, .. } if actor == seat => 1,
        EventModel::Dahai { actor, .. } if actor == seat => -1,
        _ => 0,
    }
}

/// How many more draws than discards of a seat a stream holds.
pub open spec fn draws_over(events: Seq<EventModel>, seat: u8) -> int
    decreases events.len(),
{
    if events.len() == 0 {
        0
    } else {
        draws_over(events.drop_last(), seat) + turn_change(events.last(), seat)
    }
}

proof fn lemma_over_concat(a: Seq<EventModel>, b: Seq<EventModel>, seat: u8)
    ensures
        draws_over(a + b, seat) == draws_over(a, seat) + draws_over(b, seat),
    decreases b.len(),
{
    if b.len() == 0 {
        assert(a + b =~= a);
    } else {
        lemma_over_concat(a, b.drop_last(), seat);
        assert((a + b).drop_last() =~= a + b.drop_last());
    }
}

proof fn lemma_over_one(e: EventModel, seat: u8)
    ensures
        draws_over(seq![e], seat) == turn_change(e, seat),
{
    assert(seq![e].drop_last() =~= Seq::empty());
    reveal_with_fuel(draws_over, 2);
}

proof fn lemma_over_turn(actor: u8, tile: u32, tsumogiri: bool, ours: u8, seat: u8)
    ensures
        draws_over(replay::turn(actor, tile, tsumogiri, ours), seat) == 0,
{
    let s = replay::turn(actor, tile, tsumogiri, ours);
    lemma_over_one(s[0], seat);
    lemma_over_one(s[1], seat);
    lemma_over_concat(seq![s[0]], seq![s[1]], seat);
    assert(seq![s[0]] + seq![s[1]] =~= s);
}

proof fn lemma_over_rinshan(actor: u8, ours: u8, seat: u8)
    ensures
        draws_over(replay::rinshan(actor, ours), seat) == if actor == seat && actor != ours {
            1int
        } else {
            0
        },
{
    if actor != ours {
        lemma_over_one(replay::rinshan(actor, ours)[0], seat);
        assert(seq![replay::rinshan(actor, ours)[0]] =~= replay::rinshan(actor, ours));
    }
}

/// How many of a player's melds are kans.
pub open spec fn kans(melds: Seq<MeldModel>) -> int {
    of_kind(melds, 6) + of_kind(melds, 8) + of_kind(melds, 9)
}

proof fn lemma_over_melds(
    melds: Seq<MeldModel>,
    actor: u8,
    chairs: Seq<u8>,
    ours: u8,
    seat: u8,
)
    requires
        replay::melds_replay(melds, actor, chairs, ours) is Ok,
    ensures
        draws_over(replay::melds_replay(melds, actor, chairs, ours)->Ok_0, seat) == if actor == seat
            && actor != ours {
            kans(melds)
        } else {
            0
        },
    decreases melds.len(),
{
    if melds.len() > 0 {
        let m = melds.last();
        let before = replay::melds_replay(melds.drop_last(), actor, chairs, ours)->Ok_0;
        let last = replay::meld_replay(m, actor, chairs, ours)->Ok_0;
        lemma_over_melds(melds.drop_last(), actor, chairs, ours, seat);
        lemma_over_concat(before, last, seat);
        match replay::meld_source(m, chairs)->Ok_0 {
            None => lemma_over_meld_events(m, actor, actor, ours, seat),
            Some(source) => {
                let tile = replay::claimed_tile(m);
                lemma_over_turn(source, tile, false, ours, seat);
                lemma_over_meld_events(m, actor, source, ours, seat);
                lemma_over_concat(
                    replay::turn(source, tile, false, ours),
                    replay::meld_events(m, actor, source, ours)->Ok_0,
                    seat,
                );
            },
        }
    }
}

proof fn lemma_over_meld_events(m: MeldModel, actor: u8, target: u8, ours: u8, seat: u8)
    requires
        replay::meld_events(m, actor, target, ours) is Ok,
    ensures
        draws_over(replay::meld_events(m, actor, target, ours)->Ok_0, seat) == if actor == seat
            && actor != ours && (m.action_type == 6 || m.action_type == 8 || m.action_type == 9) {
            1int
        } else {
            0
        },
{
    let s = replay::meld_events(m, actor, target, ours)->Ok_0;
    let rinshan = replay::rinshan(actor, ours);
    lemma_over_one(s[0], seat);
    lemma_over_rinshan(actor, ours, seat);
    if m.action_type == 6 || m.action_type == 8 {
        lemma_over_concat(seq![s[0]], rinshan, seat);
    } else if m.action_type == 9 {
        lemma_over_one(s[1], seat);
        lemma_over_concat(seq![s[0]], seq![s[1]], seat);
        assert(seq![s[0]] + seq![s[1]] =~= seq![s[0], s[1]]);
        lemma_over_concat(seq![s[0], s[1]], rinshan, seat);
    } else {
        assert(s =~= seq![s[0]]);
    }
}

proof fn lemma_over_kita(count: nat, actor: u8, ours: u8, seat: u8)
    ensures
        draws_over(replay::kita_replay(count, actor, ours), seat) == if actor == seat && actor
            != ours {
            count as int
        } else {
            0
        },
    decreases count,
{
    if count > 0 {
        let before = replay::kita_replay((count - 1) as nat, actor, ours);
        let kita = EventModel::Kita { actor, pai: Some(checks::north()) };
        lemma_over_kita((count - 1) as nat, actor, ours, seat);
        lemma_over_one(kita, seat);
        lemma_over_rinshan(actor, ours, seat);
        lemma_over_concat(before, seq![kita], seat);
        lemma_over_concat(before + seq![kita], replay::rinshan(actor, ours), seat);
    }
}

proof fn lemma_over_claims(players: Seq<PlayerModel>, chairs: Seq<u8>, ours: u8, seat: u8)
    requires
        replay::claims_replay(players, chairs, ours) is Ok,
        tracker::in_seat_order(players),
    ensures
        draws_over(replay::claims_replay(players, chairs, ours)->Ok_0, seat) == if seat
            < players.len() && seat != ours {
            kans(players[seat as int].melds) + players[seat as int].kita.len()
        } else {
            0
        },
        draws_over(replay::rivers_replay(players, ours), seat) == 0,
    decreases players.len(),
{
    if players.len() > 0 {
        let p = players.last();
        let rest = players.drop_last();
        assert(p == players[players.len() - 1]);
        assert forall|i: int| 0 <= i < rest.len() implies (#[trigger] rest[i]).actor == i by {
            assert(players[i].actor == i);
        }
        let before = replay::claims_replay(rest, chairs, ours)->Ok_0;
        let melds = replay::melds_replay(p.melds, p.actor, chairs, ours)->Ok_0;
        let kita = replay::kita_replay(p.kita.len(), p.actor, ours);
        lemma_over_claims(rest, chairs, ours, seat);
        lemma_over_melds(p.melds, p.actor, chairs, ours, seat);
        lemma_over_kita(p.kita.len(), p.actor, ours, seat);
        lemma_over_concat(before, melds, seat);
        lemma_over_concat(before + melds, kita, seat);
        lemma_over_river(p, p.river.len(), ours, seat);
        lemma_over_concat(
            replay::rivers_replay(rest, ours),
            replay::river_replay(p, p.river.len(), ours),
            seat,
        );
    }
}

proof fn lemma_over_river(p: PlayerModel, count: nat, ours: u8, seat: u8)
    ensures
        draws_over(replay::river_replay(p, count, ours), seat) == 0,
    decreases count,
{
    if count > 0 {
        let i = count - 1;
        let before = replay::river_replay(p, i as nat, ours);
        let reach = EventModel::Reach { actor: p.actor, pai: None };
        let last = replay::turn(p.actor, p.river[i], p.riichi && i > p.riichi_pos, ours);
        lemma_over_river(p, i as nat, ours, seat);
        lemma_over_concat(before, replay::river_turn(p, i, ours), seat);
        lemma_over_one(reach, seat);
        lemma_over_turn(p.actor, p.river[i], p.riichi && i > p.riichi_pos, ours, seat);
        lemma_over_concat(seq![reach], last, seat);
        assert(Seq::<EventModel>::empty() + last =~= last);
    }
}

/// Every discard has its draw, and a player draws more often than that only for
/// a held draw and, in other seats than ours, for each kan and each north: our
/// own replacements are in the hand that the snapshot names.
pub proof fn law_every_discard_has_its_draw(data: Json, status: GameStatus, k: int)
    requires
        restore::restored(data, status) is Ok,
        0 <= k < restore::players_in(data, status).len(),
    ensures
        ({
            let p = restore::players_in(data, status)[k];
            draws_over(restore::restored(data, status)->Ok_0.events, k as u8) == held_beyond(p)
                + if k == status.seat {
                0
            } else {
                kans(p.melds) + p.kita.len()
            }
        }),
{
    let o = restore::restored(data, status)->Ok_0;
    let ours = status.seat;
    let seat = k as u8;
    let players = restore::players_in(data, status);
    let chairs = restore::chairs_in(data, status);
    let current = restore::current_actor(data, status);
    let claimed = replay::claims_replay(players, chairs, ours)->Ok_0;
    let rivers = replay::rivers_replay(players, ours);
    let first = seq![o.events[0]];
    let replayed = first + claimed + rivers;
    let pending = o.events.skip(replayed.len() as int);
    assert(o.events =~= replayed + pending);
    tracker::lemma_players_in_seat_order(data, status);
    lemma_pending(players, current);
    assert(held_beyond(players[k]) == 0 || held_beyond(players[k]) == 1);
    lemma_over_one(o.events[0], seat);
    lemma_over_claims(players, chairs, ours, seat);
    lemma_over_concat(first, claimed, seat);
    lemma_over_concat(first + claimed, rivers, seat);
    lemma_over_concat(replayed, pending, seat);
    if pending.len() > 0 {
        lemma_over_one(pending[0], seat);
        assert(pending =~= seq![pending[0]]);
    }
}

/// A meld that can be replayed at a table of this many chairs.
pub open spec fn sound_meld(m: MeldModel, chairs: int) -> bool {
    if m.action_type == 8 {
        m.group.len() == 3
    } else {
        &&& m.source_roster matches Some(chair)
        &&& 0 <= chair < chairs
        &&& if m.action_type == 6 {
            m.group.len() >= 3 && m.card != 0
        } else if m.action_type == 9 {
            m.group.len() >= 2 && m.bu_gang != 0
        } else {
            2 <= m.action_type <= 5 && m.group.len() >= 2 && m.card != 0
        }
    }
}

/// How many tiles a meld adds to what is known of our hand at the deal.
pub open spec fn tiles_known(melds: Seq<MeldModel>) -> int
    decreases melds.len(),
{
    if melds.len() == 0 {
        0
    } else {
        tiles_known(melds.drop_last()) + melds.last().group.len() + if melds.last().action_type >= 8 {
            1int
        } else {
            0
        }
    }
}

pub proof fn lemma_sound_melds(
    melds: Seq<MeldModel>,
    actor: u8,
    chairs: Seq<u8>,
    ours: u8,
)
    requires
        forall|i: int|
            0 <= i < melds.len() ==> sound_meld(#[trigger] melds[i], chairs.len() as int),
    ensures
        replay::melds_replay(melds, actor, chairs, ours) is Ok,
        checks::melded_tiles(melds) is Ok,
        checks::melded_tiles(melds)->Ok_0.len() == tiles_known(melds),
    decreases melds.len(),
{
    if melds.len() > 0 {
        let rest = melds.drop_last();
        assert forall|i: int| 0 <= i < rest.len() implies sound_meld(
            #[trigger] rest[i],
            chairs.len() as int,
        ) by {
            assert(sound_meld(melds[i], chairs.len() as int));
        }
        lemma_sound_melds(rest, actor, chairs, ours);
        assert(sound_meld(melds[melds.len() - 1], chairs.len() as int));
    }
}

pub proof fn lemma_sound_claims(players: Seq<PlayerModel>, chairs: Seq<u8>, ours: u8)
    requires
        forall|k: int, i: int|
            0 <= k < players.len() && 0 <= i < players[k].melds.len() ==> sound_meld(
                #[trigger] players[k].melds[i],
                chairs.len() as int,
            ),
    ensures
        replay::claims_replay(players, chairs, ours) is Ok,
    decreases players.len(),
{
    if players.len() > 0 {
        let rest = players.drop_last();
        let p = players[players.len() - 1];
        assert forall|k: int, i: int|
            0 <= k < rest.len() && 0 <= i < rest[k].melds.len() implies sound_meld(
            #[trigger] rest[k].melds[i],
            chairs.len() as int,
        ) by {
            assert(sound_meld(players[k].melds[i], chairs.len() as int));
        }
        lemma_sound_claims(rest, chairs, ours);
        assert forall|i: int| 0 <= i < p.melds.len() implies sound_meld(
            #[trigger] p.melds[i],
            chairs.len() as int,
        ) by {
            assert(sound_meld(players[players.len() - 1].melds[i], chairs.len() as int));
        }
        lemma_sound_melds(p.melds, p.actor, chairs, ours);
    }
}

/// What a sound table is: a dora marker, a wall that matches the discards, the
/// kans and a held draw, hands at rest but for the one held draw, melds that
/// can be replayed, and an own hand that adds up to thirteen tiles.
pub open spec fn sound_table(
    data: Json,
    hs: Json,
    players: Seq<PlayerModel>,
    status: GameStatus,
) -> bool {
    let current = restore::current_actor(data, status);
    let me = players[status.seat as int];
    let holder = exists|k: int| 0 <= k < players.len() && held_beyond(#[trigger] players[k]) == 1;
    &&& hs.field("bao_pai_list"@) matches Some(Json::Array(doras))
    &&& doras@.len() > 0
    &&& doras@[0] matches Json::Int(dora)
    &&& dora != 0
    &&& hs.field("left_pai_shan"@) matches Some(Json::Int(left))
    &&& left == (if status.num_players == 3 {
        55int
    } else {
        70
    }) - tracker::turns_taken(players) - (if holder {
        1int
    } else {
        0
    })
    &&& forall|k: int|
        0 <= k < players.len() ==> held_beyond(#[trigger] players[k]) == 0 || (held_beyond(
            players[k],
        ) == 1 && current == Some(k as u8))
    &&& forall|k: int, i: int|
        0 <= k < players.len() && 0 <= i < players[k].melds.len() ==> sound_meld(
            #[trigger] players[k].melds[i],
            players.len() as int,
        )
    &&& me.hand.len() + tiles_known(me.melds) + me.kita.len() == 13 + held_beyond(me)
    &&& held_beyond(me) == 1 ==> me.hand.len() == 14
}

proof fn lemma_roster_read(list: Seq<Json>, status: GameStatus, uids: Seq<i64>)
    requires
        reading::names_users(list, uids),
        forall|l: int| 0 <= l < uids.len() ==> status.actor(#[trigger] uids[l]) is Some,
    ensures
        snapshot::roster_at(list, status) is Ok,
        snapshot::roster_at(list, status)->Ok_0.len() == list.len(),
        forall|l: int|
            0 <= l < list.len() ==> (#[trigger] snapshot::roster_at(list, status)->Ok_0[l]).actor
                == status.actor(uids[l])->0,
    decreases list.len(),
{
    if list.len() > 0 {
        let rest = list.drop_last();
        let fewer = uids.drop_last();
        assert forall|l: int| 0 <= l < rest.len() implies reading::names_user(
            rest[l],
            #[trigger] fewer[l],
        ) by {
            assert(reading::names_user(list[l], uids[l]));
        }
        assert forall|l: int| 0 <= l < fewer.len() implies status.actor(
            #[trigger] fewer[l],
        ) is Some by {
            assert(status.actor(uids[l]) is Some);
        }
        assert(fewer.no_duplicates()) by {
            assert forall|i: int, j: int|
                0 <= i < fewer.len() && 0 <= j < fewer.len() && i != j implies fewer[i]
                != fewer[j] by {
                assert(uids[i] != uids[j]);
            }
        }
        lemma_roster_read(rest, status, fewer);
        let last = uids[uids.len() - 1];
        assert(reading::names_user(list[list.len() - 1], last));
        reading::lemma_user_id(list.last(), last);
        assert(status.actor(last) is Some);
        let roster = snapshot::roster_at(list, status)->Ok_0;
        let before = snapshot::roster_at(rest, status)->Ok_0;
        assert forall|l: int| 0 <= l < list.len() implies (#[trigger] roster[l]).actor
            == status.actor(uids[l])->0 by {
            if l < rest.len() {
                assert(roster[l] == before[l]);
                assert(fewer[l] == uids[l]);
            }
        }
    }
}

pub proof fn lemma_seat_taken(roster: Seq<PlayerModel>, l: int)
    requires
        0 <= l < roster.len(),
    ensures
        snapshot::seated(roster, roster[l].actor as int) is Some,
        roster[l].actor < snapshot::seat_count(roster),
    decreases roster.len(),
{
    if l < roster.len() - 1 {
        lemma_seat_taken(roster.drop_last(), l);
    }
}

proof fn lemma_seats_bounded(roster: Seq<PlayerModel>, n: int)
    requires
        0 <= n,
        forall|l: int| 0 <= l < roster.len() ==> (#[trigger] roster[l]).actor < n,
    ensures
        snapshot::seat_count(roster) <= n,
    decreases roster.len(),
{
    if roster.len() > 0 {
        let rest = roster.drop_last();
        assert forall|l: int| 0 <= l < rest.len() implies (#[trigger] rest[l]).actor < n by {
            assert(roster[l].actor < n);
        }
        lemma_seats_bounded(rest, n);
        assert(roster[roster.len() - 1].actor < n);
    }
}

/// The roster names each player of the seat order once, and there are as many
/// as the game has.
pub open spec fn seats_taken(data: Json, status: GameStatus, uids: Seq<i64>) -> bool {
    &&& data.field("hand_status"@) is Some
    &&& !(data.field("hand_status"@)->0 is Null)
    &&& data.field("players"@) matches Some(Json::Array(v))
    &&& reading::names_users(v@, uids)
    &&& 0 < uids.len() == status.num_players
    &&& status.player_list@.len() == status.num_players
    &&& status.player_list@.no_duplicates()
    &&& forall|l: int| 0 <= l < uids.len() ==> status.player_list@.contains(#[trigger] uids[l])
    &&& forall|k: int|
        0 <= k < status.player_list@.len() ==> uids.contains(#[trigger] status.player_list@[k])
}

pub proof fn lemma_table_read(data: Json, status: GameStatus, uids: Seq<i64>)
    requires
        seats_taken(data, status, uids),
    ensures
        snapshot::table_at(data.field("players"@)->0->Array_0@, status) is Ok,
        restore::players_in(data, status).len() == status.num_players,
        restore::chairs_in(data, status).len() == status.num_players,
        tracker::in_seat_order(restore::players_in(data, status)),
{
    let list = data.field("players"@)->0->Array_0@;
    let n = status.num_players as int;
    assert forall|l: int| 0 <= l < uids.len() implies status.actor(#[trigger] uids[l]) is Some
        && status.actor(uids[l])->0 < n by {
        let seat = choose|k: int|
            0 <= k < status.player_list@.len() && status.player_list@[k] == uids[l];
        assert(reading::sits_at(status, uids[l], seat)) by {
            assert forall|i: int| 0 <= i < seat implies #[trigger] status.player_list@[i]
                != uids[l] by {}
        }
        reading::law_users_sit_in_seat_order(status, uids[l], seat);
    }
    lemma_roster_read(list, status, uids);
    let roster = snapshot::roster_at(list, status)->Ok_0;
    assert forall|l: int| 0 <= l < roster.len() implies (#[trigger] roster[l]).actor < n by {
        assert(status.actor(uids[l]) is Some);
    }
    lemma_seats_bounded(roster, n);
    assert forall|k: int| 0 <= k < n implies #[trigger] snapshot::seated(roster, k) is Some && k
        < snapshot::seat_count(roster) by {
        let uid = status.player_list@[k];
        assert(uids.contains(uid));
        let l = choose|l: int| 0 <= l < uids.len() && uids[l] == uid;
        assert(reading::sits_at(status, uid, k)) by {
            assert forall|i: int| 0 <= i < k implies #[trigger] status.player_list@[i] != uid by {}
        }
        reading::law_users_sit_in_seat_order(status, uid, k);
        assert(roster[l].actor == k);
        lemma_seat_taken(roster, l);
    }
    assert(snapshot::seated(roster, n - 1) is Some);
    assert(snapshot::seat_count(roster) == n);
    let players = restore::players_in(data, status);
    assert forall|i: int| 0 <= i < players.len() implies (#[trigger] players[i]).actor == i by {
        assert(snapshot::seated(roster, i) is Some);
        snapshot::lemma_seated_actor(roster, i);
    }
}

/// A sound snapshot is restored: one that names each player of the seat order
/// once, has our seat at the table, and describes a sound table.
pub proof fn law_sound_snapshots_are_restored(data: Json, status: GameStatus, uids: Seq<i64>)
    requires
        seats_taken(data, status, uids),
        status.seat < status.num_players,
        sound_table(
            data,
            data.field("hand_status"@)->0,
            restore::players_in(data, status),
            status,
        ),
    ensures
        restore::restored(data, status) is Ok,
        restore::players_in(data, status).len() == status.num_players,
{
    let players = restore::players_in(data, status);
    let chairs = restore::chairs_in(data, status);
    lemma_table_read(data, status, uids);
    let current = restore::current_actor(data, status);
    lemma_pending_found(players, current);
    lemma_pending(players, current);
    lemma_sound_claims(players, chairs, status.seat);
    tracker::lemma_tiles_seen(players, chairs, status.seat, current);
    let me = players[status.seat as int];
    assert forall|i: int| 0 <= i < me.melds.len() implies sound_meld(
        #[trigger] me.melds[i],
        chairs.len() as int,
    ) by {
        assert(sound_meld(players[status.seat as int].melds[i], players.len() as int));
    }
    lemma_sound_melds(me.melds, status.seat, chairs, status.seat);
    assert(held_beyond(me) == 0 || held_beyond(me) == 1);
    let pending = checks::pending_draw(players, current)->Ok_0;
    if let Some(a) = pending {
        assert(held_beyond(players[a as int]) == 1);
    }
    assert(pending is Some <==> exists|k: int|
        0 <= k < players.len() && held_beyond(#[trigger] players[k]) == 1);
    assert(checks::own_hand(me, pending == Some(status.seat)) is Ok);
}

} // verus!
