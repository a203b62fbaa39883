//! The order of a restored stream.
use crate::events::EventModel;
use crate::json::Json;
use crate::restore;
use crate::restore::checks;
use crate::restore::replay;
use crate::restore::snapshot::{GameStatus, MeldModel, PlayerModel};
use crate::restore::tracker;
use crate::tiles;
use vstd::prelude::*;

verus! {

/// The rank of a meld or a north in the stream: by seat, and a player's melds
/// before the player's norths. `None` for any other event.
pub open spec fn call_rank(e: EventModel) -> Option<int> {
    match e {
        EventModel::Chi { actor, .. } => Some(2 * actor),
        EventModel::Pon { actor, .. } => Some(2 * actor),
        EventModel::Daiminkan { actor, .. } => Some(2 * actor),
        EventModel::Ankan { actor, .. } => Some(2 * actor),
        EventModel::Kakan { actor, .. } => Some(2 * actor),
        EventModel::Kita { actor, .. } => Some(2 * actor + 1),
        _ => None,
    }
}

/// A north that is set aside names the tile.
pub open spec fn names_the_north(e: EventModel) -> bool {
    match e {
        EventModel::Kita { pai, .. } => pai == Some(seq!['N']),
        _ => true,
    }
}

/// An event of the replayed calls: a call, or a draw, or a discard.
pub open spec fn of_calls(e: EventModel) -> bool {
    (call_rank(e) is Some || e is Tsumo || e is Dahai) && names_the_north(e)
}

/// Calls come in the order of their ranks, which lie in this range.
spec fn ranked(events: Seq<EventModel>, low: int, high: int) -> bool {
    &&& forall|i: int| 0 <= i < events.len() ==> of_calls(#[trigger] events[i])
    &&& forall|i: int|
        0 <= i < events.len() ==> (call_rank(#[trigger] events[i]) matches Some(r) ==> low <= r
            < high)
    &&& forall|i: int, j: int|
        #![trigger events[i], events[j]]
        0 <= i < j < events.len() && call_rank(events[i]) is Some && call_rank(events[j]) is Some
            ==> call_rank(events[i])->0 <= call_rank(events[j])->0
}

proof fn lemma_ranked_concat(
    a: Seq<EventModel>,
    b: Seq<EventModel>,
    low: int,
    middle: int,
    high: int,
)
    requires
        low <= middle <= high,
        ranked(a, low, middle),
        ranked(b, middle, high),
    ensures
        ranked(a + b, low, high),
{
    let all = a + b;
    assert forall|i: int| 0 <= i < all.len() implies of_calls(#[trigger] all[i]) && (call_rank(
        all[i],
    ) matches Some(r) ==> low <= r < high) by {
        if i < a.len() {
            assert(all[i] == a[i]);
        } else {
            assert(all[i] == b[i - a.len()]);
        }
    }
    assert forall|i: int, j: int|
        #![trigger all[i], all[j]]
        0 <= i < j < all.len() && call_rank(all[i]) is Some && call_rank(
            all[j],
        ) is Some implies call_rank(all[i])->0 <= call_rank(all[j])->0 by {
        if j < a.len() {
            assert(all[i] == a[i] && all[j] == a[j]);
        } else if i < a.len() {
            assert(all[i] == a[i] && all[j] == b[j - a.len()]);
        } else {
            assert(all[i] == b[i - a.len()] && all[j] == b[j - a.len()]);
        }
    }
}

/// Events of calls of one rank are ranked, in any number.
proof fn lemma_ranked_more(a: Seq<EventModel>, b: Seq<EventModel>, rank: int)
    requires
        ranked(a, rank, rank + 1),
        ranked(b, rank, rank + 1),
    ensures
        ranked(a + b, rank, rank + 1),
{
    let all = a + b;
    assert forall|i: int| 0 <= i < all.len() implies of_calls(#[trigger] all[i]) && (call_rank(
        all[i],
    ) matches Some(r) ==> rank <= r < rank + 1) by {
        if i < a.len() {
            assert(all[i] == a[i]);
        } else {
            assert(all[i] == b[i - a.len()]);
        }
    }
}

proof fn lemma_meld_ranked(m: MeldModel, actor: u8, chairs: Seq<u8>, ours: u8)
    requires
        replay::meld_replay(m, actor, chairs, ours) is Ok,
    ensures
        ranked(replay::meld_replay(m, actor, chairs, ours)->Ok_0, 2 * actor, 2 * actor + 1),
{
    let part = replay::meld_replay(m, actor, chairs, ours)->Ok_0;
    assert forall|i: int| 0 <= i < part.len() implies of_calls(#[trigger] part[i]) && (call_rank(
        part[i],
    ) matches Some(r) ==> 2 * actor <= r < 2 * actor + 1) by {
        if m.action_type != 8 {
            assert(i < 2 ==> part[i] is Tsumo || part[i] is Dahai);
        }
    }
}

proof fn lemma_melds_ranked(melds: Seq<MeldModel>, actor: u8, chairs: Seq<u8>, ours: u8)
    requires
        replay::melds_replay(melds, actor, chairs, ours) is Ok,
    ensures
        ranked(replay::melds_replay(melds, actor, chairs, ours)->Ok_0, 2 * actor, 2 * actor + 1),
    decreases melds.len(),
{
    if melds.len() > 0 {
        lemma_melds_ranked(melds.drop_last(), actor, chairs, ours);
        lemma_meld_ranked(melds.last(), actor, chairs, ours);
        lemma_ranked_more(
            replay::melds_replay(melds.drop_last(), actor, chairs, ours)->Ok_0,
            replay::meld_replay(melds.last(), actor, chairs, ours)->Ok_0,
            2 * actor,
        );
    }
}

proof fn lemma_kita_ranked(count: nat, actor: u8, ours: u8)
    ensures
        ranked(replay::kita_replay(count, actor, ours), 2 * actor + 1, 2 * actor + 2),
    decreases count,
{
    if count > 0 {
        let kita = EventModel::Kita { actor, pai: Some(checks::north()) };
        lemma_kita_ranked((count - 1) as nat, actor, ours);
        let before = replay::kita_replay((count - 1) as nat, actor, ours);
        assert(ranked(seq![kita], 2 * actor + 1, 2 * actor + 2));
        assert(ranked(replay::rinshan(actor, ours), 2 * actor + 1, 2 * actor + 2));
        lemma_ranked_more(before, seq![kita], 2 * actor + 1);
        lemma_ranked_more(before + seq![kita], replay::rinshan(actor, ours), 2 * actor + 1);
    }
}

proof fn lemma_claims_ranked(players: Seq<PlayerModel>, chairs: Seq<u8>, ours: u8)
    requires
        replay::claims_replay(players, chairs, ours) is Ok,
        tracker::in_seat_order(players),
    ensures
        ranked(replay::claims_replay(players, chairs, ours)->Ok_0, 0, 2 * players.len() as int),
    decreases players.len(),
{
    if players.len() > 0 {
        let p = players.last();
        let rest = players.drop_last();
        let seat = rest.len() as int;
        assert(players[seat].actor == seat);
        assert forall|i: int| 0 <= i < rest.len() implies (#[trigger] rest[i]).actor == i by {
            assert(players[i].actor == i);
        }
        lemma_claims_ranked(rest, chairs, ours);
        lemma_melds_ranked(p.melds, p.actor, chairs, ours);
        lemma_kita_ranked(p.kita.len(), p.actor, ours);
        let before = replay::claims_replay(rest, chairs, ours)->Ok_0;
        let melds = replay::melds_replay(p.melds, p.actor, chairs, ours)->Ok_0;
        let kita = replay::kita_replay(p.kita.len(), p.actor, ours);
        lemma_ranked_concat(before, melds, 0, 2 * seat, 2 * seat + 1);
        lemma_ranked_concat(before + melds, kita, 0, 2 * seat + 1, 2 * seat + 2);
    }
}

/// The seat of a draw, a discard or a declaration of riichi.
pub open spec fn turn_of(e: EventModel) -> Option<int> {
    match e {
        EventModel::Tsumo { actor, .. } => Some(actor as int),
        EventModel::Dahai { actor, .. } => Some(actor as int),
        EventModel::Reach { actor, pai } => if pai is None {
            Some(actor as int)
        } else {
            None
        },
        _ => None,
    }
}

/// Turns come in the order of their seats, which lie in this range.
spec fn seated_turns(events: Seq<EventModel>, low: int, high: int) -> bool {
    &&& forall|i: int|
        0 <= i < events.len() ==> (turn_of(#[trigger] events[i]) matches Some(seat) && low <= seat
            < high)
    &&& forall|i: int, j: int|
        #![trigger events[i], events[j]]
        0 <= i < j < events.len() ==> turn_of(events[i])->0 <= turn_of(events[j])->0
}

proof fn lemma_river_seated(p: PlayerModel, count: nat, ours: u8)
    ensures
        seated_turns(replay::river_replay(p, count, ours), p.actor as int, p.actor + 1),
    decreases count,
{
    if count > 0 {
        lemma_river_seated(p, (count - 1) as nat, ours);
        let before = replay::river_replay(p, (count - 1) as nat, ours);
        let last = replay::river_turn(p, count - 1, ours);
        let all = before + last;
        assert forall|i: int| 0 <= i < all.len() implies (turn_of(#[trigger] all[i]) matches Some(
            seat,
        ) && p.actor <= seat < p.actor + 1) by {
            if i < before.len() {
                assert(all[i] == before[i]);
            } else {
                assert(all[i] == last[i - before.len()]);
            }
        }
    }
}

proof fn lemma_rivers_seated(players: Seq<PlayerModel>, ours: u8)
    requires
        tracker::in_seat_order(players),
    ensures
        seated_turns(replay::rivers_replay(players, ours), 0, players.len() as int),
    decreases players.len(),
{
    if players.len() > 0 {
        let p = players.last();
        let rest = players.drop_last();
        assert(players[rest.len() as int].actor == rest.len());
        assert forall|i: int| 0 <= i < rest.len() implies (#[trigger] rest[i]).actor == i by {
            assert(players[i].actor == i);
        }
        lemma_rivers_seated(rest, ours);
        lemma_river_seated(p, p.river.len(), ours);
        let before = replay::rivers_replay(rest, ours);
        let last = replay::river_replay(p, p.river.len(), ours);
        let all = before + last;
        assert forall|i: int| 0 <= i < all.len() implies (turn_of(#[trigger] all[i]) matches Some(
            seat,
        ) && 0 <= seat < players.len()) by {
            if i < before.len() {
                assert(all[i] == before[i]);
            } else {
                assert(all[i] == last[i - before.len()]);
            }
        }
        assert forall|i: int, j: int|
            #![trigger all[i], all[j]]
            0 <= i < j < all.len() implies turn_of(all[i])->0 <= turn_of(all[j])->0 by {
            if j < before.len() {
                assert(all[i] == before[i] && all[j] == before[j]);
            } else if i < before.len() {
                assert(all[i] == before[i] && all[j] == last[j - before.len()]);
            } else {
                assert(all[i] == last[i - before.len()] && all[j] == last[j - before.len()]);
            }
        }
    }
}

/// The stream is in this order, with the calls before place `calls_end` and the
/// rivers before place `rivers_end`: the deal; the melds and norths by seat, a
/// player's melds before the player's norths; the rivers by seat; and at most
/// one draw.
pub open spec fn in_order(events: Seq<EventModel>, calls_end: int, rivers_end: int) -> bool {
    &&& 1 <= calls_end <= rivers_end <= events.len() <= rivers_end + 1
    &&& events[0] is StartKyoku
    &&& forall|i: int| 1 <= i < calls_end ==> of_calls(#[trigger] events[i])
    &&& forall|i: int, j: int|
        #![trigger events[i], events[j]]
        1 <= i < j < calls_end && call_rank(events[i]) is Some && call_rank(events[j]) is Some
            ==> call_rank(events[i])->0 <= call_rank(events[j])->0
    &&& forall|i: int| calls_end <= i < rivers_end ==> turn_of(#[trigger] events[i]) is Some
    &&& forall|i: int, j: int|
        #![trigger events[i], events[j]]
        calls_end <= i < j < rivers_end ==> turn_of(events[i])->0 <= turn_of(events[j])->0
    &&& rivers_end < events.len() ==> events.last() is Tsumo
}

/// The stream is the deal, then the calls, then the rivers, then the pending
/// draw where there is one, each by seat. What comes after the calls makes
/// every discard of the rivers.
pub proof fn law_the_order_of_the_stream(data: Json, status: GameStatus)
    requires
        restore::restored(data, status) is Ok,
    ensures
        exists|calls_end: int, rivers_end: int|
            #![trigger in_order(
                restore::restored(data, status)->Ok_0.events,
                calls_end,
                rivers_end,
            )]
            in_order(restore::restored(data, status)->Ok_0.events, calls_end, rivers_end)
                && forall|k: int|
                0 <= k < restore::players_in(data, status).len() ==> #[trigger] tracker::river_from(
                    Seq::empty(),
                    restore::restored(data, status)->Ok_0.events.subrange(calls_end, rivers_end),
                    k as u8,
                ) == tiles::card_texts(restore::players_in(data, status)[k].river),
{
    let events = restore::restored(data, status)->Ok_0.events;
    let players = restore::players_in(data, status);
    let chairs = restore::chairs_in(data, status);
    let ours = status.seat;
    let claimed = replay::claims_replay(players, chairs, ours)->Ok_0;
    let rivers = replay::rivers_replay(players, ours);
    let calls_end = 1 + claimed.len() as int;
    let rivers_end = calls_end + rivers.len() as int;
    tracker::lemma_players_in_seat_order(data, status);
    lemma_claims_ranked(players, chairs, ours);
    lemma_rivers_seated(players, ours);
    assert forall|i: int| 1 <= i < calls_end implies #[trigger] events[i] == claimed[i - 1] by {}
    assert forall|i: int| calls_end <= i < rivers_end implies #[trigger] events[i] == rivers[i
        - calls_end] by {}
    assert(in_order(events, calls_end, rivers_end));
    assert(events.subrange(calls_end, rivers_end) =~= rivers);
    assert forall|k: int| 0 <= k < players.len() implies #[trigger] tracker::river_from(
        Seq::empty(),
        rivers,
        k as u8,
    ) == tiles::card_texts(players[k].river) by {
        let none = Seq::<Seq<char>>::empty();
        tracker::lemma_river_rivers(none, players, ours, k as u8);
        assert(none + tiles::card_texts(players[k].river) =~= tiles::card_texts(players[k].river));
    }
}

/// The hand that we are dealt begins with the tiles that the snapshot holds in
/// hand, in their order and without the pending draw, and ends with a north for
/// each one that we set aside.
pub proof fn law_the_dealt_hand_begins_with_the_held_one(data: Json, status: GameStatus, i: int)
    requires
        restore::restored(data, status) is Ok,
    ensures
        ({
            let o = restore::restored(data, status)->Ok_0;
            let me = restore::players_in(data, status)[status.seat as int];
            let dealt = o.events[0]->tehais[status.seat as int];
            let held = me.hand.len() - if o.own_pending_draw {
                1int
            } else {
                0
            };
            &&& dealt.len() == 13
            &&& held + me.kita.len() <= 13
            &&& 0 <= i < held ==> dealt[i] == tiles::card_text(me.hand[i])
            &&& 13 - me.kita.len() <= i < 13 ==> dealt[i] == seq!['N']
        }),
{
    let players = restore::players_in(data, status);
    crate::restore::snapshot::lemma_table_fits_the_roster(
        data.field("players"@)->0.items()->0,
        status,
    );
    assert(status.seat < players.len());
}

} // verus!
