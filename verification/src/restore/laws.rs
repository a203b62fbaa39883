//! What holds of every restored stream.
use crate::events::EventModel;
use crate::json::Json;
use crate::restore;
use crate::restore::checks;
use crate::restore::replay;
use crate::restore::snapshot;
use crate::restore::snapshot::{GameStatus, MeldModel, PlayerModel};
use crate::tiles;
use vstd::prelude::*;

verus! {

/// The event at `i` is followed by the discard of `pai` by `actor`.
pub open spec fn discards_next(events: Seq<EventModel>, i: int, actor: u8, pai: Seq<char>) -> bool {
    i + 1 < events.len() && match events[i + 1] {
        EventModel::Dahai { actor: a, pai: p, tsumogiri: _ } => a == actor && p == pai,
        _ => false,
    }
}

/// A draw of ours is followed by the discard of the same tile, and a draw of
/// any other seat is hidden.
pub open spec fn drawn_well(events: Seq<EventModel>, i: int, seat: u8) -> bool {
    match events[i] {
        EventModel::Tsumo { actor, pai } => if actor == seat {
            discards_next(events, i, actor, pai)
        } else {
            pai == replay::hidden()
        },
        _ => true,
    }
}

spec fn well_drawn(events: Seq<EventModel>, seat: u8) -> bool {
    forall|i: int| 0 <= i < events.len() ==> #[trigger] drawn_well(events, i, seat)
}

/// How many discards a stream holds.
pub open spec fn discards(events: Seq<EventModel>) -> int
    decreases events.len(),
{
    if events.len() == 0 {
        0
    } else {
        discards(events.drop_last()) + if events.last() is Dahai {
            1int
        } else {
            0
        }
    }
}

/// How many melds claimed a discard.
pub open spec fn claims(melds: Seq<MeldModel>) -> int
    decreases melds.len(),
{
    if melds.len() == 0 {
        0
    } else {
        claims(melds.drop_last()) + if checks::is_claim(melds.last().action_type) {
            1int
        } else {
            0
        }
    }
}

/// How many discards the players have made: those of the rivers, and those
/// that melds claimed.
pub open spec fn discards_made(players: Seq<PlayerModel>) -> int
    decreases players.len(),
{
    if players.len() == 0 {
        0
    } else {
        discards_made(players.drop_last()) + players.last().river.len() + claims(
            players.last().melds,
        )
    }
}

proof fn lemma_discards_concat(a: Seq<EventModel>, b: Seq<EventModel>)
    ensures
        discards(a + b) == discards(a) + discards(b),
    decreases b.len(),
{
    if b.len() == 0 {
        assert(a + b =~= a);
    } else {
        lemma_discards_concat(a, b.drop_last());
        assert((a + b).drop_last() =~= a + b.drop_last());
    }
}

proof fn lemma_well_drawn_concat(a: Seq<EventModel>, b: Seq<EventModel>, seat: u8)
    requires
        well_drawn(a, seat),
        well_drawn(b, seat),
    ensures
        well_drawn(a + b, seat),
{
    let c = a + b;
    assert forall|i: int| 0 <= i < c.len() implies #[trigger] drawn_well(c, i, seat) by {
        if i < a.len() {
            assert(drawn_well(a, i, seat));
            if i + 1 < a.len() {
                assert(c[i + 1] == a[i + 1]);
            }
        } else {
            assert(drawn_well(b, i - a.len(), seat));
            if i + 1 < c.len() {
                assert(c[i + 1] == b[i + 1 - a.len()]);
            }
        }
    }
}

/// Both facts of two streams hold of the one after the other.
proof fn lemma_concat(a: Seq<EventModel>, b: Seq<EventModel>, seat: u8)
    requires
        well_drawn(a, seat),
        well_drawn(b, seat),
    ensures
        well_drawn(a + b, seat),
        discards(a + b) == discards(a) + discards(b),
{
    lemma_well_drawn_concat(a, b, seat);
    lemma_discards_concat(a, b);
}

proof fn lemma_single(e: EventModel, seat: u8)
    requires
        !(e is Tsumo),
    ensures
        well_drawn(seq![e], seat),
        discards(seq![e]) == if e is Dahai {
            1int
        } else {
            0
        },
{
    assert(seq![e].drop_last() =~= Seq::empty());
    reveal_with_fuel(discards, 2);
}

proof fn lemma_rinshan(actor: u8, seat: u8)
    ensures
        well_drawn(replay::rinshan(actor, seat), seat),
        discards(replay::rinshan(actor, seat)) == 0,
{
    let s = replay::rinshan(actor, seat);
    if s.len() > 0 {
        assert(s.drop_last() =~= Seq::empty());
    }
    reveal_with_fuel(discards, 2);
}

proof fn lemma_turn(actor: u8, tile: u32, tsumogiri: bool, seat: u8)
    ensures
        well_drawn(replay::turn(actor, tile, tsumogiri, seat), seat),
        discards(replay::turn(actor, tile, tsumogiri, seat)) == 1,
{
    let s = replay::turn(actor, tile, tsumogiri, seat);
    assert(s.len() == 2);
    assert(discards_next(s, 0, actor, tiles::card_text(tile)));
    assert(s.drop_last() =~= seq![s[0]]);
    assert(seq![s[0]].drop_last() =~= Seq::empty());
    reveal_with_fuel(discards, 3);
}

proof fn lemma_meld_events(m: MeldModel, actor: u8, target: u8, seat: u8)
    requires
        replay::meld_events(m, actor, target, seat) is Ok,
    ensures
        well_drawn(replay::meld_events(m, actor, target, seat)->Ok_0, seat),
        discards(replay::meld_events(m, actor, target, seat)->Ok_0) == 0,
{
    let s = replay::meld_events(m, actor, target, seat)->Ok_0;
    lemma_single(s[0], seat);
    lemma_rinshan(actor, seat);
    if m.action_type == 6 || m.action_type == 8 {
        lemma_concat(seq![s[0]], replay::rinshan(actor, seat), seat);
    } else if m.action_type == 9 {
        lemma_single(s[1], seat);
        lemma_concat(seq![s[0]], seq![s[1]], seat);
        assert(seq![s[0]] + seq![s[1]] =~= seq![s[0], s[1]]);
        lemma_concat(seq![s[0], s[1]], replay::rinshan(actor, seat), seat);
    }
}

proof fn lemma_meld_replay(m: MeldModel, actor: u8, chairs: Seq<u8>, seat: u8)
    requires
        replay::meld_replay(m, actor, chairs, seat) is Ok,
    ensures
        well_drawn(replay::meld_replay(m, actor, chairs, seat)->Ok_0, seat),
        discards(replay::meld_replay(m, actor, chairs, seat)->Ok_0) == if checks::is_claim(
            m.action_type,
        ) {
            1int
        } else {
            0
        },
{
    match replay::meld_source(m, chairs)->Ok_0 {
        None => lemma_meld_events(m, actor, actor, seat),
        Some(source) => {
            lemma_meld_events(m, actor, source, seat);
            lemma_turn(source, replay::claimed_tile(m), false, seat);
            lemma_concat(
                replay::turn(source, replay::claimed_tile(m), false, seat),
                replay::meld_events(m, actor, source, seat)->Ok_0,
                seat,
            );
        },
    }
}

proof fn lemma_melds_replay(melds: Seq<MeldModel>, actor: u8, chairs: Seq<u8>, seat: u8)
    requires
        replay::melds_replay(melds, actor, chairs, seat) is Ok,
    ensures
        well_drawn(replay::melds_replay(melds, actor, chairs, seat)->Ok_0, seat),
        discards(replay::melds_replay(melds, actor, chairs, seat)->Ok_0) == claims(melds),
    decreases melds.len(),
{
    if melds.len() > 0 {
        lemma_melds_replay(melds.drop_last(), actor, chairs, seat);
        lemma_meld_replay(melds.last(), actor, chairs, seat);
        lemma_concat(
            replay::melds_replay(melds.drop_last(), actor, chairs, seat)->Ok_0,
            replay::meld_replay(melds.last(), actor, chairs, seat)->Ok_0,
            seat,
        );
    }
}

proof fn lemma_kita_replay(count: nat, actor: u8, seat: u8)
    ensures
        well_drawn(replay::kita_replay(count, actor, seat), seat),
        discards(replay::kita_replay(count, actor, seat)) == 0,
    decreases count,
{
    if count > 0 {
        let before = replay::kita_replay((count - 1) as nat, actor, seat);
        let kita = EventModel::Kita { actor, pai: Some(checks::north()) };
        lemma_kita_replay((count - 1) as nat, actor, seat);
        lemma_single(kita, seat);
        lemma_rinshan(actor, seat);
        lemma_concat(before, seq![kita], seat);
        lemma_concat(before + seq![kita], replay::rinshan(actor, seat), seat);
    }
}

proof fn lemma_claims_replay(players: Seq<PlayerModel>, chairs: Seq<u8>, seat: u8)
    requires
        replay::claims_replay(players, chairs, seat) is Ok,
    ensures
        well_drawn(replay::claims_replay(players, chairs, seat)->Ok_0, seat),
        discards(replay::claims_replay(players, chairs, seat)->Ok_0) + discards(
            replay::rivers_replay(players, seat),
        ) == discards_made(players),
        well_drawn(replay::rivers_replay(players, seat), seat),
    decreases players.len(),
{
    if players.len() > 0 {
        let p = players.last();
        let before = replay::claims_replay(players.drop_last(), chairs, seat)->Ok_0;
        let melds = replay::melds_replay(p.melds, p.actor, chairs, seat)->Ok_0;
        let kita = replay::kita_replay(p.kita.len(), p.actor, seat);
        lemma_claims_replay(players.drop_last(), chairs, seat);
        lemma_melds_replay(p.melds, p.actor, chairs, seat);
        lemma_kita_replay(p.kita.len(), p.actor, seat);
        lemma_concat(before, melds, seat);
        lemma_concat(before + melds, kita, seat);
        lemma_river_replay(p, p.river.len(), seat);
        lemma_concat(
            replay::rivers_replay(players.drop_last(), seat),
            replay::river_replay(p, p.river.len(), seat),
            seat,
        );
    }
}

proof fn lemma_river_replay(p: PlayerModel, count: nat, seat: u8)
    ensures
        well_drawn(replay::river_replay(p, count, seat), seat),
        discards(replay::river_replay(p, count, seat)) == count,
    decreases count,
{
    if count > 0 {
        let i = count - 1;
        lemma_river_replay(p, i as nat, seat);
        let reach = EventModel::Reach { actor: p.actor, pai: None };
        let last = replay::turn(p.actor, p.river[i], p.riichi && i > p.riichi_pos, seat);
        lemma_single(reach, seat);
        lemma_turn(p.actor, p.river[i], p.riichi && i > p.riichi_pos, seat);
        lemma_concat(seq![reach], last, seat);
        assert(Seq::<EventModel>::empty() + last =~= last);
        lemma_concat(
            replay::river_replay(p, i as nat, seat),
            replay::river_turn(p, i, seat),
            seat,
        );
    }
}

proof fn lemma_hands_checked(players: Seq<PlayerModel>, current: Option<u8>, i: int)
    requires
        checks::pending_draw(players, current) is Ok,
        0 <= i < players.len(),
    ensures
        players[i].hand_n == checks::hand_at_rest(players[i]) || (players[i].hand_n
            == checks::hand_at_rest(players[i]) + 1 && current == Some(players[i].actor)),
    decreases players.len(),
{
    if i < players.len() - 1 {
        lemma_hands_checked(players.drop_last(), current, i);
    }
}

/// A restore is gated: where a snapshot is not refused, the wall matches the
/// draws that the table accounts for, and every hand is at rest but for the
/// current actor's, which may hold one draw.
pub proof fn law_restore_is_gated(data: Json, status: GameStatus)
    requires
        restore::restored(data, status) is Ok,
    ensures
        ({
            let players = restore::players_in(data, status);
            let n = status.num_players;
            let left = snapshot::int_or(
                restore::hand_status_in(data),
                "left_pai_shan"@,
                (-1) as i64,
            );
            &&& checks::wall_tiles(n) - checks::draws(players, n) == left
            &&& forall|i: int|
                0 <= i < players.len() ==> {
                    let p = #[trigger] players[i];
                    let rest = checks::hand_at_rest(p);
                    p.hand_n == rest || (p.hand_n == rest + 1 && restore::current_actor(
                        data,
                        status,
                    ) == Some(p.actor))
                }
        }),
{
    let players = restore::players_in(data, status);
    assert forall|i: int| 0 <= i < players.len() implies {
        let p = #[trigger] players[i];
        let rest = checks::hand_at_rest(p);
        p.hand_n == rest || (p.hand_n == rest + 1 && restore::current_actor(data, status) == Some(
            p.actor,
        ))
    } by {
        lemma_hands_checked(players, restore::current_actor(data, status), i);
    }
}

/// Other seats' draws are hidden, exactly as in live play. Ours show the tile,
/// and it is discarded at once, so that our hand stays exact; the one draw of
/// ours that is kept is the pending one, and it ends the stream.
pub proof fn law_replayed_draws(data: Json, status: GameStatus, i: int)
    requires
        restore::restored(data, status) is Ok,
        0 <= i < restore::restored(data, status)->Ok_0.events.len(),
    ensures
        ({
            let o = restore::restored(data, status)->Ok_0;
            match o.events[i] {
                EventModel::Tsumo { actor, pai } => if actor == status.seat {
                    discards_next(o.events, i, actor, pai) || (o.own_pending_draw && i
                        == o.events.len() - 1)
                } else {
                    pai == replay::hidden()
                },
                _ => true,
            }
        }),
{
    let o = restore::restored(data, status)->Ok_0;
    let seat = status.seat;
    let players = restore::players_in(data, status);
    let chairs = restore::chairs_in(data, status);
    let claimed = replay::claims_replay(players, chairs, seat)->Ok_0;
    let rivers = replay::rivers_replay(players, seat);
    lemma_claims_replay(players, chairs, seat);
    lemma_single(o.events[0], seat);
    let first = seq![o.events[0]];
    lemma_concat(first, claimed, seat);
    lemma_concat(first + claimed, rivers, seat);
    let replayed = first + claimed + rivers;
    if i < replayed.len() {
        assert(drawn_well(replayed, i, seat));
        assert(o.events[i] == replayed[i]);
        if i + 1 < replayed.len() {
            assert(o.events[i + 1] == replayed[i + 1]);
        }
    }
}

/// The stream begins with the deal, which gives every seat thirteen tiles:
/// ours are known, and everyone else's stay hidden.
pub proof fn law_restore_begins_with_the_deal(data: Json, status: GameStatus, k: int)
    requires
        restore::restored(data, status) is Ok,
        0 <= k < status.num_players,
    ensures
        ({
            let o = restore::restored(data, status)->Ok_0;
            &&& o.events.len() > 0
            &&& o.events[0] is StartKyoku
            &&& o.events[0]->tehais.len() == status.num_players
            &&& o.events[0]->tehais[k].len() == 13
            &&& k != status.seat ==> o.events[0]->tehais[k] == Seq::new(
                13,
                |i: int| replay::hidden(),
            )
        }),
{
}

/// Where we hold the pending draw, the stream ends with it, and names the last
/// tile of the snapshot's hand.
pub proof fn law_own_pending_draw_ends_the_stream(data: Json, status: GameStatus)
    requires
        restore::restored(data, status) is Ok,
        restore::restored(data, status)->Ok_0.own_pending_draw,
    ensures
        ({
            let me = restore::players_in(data, status)[status.seat as int];
            let pai = tiles::card_text(me.hand.last());
            &&& me.hand.len() == 14
            &&& restore::restored(data, status)->Ok_0.events.last() == (EventModel::Tsumo {
                actor: status.seat,
                pai,
            })
        }),
{
}

/// No discard is lost and none is made up: the stream holds one for each tile
/// of the rivers and one for each claimed tile.
pub proof fn law_every_discard_is_replayed(data: Json, status: GameStatus)
    requires
        restore::restored(data, status) is Ok,
    ensures
        discards(restore::restored(data, status)->Ok_0.events) == discards_made(
            restore::players_in(data, status),
        ),
{
    let o = restore::restored(data, status)->Ok_0;
    let seat = status.seat;
    let players = restore::players_in(data, status);
    let chairs = restore::chairs_in(data, status);
    let claimed = replay::claims_replay(players, chairs, seat)->Ok_0;
    let rivers = replay::rivers_replay(players, seat);
    lemma_claims_replay(players, chairs, seat);
    let first = seq![o.events[0]];
    lemma_single(o.events[0], seat);
    lemma_concat(first, claimed, seat);
    lemma_concat(first + claimed, rivers, seat);
    let replayed = first + claimed + rivers;
    let pending = o.events.skip(replayed.len() as int);
    assert(o.events =~= replayed + pending);
    lemma_discards_concat(replayed, pending);
    if pending.len() > 0 {
        assert(pending.drop_last() =~= Seq::empty());
    }
    reveal_with_fuel(discards, 2);
}

} // verus!
