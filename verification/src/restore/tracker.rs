//! What a tracker that follows a restored stream ends up with.
use crate::events::EventModel;
use crate::json::Json;
use crate::lists;
use crate::restore;
use crate::restore::checks;
use crate::restore::replay;
use crate::restore::snapshot;
use crate::restore::snapshot::{GameStatus, MeldModel, PlayerModel};
use crate::tiles;
use vstd::prelude::*;

verus! {

/// 1 where the two tiles are the same, else 0.
pub open spec fn copies(pai: Seq<char>, t: Seq<char>) -> int {
    if pai == t {
        1
    } else {
        0
    }
}

/// By how much an event changes the number of tiles `t` in a seat's concealed
/// hand.
pub open spec fn hand_change(e: EventModel, seat: u8, t: Seq<char>) -> int {
    match e {
        EventModel::StartKyoku { tehais, .. } => lists::occurrences(tehais[seat as int], t),
        EventModel::Tsumo { actor, pai } if actor == seat => copies(pai, t),
        EventModel::Dahai { actor, pai, .. } if actor == seat => -copies(pai, t),
        EventModel::Chi { actor, consumed, .. } if actor == seat => -lists::occurrences(
            consumed,
            t,
        ),
        EventModel::Pon { actor, consumed, .. } if actor == seat => -lists::occurrences(
            consumed,
            t,
        ),
        EventModel::Daiminkan { actor, consumed, .. } if actor == seat => -lists::occurrences(
            consumed,
            t,
        ),
        EventModel::Ankan { actor, consumed } if actor == seat => -lists::occurrences(consumed, t),
        EventModel::Kakan { actor, pai, .. } if actor == seat => -copies(pai, t),
        EventModel::Kita { actor, pai: Some(pai) } if actor == seat => -copies(pai, t),
        _ => 0,
    }
}

/// How many tiles `t` a seat holds after a stream.
pub open spec fn held(events: Seq<EventModel>, seat: u8, t: Seq<char>) -> int
    decreases events.len(),
{
    if events.len() == 0 {
        0
    } else {
        held(events.drop_last(), seat, t) + hand_change(events.last(), seat, t)
    }
}

proof fn lemma_held_concat(a: Seq<EventModel>, b: Seq<EventModel>, seat: u8, t: Seq<char>)
    ensures
        held(a + b, seat, t) == held(a, seat, t) + held(b, seat, t),
    decreases b.len(),
{
    if b.len() == 0 {
        assert(a + b =~= a);
    } else {
        lemma_held_concat(a, b.drop_last(), seat, t);
        assert((a + b).drop_last() =~= a + b.drop_last());
    }
}

proof fn lemma_held_one(e: EventModel, seat: u8, t: Seq<char>)
    ensures
        held(seq![e], seat, t) == hand_change(e, seat, t),
{
    assert(seq![e].drop_last() =~= Seq::empty());
    reveal_with_fuel(held, 2);
}

proof fn lemma_occurrences_concat(a: Seq<Seq<char>>, b: Seq<Seq<char>>, t: Seq<char>)
    ensures
        lists::occurrences(a + b, t) == lists::occurrences(a, t) + lists::occurrences(b, t),
    decreases b.len(),
{
    if b.len() == 0 {
        assert(a + b =~= a);
    } else {
        lemma_occurrences_concat(a, b.drop_last(), t);
        assert((a + b).drop_last() =~= a + b.drop_last());
    }
}

proof fn lemma_occurrences_one(pai: Seq<char>, t: Seq<char>)
    ensures
        lists::occurrences(seq![pai], t) == copies(pai, t),
{
    assert(seq![pai].drop_last() =~= Seq::empty());
    reveal_with_fuel(lists::occurrences, 2);
}

/// A draw and the discard of the same tile leave every hand as it was.
proof fn lemma_held_turn(actor: u8, tile: u32, tsumogiri: bool, seat: u8, t: Seq<char>)
    ensures
        held(replay::turn(actor, tile, tsumogiri, seat), seat, t) == 0,
{
    let s = replay::turn(actor, tile, tsumogiri, seat);
    lemma_held_one(s[0], seat, t);
    lemma_held_one(s[1], seat, t);
    lemma_held_concat(seq![s[0]], seq![s[1]], seat, t);
    assert(seq![s[0]] + seq![s[1]] =~= s);
}

proof fn lemma_held_rinshan(actor: u8, seat: u8, t: Seq<char>)
    ensures
        held(replay::rinshan(actor, seat), seat, t) == 0,
{
    if actor != seat {
        lemma_held_one(replay::rinshan(actor, seat)[0], seat, t);
        assert(seq![replay::rinshan(actor, seat)[0]] =~= replay::rinshan(actor, seat));
    }
}

/// The snapshot names exactly the tiles that a meld took from the hand: two
/// for a chi, a pon or a kakan, three for an open kan.
pub open spec fn named_in_full(m: MeldModel) -> bool {
    &&& 2 <= m.action_type <= 5 || m.action_type == 9 ==> m.group.len() == 2
    &&& m.action_type == 6 ==> m.group.len() == 3
}

/// The tiles that a meld took from the hand.
pub open spec fn melded(m: MeldModel) -> Seq<Seq<char>> {
    if m.action_type == 8 || m.action_type == 9 {
        tiles::card_texts(m.group) + seq![tiles::card_text(m.card)]
    } else {
        tiles::card_texts(m.group)
    }
}

proof fn lemma_held_meld(m: MeldModel, actor: u8, target: u8, seat: u8, t: Seq<char>)
    requires
        replay::meld_events(m, actor, target, seat) is Ok,
        actor == seat ==> named_in_full(m),
    ensures
        held(replay::meld_events(m, actor, target, seat)->Ok_0, seat, t) == if actor == seat {
            -lists::occurrences(melded(m), t)
        } else {
            0
        },
{
    let s = replay::meld_events(m, actor, target, seat)->Ok_0;
    let rinshan = replay::rinshan(actor, seat);
    lemma_held_one(s[0], seat, t);
    lemma_held_rinshan(actor, seat, t);
    assert(m.group.take(m.group.len() as int) =~= m.group);
    if m.action_type == 6 || m.action_type == 8 {
        lemma_held_concat(seq![s[0]], rinshan, seat, t);
        assert(tiles::card_texts(m.group.push(m.card)) =~= tiles::card_texts(m.group) + seq![
            tiles::card_text(m.card),
        ]);
    } else if m.action_type == 9 {
        lemma_held_one(s[1], seat, t);
        lemma_held_concat(seq![s[0]], seq![s[1]], seat, t);
        assert(seq![s[0]] + seq![s[1]] =~= seq![s[0], s[1]]);
        lemma_held_concat(seq![s[0], s[1]], rinshan, seat, t);
        lemma_occurrences_concat(
            tiles::card_texts(m.group),
            seq![tiles::card_text(m.card)],
            t,
        );
        lemma_occurrences_one(tiles::card_text(m.card), t);
    } else {
        assert(s =~= seq![s[0]]);
    }
}

proof fn lemma_held_melds(
    melds: Seq<MeldModel>,
    actor: u8,
    chairs: Seq<u8>,
    seat: u8,
    t: Seq<char>,
)
    requires
        replay::melds_replay(melds, actor, chairs, seat) is Ok,
        actor == seat ==> forall|i: int|
            0 <= i < melds.len() ==> named_in_full(#[trigger] melds[i]),
    ensures
        checks::melded_tiles(melds) is Ok,
        held(replay::melds_replay(melds, actor, chairs, seat)->Ok_0, seat, t) == if actor == seat {
            -lists::occurrences(checks::melded_tiles(melds)->Ok_0, t)
        } else {
            0
        },
    decreases melds.len(),
{
    if melds.len() > 0 {
        let m = melds.last();
        let rest = melds.drop_last();
        assert forall|i: int| 0 <= i < rest.len() && actor == seat implies named_in_full(
            #[trigger] rest[i],
        ) by {
            assert(named_in_full(melds[i]));
        }
        lemma_held_melds(rest, actor, chairs, seat, t);
        let before = replay::melds_replay(rest, actor, chairs, seat)->Ok_0;
        let last = replay::meld_replay(m, actor, chairs, seat)->Ok_0;
        lemma_held_concat(before, last, seat, t);
        match replay::meld_source(m, chairs)->Ok_0 {
            None => lemma_held_meld(m, actor, actor, seat, t),
            Some(source) => {
                lemma_held_meld(m, actor, source, seat, t);
                lemma_held_turn(source, replay::claimed_tile(m), false, seat, t);
                lemma_held_concat(
                    replay::turn(source, replay::claimed_tile(m), false, seat),
                    replay::meld_events(m, actor, source, seat)->Ok_0,
                    seat,
                    t,
                );
            },
        }
        let taken = checks::melded_tiles(rest)->Ok_0;
        lemma_occurrences_concat(taken, melded(m), t);
        assert(checks::melded_tiles(melds)->Ok_0 =~= taken + melded(m));
    }
}

/// A list of norths.
pub open spec fn norths(count: nat) -> Seq<Seq<char>> {
    Seq::new(count, |i: int| checks::north())
}

proof fn lemma_held_kita(count: nat, actor: u8, seat: u8, t: Seq<char>)
    ensures
        held(replay::kita_replay(count, actor, seat), seat, t) == if actor == seat {
            -lists::occurrences(norths(count), t)
        } else {
            0
        },
    decreases count,
{
    if count > 0 {
        let fewer = (count - 1) as nat;
        let kita = EventModel::Kita { actor, pai: Some(checks::north()) };
        let before = replay::kita_replay(fewer, actor, seat);
        lemma_held_kita(fewer, actor, seat, t);
        lemma_held_one(kita, seat, t);
        lemma_held_rinshan(actor, seat, t);
        lemma_held_concat(before, seq![kita], seat, t);
        lemma_held_concat(before + seq![kita], replay::rinshan(actor, seat), seat, t);
        assert(norths(count).drop_last() =~= norths(fewer));
    }
}

/// Every player sits in the seat of its place in the list.
pub open spec fn in_seat_order(players: Seq<PlayerModel>) -> bool {
    forall|i: int| 0 <= i < players.len() ==> (#[trigger] players[i]).actor == i
}

/// What a player's melds and norths took from the hand.
pub open spec fn set_aside(p: PlayerModel) -> Seq<Seq<char>> {
    checks::melded_tiles(p.melds)->Ok_0 + norths(p.kita.len())
}

proof fn lemma_held_claims(players: Seq<PlayerModel>, chairs: Seq<u8>, seat: u8, t: Seq<char>)
    requires
        replay::claims_replay(players, chairs, seat) is Ok,
        in_seat_order(players),
        seat < players.len() ==> forall|i: int|
            0 <= i < players[seat as int].melds.len() ==> named_in_full(
                #[trigger] players[seat as int].melds[i],
            ),
    ensures
        held(replay::claims_replay(players, chairs, seat)->Ok_0, seat, t) == if seat
            < players.len() {
            -lists::occurrences(set_aside(players[seat as int]), t)
        } else {
            0
        },
        held(replay::rivers_replay(players, seat), seat, t) == 0,
    decreases players.len(),
{
    if players.len() > 0 {
        let p = players.last();
        let rest = players.drop_last();
        assert(p == players[players.len() - 1]);
        assert(in_seat_order(rest)) by {
            assert forall|i: int| 0 <= i < rest.len() implies (#[trigger] rest[i]).actor == i by {
                assert(players[i].actor == i);
            }
        }
        lemma_held_claims(rest, chairs, seat, t);
        let before = replay::claims_replay(rest, chairs, seat)->Ok_0;
        let melds = replay::melds_replay(p.melds, p.actor, chairs, seat)->Ok_0;
        let kita = replay::kita_replay(p.kita.len(), p.actor, seat);
        lemma_held_melds(p.melds, p.actor, chairs, seat, t);
        lemma_held_kita(p.kita.len(), p.actor, seat, t);
        lemma_held_concat(before, melds, seat, t);
        lemma_held_concat(before + melds, kita, seat, t);
        lemma_occurrences_concat(checks::melded_tiles(p.melds)->Ok_0, norths(p.kita.len()), t);
        lemma_held_river(p, p.river.len(), seat, t);
        lemma_held_concat(
            replay::rivers_replay(rest, seat),
            replay::river_replay(p, p.river.len(), seat),
            seat,
            t,
        );
    }
}

proof fn lemma_held_river(p: PlayerModel, count: nat, seat: u8, t: Seq<char>)
    ensures
        held(replay::river_replay(p, count, seat), seat, t) == 0,
    decreases count,
{
    if count > 0 {
        let i = count - 1;
        lemma_held_river(p, i as nat, seat, t);
        let reach = EventModel::Reach { actor: p.actor, pai: None };
        let last = replay::turn(p.actor, p.river[i], p.riichi && i > p.riichi_pos, seat);
        lemma_held_one(reach, seat, t);
        lemma_held_turn(p.actor, p.river[i], p.riichi && i > p.riichi_pos, seat, t);
        lemma_held_concat(seq![reach], last, seat, t);
        assert(Seq::<EventModel>::empty() + last =~= last);
        lemma_held_concat(
            replay::river_replay(p, i as nat, seat),
            replay::river_turn(p, i, seat),
            seat,
            t,
        );
    }
}

/// The players of a snapshot sit in the seats of their places.
pub proof fn lemma_players_in_seat_order(data: Json, status: GameStatus)
    requires
        restore::restored(data, status) is Ok,
    ensures
        in_seat_order(restore::players_in(data, status)),
{
    let players = restore::players_in(data, status);
    let roster = snapshot::roster_at(data.field("players"@)->0.items()->0, status)->Ok_0;
    assert forall|i: int| 0 <= i < players.len() implies (#[trigger] players[i]).actor == i by {
        snapshot::lemma_seated_actor(roster, i);
    }
}

/// The stream rebuilds our hand: a tracker that follows it holds exactly the
/// tiles that the snapshot names, a pending draw with them. A meld of ours that
/// the snapshot names with too many tiles is left out: the stream melds only as
/// many as its kind takes.
pub proof fn law_our_hand_is_rebuilt(data: Json, status: GameStatus, t: Seq<char>)
    requires
        restore::restored(data, status) is Ok,
        forall|i: int|
            0 <= i < restore::players_in(data, status)[status.seat as int].melds.len()
                ==> named_in_full(
                #[trigger] restore::players_in(data, status)[status.seat as int].melds[i],
            ),
    ensures
        held(restore::restored(data, status)->Ok_0.events, status.seat, t) == lists::occurrences(
            tiles::card_texts(restore::players_in(data, status)[status.seat as int].hand),
            t,
        ),
{
    let o = restore::restored(data, status)->Ok_0;
    let seat = status.seat;
    let players = restore::players_in(data, status);
    let chairs = restore::chairs_in(data, status);
    let me = players[seat as int];
    let claimed = replay::claims_replay(players, chairs, seat)->Ok_0;
    let rivers = replay::rivers_replay(players, seat);
    let pending = checks::pending_draw(players, restore::current_actor(data, status))->Ok_0;
    let (tehai, draw) = checks::own_hand(me, o.own_pending_draw)->Ok_0;
    let first = seq![o.events[0]];
    let last = restore::pending_events(pending, draw, seat);
    lemma_players_in_seat_order(data, status);
    snapshot::lemma_table_fits_the_roster(data.field("players"@)->0.items()->0, status);
    lemma_held_claims(players, chairs, seat, t);
    lemma_held_one(o.events[0], seat, t);
    lemma_held_concat(first, claimed, seat, t);
    lemma_held_concat(first + claimed, rivers, seat, t);
    lemma_held_concat(first + claimed + rivers, last, seat, t);
    assert(o.events[0]->tehais[seat as int] == tehai);
    let hand = tiles::card_texts(me.hand);
    let kept = if o.own_pending_draw {
        tiles::card_texts(me.hand.drop_last())
    } else {
        hand
    };
    assert(tehai =~= kept + set_aside(me));
    lemma_occurrences_concat(kept, set_aside(me), t);
    if pending is Some {
        lemma_held_one(last[0], seat, t);
        assert(last =~= seq![last[0]]);
    }
    if o.own_pending_draw {
        assert(hand.drop_last() =~= kept);
        assert(hand.last() == tiles::card_text(me.hand.last()));
    }
}

/// A seat's river after an event: a discard is added, a claimed discard leaves.
pub open spec fn river_after(river: Seq<Seq<char>>, e: EventModel, seat: u8) -> Seq<Seq<char>> {
    match e {
        EventModel::Dahai { actor, pai, .. } if actor == seat => river.push(pai),
        EventModel::Chi { target, .. } if target == seat => river.drop_last(),
        EventModel::Pon { target, .. } if target == seat => river.drop_last(),
        EventModel::Daiminkan { target, .. } if target == seat => river.drop_last(),
        _ => river,
    }
}

/// A seat's river after a stream, from the river before it.
pub open spec fn river_from(river: Seq<Seq<char>>, events: Seq<EventModel>, seat: u8) -> Seq<
    Seq<char>,
>
    decreases events.len(),
{
    if events.len() == 0 {
        river
    } else {
        river_after(river_from(river, events.drop_last(), seat), events.last(), seat)
    }
}

pub proof fn lemma_river_concat(
    river: Seq<Seq<char>>,
    a: Seq<EventModel>,
    b: Seq<EventModel>,
    seat: u8,
)
    ensures
        river_from(river, a + b, seat) == river_from(river_from(river, a, seat), b, seat),
    decreases b.len(),
{
    if b.len() == 0 {
        assert(a + b =~= a);
    } else {
        lemma_river_concat(river, a, b.drop_last(), seat);
        assert((a + b).drop_last() =~= a + b.drop_last());
    }
}

proof fn lemma_river_one(river: Seq<Seq<char>>, e: EventModel, seat: u8)
    ensures
        river_from(river, seq![e], seat) == river_after(river, e, seat),
{
    assert(seq![e].drop_last() =~= Seq::empty());
    reveal_with_fuel(river_from, 2);
}

proof fn lemma_river_turn(
    river: Seq<Seq<char>>,
    actor: u8,
    tile: u32,
    tsumogiri: bool,
    ours: u8,
    seat: u8,
)
    ensures
        river_from(river, replay::turn(actor, tile, tsumogiri, ours), seat) == if actor == seat {
            river.push(tiles::card_text(tile))
        } else {
            river
        },
{
    let s = replay::turn(actor, tile, tsumogiri, ours);
    lemma_river_one(river, s[0], seat);
    lemma_river_one(river, s[1], seat);
    lemma_river_concat(river, seq![s[0]], seq![s[1]], seat);
    assert(seq![s[0]] + seq![s[1]] =~= s);
}

proof fn lemma_river_rinshan(river: Seq<Seq<char>>, actor: u8, ours: u8, seat: u8)
    ensures
        river_from(river, replay::rinshan(actor, ours), seat) == river,
{
    if actor != ours {
        lemma_river_one(river, replay::rinshan(actor, ours)[0], seat);
        assert(seq![replay::rinshan(actor, ours)[0]] =~= replay::rinshan(actor, ours));
    }
}

/// The events of a meld take the claimed tile out of its source's river.
proof fn lemma_river_meld_events(
    river: Seq<Seq<char>>,
    m: MeldModel,
    actor: u8,
    target: u8,
    ours: u8,
    seat: u8,
)
    requires
        replay::meld_events(m, actor, target, ours) is Ok,
    ensures
        river_from(river, replay::meld_events(m, actor, target, ours)->Ok_0, seat) == if target
            == seat && m.action_type != 8 {
            river.drop_last()
        } else {
            river
        },
{
    let s = replay::meld_events(m, actor, target, ours)->Ok_0;
    let rinshan = replay::rinshan(actor, ours);
    lemma_river_one(river, s[0], seat);
    let once = river_after(river, s[0], seat);
    if m.action_type == 6 || m.action_type == 8 {
        lemma_river_concat(river, seq![s[0]], rinshan, seat);
        lemma_river_rinshan(once, actor, ours, seat);
    } else if m.action_type == 9 {
        lemma_river_one(once, s[1], seat);
        lemma_river_concat(river, seq![s[0]], seq![s[1]], seat);
        assert(seq![s[0]] + seq![s[1]] =~= seq![s[0], s[1]]);
        lemma_river_concat(river, seq![s[0], s[1]], rinshan, seat);
        lemma_river_rinshan(once, actor, ours, seat);
    } else {
        assert(s =~= seq![s[0]]);
    }
}

proof fn lemma_river_melds(
    river: Seq<Seq<char>>,
    melds: Seq<MeldModel>,
    actor: u8,
    chairs: Seq<u8>,
    ours: u8,
    seat: u8,
)
    requires
        replay::melds_replay(melds, actor, chairs, ours) is Ok,
    ensures
        river_from(river, replay::melds_replay(melds, actor, chairs, ours)->Ok_0, seat) == river,
    decreases melds.len(),
{
    if melds.len() > 0 {
        let m = melds.last();
        let before = replay::melds_replay(melds.drop_last(), actor, chairs, ours)->Ok_0;
        let last = replay::meld_replay(m, actor, chairs, ours)->Ok_0;
        lemma_river_melds(river, melds.drop_last(), actor, chairs, ours, seat);
        lemma_river_concat(river, before, last, seat);
        match replay::meld_source(m, chairs)->Ok_0 {
            None => lemma_river_meld_events(river, m, actor, actor, ours, seat),
            Some(source) => {
                let tile = replay::claimed_tile(m);
                let turn = replay::turn(source, tile, false, ours);
                lemma_river_turn(river, source, tile, false, ours, seat);
                lemma_river_concat(
                    river,
                    turn,
                    replay::meld_events(m, actor, source, ours)->Ok_0,
                    seat,
                );
                lemma_river_meld_events(
                    river_from(river, turn, seat),
                    m,
                    actor,
                    source,
                    ours,
                    seat,
                );
                assert(river.push(tiles::card_text(tile)).drop_last() =~= river);
            },
        }
    }
}

proof fn lemma_river_kita(river: Seq<Seq<char>>, count: nat, actor: u8, ours: u8, seat: u8)
    ensures
        river_from(river, replay::kita_replay(count, actor, ours), seat) == river,
    decreases count,
{
    if count > 0 {
        let kita = EventModel::Kita { actor, pai: Some(checks::north()) };
        let before = replay::kita_replay((count - 1) as nat, actor, ours);
        lemma_river_kita(river, (count - 1) as nat, actor, ours, seat);
        lemma_river_concat(river, before, seq![kita], seat);
        lemma_river_one(river, kita, seat);
        lemma_river_concat(river, before + seq![kita], replay::rinshan(actor, ours), seat);
        lemma_river_rinshan(river, actor, ours, seat);
    }
}

proof fn lemma_river_claims(
    river: Seq<Seq<char>>,
    players: Seq<PlayerModel>,
    chairs: Seq<u8>,
    ours: u8,
    seat: u8,
)
    requires
        replay::claims_replay(players, chairs, ours) is Ok,
    ensures
        river_from(river, replay::claims_replay(players, chairs, ours)->Ok_0, seat) == river,
    decreases players.len(),
{
    if players.len() > 0 {
        let p = players.last();
        let before = replay::claims_replay(players.drop_last(), chairs, ours)->Ok_0;
        let melds = replay::melds_replay(p.melds, p.actor, chairs, ours)->Ok_0;
        lemma_river_claims(river, players.drop_last(), chairs, ours, seat);
        lemma_river_concat(river, before, melds, seat);
        lemma_river_melds(river, p.melds, p.actor, chairs, ours, seat);
        lemma_river_concat(
            river,
            before + melds,
            replay::kita_replay(p.kita.len(), p.actor, ours),
            seat,
        );
        lemma_river_kita(river, p.kita.len(), p.actor, ours, seat);
    }
}

proof fn lemma_river_river(
    river: Seq<Seq<char>>,
    p: PlayerModel,
    count: nat,
    ours: u8,
    seat: u8,
)
    requires
        count <= p.river.len(),
    ensures
        river_from(river, replay::river_replay(p, count, ours), seat) == if p.actor == seat {
            river + tiles::card_texts(p.river.take(count as int))
        } else {
            river
        },
    decreases count,
{
    if count == 0 {
        assert(river + tiles::card_texts(p.river.take(0)) =~= river);
    } else {
        let i = count - 1;
        let forced = p.riichi && i > p.riichi_pos;
        let before = replay::river_replay(p, i as nat, ours);
        let so_far = river_from(river, before, seat);
        let reach = EventModel::Reach { actor: p.actor, pai: None };
        let last = replay::turn(p.actor, p.river[i], forced, ours);
        lemma_river_river(river, p, i as nat, ours, seat);
        lemma_river_concat(river, before, replay::river_turn(p, i, ours), seat);
        lemma_river_one(so_far, reach, seat);
        lemma_river_concat(so_far, seq![reach], last, seat);
        lemma_river_turn(so_far, p.actor, p.river[i], forced, ours, seat);
        assert(Seq::<EventModel>::empty() + last =~= last);
        assert((river + tiles::card_texts(p.river.take(i))).push(tiles::card_text(p.river[i]))
            =~= river + tiles::card_texts(p.river.take(i + 1)));
    }
}

pub proof fn lemma_river_rivers(
    river: Seq<Seq<char>>,
    players: Seq<PlayerModel>,
    ours: u8,
    seat: u8,
)
    requires
        in_seat_order(players),
    ensures
        river_from(river, replay::rivers_replay(players, ours), seat) == if seat < players.len() {
            river + tiles::card_texts(players[seat as int].river)
        } else {
            river
        },
    decreases players.len(),
{
    if players.len() > 0 {
        let p = players.last();
        let rest = players.drop_last();
        assert(p == players[players.len() - 1]);
        assert forall|i: int| 0 <= i < rest.len() implies (#[trigger] rest[i]).actor == i by {
            assert(players[i].actor == i);
        }
        lemma_river_rivers(river, rest, ours, seat);
        let before = replay::rivers_replay(rest, ours);
        lemma_river_concat(river, before, replay::river_replay(p, p.river.len(), ours), seat);
        lemma_river_river(river_from(river, before, seat), p, p.river.len(), ours, seat);
        assert(p.river.take(p.river.len() as int) =~= p.river);
    }
}

/// A part of a stream without discards and calls leaves a river as it is.
pub proof fn lemma_no_discards(river: Seq<Seq<char>>, events: Seq<EventModel>, seat: u8)
    requires
        forall|i: int| 0 <= i < events.len() ==> (#[trigger] events[i]) is Tsumo || events[i] is Reach,
    ensures
        river_from(river, events, seat) == river,
    decreases events.len(),
{
    if events.len() > 0 {
        let rest = events.drop_last();
        assert forall|i: int| 0 <= i < rest.len() implies (#[trigger] rest[i]) is Tsumo
            || rest[i] is Reach by {
            assert(events[i] is Tsumo || events[i] is Reach);
        }
        lemma_no_discards(river, rest, seat);
        assert(events[events.len() - 1] is Tsumo || events[events.len() - 1] is Reach);
    }
}

/// A seat's river before its turn number `t` of the replay holds `t` tiles.
pub proof fn lemma_river_head(data: Json, status: GameStatus, k: int, t: int)
    requires
        restore::restored(data, status) is Ok,
        0 <= k < restore::players_in(data, status).len(),
        0 <= t <= restore::players_in(data, status)[k].river.len(),
    ensures
        ({
            let players = restore::players_in(data, status);
            let head = seq![restore::restored(data, status)->Ok_0.events[0]]
                + replay::claims_replay(
                players,
                restore::chairs_in(data, status),
                status.seat,
            )->Ok_0 + replay::rivers_replay(players.take(k), status.seat) + replay::river_replay(
                players[k],
                t as nat,
                status.seat,
            );
            river_from(Seq::empty(), head, k as u8).len() == t
        }),
{
    let ours = status.seat;
    let seat = k as u8;
    let none = Seq::<Seq<char>>::empty();
    let players = restore::players_in(data, status);
    let chairs = restore::chairs_in(data, status);
    let deal = restore::restored(data, status)->Ok_0.events[0];
    let first = seq![deal];
    let claimed = replay::claims_replay(players, chairs, ours)->Ok_0;
    let others = replay::rivers_replay(players.take(k), ours);
    let own = replay::river_replay(players[k], t as nat, ours);
    lemma_players_in_seat_order(data, status);
    assert(players[k].actor == k);
    assert forall|i: int| 0 <= i < players.take(k).len() implies (
    #[trigger] players.take(k)[i]).actor == i by {
        assert(players[i].actor == i);
    }
    lemma_river_one(none, deal, seat);
    lemma_river_concat(none, first, claimed, seat);
    lemma_river_claims(none, players, chairs, ours, seat);
    lemma_river_concat(none, first + claimed, others, seat);
    lemma_river_rivers(none, players.take(k), ours, seat);
    lemma_river_concat(none, first + claimed + others, own, seat);
    lemma_river_river(none, players[k], t as nat, ours, seat);
}

/// The stream rebuilds every river: a tracker that follows it sees exactly the
/// tiles that the snapshot shows, in their order.
pub proof fn law_rivers_are_rebuilt(data: Json, status: GameStatus, seat: u8)
    requires
        restore::restored(data, status) is Ok,
        seat < restore::players_in(data, status).len(),
    ensures
        river_from(Seq::empty(), restore::restored(data, status)->Ok_0.events, seat)
            == tiles::card_texts(restore::players_in(data, status)[seat as int].river),
{
    let o = restore::restored(data, status)->Ok_0;
    let ours = status.seat;
    let none = Seq::<Seq<char>>::empty();
    let players = restore::players_in(data, status);
    let chairs = restore::chairs_in(data, status);
    let claimed = replay::claims_replay(players, chairs, ours)->Ok_0;
    let rivers = replay::rivers_replay(players, ours);
    let first = seq![o.events[0]];
    let replayed = first + claimed + rivers;
    let pending = o.events.skip(replayed.len() as int);
    assert(o.events =~= replayed + pending);
    lemma_players_in_seat_order(data, status);
    lemma_river_one(none, o.events[0], seat);
    lemma_river_concat(none, first, claimed, seat);
    lemma_river_claims(none, players, chairs, ours, seat);
    lemma_river_concat(none, first + claimed, rivers, seat);
    lemma_river_rivers(none, players, ours, seat);
    lemma_river_concat(none, replayed, pending, seat);
    let full = tiles::card_texts(players[seat as int].river);
    assert(none + full =~= full);
    if pending.len() > 0 {
        lemma_river_one(full, pending[0], seat);
        assert(pending =~= seq![pending[0]]);
    }
}

/// How often a seat declares riichi in a stream.
pub open spec fn declarations(events: Seq<EventModel>, seat: u8) -> int
    decreases events.len(),
{
    if events.len() == 0 {
        0
    } else {
        declarations(events.drop_last(), seat) + match events.last() {
            EventModel::Reach { actor, .. } if actor == seat => 1int,
            _ => 0int,
        }
    }
}

proof fn lemma_declarations_concat(a: Seq<EventModel>, b: Seq<EventModel>, seat: u8)
    ensures
        declarations(a + b, seat) == declarations(a, seat) + declarations(b, seat),
    decreases b.len(),
{
    if b.len() == 0 {
        assert(a + b =~= a);
    } else {
        lemma_declarations_concat(a, b.drop_last(), seat);
        assert((a + b).drop_last() =~= a + b.drop_last());
    }
}

/// A stream without a declaration holds none.
proof fn lemma_no_declarations(events: Seq<EventModel>, seat: u8)
    requires
        forall|i: int| 0 <= i < events.len() ==> !((#[trigger] events[i]) is Reach),
    ensures
        declarations(events, seat) == 0,
    decreases events.len(),
{
    if events.len() > 0 {
        assert(!(events[events.len() - 1] is Reach));
        assert forall|i: int| 0 <= i < events.drop_last().len() implies !((
        #[trigger] events.drop_last()[i]) is Reach) by {
            assert(!(events[i] is Reach));
        }
        lemma_no_declarations(events.drop_last(), seat);
    }
}

proof fn lemma_claims_declare_nothing(
    players: Seq<PlayerModel>,
    chairs: Seq<u8>,
    ours: u8,
    seat: u8,
)
    requires
        replay::claims_replay(players, chairs, ours) is Ok,
    ensures
        declarations(replay::claims_replay(players, chairs, ours)->Ok_0, seat) == 0,
    decreases players.len(),
{
    if players.len() > 0 {
        let p = players.last();
        let before = replay::claims_replay(players.drop_last(), chairs, ours)->Ok_0;
        let melds = replay::melds_replay(p.melds, p.actor, chairs, ours)->Ok_0;
        let kita = replay::kita_replay(p.kita.len(), p.actor, ours);
        lemma_claims_declare_nothing(players.drop_last(), chairs, ours, seat);
        lemma_melds_declare_nothing(p.melds, p.actor, chairs, ours, seat);
        lemma_kita_declares_nothing(p.kita.len(), p.actor, ours, seat);
        lemma_declarations_concat(before, melds, seat);
        lemma_declarations_concat(before + melds, kita, seat);
    }
}

proof fn lemma_melds_declare_nothing(
    melds: Seq<MeldModel>,
    actor: u8,
    chairs: Seq<u8>,
    ours: u8,
    seat: u8,
)
    requires
        replay::melds_replay(melds, actor, chairs, ours) is Ok,
    ensures
        declarations(replay::melds_replay(melds, actor, chairs, ours)->Ok_0, seat) == 0,
    decreases melds.len(),
{
    if melds.len() > 0 {
        let before = replay::melds_replay(melds.drop_last(), actor, chairs, ours)->Ok_0;
        let last = replay::meld_replay(melds.last(), actor, chairs, ours)->Ok_0;
        lemma_melds_declare_nothing(melds.drop_last(), actor, chairs, ours, seat);
        lemma_no_declarations(last, seat);
        lemma_declarations_concat(before, last, seat);
    }
}

proof fn lemma_kita_declares_nothing(count: nat, actor: u8, ours: u8, seat: u8)
    ensures
        declarations(replay::kita_replay(count, actor, ours), seat) == 0,
    decreases count,
{
    if count > 0 {
        let before = replay::kita_replay((count - 1) as nat, actor, ours);
        let kita = EventModel::Kita { actor, pai: Some(checks::north()) };
        lemma_kita_declares_nothing((count - 1) as nat, actor, ours, seat);
        lemma_no_declarations(seq![kita], seat);
        lemma_no_declarations(replay::rinshan(actor, ours), seat);
        lemma_declarations_concat(before, seq![kita], seat);
        lemma_declarations_concat(before + seq![kita], replay::rinshan(actor, ours), seat);
    }
}

/// A player declared riichi on one of the first tiles of the river.
pub open spec fn declared_within(p: PlayerModel, count: int) -> bool {
    p.riichi && 0 <= p.riichi_pos < count
}

proof fn lemma_river_declares_once(p: PlayerModel, count: nat, ours: u8, seat: u8)
    ensures
        declarations(replay::river_replay(p, count, ours), seat) == if p.actor == seat
            && declared_within(p, count as int) {
            1int
        } else {
            0
        },
    decreases count,
{
    if count > 0 {
        let i = count - 1;
        let before = replay::river_replay(p, i as nat, ours);
        let reach = EventModel::Reach { actor: p.actor, pai: None };
        let last = replay::turn(p.actor, p.river[i], p.riichi && i > p.riichi_pos, ours);
        lemma_river_declares_once(p, i as nat, ours, seat);
        lemma_declarations_concat(before, replay::river_turn(p, i, ours), seat);
        lemma_no_declarations(last, seat);
        lemma_declarations_concat(seq![reach], last, seat);
        assert(Seq::<EventModel>::empty() + last =~= last);
        assert(seq![reach].drop_last() =~= Seq::empty());
        reveal_with_fuel(declarations, 2);
    }
}

proof fn lemma_rivers_declare_once(players: Seq<PlayerModel>, ours: u8, seat: u8)
    requires
        in_seat_order(players),
    ensures
        declarations(replay::rivers_replay(players, ours), seat) == if seat < players.len()
            && declared_within(
            players[seat as int],
            players[seat as int].river.len() as int,
        ) {
            1int
        } else {
            0
        },
    decreases players.len(),
{
    if players.len() > 0 {
        let p = players.last();
        let rest = players.drop_last();
        assert(p == players[players.len() - 1]);
        assert forall|i: int| 0 <= i < rest.len() implies (#[trigger] rest[i]).actor == i by {
            assert(players[i].actor == i);
        }
        lemma_rivers_declare_once(rest, ours, seat);
        lemma_river_declares_once(p, p.river.len(), ours, seat);
        lemma_declarations_concat(
            replay::rivers_replay(rest, ours),
            replay::river_replay(p, p.river.len(), ours),
            seat,
        );
    }
}

/// A riichi of the snapshot is declared exactly once, and no other is.
pub proof fn law_riichi_is_declared_once(data: Json, status: GameStatus, seat: u8)
    requires
        restore::restored(data, status) is Ok,
        seat < restore::players_in(data, status).len(),
    ensures
        ({
            let p = restore::players_in(data, status)[seat as int];
            declarations(restore::restored(data, status)->Ok_0.events, seat) == if declared_within(
                p,
                p.river.len() as int,
            ) {
                1int
            } else {
                0
            }
        }),
{
    let o = restore::restored(data, status)->Ok_0;
    let ours = status.seat;
    let players = restore::players_in(data, status);
    let chairs = restore::chairs_in(data, status);
    let claimed = replay::claims_replay(players, chairs, ours)->Ok_0;
    let rivers = replay::rivers_replay(players, ours);
    let first = seq![o.events[0]];
    let replayed = first + claimed + rivers;
    let pending = o.events.skip(replayed.len() as int);
    assert(o.events =~= replayed + pending);
    lemma_players_in_seat_order(data, status);
    lemma_no_declarations(first, seat);
    lemma_claims_declare_nothing(players, chairs, ours, seat);
    lemma_rivers_declare_once(players, ours, seat);
    lemma_no_declarations(pending, seat);
    lemma_declarations_concat(first, claimed, seat);
    lemma_declarations_concat(first + claimed, rivers, seat);
    lemma_declarations_concat(replayed, pending, seat);
}

/// 1 where an event is a call of a seat, or a north that it sets aside.
pub open spec fn call_count(e: EventModel, seat: u8) -> int {
    match e {
        EventModel::Chi { actor, .. } if actor == seat => 1,
        EventModel::Pon { actor, .. } if actor == seat => 1,
        EventModel::Daiminkan { actor, .. } if actor == seat => 1,
        EventModel::Ankan { actor, .. } if actor == seat => 1,
        EventModel::Kita { actor, .. } if actor == seat => 1,
        _ => 0,
    }
}

/// How many calls and norths of a seat a stream holds. A promoted pon counts
/// once, as the pon.
pub open spec fn calls(events: Seq<EventModel>, seat: u8) -> int
    decreases events.len(),
{
    if events.len() == 0 {
        0
    } else {
        calls(events.drop_last(), seat) + call_count(events.last(), seat)
    }
}

proof fn lemma_calls_concat(a: Seq<EventModel>, b: Seq<EventModel>, seat: u8)
    ensures
        calls(a + b, seat) == calls(a, seat) + calls(b, seat),
    decreases b.len(),
{
    if b.len() == 0 {
        assert(a + b =~= a);
    } else {
        lemma_calls_concat(a, b.drop_last(), seat);
        assert((a + b).drop_last() =~= a + b.drop_last());
    }
}

/// A stream without a call holds none.
proof fn lemma_no_calls(events: Seq<EventModel>, seat: u8)
    requires
        forall|i: int| 0 <= i < events.len() ==> call_count(#[trigger] events[i], seat) == 0,
    ensures
        calls(events, seat) == 0,
    decreases events.len(),
{
    if events.len() > 0 {
        assert(call_count(events[events.len() - 1], seat) == 0);
        assert forall|i: int| 0 <= i < events.drop_last().len() implies call_count(
            #[trigger] events.drop_last()[i],
            seat,
        ) == 0 by {
            assert(call_count(events[i], seat) == 0);
        }
        lemma_no_calls(events.drop_last(), seat);
    }
}

/// A stream whose first event is its only call.
proof fn lemma_one_call(events: Seq<EventModel>, seat: u8)
    requires
        events.len() > 0,
        forall|i: int| 0 < i < events.len() ==> call_count(#[trigger] events[i], seat) == 0,
    ensures
        calls(events, seat) == call_count(events[0], seat),
{
    let first = seq![events[0]];
    let rest = events.skip(1);
    assert(events =~= first + rest);
    assert forall|i: int| 0 <= i < rest.len() implies call_count(#[trigger] rest[i], seat)
        == 0 by {
        assert(call_count(events[i + 1], seat) == 0);
    }
    lemma_no_calls(rest, seat);
    lemma_calls_concat(first, rest, seat);
    assert(first.drop_last() =~= Seq::empty());
    reveal_with_fuel(calls, 2);
}

proof fn lemma_calls_melds(
    melds: Seq<MeldModel>,
    actor: u8,
    chairs: Seq<u8>,
    ours: u8,
    seat: u8,
)
    requires
        replay::melds_replay(melds, actor, chairs, ours) is Ok,
    ensures
        calls(replay::melds_replay(melds, actor, chairs, ours)->Ok_0, seat) == if actor == seat {
            melds.len() as int
        } else {
            0
        },
    decreases melds.len(),
{
    if melds.len() > 0 {
        let m = melds.last();
        let before = replay::melds_replay(melds.drop_last(), actor, chairs, ours)->Ok_0;
        let last = replay::meld_replay(m, actor, chairs, ours)->Ok_0;
        lemma_calls_melds(melds.drop_last(), actor, chairs, ours, seat);
        lemma_calls_concat(before, last, seat);
        match replay::meld_source(m, chairs)->Ok_0 {
            None => lemma_one_call(replay::meld_events(m, actor, actor, ours)->Ok_0, seat),
            Some(source) => {
                let turn = replay::turn(source, replay::claimed_tile(m), false, ours);
                let events = replay::meld_events(m, actor, source, ours)->Ok_0;
                lemma_no_calls(turn, seat);
                lemma_one_call(events, seat);
                lemma_calls_concat(turn, events, seat);
            },
        }
    }
}

proof fn lemma_calls_kita(count: nat, actor: u8, ours: u8, seat: u8)
    ensures
        calls(replay::kita_replay(count, actor, ours), seat) == if actor == seat {
            count as int
        } else {
            0
        },
    decreases count,
{
    if count > 0 {
        let before = replay::kita_replay((count - 1) as nat, actor, ours);
        let kita = EventModel::Kita { actor, pai: Some(checks::north()) };
        lemma_calls_kita((count - 1) as nat, actor, ours, seat);
        lemma_one_call(seq![kita], seat);
        lemma_no_calls(replay::rinshan(actor, ours), seat);
        lemma_calls_concat(before, seq![kita], seat);
        lemma_calls_concat(before + seq![kita], replay::rinshan(actor, ours), seat);
    }
}

proof fn lemma_calls_claims(players: Seq<PlayerModel>, chairs: Seq<u8>, ours: u8, seat: u8)
    requires
        replay::claims_replay(players, chairs, ours) is Ok,
        in_seat_order(players),
    ensures
        calls(replay::claims_replay(players, chairs, ours)->Ok_0, seat) == if seat
            < players.len() {
            players[seat as int].melds.len() + players[seat as int].kita.len()
        } else {
            0
        },
    decreases players.len(),
{
    if players.len() > 0 {
        let p = players.last();
        let rest = players.drop_last();
        assert(p == players[players.len() - 1]);
        assert forall|i: int| 0 <= i < rest.len() implies (#[trigger] rest[i]).actor == i by {
            assert(players[i].actor == i);
        }
        let before = replay::claims_replay(rest, chairs, ours)->Ok_0;
        let melds = replay::melds_replay(p.melds, p.actor, chairs, ours)->Ok_0;
        let kita = replay::kita_replay(p.kita.len(), p.actor, ours);
        lemma_calls_claims(rest, chairs, ours, seat);
        lemma_calls_melds(p.melds, p.actor, chairs, ours, seat);
        lemma_calls_kita(p.kita.len(), p.actor, ours, seat);
        lemma_calls_concat(before, melds, seat);
        lemma_calls_concat(before + melds, kita, seat);
    }
}

proof fn lemma_calls_rivers(players: Seq<PlayerModel>, ours: u8, seat: u8)
    ensures
        calls(replay::rivers_replay(players, ours), seat) == 0,
    decreases players.len(),
{
    if players.len() > 0 {
        let p = players.last();
        lemma_calls_rivers(players.drop_last(), ours, seat);
        lemma_calls_river(p, p.river.len(), ours, seat);
        lemma_calls_concat(
            replay::rivers_replay(players.drop_last(), ours),
            replay::river_replay(p, p.river.len(), ours),
            seat,
        );
    }
}

proof fn lemma_calls_river(p: PlayerModel, count: nat, ours: u8, seat: u8)
    ensures
        calls(replay::river_replay(p, count, ours), seat) == 0,
    decreases count,
{
    if count > 0 {
        lemma_calls_river(p, (count - 1) as nat, ours, seat);
        lemma_no_calls(replay::river_turn(p, count - 1, ours), seat);
        lemma_calls_concat(
            replay::river_replay(p, (count - 1) as nat, ours),
            replay::river_turn(p, count - 1, ours),
            seat,
        );
    }
}

/// Every meld of the snapshot and every north set aside is replayed once, by
/// its owner, and no other is.
pub proof fn law_every_meld_is_replayed(data: Json, status: GameStatus, seat: u8)
    requires
        restore::restored(data, status) is Ok,
        seat < restore::players_in(data, status).len(),
    ensures
        ({
            let p = restore::players_in(data, status)[seat as int];
            calls(restore::restored(data, status)->Ok_0.events, seat) == p.melds.len()
                + p.kita.len()
        }),
{
    let o = restore::restored(data, status)->Ok_0;
    let ours = status.seat;
    let players = restore::players_in(data, status);
    let chairs = restore::chairs_in(data, status);
    let claimed = replay::claims_replay(players, chairs, ours)->Ok_0;
    let rivers = replay::rivers_replay(players, ours);
    let first = seq![o.events[0]];
    let replayed = first + claimed + rivers;
    let pending = o.events.skip(replayed.len() as int);
    assert(o.events =~= replayed + pending);
    lemma_players_in_seat_order(data, status);
    lemma_no_calls(first, seat);
    lemma_calls_claims(players, chairs, ours, seat);
    lemma_calls_rivers(players, ours, seat);
    lemma_no_calls(pending, seat);
    lemma_calls_concat(first, claimed, seat);
    lemma_calls_concat(first + claimed, rivers, seat);
    lemma_calls_concat(replayed, pending, seat);
}

/// What a player's kans add to the draws that the rivers show: one for an open
/// kan, and one less for a promoted pon.
pub open spec fn kan_draws(melds: Seq<MeldModel>) -> int
    decreases melds.len(),
{
    if melds.len() == 0 {
        0
    } else {
        kan_draws(melds.drop_last()) + if melds.last().action_type == 6 {
            1int
        } else if melds.last().action_type == 9 {
            -1
        } else {
            0
        }
    }
}

/// The discards of the rivers, with what the kans add.
pub open spec fn turns_taken(players: Seq<PlayerModel>) -> int
    decreases players.len(),
{
    if players.len() == 0 {
        0
    } else {
        turns_taken(players.drop_last()) + players.last().river.len() + kan_draws(
            players.last().melds,
        )
    }
}

proof fn lemma_meld_draws_and_cost(melds: Seq<MeldModel>)
    requires
        checks::melded_tiles(melds) is Ok,
    ensures
        checks::meld_draws(melds) - checks::meld_cost(melds) == kan_draws(melds),
    decreases melds.len(),
{
    if melds.len() > 0 {
        lemma_meld_draws_and_cost(melds.drop_last());
    }
}

pub proof fn lemma_tiles_seen(
    players: Seq<PlayerModel>,
    chairs: Seq<u8>,
    ours: u8,
    current: Option<u8>,
)
    requires
        in_seat_order(players),
        replay::claims_replay(players, chairs, ours) is Ok,
        checks::pending_draw(players, current) is Ok,
    ensures
        checks::pending_draw(players, current)->Ok_0 matches Some(actor) ==> actor
            < players.len() && current == Some(actor),
        checks::tiles_seen(players) == 13 * players.len() + turns_taken(players) + if (
        checks::pending_draw(players, current)->Ok_0) is Some {
            1int
        } else {
            0
        },
    decreases players.len(),
{
    if players.len() > 0 {
        let p = players.last();
        let rest = players.drop_last();
        assert(p == players[players.len() - 1]);
        assert forall|i: int| 0 <= i < rest.len() implies (#[trigger] rest[i]).actor == i by {
            assert(players[i].actor == i);
        }
        lemma_tiles_seen(rest, chairs, ours, current);
        lemma_melds_are_known(p.melds, p.actor, chairs, ours);
        lemma_meld_draws_and_cost(p.melds);
    }
}

/// Melds that can be replayed are of known kinds.
proof fn lemma_melds_are_known(melds: Seq<MeldModel>, actor: u8, chairs: Seq<u8>, ours: u8)
    requires
        replay::melds_replay(melds, actor, chairs, ours) is Ok,
    ensures
        checks::melded_tiles(melds) is Ok,
    decreases melds.len(),
{
    if melds.len() > 0 {
        lemma_melds_are_known(melds.drop_last(), actor, chairs, ours);
    }
}

/// The wall that passes: what the rivers left of it, less a pending draw, one
/// less for each open kan and one more for each promoted pon.
pub proof fn law_wall_follows_the_rivers(data: Json, status: GameStatus)
    requires
        restore::restored(data, status) is Ok,
        restore::players_in(data, status).len() == status.num_players,
    ensures
        ({
            let players = restore::players_in(data, status);
            let pending = checks::pending_draw(players, restore::current_actor(data, status))->Ok_0;
            let left = snapshot::int_or(
                restore::hand_status_in(data),
                "left_pai_shan"@,
                (-1) as i64,
            );
            left == (if status.num_players == 3 {
                55int
            } else {
                70
            }) - turns_taken(players) - if pending is Some {
                1int
            } else {
                0
            }
        }),
{
    let players = restore::players_in(data, status);
    lemma_players_in_seat_order(data, status);
    lemma_tiles_seen(
        players,
        restore::chairs_in(data, status),
        status.seat,
        restore::current_actor(data, status),
    );
}

} // verus!
