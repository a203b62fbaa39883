//! Where the melds, the discards and the draws of a snapshot stand in its
//! restored stream.
use crate::events::EventModel;
use crate::json::Json;
use crate::restore;
use crate::restore::checks;
use crate::restore::replay;
use crate::restore::snapshot;
use crate::restore::snapshot::{GameStatus, MeldModel, PlayerModel};
use crate::restore::tracker;
use crate::tiles;
use vstd::prelude::*;

verus! {

/// A part of a stream stands in it from place `at` on.
spec fn stands_at(events: Seq<EventModel>, part: Seq<EventModel>, at: int) -> bool {
    0 <= at && at + part.len() <= events.len() && forall|i: int|
        0 <= i < part.len() ==> #[trigger] part[i] == events[at + i]
}

proof fn lemma_melds_hold(
    melds: Seq<MeldModel>,
    actor: u8,
    chairs: Seq<u8>,
    ours: u8,
    q: int,
) -> (at: int)
    requires
        replay::melds_replay(melds, actor, chairs, ours) is Ok,
        0 <= q < melds.len(),
    ensures
        replay::meld_replay(melds[q], actor, chairs, ours) is Ok,
        stands_at(
            replay::melds_replay(melds, actor, chairs, ours)->Ok_0,
            replay::meld_replay(melds[q], actor, chairs, ours)->Ok_0,
            at,
        ),
    decreases melds.len(),
{
    let before = replay::melds_replay(melds.drop_last(), actor, chairs, ours)->Ok_0;
    if q == melds.len() - 1 {
        before.len() as int
    } else {
        lemma_melds_hold(melds.drop_last(), actor, chairs, ours, q)
    }
}

proof fn lemma_claims_hold(
    players: Seq<PlayerModel>,
    chairs: Seq<u8>,
    ours: u8,
    k: int,
    q: int,
) -> (at: int)
    requires
        replay::claims_replay(players, chairs, ours) is Ok,
        0 <= k < players.len(),
        0 <= q < players[k].melds.len(),
    ensures
        replay::meld_replay(players[k].melds[q], players[k].actor, chairs, ours) is Ok,
        stands_at(
            replay::claims_replay(players, chairs, ours)->Ok_0,
            replay::meld_replay(players[k].melds[q], players[k].actor, chairs, ours)->Ok_0,
            at,
        ),
    decreases players.len(),
{
    let before = replay::claims_replay(players.drop_last(), chairs, ours)->Ok_0;
    if k == players.len() - 1 {
        let p = players.last();
        let inner = lemma_melds_hold(p.melds, p.actor, chairs, ours, q);
        before.len() + inner
    } else {
        lemma_claims_hold(players.drop_last(), chairs, ours, k, q)
    }
}

/// The tiles are those of the codes, one for one.
pub open spec fn tiles_of(pais: Seq<Seq<char>>, codes: Seq<u32>) -> bool {
    pais.len() == codes.len() && forall|i: int|
        0 <= i < codes.len() ==> #[trigger] pais[i] == tiles::card_text(codes[i])
}

/// Before place `i` a seat draws and then discards this tile, by choice.
pub open spec fn discards_before(events: Seq<EventModel>, i: int, seat: u8, tile: u32) -> bool {
    &&& i >= 2
    &&& events[i - 1] == (EventModel::Dahai {
        actor: seat,
        pai: tiles::card_text(tile),
        tsumogiri: false,
    })
    &&& events[i - 2] is Tsumo
    &&& events[i - 2]->Tsumo_actor == seat
}

/// At place `i` of the stream the meld is made by its owner: a chi, a pon or an
/// open kan right after its source discarded the claimed tile, a promoted pon
/// as that pon and then the promotion, and a concealed kan by itself. The tiles
/// are those that the snapshot names.
pub open spec fn made_at(
    events: Seq<EventModel>,
    i: int,
    owner: u8,
    m: MeldModel,
    chairs: Seq<u8>,
) -> bool {
    &&& 0 <= i < events.len()
    &&& if m.action_type == 8 {
        match events[i] {
            EventModel::Ankan { actor, consumed } => actor == owner && tiles_of(
                consumed,
                m.group.push(m.card),
            ) && m.group.len() == 3,
            _ => false,
        }
    } else {
        &&& m.source_roster matches Some(chair)
        &&& 0 <= chair < chairs.len()
        &&& {
            let source = chairs[chair as int];
            if m.action_type == 2 || m.action_type == 3 || m.action_type == 4 {
                discards_before(events, i, source, m.card) && match events[i] {
                    EventModel::Chi { actor, target, pai, consumed } => actor == owner && target
                        == source && pai == tiles::card_text(m.card) && tiles_of(
                        consumed,
                        m.group.take(2),
                    ),
                    _ => false,
                }
            } else if m.action_type == 5 {
                discards_before(events, i, source, m.card) && match events[i] {
                    EventModel::Pon { actor, target, pai, consumed } => actor == owner && target
                        == source && pai == tiles::card_text(m.card) && tiles_of(
                        consumed,
                        m.group.take(2),
                    ),
                    _ => false,
                }
            } else if m.action_type == 6 {
                discards_before(events, i, source, m.card) && match events[i] {
                    EventModel::Daiminkan { actor, target, pai, consumed } => actor == owner
                        && target == source && pai == tiles::card_text(m.card) && tiles_of(
                        consumed,
                        m.group.take(3),
                    ),
                    _ => false,
                }
            } else {
                &&& m.action_type == 9
                &&& discards_before(events, i, source, m.bu_gang)
                &&& match events[i] {
                    EventModel::Pon { actor, target, pai, consumed } => actor == owner && target
                        == source && pai == tiles::card_text(m.bu_gang) && tiles_of(
                        consumed,
                        m.group.take(2),
                    ),
                    _ => false,
                }
                &&& i + 1 < events.len()
                &&& match events[i + 1] {
                    EventModel::Kakan { actor, pai, consumed } => actor == owner && pai
                        == tiles::card_text(m.card) && tiles_of(
                        consumed,
                        m.group.take(2).push(m.bu_gang),
                    ),
                    _ => false,
                }
            }
        }
    }
}

proof fn lemma_meld_made(
    events: Seq<EventModel>,
    at: int,
    owner: u8,
    m: MeldModel,
    chairs: Seq<u8>,
    ours: u8,
) -> (i: int)
    requires
        replay::meld_replay(m, owner, chairs, ours) is Ok,
        stands_at(events, replay::meld_replay(m, owner, chairs, ours)->Ok_0, at),
    ensures
        made_at(events, i, owner, m, chairs),
        at <= i < at + replay::meld_replay(m, owner, chairs, ours)->Ok_0.len(),
{
    let part = replay::meld_replay(m, owner, chairs, ours)->Ok_0;
    assert forall|j: int| 0 <= j < part.len() implies #[trigger] events[at + j] == part[j] by {
        assert(part[j] == events[at + j]);
    }
    if m.action_type == 8 {
        assert(events[at + 0] == part[0]);
        at
    } else {
        assert(events[at + 0] == part[0]);
        assert(events[at + 1] == part[1]);
        assert(events[at + 2] == part[2]);
        if m.action_type == 9 {
            assert(events[at + 3] == part[3]);
        }
        at + 2
    }
}

/// Every meld of the snapshot is made in the stream by the player who has it,
/// from the player whom it was claimed from, with its tiles.
pub proof fn law_melds_are_made_as_named(data: Json, status: GameStatus, k: int, q: int)
    requires
        restore::restored(data, status) is Ok,
        0 <= k < restore::players_in(data, status).len(),
        0 <= q < restore::players_in(data, status)[k].melds.len(),
    ensures
        exists|i: int| #[trigger]
            made_at(
                restore::restored(data, status)->Ok_0.events,
                i,
                k as u8,
                restore::players_in(data, status)[k].melds[q],
                restore::chairs_in(data, status),
            ),
{
    let o = restore::restored(data, status)->Ok_0;
    let players = restore::players_in(data, status);
    let chairs = restore::chairs_in(data, status);
    tracker::lemma_players_in_seat_order(data, status);
    assert(players[k].actor == k);
    let inner = lemma_claims_hold(players, chairs, status.seat, k, q);
    let claimed = replay::claims_replay(players, chairs, status.seat)->Ok_0;
    let part = replay::meld_replay(players[k].melds[q], k as u8, chairs, status.seat)->Ok_0;
    assert forall|i: int| 0 <= i < part.len() implies #[trigger] part[i] == o.events[1 + inner
        + i] by {
        assert(part[i] == claimed[inner + i]);
    }
    let i = lemma_meld_made(
        o.events,
        1 + inner,
        k as u8,
        players[k].melds[q],
        chairs,
        status.seat,
    );
    assert(made_at(o.events, i, k as u8, players[k].melds[q], chairs));
}

proof fn lemma_melds_hold_in_order(
    melds: Seq<MeldModel>,
    actor: u8,
    chairs: Seq<u8>,
    ours: u8,
    q: int,
    r: int,
) -> (at: (int, int))
    requires
        replay::melds_replay(melds, actor, chairs, ours) is Ok,
        0 <= q < r < melds.len(),
    ensures
        ({
            let all = replay::melds_replay(melds, actor, chairs, ours)->Ok_0;
            let first = replay::meld_replay(melds[q], actor, chairs, ours);
            let second = replay::meld_replay(melds[r], actor, chairs, ours);
            &&& first is Ok && second is Ok
            &&& stands_at(all, first->Ok_0, at.0)
            &&& stands_at(all, second->Ok_0, at.1)
            &&& at.0 + first->Ok_0.len() <= at.1
        }),
    decreases melds.len(),
{
    let before = replay::melds_replay(melds.drop_last(), actor, chairs, ours)->Ok_0;
    if r == melds.len() - 1 {
        (lemma_melds_hold(melds.drop_last(), actor, chairs, ours, q), before.len() as int)
    } else {
        lemma_melds_hold_in_order(melds.drop_last(), actor, chairs, ours, q, r)
    }
}

proof fn lemma_claims_hold_in_order(
    players: Seq<PlayerModel>,
    chairs: Seq<u8>,
    ours: u8,
    k: int,
    q: int,
    r: int,
) -> (at: (int, int))
    requires
        replay::claims_replay(players, chairs, ours) is Ok,
        0 <= k < players.len(),
        0 <= q < r < players[k].melds.len(),
    ensures
        ({
            let all = replay::claims_replay(players, chairs, ours)->Ok_0;
            let p = players[k];
            let first = replay::meld_replay(p.melds[q], p.actor, chairs, ours);
            let second = replay::meld_replay(p.melds[r], p.actor, chairs, ours);
            &&& first is Ok && second is Ok
            &&& stands_at(all, first->Ok_0, at.0)
            &&& stands_at(all, second->Ok_0, at.1)
            &&& at.0 + first->Ok_0.len() <= at.1
        }),
    decreases players.len(),
{
    let before = replay::claims_replay(players.drop_last(), chairs, ours)->Ok_0;
    if k == players.len() - 1 {
        let p = players.last();
        let inner = lemma_melds_hold_in_order(p.melds, p.actor, chairs, ours, q, r);
        (before.len() + inner.0, before.len() + inner.1)
    } else {
        lemma_claims_hold_in_order(players.drop_last(), chairs, ours, k, q, r)
    }
}

proof fn lemma_stands_behind(
    events: Seq<EventModel>,
    claimed: Seq<EventModel>,
    part: Seq<EventModel>,
    at: int,
)
    requires
        stands_at(claimed, part, at),
        claimed.len() < events.len(),
        forall|i: int| 0 <= i < claimed.len() ==> #[trigger] claimed[i] == events[1 + i],
    ensures
        stands_at(events, part, 1 + at),
{
    assert forall|i: int| 0 <= i < part.len() implies #[trigger] part[i] == events[1 + at + i] by {
        assert(part[i] == claimed[at + i]);
    }
}

/// The melds of a player are made in the order in which the snapshot lists
/// them.
pub proof fn law_melds_are_made_in_order(data: Json, status: GameStatus, k: int, q: int, r: int)
    requires
        restore::restored(data, status) is Ok,
        0 <= k < restore::players_in(data, status).len(),
        0 <= q < r < restore::players_in(data, status)[k].melds.len(),
    ensures
        exists|i: int, j: int|
            i < j && #[trigger] made_at(
                restore::restored(data, status)->Ok_0.events,
                i,
                k as u8,
                restore::players_in(data, status)[k].melds[q],
                restore::chairs_in(data, status),
            ) && #[trigger] made_at(
                restore::restored(data, status)->Ok_0.events,
                j,
                k as u8,
                restore::players_in(data, status)[k].melds[r],
                restore::chairs_in(data, status),
            ),
{
    let events = restore::restored(data, status)->Ok_0.events;
    let players = restore::players_in(data, status);
    let chairs = restore::chairs_in(data, status);
    let ours = status.seat;
    tracker::lemma_players_in_seat_order(data, status);
    assert(players[k].actor == k);
    let claimed = replay::claims_replay(players, chairs, ours)->Ok_0;
    let at = lemma_claims_hold_in_order(players, chairs, ours, k, q, r);
    let a = players[k].melds[q];
    let b = players[k].melds[r];
    assert forall|i: int| 0 <= i < claimed.len() implies #[trigger] claimed[i] == events[1 + i] by {
    }
    lemma_stands_behind(
        events,
        claimed,
        replay::meld_replay(a, k as u8, chairs, ours)->Ok_0,
        at.0,
    );
    lemma_stands_behind(
        events,
        claimed,
        replay::meld_replay(b, k as u8, chairs, ours)->Ok_0,
        at.1,
    );
    let i = lemma_meld_made(events, 1 + at.0, k as u8, a, chairs, ours);
    let j = lemma_meld_made(events, 1 + at.1, k as u8, b, chairs, ours);
    assert(i < j);
    assert(made_at(events, i, k as u8, a, chairs) && made_at(events, j, k as u8, b, chairs));
}

/// At place `i` the seat makes the discard of its river that has `t` tiles
/// before it, right after a draw: forced to be the draw where a riichi was
/// declared on an earlier tile, and with the declaration just before the draw
/// where it was declared on this one.
pub open spec fn river_tile_at(
    events: Seq<EventModel>,
    i: int,
    seat: u8,
    p: PlayerModel,
    t: int,
) -> bool {
    &&& 2 <= i < events.len()
    &&& events[i] == (EventModel::Dahai {
        actor: seat,
        pai: tiles::card_text(p.river[t]),
        tsumogiri: p.riichi && p.riichi_pos < t,
    })
    &&& events[i - 1] is Tsumo
    &&& events[i - 1]->Tsumo_actor == seat
    &&& tracker::river_from(Seq::empty(), events.take(i), seat).len() == t
    &&& p.riichi && p.riichi_pos == t <==> events[i - 2] == (EventModel::Reach {
        actor: seat,
        pai: None,
    })
}

/// Every tile of a river is discarded at its place in the river, after a
/// riichi forced to be the draw, and the riichi is declared on its own tile.
pub proof fn law_rivers_are_replayed_in_place(data: Json, status: GameStatus, k: int, t: int)
    requires
        restore::restored(data, status) is Ok,
        0 <= k < restore::players_in(data, status).len(),
        0 <= t < restore::players_in(data, status)[k].river.len(),
    ensures
        exists|i: int| #[trigger]
            river_tile_at(
                restore::restored(data, status)->Ok_0.events,
                i,
                k as u8,
                restore::players_in(data, status)[k],
                t,
            ),
{
    let o = restore::restored(data, status)->Ok_0;
    let players = restore::players_in(data, status);
    let chairs = restore::chairs_in(data, status);
    let head = stream_head(data, status, k, t);
    let turn = replay::river_turn(players[k], t, status.seat);
    tracker::lemma_players_in_seat_order(data, status);
    assert(players[k].actor == k);
    let tail = lemma_turn_in_stream(data, status, k, t);
    tracker::lemma_river_head(data, status, k, t);
    lemma_no_reach_before(players, chairs, status, k, t, o.events[0]);
    let i = lemma_tile_in_place(head, tail, players[k], k as u8, t, status.seat);
    assert(o.events == head + turn + tail);
    assert(river_tile_at(o.events, i, k as u8, players[k], t));
}

/// What comes before turn `t` of the river of player `k`.
spec fn stream_head(data: Json, status: GameStatus, k: int, t: int) -> Seq<EventModel> {
    let players = restore::players_in(data, status);
    seq![restore::restored(data, status)->Ok_0.events[0]] + replay::claims_replay(
        players,
        restore::chairs_in(data, status),
        status.seat,
    )->Ok_0 + replay::rivers_replay(players.take(k), status.seat) + replay::river_replay(
        players[k],
        t as nat,
        status.seat,
    )
}

proof fn lemma_turn_in_stream(data: Json, status: GameStatus, k: int, t: int) -> (tail: Seq<
    EventModel,
>)
    requires
        restore::restored(data, status) is Ok,
        0 <= k < restore::players_in(data, status).len(),
        0 <= t < restore::players_in(data, status)[k].river.len(),
    ensures
        restore::restored(data, status)->Ok_0.events == stream_head(data, status, k, t)
            + replay::river_turn(restore::players_in(data, status)[k], t, status.seat) + tail,
{
    let events = restore::restored(data, status)->Ok_0.events;
    let ours = status.seat;
    let players = restore::players_in(data, status);
    let p = players[k];
    let first = seq![events[0]];
    let claimed = replay::claims_replay(players, restore::chairs_in(data, status), ours)->Ok_0;
    let rivers = replay::rivers_replay(players, ours);
    let others = replay::rivers_replay(players.take(k), ours);
    let own = replay::river_replay(p, t as nat, ours);
    let turn = replay::river_turn(p, t, ours);
    let after = lemma_rivers_split(players, k, ours);
    let later = lemma_river_split(p, t, p.river.len(), ours);
    let pending = events.skip((first + claimed + rivers).len() as int);
    let tail = later + after + pending;
    assert(events =~= first + claimed + rivers + pending);
    lemma_regrouped(first + claimed, others, own, turn, later, after, pending);
    tail
}

proof fn lemma_regrouped(
    front: Seq<EventModel>,
    others: Seq<EventModel>,
    own: Seq<EventModel>,
    turn: Seq<EventModel>,
    later: Seq<EventModel>,
    after: Seq<EventModel>,
    pending: Seq<EventModel>,
)
    ensures
        front + (others + (own + turn + later) + after) + pending == front + others + own + turn + (
        later + after + pending),
{
}

proof fn lemma_tile_in_place(
    head: Seq<EventModel>,
    tail: Seq<EventModel>,
    p: PlayerModel,
    seat: u8,
    t: int,
    ours: u8,
) -> (i: int)
    requires
        p.actor == seat,
        head.len() > 0,
        !(head.last() is Reach),
        tracker::river_from(Seq::empty(), head, seat).len() == t,
    ensures
        river_tile_at(head + replay::river_turn(p, t, ours) + tail, i, seat, p, t),
{
    let none = Seq::<Seq<char>>::empty();
    let turn = replay::river_turn(p, t, ours);
    let events = head + turn + tail;
    let at = head.len() as int;
    let declared = p.riichi && p.riichi_pos == t;
    let i = if declared {
        at + 2
    } else {
        at + 1
    };
    assert(turn.len() == i - at + 1);
    assert(events[i] == turn[i - at]);
    assert(events[i - 1] == turn[i - 1 - at]);
    let rest = turn.take(i - at);
    assert(events.take(i) =~= head + rest);
    tracker::lemma_river_concat(none, head, rest, seat);
    tracker::lemma_no_discards(tracker::river_from(none, head, seat), rest, seat);
    if declared {
        assert(events[at] == turn[0]);
    } else {
        assert(events[at - 1] == head.last());
    }
    i
}

/// The rivers of all players: those of the first `k`, that of the next, and
/// the others.
proof fn lemma_rivers_split(players: Seq<PlayerModel>, k: int, ours: u8) -> (after: Seq<EventModel>)
    requires
        0 <= k < players.len(),
    ensures
        replay::rivers_replay(players, ours) == replay::rivers_replay(players.take(k), ours)
            + replay::river_replay(players[k], players[k].river.len(), ours) + after,
    decreases players.len(),
{
    let before = replay::rivers_replay(players.take(k), ours);
    let own = replay::river_replay(players[k], players[k].river.len(), ours);
    if k == players.len() - 1 {
        assert(players.take(k) =~= players.drop_last());
        let none = Seq::<EventModel>::empty();
        assert(before + own + none =~= replay::rivers_replay(players, ours));
        none
    } else {
        let rest = players.drop_last();
        let shorter = lemma_rivers_split(rest, k, ours);
        assert(rest.take(k) =~= players.take(k));
        let p = players.last();
        let after = shorter + replay::river_replay(p, p.river.len(), ours);
        assert(before + own + after =~= replay::rivers_replay(players, ours));
        after
    }
}

/// A river: its first `t` turns, the next, and the others.
proof fn lemma_river_split(p: PlayerModel, t: int, count: nat, ours: u8) -> (later: Seq<EventModel>)
    requires
        0 <= t < count,
    ensures
        replay::river_replay(p, count, ours) == replay::river_replay(p, t as nat, ours)
            + replay::river_turn(p, t, ours) + later,
    decreases count,
{
    let before = replay::river_replay(p, t as nat, ours);
    let turn = replay::river_turn(p, t, ours);
    if t == count - 1 {
        let none = Seq::<EventModel>::empty();
        assert(before + turn + none =~= replay::river_replay(p, count, ours));
        none
    } else {
        let shorter = lemma_river_split(p, t, (count - 1) as nat, ours);
        let later = shorter + replay::river_turn(p, count - 1, ours);
        assert(before + turn + later =~= replay::river_replay(p, count, ours));
        later
    }
}

/// What comes before a turn that declares no riichi ends with something other
/// than a declaration.
proof fn lemma_no_reach_before(
    players: Seq<PlayerModel>,
    chairs: Seq<u8>,
    status: GameStatus,
    k: int,
    t: int,
    deal: EventModel,
)
    requires
        replay::claims_replay(players, chairs, status.seat) is Ok,
        0 <= k < players.len(),
        0 <= t,
        !(deal is Reach),
    ensures
        !((seq![deal] + replay::claims_replay(players, chairs, status.seat)->Ok_0
            + replay::rivers_replay(players.take(k), status.seat) + replay::river_replay(
            players[k],
            t as nat,
            status.seat,
        )).last() is Reach),
{
    let ours = status.seat;
    let claimed = replay::claims_replay(players, chairs, ours)->Ok_0;
    let others = replay::rivers_replay(players.take(k), ours);
    let own = replay::river_replay(players[k], t as nat, ours);
    lemma_claims_end(players, chairs, ours);
    lemma_rivers_end(players.take(k), ours);
    lemma_river_end(players[k], t as nat, ours);
    let all = seq![deal] + claimed + others + own;
    if own.len() > 0 {
        assert(all.last() == own.last());
    } else if others.len() > 0 {
        assert(all.last() == others.last());
    } else if claimed.len() > 0 {
        assert(all.last() == claimed.last());
    } else {
        assert(all.last() == deal);
    }
}

proof fn lemma_river_end(p: PlayerModel, count: nat, ours: u8)
    ensures
        replay::river_replay(p, count, ours).len() > 0 ==> !(replay::river_replay(
            p,
            count,
            ours,
        ).last() is Reach),
{
}

proof fn lemma_rivers_end(players: Seq<PlayerModel>, ours: u8)
    ensures
        replay::rivers_replay(players, ours).len() > 0 ==> !(replay::rivers_replay(
            players,
            ours,
        ).last() is Reach),
    decreases players.len(),
{
    if players.len() > 0 {
        let p = players.last();
        lemma_rivers_end(players.drop_last(), ours);
        lemma_river_end(p, p.river.len(), ours);
        let own = replay::river_replay(p, p.river.len(), ours);
        if own.len() > 0 {
            assert(replay::rivers_replay(players, ours).last() == own.last());
        } else {
            assert(replay::rivers_replay(players, ours) =~= replay::rivers_replay(
                players.drop_last(),
                ours,
            ));
        }
    }
}

/// No event of the melds and norths is a declaration.
proof fn lemma_claims_end(players: Seq<PlayerModel>, chairs: Seq<u8>, ours: u8)
    requires
        replay::claims_replay(players, chairs, ours) is Ok,
    ensures
        forall|j: int|
            0 <= j < replay::claims_replay(players, chairs, ours)->Ok_0.len() ==> !((
            #[trigger] replay::claims_replay(players, chairs, ours)->Ok_0[j]) is Reach),
    decreases players.len(),
{
    if players.len() > 0 {
        let p = players.last();
        lemma_claims_end(players.drop_last(), chairs, ours);
        lemma_melds_end(p.melds, p.actor, chairs, ours);
        lemma_kita_end(p.kita.len(), p.actor, ours);
        let before = replay::claims_replay(players.drop_last(), chairs, ours)->Ok_0;
        let melds = replay::melds_replay(p.melds, p.actor, chairs, ours)->Ok_0;
        let kita = replay::kita_replay(p.kita.len(), p.actor, ours);
        let all = before + melds + kita;
        assert forall|j: int| 0 <= j < all.len() implies !((#[trigger] all[j]) is Reach) by {
            if j < before.len() {
                assert(all[j] == before[j]);
            } else if j < before.len() + melds.len() {
                assert(all[j] == melds[j - before.len()]);
            } else {
                assert(all[j] == kita[j - before.len() - melds.len()]);
            }
        }
    }
}

proof fn lemma_melds_end(melds: Seq<MeldModel>, actor: u8, chairs: Seq<u8>, ours: u8)
    requires
        replay::melds_replay(melds, actor, chairs, ours) is Ok,
    ensures
        forall|j: int|
            0 <= j < replay::melds_replay(melds, actor, chairs, ours)->Ok_0.len() ==> !((
            #[trigger] replay::melds_replay(melds, actor, chairs, ours)->Ok_0[j]) is Reach),
    decreases melds.len(),
{
    if melds.len() > 0 {
        lemma_melds_end(melds.drop_last(), actor, chairs, ours);
        let before = replay::melds_replay(melds.drop_last(), actor, chairs, ours)->Ok_0;
        let last = replay::meld_replay(melds.last(), actor, chairs, ours)->Ok_0;
        let all = before + last;
        assert forall|j: int| 0 <= j < all.len() implies !((#[trigger] all[j]) is Reach) by {
            if j < before.len() {
                assert(all[j] == before[j]);
            } else {
                assert(all[j] == last[j - before.len()]);
            }
        }
    }
}

proof fn lemma_kita_end(count: nat, actor: u8, ours: u8)
    ensures
        forall|j: int|
            0 <= j < replay::kita_replay(count, actor, ours).len() ==> !((
            #[trigger] replay::kita_replay(count, actor, ours)[j]) is Reach),
    decreases count,
{
    if count > 0 {
        lemma_kita_end((count - 1) as nat, actor, ours);
        let before = replay::kita_replay((count - 1) as nat, actor, ours);
        let all = replay::kita_replay(count, actor, ours);
        assert forall|j: int| 0 <= j < all.len() implies !((#[trigger] all[j]) is Reach) by {
            if j < before.len() {
                assert(all[j] == before[j]);
            }
        }
    }
}

} // verus!
