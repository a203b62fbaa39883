//! The event stream that replays the melds and the rivers of a snapshot.
use crate::events;
use crate::events::{EventModel, MjaiEvent};
use crate::restore::checks;
use crate::restore::snapshot;
use crate::restore::snapshot::{MeldModel, MeldSnap, PlayerModel, PlayerSnap, RestoreError};
use crate::text;
use crate::tiles;
use vstd::prelude::*;

verus! {

/// A hidden tile.
pub open spec fn hidden() -> Seq<char> {
    seq!['?']
}

/// What a replayed draw shows: the tile itself for our seat, a hidden tile for
/// any other.
pub open spec fn draw_text(actor: u8, tile: u32, seat: u8) -> Seq<char> {
    if actor == seat {
        tiles::card_text(tile)
    } else {
        hidden()
    }
}

/// A replacement draw after a kan or a kita. Ours is already in the snapshot
/// hand, so only other seats draw.
pub open spec fn rinshan(actor: u8, seat: u8) -> Seq<EventModel> {
    if actor == seat {
        Seq::empty()
    } else {
        seq![EventModel::Tsumo { actor, pai: hidden() }]
    }
}

/// A draw and the discard of the same tile.
pub open spec fn turn(actor: u8, tile: u32, tsumogiri: bool, seat: u8) -> Seq<EventModel> {
    seq![
        EventModel::Tsumo { actor, pai: draw_text(actor, tile, seat) },
        EventModel::Dahai { actor, pai: tiles::card_text(tile), tsumogiri },
    ]
}

/// The seat that a meld claimed from; none for an ankan.
pub open spec fn meld_source(m: MeldModel, chairs: Seq<u8>) -> Result<Option<u8>, RestoreError> {
    if m.action_type == 8 {
        Ok(None)
    } else {
        match m.source_roster {
            None => Err(RestoreError::NoSource),
            Some(k) => if 0 <= k < chairs.len() {
                Ok(Some(chairs[k as int]))
            } else {
                Err(RestoreError::SourceRange)
            },
        }
    }
}

/// The tile that a meld claimed: for a kakan, that of its pon.
pub open spec fn claimed_tile(m: MeldModel) -> u32 {
    if m.action_type == 9 {
        m.bu_gang
    } else {
        m.card
    }
}

/// The events of the meld itself.
pub open spec fn meld_events(m: MeldModel, actor: u8, target: u8, seat: u8) -> Result<
    Seq<EventModel>,
    RestoreError,
> {
    let pair = tiles::card_texts(m.group.take(2));
    let pai = tiles::card_text(m.card);
    if 2 <= m.action_type <= 4 {
        if m.group.len() < 2 {
            Err(RestoreError::NoPair)
        } else {
            Ok(seq![EventModel::Chi { actor, target, pai, consumed: pair }])
        }
    } else if m.action_type == 5 {
        if m.group.len() < 2 {
            Err(RestoreError::NoPair)
        } else {
            Ok(seq![EventModel::Pon { actor, target, pai, consumed: pair }])
        }
    } else if m.action_type == 6 {
        if m.group.len() < 3 {
            Err(RestoreError::NoTriple)
        } else {
            let consumed = tiles::card_texts(m.group.take(3));
            Ok(seq![EventModel::Daiminkan { actor, target, pai, consumed }] + rinshan(actor, seat))
        }
    } else if m.action_type == 8 {
        if m.group.len() != 3 {
            Err(RestoreError::NoQuad)
        } else {
            let consumed = tiles::card_texts(m.group.push(m.card));
            Ok(seq![EventModel::Ankan { actor, consumed }] + rinshan(actor, seat))
        }
    } else if m.action_type == 9 {
        if m.group.len() < 2 {
            Err(RestoreError::NoPair)
        } else {
            let base = tiles::card_text(m.bu_gang);
            Ok(
                seq![
                    EventModel::Pon { actor, target, pai: base, consumed: pair },
                    EventModel::Kakan { actor, pai, consumed: pair.push(base) },
                ] + rinshan(actor, seat),
            )
        }
    } else {
        Err(RestoreError::UnknownMeld { action_type: m.action_type })
    }
}

/// A meld as it came about: the claimed turn of its source, then the meld.
pub open spec fn meld_replay(m: MeldModel, actor: u8, chairs: Seq<u8>, seat: u8) -> Result<
    Seq<EventModel>,
    RestoreError,
> {
    match meld_source(m, chairs) {
        Err(e) => Err(e),
        Ok(None) => meld_events(m, actor, actor, seat),
        Ok(Some(source)) => if claimed_tile(m) == 0 {
            Err(RestoreError::ZeroClaim)
        } else {
            match meld_events(m, actor, source, seat) {
                Err(e) => Err(e),
                Ok(events) => Ok(turn(source, claimed_tile(m), false, seat) + events),
            }
        },
    }
}

/// The melds of one player, one after the other.
pub open spec fn melds_replay(
    melds: Seq<MeldModel>,
    actor: u8,
    chairs: Seq<u8>,
    seat: u8,
) -> Result<Seq<EventModel>, RestoreError>
    decreases melds.len(),
{
    if melds.len() == 0 {
        Ok(Seq::empty())
    } else {
        match melds_replay(melds.drop_last(), actor, chairs, seat) {
            Err(e) => Err(e),
            Ok(before) => match meld_replay(melds.last(), actor, chairs, seat) {
                Err(e) => Err(e),
                Ok(events) => Ok(before + events),
            },
        }
    }
}

/// The norths that one player set aside, each with its replacement draw.
pub open spec fn kita_replay(count: nat, actor: u8, seat: u8) -> Seq<EventModel>
    decreases count,
{
    if count == 0 {
        Seq::empty()
    } else {
        kita_replay((count - 1) as nat, actor, seat) + seq![
            EventModel::Kita { actor, pai: Some(checks::north()) },
        ] + rinshan(actor, seat)
    }
}

/// The melds and norths of the players, in seat order.
pub open spec fn claims_replay(players: Seq<PlayerModel>, chairs: Seq<u8>, seat: u8) -> Result<
    Seq<EventModel>,
    RestoreError,
>
    decreases players.len(),
{
    if players.len() == 0 {
        Ok(Seq::empty())
    } else {
        let p = players.last();
        match claims_replay(players.drop_last(), chairs, seat) {
            Err(e) => Err(e),
            Ok(before) => match melds_replay(p.melds, p.actor, chairs, seat) {
                Err(e) => Err(e),
                Ok(events) => Ok(before + events + kita_replay(p.kita.len(), p.actor, seat)),
            },
        }
    }
}

/// One turn of a river: the riichi declaration where it was made on this tile,
/// then the turn, forced to discard the draw after a riichi.
pub open spec fn river_turn(p: PlayerModel, i: int, seat: u8) -> Seq<EventModel> {
    let declared = if p.riichi && p.riichi_pos == i {
        seq![EventModel::Reach { actor: p.actor, pai: None }]
    } else {
        Seq::empty()
    };
    declared + turn(p.actor, p.river[i], p.riichi && i > p.riichi_pos, seat)
}

/// The first turns of a river.
pub open spec fn river_replay(p: PlayerModel, count: nat, seat: u8) -> Seq<EventModel>
    decreases count,
{
    if count == 0 {
        Seq::empty()
    } else {
        river_replay(p, (count - 1) as nat, seat) + river_turn(p, count - 1, seat)
    }
}

/// The rivers of the players, in seat order.
pub open spec fn rivers_replay(players: Seq<PlayerModel>, seat: u8) -> Seq<EventModel>
    decreases players.len(),
{
    if players.len() == 0 {
        Seq::empty()
    } else {
        let p = players.last();
        rivers_replay(players.drop_last(), seat) + river_replay(p, p.river.len(), seat)
    }
}

pub fn emit(events: &mut Vec<MjaiEvent>, e: MjaiEvent)
    ensures
        events::events_of(final(events)@) == events::events_of(old(events)@).push(e@),
{
    events.push(e);
    assert(events::events_of(events@) =~= events::events_of(old(events)@).push(e@));
}

pub fn draw_tile(actor: u8, tile: u32, seat: u8) -> (pai: String)
    ensures
        pai@ == draw_text(actor, tile, seat),
{
    if actor == seat {
        tiles::card_to_mjai(tile)
    } else {
        tiles::hidden_tile()
    }
}

fn emit_turn(events: &mut Vec<MjaiEvent>, actor: u8, tile: u32, tsumogiri: bool, seat: u8)
    ensures
        events::events_of(final(events)@) == events::events_of(old(events)@) + turn(
            actor,
            tile,
            tsumogiri,
            seat,
        ),
{
    emit(events, MjaiEvent::Tsumo { actor, pai: draw_tile(actor, tile, seat) });
    emit(events, MjaiEvent::Dahai { actor, pai: tiles::card_to_mjai(tile), tsumogiri });
    assert(events::events_of(events@) =~= events::events_of(old(events)@) + turn(
        actor,
        tile,
        tsumogiri,
        seat,
    ));
}

/// A kan or kita replacement draw, for other seats only.
fn rinshan_draw(events: &mut Vec<MjaiEvent>, actor: u8, our_seat: u8)
    ensures
        events::events_of(final(events)@) == events::events_of(old(events)@) + rinshan(
            actor,
            our_seat,
        ),
{
    if actor != our_seat {
        emit(events, MjaiEvent::Tsumo { actor, pai: tiles::hidden_tile() });
    }
    assert(events::events_of(events@) =~= events::events_of(old(events)@) + rinshan(
        actor,
        our_seat,
    ));
}

/// The two from-hand tiles of a chi, pon or kakan entry.
fn pair(m: &MeldSnap) -> (tiles: Result<[String; 2], RestoreError>)
    ensures
        match tiles {
            Ok(t) => m.group@.len() >= 2 && text::texts(t@) == tiles::card_texts(m.group@.take(2)),
            Err(e) => m.group@.len() < 2 && e == RestoreError::NoPair,
        },
{
    if m.group.len() < 2 {
        return Err(RestoreError::NoPair);
    }
    let t: [String; 2] = [tiles::card_to_mjai(m.group[0]), tiles::card_to_mjai(m.group[1])];
    assert(text::texts(t@) =~= tiles::card_texts(m.group@.take(2)));
    Ok(t)
}

/// The three from-hand tiles of a daiminkan entry.
fn triple(m: &MeldSnap) -> (tiles: Result<[String; 3], RestoreError>)
    ensures
        match tiles {
            Ok(t) => m.group@.len() >= 3 && text::texts(t@) == tiles::card_texts(m.group@.take(3)),
            Err(e) => m.group@.len() < 3 && e == RestoreError::NoTriple,
        },
{
    if m.group.len() < 3 {
        return Err(RestoreError::NoTriple);
    }
    let t: [String; 3] = [
        tiles::card_to_mjai(m.group[0]),
        tiles::card_to_mjai(m.group[1]),
        tiles::card_to_mjai(m.group[2]),
    ];
    assert(text::texts(t@) =~= tiles::card_texts(m.group@.take(3)));
    Ok(t)
}

/// The events that `after` holds beyond those of `before`, or the refusal.
pub open spec fn emitted(
    before: Seq<MjaiEvent>,
    after: Seq<MjaiEvent>,
    done: Result<(), RestoreError>,
    replay: Result<Seq<EventModel>, RestoreError>,
) -> bool {
    match done {
        Ok(_) => match replay {
            Ok(more) => events::events_of(after) == events::events_of(before) + more,
            Err(_) => false,
        },
        Err(e) => replay == Err::<Seq<EventModel>, RestoreError>(e),
    }
}

fn emit_meld(events: &mut Vec<MjaiEvent>, m: &MeldSnap, actor: u8, target: u8, seat: u8) -> (done:
    Result<(), RestoreError>)
    ensures
        emitted(old(events)@, final(events)@, done, meld_events(m@, actor, target, seat)),
{
    let ghost before = events::events_of(events@);
    let t: i64 = m.action_type;
    if 2 <= t && t <= 4 {
        let consumed = pair(m)?;
        emit(events, MjaiEvent::Chi { actor, target, pai: tiles::card_to_mjai(m.card), consumed });
    } else if t == 5 {
        let consumed = pair(m)?;
        emit(events, MjaiEvent::Pon { actor, target, pai: tiles::card_to_mjai(m.card), consumed });
    } else if t == 6 {
        let consumed = triple(m)?;
        emit(
            events,
            MjaiEvent::Daiminkan { actor, target, pai: tiles::card_to_mjai(m.card), consumed },
        );
        rinshan_draw(events, actor, seat);
    } else if t == 8 {
        if m.group.len() != 3 {
            return Err(RestoreError::NoQuad);
        }
        let consumed: [String; 4] = [
            tiles::card_to_mjai(m.group[0]),
            tiles::card_to_mjai(m.group[1]),
            tiles::card_to_mjai(m.group[2]),
            tiles::card_to_mjai(m.card),
        ];
        assert(text::texts(consumed@) =~= tiles::card_texts(m.group@.push(m.card)));
        emit(events, MjaiEvent::Ankan { actor, consumed });
        rinshan_draw(events, actor, seat);
    } else if t == 9 {
        let consumed = pair(m)?;
        let ghost two = text::texts(consumed@);
        let base: String = tiles::card_to_mjai(m.bu_gang);
        let quad: [String; 3] = [consumed[0].clone(), consumed[1].clone(), base.clone()];
        assert(text::texts(quad@) =~= two.push(base@)) by {
            assert(text::texts(consumed@)[0] == consumed@[0]@);
            assert(text::texts(consumed@)[1] == consumed@[1]@);
        }
        emit(events, MjaiEvent::Pon { actor, target, pai: base, consumed });
        emit(
            events,
            MjaiEvent::Kakan { actor, pai: tiles::card_to_mjai(m.card), consumed: quad },
        );
        rinshan_draw(events, actor, seat);
    } else {
        return Err(RestoreError::UnknownMeld { action_type: t });
    }
    proof {
        let more = meld_events(m@, actor, target, seat)->Ok_0;
        assert(events::events_of(events@) =~= before + more);
    }
    Ok(())
}

fn emit_meld_replay(
    events: &mut Vec<MjaiEvent>,
    m: &MeldSnap,
    actor: u8,
    chairs: &Vec<u8>,
    seat: u8,
) -> (done: Result<(), RestoreError>)
    ensures
        emitted(old(events)@, final(events)@, done, meld_replay(m@, actor, chairs@, seat)),
{
    let ghost before = events::events_of(events@);
    if m.action_type == 8 {
        return emit_meld(events, m, actor, actor, seat);
    }
    let chair: i64 = match m.source_roster {
        Some(k) => k,
        None => {
            return Err(RestoreError::NoSource);
        },
    };
    if chair < 0 || chair as u64 >= chairs.len() as u64 {
        return Err(RestoreError::SourceRange);
    }
    let source: u8 = chairs[chair as usize];
    let claimed: u32 = if m.action_type == 9 {
        m.bu_gang
    } else {
        m.card
    };
    if claimed == 0 {
        return Err(RestoreError::ZeroClaim);
    }
    emit_turn(events, source, claimed, false, seat);
    emit_meld(events, m, actor, source, seat)?;
    proof {
        let more = meld_replay(m@, actor, chairs@, seat)->Ok_0;
        assert(events::events_of(events@) =~= before + more);
    }
    Ok(())
}

proof fn lemma_melds_replay_error_stays(
    melds: Seq<MeldModel>,
    k: int,
    actor: u8,
    chairs: Seq<u8>,
    seat: u8,
)
    requires
        0 <= k <= melds.len(),
        melds_replay(melds.take(k), actor, chairs, seat) is Err,
    ensures
        melds_replay(melds, actor, chairs, seat) == melds_replay(
            melds.take(k),
            actor,
            chairs,
            seat,
        ),
    decreases melds.len(),
{
    if k == melds.len() {
        assert(melds.take(k) =~= melds);
    } else {
        assert(melds.drop_last().take(k) =~= melds.take(k));
        lemma_melds_replay_error_stays(melds.drop_last(), k, actor, chairs, seat);
    }
}

fn emit_melds_replay(
    events: &mut Vec<MjaiEvent>,
    melds: &Vec<MeldSnap>,
    actor: u8,
    chairs: &Vec<u8>,
    seat: u8,
) -> (done: Result<(), RestoreError>)
    ensures
        emitted(
            old(events)@,
            final(events)@,
            done,
            melds_replay(snapshot::melds_of(melds@), actor, chairs@, seat),
        ),
{
    let ghost before = events::events_of(events@);
    let ghost all = snapshot::melds_of(melds@);
    let ghost mut more: Seq<EventModel> = Seq::empty();
    let mut i: usize = 0;
    assert(all.take(0) =~= Seq::empty());
    assert(before + more =~= before);
    while i < melds.len()
        invariant
            i <= melds@.len(),
            all == snapshot::melds_of(melds@),
            melds_replay(all.take(i as int), actor, chairs@, seat) == Ok::<
                Seq<EventModel>,
                RestoreError,
            >(more),
            events::events_of(events@) == before + more,
        decreases melds.len() - i,
    {
        assert(all.take(i + 1).drop_last() =~= all.take(i as int));
        assert(all.take(i + 1).last() == melds@[i as int]@);
        match emit_meld_replay(events, &melds[i], actor, chairs, seat) {
            Ok(_) => {
                proof {
                    let step = meld_replay(melds@[i as int]@, actor, chairs@, seat)->Ok_0;
                    assert(before + more + step =~= before + (more + step));
                    more = more + step;
                }
            },
            Err(e) => {
                proof {
                    lemma_melds_replay_error_stays(all, i + 1, actor, chairs@, seat);
                }
                return Err(e);
            },
        }
        i = i + 1;
    }
    assert(all.take(all.len() as int) =~= all);
    Ok(())
}

fn emit_kita_replay(events: &mut Vec<MjaiEvent>, count: usize, actor: u8, seat: u8)
    ensures
        events::events_of(final(events)@) == events::events_of(old(events)@) + kita_replay(
            count as nat,
            actor,
            seat,
        ),
{
    let ghost before = events::events_of(events@);
    let mut i: usize = 0;
    assert(before + kita_replay(0, actor, seat) =~= before);
    while i < count
        invariant
            i <= count,
            events::events_of(events@) == before + kita_replay(i as nat, actor, seat),
        decreases count - i,
    {
        emit(events, MjaiEvent::Kita { actor, pai: Some(checks::north_tile()) });
        rinshan_draw(events, actor, seat);
        i = i + 1;
        assert(events::events_of(events@) =~= before + kita_replay(i as nat, actor, seat));
    }
}

proof fn lemma_claims_error_stays(players: Seq<PlayerModel>, k: int, chairs: Seq<u8>, seat: u8)
    requires
        0 <= k <= players.len(),
        claims_replay(players.take(k), chairs, seat) is Err,
    ensures
        claims_replay(players, chairs, seat) == claims_replay(players.take(k), chairs, seat),
    decreases players.len(),
{
    if k == players.len() {
        assert(players.take(k) =~= players);
    } else {
        assert(players.drop_last().take(k) =~= players.take(k));
        lemma_claims_error_stays(players.drop_last(), k, chairs, seat);
    }
}

pub fn emit_claims_replay(
    events: &mut Vec<MjaiEvent>,
    players: &Vec<PlayerSnap>,
    chairs: &Vec<u8>,
    seat: u8,
) -> (done: Result<(), RestoreError>)
    ensures
        emitted(
            old(events)@,
            final(events)@,
            done,
            claims_replay(snapshot::players_of(players@), chairs@, seat),
        ),
{
    let ghost before = events::events_of(events@);
    let ghost all = snapshot::players_of(players@);
    let ghost mut more: Seq<EventModel> = Seq::empty();
    let mut i: usize = 0;
    assert(all.take(0) =~= Seq::empty());
    assert(before + more =~= before);
    while i < players.len()
        invariant
            i <= players@.len(),
            all == snapshot::players_of(players@),
            claims_replay(all.take(i as int), chairs@, seat) == Ok::<
                Seq<EventModel>,
                RestoreError,
            >(more),
            events::events_of(events@) == before + more,
        decreases players.len() - i,
    {
        assert(all.take(i + 1).drop_last() =~= all.take(i as int));
        assert(all.take(i + 1).last() == players@[i as int]@);
        let p = &players[i];
        match emit_melds_replay(events, &p.melds, p.actor, chairs, seat) {
            Ok(_) => {},
            Err(e) => {
                proof {
                    lemma_claims_error_stays(all, i + 1, chairs@, seat);
                }
                return Err(e);
            },
        }
        emit_kita_replay(events, p.kita.len(), p.actor, seat);
        proof {
            let melds = melds_replay(p@.melds, p.actor, chairs@, seat)->Ok_0;
            let kita = kita_replay(p.kita@.len(), p.actor, seat);
            assert(before + more + melds + kita =~= before + (more + melds + kita));
            more = more + melds + kita;
        }
        i = i + 1;
    }
    assert(all.take(all.len() as int) =~= all);
    Ok(())
}

fn emit_river_replay(events: &mut Vec<MjaiEvent>, p: &PlayerSnap, seat: u8)
    ensures
        events::events_of(final(events)@) == events::events_of(old(events)@) + river_replay(
            p@,
            p.river@.len(),
            seat,
        ),
{
    let ghost before = events::events_of(events@);
    let mut i: usize = 0;
    assert(before + river_replay(p@, 0, seat) =~= before);
    while i < p.river.len()
        invariant
            i <= p.river@.len(),
            events::events_of(events@) == before + river_replay(p@, i as nat, seat),
        decreases p.river.len() - i,
    {
        let place: i128 = i as i128;
        let declared_at: i128 = p.riichi_pos as i128;
        if p.riichi && declared_at == place {
            emit(events, MjaiEvent::Reach { actor: p.actor, pai: None });
        }
        emit_turn(events, p.actor, p.river[i], p.riichi && place > declared_at, seat);
        i = i + 1;
        assert(events::events_of(events@) =~= before + river_replay(p@, i as nat, seat));
    }
}

pub fn emit_rivers_replay(events: &mut Vec<MjaiEvent>, players: &Vec<PlayerSnap>, seat: u8)
    ensures
        events::events_of(final(events)@) == events::events_of(old(events)@) + rivers_replay(
            snapshot::players_of(players@),
            seat,
        ),
{
    let ghost before = events::events_of(events@);
    let ghost all = snapshot::players_of(players@);
    let mut i: usize = 0;
    assert(all.take(0) =~= Seq::empty());
    assert(before + rivers_replay(all.take(0), seat) =~= before);
    while i < players.len()
        invariant
            i <= players@.len(),
            all == snapshot::players_of(players@),
            events::events_of(events@) == before + rivers_replay(all.take(i as int), seat),
        decreases players.len() - i,
    {
        assert(all.take(i + 1).drop_last() =~= all.take(i as int));
        assert(all.take(i + 1).last() == players@[i as int]@);
        emit_river_replay(events, &players[i], seat);
        i = i + 1;
        assert(events::events_of(events@) =~= before + rivers_replay(all.take(i as int), seat));
    }
    assert(all.take(all.len() as int) =~= all);
}

} // verus!
