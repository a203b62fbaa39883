//! The arithmetic that gates a restore, and our own hand at the deal.
use crate::restore::snapshot;
use crate::restore::snapshot::{MeldModel, MeldSnap, PlayerModel, PlayerSnap, RestoreError};
use crate::text;
use crate::tiles;
use vstd::prelude::*;

verus! {

/// Live-wall tiles at the start of a hand.
pub open spec fn wall_tiles(num_players: u8) -> int {
    if num_players == 3 {
        55
    } else {
        70
    }
}

/// Live-wall tiles at the start of a hand: what is left after the deal and the
/// dead wall.
pub fn wall_base(num_players: u8) -> (base: i64)
    ensures
        base == wall_tiles(num_players),
{
    match num_players {
        3 => 55,
        _ => 70,
    }
}

/// Tiles that a meld took from its owner's hand.
pub open spec fn from_hand(action_type: i64) -> int {
    if 2 <= action_type <= 5 {
        2
    } else if action_type == 6 {
        3
    } else if action_type == 8 {
        4
    } else if action_type == 9 {
        1
    } else {
        0
    }
}

/// A meld that claimed another player's discard.
pub open spec fn is_claim(action_type: i64) -> bool {
    2 <= action_type <= 6 || action_type == 9
}

/// Draws that melds account for: the tiles from the owner's hand, and the
/// source's draw of the claimed tile.
pub open spec fn meld_draws(melds: Seq<MeldModel>) -> int
    decreases melds.len(),
{
    if melds.len() == 0 {
        0
    } else {
        let t = melds.last().action_type;
        meld_draws(melds.drop_last()) + from_hand(t) + if is_claim(t) {
            1int
        } else {
            0
        }
    }
}

/// Tiles that the players hold, have discarded, melded or set aside, with one
/// more for each claim.
pub open spec fn tiles_seen(players: Seq<PlayerModel>) -> int
    decreases players.len(),
{
    if players.len() == 0 {
        0
    } else {
        let p = players.last();
        tiles_seen(players.drop_last()) + p.hand_n + p.river.len() + meld_draws(p.melds)
            + p.kita.len()
    }
}

/// Live-wall draws that the snapshot accounts for: what is seen, less the deal.
pub open spec fn draws(players: Seq<PlayerModel>, num_players: u8) -> int {
    tiles_seen(players) - 13 * num_players
}

/// Tiles that melds cost a hand at rest: four for an ankan, three for any
/// other (two or three from the hand, and a discard that no draw replenishes).
pub open spec fn meld_cost(melds: Seq<MeldModel>) -> int
    decreases melds.len(),
{
    if melds.len() == 0 {
        0
    } else {
        meld_cost(melds.drop_last()) + if melds.last().action_type == 8 {
            4int
        } else {
            3
        }
    }
}

/// How many tiles a hand holds at rest.
pub open spec fn hand_at_rest(p: PlayerModel) -> int {
    13 - (meld_cost(p.melds) + p.kita.len())
}

/// The seat that holds a pending draw, where every hand is at rest but for at
/// most the current actor's.
pub open spec fn pending_draw(players: Seq<PlayerModel>, current: Option<u8>) -> Result<
    Option<u8>,
    RestoreError,
>
    decreases players.len(),
{
    if players.len() == 0 {
        Ok(None)
    } else {
        let p = players.last();
        match pending_draw(players.drop_last(), current) {
            Err(e) => Err(e),
            Ok(before) => if p.hand_n == hand_at_rest(p) {
                Ok(before)
            } else if p.hand_n == hand_at_rest(p) + 1 && current == Some(p.actor) {
                Ok(Some(p.actor))
            } else {
                Err(
                    RestoreError::HandSize {
                        actor: p.actor,
                        hand_n: p.hand_n,
                        expected: hand_at_rest(p) as i128,
                    },
                )
            },
        }
    }
}

fn sum_meld_draws(melds: &Vec<MeldSnap>) -> (sum: i128)
    ensures
        sum == meld_draws(snapshot::melds_of(melds@)),
        0 <= sum <= 4 * melds.len(),
{
    let mut sum: i128 = 0;
    let mut i: usize = 0;
    let ghost all = snapshot::melds_of(melds@);
    assert(all.take(0) =~= Seq::empty());
    while i < melds.len()
        invariant
            i <= melds@.len(),
            all == snapshot::melds_of(melds@),
            sum == meld_draws(all.take(i as int)),
            0 <= sum <= 4 * i,
        decreases melds.len() - i,
    {
        assert(all.take(i + 1).drop_last() =~= all.take(i as int));
        let t: i64 = melds[i].action_type;
        let hand: i128 = if 2 <= t && t <= 5 {
            2
        } else if t == 6 {
            3
        } else if t == 8 {
            4
        } else if t == 9 {
            1
        } else {
            0
        };
        let claim: i128 = if (2 <= t && t <= 6) || t == 9 {
            1
        } else {
            0
        };
        sum = sum + hand + claim;
        i = i + 1;
    }
    assert(all.take(all.len() as int) =~= all);
    sum
}

pub fn sum_tiles_seen(players: &Vec<PlayerSnap>) -> (sum: i128)
    requires
        players@.len() <= 256,
    ensures
        sum == tiles_seen(snapshot::players_of(players@)),
        -0x1_0000_0000_0000_0000_0000 <= sum <= 0x1_0000_0000_0000_0000_0000,
{
    let mut sum: i128 = 0;
    let mut i: usize = 0;
    let ghost all = snapshot::players_of(players@);
    assert(all.take(0) =~= Seq::empty());
    while i < players.len()
        invariant
            i <= players@.len() <= 256,
            all == snapshot::players_of(players@),
            sum == tiles_seen(all.take(i as int)),
            -0x8_0000_0000_0000_0000 * i <= sum <= 0x8_0000_0000_0000_0000 * i,
        decreases players.len() - i,
    {
        assert(all.take(i + 1).drop_last() =~= all.take(i as int));
        let p = &players[i];
        sum = sum + p.hand_n as i128 + p.river.len() as i128 + sum_meld_draws(&p.melds)
            + p.kita.len() as i128;
        i = i + 1;
    }
    assert(all.take(all.len() as int) =~= all);
    sum
}

fn sum_meld_cost(melds: &Vec<MeldSnap>) -> (sum: i128)
    ensures
        sum == meld_cost(snapshot::melds_of(melds@)),
        0 <= sum <= 4 * melds.len(),
{
    let mut sum: i128 = 0;
    let mut i: usize = 0;
    let ghost all = snapshot::melds_of(melds@);
    assert(all.take(0) =~= Seq::empty());
    while i < melds.len()
        invariant
            i <= melds@.len(),
            all == snapshot::melds_of(melds@),
            sum == meld_cost(all.take(i as int)),
            0 <= sum <= 4 * i,
        decreases melds.len() - i,
    {
        assert(all.take(i + 1).drop_last() =~= all.take(i as int));
        sum = sum + if melds[i].action_type == 8 {
            4i128
        } else {
            3i128
        };
        i = i + 1;
    }
    assert(all.take(all.len() as int) =~= all);
    sum
}

proof fn lemma_pending_error_stays(players: Seq<PlayerModel>, k: int, current: Option<u8>)
    requires
        0 <= k <= players.len(),
        pending_draw(players.take(k), current) is Err,
    ensures
        pending_draw(players, current) == pending_draw(players.take(k), current),
    decreases players.len(),
{
    if k == players.len() {
        assert(players.take(k) =~= players);
    } else {
        assert(players.drop_last().take(k) =~= players.take(k));
        lemma_pending_error_stays(players.drop_last(), k, current);
    }
}

pub fn find_pending_draw(players: &Vec<PlayerSnap>, current: Option<u8>) -> (pending: Result<
    Option<u8>,
    RestoreError,
>)
    ensures
        pending == pending_draw(snapshot::players_of(players@), current),
{
    let mut pending: Option<u8> = None;
    let mut i: usize = 0;
    let ghost all = snapshot::players_of(players@);
    assert(all.take(0) =~= Seq::empty());
    while i < players.len()
        invariant
            i <= players@.len(),
            all == snapshot::players_of(players@),
            pending_draw(all.take(i as int), current) == Ok::<Option<u8>, RestoreError>(pending),
        decreases players.len() - i,
    {
        assert(all.take(i + 1).drop_last() =~= all.take(i as int));
        let p = &players[i];
        let expected: i128 = 13 - (sum_meld_cost(&p.melds) + p.kita.len() as i128);
        let delta: i128 = p.hand_n as i128 - expected;
        let holds_draw: bool = match current {
            Some(actor) => delta == 1 && actor == p.actor,
            None => false,
        };
        if holds_draw {
            pending = Some(p.actor);
        } else if delta != 0 {
            proof {
                lemma_pending_error_stays(all, i + 1, current);
            }
            return Err(RestoreError::HandSize { actor: p.actor, hand_n: p.hand_n, expected });
        }
        i = i + 1;
    }
    assert(all.take(all.len() as int) =~= all);
    Ok(pending)
}

/// The north tile.
pub open spec fn north() -> Seq<char> {
    seq!['N']
}

/// The tiles that our melds took from our hand (a kan's own tile with them).
pub open spec fn melded_tiles(melds: Seq<MeldModel>) -> Result<Seq<Seq<char>>, RestoreError>
    decreases melds.len(),
{
    if melds.len() == 0 {
        Ok(Seq::empty())
    } else {
        let m = melds.last();
        match melded_tiles(melds.drop_last()) {
            Err(e) => Err(e),
            Ok(before) => if 2 <= m.action_type <= 6 {
                Ok(before + tiles::card_texts(m.group))
            } else if m.action_type == 8 || m.action_type == 9 {
                Ok(before + tiles::card_texts(m.group) + seq![tiles::card_text(m.card)])
            } else {
                Err(RestoreError::UnknownMeld { action_type: m.action_type })
            },
        }
    }
}

/// Our thirteen tiles at the deal, and the tile that we hold as a pending draw:
/// the last of the hand, where there is one. The rest is the hand, the tiles
/// of our melds, and a north for each one set aside.
pub open spec fn own_hand(me: PlayerModel, drawn: bool) -> Result<
    (Seq<Seq<char>>, Option<u32>),
    RestoreError,
> {
    if drawn && me.hand.len() != 14 {
        Err(RestoreError::OwnHand { tiles: me.hand.len() as usize })
    } else {
        let hand = if drawn {
            me.hand.drop_last()
        } else {
            me.hand
        };
        let draw = if drawn {
            Some(me.hand.last())
        } else {
            None
        };
        match melded_tiles(me.melds) {
            Err(e) => Err(e),
            Ok(melded) => {
                let tehai = tiles::card_texts(hand) + melded + Seq::new(
                    me.kita.len(),
                    |i: int| north(),
                );
                if tehai.len() != 13 {
                    Err(RestoreError::Tehai { tiles: tehai.len() as usize })
                } else {
                    Ok((tehai, draw))
                }
            },
        }
    }
}

/// The text of a north tile.
pub fn north_tile() -> (t: String)
    ensures
        t@ == north(),
{
    proof {
        reveal_strlit("N");
    }
    "N".to_owned()
}

/// Append a north for each tile set aside.
fn tehari_extend_kita(tehai: &mut Vec<String>, kita: &Vec<u32>)
    ensures
        text::texts(final(tehai)@) == text::texts(old(tehai)@) + Seq::new(
            kita@.len(),
            |i: int| north(),
        ),
{
    let mut i: usize = 0;
    assert(text::texts(tehai@) =~= text::texts(old(tehai)@) + Seq::new(0, |i: int| north()));
    while i < kita.len()
        invariant
            i <= kita@.len(),
            text::texts(tehai@) == text::texts(old(tehai)@) + Seq::new(i as nat, |i: int| north()),
        decreases kita.len() - i,
    {
        let ghost before = tehai@;
        tehai.push(north_tile());
        i = i + 1;
        assert(text::texts(tehai@) =~= text::texts(before).push(north()));
        assert(text::texts(tehai@) =~= text::texts(old(tehai)@) + Seq::new(
            i as nat,
            |i: int| north(),
        ));
    }
}

fn extend_tiles(tehai: &mut Vec<String>, codes: &Vec<u32>)
    ensures
        text::texts(final(tehai)@) == text::texts(old(tehai)@) + tiles::card_texts(codes@),
{
    let mut more: Vec<String> = tiles::cards_to_mjai(codes);
    let ghost added = more@;
    tehai.append(&mut more);
    assert(text::texts(tehai@) =~= text::texts(old(tehai)@) + text::texts(added));
}

proof fn lemma_melded_error_stays(melds: Seq<MeldModel>, k: int)
    requires
        0 <= k <= melds.len(),
        melded_tiles(melds.take(k)) is Err,
    ensures
        melded_tiles(melds) == melded_tiles(melds.take(k)),
    decreases melds.len(),
{
    if k == melds.len() {
        assert(melds.take(k) =~= melds);
    } else {
        assert(melds.drop_last().take(k) =~= melds.take(k));
        lemma_melded_error_stays(melds.drop_last(), k);
    }
}

fn extend_melded(tehai: &mut Vec<String>, melds: &Vec<MeldSnap>) -> (done: Result<(), RestoreError>)
    ensures
        match done {
            Ok(_) => exists|melded: Seq<Seq<char>>|
                melded_tiles(snapshot::melds_of(melds@)) == Ok::<Seq<Seq<char>>, RestoreError>(melded)
                    && text::texts(final(tehai)@) == #[trigger] (text::texts(old(tehai)@) + melded),
            Err(e) => melded_tiles(snapshot::melds_of(melds@)) == Err::<Seq<Seq<char>>, RestoreError>(e),
        },
{
    let mut i: usize = 0;
    let ghost all = snapshot::melds_of(melds@);
    let ghost mut melded: Seq<Seq<char>> = Seq::empty();
    assert(all.take(0) =~= Seq::empty());
    assert(text::texts(tehai@) =~= text::texts(old(tehai)@) + melded);
    while i < melds.len()
        invariant
            i <= melds@.len(),
            all == snapshot::melds_of(melds@),
            melded_tiles(all.take(i as int)) == Ok::<Seq<Seq<char>>, RestoreError>(melded),
            text::texts(tehai@) == text::texts(old(tehai)@) + melded,
        decreases melds.len() - i,
    {
        assert(all.take(i + 1).drop_last() =~= all.take(i as int));
        assert(all.take(i + 1).last() == melds@[i as int]@);
        let ghost before = text::texts(tehai@);
        let m = &melds[i];
        let t: i64 = m.action_type;
        if 2 <= t && t <= 6 {
            extend_tiles(tehai, &m.group);
            proof {
                melded = melded + tiles::card_texts(m.group@);
                assert(text::texts(tehai@) =~= text::texts(old(tehai)@) + melded);
            }
        } else if t == 8 || t == 9 {
            extend_tiles(tehai, &m.group);
            let ghost mid = tehai@;
            tehai.push(tiles::card_to_mjai(m.card));
            proof {
                melded = melded + tiles::card_texts(m.group@) + seq![tiles::card_text(m.card)];
                assert(text::texts(tehai@) =~= text::texts(mid).push(tiles::card_text(m.card)));
                assert(text::texts(tehai@) =~= text::texts(old(tehai)@) + melded);
            }
        } else {
            proof {
                lemma_melded_error_stays(all, i + 1);
            }
            return Err(RestoreError::UnknownMeld { action_type: t });
        }
        i = i + 1;
    }
    assert(all.take(all.len() as int) =~= all);
    assert(text::texts(tehai@) == text::texts(old(tehai)@) + melded);
    Ok(())
}

pub fn rebuild_own_hand(me: &PlayerSnap, drawn: bool) -> (own: Result<
    (Vec<String>, Option<u32>),
    RestoreError,
>)
    ensures
        match own {
            Ok((tehai, draw)) => own_hand(me@, drawn) == Ok::<
                (Seq<Seq<char>>, Option<u32>),
                RestoreError,
            >((text::texts(tehai@), draw)),
            Err(e) => own_hand(me@, drawn) == Err::<
                (Seq<Seq<char>>, Option<u32>),
                RestoreError,
            >(e),
        },
{
    if drawn && me.hand.len() != 14 {
        return Err(RestoreError::OwnHand { tiles: me.hand.len() });
    }
    let mut tehai: Vec<String> = tiles::cards_to_mjai(&me.hand);
    let ghost whole = tehai@;
    let mut draw: Option<u32> = None;
    if drawn {
        draw = Some(me.hand[13]);
        let _ = tehai.pop();
        assert(text::texts(tehai@) =~= text::texts(whole).drop_last());
        assert(text::texts(tehai@) =~= tiles::card_texts(me.hand@.drop_last()));
    }
    let ghost hand = text::texts(tehai@);
    extend_melded(&mut tehai, &me.melds)?;
    tehari_extend_kita(&mut tehai, &me.kita);
    if tehai.len() != 13 {
        return Err(RestoreError::Tehai { tiles: tehai.len() });
    }
    Ok((tehai, draw))
}

} // verus!
