//! What a restored stream takes from the snapshot, entry by entry.
use crate::events::EventModel;
use crate::json::Json;
use crate::lists;
use crate::restore;
use crate::restore::snapshot;
use crate::restore::snapshot::{GameStatus, MeldModel, PlayerModel};
use crate::text;
use crate::tiles;
use vstd::prelude::*;

verus! {

/// The integer `x` is the one that a value holds, or `default` where the value
/// is missing or holds none.
pub open spec fn reads_int(x: int, value: Option<Json>, default: int) -> bool {
    match value {
        Some(Json::Int(i)) => x == i,
        _ => x == default,
    }
}

/// The same for an integer of fewer bits, where it fits.
pub open spec fn reads_small(x: int, value: Option<Json>, least: int, most: int) -> bool {
    match value {
        Some(Json::Int(i)) => least <= i <= most ==> x == i,
        _ => x == 0,
    }
}

/// The codes are those that an array holds, one for one, with zero for what is
/// no integer; none where there is no array.
pub open spec fn reads_codes(codes: Seq<u32>, value: Option<Json>) -> bool {
    match value {
        Some(Json::Array(v)) => codes.len() == v@.len() && forall|i: int|
            0 <= i < v@.len() ==> reads_small(
                #[trigger] codes[i] as int,
                Some(v@[i]),
                0,
                u32::MAX as int,
            ),
        _ => codes.len() == 0,
    }
}

/// The tile is the one whose card code an integer is; where no tile has it, a
/// hidden tile.
pub open spec fn reads_tile(pai: Seq<char>, code: int) -> bool {
    0 <= code <= u32::MAX ==> {
        &&& pai == seq!['?'] || tiles::card_code(pai) == Some(code as u32)
        &&& forall|t: Seq<char>| #[trigger] tiles::card_code(t) == Some(code as u32) ==> pai == t
    }
}

/// The meld is the one that an entry of a meld list describes.
pub open spec fn reads_meld(m: MeldModel, e: Json) -> bool {
    &&& reads_int(m.action_type as int, e.field("action_type"@), 0)
    &&& reads_small(m.card as int, e.field("card"@), 0, u32::MAX as int)
    &&& reads_codes(m.group, e.field("group_cards"@))
    &&& reads_small(m.bu_gang as int, e.field("bu_gang_peng_card"@), 0, u32::MAX as int)
    &&& match e.field("position"@) {
        Some(Json::Int(p)) => m.source_roster == Some(p),
        _ => m.source_roster is None,
    }
}

/// The player is the one that a roster entry describes.
pub open spec fn reads_player(p: PlayerModel, e: Json) -> bool {
    &&& reads_small(p.score as int, e.field("hand_chips"@), i32::MIN as int, i32::MAX as int)
    &&& reads_int(p.hand_n as int, e.field("hand_card_num"@), 0)
    &&& reads_codes(p.hand, e.field("hand_cards"@))
    &&& reads_codes(p.river, e.field("pai_he"@))
    &&& p.riichi <==> e.field("is_li_zhi"@) == Some(Json::Bool(true))
    &&& reads_int(p.riichi_pos as int, e.field("li_zhi_pos"@), -1)
    &&& reads_codes(p.kita, e.field("pull_north_list"@))
    &&& match e.field("fu_lou_list"@) {
        Some(Json::Array(v)) => p.melds.len() == v@.len() && forall|i: int|
            0 <= i < v@.len() ==> reads_meld(#[trigger] p.melds[i], v@[i]),
        _ => p.melds.len() == 0,
    }
}

/// The roster entry names this user, by an integer or by a text that writes it.
pub open spec fn names_user(e: Json, uid: i64) -> bool {
    match e.field("user"@) {
        Some(user) => match user.field("user_id"@) {
            Some(Json::Int(i)) => i == uid,
            Some(Json::Text(t)) => text::i64_of_text(t@) == Some(uid),
            _ => false,
        },
        None => false,
    }
}

/// The user sits at this place of the seat order, and at no earlier one.
pub open spec fn sits_at(status: GameStatus, uid: i64, seat: int) -> bool {
    &&& 0 <= seat < status.player_list@.len()
    &&& status.player_list@[seat] == uid
    &&& forall|i: int| 0 <= i < seat ==> #[trigger] status.player_list@[i] != uid
}

proof fn lemma_codes(j: Json, key: Seq<char>)
    ensures
        reads_codes(snapshot::codes_at(j, key), j.field(key)),
{
    let codes = snapshot::codes_at(j, key);
    if let Some(Json::Array(v)) = j.field(key) {
        assert forall|i: int| 0 <= i < v@.len() implies reads_small(
            #[trigger] codes[i] as int,
            Some(v@[i]),
            0,
            u32::MAX as int,
        ) by {
            lemma_code(v@[i]);
        }
    }
}

proof fn lemma_code(j: Json)
    ensures
        reads_small(snapshot::code_of(j) as int, Some(j), 0, u32::MAX as int),
{
}

/// Every field of a player is the one that the roster entry holds under its
/// key.
pub proof fn law_players_are_read_by_key(e: Json, actor: u8)
    ensures
        snapshot::player_at(e, actor).actor == actor,
        reads_player(snapshot::player_at(e, actor), e),
{
    let p = snapshot::player_at(e, actor);
    lemma_codes(e, "hand_cards"@);
    lemma_codes(e, "pai_he"@);
    lemma_codes(e, "pull_north_list"@);
    if let Some(Json::Array(v)) = e.field("fu_lou_list"@) {
        assert forall|i: int| 0 <= i < v@.len() implies reads_meld(
            #[trigger] p.melds[i],
            v@[i],
        ) by {
            lemma_codes(v@[i], "group_cards"@);
            assert(p.melds[i] == snapshot::meld_at(v@[i]));
        }
    }
}

/// A user sits at the first place of the seat order that holds the user, and
/// one that the order does not hold has no seat.
pub proof fn law_users_sit_in_seat_order(status: GameStatus, uid: i64, seat: int)
    ensures
        sits_at(status, uid, seat) && seat <= 255 ==> status.actor(uid) == Some(seat as u8),
        status.actor(uid) matches Some(a) ==> sits_at(status, uid, a as int),
{
    lists::lemma_first_index(status.player_list@, uid);
    if sits_at(status, uid, seat) {
        let i = lists::first_index(status.player_list@, uid)->0;
        assert(status.player_list@[seat] == uid);
        if i < seat {
            assert(status.player_list@[i] != uid);
        }
    }
}

pub proof fn lemma_user_id(e: Json, uid: i64)
    requires
        names_user(e, uid),
    ensures
        snapshot::user_id(e) == Some(uid),
{
}

/// Every roster entry names its user, and no two name the same.
pub open spec fn names_users(list: Seq<Json>, uids: Seq<i64>) -> bool {
    &&& uids.len() == list.len()
    &&& forall|l: int| 0 <= l < list.len() ==> names_user(list[l], #[trigger] uids[l])
    &&& uids.no_duplicates()
}

proof fn lemma_roster_entry(list: Seq<Json>, status: GameStatus, l: int)
    requires
        snapshot::roster_at(list, status) is Ok,
        0 <= l < list.len(),
    ensures
        snapshot::roster_at(list, status)->Ok_0.len() == list.len(),
        snapshot::user_id(list[l]) is Some,
        status.actor(snapshot::user_id(list[l])->0) is Some,
        snapshot::roster_at(list, status)->Ok_0[l] == snapshot::player_at(
            list[l],
            status.actor(snapshot::user_id(list[l])->0)->0,
        ),
    decreases list.len(),
{
    if l < list.len() - 1 {
        lemma_roster_entry(list.drop_last(), status, l);
    } else if list.len() > 1 {
        lemma_roster_entry(list.drop_last(), status, 0);
    }
}

proof fn lemma_seated_alone(roster: Seq<PlayerModel>, l: int)
    requires
        0 <= l < roster.len(),
        forall|i: int| l < i < roster.len() ==> (#[trigger] roster[i]).actor != roster[l].actor,
    ensures
        snapshot::seated(roster, roster[l].actor as int) == Some(roster[l]),
        roster[l].actor < snapshot::seat_count(roster),
    decreases roster.len(),
{
    if l < roster.len() - 1 {
        assert(roster[roster.len() - 1].actor != roster[l].actor);
        let rest = roster.drop_last();
        assert forall|i: int| l < i < rest.len() implies (#[trigger] rest[i]).actor
            != rest[l].actor by {
            assert(roster[i].actor != roster[l].actor);
        }
        lemma_seated_alone(rest, l);
    }
}

proof fn lemma_distinct_users_distinct_seats(status: GameStatus, a: i64, b: i64)
    requires
        status.actor(a) is Some,
        status.actor(a) == status.actor(b),
    ensures
        a == b,
{
    law_users_sit_in_seat_order(status, a, 0);
    law_users_sit_in_seat_order(status, b, 0);
}

/// Each roster entry of a restored snapshot describes the player in the seat of
/// its user, and its chair is that seat.
pub proof fn law_every_player_is_read(
    data: Json,
    status: GameStatus,
    uids: Seq<i64>,
    l: int,
    seat: int,
)
    requires
        restore::restored(data, status) is Ok,
        data.field("players"@) matches Some(Json::Array(v)) && names_users(v@, uids),
        0 <= l < uids.len(),
        sits_at(status, uids[l], seat),
        seat <= 255,
    ensures
        seat < restore::players_in(data, status).len(),
        reads_player(
            restore::players_in(data, status)[seat],
            data.field("players"@)->0->Array_0@[l],
        ),
        restore::chairs_in(data, status)[l] == seat,
{
    let list = data.field("players"@)->0->Array_0@;
    let roster = snapshot::roster_at(list, status)->Ok_0;
    lemma_roster_entry(list, status, l);
    lemma_user_id(list[l], uids[l]);
    law_users_sit_in_seat_order(status, uids[l], seat);
    assert forall|i: int| l < i < roster.len() implies (#[trigger] roster[i]).actor
        != roster[l].actor by {
        lemma_roster_entry(list, status, i);
        lemma_user_id(list[i], uids[i]);
        if roster[i].actor == roster[l].actor {
            lemma_distinct_users_distinct_seats(status, uids[i], uids[l]);
        }
    }
    lemma_seated_alone(roster, l);
    law_players_are_read_by_key(list[l], seat as u8);
}

/// The deal is the one that the snapshot names: the round wind, the dora
/// marker, the counters and the dealer are those of the hand status, and the
/// scores are those of the players.
pub proof fn law_the_deal_is_the_snapshots(data: Json, status: GameStatus, k: int)
    requires
        restore::restored(data, status) is Ok,
    ensures
        restore::restored(data, status)->Ok_0.events.len() > 0,
        match restore::restored(data, status)->Ok_0.events[0] {
            EventModel::StartKyoku {
                bakaze,
                dora_marker,
                kyoku,
                honba,
                kyotaku,
                oya,
                scores,
                num_players,
                ..
            } => {
                let hs = data.field("hand_status"@)->0;
                let players = restore::players_in(data, status);
                &&& match hs.field("quan_feng"@) {
                    Some(Json::Int(wind)) => reads_tile(bakaze, wind as int),
                    _ => bakaze == seq!['?'],
                }
                &&& hs.field("bao_pai_list"@) matches Some(Json::Array(doras))
                &&& doras@.len() > 0
                &&& doras@[0] matches Json::Int(dora)
                &&& dora != 0
                &&& reads_tile(dora_marker, dora as int)
                &&& reads_small(honba as int, hs.field("ben_chang_num"@), 0, 255)
                &&& reads_small(kyotaku as int, hs.field("li_zhi_bang_num"@), 0, 255)
                &&& kyoku == oya + 1
                &&& oya < status.num_players
                &&& match hs.field("dealer_pos"@) {
                    Some(Json::Int(pos)) => (oya + status.shift - pos) % (status.num_players as int)
                        == 0,
                    _ => (oya + status.shift) % (status.num_players as int) == 0,
                }
                &&& scores.len() == players.len()
                &&& 0 <= k < players.len() ==> scores[k] == players[k].score
                &&& num_players == status.num_players
            },
            _ => false,
        },
{
    let hs = data.field("hand_status"@)->0;
    let list = data.field("players"@)->0.items()->0;
    snapshot::lemma_table_fits_the_roster(list, status);
    let n = status.num_players as int;
    let spread = snapshot::int_or(hs, "dealer_pos"@, 0) - status.shift;
    vstd::arithmetic::div_mod::lemma_fundamental_div_mod(spread, n);
    vstd::arithmetic::div_mod::lemma_mod_bound(spread, n);
    assert((spread % n - spread) % n == 0) by {
        let q = spread / n;
        assert(spread % n - spread == n * (-q)) by (nonlinear_arith)
            requires
                spread == n * q + spread % n,
        ;
        vstd::arithmetic::div_mod::lemma_mod_multiples_basic(-q, n);
        assert((-q) * n == n * (-q)) by (nonlinear_arith);
    }
    match hs.field("quan_feng"@) {
        Some(Json::Int(wind)) => lemma_tile(wind as int),
        _ => {},
    }
    lemma_tile(hs.field("bao_pai_list"@)->0.items()->0[0]->Int_0 as int);
}

proof fn lemma_tile(code: int)
    ensures
        0 <= code <= u32::MAX ==> reads_tile(tiles::card_text(code as u32), code),
{
    if 0 <= code <= u32::MAX {
        let c = code as u32;
        let pai = tiles::card_text(c);
        if pai != seq!['?'] {
            tiles::law_codes_of_named_tiles(c);
        }
        assert forall|t: Seq<char>| #[trigger] tiles::card_code(t) == Some(c) implies pai == t by {
            tiles::law_tiles_of_codes(t, c);
        }
    }
}

/// The seat whose turn it is, is that of the user whom the action info names,
/// and it is nobody's turn where it names none who sits at the table.
pub proof fn law_the_turn_is_the_named_users(data: Json, status: GameStatus, uid: i64, seat: int)
    ensures
        data.field("action_info"@) matches Some(info) && info.field("current_user_id"@) == Some(
            Json::Int(uid),
        ) && sits_at(status, uid, seat) && seat <= 255 ==> restore::current_actor(data, status)
            == Some(seat as u8),
        restore::current_actor(data, status) matches Some(a) ==> exists|u: i64|
            #![trigger sits_at(status, u, a as int)]
            data.field("action_info"@) matches Some(info) && info.field("current_user_id"@) == Some(
                Json::Int(u),
            ) && sits_at(status, u, a as int),
{
    law_users_sit_in_seat_order(status, uid, seat);
    if let Some(a) = restore::current_actor(data, status) {
        let u = data.field("action_info"@)->0.field("current_user_id"@)->0->Int_0;
        law_users_sit_in_seat_order(status, u, a as int);
        assert(sits_at(status, u, a as int));
    }
}

} // verus!
