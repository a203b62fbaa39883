//! What the reconnect snapshot holds, as plain values.
use crate::json::Json;
use crate::lists;
use crate::text;
use vstd::prelude::*;

verus! {

/// Seats and rotation of the game that is being rejoined.
#[derive(Debug)]
pub struct GameStatus {
    /// User ids in seat order.
    pub player_list: Vec<i64>,
    /// Our seat.
    pub seat: u8,
    /// How far the seats are rotated against the roster.
    pub shift: i64,
    pub num_players: u8,
}

/// One meld of the snapshot.
pub struct MeldSnap {
    /// 2, 3 and 4 are the chi variants, 5 pon, 6 daiminkan, 8 ankan, 9 kakan.
    pub action_type: i64,
    /// The claimed tile (for kakan, the added tile).
    pub card: u32,
    /// Tiles from the owner's hand.
    pub group: Vec<u32>,
    /// Kakan only: the claimed tile of the underlying pon.
    pub bu_gang: u32,
    /// Roster chair that the claim came from. `None` for ankan.
    pub source_roster: Option<i64>,
}

/// One player of the snapshot.
pub struct PlayerSnap {
    pub actor: u8,
    pub score: i32,
    pub hand_n: i64,
    /// Our seat only (the server hides everyone else's).
    pub hand: Vec<u32>,
    pub river: Vec<u32>,
    pub melds: Vec<MeldSnap>,
    pub riichi: bool,
    pub riichi_pos: i64,
    pub kita: Vec<u32>,
}

pub struct MeldModel {
    pub action_type: i64,
    pub card: u32,
    pub group: Seq<u32>,
    pub bu_gang: u32,
    pub source_roster: Option<i64>,
}

pub struct PlayerModel {
    pub actor: u8,
    pub score: i32,
    pub hand_n: i64,
    pub hand: Seq<u32>,
    pub river: Seq<u32>,
    pub melds: Seq<MeldModel>,
    pub riichi: bool,
    pub riichi_pos: i64,
    pub kita: Seq<u32>,
}

impl View for MeldSnap {
    type V = MeldModel;

    open spec fn view(&self) -> MeldModel {
        MeldModel {
            action_type: self.action_type,
            card: self.card,
            group: self.group@,
            bu_gang: self.bu_gang,
            source_roster: self.source_roster,
        }
    }
}

pub open spec fn melds_of(melds: Seq<MeldSnap>) -> Seq<MeldModel> {
    melds.map_values(|m: MeldSnap| m@)
}

impl View for PlayerSnap {
    type V = PlayerModel;

    open spec fn view(&self) -> PlayerModel {
        PlayerModel {
            actor: self.actor,
            score: self.score,
            hand_n: self.hand_n,
            hand: self.hand@,
            river: self.river@,
            melds: melds_of(self.melds@),
            riichi: self.riichi,
            riichi_pos: self.riichi_pos,
            kita: self.kita@,
        }
    }
}

pub open spec fn players_of(players: Seq<PlayerSnap>) -> Seq<PlayerModel> {
    players.map_values(|p: PlayerSnap| p@)
}

/// Why a restore is refused.
#[derive(Debug, Clone, Copy, PartialEq, Eq, Structural)]
pub enum RestoreError {
    NoHandStatus,
    PlayersList,
    NoUserId,
    UnknownUid { uid: i64 },
    Seats,
    NoDora,
    Wall { base: i64, draws: i128, left: i64 },
    HandSize { actor: u8, hand_n: i64, expected: i128 },
    OwnHand { tiles: usize },
    UnknownMeld { action_type: i64 },
    Tehai { tiles: usize },
    NoSource,
    SourceRange,
    ZeroClaim,
    NoPair,
    NoTriple,
    NoQuad,
}

impl GameStatus {
    /// The seat of a user, by the first place in the seat order.
    pub open spec fn actor(self, uid: i64) -> Option<u8> {
        match lists::first_index(self.player_list@, uid) {
            Some(i) => if i <= u8::MAX {
                Some(i as u8)
            } else {
                None
            },
            None => None,
        }
    }

    /// The seat of a user, by the first place in the seat order.
    pub fn actor_of(&self, uid: i64) -> (actor: Option<u8>)
        ensures
            actor == self.actor(uid),
    {
        let ghost list = self.player_list@;
        let mut i: usize = 0;
        while i < self.player_list.len()
            invariant
                i <= self.player_list@.len(),
                list == self.player_list@,
                lists::first_index(list.take(i as int), uid) is None,
            decreases self.player_list.len() - i,
        {
            assert(list.take(i + 1).drop_last() =~= list.take(i as int));
            if self.player_list[i] == uid {
                proof {
                    lists::lemma_first_index_stays(list, i + 1, uid);
                }
                return if i <= 255 {
                    Some(i as u8)
                } else {
                    None
                };
            }
            i = i + 1;
        }
        assert(list.take(list.len() as int) =~= list);
        None
    }
}

/// The integer under `key`, or `default` where there is none.
pub open spec fn int_or(j: Json, key: Seq<char>, default: i64) -> i64 {
    match j.field(key) {
        Some(v) => match v.int_value() {
            Some(i) => i,
            None => default,
        },
        None => default,
    }
}

/// A value as a card code: the low 32 bits of its integer, zero without one.
pub open spec fn code_of(j: Json) -> u32 {
    match j.int_value() {
        Some(i) => i as u32,
        None => 0,
    }
}

/// The card codes under `key`, none where there is no array.
pub open spec fn codes_at(j: Json, key: Seq<char>) -> Seq<u32> {
    match j.field(key) {
        Some(v) => match v.items() {
            Some(items) => items.map_values(|c: Json| code_of(c)),
            None => Seq::empty(),
        },
        None => Seq::empty(),
    }
}

/// The boolean under `key`, `false` where there is none.
pub open spec fn flag_at(j: Json, key: Seq<char>) -> bool {
    match j.field(key) {
        Some(v) => v == Json::Bool(true),
        None => false,
    }
}

/// The user id of a roster entry: an integer, or a text that writes one.
pub open spec fn user_id(p: Json) -> Option<i64> {
    match p.field("user"@) {
        Some(u) => match u.field("user_id"@) {
            Some(v) => match v {
                Json::Int(i) => Some(i),
                Json::Text(t) => text::i64_of_text(t@),
                _ => None,
            },
            None => None,
        },
        None => None,
    }
}

pub open spec fn meld_at(m: Json) -> MeldModel {
    MeldModel {
        action_type: int_or(m, "action_type"@, 0),
        card: int_or(m, "card"@, 0) as u32,
        group: codes_at(m, "group_cards"@),
        bu_gang: int_or(m, "bu_gang_peng_card"@, 0) as u32,
        source_roster: match m.field("position"@) {
            Some(v) => v.int_value(),
            None => None,
        },
    }
}

pub open spec fn melds_at(p: Json) -> Seq<MeldModel> {
    match p.field("fu_lou_list"@) {
        Some(v) => match v.items() {
            Some(items) => items.map_values(|m: Json| meld_at(m)),
            None => Seq::empty(),
        },
        None => Seq::empty(),
    }
}

pub open spec fn player_at(p: Json, actor: u8) -> PlayerModel {
    PlayerModel {
        actor,
        score: int_or(p, "hand_chips"@, 0) as i32,
        hand_n: int_or(p, "hand_card_num"@, 0),
        hand: codes_at(p, "hand_cards"@),
        river: codes_at(p, "pai_he"@),
        melds: melds_at(p),
        riichi: flag_at(p, "is_li_zhi"@),
        riichi_pos: int_or(p, "li_zhi_pos"@, (-1) as i64),
        kita: codes_at(p, "pull_north_list"@),
    }
}

/// The players in roster order, each with the seat of its user.
pub open spec fn roster_at(list: Seq<Json>, status: GameStatus) -> Result<
    Seq<PlayerModel>,
    RestoreError,
>
    decreases list.len(),
{
    if list.len() == 0 {
        Ok(Seq::empty())
    } else {
        match roster_at(list.drop_last(), status) {
            Err(e) => Err(e),
            Ok(before) => match user_id(list.last()) {
                None => Err(RestoreError::NoUserId),
                Some(uid) => match status.actor(uid) {
                    None => Err(RestoreError::UnknownUid { uid }),
                    Some(actor) => Ok(before.push(player_at(list.last(), actor))),
                },
            },
        }
    }
}

/// One more than the highest seat that is taken.
pub open spec fn seat_count(roster: Seq<PlayerModel>) -> int
    decreases roster.len(),
{
    if roster.len() == 0 {
        0
    } else {
        let before = seat_count(roster.drop_last());
        if before <= roster.last().actor {
            roster.last().actor + 1
        } else {
            before
        }
    }
}

/// The last roster entry of a seat.
pub open spec fn seated(roster: Seq<PlayerModel>, seat: int) -> Option<PlayerModel>
    decreases roster.len(),
{
    if roster.len() == 0 {
        None
    } else if roster.last().actor == seat {
        Some(roster.last())
    } else {
        seated(roster.drop_last(), seat)
    }
}

/// The players in seat order, where every seat up to the highest is taken.
pub open spec fn table_of(roster: Seq<PlayerModel>) -> Result<Seq<PlayerModel>, RestoreError> {
    if forall|k: int| 0 <= k < seat_count(roster) ==> #[trigger] seated(roster, k) is Some {
        Ok(Seq::new(seat_count(roster) as nat, |k: int| seated(roster, k)->0))
    } else {
        Err(RestoreError::Seats)
    }
}

pub fn read_int(j: &Json, key: &str, default: i64) -> (value: i64)
    ensures
        value == int_or(*j, key@, default),
{
    match j.get(key) {
        Some(v) => match v.as_i64() {
            Some(i) => i,
            None => default,
        },
        None => default,
    }
}

fn read_flag(j: &Json, key: &str) -> (value: bool)
    ensures
        value == flag_at(*j, key@),
{
    match j.get(key) {
        Some(v) => match v.as_bool() {
            Some(b) => b,
            None => false,
        },
        None => false,
    }
}

fn read_codes(j: &Json, key: &str) -> (codes: Vec<u32>)
    ensures
        codes@ == codes_at(*j, key@),
{
    let mut codes: Vec<u32> = Vec::new();
    let v = match j.get(key) {
        Some(v) => v,
        None => {
            return codes;
        },
    };
    let items = match v.as_array() {
        Some(items) => items,
        None => {
            return codes;
        },
    };
    let mut i: usize = 0;
    while i < items.len()
        invariant
            i <= items@.len(),
            codes@ == items@.take(i as int).map_values(|c: Json| code_of(c)),
        decreases items.len() - i,
    {
        let code: u32 = match items[i].as_i64() {
            Some(n) =>
            #[verifier::truncate]
            (n as u32),
            None => 0,
        };
        codes.push(code);
        i = i + 1;
        proof {
            assert(items@.take(i as int) =~= items@.take(i - 1).push(items@[i - 1]));
            assert(codes@ =~= items@.take(i as int).map_values(|c: Json| code_of(c)));
        }
    }
    assert(items@.take(items@.len() as int) =~= items@);
    codes
}

fn read_user_id(p: &Json) -> (uid: Option<i64>)
    ensures
        uid == user_id(*p),
{
    match p.get("user") {
        Some(u) => match u.get("user_id") {
            Some(v) => match v.as_i64() {
                Some(i) => Some(i),
                None => match v.as_str() {
                    Some(t) => text::parse_i64(t),
                    None => None,
                },
            },
            None => None,
        },
        None => None,
    }
}

fn read_meld(m: &Json) -> (meld: MeldSnap)
    ensures
        meld@ == meld_at(*m),
{
    MeldSnap {
        action_type: read_int(m, "action_type", 0),
        card: #[verifier::truncate]
        (read_int(m, "card", 0) as u32),
        group: read_codes(m, "group_cards"),
        bu_gang: #[verifier::truncate]
        (read_int(m, "bu_gang_peng_card", 0) as u32),
        source_roster: match m.get("position") {
            Some(v) => v.as_i64(),
            None => None,
        },
    }
}

fn read_melds(p: &Json) -> (melds: Vec<MeldSnap>)
    ensures
        melds_of(melds@) == melds_at(*p),
{
    let mut melds: Vec<MeldSnap> = Vec::new();
    assert(melds_of(melds@) =~= Seq::empty());
    let v = match p.get("fu_lou_list") {
        Some(v) => v,
        None => {
            return melds;
        },
    };
    let items = match v.as_array() {
        Some(items) => items,
        None => {
            return melds;
        },
    };
    let mut i: usize = 0;
    while i < items.len()
        invariant
            i <= items@.len(),
            melds_of(melds@) == items@.take(i as int).map_values(|m: Json| meld_at(m)),
        decreases items.len() - i,
    {
        let ghost before = melds@;
        melds.push(read_meld(&items[i]));
        i = i + 1;
        proof {
            assert(items@.take(i as int) =~= items@.take(i - 1).push(items@[i - 1]));
            assert(melds_of(melds@) =~= melds_of(before).push(meld_at(items@[i - 1])));
            assert(melds_of(melds@) =~= items@.take(i as int).map_values(|m: Json| meld_at(m)));
        }
    }
    assert(items@.take(items@.len() as int) =~= items@);
    melds
}

fn read_player(p: &Json, actor: u8) -> (player: PlayerSnap)
    ensures
        player@ == player_at(*p, actor),
{
    PlayerSnap {
        actor,
        score: #[verifier::truncate]
        (read_int(p, "hand_chips", 0) as i32),
        hand_n: read_int(p, "hand_card_num", 0),
        hand: read_codes(p, "hand_cards"),
        river: read_codes(p, "pai_he"),
        melds: read_melds(p),
        riichi: read_flag(p, "is_li_zhi"),
        riichi_pos: read_int(p, "li_zhi_pos", -1),
        kita: read_codes(p, "pull_north_list"),
    }
}

/// The seat of each roster chair, and the players in seat order.
pub open spec fn table_at(list: Seq<Json>, status: GameStatus) -> Result<
    (Seq<u8>, Seq<PlayerModel>),
    RestoreError,
> {
    match roster_at(list, status) {
        Err(e) => Err(e),
        Ok(roster) => match table_of(roster) {
            Err(e) => Err(e),
            Ok(players) => Ok((roster.map_values(|p: PlayerModel| p.actor), players)),
        },
    }
}

spec fn slot_of(slot: Option<PlayerSnap>) -> Option<PlayerModel> {
    match slot {
        Some(p) => Some(p@),
        None => None,
    }
}

proof fn lemma_roster_error_stays(list: Seq<Json>, k: int, status: GameStatus)
    requires
        0 <= k <= list.len(),
        roster_at(list.take(k), status) is Err,
    ensures
        roster_at(list, status) == roster_at(list.take(k), status),
    decreases list.len(),
{
    if k == list.len() {
        assert(list.take(k) =~= list);
    } else {
        assert(list.drop_last().take(k) =~= list.take(k));
        lemma_roster_error_stays(list.drop_last(), k, status);
    }
}

proof fn lemma_no_one_above(roster: Seq<PlayerModel>, seat: int)
    requires
        seat_count(roster) <= seat,
    ensures
        seated(roster, seat) is None,
    decreases roster.len(),
{
    if roster.len() > 0 {
        lemma_no_one_above(roster.drop_last(), seat);
    }
}

/// Whoever is seated at `seat` has that seat.
pub proof fn lemma_seated_actor(roster: Seq<PlayerModel>, seat: int)
    requires
        seated(roster, seat) is Some,
    ensures
        seated(roster, seat)->0.actor == seat,
    decreases roster.len(),
{
    if roster.last().actor != seat {
        lemma_seated_actor(roster.drop_last(), seat);
    }
}

pub fn read_table(list: &Vec<Json>, status: &GameStatus) -> (table: Result<
    (Vec<u8>, Vec<PlayerSnap>),
    RestoreError,
>)
    ensures
        match table {
            Ok((chairs, players)) => table_at(list@, *status) == Ok::<
                (Seq<u8>, Seq<PlayerModel>),
                RestoreError,
            >((chairs@, players_of(players@))),
            Err(e) => table_at(list@, *status) == Err::<
                (Seq<u8>, Seq<PlayerModel>),
                RestoreError,
            >(e),
        },
{
    let mut chairs: Vec<u8> = Vec::new();
    let mut seats: Vec<Option<PlayerSnap>> = Vec::new();
    let ghost mut roster: Seq<PlayerModel> = Seq::empty();
    let mut i: usize = 0;
    assert(list@.take(0) =~= Seq::empty());
    assert(chairs@ =~= roster.map_values(|p: PlayerModel| p.actor));
    while i < list.len()
        invariant
            i <= list@.len(),
            roster_at(list@.take(i as int), *status) == Ok::<Seq<PlayerModel>, RestoreError>(roster),
            chairs@ == roster.map_values(|p: PlayerModel| p.actor),
            seats@.len() == seat_count(roster),
            forall|k: int|
                0 <= k < seats@.len() ==> slot_of(#[trigger] seats@[k]) == seated(roster, k),
        decreases list.len() - i,
    {
        let ghost shown = list@.take(i + 1);
        assert(shown.drop_last() =~= list@.take(i as int));
        assert(shown.last() == list@[i as int]);
        let uid = match read_user_id(&list[i]) {
            Some(uid) => uid,
            None => {
                proof {
                    lemma_roster_error_stays(list@, i + 1, *status);
                }
                return Err(RestoreError::NoUserId);
            },
        };
        let actor = match status.actor_of(uid) {
            Some(actor) => actor,
            None => {
                proof {
                    lemma_roster_error_stays(list@, i + 1, *status);
                }
                return Err(RestoreError::UnknownUid { uid });
            },
        };
        let player = read_player(&list[i], actor);
        let ghost before = roster;
        let ghost model = player@;
        while seats.len() <= actor as usize
            invariant
                before == roster,
                seats@.len() >= seat_count(roster),
                seats@.len() > seat_count(roster) ==> seats@.len() <= actor + 1,
                forall|k: int|
                    0 <= k < seats@.len() ==> slot_of(#[trigger] seats@[k]) == seated(roster, k),
            decreases actor + 1 - seats.len(),
        {
            proof {
                lemma_no_one_above(roster, seats@.len() as int);
            }
            seats.push(None);
        }
        seats.set(actor as usize, Some(player));
        chairs.push(actor);
        proof {
            roster = roster.push(model);
            assert(roster.drop_last() =~= before);
            assert(chairs@ =~= roster.map_values(|p: PlayerModel| p.actor));
        }
        i = i + 1;
    }
    assert(list@.take(list@.len() as int) =~= list@);
    let mut players: Vec<PlayerSnap> = Vec::new();
    let ghost all = seats@;
    assert(all.skip(0) =~= all);
    while seats.len() > 0
        invariant
            roster_at(list@, *status) == Ok::<Seq<PlayerModel>, RestoreError>(roster),
            all.len() == seat_count(roster),
            players@.len() + seats@.len() == all.len(),
            seats@ == all.skip(players@.len() as int),
            forall|k: int| 0 <= k < all.len() ==> slot_of(#[trigger] all[k]) == seated(roster, k),
            forall|k: int| 0 <= k < players@.len() ==> Some(#[trigger] players@[k]) == all[k],
        decreases seats.len(),
    {
        let ghost k = players@.len() as int;
        assert(seats@[0] == all[k]);
        assert(seats@.remove(0) =~= all.skip(k + 1));
        match seats.remove(0) {
            Some(player) => {
                players.push(player);
            },
            None => {
                assert(seated(roster, k) is None);
                return Err(RestoreError::Seats);
            },
        }
    }
    proof {
        assert forall|k: int| 0 <= k < seat_count(roster) implies #[trigger] seated(roster, k)
            == Some(players@[k]@) by {
            assert(slot_of(all[k]) == seated(roster, k));
            assert(Some(players@[k]) == all[k]);
        }
        assert(players_of(players@) =~= Seq::new(
            seat_count(roster) as nat,
            |k: int| seated(roster, k)->0,
        ));
    }
    Ok((chairs, players))
}

/// A table has no more seats than its roster has entries.
pub proof fn lemma_table_fits_the_roster(list: Seq<Json>, status: GameStatus)
    requires
        table_at(list, status) is Ok,
    ensures
        (table_at(list, status)->Ok_0).1.len() <= list.len(),
{
    let roster = roster_at(list, status)->Ok_0;
    let actors = roster.map_values(|p: PlayerModel| p.actor as int);
    let seats = vstd::set_lib::set_int_range(0, seat_count(roster));
    lemma_seat_count_bound(roster);
    lemma_roster_length(list, status);
    assert forall|k: int| seats.contains(k) implies #[trigger] actors.to_set().contains(k) by {
        assert(seated(roster, k) is Some);
        lemma_seat_in_roster(roster, k);
        let i = choose|i: int| 0 <= i < roster.len() && (#[trigger] roster[i]).actor == k;
        assert(actors[i] == k);
    }
    actors.lemma_cardinality_of_set();
    vstd::set_lib::lemma_int_range(0, seat_count(roster));
    vstd::set_lib::lemma_len_subset(seats, actors.to_set());
}

proof fn lemma_roster_length(list: Seq<Json>, status: GameStatus)
    requires
        roster_at(list, status) is Ok,
    ensures
        roster_at(list, status)->Ok_0.len() == list.len(),
    decreases list.len(),
{
    if list.len() > 0 {
        lemma_roster_length(list.drop_last(), status);
    }
}

proof fn lemma_seat_in_roster(roster: Seq<PlayerModel>, seat: int)
    requires
        seated(roster, seat) is Some,
    ensures
        exists|i: int| 0 <= i < roster.len() && (#[trigger] roster[i]).actor == seat,
    decreases roster.len(),
{
    if roster.last().actor == seat {
        assert(roster[roster.len() - 1].actor == seat);
    } else {
        lemma_seat_in_roster(roster.drop_last(), seat);
        let i = choose|i: int|
            0 <= i < roster.drop_last().len() && (#[trigger] roster.drop_last()[i]).actor == seat;
        assert(roster[i].actor == seat);
    }
}

/// Seats are numbered by a byte.
pub proof fn lemma_seat_count_bound(roster: Seq<PlayerModel>)
    ensures
        0 <= seat_count(roster) <= 256,
    decreases roster.len(),
{
    if roster.len() > 0 {
        lemma_seat_count_bound(roster.drop_last());
    }
}

} // verus!
