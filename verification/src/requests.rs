//! Outbound requests: the packet that performs each of the bot's decisions.
//!
//! Gameplay actions ride one request with the numeric action codes that the
//! server broadcasts back. Discards and calls carry rack positions (see
//! [`crate::rack`]); calls also name the tiles that they take from the hand.
use crate::events::{EventModel, MjaiEvent};
use crate::json;
use crate::json::{Json, JsonModel};
use crate::lists;
use crate::rack;
use crate::rack::{Rack, RackModel};
use crate::text;
use crate::tiles;
use vstd::prelude::*;

verus! {

/// The packet command that every request rides (0 is a heartbeat, 1 the
/// login).
pub const BIN_CMD_REQUEST: u16 = 6;

// Action codes: the chi variants are 2 (claimed tile low in the run), 3
// (middle) and 4 (high).
pub const PASS: i64 = 1;

pub const PON: i64 = 5;

pub const DAIMINKAN: i64 = 6;

pub const RON: i64 = 7;

pub const ANKAN: i64 = 8;

pub const KAKAN: i64 = 9;

pub const TSUMO: i64 = 10;

pub const DAHAI: i64 = 11;

pub const NINE_CARDS: i64 = 12;

pub const KITA: i64 = 13;

/// One packet: its command and its JSON body.
#[derive(Debug, PartialEq)]
pub struct WPacket {
    pub cmd: u16,
    pub body: Json,
}

pub struct PacketModel {
    pub cmd: u16,
    pub body: JsonModel,
}

impl View for WPacket {
    type V = PacketModel;

    open spec fn view(&self) -> PacketModel {
        PacketModel { cmd: self.cmd, body: self.body.model() }
    }
}

/// The view of a packet that may be absent.
pub open spec fn packet_of(packet: Option<WPacket>) -> Option<PacketModel> {
    match packet {
        Some(p) => Some(p@),
        None => None,
    }
}

/// What a value says, where there is one.
pub open spec fn json_of(j: Option<Json>) -> Option<JsonModel> {
    match j {
        Some(j) => Some(j.model()),
        None => None,
    }
}

/// An entry that holds an integer.
pub open spec fn int_entry(key: Seq<char>, i: int) -> (Seq<char>, JsonModel) {
    (key, JsonModel::Int(i as i64))
}

/// An entry that holds a list of integers.
pub open spec fn list_entry(key: Seq<char>, list: Seq<u32>) -> (Seq<char>, JsonModel) {
    (key, json::int_array(list))
}

/// 1 where a tile's rank is below that of the claimed tile, else 0.
pub open spec fn ranks_below(card: u32, claimed: u32) -> int {
    if card % 16 < claimed % 16 {
        1
    } else {
        0
    }
}

/// The chi variant code: where the claimed tile sits in the run. It is 2 plus
/// the number of consumed tiles of a lower rank.
pub open spec fn chi_code(claimed: u32, first: u32, second: u32) -> int {
    2 + ranks_below(first, claimed) + ranks_below(second, claimed)
}

/// The rack slots of the consumed tiles, where the rack is known and holds
/// them.
pub open spec fn call_slots(r: Option<RackModel>, consumed: Seq<Seq<char>>) -> Option<Seq<u32>> {
    match r {
        Some(r) => r.slots(consumed),
        None => None,
    }
}

/// The codes of the consumed tiles: in the order of their slots, or in the
/// given order where there are none.
pub open spec fn call_group(r: Option<RackModel>, consumed: Seq<Seq<char>>) -> Option<Seq<u32>> {
    match call_slots(r, consumed) {
        Some(_) => tiles::card_codes(r->0.matched(consumed)),
        None => tiles::card_codes(consumed),
    }
}

/// Entries, with the slots behind them where they are known.
pub open spec fn with_slots(
    entries: Seq<(Seq<char>, JsonModel)>,
    slots: Option<Seq<u32>>,
) -> JsonModel {
    JsonModel::Object(
        match slots {
            Some(pos) => entries.push(list_entry("move_cards_pos"@, pos)),
            None => entries,
        },
    )
}

/// A claim: the action, the claimed tile, the consumed tiles and their slots.
pub open spec fn call_data_model(
    action: int,
    card: u32,
    r: Option<RackModel>,
    consumed: Seq<Seq<char>>,
) -> Option<JsonModel> {
    match call_group(r, consumed) {
        None => None,
        Some(group) => Some(
            with_slots(
                seq![
                    int_entry("action"@, action),
                    int_entry("card"@, card as int),
                    list_entry("group_cards"@, group),
                ],
                call_slots(r, consumed),
            ),
        ),
    }
}

/// A concealed kan: the first copy in the rack, the other three, and the slots
/// of all four where the rack holds them.
pub open spec fn ankan_data_model(r: Option<RackModel>, consumed: Seq<Seq<char>>) -> Option<
    JsonModel,
> {
    match call_group(r, consumed) {
        None => None,
        Some(group) => if group.len() == 0 {
            None
        } else {
            Some(
                with_slots(
                    seq![
                        int_entry("action"@, ANKAN as int),
                        int_entry("card"@, group[0] as int),
                        list_entry("group_cards"@, group.skip(1)),
                    ],
                    call_slots(r, consumed),
                ),
            )
        },
    }
}

/// A kakan or kita: the tile, and the slot of the first tile of its kind where
/// the rack holds one.
pub open spec fn kind_data_model(action: int, pai: Seq<char>, r: Option<RackModel>) -> Option<
    JsonModel,
> {
    match tiles::card_code(pai) {
        None => None,
        Some(card) => {
            let slot = match r {
                Some(r) => r.kind_slot(pai),
                None => None,
            };
            Some(
                with_slots(
                    seq![int_entry("action"@, action), int_entry("card"@, card as int)],
                    match slot {
                        Some(p) => Some(seq![p]),
                        None => None,
                    },
                ),
            )
        },
    }
}

/// A win: the winning tile with it, where it is known.
pub open spec fn hora_data_model(tsumo: bool, tile: Option<Seq<char>>) -> Option<JsonModel> {
    let action = int_entry(
        "action"@,
        if tsumo {
            TSUMO as int
        } else {
            RON as int
        },
    );
    match tile {
        None => Some(JsonModel::Object(seq![action])),
        Some(pai) => match tiles::card_code(pai) {
            Some(card) => Some(JsonModel::Object(seq![action, int_entry("card"@, card as int)])),
            None => None,
        },
    }
}

/// Where a drawn tile slides after a discard from the hand: the slot before
/// the last, the first at least.
pub open spec fn slide_slot(r: RackModel) -> int {
    if r.tiles.len() >= 2 {
        r.tiles.len() - 1
    } else {
        1
    }
}

/// The slot that a discard names. Discarding the draw names the last slot. Any
/// other discard names the first slot of its tile, the held draw aside; the
/// held draw's slot where only the draw matches; and the slot before the last
/// where nothing does.
pub open spec fn discard_slot(pai: Seq<char>, tsumogiri: bool, r: RackModel) -> int {
    let len = r.tiles.len() as int;
    let hand_slots = if r.drawn_last {
        len - 1
    } else {
        len
    };
    if tsumogiri {
        len
    } else {
        match lists::first_index(r.tiles.take(hand_slots), pai) {
            Some(i) => i + 1,
            None => if r.drawn_last && r.tiles[hand_slots] == pai {
                len
            } else {
                slide_slot(r)
            },
        }
    }
}

/// The two positions of a discard; without a rack, those of a full hand.
pub open spec fn discard_positions(pai: Seq<char>, tsumogiri: bool, r: Option<RackModel>) -> Seq<
    u32,
> {
    match r {
        Some(r) => seq![discard_slot(pai, tsumogiri, r) as u32, slide_slot(r) as u32],
        None => seq![
            if tsumogiri {
                14u32
            } else {
                13u32
            },
            13u32,
        ],
    }
}

/// A discard, with or without a riichi declaration.
pub open spec fn dahai_data_model(
    pai: Seq<char>,
    tsumogiri: bool,
    riichi: bool,
    r: Option<RackModel>,
) -> Option<JsonModel> {
    match tiles::card_code(pai) {
        None => None,
        Some(card) => Some(
            JsonModel::Object(
                seq![
                    int_entry("action"@, DAHAI as int),
                    int_entry("card"@, card as int),
                    ("is_li_zhi"@, JsonModel::Bool(riichi)),
                    ("is_xuan_gao_ting"@, JsonModel::Bool(false)),
                    int_entry("li_zhi_operate"@, 0),
                    list_entry("move_cards_pos"@, discard_positions(pai, tsumogiri, r)),
                ],
            ),
        ),
    }
}

/// What a request says for an event; `None` for what is not a decision, and
/// for a decision that names a tile without a card code.
pub open spec fn action_data(
    ev: EventModel,
    drawn: Option<Seq<char>>,
    last_discard: Option<Seq<char>>,
    hand: Option<Seq<Seq<char>>>,
) -> Option<JsonModel> {
    let r = rack::rack_of(hand, drawn);
    match ev {
        EventModel::Dahai { actor: _, pai, tsumogiri } => dahai_data_model(
            pai,
            tsumogiri,
            false,
            r,
        ),
        EventModel::Reach { actor: _, pai } => match pai {
            Some(pai) => dahai_data_model(pai, false, true, r),
            None => None,
        },
        EventModel::Chi { actor: _, target: _, pai, consumed } => match tiles::card_code(pai) {
            None => None,
            Some(card) => match tiles::card_codes(consumed) {
                None => None,
                Some(group) => call_data_model(
                    chi_code(card, group[0], group[1]),
                    card,
                    r,
                    consumed,
                ),
            },
        },
        EventModel::Pon { actor: _, target: _, pai, consumed } => match tiles::card_code(pai) {
            None => None,
            Some(card) => call_data_model(PON as int, card, r, consumed),
        },
        EventModel::Daiminkan { actor: _, target: _, pai, consumed } => match tiles::card_code(
            pai,
        ) {
            None => None,
            Some(card) => call_data_model(DAIMINKAN as int, card, r, consumed),
        },
        EventModel::Ankan { actor: _, consumed } => ankan_data_model(r, consumed),
        EventModel::Kakan { actor: _, pai, consumed: _ } => kind_data_model(KAKAN as int, pai, r),
        EventModel::Kita { actor: _, pai } => match pai {
            Some(pai) => kind_data_model(KITA as int, pai, r),
            None => kind_data_model(KITA as int, "N"@, r),
        },
        EventModel::Hora { actor, target, deltas: _, ura_markers: _ } => if target == actor {
            hora_data_model(true, drawn)
        } else {
            hora_data_model(false, last_discard)
        },
        EventModel::Pass => Some(JsonModel::Object(seq![int_entry("action"@, PASS as int)])),
        EventModel::Ryukyoku { deltas } => match deltas {
            None => Some(JsonModel::Object(seq![int_entry("action"@, NINE_CARDS as int)])),
            Some(_) => None,
        },
        _ => None,
    }
}

/// The packet that carries the data of an action.
pub open spec fn action_packet(data: JsonModel) -> PacketModel {
    PacketModel {
        cmd: BIN_CMD_REQUEST,
        body: JsonModel::Object(
            seq![("cmd"@, JsonModel::Text("req_game_action"@)), ("data"@, data)],
        ),
    }
}

/// The packet for an event, where there is one.
pub open spec fn action_request(
    ev: EventModel,
    drawn: Option<Seq<char>>,
    last_discard: Option<Seq<char>>,
    hand: Option<Seq<Seq<char>>>,
) -> Option<PacketModel> {
    match action_data(ev, drawn, last_discard, hand) {
        Some(data) => Some(action_packet(data)),
        None => None,
    }
}

/// The round-advance press: the bare request.
pub open spec fn ready_packet() -> PacketModel {
    PacketModel {
        cmd: BIN_CMD_REQUEST,
        body: JsonModel::Object(seq![("cmd"@, JsonModel::Text("req_user_prepare"@))]),
    }
}

/// A rack that is short enough for its slots to be numbered.
pub open spec fn rack_fits(r: Option<&Rack>) -> bool {
    match r {
        Some(r) => r.tiles@.len() <= u32::MAX,
        None => true,
    }
}

/// The view of a borrowed rack that may be absent.
pub open spec fn rack_at(r: Option<&Rack>) -> Option<RackModel> {
    match r {
        Some(r) => Some(r@),
        None => None,
    }
}

fn start_data(action: i64) -> (entries: Vec<(String, Json)>)
    ensures
        json::fields_of(entries@) == seq![int_entry("action"@, action as int)],
{
    let mut entries: Vec<(String, Json)> = Vec::new();
    json::push_field(&mut entries, "action", Json::Int(action));
    assert(json::fields_of(entries@) =~= seq![int_entry("action"@, action as int)]);
    entries
}

fn start_card_data(action: i64, card: u32) -> (entries: Vec<(String, Json)>)
    ensures
        json::fields_of(entries@) == seq![
            int_entry("action"@, action as int),
            int_entry("card"@, card as int),
        ],
{
    let mut entries: Vec<(String, Json)> = start_data(action);
    json::push_field(&mut entries, "card", Json::Int(card as i64));
    assert(json::fields_of(entries@) =~= seq![
        int_entry("action"@, action as int),
        int_entry("card"@, card as int),
    ]);
    entries
}

/// The chi variant code: 2 = low end of the run, 3 = middle, 4 = high end.
pub fn chi_action_code(claimed: u32, consumed: &[u32; 2]) -> (code: i64)
    ensures
        code == chi_code(claimed, consumed@[0], consumed@[1]),
{
    let mut code: i64 = 2;
    if consumed[0] % 16 < claimed % 16 {
        code = code + 1;
    }
    if consumed[1] % 16 < claimed % 16 {
        code = code + 1;
    }
    code
}

/// A claim request: action and card, plus the consumed tiles and their rack
/// slots, both in rack-scan order. Without a rack the consumed tiles go out in
/// the bot's order and the positions are omitted.
fn call_data(action: i64, card: u32, rack: Option<&Rack>, consumed: &[String]) -> (data: Option<
    Json,
>)
    requires
        rack_fits(rack),
    ensures
        json_of(data) == call_data_model(
            action as int,
            card,
            rack_at(rack),
            text::texts(consumed@),
        ),
{
    let found = match rack {
        Some(r) => r.positions(consumed),
        None => None,
    };
    let named = match &found {
        Some((_, matched)) => tiles::cards(matched.as_slice()),
        None => tiles::cards(consumed),
    };
    let group: Vec<u32> = match named {
        Some(group) => group,
        None => {
            return None;
        },
    };
    let mut entries: Vec<(String, Json)> = start_card_data(action, card);
    json::push_field(&mut entries, "group_cards", json::array_of(&group));
    assert(json::fields_of(entries@) =~= seq![
        int_entry("action"@, action as int),
        int_entry("card"@, card as int),
        list_entry("group_cards"@, group@),
    ]);
    if let Some((pos, _)) = &found {
        json::push_field(&mut entries, "move_cards_pos", json::array_of(pos));
    }
    Some(json::object(entries))
}

fn ankan_data(rack: Option<&Rack>, consumed: &[String]) -> (data: Option<Json>)
    requires
        rack_fits(rack),
    ensures
        json_of(data) == ankan_data_model(rack_at(rack), text::texts(consumed@)),
{
    let found = match rack {
        Some(r) => r.positions(consumed),
        None => None,
    };
    let named = match &found {
        Some((_, matched)) => tiles::cards(matched.as_slice()),
        None => tiles::cards(consumed),
    };
    let mut group: Vec<u32> = match named {
        Some(group) => group,
        None => {
            return None;
        },
    };
    if group.len() == 0 {
        return None;
    }
    let ghost all = group@;
    let first: u32 = group.remove(0);
    assert(group@ =~= all.skip(1));
    let mut entries: Vec<(String, Json)> = start_card_data(ANKAN, first);
    json::push_field(&mut entries, "group_cards", json::array_of(&group));
    assert(json::fields_of(entries@) =~= seq![
        int_entry("action"@, ANKAN as int),
        int_entry("card"@, first as int),
        list_entry("group_cards"@, group@),
    ]);
    if let Some((pos, _)) = &found {
        json::push_field(&mut entries, "move_cards_pos", json::array_of(pos));
    }
    Some(json::object(entries))
}

fn kind_data(action: i64, pai: &str, rack: Option<&Rack>) -> (data: Option<Json>)
    requires
        rack_fits(rack),
    ensures
        json_of(data) == kind_data_model(action as int, pai@, rack_at(rack)),
{
    let card: u32 = match tiles::mjai_to_card(pai) {
        Some(card) => card,
        None => {
            return None;
        },
    };
    let mut entries: Vec<(String, Json)> = start_card_data(action, card);
    let slot: Option<u32> = match rack {
        Some(r) => r.first_of_kind(pai),
        None => None,
    };
    if let Some(p) = slot {
        let mut pos: Vec<u32> = Vec::new();
        pos.push(p);
        assert(pos@ =~= seq![p]);
        json::push_field(&mut entries, "move_cards_pos", json::array_of(&pos));
    }
    Some(json::object(entries))
}

fn hora_data(tsumo: bool, tile: Option<&str>) -> (data: Option<Json>)
    ensures
        json_of(data) == hora_data_model(tsumo, text::str_of(tile)),
{
    let action: i64 = if tsumo {
        TSUMO
    } else {
        RON
    };
    match tile {
        None => Some(json::object(start_data(action))),
        Some(pai) => match tiles::mjai_to_card(pai) {
            Some(card) => Some(json::object(start_card_data(action, card))),
            None => None,
        },
    }
}

/// A discard request. Riichi is the same request with its flag set.
fn dahai_data(pai: &str, tsumogiri: bool, riichi: bool, rack: Option<&Rack>) -> (data: Option<Json>)
    requires
        rack_fits(rack),
        rack matches Some(r) ==> r.tiles@.len() > 0,
    ensures
        json_of(data) == dahai_data_model(pai@, tsumogiri, riichi, rack_at(rack)),
{
    let mut pos: Vec<u32> = Vec::new();
    match rack {
        Some(r) => {
            let len: usize = r.tiles.len();
            let to: usize = if len >= 2 {
                len - 1
            } else {
                1
            };
            let hand_slots: usize = if r.drawn_last {
                len - 1
            } else {
                len
            };
            let from: usize = if tsumogiri {
                len
            } else {
                match lists::first_place(&r.tiles, hand_slots, pai) {
                    Some(i) => i + 1,
                    None => {
                        if r.drawn_last && text::same_text(r.tiles[hand_slots].as_str(), pai) {
                            len
                        } else {
                            to
                        }
                    },
                }
            };
            pos.push(from as u32);
            pos.push(to as u32);
        },
        None => {
            pos.push(
                if tsumogiri {
                    14
                } else {
                    13
                },
            );
            pos.push(13);
        },
    }
    assert(pos@ =~= discard_positions(pai@, tsumogiri, rack_at(rack)));
    let card: u32 = match tiles::mjai_to_card(pai) {
        Some(card) => card,
        None => {
            return None;
        },
    };
    let mut entries: Vec<(String, Json)> = start_card_data(DAHAI, card);
    json::push_field(&mut entries, "is_li_zhi", Json::Bool(riichi));
    json::push_field(&mut entries, "is_xuan_gao_ting", Json::Bool(false));
    json::push_field(&mut entries, "li_zhi_operate", Json::Int(0));
    json::push_field(&mut entries, "move_cards_pos", json::array_of(&pos));
    assert(json::fields_of(entries@) =~= seq![
        int_entry("action"@, DAHAI as int),
        int_entry("card"@, card as int),
        ("is_li_zhi"@, JsonModel::Bool(riichi)),
        ("is_xuan_gao_ting"@, JsonModel::Bool(false)),
        int_entry("li_zhi_operate"@, 0),
        list_entry("move_cards_pos"@, pos@),
    ]);
    Some(json::object(entries))
}

fn action_frame(data: Json) -> (packet: WPacket)
    ensures
        packet@ == action_packet(data.model()),
{
    let mut entries: Vec<(String, Json)> = Vec::new();
    json::push_field(&mut entries, "cmd", Json::Text("req_game_action".to_owned()));
    json::push_field(&mut entries, "data", data);
    assert(json::fields_of(entries@) =~= seq![
        ("cmd"@, JsonModel::Text("req_game_action"@)),
        ("data"@, data.model()),
    ]);
    WPacket { cmd: BIN_CMD_REQUEST, body: json::object(entries) }
}

/// Encode one bot decision as the packet that performs it, without table
/// context.
pub fn encode_action(ev: &MjaiEvent) -> (packet: Option<WPacket>)
    ensures
        packet_of(packet) == action_request(ev@, None, None, None),
{
    encode_action_with(ev, None, None, None)
}

/// [`encode_action`] plus the table state that some actions need: the tile
/// currently held from the wall (a tsumo names it, and the rack holds it last),
/// the most recent discard (a ron names it), and our hand (discards and calls
/// carry rack positions).
pub fn encode_action_with(
    ev: &MjaiEvent,
    drawn: Option<&str>,
    last_discard: Option<&str>,
    hand: Option<&[String]>,
) -> (packet: Option<WPacket>)
    requires
        hand matches Some(h) ==> h@.len() <= u32::MAX,
    ensures
        packet_of(packet) == action_request(
            ev@,
            text::str_of(drawn),
            text::str_of(last_discard),
            rack::hand_of(hand),
        ),
{
    let built: Option<Rack> = Rack::build(hand, drawn);
    proof {
        if let Some(h) = hand {
            if h@.len() > 0 {
                rack::law_rack_keeps_the_hand(text::texts(h@), text::str_of(drawn), Seq::empty());
            }
        }
    }
    let rack: Option<&Rack> = built.as_ref();
    let data: Option<Json> = match ev {
        MjaiEvent::Dahai { actor: _, pai, tsumogiri } => dahai_data(
            pai.as_str(),
            *tsumogiri,
            false,
            rack,
        ),
        MjaiEvent::Reach { actor: _, pai } => match pai {
            Some(pai) => dahai_data(pai.as_str(), false, true, rack),
            None => None,
        },
        MjaiEvent::Chi { actor: _, target: _, pai, consumed } => {
            match tiles::mjai_to_card(pai.as_str()) {
                Some(card) => match tiles::cards(consumed.as_slice()) {
                    Some(group) => call_data(
                        chi_action_code(card, &[group[0], group[1]]),
                        card,
                        rack,
                        consumed.as_slice(),
                    ),
                    None => None,
                },
                None => None,
            }
        },
        MjaiEvent::Pon { actor: _, target: _, pai, consumed } => {
            match tiles::mjai_to_card(pai.as_str()) {
                Some(card) => call_data(PON, card, rack, consumed.as_slice()),
                None => None,
            }
        },
        MjaiEvent::Daiminkan { actor: _, target: _, pai, consumed } => {
            match tiles::mjai_to_card(pai.as_str()) {
                Some(card) => call_data(DAIMINKAN, card, rack, consumed.as_slice()),
                None => None,
            }
        },
        MjaiEvent::Ankan { actor: _, consumed } => ankan_data(rack, consumed.as_slice()),
        MjaiEvent::Kakan { actor: _, pai, consumed: _ } => kind_data(KAKAN, pai.as_str(), rack),
        MjaiEvent::Kita { actor: _, pai } => match pai {
            Some(pai) => kind_data(KITA, pai.as_str(), rack),
            None => kind_data(KITA, "N", rack),
        },
        MjaiEvent::Hora { actor, target, deltas: _, ura_markers: _ } => {
            if *target == *actor {
                hora_data(true, drawn)
            } else {
                hora_data(false, last_discard)
            }
        },
        MjaiEvent::Pass => Some(json::object(start_data(PASS))),
        MjaiEvent::Ryukyoku { deltas } => match deltas {
            None => Some(json::object(start_data(NINE_CARDS))),
            Some(_) => None,
        },
        _ => None,
    };
    match data {
        Some(data) => Some(action_frame(data)),
        None => None,
    }
}

/// The round-advance press: one bare request per round end.
pub fn user_prepare() -> (packet: WPacket)
    ensures
        packet@ == ready_packet(),
{
    let mut entries: Vec<(String, Json)> = Vec::new();
    json::push_field(&mut entries, "cmd", Json::Text("req_user_prepare".to_owned()));
    assert(json::fields_of(entries@) =~= seq![("cmd"@, JsonModel::Text("req_user_prepare"@))]);
    WPacket { cmd: BIN_CMD_REQUEST, body: json::object(entries) }
}

/// The code of a tile stands as often in a list of codes as the tile in the
/// list of tiles.
pub proof fn lemma_codes_count(pais: Seq<Seq<char>>, code: u32)
    requires
        tiles::card_codes(pais) is Some,
    ensures
        lists::occurrences(tiles::card_codes(pais)->0, code) == lists::occurrences(
            pais,
            tiles::card_text(code),
        ),
    decreases pais.len(),
{
    if pais.len() > 0 {
        let rest = pais.drop_last();
        let pai = pais[pais.len() - 1];
        assert(tiles::card_code(pai) is Some);
        assert forall|i: int| 0 <= i < rest.len() implies tiles::card_code(
            #[trigger] rest[i],
        ) is Some by {
            assert(tiles::card_code(pais[i]) is Some);
        }
        lemma_codes_count(rest, code);
        assert(tiles::card_codes(pais)->0.drop_last() =~= tiles::card_codes(rest)->0);
        tiles::law_tiles_of_codes(pai, tiles::card_code(pai)->0);
        tiles::law_codes_are_distinct(pai, pai);
        if tiles::card_text(code) != seq!['?'] {
            tiles::law_codes_of_named_tiles(code);
        }
    }
}

/// Tiles that all stand in a list of coded tiles have codes.
proof fn lemma_codes_of_same_tiles(from: Seq<Seq<char>>, to: Seq<Seq<char>>)
    requires
        tiles::card_codes(from) is Some,
        forall|t: Seq<char>| #[trigger]
            lists::occurrences(to, t) == lists::occurrences(from, t),
    ensures
        tiles::card_codes(to) is Some,
{
    assert forall|i: int| 0 <= i < to.len() implies tiles::card_code(
        #[trigger] to[i],
    ) is Some by {
        let t = to[i];
        lists::lemma_occurrences(to, t);
        lists::lemma_occurrences(from, t);
        lists::lemma_first_index(to, t);
        lists::lemma_first_index(from, t);
        assert(lists::occurrences(to, t) == lists::occurrences(from, t));
        let k = lists::first_index(from, t)->0;
        assert(tiles::card_code(from[k]) is Some);
    }
}

/// A call sends the tiles that the bot chose, whatever the rack: it goes out
/// exactly where they all have codes, and it lists each code as often as they
/// do.
pub proof fn law_a_call_sends_the_chosen_tiles(
    r: Option<RackModel>,
    consumed: Seq<Seq<char>>,
    code: u32,
)
    requires
        r matches Some(r) ==> r.tiles.len() <= u32::MAX,
    ensures
        call_group(r, consumed) is Some <==> tiles::card_codes(consumed) is Some,
        call_group(r, consumed) matches Some(group) ==> lists::occurrences(group, code)
            == lists::occurrences(tiles::card_codes(consumed)->0, code),
{
    if call_slots(r, consumed) is Some {
        let found = r->0.matched(consumed);
        assert forall|t: Seq<char>| #[trigger]
            lists::occurrences(found, t) == lists::occurrences(consumed, t) by {
            rack::law_slots_hold_the_wanted_tiles(r->0, consumed, t);
        }
        if tiles::card_codes(consumed) is Some {
            lemma_codes_of_same_tiles(consumed, found);
        }
        if tiles::card_codes(found) is Some {
            lemma_codes_of_same_tiles(found, consumed);
            lemma_codes_count(found, code);
            lemma_codes_count(consumed, code);
            assert(lists::occurrences(found, tiles::card_text(code)) == lists::occurrences(
                consumed,
                tiles::card_text(code),
            ));
        }
    }
}

/// On a drawn turn the last slot means that the draw is discarded: either the
/// discard says so, or the drawn tile is the one it names. The one-tile rack
/// is left out: its only slot is also the slot that a mismatched tile gets.
pub proof fn law_last_slot_means_the_draw(pai: Seq<char>, tsumogiri: bool, r: RackModel)
    requires
        r.drawn_last,
        r.tiles.len() >= 2,
    ensures
        discard_slot(pai, tsumogiri, r) == r.tiles.len() ==> tsumogiri || r.tiles.last() == pai,
        tsumogiri ==> discard_slot(pai, tsumogiri, r) == r.tiles.len(),
{
    lists::lemma_first_index(r.tiles.take(r.tiles.len() - 1), pai);
}

/// A discard names a slot of the rack, and where the tile is in the rack and
/// not flagged as the draw, the slot holds it.
pub proof fn law_discard_slot_holds_the_tile(pai: Seq<char>, tsumogiri: bool, r: RackModel)
    requires
        r.tiles.len() > 0,
    ensures
        1 <= discard_slot(pai, tsumogiri, r) <= r.tiles.len(),
        !tsumogiri && lists::occurrences(r.tiles, pai) > 0 ==> r.tiles[discard_slot(
            pai,
            tsumogiri,
            r,
        ) - 1] == pai,
{
    let hand_slots = if r.drawn_last {
        r.tiles.len() - 1
    } else {
        r.tiles.len() as int
    };
    lists::lemma_first_index(r.tiles.take(hand_slots), pai);
    lists::lemma_occurrences(r.tiles, pai);
    lists::lemma_first_index(r.tiles, pai);
    if let Some(i) = lists::first_index(r.tiles, pai) {
        if i < hand_slots {
            assert(r.tiles.take(hand_slots)[i] == pai);
        }
    }
}

/// The chi code says where the claimed tile sits in a run of three ranks.
pub proof fn law_chi_code_places_the_claim(claimed: u32, first: u32, second: u32)
    requires
        first % 16 != claimed % 16,
        second % 16 != claimed % 16,
    ensures
        chi_code(claimed, first, second) == 2 <==> claimed % 16 < first % 16 && claimed % 16
            < second % 16,
        chi_code(claimed, first, second) == 4 <==> first % 16 < claimed % 16 && second % 16
            < claimed % 16,
        2 <= chi_code(claimed, first, second) <= 4,
{
}

} // verus!
