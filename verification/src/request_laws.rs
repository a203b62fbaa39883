//! What holds of every request, in terms of the event and the table that it
//! was made for.
use crate::events::EventModel;
use crate::json::JsonModel;
use crate::lists;
use crate::rack;
use crate::rack::RackModel;
use crate::requests;
use crate::requests::PacketModel;
use crate::tiles;
use vstd::prelude::*;

verus! {

/// The packet is a gameplay request with this data, and says nothing else.
pub open spec fn carries(p: PacketModel, data: JsonModel) -> bool {
    &&& p.cmd == 6
    &&& p.body.says("cmd"@, JsonModel::Text("req_game_action"@))
    &&& p.body.says("data"@, data)
    &&& p.body->Object_0.len() == 2
    &&& data is Object
}

/// The tile has a card code.
pub open spec fn coded(pai: Seq<char>) -> bool {
    tiles::card_code(pai) is Some
}

/// All these tiles have card codes.
pub open spec fn all_coded(pais: Seq<Seq<char>>) -> bool {
    forall|i: int| 0 <= i < pais.len() ==> coded(#[trigger] pais[i])
}

/// The data names this tile as its card.
pub open spec fn names(data: JsonModel, pai: Seq<char>) -> bool {
    coded(pai) && data.says("card"@, JsonModel::Int(tiles::card_code(pai)->0 as i64))
}

/// Integers as the items of a JSON array.
pub open spec fn ints(list: Seq<int>) -> JsonModel {
    JsonModel::Array(list.map_values(|i: int| JsonModel::Int(i as i64)))
}

/// The keys of requests differ from each other.
proof fn lemma_keys()
    ensures
        "cmd"@ != "data"@,
        "action"@ != "card"@,
        "action"@ != "group_cards"@,
        "action"@ != "move_cards_pos"@,
        "action"@ != "is_li_zhi"@,
        "action"@ != "is_xuan_gao_ting"@,
        "action"@ != "li_zhi_operate"@,
        "card"@ != "group_cards"@,
        "card"@ != "move_cards_pos"@,
        "card"@ != "is_li_zhi"@,
        "card"@ != "is_xuan_gao_ting"@,
        "card"@ != "li_zhi_operate"@,
        "group_cards"@ != "move_cards_pos"@,
        "is_li_zhi"@ != "is_xuan_gao_ting"@,
        "is_li_zhi"@ != "li_zhi_operate"@,
        "is_li_zhi"@ != "move_cards_pos"@,
        "is_li_zhi"@ != "group_cards"@,
        "is_xuan_gao_ting"@ != "li_zhi_operate"@,
        "is_xuan_gao_ting"@ != "move_cards_pos"@,
        "is_xuan_gao_ting"@ != "group_cards"@,
        "li_zhi_operate"@ != "move_cards_pos"@,
        "li_zhi_operate"@ != "group_cards"@,
{
    reveal_strlit("cmd");
    reveal_strlit("data");
    reveal_strlit("action");
    reveal_strlit("card");
    reveal_strlit("group_cards");
    reveal_strlit("move_cards_pos");
    reveal_strlit("is_li_zhi");
    reveal_strlit("is_xuan_gao_ting");
    reveal_strlit("li_zhi_operate");
    assert("cmd"@.len() == 3 && "data"@.len() == 4 && "action"@.len() == 6 && "card"@.len() == 4);
    assert("group_cards"@.len() == 11 && "move_cards_pos"@.len() == 14);
    assert("is_li_zhi"@.len() == 9 && "is_xuan_gao_ting"@.len() == 16);
    assert("li_zhi_operate"@.len() == 14);
    assert("li_zhi_operate"@[0] == 'l' && "move_cards_pos"@[0] == 'm');
}

/// What an object says of a key is one value.
proof fn lemma_says_one(j: JsonModel, key: Seq<char>, a: JsonModel, b: JsonModel)
    requires
        j.says(key, a),
        j.says(key, b),
    ensures
        a == b,
{
}

/// The data of a request is what its packet carries.
proof fn lemma_data_of(
    ev: EventModel,
    drawn: Option<Seq<char>>,
    last_discard: Option<Seq<char>>,
    hand: Option<Seq<Seq<char>>>,
)
    requires
        requests::action_request(ev, drawn, last_discard, hand) is Some,
    ensures
        requests::action_data(ev, drawn, last_discard, hand) is Some,
        carries(
            requests::action_request(ev, drawn, last_discard, hand)->0,
            requests::action_data(ev, drawn, last_discard, hand)->0,
        ),
{
    lemma_keys();
    let p = requests::action_request(ev, drawn, last_discard, hand)->0;
    let d = requests::action_data(ev, drawn, last_discard, hand)->0;
    assert(p.body->Object_0[0] == ("cmd"@, JsonModel::Text("req_game_action"@)));
    assert(p.body->Object_0[1] == ("data"@, d));
}

/// Every request is one packet under the request command, with the name of the
/// gameplay action and one set of data.
pub proof fn law_every_request_carries_data(
    ev: EventModel,
    drawn: Option<Seq<char>>,
    last_discard: Option<Seq<char>>,
    hand: Option<Seq<Seq<char>>>,
)
    requires
        requests::action_request(ev, drawn, last_discard, hand) is Some,
    ensures
        exists|data: JsonModel|
            #[trigger] carries(
                requests::action_request(ev, drawn, last_discard, hand)->0,
                data,
            ),
{
    lemma_data_of(ev, drawn, last_discard, hand);
}

/// Each kind of decision goes out under its own action code, whatever the
/// table: so the code tells the kind of the event.
pub proof fn law_the_action_code_tells_the_kind(
    ev: EventModel,
    drawn: Option<Seq<char>>,
    last_discard: Option<Seq<char>>,
    hand: Option<Seq<Seq<char>>>,
    data: JsonModel,
)
    requires
        requests::action_request(ev, drawn, last_discard, hand) is Some,
        carries(requests::action_request(ev, drawn, last_discard, hand)->0, data),
    ensures
        exists|code: i64| #[trigger] data.says("action"@, JsonModel::Int(code)),
        forall|code: i64| #[trigger]
            data.says("action"@, JsonModel::Int(code)) ==> {
                &&& code == 1 <==> ev is Pass
                &&& 2 <= code <= 4 <==> ev is Chi
                &&& code == 5 <==> ev is Pon
                &&& code == 6 <==> ev is Daiminkan
                &&& code == 7 <==> ev is Hora && ev->Hora_actor != ev->Hora_target
                &&& code == 8 <==> ev is Ankan
                &&& code == 9 <==> ev is Kakan
                &&& code == 10 <==> ev is Hora && ev->Hora_actor == ev->Hora_target
                &&& code == 11 <==> ev is Dahai || ev is Reach
                &&& code == 12 <==> ev is Ryukyoku
                &&& code == 13 <==> ev is Kita
                &&& 1 <= code <= 13
            },
{
    lemma_keys();
    lemma_data_of(ev, drawn, last_discard, hand);
    let d = requests::action_data(ev, drawn, last_discard, hand)->0;
    lemma_says_one(
        requests::action_request(ev, drawn, last_discard, hand)->0.body,
        "data"@,
        data,
        d,
    );
    let code = d->Object_0[0].1->Int_0;
    assert(d->Object_0[0] == ("action"@, JsonModel::Int(code)));
    assert(d.says("action"@, JsonModel::Int(code)));
}

/// The chi code places the claimed tile in the run: two tiles of the run are
/// consumed, and it is 2 where both rank above the claimed one, 4 where both
/// rank below it, and 3 where it lies between them.
pub proof fn law_the_chi_code_places_the_claim(
    ev: EventModel,
    drawn: Option<Seq<char>>,
    last_discard: Option<Seq<char>>,
    hand: Option<Seq<Seq<char>>>,
    data: JsonModel,
)
    requires
        ev is Chi,
        ev->Chi_consumed.len() == 2,
        requests::action_request(ev, drawn, last_discard, hand) is Some,
        carries(requests::action_request(ev, drawn, last_discard, hand)->0, data),
    ensures
        ({
            let claimed = tiles::card_code(ev->Chi_pai)->0 as int % 16;
            let a = tiles::card_code(ev->Chi_consumed[0])->0 as int % 16;
            let b = tiles::card_code(ev->Chi_consumed[1])->0 as int % 16;
            &&& claimed < a && claimed < b ==> data.says("action"@, JsonModel::Int(2))
            &&& a < claimed < b || b < claimed < a ==> data.says("action"@, JsonModel::Int(3))
            &&& a < claimed && b < claimed ==> data.says("action"@, JsonModel::Int(4))
        }),
{
    lemma_keys();
    lemma_data_of(ev, drawn, last_discard, hand);
    let d = requests::action_data(ev, drawn, last_discard, hand)->0;
    lemma_says_one(
        requests::action_request(ev, drawn, last_discard, hand)->0.body,
        "data"@,
        data,
        d,
    );
    let group = tiles::card_codes(ev->Chi_consumed)->0;
    assert(group[0] == tiles::card_code(ev->Chi_consumed[0])->0);
    assert(group[1] == tiles::card_code(ev->Chi_consumed[1])->0);
    let code = d->Object_0[0].1->Int_0;
    assert(d->Object_0[0] == ("action"@, JsonModel::Int(code)));
    assert(d.says("action"@, JsonModel::Int(code)));
}

/// A riichi goes out flagged, a plain discard goes out unflagged, and the other
/// two settings of a discard are off: whatever the hand, the draw and the last
/// discard. No other request has the flag or the settings.
pub proof fn law_only_a_riichi_is_flagged(
    ev: EventModel,
    drawn: Option<Seq<char>>,
    last_discard: Option<Seq<char>>,
    hand: Option<Seq<Seq<char>>>,
    data: JsonModel,
)
    requires
        requests::action_request(ev, drawn, last_discard, hand) is Some,
        carries(requests::action_request(ev, drawn, last_discard, hand)->0, data),
    ensures
        ev is Reach ==> data.says("is_li_zhi"@, JsonModel::Bool(true)),
        ev is Dahai ==> data.says("is_li_zhi"@, JsonModel::Bool(false)),
        ev is Reach || ev is Dahai ==> data.says("is_xuan_gao_ting"@, JsonModel::Bool(false)),
        ev is Reach || ev is Dahai ==> data.says("li_zhi_operate"@, JsonModel::Int(0)),
        !(ev is Reach || ev is Dahai) ==> data.omits("is_li_zhi"@) && data.omits(
            "is_xuan_gao_ting"@,
        ) && data.omits("li_zhi_operate"@),
{
    lemma_keys();
    lemma_data_of(ev, drawn, last_discard, hand);
    let d = requests::action_data(ev, drawn, last_discard, hand)->0;
    lemma_says_one(
        requests::action_request(ev, drawn, last_discard, hand)->0.body,
        "data"@,
        data,
        d,
    );
    if ev is Reach || ev is Dahai {
        assert(d->Object_0.len() == 6);
        assert(d->Object_0[2] == ("is_li_zhi"@, JsonModel::Bool(ev is Reach)));
        assert(d->Object_0[3] == ("is_xuan_gao_ting"@, JsonModel::Bool(false)));
        assert(d->Object_0[4] == ("li_zhi_operate"@, JsonModel::Int(0)));
    }
}

/// A decision goes out exactly where every tile that it has to name has a card
/// code. The hand never decides it.
pub proof fn law_what_can_be_sent(
    ev: EventModel,
    drawn: Option<Seq<char>>,
    last_discard: Option<Seq<char>>,
    hand: Option<Seq<Seq<char>>>,
)
    requires
        hand matches Some(h) ==> h.len() <= u32::MAX,
        ev is Ankan ==> ev->Ankan_consumed.len() > 0,
    ensures
        requests::action_request(ev, drawn, last_discard, hand) is Some <==> match ev {
            EventModel::Dahai { pai, .. } => coded(pai),
            EventModel::Reach { pai, .. } => pai is Some && coded(pai->0),
            EventModel::Chi { pai, consumed, .. } => coded(pai) && all_coded(consumed),
            EventModel::Pon { pai, consumed, .. } => coded(pai) && all_coded(consumed),
            EventModel::Daiminkan { pai, consumed, .. } => coded(pai) && all_coded(consumed),
            EventModel::Ankan { consumed, .. } => all_coded(consumed),
            EventModel::Kakan { pai, .. } => coded(pai),
            EventModel::Kita { pai, .. } => pai is Some ==> coded(pai->0),
            EventModel::Hora { actor, target, .. } => if actor == target {
                drawn is Some ==> coded(drawn->0)
            } else {
                last_discard is Some ==> coded(last_discard->0)
            },
            EventModel::Pass => true,
            EventModel::Ryukyoku { deltas } => deltas is None,
            _ => false,
        },
{
    let r = rack::rack_of(hand, drawn);
    lemma_rack_fits(hand, drawn);
    match ev {
        EventModel::Chi { consumed, .. } => {
            requests::law_a_call_sends_the_chosen_tiles(r, consumed, 0);
        },
        EventModel::Pon { consumed, .. } => {
            requests::law_a_call_sends_the_chosen_tiles(r, consumed, 0);
        },
        EventModel::Daiminkan { consumed, .. } => {
            requests::law_a_call_sends_the_chosen_tiles(r, consumed, 0);
        },
        EventModel::Ankan { consumed, .. } => {
            requests::law_a_call_sends_the_chosen_tiles(r, consumed, 0);
            if all_coded(consumed) {
                assert(tiles::card_codes(consumed) is Some);
                lemma_group_length(r, consumed);
            }
        },
        EventModel::Kita { pai, .. } => {
            reveal_strlit("N");
            assert("N"@ =~= seq!['N']);
        },
        _ => {},
    }
    assert forall|pais: Seq<Seq<char>>| #[trigger] all_coded(pais) <==> tiles::card_codes(
        pais,
    ) is Some by {
        if tiles::card_codes(pais) is Some {
            assert forall|i: int| 0 <= i < pais.len() implies coded(#[trigger] pais[i]) by {
                assert(tiles::card_code(pais[i]) is Some);
            }
        }
        if all_coded(pais) {
            assert forall|i: int| 0 <= i < pais.len() implies tiles::card_code(
                #[trigger] pais[i],
            ) is Some by {
                assert(coded(pais[i]));
            }
        }
    }
}

proof fn lemma_rack_fits(hand: Option<Seq<Seq<char>>>, drawn: Option<Seq<char>>)
    ensures
        rack::rack_of(hand, drawn) matches Some(r) ==> hand is Some && r.tiles.len()
            == hand->0.len() && r.tiles.len() > 0,
{
    if hand is Some && hand->0.len() > 0 {
        rack::law_rack_keeps_the_hand(hand->0, drawn, Seq::empty());
    }
}

/// The listed tiles are as many as the consumed ones.
proof fn lemma_group_length(r: Option<RackModel>, consumed: Seq<Seq<char>>)
    requires
        r matches Some(r) ==> r.tiles.len() <= u32::MAX,
        requests::call_group(r, consumed) is Some,
    ensures
        requests::call_group(r, consumed)->0.len() == consumed.len(),
        requests::call_slots(r, consumed) matches Some(s) ==> s.len() == consumed.len(),
{
    if requests::call_slots(r, consumed) is Some {
        let found = r->0.matched(consumed);
        assert forall|t: Seq<char>| #[trigger]
            lists::occurrences(found, t) == lists::occurrences(consumed, t) by {
            rack::law_slots_hold_the_wanted_tiles(r->0, consumed, t);
        }
        lists::law_same_counts_same_length(found, consumed);
        rack::law_slots_hold_the_wanted_tiles(r->0, consumed, Seq::empty());
    }
}

/// A request names the tile of its decision: the discarded, claimed or promoted
/// tile, the north, and for a win the drawn tile or the last discard where it
/// is known. A win on an unknown tile, a pass and nine terminals name none.
pub proof fn law_the_card_is_the_decisions_tile(
    ev: EventModel,
    drawn: Option<Seq<char>>,
    last_discard: Option<Seq<char>>,
    hand: Option<Seq<Seq<char>>>,
    data: JsonModel,
)
    requires
        requests::action_request(ev, drawn, last_discard, hand) is Some,
        carries(requests::action_request(ev, drawn, last_discard, hand)->0, data),
    ensures
        match ev {
            EventModel::Dahai { pai, .. } => names(data, pai),
            EventModel::Reach { pai, .. } => pai is Some && names(data, pai->0),
            EventModel::Chi { pai, .. } => names(data, pai),
            EventModel::Pon { pai, .. } => names(data, pai),
            EventModel::Daiminkan { pai, .. } => names(data, pai),
            EventModel::Kakan { pai, .. } => names(data, pai),
            EventModel::Kita { pai, .. } => match pai {
                Some(pai) => names(data, pai),
                None => names(data, seq!['N']),
            },
            EventModel::Hora { actor, target, .. } => match if actor == target {
                drawn
            } else {
                last_discard
            } {
                Some(pai) => names(data, pai),
                None => data.omits("card"@),
            },
            EventModel::Pass => data.omits("card"@),
            EventModel::Ryukyoku { .. } => data.omits("card"@),
            _ => true,
        },
{
    lemma_keys();
    lemma_data_of(ev, drawn, last_discard, hand);
    let d = requests::action_data(ev, drawn, last_discard, hand)->0;
    lemma_says_one(
        requests::action_request(ev, drawn, last_discard, hand)->0.body,
        "data"@,
        data,
        d,
    );
    reveal_strlit("N");
    assert("N"@ =~= seq!['N']);
    if d->Object_0.len() >= 2 {
        let card = d->Object_0[1].1->Int_0;
        assert(d->Object_0[1] == ("card"@, JsonModel::Int(card)));
    }
}

/// The items of the array, as codes: the call takes exactly the consumed tiles,
/// each as often as the bot chose it.
pub open spec fn lists_the_tiles(group: Seq<u32>, consumed: Seq<Seq<char>>) -> bool {
    &&& group.len() == consumed.len()
    &&& forall|code: u32| #[trigger]
        lists::occurrences(group, code) == lists::occurrences(consumed, tiles::card_text(code))
}

/// A call lists the tiles that the bot chose: a chi, a pon and an open kan in
/// `group_cards`, a concealed kan as the card and `group_cards` together. No
/// other request lists tiles.
pub proof fn law_a_call_lists_its_tiles(
    ev: EventModel,
    drawn: Option<Seq<char>>,
    last_discard: Option<Seq<char>>,
    hand: Option<Seq<Seq<char>>>,
    data: JsonModel,
)
    requires
        hand matches Some(h) ==> h.len() <= u32::MAX,
        requests::action_request(ev, drawn, last_discard, hand) is Some,
        carries(requests::action_request(ev, drawn, last_discard, hand)->0, data),
    ensures
        match ev {
            EventModel::Chi { consumed, .. } => calls_with(data, consumed),
            EventModel::Pon { consumed, .. } => calls_with(data, consumed),
            EventModel::Daiminkan { consumed, .. } => calls_with(data, consumed),
            EventModel::Ankan { consumed, .. } => kan_with(data, consumed),
            _ => data.omits("group_cards"@),
        },
{
    lemma_keys();
    lemma_data_of(ev, drawn, last_discard, hand);
    let d = requests::action_data(ev, drawn, last_discard, hand)->0;
    lemma_says_one(
        requests::action_request(ev, drawn, last_discard, hand)->0.body,
        "data"@,
        data,
        d,
    );
    let r = rack::rack_of(hand, drawn);
    lemma_rack_fits(hand, drawn);
    match ev {
        EventModel::Chi { consumed, .. } => lemma_calls_with(d, r, consumed),
        EventModel::Pon { consumed, .. } => lemma_calls_with(d, r, consumed),
        EventModel::Daiminkan { consumed, .. } => lemma_calls_with(d, r, consumed),
        EventModel::Ankan { consumed, .. } => lemma_kan_with(d, r, consumed),
        _ => {},
    }
}

/// The data lists these tiles in `group_cards`.
pub open spec fn calls_with(data: JsonModel, consumed: Seq<Seq<char>>) -> bool {
    exists|group: Seq<u32>| #[trigger]
        lists_the_tiles(group, consumed) && data.says(
            "group_cards"@,
            ints(group.map_values(|c: u32| c as int)),
        )
}

/// The data lists these tiles, the first as the card and the others in
/// `group_cards`.
pub open spec fn kan_with(data: JsonModel, consumed: Seq<Seq<char>>) -> bool {
    exists|group: Seq<u32>| #[trigger]
        lists_the_tiles(group, consumed) && group.len() > 0 && data.says(
            "card"@,
            JsonModel::Int(group[0] as i64),
        ) && data.says("group_cards"@, ints(group.skip(1).map_values(|c: u32| c as int)))
}

proof fn lemma_group(r: Option<RackModel>, consumed: Seq<Seq<char>>)
    requires
        r matches Some(r) ==> r.tiles.len() <= u32::MAX,
        requests::call_group(r, consumed) is Some,
    ensures
        lists_the_tiles(requests::call_group(r, consumed)->0, consumed),
{
    let group = requests::call_group(r, consumed)->0;
    lemma_group_length(r, consumed);
    assert forall|code: u32| #[trigger]
        lists::occurrences(group, code) == lists::occurrences(consumed, tiles::card_text(code)) by {
        requests::law_a_call_sends_the_chosen_tiles(r, consumed, code);
        requests::lemma_codes_count(consumed, code);
    }
}

proof fn lemma_calls_with(d: JsonModel, r: Option<RackModel>, consumed: Seq<Seq<char>>)
    requires
        r matches Some(r) ==> r.tiles.len() <= u32::MAX,
        requests::call_group(r, consumed) is Some,
        exists|action: int, card: u32|
            #[trigger] requests::call_data_model(action, card, r, consumed) == Some(d),
    ensures
        calls_with(d, consumed),
{
    lemma_keys();
    let group = requests::call_group(r, consumed)->0;
    lemma_group(r, consumed);
    assert(ints(group.map_values(|c: u32| c as int))->Array_0 =~= group.map_values(
        |c: u32| JsonModel::Int(c as i64),
    ));
    assert(d->Object_0[2] == ("group_cards"@, ints(group.map_values(|c: u32| c as int))));
    assert(lists_the_tiles(group, consumed));
}

proof fn lemma_kan_with(d: JsonModel, r: Option<RackModel>, consumed: Seq<Seq<char>>)
    requires
        r matches Some(r) ==> r.tiles.len() <= u32::MAX,
        requests::ankan_data_model(r, consumed) == Some(d),
    ensures
        kan_with(d, consumed),
{
    lemma_keys();
    let group = requests::call_group(r, consumed)->0;
    lemma_group(r, consumed);
    assert(ints(group.skip(1).map_values(|c: u32| c as int))->Array_0 =~= group.skip(1).map_values(
        |c: u32| JsonModel::Int(c as i64),
    ));
    assert(d->Object_0[1] == ("card"@, JsonModel::Int(group[0] as i64)));
    assert(d->Object_0[2] == ("group_cards"@, ints(group.skip(1).map_values(|c: u32| c as int))));
    assert(lists_the_tiles(group, consumed));
}

/// The slots, in ascending order, hold tiles of these codes.
pub open spec fn placed(r: RackModel, group: Seq<u32>, slots: Seq<int>) -> bool {
    &&& slots.len() == group.len()
    &&& forall|k: int|
        0 <= k < slots.len() ==> 1 <= #[trigger] slots[k] <= r.tiles.len() && tiles::card_code(
            r.tiles[slots[k] - 1],
        ) == Some(group[k])
    &&& forall|k: int, l: int|
        0 <= k < l < slots.len() ==> #[trigger] slots[k] < #[trigger] slots[l]
}

/// The data lists these codes: all of them in `group_cards`, or the first as
/// the card of a concealed kan.
pub open spec fn lists_codes(data: JsonModel, group: Seq<u32>, kan: bool) -> bool {
    if kan {
        group.len() > 0 && data.says("card"@, JsonModel::Int(group[0] as i64)) && data.says(
            "group_cards"@,
            ints(group.skip(1).map_values(|c: u32| c as int)),
        )
    } else {
        data.says("group_cards"@, ints(group.map_values(|c: u32| c as int)))
    }
}

/// The data says where the consumed tiles are: the slots of the rack that hold
/// the listed tiles, one for one, where the rack holds them all; otherwise no
/// slots, and the tiles in the order in which the bot gave them.
pub open spec fn places_the_tiles(
    data: JsonModel,
    r: Option<RackModel>,
    consumed: Seq<Seq<char>>,
    kan: bool,
) -> bool {
    if r is Some && consumed.to_multiset().subset_of(r->0.tiles.to_multiset()) {
        exists|group: Seq<u32>, slots: Seq<int>| #[trigger]
            placed(r->0, group, slots) && group.len() == consumed.len() && lists_codes(
                data,
                group,
                kan,
            ) && data.says("move_cards_pos"@, ints(slots))
    } else {
        data.omits("move_cards_pos"@) && exists|group: Seq<u32>| #[trigger]
            lists_codes(data, group, kan) && group.len() == consumed.len() && forall|k: int|
                0 <= k < group.len() ==> tiles::card_code(consumed[k]) == Some(#[trigger] group[k])
    }
}

/// A call says where its tiles are in the rack.
pub proof fn law_a_call_places_its_tiles(
    ev: EventModel,
    drawn: Option<Seq<char>>,
    last_discard: Option<Seq<char>>,
    hand: Option<Seq<Seq<char>>>,
    data: JsonModel,
)
    requires
        hand matches Some(h) ==> h.len() <= u32::MAX,
        requests::action_request(ev, drawn, last_discard, hand) is Some,
        carries(requests::action_request(ev, drawn, last_discard, hand)->0, data),
    ensures
        ({
            let r = rack::rack_of(hand, drawn);
            match ev {
                EventModel::Chi { consumed, .. } => places_the_tiles(data, r, consumed, false),
                EventModel::Pon { consumed, .. } => places_the_tiles(data, r, consumed, false),
                EventModel::Daiminkan { consumed, .. } => places_the_tiles(data, r, consumed, false),
                EventModel::Ankan { consumed, .. } => places_the_tiles(data, r, consumed, true),
                EventModel::Hora { .. } => data.omits("move_cards_pos"@),
                EventModel::Pass => data.omits("move_cards_pos"@),
                EventModel::Ryukyoku { .. } => data.omits("move_cards_pos"@),
                _ => true,
            }
        }),
{
    lemma_keys();
    lemma_data_of(ev, drawn, last_discard, hand);
    let d = requests::action_data(ev, drawn, last_discard, hand)->0;
    lemma_says_one(
        requests::action_request(ev, drawn, last_discard, hand)->0.body,
        "data"@,
        data,
        d,
    );
    let r = rack::rack_of(hand, drawn);
    lemma_rack_fits(hand, drawn);
    match ev {
        EventModel::Chi { consumed, .. } => lemma_places(d, r, consumed, false),
        EventModel::Pon { consumed, .. } => lemma_places(d, r, consumed, false),
        EventModel::Daiminkan { consumed, .. } => lemma_places(d, r, consumed, false),
        EventModel::Ankan { consumed, .. } => lemma_places(d, r, consumed, true),
        _ => {},
    }
}

proof fn lemma_places(d: JsonModel, r: Option<RackModel>, consumed: Seq<Seq<char>>, kan: bool)
    requires
        r matches Some(r) ==> r.tiles.len() <= u32::MAX,
        requests::call_group(r, consumed) is Some,
        if kan {
            requests::ankan_data_model(r, consumed) == Some(d)
        } else {
            exists|action: int, card: u32|
                #[trigger] requests::call_data_model(action, card, r, consumed) == Some(d)
        },
    ensures
        places_the_tiles(d, r, consumed, kan),
{
    lemma_keys();
    let group = requests::call_group(r, consumed)->0;
    lemma_group_length(r, consumed);
    assert(ints(group.map_values(|c: u32| c as int))->Array_0 =~= group.map_values(
        |c: u32| JsonModel::Int(c as i64),
    ));
    assert(ints(group.skip(1).map_values(|c: u32| c as int))->Array_0 =~= group.skip(1).map_values(
        |c: u32| JsonModel::Int(c as i64),
    ));
    let card = d->Object_0[1].1;
    assert(d->Object_0[1] == ("card"@, card));
    let listed = d->Object_0[2].1;
    assert(d->Object_0[2] == ("group_cards"@, listed));
    assert(lists_codes(d, group, kan));
    if r is Some {
        rack::law_the_scan_takes_the_first_copies(r->0, consumed);
    }
    if requests::call_slots(r, consumed) is Some {
        let found = r->0.slots(consumed)->0;
        let slots = found.map_values(|s: u32| s as int);
        rack::law_slots_hold_the_wanted_tiles(r->0, consumed, Seq::empty());
        let matched = r->0.matched(consumed);
        assert forall|k: int| 0 <= k < slots.len() implies 1 <= #[trigger] slots[k]
            <= r->0.tiles.len() && tiles::card_code(r->0.tiles[slots[k] - 1]) == Some(group[k]) by {
            assert(slots[k] == found[k]);
            assert(r->0.tiles[found[k] - 1] == matched[k]);
            assert(tiles::card_code(matched[k]) is Some);
        }
        assert forall|k: int, l: int| 0 <= k < l < slots.len() implies #[trigger] slots[k]
            < #[trigger] slots[l] by {
            assert(found[k] < found[l]);
        }
        assert(ints(slots)->Array_0 =~= found.map_values(|c: u32| JsonModel::Int(c as i64)));
        assert(d->Object_0[3] == ("move_cards_pos"@, ints(slots)));
        assert(placed(r->0, group, slots));
    } else {
        assert forall|k: int| 0 <= k < group.len() implies tiles::card_code(consumed[k]) == Some(
            #[trigger] group[k],
        ) by {
            assert(tiles::card_code(consumed[k]) is Some);
        }
    }
}

/// A kakan and a kita say where the first tile of their kind is in the rack,
/// and say nothing of it where there is none.
pub proof fn law_a_promoted_tile_is_placed(
    ev: EventModel,
    drawn: Option<Seq<char>>,
    last_discard: Option<Seq<char>>,
    hand: Option<Seq<Seq<char>>>,
    data: JsonModel,
    pai: Seq<char>,
)
    requires
        hand matches Some(h) ==> h.len() <= u32::MAX,
        requests::action_request(ev, drawn, last_discard, hand) is Some,
        carries(requests::action_request(ev, drawn, last_discard, hand)->0, data),
        match ev {
            EventModel::Kakan { pai: p, .. } => p == pai,
            EventModel::Kita { pai: Some(p), .. } => p == pai,
            EventModel::Kita { pai: None, .. } => pai == seq!['N'],
            _ => false,
        },
    ensures
        ({
            let r = rack::rack_of(hand, drawn);
            ||| data.omits("move_cards_pos"@) && (r is Some ==> forall|i: int|
                0 <= i < r->0.tiles.len() ==> !rack::same_kind(#[trigger] r->0.tiles[i], pai))
            ||| r is Some && exists|i: int|
                0 <= i < r->0.tiles.len() && rack::same_kind(#[trigger] r->0.tiles[i], pai) && (
                forall|j: int| 0 <= j < i ==> !rack::same_kind(#[trigger] r->0.tiles[j], pai))
                    && data.says("move_cards_pos"@, ints(seq![i + 1]))
        }),
{
    lemma_keys();
    lemma_data_of(ev, drawn, last_discard, hand);
    let d = requests::action_data(ev, drawn, last_discard, hand)->0;
    lemma_says_one(
        requests::action_request(ev, drawn, last_discard, hand)->0.body,
        "data"@,
        data,
        d,
    );
    reveal_strlit("N");
    assert("N"@ =~= seq!['N']);
    let r = rack::rack_of(hand, drawn);
    lemma_rack_fits(hand, drawn);
    if r is Some {
        rack::law_the_first_of_a_kind(r->0, pai);
        if let Some(slot) = r->0.kind_slot(pai) {
            let i = slot - 1;
            assert(ints(seq![i + 1])->Array_0 =~= seq![slot].map_values(
                |c: u32| JsonModel::Int(c as i64),
            ));
            assert(d->Object_0[2] == ("move_cards_pos"@, ints(seq![i + 1])));
            assert(rack::same_kind(r->0.tiles[i], pai));
        }
    }
}

/// The slot that a discard leaves from: the last one where the draw is
/// discarded; else the first that holds the tile, the held draw aside; else the
/// held draw's own; and `to` where the rack does not hold the tile.
pub open spec fn leaves_from(
    pai: Seq<char>,
    tsumogiri: bool,
    r: RackModel,
    from: int,
    to: int,
) -> bool {
    let len = r.tiles.len() as int;
    let kept = |i: int| 0 <= i < len && !(r.drawn_last && i == len - 1);
    if tsumogiri {
        from == len
    } else if exists|i: int| kept(i) && #[trigger] r.tiles[i] == pai {
        kept(from - 1) && r.tiles[from - 1] == pai && forall|i: int|
            0 <= i < from - 1 ==> #[trigger] r.tiles[i] != pai
    } else if r.drawn_last && r.tiles.last() == pai {
        from == len
    } else {
        from == to
    }
}

/// A discard says which slot it leaves from and where the draw slides: to the
/// slot before the last. Without a hand they are those of a full one.
pub proof fn law_a_discard_is_placed(
    ev: EventModel,
    drawn: Option<Seq<char>>,
    last_discard: Option<Seq<char>>,
    hand: Option<Seq<Seq<char>>>,
    data: JsonModel,
    pai: Seq<char>,
    tsumogiri: bool,
)
    requires
        hand matches Some(h) ==> h.len() <= u32::MAX,
        requests::action_request(ev, drawn, last_discard, hand) is Some,
        carries(requests::action_request(ev, drawn, last_discard, hand)->0, data),
        match ev {
            EventModel::Dahai { pai: p, tsumogiri: t, .. } => p == pai && t == tsumogiri,
            EventModel::Reach { pai: p, .. } => p == Some(pai) && !tsumogiri,
            _ => false,
        },
    ensures
        match rack::rack_of(hand, drawn) {
            Some(r) => exists|from: int, to: int| #[trigger]
                leaves_from(pai, tsumogiri, r, from, to) && to == (if r.tiles.len() == 1 {
                    1
                } else {
                    r.tiles.len() - 1
                }) && data.says("move_cards_pos"@, ints(seq![from, to])),
            None => data.says(
                "move_cards_pos"@,
                ints(
                    seq![
                        if tsumogiri {
                            14
                        } else {
                            13
                        },
                        13,
                    ],
                ),
            ),
        },
{
    lemma_keys();
    lemma_data_of(ev, drawn, last_discard, hand);
    let d = requests::action_data(ev, drawn, last_discard, hand)->0;
    lemma_says_one(
        requests::action_request(ev, drawn, last_discard, hand)->0.body,
        "data"@,
        data,
        d,
    );
    lemma_rack_fits(hand, drawn);
    let placed = d->Object_0[5].1;
    assert(d->Object_0[5] == ("move_cards_pos"@, placed));
    match rack::rack_of(hand, drawn) {
        Some(r) => {
            let len = r.tiles.len() as int;
            let to = if len == 1 {
                1
            } else {
                len - 1
            };
            let hand_slots = if r.drawn_last {
                len - 1
            } else {
                len
            };
            let from = requests::discard_slot(pai, tsumogiri, r);
            let part = r.tiles.take(hand_slots);
            lists::lemma_first_index(part, pai);
            requests::law_discard_slot_holds_the_tile(pai, tsumogiri, r);
            if let Some(k) = lists::first_index(part, pai) {
                assert(r.tiles[k] == part[k]);
                assert forall|i: int| 0 <= i < k implies #[trigger] r.tiles[i] != pai by {
                    assert(part[i] != pai);
                }
            } else {
                assert forall|i: int| 0 <= i < hand_slots implies #[trigger] r.tiles[i] != pai by {
                    assert(part[i] != pai);
                }
            }
            assert(leaves_from(pai, tsumogiri, r, from, to));
            assert(ints(seq![from, to])->Array_0 =~= placed->Array_0);
        },
        None => {
            let first = if tsumogiri {
                14int
            } else {
                13
            };
            assert(ints(seq![first, 13])->Array_0 =~= placed->Array_0);
        },
    }
}

/// The round-advance press is the bare ready request under the request command.
pub proof fn law_the_press_is_bare()
    ensures
        requests::ready_packet().cmd == 6,
        requests::ready_packet().body.says("cmd"@, JsonModel::Text("req_user_prepare"@)),
        requests::ready_packet().body->Object_0.len() == 1,
{
    assert(requests::ready_packet().body->Object_0[0] == (
        "cmd"@,
        JsonModel::Text("req_user_prepare"@),
    ));
}

} // verus!
