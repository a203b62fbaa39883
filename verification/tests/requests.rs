use akagi::events::MjaiEvent;
use akagi::json::Json;
use akagi::rack::Rack;
use akagi::requests::{
    chi_action_code, encode_action, encode_action_with, user_prepare, WPacket,
};
use akagi::tiles::{card_to_mjai, mjai_to_card};
use serde_json::Value;

fn value(j: &Json) -> Value {
    match j {
        Json::Null => Value::Null,
        Json::Bool(b) => Value::Bool(*b),
        Json::Int(i) => Value::from(*i),
        Json::Number(n) => serde_json::from_str(n).expect("a number"),
        Json::Text(s) => Value::String(s.clone()),
        Json::Array(a) => Value::Array(a.iter().map(value).collect()),
        Json::Object(o) => {
            Value::Object(o.iter().map(|(k, v)| (k.clone(), value(v))).collect::<serde_json::Map<_, _>>())
        }
    }
}

fn body(packet: &WPacket) -> Value {
    value(&packet.body)
}

fn ints(list: &[u32]) -> Value {
    Value::from(list.to_vec())
}

fn hand_of(tiles: &[&str]) -> Vec<String> {
    tiles.iter().map(|s| s.to_string()).collect()
}

const CMD_GAME_ACTION: &str = "req_game_action";

/// Every packet must survive being written out and read back unchanged.
#[test]
fn frames_round_trip_through_the_parser() {
    let cases = vec![
        MjaiEvent::Dahai { actor: 0, pai: "3m".into(), tsumogiri: true },
        MjaiEvent::Dahai { actor: 0, pai: "5sr".into(), tsumogiri: false },
        MjaiEvent::Reach { actor: 0, pai: Some("1p".into()) },
        MjaiEvent::Chi {
            actor: 0,
            target: 3,
            pai: "2s".into(),
            consumed: ["1s".into(), "3s".into()],
        },
        MjaiEvent::Pon { actor: 0, target: 1, pai: "N".into(), consumed: ["N".into(), "N".into()] },
        MjaiEvent::Daiminkan {
            actor: 0,
            target: 2,
            pai: "E".into(),
            consumed: ["E".into(), "E".into(), "E".into()],
        },
        MjaiEvent::Ankan {
            actor: 0,
            consumed: ["5mr".into(), "5m".into(), "5m".into(), "5m".into()],
        },
        MjaiEvent::Kakan {
            actor: 0,
            pai: "5pr".into(),
            consumed: ["5p".into(), "5p".into(), "5p".into()],
        },
        MjaiEvent::Kita { actor: 0, pai: Some("N".into()) },
        MjaiEvent::Hora { actor: 0, target: 0, deltas: None, ura_markers: None },
        MjaiEvent::Hora { actor: 0, target: 1, deltas: None, ura_markers: None },
        MjaiEvent::Pass,
    ];
    for ev in cases {
        let packet = encode_action_with(&ev, Some("6p"), Some("7s"), None)
            .unwrap_or_else(|| panic!("no frame for {ev:?}"));
        let text = serde_json::to_string(&body(&packet)).unwrap();
        let read: Value = serde_json::from_str(&text).unwrap();
        assert_eq!(read, body(&packet), "one packet per frame for {ev:?}");
        assert_eq!(packet.cmd, 6);
        assert_eq!(read["cmd"], CMD_GAME_ACTION);
    }
}

/// The chi variant code must say where the claimed tile sits in the run — a
/// blanket wrong code gets acked but silently never applied.
#[test]
fn chi_variant_codes_match_the_offered_action_list() {
    // Claiming 6m keeping 7m8m → 6m is the low tile → 2.
    let low = MjaiEvent::Chi {
        actor: 0,
        target: 3,
        pai: "6m".into(),
        consumed: ["7m".into(), "8m".into()],
    };
    // Claiming 6m keeping 5m7m → middle → 3.
    let mid = MjaiEvent::Chi {
        actor: 0,
        target: 3,
        pai: "6m".into(),
        consumed: ["5m".into(), "7m".into()],
    };
    // Claiming 8p keeping 6p7p → high tile → 4.
    let high = MjaiEvent::Chi {
        actor: 0,
        target: 3,
        pai: "8p".into(),
        consumed: ["6p".into(), "7p".into()],
    };
    // Red five counts as its plain rank: claiming 3p keeping 4p5pr.
    let red = MjaiEvent::Chi {
        actor: 0,
        target: 3,
        pai: "3p".into(),
        consumed: ["4p".into(), "5pr".into()],
    };
    let code = |ev: &MjaiEvent| body(&encode_action(ev).unwrap())["data"]["action"].clone();
    assert_eq!(code(&low), 2);
    assert_eq!(code(&mid), 3);
    assert_eq!(code(&high), 4);
    assert_eq!(code(&red), 2, "the incident case from the live game");

    // The full three-way case: claiming 5m holding 3m4m5m6m7m — all three
    // variants are offered and each pick maps to its own code.
    let pick = |a: &str, b: &str| MjaiEvent::Chi {
        actor: 0,
        target: 3,
        pai: "5m".into(),
        consumed: [a.into(), b.into()],
    };
    assert_eq!(code(&pick("3m", "4m")), 4, "3-4-5: claimed is high");
    assert_eq!(code(&pick("4m", "6m")), 3, "4-5-6: claimed is middle");
    assert_eq!(code(&pick("6m", "7m")), 2, "5-6-7: claimed is low");
}

/// Claims carry the consumed tiles (`group_cards`) and their 1-based rack
/// slots (`move_cards_pos`), both in rack-scan order. Unresolvable slots omit
/// only the position field.
#[test]
fn calls_carry_hand_positions_when_known() {
    let hand = hand_of(&[
        "1m", "2m", "4p", "5pr", "6s", "7s", "E", "E", "E", "W", "N", "P", "F",
    ]);
    let daiminkan = MjaiEvent::Daiminkan {
        actor: 0,
        target: 1,
        pai: "E".into(),
        consumed: ["E".into(), "E".into(), "E".into()],
    };
    let pkt = body(&encode_action_with(&daiminkan, None, None, Some(&hand)).unwrap());
    assert_eq!(pkt["data"]["move_cards_pos"], ints(&[7, 8, 9]));
    assert_eq!(pkt["data"]["group_cards"], ints(&[0x31, 0x31, 0x31]));

    let pon =
        MjaiEvent::Pon { actor: 0, target: 1, pai: "E".into(), consumed: ["E".into(), "E".into()] };
    let pkt = body(&encode_action_with(&pon, None, None, Some(&hand)).unwrap());
    assert_eq!(pkt["data"]["action"], 5);
    assert_eq!(pkt["data"]["card"], 0x31);
    assert_eq!(pkt["data"]["group_cards"], ints(&[0x31, 0x31]));
    assert_eq!(pkt["data"]["move_cards_pos"], ints(&[7, 8]));

    // The red-five choice travels in `group_cards`: the client offers one
    // button per candidate pair, so the pair the bot chose must go out.
    let chi = MjaiEvent::Chi {
        actor: 0,
        target: 1,
        pai: "3p".into(),
        consumed: ["4p".into(), "5pr".into()],
    };
    let pkt = body(&encode_action_with(&chi, None, None, Some(&hand)).unwrap());
    assert_eq!(pkt["data"]["action"], 2, "claimed 3p is the low end");
    assert_eq!(pkt["data"]["group_cards"], ints(&[0x04, 0x105]));
    assert_eq!(pkt["data"]["move_cards_pos"], ints(&[3, 4]));

    // Tiles not in the tracked hand: positions are omitted, the meld itself
    // still goes out.
    let unknown: Vec<String> = vec!["9s".to_string(); 13];
    let pkt = body(&encode_action_with(&chi, None, None, Some(&unknown)).unwrap());
    assert!(pkt["data"].get("move_cards_pos").is_none());
    assert_eq!(pkt["data"]["group_cards"], ints(&[0x04, 0x105]));
}

/// Ankan carries three `group_cards` with the rack slots of all four — the
/// freshly drawn fourth copy racks last, not at its sorted position — and the
/// promoted-tile kakan carries only the tile and its slot.
#[test]
fn kan_shapes_match_the_client_sender() {
    let hand = hand_of(&[
        "1m", "2m", "5m", "5mr", "5m", "5m", "6s", "7s", "E", "S", "W", "N", "P",
    ]);
    let ankan = MjaiEvent::Ankan {
        actor: 0,
        consumed: ["5mr".into(), "5m".into(), "5m".into(), "5m".into()],
    };
    // No draw tracked: the four copies sit at rack slots 3-6, and
    // `card`/`group_cards` list them in rack-scan order.
    let pkt = body(&encode_action_with(&ankan, None, None, Some(&hand)).unwrap());
    assert_eq!(pkt["data"]["action"], 8);
    assert_eq!(pkt["data"]["card"], 0x25);
    assert_eq!(pkt["data"]["group_cards"], ints(&[0x125, 0x25, 0x25]));
    assert_eq!(pkt["data"]["move_cards_pos"], ints(&[3, 4, 5, 6]));

    // With the fourth copy freshly drawn, its slot is the rack's last.
    let pkt = body(&encode_action_with(&ankan, Some("5m"), None, Some(&hand)).unwrap());
    assert_eq!(pkt["data"]["card"], 0x125);
    assert_eq!(pkt["data"]["group_cards"], ints(&[0x25, 0x25, 0x25]));
    assert_eq!(pkt["data"]["move_cards_pos"], ints(&[3, 4, 5, 13]));

    let kakan = MjaiEvent::Kakan {
        actor: 0,
        pai: "5p".into(),
        consumed: ["5p".into(), "5p".into(), "5p".into()],
    };
    let hand2: Vec<String> = vec!["5p".to_string(); 14];
    let pkt = body(&encode_action_with(&kakan, None, None, Some(&hand2)).unwrap());
    assert_eq!(pkt["data"]["action"], 9);
    assert_eq!(pkt["data"]["card"], 0x05);
    assert!(pkt["data"].get("group_cards").is_none());
    assert_eq!(pkt["data"]["move_cards_pos"], ints(&[1]));
}

/// Kita sends the north tile plus its rack slot; with no tracked hand the slot
/// is omitted.
#[test]
fn kita_names_its_rack_slot() {
    let kita = MjaiEvent::Kita { actor: 0, pai: Some("N".into()) };
    let hand = hand_of(&["1m", "2m", "3m", "N", "P"]);
    let pkt = body(&encode_action_with(&kita, None, None, Some(&hand)).unwrap());
    assert_eq!(pkt["data"]["action"], 13);
    assert_eq!(pkt["data"]["card"], 0x61);
    assert_eq!(pkt["data"]["move_cards_pos"], ints(&[4]));

    let pkt = body(&encode_action(&kita).unwrap());
    assert_eq!(pkt["data"].as_object().unwrap().len(), 2);
    assert_eq!(pkt["data"]["card"], 0x61);

    // The tile is the north tile where the event names none.
    let bare = MjaiEvent::Kita { actor: 0, pai: None };
    assert_eq!(encode_action(&bare), encode_action(&kita));
}

/// A ron names the claimed discard, mirroring the tsumo's winning tile.
#[test]
fn ron_names_the_claimed_discard() {
    let ron = MjaiEvent::Hora { actor: 0, target: 2, deltas: None, ura_markers: None };
    let pkt = body(&encode_action_with(&ron, None, Some("7s"), None).unwrap());
    assert_eq!(pkt["data"]["action"], 7);
    assert_eq!(pkt["data"]["card"], 0x17);
    assert_eq!(pkt["data"].as_object().unwrap().len(), 2);
}

/// Kyuushu (nine terminals) is a bare `{"action":12}`.
#[test]
fn kyuushu_is_a_bare_twelve() {
    let pkt = body(&encode_action(&MjaiEvent::Ryukyoku { deltas: None }).unwrap());
    assert_eq!(pkt["cmd"], CMD_GAME_ACTION);
    assert_eq!(pkt["data"]["action"], 12);
    assert_eq!(
        pkt["data"].as_object().unwrap().len(),
        1,
        "no card, no positions — the client sends the code alone"
    );
}

/// A Ryukyoku carrying deltas is an exhaustive draw observed on the wire, not
/// a decision — it must never encode.
#[test]
fn an_observed_draw_is_not_an_action() {
    assert!(encode_action(&MjaiEvent::Ryukyoku {
        deltas: Some(vec![1000, -1000, 1000, -1000]),
    })
    .is_none());
}

/// A 6p self-draw win goes out as `{"action":10,"card":6}`; pass is a bare
/// `{"action":1}`.
#[test]
fn tsumo_and_pass_match_the_recorded_shapes() {
    let tsumo = MjaiEvent::Hora { actor: 3, target: 3, deltas: None, ura_markers: None };
    let packet = encode_action_with(&tsumo, Some("6p"), None, None).unwrap();
    assert_eq!(packet.cmd, 6, "gameplay requests must ride binary cmd 6");
    let pkt = body(&packet);
    assert_eq!(pkt["data"]["action"], 10);
    assert_eq!(pkt["data"]["card"], 6);

    let pkt = body(&encode_action(&MjaiEvent::Pass).unwrap());
    assert_eq!(pkt["data"]["action"], 1);
    assert_eq!(pkt["data"].as_object().unwrap().len(), 1, "pass is bare");
}

/// The riichi discard carries the full field set with `is_li_zhi: true`, and a
/// tsumogiri uses `move_cards_pos: [14,13]`.
#[test]
fn discard_shapes_match_the_recording() {
    let riichi = MjaiEvent::Reach { actor: 3, pai: Some("7m".into()) };
    let pkt = body(&encode_action(&riichi).unwrap());
    assert_eq!(pkt["data"]["action"], 11);
    assert_eq!(pkt["data"]["is_li_zhi"], true);
    assert_eq!(pkt["data"]["is_xuan_gao_ting"], false);
    assert_eq!(pkt["data"]["li_zhi_operate"], 0);

    let tsumogiri = MjaiEvent::Dahai { actor: 3, pai: "N".into(), tsumogiri: true };
    let pkt = body(&encode_action(&tsumogiri).unwrap());
    assert_eq!(pkt["data"]["move_cards_pos"][0], 14);
    assert_eq!(pkt["data"]["move_cards_pos"][1], 13);
    assert_eq!(pkt["data"]["is_li_zhi"], false);
}

/// With the hand tracked, `move_cards_pos` follows the client's formula: the
/// tile's 1-based rack slot with the held draw racked last, and the slot before
/// the last as `toIndex`.
#[test]
fn discard_positions_follow_the_client_formula() {
    // The hand after drawing the 3m: merged into sort order.
    let hand = hand_of(&[
        "1m", "2m", "3m", "4p", "5p", "6s", "7s", "8s", "9s", "E", "S", "W", "N", "C",
    ]);
    let dahai =
        |pai: &str, tsumogiri: bool| MjaiEvent::Dahai { actor: 0, pai: pai.into(), tsumogiri };
    let pos = |ev: &MjaiEvent, hand: &[String]| {
        body(&encode_action_with(ev, Some("3m"), None, Some(hand)).unwrap())["data"]
            ["move_cards_pos"]
            .clone()
    };
    // Tedashi of the 4p: rack slot 3 (the drawn 3m no longer sits between 2m
    // and 4p — it racks last).
    assert_eq!(pos(&dahai("4p", false), &hand), ints(&[3, 13]));
    // Tsumogiri names the last slot.
    assert_eq!(pos(&dahai("3m", true), &hand), ints(&[14, 13]));
    // Tedashi of the hand's highest tile: slot 13, NOT 14.
    assert_eq!(pos(&dahai("C", false), &hand), ints(&[13, 13]));

    // Post-meld turn: ten concealed tiles plus the draw rack 11 slots, so
    // tsumogiri names 11.
    let melded = hand_of(&["1m", "2m", "3m", "4p", "5p", "6s", "7s", "8s", "9s", "E", "S"]);
    assert_eq!(pos(&dahai("3m", true), &melded), ints(&[11, 10]));

    // A riichi that discards the drawn tile (its only copy) names the drawn
    // slot — mjai `reach` has no tsumogiri flag to say so.
    let riichi = MjaiEvent::Reach { actor: 0, pai: Some("3m".into()) };
    let no_other_3m = hand_of(&[
        "1m", "2m", "3m", "4p", "5p", "6s", "7s", "8s", "9s", "E", "S", "W", "N", "C",
    ]);
    assert_eq!(pos(&riichi, &no_other_3m), ints(&[14, 13]));
    // A tile that is not in the rack gets the slot before the last.
    assert_eq!(pos(&dahai("F", false), &hand), ints(&[13, 13]));
}

/// The round-advance press must be a bare req_user_prepare on binary cmd 6.
#[test]
fn user_prepare_matches_the_recorded_shape() {
    let packet = user_prepare();
    assert_eq!(packet.cmd, 6);
    let pkt = body(&packet);
    assert_eq!(pkt["cmd"], "req_user_prepare");
    assert!(pkt.get("data").is_none(), "no data payload");
}

#[test]
fn hidden_tile_is_refused() {
    let ev = MjaiEvent::Dahai { actor: 0, pai: "?".into(), tsumogiri: true };
    assert!(encode_action(&ev).is_none());
}

#[test]
fn non_actions_have_no_frame() {
    assert!(encode_action(&MjaiEvent::EndGame {
        reason: Default::default(),
        final_scores: None,
        final_ranks: None,
    })
    .is_none());
    // A reach without its declaring tile cannot be sent.
    assert!(encode_action(&MjaiEvent::Reach { actor: 0, pai: None }).is_none());
}

/// The inverse table must be exact: every code the inbound table maps to a
/// known tile maps back to that code.
#[test]
fn tile_inverse_is_total_and_exact() {
    let mut named = 0;
    for code in 0u32..=0x125 {
        let m = card_to_mjai(code);
        if m == "?" {
            continue;
        }
        named += 1;
        assert_eq!(mjai_to_card(&m), Some(code), "round trip failed for {m}");
    }
    assert_eq!(named, 37);
}

#[test]
fn unknown_tiles_have_no_code() {
    for pai in ["", "?", "0p", "10p", "5", "5pp", "5prr", "5er", "e", "X", "4pr"] {
        assert_eq!(mjai_to_card(pai), None, "{pai}");
    }
    assert_eq!(mjai_to_card("9m"), Some(0x29));
    assert_eq!(mjai_to_card("C"), Some(0x91));
    assert_eq!(card_to_mjai(0x0a), "?");
    assert_eq!(card_to_mjai(u32::MAX), "?");
}

#[test]
fn a_whole_discard_request() {
    let ev = MjaiEvent::Dahai { actor: 0, pai: "5mr".into(), tsumogiri: false };
    let want: Value = serde_json::from_str(
        r#"{"cmd":"req_game_action","data":{"action":11,"card":293,"is_li_zhi":false,"is_xuan_gao_ting":false,"li_zhi_operate":0,"move_cards_pos":[13,13]}}"#,
    )
    .unwrap();
    assert_eq!(body(&encode_action(&ev).unwrap()), want);
}

#[test]
fn wins_without_a_known_tile_go_out_bare() {
    let win = |target: u8| MjaiEvent::Hora { actor: 1, target, deltas: None, ura_markers: None };
    let data = |ev: &MjaiEvent| body(&encode_action(ev).unwrap())["data"].clone();
    assert_eq!(data(&win(1)).as_object().unwrap().len(), 1);
    assert_eq!(data(&win(1))["action"], 10);
    assert_eq!(data(&win(0))["action"], 7);
    // A hidden winning tile is a wrong state: nothing goes out.
    assert!(encode_action_with(&win(1), Some("?"), None, None).is_none());
}

#[test]
fn a_one_tile_rack_names_its_only_slot() {
    let hand = hand_of(&["E"]);
    let pos = |pai: &str, tsumogiri: bool| {
        let ev = MjaiEvent::Dahai { actor: 0, pai: pai.into(), tsumogiri };
        body(&encode_action_with(&ev, Some("E"), None, Some(&hand)).unwrap())["data"]
            ["move_cards_pos"]
            .clone()
    };
    assert_eq!(pos("E", true), ints(&[1, 1]));
    assert_eq!(pos("S", false), ints(&[1, 1]));
}

#[test]
fn the_rack_keeps_the_held_draw_last() {
    let hand = hand_of(&["1m", "2m", "3m", "3m"]);
    let rack = Rack::build(Some(&hand), Some("2m")).unwrap();
    assert_eq!(rack.tiles, hand_of(&["1m", "3m", "3m", "2m"]));
    assert!(rack.drawn_last);
    let rack = Rack::build(Some(&hand), Some("9p")).unwrap();
    assert_eq!(rack.tiles, hand);
    assert!(!rack.drawn_last);
    assert!(Rack::build(Some(&[]), None).is_none());
    assert!(Rack::build(None, Some("1m")).is_none());
}

#[test]
fn positions_use_each_slot_once() {
    let rack = Rack::build(Some(&hand_of(&["3m", "1m", "3m", "5pr"])), None).unwrap();
    assert_eq!(
        rack.positions(&hand_of(&["3m", "3m"])),
        Some((vec![1, 3], hand_of(&["3m", "3m"])))
    );
    assert_eq!(
        rack.positions(&hand_of(&["5pr", "3m"])),
        Some((vec![1, 4], hand_of(&["3m", "5pr"])))
    );
    assert_eq!(rack.positions(&hand_of(&["3m", "3m", "3m"])), None);
    assert_eq!(rack.first_of_kind("5p"), Some(4));
    assert_eq!(rack.first_of_kind("9s"), None);
    assert_eq!(rack.first_of_kind("?"), None);
}

#[test]
fn equal_ranks_do_not_count_as_lower() {
    assert_eq!(chi_action_code(0x25, &[0x25, 0x23]), 3);
    assert_eq!(chi_action_code(0x25, &[0x125, 0x25]), 2);
}
