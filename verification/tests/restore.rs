use akagi::events::MjaiEvent;
use akagi::json::Json;
use akagi::restore::snapshot::{GameStatus, RestoreError};
use akagi::restore::{restore, synthesise};
use serde_json::Value;

fn convert(v: &Value) -> Json {
    match v {
        Value::Null => Json::Null,
        Value::Bool(b) => Json::Bool(*b),
        Value::Number(n) => match n.as_i64() {
            Some(i) => Json::Int(i),
            None => Json::Number(n.to_string()),
        },
        Value::String(s) => Json::Text(s.clone()),
        Value::Array(a) => Json::Array(a.iter().map(convert).collect()),
        Value::Object(o) => Json::Object(o.iter().map(|(k, v)| (k.clone(), convert(v))).collect()),
    }
}

fn json(text: &str) -> Json {
    convert(&serde_json::from_str::<Value>(text).expect("valid JSON"))
}

/// Roster [1002, 1003, 1004, 1001(us)], initial_dealer_pos 1: rotated
/// player_list [1003, 1004, 1001, 1002], our seat 2, shift 1.
fn status() -> GameStatus {
    GameStatus { player_list: vec![1003, 1004, 1001, 1002], seat: 2, shift: 1, num_players: 4 }
}

#[allow(clippy::too_many_arguments)]
fn player(
    uid: i64,
    score: i64,
    hand_n: i64,
    river: &str,
    hand: &str,
    melds: &str,
    riichi: bool,
    riichi_pos: i64,
) -> String {
    format!(
        r#"{{"user":{{"user_id":{uid},"nickname":"x"}},"hand_chips":{score},"hand_card_num":{hand_n},"pai_he":{river},"hand_cards":{hand},"fu_lou_list":{melds},"is_li_zhi":{riichi},"li_zhi_pos":{riichi_pos},"pull_north_list":[]}}"#
    )
}

fn plain(uid: i64, score: i64, hand_n: i64, river: &str) -> String {
    player(uid, score, hand_n, river, "null", "[]", false, -1)
}

fn our_hand() -> &'static str {
    "[23, 18, 25, 38, 1, 25, 2, 49, 37, 113, 20, 113, 18]"
}

fn table(hand_status: &str, current: i64, players: &[String]) -> Json {
    json(&format!(
        r#"{{"is_reconnect":true,"initial_dealer_pos":1,"hand_status":{hand_status},"action_info":{{"current_user_id":{current}}},"players":[{}]}}"#,
        players.join(",")
    ))
}

fn two_chis() -> Json {
    table(
        r#"{"quan_feng":49,"dealer_pos":1,"ben_chang_num":0,"li_zhi_bang_num":0,"bao_pai_list":[1],"left_pai_shan":3}"#,
        1003,
        &[
            player(
                1002,
                25000,
                10,
                "[41,81,145,129,18,65,20,19,145,34,35,9,17,17,36,9]",
                "null",
                r#"[{"action_type":4,"card":8,"group_cards":[6,7],"position":3}]"#,
                false,
                -1,
            ),
            player(
                1003,
                25000,
                10,
                "[81,113,34,25,24,1,1,17,37,17,7,97,8,34,3,65,97,65]",
                "null",
                r#"[{"action_type":3,"card":36,"group_cards":[35,37],"position":0}]"#,
                false,
                -1,
            ),
            plain(1004, 25000, 13, "[113,8,6,145,38,4,18,3,35,38,19,22,81,1,19,18,65]"),
            player(
                1001,
                25000,
                13,
                "[97,37,5,6,20,20,18,34,129,19,145,25,9,129,113,49]",
                our_hand(),
                "[]",
                false,
                -1,
            ),
        ],
    )
}

/// East 1 late, wall 3, one chi each by two players.
#[test]
fn e1_two_chis_restores() {
    let events = synthesise(&two_chis(), &status()).expect("restore should synthesise").events;
    assert_eq!(events.len(), 1 + 6 + 2 * 67);
    let MjaiEvent::StartKyoku { bakaze, kyoku, oya, honba, kyotaku, scores, tehais, .. } =
        &events[0]
    else {
        panic!("expected start_kyoku first");
    };
    assert_eq!((bakaze.as_str(), *kyoku, *oya, *honba, *kyotaku), ("E", 1, 0, 0, 0));
    assert_eq!(scores, &vec![25000; 4]);
    assert_eq!(tehais[2].len(), 13);
    assert!(tehais[2].iter().all(|t| t != "?"), "our tehai is real");
    assert!(tehais[0].iter().all(|t| t == "?"), "others stay hidden");

    // Melds are replayed in actor order: actor 0's chi first — it claimed
    // actor 3's 4m, and a hidden seat's draw is replayed as "?".
    match &events[1..4] {
        [MjaiEvent::Tsumo { actor: 3, pai: tpai }, _, MjaiEvent::Chi { actor: 0, target: 3, pai: cpai, .. }] =>
        {
            assert_eq!(tpai, "?");
            assert_eq!(cpai, "4m");
        }
        other => panic!("expected the first claim turn, got {other:?}"),
    }
    // Then actor 3's chi: it claimed our 8p, and our own draw is replayed as
    // the tile itself.
    match &events[4..7] {
        [MjaiEvent::Tsumo { actor: 2, pai: tpai }, MjaiEvent::Dahai { actor: 2, pai: dpai, .. }, MjaiEvent::Chi { actor: 3, target: 2, pai: cpai, consumed }] =>
        {
            assert_eq!(tpai, "8p");
            assert_eq!(dpai, "8p");
            assert_eq!(cpai, "8p");
            assert_eq!(consumed, &["6p".to_string(), "7p".to_string()]);
        }
        other => panic!("expected our claimed discard then the chi, got {other:?}"),
    }
}

/// East 2 honba 1, one riichi declared, one stick on the table.
#[test]
fn e2_riichi_marks_the_river() {
    let data = table(
        r#"{"quan_feng":49,"dealer_pos":2,"ben_chang_num":1,"li_zhi_bang_num":1,"bao_pai_list":[22],"left_pai_shan":21}"#,
        1004,
        &[
            player(
                1002,
                25000,
                13,
                "[25,49,65,145,2,129,37,24,40,34,277,33]",
                "null",
                "[]",
                true,
                9,
            ),
            plain(1003, 25000, 13, "[97,113,145,25,49,40,1,49,2,34,25,21]"),
            plain(1004, 25000, 13, "[65,1,113,145,7,4,39,6,20,113,40,18,33]"),
            player(
                1001,
                25000,
                13,
                "[97,49,129,25,8,97,65,81,65,22,24,23]",
                our_hand(),
                "[]",
                false,
                -1,
            ),
        ],
    );
    let events = synthesise(&data, &status()).expect("restore should synthesise").events;
    let MjaiEvent::StartKyoku { kyoku, oya, honba, kyotaku, dora_marker, .. } = &events[0] else {
        panic!()
    };
    assert_eq!((*kyoku, *oya, *honba, *kyotaku), (2, 1, 1, 1));
    assert_eq!(dora_marker, "6s");

    // Actor 3 (uid 1002) declared riichi at river index 9 (2m); the red 5s at
    // index 10 is post-riichi.
    let reach_idx = events
        .iter()
        .position(|e| matches!(e, MjaiEvent::Reach { actor: 3, pai: None }))
        .expect("a reach for actor 3");
    match &events[reach_idx + 1..reach_idx + 3] {
        [MjaiEvent::Tsumo { actor: 3, .. }, MjaiEvent::Dahai { actor: 3, pai, tsumogiri }] => {
            assert_eq!(pai, "2m");
            assert!(!*tsumogiri, "the riichi tile itself is not marked tsumogiri");
        }
        other => panic!("expected the riichi discard right after the reach, got {other:?}"),
    }
    match &events[reach_idx + 3..reach_idx + 5] {
        [MjaiEvent::Tsumo { actor: 3, .. }, MjaiEvent::Dahai { pai, tsumogiri, .. }] => {
            assert_eq!(pai, "5sr");
            assert!(*tsumogiri, "post-riichi discards are forced tsumogiri");
        }
        other => panic!("expected a post-riichi turn, got {other:?}"),
    }
}

/// East 2 honba 2 early, two pons by actor 1, the current actor holding a
/// draw.
#[test]
fn e2_honba2_two_pons_and_held_draw() {
    let data = table(
        r#"{"quan_feng":49,"dealer_pos":2,"ben_chang_num":2,"li_zhi_bang_num":0,"bao_pai_list":[18],"left_pai_shan":54}"#,
        1002,
        &[
            plain(1002, 24000, 14, "[97,4,34]"),
            plain(1003, 25000, 13, "[8,65]"),
            player(
                1004,
                35000,
                7,
                "[81,25,5,4,22]",
                "null",
                r#"[{"action_type":5,"card":113,"group_cards":[113,113],"position":0},{"action_type":5,"card":24,"group_cards":[24,24],"position":1}]"#,
                false,
                -1,
            ),
            player(1001, 16000, 13, "[37,9,6,6,19]", our_hand(), "[]", false, -1),
        ],
    );
    let outcome = synthesise(&data, &status()).expect("restore should synthesise");
    assert!(!outcome.own_pending_draw);
    let events = outcome.events;
    let MjaiEvent::StartKyoku { honba, scores, .. } = &events[0] else { panic!() };
    assert_eq!(*honba, 2);
    assert_eq!(scores, &vec![25000, 35000, 16000, 24000]);

    // First pon: actor 1 claimed actor 3's white dragon.
    match &events[1..4] {
        [MjaiEvent::Tsumo { actor: 3, pai: tpai }, MjaiEvent::Dahai { actor: 3, pai: dpai, .. }, MjaiEvent::Pon { actor: 1, target: 3, pai: ppai, consumed }] =>
        {
            assert_eq!(tpai, "?");
            assert_eq!(dpai, "P");
            assert_eq!(ppai, "P");
            assert_eq!(consumed, &["P".to_string(), "P".to_string()]);
        }
        other => panic!("expected the first pon with its claimed turn, got {other:?}"),
    }
    // Second pon: actor 1 claimed actor 0's 8s.
    match &events[4..7] {
        [_, _, MjaiEvent::Pon { actor: 1, target: 0, pai, .. }] => {
            assert_eq!(pai, "8s");
        }
        other => panic!("expected the second pon, got {other:?}"),
    }
    // The current actor (3) holds a draw — the last event.
    match events.last() {
        Some(MjaiEvent::Tsumo { actor: 3, pai }) => {
            assert_eq!(pai, "?");
        }
        other => panic!("expected the pending draw, got {other:?}"),
    }
}

fn own_draw() -> Json {
    table(
        r#"{"quan_feng":65,"dealer_pos":2,"ben_chang_num":0,"li_zhi_bang_num":0,"bao_pai_list":[3],"left_pai_shan":48}"#,
        1001,
        &[
            plain(1002, 25000, 13, "[9, 4, 34, 8, 65]"),
            plain(1003, 25000, 13, "[25, 8, 65, 5, 4]"),
            plain(1004, 25000, 13, "[34, 81, 7, 6, 5, 22]"),
            player(
                1001,
                27700,
                14,
                "[113, 97, 65, 17, 7]",
                "[35, 19, 36, 4, 40, 23, 20, 23, 18, 261, 34, 5, 38, 113]",
                "[]",
                false,
                -1,
            ),
        ],
    )
}

/// We are the current actor and hold a draw: the hand names all 14 tiles. The
/// tehai drops the draw and the stream ends with it.
#[test]
fn own_pending_draw_restores() {
    let outcome = synthesise(&own_draw(), &status()).expect("restore should synthesise");
    assert!(outcome.own_pending_draw, "we held the draw");
    // Our tehai is the 13 tiles without the draw.
    let MjaiEvent::StartKyoku { tehais, .. } = &outcome.events[0] else { panic!() };
    assert_eq!(tehais[2].len(), 13);
    assert!(
        !tehais[2].contains(&"P".to_string())
            || tehais[2].iter().filter(|t| t.as_str() == "P").count() == 0
    );
    // The stream ends with our pending tsumo naming the dropped tile.
    match outcome.events.last() {
        Some(MjaiEvent::Tsumo { actor: 2, pai }) => assert_eq!(pai, "P"),
        other => panic!("expected our pending draw, got {other:?}"),
    }
}

fn quiet_status(left: i64) -> String {
    format!(
        r#"{{"quan_feng":49,"dealer_pos":1,"ben_chang_num":0,"li_zhi_bang_num":0,"bao_pai_list":[1],"left_pai_shan":{left}}}"#
    )
}

fn quiet_table(left: i64, ours: String) -> Json {
    table(
        &quiet_status(left),
        1003,
        &[
            plain(1002, 25000, 13, "[41,81]"),
            plain(1003, 25000, 13, "[81,113]"),
            plain(1004, 25000, 13, "[113,8]"),
            ours,
        ],
    )
}

fn quiet_own(hand: &str, melds: &str) -> String {
    player(1001, 25000, 13, "[97,37]", hand, melds, false, -1)
}

/// A snapshot whose wall does not add up is refused.
#[test]
fn corrupted_wall_is_refused() {
    let data = quiet_table(4, quiet_own(our_hand(), "[]"));
    let err = synthesise(&data, &status()).err().expect("wall 4 does not fit 4 rivers");
    assert!(err.contains("wall"), "unexpected error: {err}");
    assert_eq!(
        restore(&data, &status()).err(),
        Some(RestoreError::Wall { base: 70, draws: 8, left: 4 })
    );
}

/// The same table with the wall that adds up: the deal, then a draw and a
/// discard for each tile in the rivers, in seat order.
#[test]
fn quiet_table_replays_every_discard() {
    let events = restore(&quiet_table(62, quiet_own(our_hand(), "[]")), &status()).unwrap().events;
    assert_eq!(events.len(), 1 + 2 * 8);
    let discards: Vec<(u8, String)> = events
        .iter()
        .filter_map(|e| match e {
            MjaiEvent::Dahai { actor, pai, .. } => Some((*actor, pai.clone())),
            _ => None,
        })
        .collect();
    assert_eq!(discards[0], (0, "W".to_string()));
    assert_eq!(discards[1], (0, "P".to_string()));
    assert_eq!(discards[4], (2, "N".to_string()));
    assert_eq!(discards[5], (2, "5m".to_string()));
    let own_draws: Vec<&str> = events
        .iter()
        .filter_map(|e| match e {
            MjaiEvent::Tsumo { actor: 2, pai } => Some(pai.as_str()),
            _ => None,
        })
        .collect();
    assert_eq!(own_draws, vec!["N", "5m"]);
}

fn refusal(data: &Json) -> (RestoreError, String) {
    let e = restore(data, &status()).err().expect("a refusal");
    let m = synthesise(data, &status()).err().expect("a refusal");
    assert_eq!(e.message(), m);
    (e, m)
}

#[test]
fn a_table_without_status_or_players_is_refused() {
    assert_eq!(refusal(&json("{}")).0, RestoreError::NoHandStatus);
    let no_players = json(&format!(r#"{{"hand_status":{}}}"#, quiet_status(62)));
    assert_eq!(refusal(&no_players).0, RestoreError::PlayersList);
    let one = table(&quiet_status(62), 1003, &[plain(1002, 25000, 13, "[]")]);
    assert_eq!(refusal(&one).0, RestoreError::PlayersList);
}

#[test]
fn an_unknown_or_repeated_player_is_refused() {
    let unknown = quiet_table(62, plain(1009, 25000, 13, "[97,37]"));
    let (e, m) = refusal(&unknown);
    assert_eq!(e, RestoreError::UnknownUid { uid: 1009 });
    assert!(m.contains("1009"), "{m}");
    let repeated = quiet_table(62, plain(1002, 25000, 13, "[97,37]"));
    assert_eq!(refusal(&repeated).0, RestoreError::Seats);
    let nameless = quiet_table(62, r#"{"hand_chips":25000}"#.to_string());
    assert_eq!(refusal(&nameless).0, RestoreError::NoUserId);
}

#[test]
fn a_table_without_a_dora_indicator_is_refused() {
    let data = table(
        r#"{"quan_feng":49,"dealer_pos":1,"bao_pai_list":[],"left_pai_shan":62}"#,
        1003,
        &[
            plain(1002, 25000, 13, "[41,81]"),
            plain(1003, 25000, 13, "[81,113]"),
            plain(1004, 25000, 13, "[113,8]"),
            quiet_own(our_hand(), "[]"),
        ],
    );
    assert_eq!(refusal(&data).0, RestoreError::NoDora);
}

#[test]
fn wrong_hand_sizes_are_refused() {
    // One tile short, in a wall that counts it.
    let (e, m) = refusal(&quiet_table(
        63,
        player(1001, 25000, 12, "[97,37]", our_hand(), "[]", false, -1),
    ));
    assert_eq!(e, RestoreError::HandSize { actor: 2, hand_n: 12, expected: 13 });
    assert_eq!(m, "actor 2 hand is 12 tiles, expected 13");
    // Our own hand is named in part only.
    let (e, m) = refusal(&quiet_table(62, quiet_own("[23, 18, 25]", "[]")));
    assert_eq!(e, RestoreError::Tehai { tiles: 3 });
    assert_eq!(m, "our reconstructed tehai is 3 tiles, not 13");
    // A pon costs the hand three tiles but takes only two of them along.
    let (e, _) = refusal(&quiet_table(
        62,
        player(
            1001,
            25000,
            10,
            "[97,37]",
            "[23, 18, 25, 38, 1, 25, 2, 49, 37, 113]",
            r#"[{"action_type":5,"card":49,"group_cards":[49,49],"position":0}]"#,
            false,
            -1,
        ),
    ));
    assert_eq!(e, RestoreError::Tehai { tiles: 12 });
    // A held draw that the hand does not name.
    let data = table(
        &quiet_status(61),
        1001,
        &[
            plain(1002, 25000, 13, "[41,81]"),
            plain(1003, 25000, 13, "[81,113]"),
            plain(1004, 25000, 13, "[113,8]"),
            player(1001, 25000, 14, "[97,37]", our_hand(), "[]", false, -1),
        ],
    );
    let (e, m) = refusal(&data);
    assert_eq!(e, RestoreError::OwnHand { tiles: 13 });
    assert_eq!(m, "our hand_cards is 13 tiles with a pending draw, not 14");
}

/// Player 1004 (actor 1) has a meld.
fn melded(left: i64, hand_n: i64, meld: &str) -> Json {
    table(
        &quiet_status(left),
        1003,
        &[
            plain(1002, 25000, 13, "[41,81]"),
            plain(1003, 25000, 13, "[81,113]"),
            player(1004, 25000, hand_n, "[113,8]", "null", &format!("[{meld}]"), false, -1),
            quiet_own(our_hand(), "[]"),
        ],
    )
}

#[test]
fn impossible_melds_are_refused() {
    let cases = [
        (
            65,
            10,
            r#"{"action_type":42,"card":1,"group_cards":[1,1],"position":0}"#,
            RestoreError::UnknownMeld { action_type: 42 },
        ),
        (62, 10, r#"{"action_type":5,"card":1,"group_cards":[1,1]}"#, RestoreError::NoSource),
        (
            62,
            10,
            r#"{"action_type":5,"card":1,"group_cards":[1,1],"position":4}"#,
            RestoreError::SourceRange,
        ),
        (
            62,
            10,
            r#"{"action_type":5,"card":1,"group_cards":[1,1],"position":-1}"#,
            RestoreError::SourceRange,
        ),
        (
            62,
            10,
            r#"{"action_type":5,"card":0,"group_cards":[1,1],"position":0}"#,
            RestoreError::ZeroClaim,
        ),
        (
            62,
            10,
            r#"{"action_type":3,"card":1,"group_cards":[2],"position":0}"#,
            RestoreError::NoPair,
        ),
        (
            61,
            10,
            r#"{"action_type":6,"card":1,"group_cards":[1,1],"position":0}"#,
            RestoreError::NoTriple,
        ),
        (62, 9, r#"{"action_type":8,"card":1,"group_cards":[1,1]}"#, RestoreError::NoQuad),
    ];
    for (left, hand_n, meld, want) in cases {
        assert_eq!(refusal(&melded(left, hand_n, meld)).0, want, "{meld}");
    }
}

#[test]
fn kans_are_followed_by_their_draw() {
    // An open kan claims a discard and draws a replacement.
    let open = melded(
        61,
        10,
        r#"{"action_type":6,"card":49,"group_cards":[49,49,49],"position":0}"#,
    );
    let events = restore(&open, &status()).unwrap().events;
    let e = || "E".to_string();
    assert_eq!(
        &events[1..5],
        &[
            MjaiEvent::Tsumo { actor: 3, pai: "?".to_string() },
            MjaiEvent::Dahai { actor: 3, pai: e(), tsumogiri: false },
            MjaiEvent::Daiminkan { actor: 1, target: 3, pai: e(), consumed: [e(), e(), e()] },
            MjaiEvent::Tsumo { actor: 1, pai: "?".to_string() },
        ]
    );
    // A concealed one claims nothing.
    let closed = melded(62, 9, r#"{"action_type":8,"card":49,"group_cards":[49,49,49]}"#);
    let events = restore(&closed, &status()).unwrap().events;
    assert_eq!(
        &events[1..3],
        &[
            MjaiEvent::Ankan { actor: 1, consumed: [e(), e(), e(), e()] },
            MjaiEvent::Tsumo { actor: 1, pai: "?".to_string() },
        ]
    );
    // A promoted pon replays the pon first.
    let promoted = melded(
        63,
        10,
        r#"{"action_type":9,"card":261,"bu_gang_peng_card":5,"group_cards":[5,5],"position":0}"#,
    );
    let events = restore(&promoted, &status()).unwrap().events;
    let five = || "5p".to_string();
    assert_eq!(
        &events[3..6],
        &[
            MjaiEvent::Pon { actor: 1, target: 3, pai: five(), consumed: [five(), five()] },
            MjaiEvent::Kakan {
                actor: 1,
                pai: "5pr".to_string(),
                consumed: [five(), five(), five()],
            },
            MjaiEvent::Tsumo { actor: 1, pai: "?".to_string() },
        ]
    );
}

/// What a tracker that follows the stream ends up with for a seat: the hand,
/// the river, and the number of riichi declarations.
fn follow(events: &[MjaiEvent], seat: u8) -> (Vec<String>, Vec<String>, usize) {
    let mut hand: Vec<String> = Vec::new();
    let mut river: Vec<String> = Vec::new();
    let mut declared = 0;
    let take = |hand: &mut Vec<String>, pai: &String| {
        let at = hand.iter().position(|t| t == pai).expect("the tile is in the hand");
        hand.remove(at);
    };
    for e in events {
        match e {
            MjaiEvent::StartKyoku { tehais, .. } => hand = tehais[seat as usize].clone(),
            MjaiEvent::Tsumo { actor, pai } if *actor == seat => hand.push(pai.clone()),
            MjaiEvent::Dahai { actor, pai, .. } if *actor == seat => {
                take(&mut hand, pai);
                river.push(pai.clone());
            }
            MjaiEvent::Reach { actor, .. } if *actor == seat => declared += 1,
            MjaiEvent::Ankan { actor, consumed } if *actor == seat => {
                consumed.iter().for_each(|t| take(&mut hand, t))
            }
            MjaiEvent::Kakan { actor, pai, .. } if *actor == seat => take(&mut hand, pai),
            MjaiEvent::Kita { actor, pai: Some(pai) } if *actor == seat => take(&mut hand, pai),
            MjaiEvent::Chi { actor, target, consumed, .. }
            | MjaiEvent::Pon { actor, target, consumed, .. } => {
                if *actor == seat {
                    consumed.iter().for_each(|t| take(&mut hand, t));
                }
                if *target == seat {
                    river.pop();
                }
            }
            MjaiEvent::Daiminkan { actor, target, consumed, .. } => {
                if *actor == seat {
                    consumed.iter().for_each(|t| take(&mut hand, t));
                }
                if *target == seat {
                    river.pop();
                }
            }
            _ => {}
        }
    }
    hand.sort();
    (hand, river, declared)
}

fn tiles(list: &[&str]) -> Vec<String> {
    list.iter().map(|s| s.to_string()).collect()
}

#[test]
fn following_the_stream_rebuilds_hand_and_rivers() {
    let (hand, river, _) = follow(&restore(&own_draw(), &status()).unwrap().events, 2);
    assert_eq!(hand.len(), 14);
    assert!(hand.contains(&"P".to_string()) && hand.contains(&"5pr".to_string()));
    assert_eq!(river, tiles(&["P", "N", "S", "1s", "7p"]));

    // Two kans and a north of ours: they leave the hand that the snapshot names.
    let own = player(
        1001,
        25000,
        5,
        "[97,37]",
        "[23, 18, 25, 38, 1]",
        r#"[{"action_type":8,"card":49,"group_cards":[49,49,49]},{"action_type":9,"card":261,"bu_gang_peng_card":5,"group_cards":[5,5],"position":1}]"#,
        false,
        -1,
    )
    .replace("\"pull_north_list\":[]", "\"pull_north_list\":[97]");
    let data = quiet_table(63, own);
    let events = restore(&data, &status()).unwrap().events;
    let (hand, river, _) = follow(&events, 2);
    let mut want = tiles(&["7s", "2s", "9s", "6m", "1p"]);
    want.sort();
    assert_eq!(hand, want);
    assert_eq!(river, tiles(&["N", "5m"]));
    // The claimed tiles are not in their sources' rivers.
    assert_eq!(follow_river(&events, 3), tiles(&["9m", "W"]));
    assert_eq!(follow_river(&events, 0), tiles(&["W", "P"]));
}

/// The river of a seat whose hand is hidden.
fn follow_river(events: &[MjaiEvent], seat: u8) -> Vec<String> {
    let mut river: Vec<String> = Vec::new();
    for e in events {
        match e {
            MjaiEvent::Dahai { actor, pai, .. } if *actor == seat => river.push(pai.clone()),
            MjaiEvent::Chi { target, .. } | MjaiEvent::Pon { target, .. } if *target == seat => {
                river.pop();
            }
            MjaiEvent::Daiminkan { target, .. } if *target == seat => {
                river.pop();
            }
            _ => {}
        }
    }
    river
}

#[test]
fn a_riichi_is_declared_once() {
    let own = player(1001, 25000, 13, "[97,37]", our_hand(), "[]", true, 1);
    let events = restore(&quiet_table(62, own), &status()).unwrap().events;
    assert_eq!(follow(&events, 2).2, 1);
    // A declaration past the river is not replayed.
    let own = player(1001, 25000, 13, "[97,37]", our_hand(), "[]", true, 2);
    let events = restore(&quiet_table(62, own), &status()).unwrap().events;
    assert_eq!(follow(&events, 2).2, 0);
}

/// The user id may come as a text, and numbers that are no integers count as
/// absent.
#[test]
fn loose_json_is_read_as_the_server_means_it() {
    let own = quiet_own(our_hand(), "[]").replace("\"user_id\":1001", "\"user_id\":\"1001\"");
    assert!(restore(&quiet_table(62, own), &status()).is_ok());
    let own = quiet_own(our_hand(), "[]").replace("\"user_id\":1001", "\"user_id\":\"+1001\"");
    assert!(restore(&quiet_table(62, own), &status()).is_ok());
    let own = quiet_own(our_hand(), "[]").replace("\"user_id\":1001", "\"user_id\":1001.5");
    assert_eq!(refusal(&quiet_table(62, own)).0, RestoreError::NoUserId);
}

/// A seat outside the table is refused, after whatever else refuses it.
#[test]
fn a_seat_outside_the_table_is_refused() {
    let outside = GameStatus { seat: 4, ..status() };
    assert_eq!(restore(&json("{}"), &outside).err(), Some(RestoreError::NoHandStatus));
    let data = quiet_table(62, quiet_own(our_hand(), "[]"));
    assert_eq!(restore(&data, &outside).err(), Some(RestoreError::Seats));
    assert_eq!(
        restore(&quiet_table(4, quiet_own(our_hand(), "[]")), &outside).err(),
        Some(RestoreError::Wall { base: 70, draws: 8, left: 4 })
    );
    let nobody = GameStatus { player_list: vec![], seat: 0, shift: 0, num_players: 0 };
    assert_eq!(
        restore(&table(&quiet_status(70), 1003, &[]), &nobody).err(),
        Some(RestoreError::Seats)
    );
}
