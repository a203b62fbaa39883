//! The mjai events that the table, the bot and the bridge exchange.
use crate::text;
use vstd::prelude::*;

verus! {

/// One mjai event. Tiles are mjai tile strings, `"?"` for a hidden one.
#[derive(Debug, Clone, PartialEq)]
#[allow(inconsistent_fields)]
pub enum MjaiEvent {
    StartKyoku {
        bakaze: String,
        dora_marker: String,
        kyoku: u8,
        honba: u8,
        kyotaku: u8,
        oya: u8,
        scores: Vec<i32>,
        tehais: Vec<Vec<String>>,
        num_players: u8,
    },
    Tsumo { actor: u8, pai: String },
    Dahai { actor: u8, pai: String, tsumogiri: bool },
    Reach { actor: u8, pai: Option<String> },
    Chi { actor: u8, target: u8, pai: String, consumed: [String; 2] },
    Pon { actor: u8, target: u8, pai: String, consumed: [String; 2] },
    Daiminkan { actor: u8, target: u8, pai: String, consumed: [String; 3] },
    Ankan { actor: u8, consumed: [String; 4] },
    Kakan { actor: u8, pai: String, consumed: [String; 3] },
    Kita { actor: u8, pai: Option<String> },
    Hora { actor: u8, target: u8, deltas: Option<Vec<i32>>, ura_markers: Option<Vec<String>> },
    Ryukyoku { deltas: Option<Vec<i32>> },
    /// The bot declines a call window.
    Pass,
    EndKyoku,
    EndGame { reason: String, final_scores: Option<Vec<i32>>, final_ranks: Option<Vec<u8>> },
    /// Any other event of the stream, such as the start of a game.
    Other,
}

/// What an event says, with every text as its characters.
#[allow(inconsistent_fields)]
pub enum EventModel {
    StartKyoku {
        bakaze: Seq<char>,
        dora_marker: Seq<char>,
        kyoku: u8,
        honba: u8,
        kyotaku: u8,
        oya: u8,
        scores: Seq<i32>,
        tehais: Seq<Seq<Seq<char>>>,
        num_players: u8,
    },
    Tsumo { actor: u8, pai: Seq<char> },
    Dahai { actor: u8, pai: Seq<char>, tsumogiri: bool },
    Reach { actor: u8, pai: Option<Seq<char>> },
    Chi { actor: u8, target: u8, pai: Seq<char>, consumed: Seq<Seq<char>> },
    Pon { actor: u8, target: u8, pai: Seq<char>, consumed: Seq<Seq<char>> },
    Daiminkan { actor: u8, target: u8, pai: Seq<char>, consumed: Seq<Seq<char>> },
    Ankan { actor: u8, consumed: Seq<Seq<char>> },
    Kakan { actor: u8, pai: Seq<char>, consumed: Seq<Seq<char>> },
    Kita { actor: u8, pai: Option<Seq<char>> },
    Hora {
        actor: u8,
        target: u8,
        deltas: Option<Seq<i32>>,
        ura_markers: Option<Seq<Seq<char>>>,
    },
    Ryukyoku { deltas: Option<Seq<i32>> },
    Pass,
    EndKyoku,
    EndGame { reason: Seq<char>, final_scores: Option<Seq<i32>>, final_ranks: Option<Seq<u8>> },
    Other,
}

/// The items of a list that may be absent.
pub open spec fn list_of<T>(list: Option<Vec<T>>) -> Option<Seq<T>> {
    match list {
        Some(v) => Some(v@),
        None => None,
    }
}

/// The hands of a deal.
pub open spec fn hands_of(tehais: Seq<Vec<String>>) -> Seq<Seq<Seq<char>>> {
    tehais.map_values(|h: Vec<String>| text::texts(h@))
}

impl View for MjaiEvent {
    type V = EventModel;

    open spec fn view(&self) -> EventModel {
        match *self {
            MjaiEvent::StartKyoku {
                bakaze,
                dora_marker,
                kyoku,
                honba,
                kyotaku,
                oya,
                scores,
                tehais,
                num_players,
            } => EventModel::StartKyoku {
                bakaze: bakaze@,
                dora_marker: dora_marker@,
                kyoku,
                honba,
                kyotaku,
                oya,
                scores: scores@,
                tehais: hands_of(tehais@),
                num_players,
            },
            MjaiEvent::Tsumo { actor, pai } => EventModel::Tsumo { actor, pai: pai@ },
            MjaiEvent::Dahai { actor, pai, tsumogiri } => EventModel::Dahai {
                actor,
                pai: pai@,
                tsumogiri,
            },
            MjaiEvent::Reach { actor, pai } => EventModel::Reach {
                actor,
                pai: text::text_of(pai),
            },
            MjaiEvent::Chi { actor, target, pai, consumed } => EventModel::Chi {
                actor,
                target,
                pai: pai@,
                consumed: text::texts(consumed@),
            },
            MjaiEvent::Pon { actor, target, pai, consumed } => EventModel::Pon {
                actor,
                target,
                pai: pai@,
                consumed: text::texts(consumed@),
            },
            MjaiEvent::Daiminkan { actor, target, pai, consumed } => EventModel::Daiminkan {
                actor,
                target,
                pai: pai@,
                consumed: text::texts(consumed@),
            },
            MjaiEvent::Ankan { actor, consumed } => EventModel::Ankan {
                actor,
                consumed: text::texts(consumed@),
            },
            MjaiEvent::Kakan { actor, pai, consumed } => EventModel::Kakan {
                actor,
                pai: pai@,
                consumed: text::texts(consumed@),
            },
            MjaiEvent::Kita { actor, pai } => EventModel::Kita { actor, pai: text::text_of(pai) },
            MjaiEvent::Hora { actor, target, deltas, ura_markers } => EventModel::Hora {
                actor,
                target,
                deltas: list_of(deltas),
                ura_markers: match ura_markers {
                    Some(v) => Some(text::texts(v@)),
                    None => None,
                },
            },
            MjaiEvent::Ryukyoku { deltas } => EventModel::Ryukyoku { deltas: list_of(deltas) },
            MjaiEvent::Pass => EventModel::Pass,
            MjaiEvent::EndKyoku => EventModel::EndKyoku,
            MjaiEvent::Other => EventModel::Other,
            MjaiEvent::EndGame { reason, final_scores, final_ranks } => EventModel::EndGame {
                reason: reason@,
                final_scores: list_of(final_scores),
                final_ranks: list_of(final_ranks),
            },
        }
    }
}

/// What a stream of events says.
pub open spec fn events_of(events: Seq<MjaiEvent>) -> Seq<EventModel> {
    events.map_values(|e: MjaiEvent| e@)
}

} // verus!
