//! Tile notation: mjai tile strings and the numeric card codes of the wire.
//!
//! A card code holds the rank in its low four bits and the suit in the next
//! four: circles (`p`), bamboos (`s`) and characters (`m`), then the seven
//! honors with rank one. A red five is the plain five plus `0x100`.
use crate::text;
use vstd::prelude::*;

verus! {

/// The letter of a numbered suit.
pub open spec fn suit_char(suit: int) -> char {
    if suit == 0 {
        'p'
    } else if suit == 1 {
        's'
    } else {
        'm'
    }
}

/// The letter of an honor, by its suit number.
pub open spec fn honor_char(suit: int) -> char {
    if suit == 3 {
        'E'
    } else if suit == 4 {
        'S'
    } else if suit == 5 {
        'W'
    } else if suit == 6 {
        'N'
    } else if suit == 7 {
        'P'
    } else if suit == 8 {
        'F'
    } else {
        'C'
    }
}

/// The tile that a card code names, or `?` where it names none.
pub open spec fn card_text(code: u32) -> Seq<char> {
    let suit = code as int / 16;
    let rank = code as int % 16;
    if suit <= 2 && 1 <= rank <= 9 {
        seq![text::digit_char(rank), suit_char(suit)]
    } else if 3 <= suit <= 9 && rank == 1 {
        seq![honor_char(suit)]
    } else if 16 <= suit <= 18 && rank == 5 {
        seq!['5', suit_char(suit - 16), 'r']
    } else {
        seq!['?']
    }
}

/// The suit number of a suit letter.
pub open spec fn suit_of(c: char) -> Option<int> {
    if c == 'p' {
        Some(0)
    } else if c == 's' {
        Some(1)
    } else if c == 'm' {
        Some(2)
    } else {
        None
    }
}

/// The suit number of an honor letter.
pub open spec fn honor_of(c: char) -> Option<int> {
    if c == 'E' {
        Some(3)
    } else if c == 'S' {
        Some(4)
    } else if c == 'W' {
        Some(5)
    } else if c == 'N' {
        Some(6)
    } else if c == 'P' {
        Some(7)
    } else if c == 'F' {
        Some(8)
    } else if c == 'C' {
        Some(9)
    } else {
        None
    }
}

/// The card code of a tile, or `None` for a hidden or malformed one.
pub open spec fn card_code(pai: Seq<char>) -> Option<u32> {
    if pai.len() == 1 {
        match honor_of(pai[0]) {
            Some(suit) => Some((16 * suit + 1) as u32),
            None => None,
        }
    } else if pai.len() == 2 && '1' <= pai[0] <= '9' {
        match suit_of(pai[1]) {
            Some(suit) => Some((16 * suit + text::digit_value(pai[0])) as u32),
            None => None,
        }
    } else if pai.len() == 3 && pai[0] == '5' && pai[2] == 'r' {
        match suit_of(pai[1]) {
            Some(suit) => Some((16 * suit + 0x105) as u32),
            None => None,
        }
    } else {
        None
    }
}

/// The card codes of several tiles, or `None` where one of them has none.
pub open spec fn card_codes(pais: Seq<Seq<char>>) -> Option<Seq<u32>> {
    if forall|i: int| 0 <= i < pais.len() ==> card_code(#[trigger] pais[i]) is Some {
        Some(pais.map_values(|p: Seq<char>| card_code(p)->0))
    } else {
        None
    }
}

/// Several card codes as tiles.
pub open spec fn card_texts(codes: Seq<u32>) -> Seq<Seq<char>> {
    codes.map_values(|c: u32| card_text(c))
}

fn suit_number(c: char) -> (suit: Option<u32>)
    ensures
        match suit {
            Some(s) => suit_of(c) == Some(s as int) && s <= 2,
            None => suit_of(c) is None,
        },
{
    if c == 'p' {
        Some(0)
    } else if c == 's' {
        Some(1)
    } else if c == 'm' {
        Some(2)
    } else {
        None
    }
}

/// mjai tile string to card code, the inverse of [`card_to_mjai`]. `None` for
/// `"?"` and anything malformed: encoding a hidden tile means the caller's
/// state is wrong, and the right move is to skip the action.
pub fn mjai_to_card(pai: &str) -> (code: Option<u32>)
    ensures
        code == card_code(pai@),
{
    let n: usize = pai.unicode_len();
    if n == 1 {
        let c: char = pai.get_char(0);
        if c == 'E' {
            Some(0x31)
        } else if c == 'S' {
            Some(0x41)
        } else if c == 'W' {
            Some(0x51)
        } else if c == 'N' {
            Some(0x61)
        } else if c == 'P' {
            Some(0x71)
        } else if c == 'F' {
            Some(0x81)
        } else if c == 'C' {
            Some(0x91)
        } else {
            None
        }
    } else if n == 2 {
        let rank: char = pai.get_char(0);
        if rank < '1' || rank > '9' {
            return None;
        }
        match suit_number(pai.get_char(1)) {
            Some(suit) => Some(16 * suit + (rank as u32 - '0' as u32)),
            None => None,
        }
    } else if n == 3 {
        if pai.get_char(0) != '5' || pai.get_char(2) != 'r' {
            return None;
        }
        match suit_number(pai.get_char(1)) {
            Some(suit) => Some(16 * suit + 0x105),
            None => None,
        }
    } else {
        None
    }
}

fn suit_text(suit: u32) -> (t: &'static str)
    requires
        suit <= 2,
    ensures
        t@ == seq![suit_char(suit as int)],
{
    proof {
        reveal_strlit("p");
        reveal_strlit("s");
        reveal_strlit("m");
    }
    match suit {
        0 => "p",
        1 => "s",
        _ => "m",
    }
}

fn honor_text(suit: u32) -> (t: &'static str)
    requires
        3 <= suit <= 9,
    ensures
        t@ == seq![honor_char(suit as int)],
{
    proof {
        reveal_strlit("E");
        reveal_strlit("S");
        reveal_strlit("W");
        reveal_strlit("N");
        reveal_strlit("P");
        reveal_strlit("F");
        reveal_strlit("C");
    }
    match suit {
        3 => "E",
        4 => "S",
        5 => "W",
        6 => "N",
        7 => "P",
        8 => "F",
        _ => "C",
    }
}

/// The text of a hidden tile.
pub fn hidden_tile() -> (t: String)
    ensures
        t@ == seq!['?'],
{
    proof {
        reveal_strlit("?");
    }
    "?".to_owned()
}

/// Card code to mjai tile string; `"?"` for a code that names no tile.
pub fn card_to_mjai(code: u32) -> (pai: String)
    ensures
        pai@ == card_text(code),
{
    let suit: u32 = code / 16;
    let rank: u32 = code % 16;
    if suit <= 2 && 1 <= rank && rank <= 9 {
        let mut t: String = text::digit_text(rank as u8).to_owned();
        t.append(suit_text(suit));
        assert(t@ =~= card_text(code));
        t
    } else if 3 <= suit && suit <= 9 && rank == 1 {
        honor_text(suit).to_owned()
    } else if 16 <= suit && suit <= 18 && rank == 5 {
        proof {
            reveal_strlit("5");
            reveal_strlit("r");
        }
        let mut t: String = "5".to_owned();
        t.append(suit_text(suit - 16));
        t.append("r");
        assert(t@ =~= card_text(code));
        t
    } else {
        hidden_tile()
    }
}

/// Card codes to mjai tile strings.
pub fn cards_to_mjai(codes: &Vec<u32>) -> (pais: Vec<String>)
    ensures
        text::texts(pais@) == card_texts(codes@),
{
    let mut pais: Vec<String> = Vec::new();
    let mut i: usize = 0;
    while i < codes.len()
        invariant
            i <= codes@.len(),
            text::texts(pais@) == card_texts(codes@.take(i as int)),
        decreases codes.len() - i,
    {
        pais.push(card_to_mjai(codes[i]));
        i = i + 1;
        proof {
            let before = codes@.take(i - 1);
            assert(codes@.take(i as int) =~= before.push(codes@[i - 1]));
            assert(text::texts(pais@) =~= card_texts(before).push(card_text(codes@[i - 1])));
            assert(card_texts(codes@.take(i as int)) =~= card_texts(before).push(
                card_text(codes@[i - 1]),
            ));
        }
    }
    assert(codes@.take(codes@.len() as int) =~= codes@);
    pais
}

/// mjai tile strings to card codes; `None` where one of them has no code.
pub fn cards(pais: &[String]) -> (codes: Option<Vec<u32>>)
    ensures
        match codes {
            Some(v) => card_codes(text::texts(pais@)) == Some(v@),
            None => card_codes(text::texts(pais@)) is None,
        },
{
    let mut codes: Vec<u32> = Vec::new();
    let mut i: usize = 0;
    while i < pais.len()
        invariant
            i <= pais@.len(),
            codes@.len() == i,
            forall|j: int|
                0 <= j < i ==> card_code(#[trigger] text::texts(pais@)[j]) == Some(codes@[j]),
        decreases pais.len() - i,
    {
        match mjai_to_card(pais[i].as_str()) {
            Some(c) => codes.push(c),
            None => {
                assert(card_code(text::texts(pais@)[i as int]) is None);
                return None;
            },
        }
        i = i + 1;
    }
    assert(codes@ =~= text::texts(pais@).map_values(|p: Seq<char>| card_code(p)->0));
    Some(codes)
}

/// Every tile that a card code names encodes back to that code.
pub proof fn law_codes_of_named_tiles(code: u32)
    requires
        card_text(code) != seq!['?'],
    ensures
        card_code(card_text(code)) == Some(code),
{
    let pai = card_text(code);
    assert(pai.len() > 1 || pai[0] != '?');
}

/// Every tile with a card code is the tile that the code names.
pub proof fn law_tiles_of_codes(pai: Seq<char>, code: u32)
    requires
        card_code(pai) == Some(code),
    ensures
        card_text(code) == pai,
{
    assert(card_text(code) =~= pai);
}

/// No two tiles share a card code, and a hidden tile has none.
pub proof fn law_codes_are_distinct(a: Seq<char>, b: Seq<char>)
    ensures
        card_code(a) is Some && card_code(a) == card_code(b) ==> a == b,
        card_code(seq!['?']) is None,
{
    if card_code(a) is Some && card_code(a) == card_code(b) {
        law_tiles_of_codes(a, card_code(a)->0);
        law_tiles_of_codes(b, card_code(a)->0);
    }
}

/// The table of codes: the numbered suits count their ranks from 0x00, 0x10
/// and 0x20, the honors are 0x10 apart from the east wind at 0x31 on, a red
/// five is its plain five and 0x100, and no other text has a code.
pub proof fn law_the_table_of_codes(pai: Seq<char>, rank: char)
    ensures
        '1' <= rank <= '9' ==> card_code(seq![rank, 'p']) == Some((rank as int - 48) as u32),
        '1' <= rank <= '9' ==> card_code(seq![rank, 's']) == Some((rank as int - 32) as u32),
        '1' <= rank <= '9' ==> card_code(seq![rank, 'm']) == Some((rank as int - 16) as u32),
        card_code(seq!['E']) == Some(0x31u32),
        card_code(seq!['S']) == Some(0x41u32),
        card_code(seq!['W']) == Some(0x51u32),
        card_code(seq!['N']) == Some(0x61u32),
        card_code(seq!['P']) == Some(0x71u32),
        card_code(seq!['F']) == Some(0x81u32),
        card_code(seq!['C']) == Some(0x91u32),
        card_code(seq!['5', 'p', 'r']) == Some(0x105u32),
        card_code(seq!['5', 's', 'r']) == Some(0x115u32),
        card_code(seq!['5', 'm', 'r']) == Some(0x125u32),
        card_code(pai) is Some ==> 1 <= pai.len() <= 3 && (pai.len() == 1 ==> pai[0] != '?'
            && "ESWNPFC"@.contains(pai[0])) && (pai.len() == 2 ==> '1' <= pai[0] <= '9'
            && "psm"@.contains(pai[1])) && (pai.len() == 3 ==> pai[0] == '5' && pai[2] == 'r'
            && "psm"@.contains(pai[1])),
{
    reveal_strlit("ESWNPFC");
    reveal_strlit("psm");
    let honors = "ESWNPFC"@;
    assert(honors[0] == 'E' && honors[1] == 'S' && honors[2] == 'W' && honors[3] == 'N');
    assert(honors[4] == 'P' && honors[5] == 'F' && honors[6] == 'C');
    let suits = "psm"@;
    assert(suits[0] == 'p' && suits[1] == 's' && suits[2] == 'm');
}

/// A code that no tile has reads as a hidden tile, and a list of codes reads as
/// the tiles of its codes, one for one.
pub proof fn law_codes_read_as_their_tiles(code: u32, codes: Seq<u32>, i: int)
    ensures
        card_text(code) == seq!['?'] <==> forall|pai: Seq<char>| #[trigger]
            card_code(pai) != Some(code),
        card_texts(codes).len() == codes.len(),
        0 <= i < codes.len() ==> card_texts(codes)[i] == card_text(codes[i]),
{
    if card_text(code) != seq!['?'] {
        law_codes_of_named_tiles(code);
        assert(card_code(card_text(code)) == Some(code));
    } else {
        assert forall|pai: Seq<char>| #[trigger] card_code(pai) != Some(code) by {
            if card_code(pai) == Some(code) {
                law_tiles_of_codes(pai, code);
                law_codes_are_distinct(pai, pai);
            }
        }
    }
}

} // verus!
