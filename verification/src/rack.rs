//! The client's rack view of our hand.
//!
//! Wire positions are slots, counted from one, in the client's tile rack: the
//! sorted concealed hand with a freshly drawn tile appended last. The tracked
//! hand merges the drawn tile in sort order instead, so the rack rebuilds the
//! client's view before any position is computed.
use crate::lists;
use crate::text;
use crate::tiles;
use vstd::prelude::*;

verus! {

/// Concealed tiles in sorted order, with the held draw last.
#[derive(Debug)]
pub struct Rack {
    pub tiles: Vec<String>,
    /// The last slot is a freshly drawn tile.
    pub drawn_last: bool,
}

pub struct RackModel {
    pub tiles: Seq<Seq<char>>,
    pub drawn_last: bool,
}

impl View for Rack {
    type V = RackModel;

    open spec fn view(&self) -> RackModel {
        RackModel { tiles: text::texts(self.tiles@), drawn_last: self.drawn_last }
    }
}

/// The rack of a hand: without a hand there is none; a drawn tile that the hand
/// holds moves from its first place to the end.
pub open spec fn rack_of(hand: Option<Seq<Seq<char>>>, drawn: Option<Seq<char>>) -> Option<
    RackModel,
> {
    match hand {
        None => None,
        Some(tiles) => if tiles.len() == 0 {
            None
        } else {
            let place = match drawn {
                None => None,
                Some(d) => lists::first_index(tiles, d),
            };
            match place {
                None => Some(RackModel { tiles, drawn_last: false }),
                Some(i) => Some(
                    RackModel { tiles: tiles.remove(i).push(tiles[i]), drawn_last: true },
                ),
            }
        },
    }
}

/// A scan of the rack takes slot `i`: the tile there is wanted more often than
/// the slots before hold it.
pub open spec fn takes(tiles: Seq<Seq<char>>, want: Seq<Seq<char>>, i: int) -> bool {
    lists::occurrences(tiles.take(i), tiles[i]) < lists::occurrences(want, tiles[i])
}

/// The slots that a scan takes among the first `n`, counted from zero.
pub open spec fn taken(tiles: Seq<Seq<char>>, want: Seq<Seq<char>>, n: nat) -> Seq<int>
    decreases n,
{
    if n == 0 {
        Seq::empty()
    } else {
        let before = taken(tiles, want, (n - 1) as nat);
        if takes(tiles, want, n - 1) {
            before.push(n - 1)
        } else {
            before
        }
    }
}

/// The rack holds every wanted tile as often as it is wanted.
pub open spec fn holds_all(tiles: Seq<Seq<char>>, want: Seq<Seq<char>>) -> bool {
    forall|t: Seq<char>| #[trigger]
        lists::occurrences(want, t) <= lists::occurrences(tiles, t)
}

impl RackModel {
    /// The slots of the wanted tiles, counted from one, where the rack holds
    /// them all.
    pub open spec fn slots(self, want: Seq<Seq<char>>) -> Option<Seq<u32>> {
        if holds_all(self.tiles, want) {
            Some(taken(self.tiles, want, self.tiles.len()).map_values(|i: int| (i + 1) as u32))
        } else {
            None
        }
    }

    /// The tiles in those slots.
    pub open spec fn matched(self, want: Seq<Seq<char>>) -> Seq<Seq<char>> {
        taken(self.tiles, want, self.tiles.len()).map_values(|i: int| self.tiles[i])
    }

    /// The first slot, counted from one, that holds a tile of `pai`'s kind: a
    /// red five and a plain one are of one kind.
    pub open spec fn kind_slot(self, pai: Seq<char>) -> Option<u32> {
        match tiles::card_code(pai) {
            None => None,
            Some(code) => match lists::first_index(
                self.tiles.map_values(|t: Seq<char>| kind_of(t)),
                Some(code % 256),
            ) {
                Some(i) => Some((i + 1) as u32),
                None => None,
            },
        }
    }
}

/// The kind of a tile: its card code without the mark of a red five.
pub open spec fn kind_of(pai: Seq<char>) -> Option<u32> {
    match tiles::card_code(pai) {
        Some(code) => Some(code % 256),
        None => None,
    }
}

fn copy_texts(list: &[String]) -> (copy: Vec<String>)
    ensures
        copy@ == list@,
{
    let mut copy: Vec<String> = Vec::new();
    let mut i: usize = 0;
    while i < list.len()
        invariant
            i <= list@.len(),
            copy@ == list@.take(i as int),
        decreases list.len() - i,
    {
        copy.push(list[i].clone());
        i = i + 1;
        assert(list@.take(i as int) =~= list@.take(i - 1).push(list@[i - 1]));
    }
    assert(list@.take(list@.len() as int) =~= list@);
    copy
}

/// The view of a hand that may be absent.
pub open spec fn hand_of(hand: Option<&[String]>) -> Option<Seq<Seq<char>>> {
    match hand {
        Some(v) => Some(text::texts(v@)),
        None => None,
    }
}

/// The view of a rack that may be absent.
pub open spec fn rack_model(rack: Option<Rack>) -> Option<RackModel> {
    match rack {
        Some(r) => Some(r@),
        None => None,
    }
}

impl Rack {
    /// `hand` is the tracked hand (drawn tile merged in sort order); `drawn` is
    /// the tile currently held from the wall, if any.
    pub fn build(hand: Option<&[String]>, drawn: Option<&str>) -> (rack: Option<Rack>)
        ensures
            rack_model(rack) == rack_of(hand_of(hand), text::str_of(drawn)),
    {
        let hand = match hand {
            Some(hand) => hand,
            None => {
                return None;
            },
        };
        if hand.len() == 0 {
            return None;
        }
        let mut tiles: Vec<String> = copy_texts(hand);
        let ghost whole = text::texts(hand@);
        assert(whole.take(whole.len() as int) =~= whole);
        let place: Option<usize> = match drawn {
            Some(d) => lists::first_place(&tiles, tiles.len(), d),
            None => None,
        };
        let mut drawn_last: bool = false;
        if let Some(i) = place {
            let t: String = tiles.remove(i);
            tiles.push(t);
            drawn_last = true;
            assert(text::texts(tiles@) =~= whole.remove(i as int).push(whole[i as int]));
        }
        Some(Rack { tiles, drawn_last })
    }

    /// Slots of `want`, counted from one, collected by scanning the rack in
    /// order with each slot used at most once, and the rack tiles in that same
    /// order. `None` when any tile is missing from the rack.
    pub fn positions(&self, want: &[String]) -> (found: Option<(Vec<u32>, Vec<String>)>)
        requires
            self.tiles@.len() <= u32::MAX,
        ensures
            match found {
                Some((pos, matched)) => self@.slots(text::texts(want@)) == Some(pos@)
                    && text::texts(matched@) == self@.matched(text::texts(want@)),
                None => self@.slots(text::texts(want@)) is None,
            },
    {
        let ghost tiles = text::texts(self.tiles@);
        let ghost wanted = text::texts(want@);
        let mut left: Vec<String> = copy_texts(want);
        let mut pos: Vec<u32> = Vec::new();
        let mut matched: Vec<String> = Vec::new();
        let mut i: usize = 0;
        proof {
            assert(tiles.take(0) =~= Seq::empty());
            assert forall|t: Seq<char>| #[trigger]
                lists::occurrences(text::texts(left@), t) == missing(tiles, wanted, 0, t) by {
                lists::lemma_occurrences(wanted, t);
            }
            assert(text::texts(matched@) =~= taken(tiles, wanted, 0).map_values(|k: int| tiles[k]));
            assert(pos@ =~= taken(tiles, wanted, 0).map_values(|k: int| (k + 1) as u32));
        }
        while i < self.tiles.len()
            invariant
                i <= self.tiles@.len() <= u32::MAX,
                tiles == text::texts(self.tiles@),
                wanted == text::texts(want@),
                forall|t: Seq<char>| #[trigger]
                    lists::occurrences(text::texts(left@), t) == missing(
                        tiles,
                        wanted,
                        i as int,
                        t,
                    ),
                pos@ == taken(tiles, wanted, i as nat).map_values(|k: int| (k + 1) as u32),
                text::texts(matched@) == taken(tiles, wanted, i as nat).map_values(
                    |k: int| tiles[k],
                ),
            decreases self.tiles.len() - i,
        {
            let ghost t = tiles[i as int];
            let ghost before = text::texts(left@);
            let ghost pos_before = pos@;
            let ghost matched_before = matched@;
            let ghost scan = taken(tiles, wanted, i as nat);
            assert(tiles.take(i + 1).drop_last() =~= tiles.take(i as int));
            assert(before.take(before.len() as int) =~= before);
            let place = lists::first_place(&left, left.len(), self.tiles[i].as_str());
            proof {
                lists::lemma_occurrences(before, t);
                lists::lemma_first_index(before, t);
                lists::lemma_occurrences(tiles.take(i as int), t);
                assert(place is Some <==> takes(tiles, wanted, i as int)) by {
                    assert(lists::occurrences(before, t) == missing(tiles, wanted, i as int, t));
                }
            }
            if let Some(w) = place {
                let _ = left.remove(w);
                pos.push(i as u32 + 1);
                matched.push(self.tiles[i].clone());
                proof {
                    assert(text::texts(left@) =~= before.remove(w as int));
                    assert(text::texts(matched@) =~= text::texts(matched_before).push(t));
                    assert(text::texts(matched@) =~= scan.push(i as int).map_values(
                        |k: int| tiles[k],
                    ));
                    assert(pos@ =~= scan.push(i as int).map_values(|k: int| (k + 1) as u32));
                }
            }
            proof {
                assert forall|u: Seq<char>| #[trigger]
                    lists::occurrences(text::texts(left@), u) == missing(
                    tiles,
                    wanted,
                    i + 1,
                    u,
                ) by {
                    assert(lists::occurrences(before, u) == missing(tiles, wanted, i as int, u));
                    if let Some(w) = place {
                        lists::lemma_occurrences_remove(before, w as int, u);
                    }
                }
            }
            i = i + 1;
        }
        proof {
            assert(tiles.take(tiles.len() as int) =~= tiles);
        }
        if left.len() == 0 {
            proof {
                assert forall|t: Seq<char>| #[trigger]
                    lists::occurrences(wanted, t) <= lists::occurrences(tiles, t) by {
                    assert(lists::occurrences(text::texts(left@), t) == missing(
                        tiles,
                        wanted,
                        tiles.len() as int,
                        t,
                    ));
                }
            }
            Some((pos, matched))
        } else {
            proof {
                let rest = text::texts(left@);
                let t = rest[0];
                lists::lemma_occurrences(rest, t);
                lists::lemma_first_index(rest, t);
                assert(lists::occurrences(rest, t) == missing(
                    tiles,
                    wanted,
                    tiles.len() as int,
                    t,
                ));
                assert(lists::occurrences(wanted, t) > lists::occurrences(tiles, t));
            }
            None
        }
    }

    /// First slot, counted from one, of a tile of `pai`'s kind (red and plain
    /// fives match each other).
    pub fn first_of_kind(&self, pai: &str) -> (slot: Option<u32>)
        requires
            self.tiles@.len() <= u32::MAX,
        ensures
            slot == self@.kind_slot(pai@),
    {
        let kind: u32 = match tiles::mjai_to_card(pai) {
            Some(code) => code % 256,
            None => {
                return None;
            },
        };
        let ghost kinds = self@.tiles.map_values(|t: Seq<char>| kind_of(t));
        let mut i: usize = 0;
        while i < self.tiles.len()
            invariant
                i <= self.tiles@.len() <= u32::MAX,
                kind_of(pai@) == Some(kind),
                kinds == self@.tiles.map_values(|t: Seq<char>| kind_of(t)),
                lists::first_index(kinds.take(i as int), Some(kind)) is None,
            decreases self.tiles.len() - i,
        {
            assert(kinds.take(i + 1).drop_last() =~= kinds.take(i as int));
            if let Some(code) = tiles::mjai_to_card(self.tiles[i].as_str()) {
                if code % 256 == kind {
                    proof {
                        lists::lemma_first_index_stays(kinds, i + 1, Some(kind));
                    }
                    return Some(i as u32 + 1);
                }
            }
            i = i + 1;
        }
        assert(kinds.take(kinds.len() as int) =~= kinds);
        None
    }
}

/// How many of the wanted `t` the first `i` slots leave missing.
spec fn missing(tiles: Seq<Seq<char>>, want: Seq<Seq<char>>, i: int, t: Seq<char>) -> int {
    let open = lists::occurrences(want, t) - lists::occurrences(tiles.take(i), t);
    if open > 0 {
        open
    } else {
        0
    }
}

proof fn lemma_taken_in_order(tiles: Seq<Seq<char>>, want: Seq<Seq<char>>, n: nat)
    ensures
        forall|k: int|
            0 <= k < taken(tiles, want, n).len() ==> 0 <= #[trigger] taken(tiles, want, n)[k] < n,
        forall|k: int, l: int|
            0 <= k < l < taken(tiles, want, n).len() ==> #[trigger] taken(tiles, want, n)[k]
                < #[trigger] taken(tiles, want, n)[l],
    decreases n,
{
    if n > 0 {
        let before = taken(tiles, want, (n - 1) as nat);
        let all = taken(tiles, want, n);
        lemma_taken_in_order(tiles, want, (n - 1) as nat);
        assert(all == before || all == before.push(n - 1));
        assert forall|k: int| 0 <= k < all.len() implies 0 <= #[trigger] all[k] < n by {
            if k < before.len() {
                assert(all[k] == before[k]);
            }
        }
        assert forall|k: int, l: int| 0 <= k < l < all.len() implies #[trigger] all[k]
            < #[trigger] all[l] by {
            assert(all[k] == before[k]);
            if l < before.len() {
                assert(all[l] == before[l]);
            }
        }
    }
}

proof fn lemma_taken_counts(tiles: Seq<Seq<char>>, want: Seq<Seq<char>>, n: nat, t: Seq<char>)
    requires
        n <= tiles.len(),
    ensures
        ({
            let seen = lists::occurrences(tiles.take(n as int), t);
            let wanted = lists::occurrences(want, t);
            lists::occurrences(taken(tiles, want, n).map_values(|i: int| tiles[i]), t) == if seen
                < wanted {
                seen
            } else {
                wanted
            }
        }),
    decreases n,
{
    lists::lemma_occurrences(want, t);
    if n == 0 {
        assert(tiles.take(0) =~= Seq::empty());
        assert(taken(tiles, want, 0).map_values(|i: int| tiles[i]) =~= Seq::empty());
    } else {
        let m = (n - 1) as nat;
        lemma_taken_counts(tiles, want, m, t);
        assert(tiles.take(n as int).drop_last() =~= tiles.take(m as int));
        if takes(tiles, want, m as int) {
            let longer = taken(tiles, want, n).map_values(|i: int| tiles[i]);
            assert(longer.drop_last() =~= taken(tiles, want, m).map_values(|i: int| tiles[i]));
            assert(longer.last() == tiles[m as int]);
        }
    }
}

/// Where the rack holds the wanted tiles, the scan names distinct slots of the
/// rack in ascending order, and they hold exactly the wanted tiles.
pub proof fn law_slots_hold_the_wanted_tiles(r: RackModel, want: Seq<Seq<char>>, t: Seq<char>)
    requires
        r.slots(want) is Some,
        r.tiles.len() <= u32::MAX,
    ensures
        lists::occurrences(r.matched(want), t) == lists::occurrences(want, t),
        r.matched(want).len() == r.slots(want)->0.len(),
        forall|k: int|
            0 <= k < r.matched(want).len() ==> {
                let slot = #[trigger] r.slots(want)->0[k];
                1 <= slot <= r.tiles.len() && r.tiles[slot - 1] == r.matched(want)[k]
            },
        forall|k: int, l: int|
            0 <= k < l < r.matched(want).len() ==> #[trigger] r.slots(want)->0[k]
                < #[trigger] r.slots(want)->0[l],
{
    lemma_taken_in_order(r.tiles, want, r.tiles.len());
    lemma_taken_counts(r.tiles, want, r.tiles.len(), t);
    assert(r.tiles.take(r.tiles.len() as int) =~= r.tiles);
    assert(lists::occurrences(want, t) <= lists::occurrences(r.tiles, t));
}

/// The rack is the hand in its order; a draw that the hand holds leaves its
/// first place there and comes last, and no other tile moves. There is no rack
/// without a hand, and none of an empty hand.
pub proof fn law_only_the_draw_moves(hand: Option<Seq<Seq<char>>>, drawn: Option<Seq<char>>)
    ensures
        rack_of(hand, drawn) is Some <==> hand is Some && hand->0.len() > 0,
        rack_of(hand, drawn) matches Some(r) ==> (r.drawn_last <==> drawn is Some
            && hand->0.contains(drawn->0)),
        rack_of(hand, drawn) matches Some(r) ==> (!r.drawn_last ==> r.tiles == hand->0),
        rack_of(hand, drawn) matches Some(r) ==> (r.drawn_last ==> exists|i: int|
            0 <= i < hand->0.len() && #[trigger] hand->0[i] == drawn->0 && (forall|j: int|
                0 <= j < i ==> hand->0[j] != drawn->0 && r.tiles[j] == hand->0[j]) && (forall|j: int|
                i < j < hand->0.len() ==> #[trigger] hand->0[j] == r.tiles[j - 1])
                && r.tiles.last() == drawn->0 && r.tiles.len() == hand->0.len()),
{
    if hand is Some && drawn is Some {
        let h = hand->0;
        let d = drawn->0;
        lists::lemma_first_index(h, d);
        if let Some(i) = lists::first_index(h, d) {
            assert(h[i] == d);
            let moved = h.remove(i).push(h[i]);
            assert forall|j: int| 0 <= j < i implies h[j] != d && moved[j] == h[j] by {}
            assert forall|j: int| i < j < h.len() implies #[trigger] h[j] == moved[j - 1] by {}
        }
    }
}

/// The scan takes the first copies of each wanted tile, and it finds slots
/// exactly where the rack holds every wanted tile often enough.
pub proof fn law_the_scan_takes_the_first_copies(r: RackModel, want: Seq<Seq<char>>)
    requires
        r.tiles.len() <= u32::MAX,
    ensures
        r.slots(want) is Some <==> want.to_multiset().subset_of(r.tiles.to_multiset()),
        r.slots(want) matches Some(slots) ==> forall|k: int, i: int|
            #![trigger slots[k], r.tiles[i]]
            0 <= k < slots.len() && 0 <= i < slots[k] - 1 && r.tiles[i] == r.tiles[slots[k] - 1]
                ==> slots.contains((i + 1) as u32),
{
    assert forall|t: Seq<char>| #[trigger]
        lists::occurrences(want, t) == want.to_multiset().count(t) && lists::occurrences(r.tiles, t)
            == r.tiles.to_multiset().count(t) by {
        lists::law_occurrences_count_the_items(want, t);
        lists::law_occurrences_count_the_items(r.tiles, t);
    }
    if r.slots(want) is Some {
        assert forall|t: Seq<char>| #[trigger] want.to_multiset().count(t)
            <= r.tiles.to_multiset().count(t) by {
            assert(lists::occurrences(want, t) <= lists::occurrences(r.tiles, t));
        }
        let all = taken(r.tiles, want, r.tiles.len());
        let slots = r.slots(want)->0;
        lemma_taken_in_order(r.tiles, want, r.tiles.len());
        assert forall|k: int, i: int|
            #![trigger slots[k], r.tiles[i]]
            0 <= k < slots.len() && 0 <= i < slots[k] - 1 && r.tiles[i] == r.tiles[slots[k] - 1]
            implies slots.contains((i + 1) as u32) by {
            assert(slots[k] == all[k] + 1);
            lemma_taken_takes(r.tiles, want, r.tiles.len(), k);
            lemma_earlier_copies_taken(r.tiles, want, i, all[k]);
            lemma_takes_taken(r.tiles, want, r.tiles.len(), i);
            let l = choose|l: int| 0 <= l < all.len() && all[l] == i;
            assert(slots[l] == (i + 1) as u32);
        }
    } else {
        if want.to_multiset().subset_of(r.tiles.to_multiset()) {
            assert forall|t: Seq<char>| #[trigger]
                lists::occurrences(want, t) <= lists::occurrences(r.tiles, t) by {
                assert(want.to_multiset().count(t) <= r.tiles.to_multiset().count(t));
            }
        }
    }
}

proof fn lemma_taken_takes(tiles: Seq<Seq<char>>, want: Seq<Seq<char>>, n: nat, k: int)
    requires
        n <= tiles.len(),
        0 <= k < taken(tiles, want, n).len(),
    ensures
        takes(tiles, want, taken(tiles, want, n)[k]),
        0 <= taken(tiles, want, n)[k] < n,
    decreases n,
{
    if n > 0 && k < taken(tiles, want, (n - 1) as nat).len() {
        lemma_taken_takes(tiles, want, (n - 1) as nat, k);
    }
}

proof fn lemma_takes_taken(tiles: Seq<Seq<char>>, want: Seq<Seq<char>>, n: nat, i: int)
    requires
        n <= tiles.len(),
        0 <= i < n,
        takes(tiles, want, i),
    ensures
        exists|l: int| 0 <= l < taken(tiles, want, n).len() && taken(tiles, want, n)[l] == i,
    decreases n,
{
    let before = taken(tiles, want, (n - 1) as nat);
    if i == n - 1 {
        assert(taken(tiles, want, n)[before.len() as int] == i);
    } else {
        lemma_takes_taken(tiles, want, (n - 1) as nat, i);
        let l = choose|l: int| 0 <= l < before.len() && before[l] == i;
        assert(taken(tiles, want, n)[l] == i);
    }
}

proof fn lemma_earlier_copies_taken(tiles: Seq<Seq<char>>, want: Seq<Seq<char>>, i: int, j: int)
    requires
        0 <= i <= j < tiles.len(),
        tiles[i] == tiles[j],
        takes(tiles, want, j),
    ensures
        takes(tiles, want, i),
{
    lemma_occurrences_prefix(tiles, i, j, tiles[i]);
}

proof fn lemma_occurrences_prefix(tiles: Seq<Seq<char>>, i: int, j: int, t: Seq<char>)
    requires
        0 <= i <= j <= tiles.len(),
    ensures
        lists::occurrences(tiles.take(i), t) <= lists::occurrences(tiles.take(j), t),
    decreases j - i,
{
    if i < j {
        lemma_occurrences_prefix(tiles, i, j - 1, t);
        assert(tiles.take(j).drop_last() =~= tiles.take(j - 1));
    }
}

/// The slot for a kind is the first that holds a tile of the kind, counted from
/// one: a tile whose code differs at most in the mark of a red five.
pub proof fn law_the_first_of_a_kind(r: RackModel, pai: Seq<char>)
    requires
        r.tiles.len() <= u32::MAX,
        tiles::card_code(pai) is Some,
    ensures
        match r.kind_slot(pai) {
            Some(slot) => 1 <= slot <= r.tiles.len() && same_kind(r.tiles[slot - 1], pai)
                && forall|i: int| 0 <= i < slot - 1 ==> !same_kind(#[trigger] r.tiles[i], pai),
            None => forall|i: int| 0 <= i < r.tiles.len() ==> !same_kind(#[trigger] r.tiles[i], pai),
        },
{
    let kinds = r.tiles.map_values(|t: Seq<char>| kind_of(t));
    let kind = Some((tiles::card_code(pai)->0 % 256) as u32);
    lists::lemma_first_index(kinds, kind);
    assert forall|i: int| 0 <= i < r.tiles.len() implies (same_kind(#[trigger] r.tiles[i], pai)
        <==> kinds[i] == kind) by {
        lemma_same_kind(r.tiles[i], pai);
    }
}

/// Two coded tiles have the same code but for the mark of a red five.
pub open spec fn same_kind(a: Seq<char>, b: Seq<char>) -> bool {
    tiles::card_code(a) matches Some(x) && tiles::card_code(b) matches Some(y) && (x == y || x == y
        + 0x100 || y == x + 0x100)
}

proof fn lemma_same_kind(a: Seq<char>, b: Seq<char>)
    requires
        tiles::card_code(b) is Some,
    ensures
        same_kind(a, b) <==> kind_of(a) == kind_of(b),
{
}

/// The rack holds the tiles of the hand and no others; a held draw is the last.
pub proof fn law_rack_keeps_the_hand(hand: Seq<Seq<char>>, drawn: Option<Seq<char>>, t: Seq<char>)
    requires
        hand.len() > 0,
    ensures
        rack_of(Some(hand), drawn) is Some,
        ({
            let r = rack_of(Some(hand), drawn)->0;
            &&& r.tiles.len() == hand.len()
            &&& lists::occurrences(r.tiles, t) == lists::occurrences(hand, t)
            &&& r.drawn_last ==> drawn == Some(r.tiles.last())
        }),
{
    if let Some(d) = drawn {
        lists::lemma_first_index(hand, d);
        if let Some(i) = lists::first_index(hand, d) {
            lists::lemma_occurrences_remove(hand, i, t);
            let rest = hand.remove(i);
            assert(rest.push(hand[i]).drop_last() =~= rest);
        }
    }
}

} // verus!
