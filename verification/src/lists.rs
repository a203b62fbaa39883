//! Lists: first places and counts.
use crate::text;
use vstd::prelude::*;

verus! {

/// The first place of `t` in the list.
pub open spec fn first_index<T>(list: Seq<T>, t: T) -> Option<int>
    decreases list.len(),
{
    if list.len() == 0 {
        None
    } else {
        match first_index(list.drop_last(), t) {
            Some(i) => Some(i),
            None => if list.last() == t {
                Some(list.len() - 1)
            } else {
                None
            },
        }
    }
}

/// How often the list holds `t`.
pub open spec fn occurrences<T>(list: Seq<T>, t: T) -> int
    decreases list.len(),
{
    if list.len() == 0 {
        0
    } else {
        occurrences(list.drop_last(), t) + if list.last() == t {
            1int
        } else {
            0
        }
    }
}

/// A first place holds `t`, no earlier place does, and without a first place
/// none does.
pub proof fn lemma_first_index<T>(list: Seq<T>, t: T)
    ensures
        match first_index(list, t) {
            Some(i) => 0 <= i < list.len() && list[i] == t && forall|j: int|
                0 <= j < i ==> #[trigger] list[j] != t,
            None => forall|j: int| 0 <= j < list.len() ==> #[trigger] list[j] != t,
        },
    decreases list.len(),
{
    if list.len() > 0 {
        lemma_first_index(list.drop_last(), t);
        match first_index(list.drop_last(), t) {
            Some(i) => {
                assert(list[i] == list.drop_last()[i]);
                assert forall|j: int| 0 <= j < i implies #[trigger] list[j] != t by {
                    assert(list[j] == list.drop_last()[j]);
                }
            },
            None => {
                assert forall|j: int| 0 <= j < list.len() - 1 implies #[trigger] list[j] != t by {
                    assert(list[j] == list.drop_last()[j]);
                }
            },
        }
    }
}

/// A first place stays the first place when the list grows.
pub proof fn lemma_first_index_stays<T>(list: Seq<T>, k: int, t: T)
    requires
        0 <= k <= list.len(),
        first_index(list.take(k), t) is Some,
    ensures
        first_index(list, t) == first_index(list.take(k), t),
    decreases list.len(),
{
    if k == list.len() {
        assert(list.take(k) =~= list);
    } else {
        assert(list.drop_last().take(k) =~= list.take(k));
        lemma_first_index_stays(list.drop_last(), k, t);
    }
}

pub proof fn lemma_occurrences<T>(list: Seq<T>, t: T)
    ensures
        0 <= occurrences(list, t) <= list.len(),
        occurrences(list, t) == 0 <==> first_index(list, t) is None,
    decreases list.len(),
{
    if list.len() > 0 {
        lemma_occurrences(list.drop_last(), t);
    }
}

/// Taking one item out of a list lowers its count by one, and no other.
pub proof fn lemma_occurrences_remove<T>(list: Seq<T>, k: int, t: T)
    requires
        0 <= k < list.len(),
    ensures
        occurrences(list.remove(k), t) == occurrences(list, t) - if list[k] == t {
            1int
        } else {
            0
        },
    decreases list.len(),
{
    if k == list.len() - 1 {
        assert(list.remove(k) =~= list.drop_last());
    } else {
        lemma_occurrences_remove(list.drop_last(), k, t);
        assert(list.remove(k).drop_last() =~= list.drop_last().remove(k));
        assert(list.remove(k).last() == list.last());
    }
}

/// Counts are those of the multiset of the list.
pub proof fn law_occurrences_count_the_items<T>(list: Seq<T>, t: T)
    ensures
        occurrences(list, t) == list.to_multiset().count(t),
    decreases list.len(),
{
    broadcast use vstd::seq_lib::group_to_multiset_ensures;

    if list.len() > 0 {
        law_occurrences_count_the_items(list.drop_last(), t);
        assert(list =~= list.drop_last().push(list.last()));
    }
}

/// Lists that hold every item equally often are equally long.
pub proof fn law_same_counts_same_length<T>(a: Seq<T>, b: Seq<T>)
    requires
        forall|t: T| #[trigger] occurrences(a, t) == occurrences(b, t),
    ensures
        a.len() == b.len(),
{
    broadcast use vstd::seq_lib::group_to_multiset_ensures;

    assert forall|t: T| #[trigger] a.to_multiset().count(t) == b.to_multiset().count(t) by {
        law_occurrences_count_the_items(a, t);
        law_occurrences_count_the_items(b, t);
        assert(occurrences(a, t) == occurrences(b, t));
    }
    assert(a.to_multiset() =~= b.to_multiset());
    assert(a.to_multiset().len() == a.len() && b.to_multiset().len() == b.len());
}

/// Where `t` first stands among the first `end` entries of `list`.
pub fn first_place(list: &Vec<String>, end: usize, t: &str) -> (place: Option<usize>)
    requires
        end <= list@.len(),
    ensures
        match place {
            Some(i) => i < end && first_index(text::texts(list@).take(end as int), t@) == Some(
                i as int,
            ),
            None => first_index(text::texts(list@).take(end as int), t@) is None,
        },
{
    let ghost all = text::texts(list@).take(end as int);
    let mut i: usize = 0;
    while i < end
        invariant
            i <= end <= list@.len(),
            all == text::texts(list@).take(end as int),
            first_index(all.take(i as int), t@) is None,
        decreases end - i,
    {
        assert(all.take(i + 1).drop_last() =~= all.take(i as int));
        if text::same_text(list[i].as_str(), t) {
            proof {
                lemma_first_index_stays(all, i + 1, t@);
            }
            return Some(i);
        }
        i = i + 1;
    }
    assert(all.take(end as int) =~= all);
    None
}

} // verus!
