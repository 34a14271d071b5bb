//! Putting items in order by a text that each of them carries: the items
//! are named by their positions, the texts are compared as in a
//! dictionary, and items with the same text keep the order they had.

use crate::text::{chars_le, lemma_lex_le_total, lemma_lex_le_transitive, lex_le, texts};
use vstd::prelude::*;

verus! {

/// The numbers that a list of positions holds.
pub open spec fn positions(list: Seq<usize>) -> Seq<int> {
    list.map_values(|k: usize| k as int)
}

/// Whether every position of `list` is below `n` and none stands twice.
pub open spec fn are_distinct_below(list: Seq<int>, n: int) -> bool {
    &&& forall|i: int| 0 <= i < list.len() ==> 0 <= #[trigger] list[i] < n
    &&& list.no_duplicates()
}

/// Whether the item with the key `first` may stand before the item with
/// the key `second`: in rising order where its key does not come after
/// the other, in falling order where it does not come before it.
pub open spec fn may_precede(first: Seq<char>, second: Seq<char>, falling: bool) -> bool {
    if falling {
        lex_le(second, first)
    } else {
        lex_le(first, second)
    }
}

/// `sorted` with the position `k` put behind the last position that may
/// stand before it.
pub open spec fn inserted_by_key(
    sorted: Seq<int>,
    keys: Seq<Seq<char>>,
    k: int,
    falling: bool,
) -> Seq<int>
    decreases sorted.len(),
{
    if sorted.len() > 0 && !may_precede(keys[sorted.last()], keys[k], falling) {
        inserted_by_key(sorted.drop_last(), keys, k, falling).push(sorted.last())
    } else {
        sorted.push(k)
    }
}

/// The given positions in the order of their keys. Positions with the
/// same key keep the order in which they were given.
pub open spec fn sorted_by_key(list: Seq<int>, keys: Seq<Seq<char>>, falling: bool) -> Seq<int>
    decreases list.len(),
{
    if list.len() == 0 {
        Seq::empty()
    } else {
        inserted_by_key(sorted_by_key(list.drop_last(), keys, falling), keys, list.last(), falling)
    }
}

/// Whether the keys at the positions of `list` stand in order.
pub open spec fn is_ordered_by_key(list: Seq<int>, keys: Seq<Seq<char>>, falling: bool) -> bool {
    forall|i: int, j: int|
        0 <= i < j < list.len() ==> may_precede(
            keys[#[trigger] list[i]],
            keys[#[trigger] list[j]],
            falling,
        )
}

/// The positions from zero up to `n`, in rising order.
pub open spec fn all_positions(n: int) -> Seq<int> {
    Seq::new(n as nat, |i: int| i)
}

/// A list with one more position holds what it held and that position.
pub proof fn lemma_push_contains(list: Seq<int>, k: int)
    ensures
        forall|x: int| #[trigger] list.push(k).contains(x) <==> list.contains(x) || x == k,
{
    let longer = list.push(k);
    assert forall|x: int| #[trigger] longer.contains(x) <==> list.contains(x) || x == k by {
        if list.contains(x) {
            let i = choose|i: int| 0 <= i < list.len() && list[i] == x;
            assert(longer[i] == x);
        }
        if x == k {
            assert(longer[list.len() as int] == x);
        }
    }
}

/// A list without repetitions stays so when it gets a position that it
/// lacks.
pub proof fn lemma_push_distinct(list: Seq<int>, k: int)
    requires
        list.no_duplicates(),
        !list.contains(k),
    ensures
        list.push(k).no_duplicates(),
{
    let longer = list.push(k);
    assert forall|i: int, j: int|
        0 <= i < longer.len() && 0 <= j < longer.len() && i != j implies longer[i]
        != longer[j] by {
        if i < list.len() {
            assert(list.contains(list[i]));
        }
        if j < list.len() {
            assert(list.contains(list[j]));
        }
    }
}

/// Where a position goes that is put into a list by key: behind the
/// positions up to `at`, before the others.
pub proof fn lemma_inserted_at(
    sorted: Seq<int>,
    keys: Seq<Seq<char>>,
    k: int,
    falling: bool,
    at: int,
)
    requires
        0 <= at <= sorted.len(),
        forall|j: int|
            at <= j < sorted.len() ==> !may_precede(keys[#[trigger] sorted[j]], keys[k], falling),
        at == 0 || may_precede(keys[sorted[at - 1]], keys[k], falling),
    ensures
        inserted_by_key(sorted, keys, k, falling) == sorted.insert(at, k),
    decreases sorted.len() - at,
{
    if at == sorted.len() {
        assert(sorted.insert(at, k) == sorted.push(k));
    } else {
        let rest = sorted.drop_last();
        assert(!may_precede(keys[sorted[sorted.len() - 1]], keys[k], falling));
        assert forall|j: int| at <= j < rest.len() implies !may_precede(
            keys[#[trigger] rest[j]],
            keys[k],
            falling,
        ) by {
            assert(rest[j] == sorted[j]);
        }
        lemma_inserted_at(rest, keys, k, falling, at);
        assert(rest.insert(at, k).push(sorted.last()) == sorted.insert(at, k));
    }
}

/// Putting a position into a list by key adds that position and nothing
/// else, and keeps a list in order that was in order.
pub proof fn lemma_inserted_by_key(sorted: Seq<int>, keys: Seq<Seq<char>>, k: int, falling: bool)
    ensures
        inserted_by_key(sorted, keys, k, falling).len() == sorted.len() + 1,
        forall|x: int| #[trigger]
            inserted_by_key(sorted, keys, k, falling).contains(x) <==> sorted.contains(x) || x
                == k,
        sorted.no_duplicates() && !sorted.contains(k) ==> inserted_by_key(
            sorted,
            keys,
            k,
            falling,
        ).no_duplicates(),
        is_ordered_by_key(sorted, keys, falling) ==> is_ordered_by_key(
            inserted_by_key(sorted, keys, k, falling),
            keys,
            falling,
        ),
    decreases sorted.len(),
{
    let out = inserted_by_key(sorted, keys, k, falling);
    if sorted.len() > 0 && !may_precede(keys[sorted.last()], keys[k], falling) {
        let rest = sorted.drop_last();
        let last = sorted.last();
        let inner = inserted_by_key(rest, keys, k, falling);
        lemma_inserted_by_key(rest, keys, k, falling);
        lemma_push_contains(inner, last);
        lemma_push_contains(rest, last);
        assert(rest.push(last) == sorted);
        if sorted.no_duplicates() && !sorted.contains(k) {
            assert(!rest.contains(last)) by {
                if rest.contains(last) {
                    let i = choose|i: int| 0 <= i < rest.len() && rest[i] == last;
                    assert(sorted[i] == sorted[sorted.len() - 1]);
                }
            }
            lemma_push_distinct(inner, last);
        }
        if is_ordered_by_key(sorted, keys, falling) {
            assert(is_ordered_by_key(rest, keys, falling)) by {
                assert forall|i: int, j: int| 0 <= i < j < rest.len() implies may_precede(
                    keys[#[trigger] rest[i]],
                    keys[#[trigger] rest[j]],
                    falling,
                ) by {
                    assert(rest[i] == sorted[i] && rest[j] == sorted[j]);
                }
            }
            lemma_lex_le_total(keys[last], keys[k]);
            assert forall|i: int, j: int| 0 <= i < j < out.len() implies may_precede(
                keys[#[trigger] out[i]],
                keys[#[trigger] out[j]],
                falling,
            ) by {
                if j == out.len() - 1 {
                    assert(inner.contains(inner[i]));
                    if inner[i] != k {
                        let at = choose|at: int| 0 <= at < rest.len() && rest[at] == inner[i];
                        assert(sorted[at] == inner[i]);
                    }
                }
            }
        }
    } else {
        lemma_push_contains(sorted, k);
        if sorted.no_duplicates() && !sorted.contains(k) {
            lemma_push_distinct(sorted, k);
        }
        if is_ordered_by_key(sorted, keys, falling) && sorted.len() > 0 {
            let last = sorted.last();
            assert forall|i: int, j: int| 0 <= i < j < out.len() implies may_precede(
                keys[#[trigger] out[i]],
                keys[#[trigger] out[j]],
                falling,
            ) by {
                if j == out.len() - 1 && i < sorted.len() - 1 {
                    assert(may_precede(keys[sorted[i]], keys[sorted[sorted.len() - 1]], falling));
                    if falling {
                        lemma_lex_le_transitive(keys[k], keys[last], keys[sorted[i]]);
                    } else {
                        lemma_lex_le_transitive(keys[sorted[i]], keys[last], keys[k]);
                    }
                }
            }
        }
    }
}

/// Sorting by key keeps the positions and puts them in order: the result
/// holds what the list holds, repeats nothing that the list does not
/// repeat, and its keys stand in order.
pub proof fn lemma_sorted_by_key(list: Seq<int>, keys: Seq<Seq<char>>, falling: bool)
    ensures
        sorted_by_key(list, keys, falling).len() == list.len(),
        forall|x: int| #[trigger]
            sorted_by_key(list, keys, falling).contains(x) <==> list.contains(x),
        list.no_duplicates() ==> sorted_by_key(list, keys, falling).no_duplicates(),
        is_ordered_by_key(sorted_by_key(list, keys, falling), keys, falling),
    decreases list.len(),
{
    if list.len() > 0 {
        let rest = list.drop_last();
        let sorted = sorted_by_key(rest, keys, falling);
        lemma_sorted_by_key(rest, keys, falling);
        lemma_inserted_by_key(sorted, keys, list.last(), falling);
        lemma_push_contains(rest, list.last());
        assert(rest.push(list.last()) == list);
        if list.no_duplicates() {
            assert(!rest.contains(list.last())) by {
                if rest.contains(list.last()) {
                    let i = choose|i: int| 0 <= i < rest.len() && rest[i] == list.last();
                    assert(list[i] == list[list.len() - 1]);
                }
            }
        }
    }
}

/// Whether `list` holds the position `k`.
pub fn holds_position(list: &Vec<usize>, k: usize) -> (found: bool)
    ensures
        found == positions(list@).contains(k as int),
{
    let mut i: usize = 0;
    while i < list.len()
        invariant
            i <= list.len(),
            forall|j: int| 0 <= j < i ==> positions(list@)[j] != k,
        decreases list.len() - i,
    {
        if list[i] == k {
            assert(positions(list@)[i as int] == k);
            return true;
        }
        i += 1;
    }
    false
}

/// Whether the item with the key `first` may stand before the item with
/// the key `second`.
fn key_may_precede(first: &Vec<char>, second: &Vec<char>, falling: bool) -> (yes: bool)
    ensures
        yes == may_precede(first@, second@, falling),
{
    if falling {
        chars_le(second, first)
    } else {
        chars_le(first, second)
    }
}

/// Puts the position `k` into a list of positions by key.
fn insert_by_key(sorted: &mut Vec<usize>, keys: &Vec<Vec<char>>, k: usize, falling: bool)
    requires
        k < keys.len(),
        forall|i: int| 0 <= i < old(sorted).len() ==> old(sorted)@[i] < keys.len(),
    ensures
        positions(final(sorted)@) == inserted_by_key(
            positions(old(sorted)@),
            texts(keys@),
            k as int,
            falling,
        ),
        forall|i: int| 0 <= i < final(sorted).len() ==> final(sorted)@[i] < keys.len(),
{
    let mut at: usize = sorted.len();
    while at > 0 && !key_may_precede(&keys[sorted[at - 1]], &keys[k], falling)
        invariant
            at <= sorted.len(),
            k < keys.len(),
            forall|i: int| 0 <= i < sorted.len() ==> sorted@[i] < keys.len(),
            forall|j: int|
                at <= j < sorted.len() ==> !may_precede(
                    texts(keys@)[#[trigger] positions(sorted@)[j]],
                    texts(keys@)[k as int],
                    falling,
                ),
        decreases at,
    {
        at -= 1;
    }
    proof {
        lemma_inserted_at(positions(sorted@), texts(keys@), k as int, falling, at as int);
    }
    let ghost before = positions(sorted@);
    sorted.insert(at, k);
    assert(positions(sorted@) == before.insert(at as int, k as int));
}

/// The given positions in the order of their keys, rising or falling.
/// Positions with the same key keep the order in which they were given.
pub fn sort_positions(list: &Vec<usize>, keys: &Vec<Vec<char>>, falling: bool) -> (sorted: Vec<usize>)
    requires
        forall|i: int| 0 <= i < list.len() ==> list@[i] < keys.len(),
    ensures
        positions(sorted@) == sorted_by_key(positions(list@), texts(keys@), falling),
{
    let mut sorted: Vec<usize> = Vec::new();
    let mut i: usize = 0;
    while i < list.len()
        invariant
            i <= list.len(),
            forall|j: int| 0 <= j < list.len() ==> list@[j] < keys.len(),
            forall|j: int| 0 <= j < sorted.len() ==> sorted@[j] < keys.len(),
            positions(sorted@) == sorted_by_key(
                positions(list@).take(i as int),
                texts(keys@),
                falling,
            ),
        decreases list.len() - i,
    {
        proof {
            let given = positions(list@);
            assert(given.take(i + 1).drop_last() == given.take(i as int));
            assert(given.take(i + 1).last() == list@[i as int]);
        }
        insert_by_key(&mut sorted, keys, list[i], falling);
        i += 1;
    }
    assert(positions(list@).take(i as int) == positions(list@));
    sorted
}

/// The items at the given positions, in the order of the positions.
pub fn take_in_order<T>(items: Vec<T>, order: &Vec<usize>) -> (taken: Vec<T>)
    requires
        are_distinct_below(positions(order@), items.len() as int),
    ensures
        taken.len() == order.len(),
        forall|i: int| 0 <= i < order.len() ==> taken@[i] == items@[order@[i] as int],
{
    let mut slots: Vec<Option<T>> = Vec::new();
    for item in it: items
        invariant
            it.seq() == items@,
            slots.len() == it.index(),
            forall|k: int| 0 <= k < slots.len() ==> slots@[k] == Some(items@[k]),
    {
        slots.push(Some(item));
    }
    let mut taken: Vec<T> = Vec::new();
    let mut i: usize = 0;
    while i < order.len()
        invariant
            i <= order.len(),
            slots.len() == items.len(),
            taken.len() == i,
            are_distinct_below(positions(order@), items.len() as int),
            forall|k: int|
                0 <= k < slots.len() ==> #[trigger] slots@[k] == if positions(order@).take(
                    i as int,
                ).contains(k) {
                    None
                } else {
                    Some(items@[k])
                },
            forall|j: int| 0 <= j < i ==> taken@[j] == items@[order@[j] as int],
        decreases order.len() - i,
    {
        let k = order[i];
        let ghost before = positions(order@).take(i as int);
        proof {
            assert(positions(order@)[i as int] == k);
            assert(!before.contains(k as int)) by {
                if before.contains(k as int) {
                    let j = choose|j: int| 0 <= j < before.len() && before[j] == k as int;
                    assert(positions(order@)[j] == positions(order@)[i as int]);
                }
            }
            assert(positions(order@).take(i + 1) == before.push(k as int));
            lemma_push_contains(before, k as int);
        }
        let slot = slots[k].take();
        match slot {
            Some(item) => {
                taken.push(item);
            },
            None => {},
        }
        i += 1;
    }
    taken
}

} // verus!
