//! What the rest is stated over: lists counted and added up, and numbers compared.

use vstd::prelude::*;

use crate::counting;
use crate::doubles;
use crate::sorting;
use crate::text;

verus! {

/// A sum grows by what is added, and the sum of nothing is nothing.
pub proof fn a_sum_grows_by_what_is_added<T>(list: Seq<T>, item: T, of: spec_fn(T) -> int)
    ensures
        counting::total(list.push(item), of) == counting::total(list, of) + of(item),
        counting::total(Seq::<T>::empty(), of) == 0,
{
    assert(list.push(item).drop_last() =~= list);
}

/// A count grows by one with an item that passes, and by nothing with one that does not.
pub proof fn a_count_grows_by_what_passes<T>(list: Seq<T>, item: T, test: spec_fn(T) -> bool)
    ensures
        test(item) ==> counting::how_many(list.push(item), test) == counting::how_many(list, test)
            + 1,
        !test(item) ==> counting::how_many(list.push(item), test) == counting::how_many(list, test),
        counting::how_many(Seq::<T>::empty(), test) == 0,
{
    assert(list.push(item).drop_last() =~= list);
}

/// The first of a list that has something to give gives it: nothing before it does, and where none
/// does there is nothing.
pub proof fn the_first_that_has_it_gives_it<T, U>(
    list: Seq<T>,
    of: spec_fn(T) -> Option<U>,
    at: int,
)
    requires
        0 <= at < list.len(),
        forall|k: int| 0 <= k < at ==> of(#[trigger] list[k]) is None,
    ensures
        of(list[at]) is Some ==> counting::first_some(list, of) == of(list[at]),
        (forall|k: int| 0 <= k < list.len() ==> of(#[trigger] list[k]) is None)
            ==> counting::first_some(list, of) is None,
    decreases list.len(),
{
    let front = list.drop_last();
    assert forall|k: int| 0 <= k < at implies of(#[trigger] list[k]) is None by {}
    if at < list.len() - 1 {
        assert forall|k: int| 0 <= k < at implies of(#[trigger] front[k]) is None by {
            assert(front[k] == list[k]);
        }
        the_first_that_has_it_gives_it(front, of, at);
        assert(front[at] == list[at]);
        if forall|k: int| 0 <= k < list.len() ==> of(#[trigger] list[k]) is None {
            assert forall|k: int| 0 <= k < front.len() implies of(#[trigger] front[k]) is None by {
                assert(front[k] == list[k]);
            }
            assert(of(list[list.len() - 1]) is None);
        }
    } else {
        none_gives_nothing(front, of);
    }
}

proof fn none_gives_nothing<T, U>(list: Seq<T>, of: spec_fn(T) -> Option<U>)
    ensures
        (forall|k: int| 0 <= k < list.len() ==> of(#[trigger] list[k]) is None)
            ==> counting::first_some(list, of) is None,
    decreases list.len(),
{
    if list.len() > 0 && (forall|k: int| 0 <= k < list.len() ==> of(#[trigger] list[k]) is None) {
        let front = list.drop_last();
        assert forall|k: int| 0 <= k < front.len() implies of(#[trigger] front[k]) is None by {
            assert(front[k] == list[k]);
        }
        none_gives_nothing(front, of);
        assert(of(list[list.len() - 1]) is None);
    }
}

/// Of the doubles that are not negative and are numbers, the greater has the greater bits: it comes
/// later, and reaches what the lesser reaches.
pub proof fn ordinary_doubles_are_in_the_order_of_their_bits(a: u64, b: u64)
    requires
        a <= 0x7ff0_0000_0000_0000,
        b <= 0x7ff0_0000_0000_0000,
    ensures
        doubles::reaches(a, b) == (a >= b),
        doubles::ranks_before(a, b) == (a < b),
{
}

/// A negative double is below every double that is not, and of two negative ones the one with the
/// greater bits is below; what is no number reaches none and is reached by none.
pub proof fn negative_doubles_are_below(a: u64, b: u64, c: u64, other: u64)
    requires
        0x8000_0000_0000_0000 < a <= 0xfff0_0000_0000_0000,
        a <= b <= 0xfff0_0000_0000_0000,
        c <= 0x7ff0_0000_0000_0000,
    ensures
        !doubles::reaches(a, c),
        doubles::reaches(c, a),
        doubles::ranks_before(a, c),
        doubles::reaches(a, b),
        doubles::reaches(b, a) == (a == b),
        0x7ff0_0000_0000_0000 < other < 0x8000_0000_0000_0000 || other > 0xfff0_0000_0000_0000
            ==> !doubles::reaches(other, c) && !doubles::reaches(c, other),
        doubles::reaches(0, 0x8000_0000_0000_0000) && doubles::reaches(0x8000_0000_0000_0000, 0),
{
}

/// The texts of strings are theirs, in their places.
pub proof fn texts_are_in_their_places(list: Seq<String>)
    ensures
        text::texts(list).len() == list.len(),
        forall|i: int| 0 <= i < list.len() ==> #[trigger] text::texts(list)[i] == list[i]@,
{
}

/// A test counts as many in a list as in the list sorted.
pub proof fn sorting_keeps_the_counts<T>(
    list: Seq<T>,
    lt: spec_fn(T, T) -> bool,
    test: spec_fn(T) -> bool,
)
    ensures
        counting::how_many(sorting::sorted(list, lt), test) == counting::how_many(list, test),
    decreases list.len(),
{
    if list.len() > 0 {
        let front = sorting::sorted(list.drop_last(), lt);
        sorting_keeps_the_counts(list.drop_last(), lt, test);
        sorting::place_is_inside(front, list.last(), lt);
        one_put_in_counts(front, sorting::place(front, list.last(), lt), list.last(), test);
    }
}

proof fn one_put_in_counts<T>(list: Seq<T>, at: int, item: T, test: spec_fn(T) -> bool)
    requires
        0 <= at <= list.len(),
    ensures
        counting::how_many(list.insert(at, item), test) == counting::how_many(list, test) + if test(
            item,
        ) {
            1nat
        } else {
            0nat
        },
    decreases list.len(),
{
    let whole = list.insert(at, item);
    if at == list.len() {
        assert(whole.drop_last() =~= list);
    } else {
        assert(whole.drop_last() =~= list.drop_last().insert(at, item));
        assert(whole.last() == list.last());
        one_put_in_counts(list.drop_last(), at, item, test);
    }
}

/// Where as many different places are taken as there are, every place is.
pub proof fn all_places_are_taken(taken: Seq<int>, n: nat, at: int)
    requires
        taken.no_duplicates(),
        taken.len() == n,
        forall|k: int| 0 <= k < taken.len() ==> 0 <= #[trigger] taken[k] < n,
        0 <= at < n,
    ensures
        taken.contains(at),
{
    let places = vstd::set_lib::set_int_range(0, n as int);
    vstd::set_lib::lemma_int_range(0, n as int);
    taken.unique_seq_to_set();
    assert(taken.to_set().subset_of(places)) by {
        assert forall|p: int| taken.to_set().contains(p) implies places.contains(p) by {
            let k = choose|k: int| 0 <= k < taken.len() && taken[k] == p;
            assert(0 <= taken[k] < n);
        }
    }
    if !taken.contains(at) {
        let rest = places.remove(at);
        assert(taken.to_set().subset_of(rest));
        vstd::set_lib::lemma_len_subset(taken.to_set(), rest);
    }
}

/// Two tests that no item passes both of count together what both count.
pub proof fn counts_of_parts_add_up<T>(
    list: Seq<T>,
    a: spec_fn(T) -> bool,
    b: spec_fn(T) -> bool,
    both: spec_fn(T) -> bool,
)
    requires
        forall|k: int|
            0 <= k < list.len() ==> both(#[trigger] list[k]) == (a(list[k]) || b(list[k])) && !(a(
                list[k],
            ) && b(list[k])),
    ensures
        counting::how_many(list, both) == counting::how_many(list, a) + counting::how_many(list, b),
    decreases list.len(),
{
    if list.len() > 0 {
        let front = list.drop_last();
        assert forall|k: int| 0 <= k < front.len() implies both(#[trigger] front[k]) == (a(front[k])
            || b(front[k])) && !(a(front[k]) && b(front[k])) by {
            assert(front[k] == list[k]);
        }
        counts_of_parts_add_up(front, a, b, both);
        let last = list[list.len() - 1];
        assert(both(last) == (a(last) || b(last)) && !(a(last) && b(last)));
    }
}

/// Tests that say the same of every item count the same.
pub proof fn same_tests_count_the_same<T>(
    list: Seq<T>,
    a: spec_fn(T) -> bool,
    b: spec_fn(T) -> bool,
)
    requires
        forall|k: int| 0 <= k < list.len() ==> a(#[trigger] list[k]) == b(list[k]),
    ensures
        counting::how_many(list, a) == counting::how_many(list, b),
    decreases list.len(),
{
    if list.len() > 0 {
        let front = list.drop_last();
        assert forall|k: int| 0 <= k < front.len() implies a(#[trigger] front[k]) == b(front[k]) by {
            assert(front[k] == list[k]);
        }
        same_tests_count_the_same(front, a, b);
        let last = list[list.len() - 1];
        assert(a(last) == b(last));
    }
}

/// Where the first items of a list all pass a test, it counts no fewer than them.
pub proof fn the_first_are_counted<T>(list: Seq<T>, test: spec_fn(T) -> bool, n: int)
    requires
        0 <= n <= list.len(),
        forall|k: int| 0 <= k < n ==> test(#[trigger] list[k]),
    ensures
        counting::how_many(list, test) >= n,
    decreases list.len(),
{
    if list.len() > 0 {
        let front = list.drop_last();
        let m = if n == list.len() {
            n - 1
        } else {
            n
        };
        assert forall|k: int| 0 <= k < m implies test(#[trigger] front[k]) by {
            assert(front[k] == list[k]);
        }
        the_first_are_counted(front, test, m);
        if n == list.len() {
            assert(test(list[list.len() - 1]));
        }
    }
}

/// Where the last items of a list all pass a test, it counts no fewer than them.
pub proof fn the_last_are_counted<T>(list: Seq<T>, test: spec_fn(T) -> bool, from: int)
    requires
        0 <= from <= list.len(),
        forall|k: int| from <= k < list.len() ==> test(#[trigger] list[k]),
    ensures
        counting::how_many(list, test) >= list.len() - from,
    decreases list.len(),
{
    if from < list.len() {
        let front = list.drop_last();
        assert forall|k: int| from <= k < front.len() implies test(#[trigger] front[k]) by {
            assert(front[k] == list[k]);
        }
        the_last_are_counted(front, test, from);
        assert(test(list[list.len() - 1]));
    }
}

/// What the items of a list give, those that give something, in order.
pub open spec fn gathered<T, U>(list: Seq<T>, of: spec_fn(T) -> Option<U>) -> Seq<U>
    decreases list.len(),
{
    if list.len() == 0 {
        Seq::empty()
    } else {
        match of(list.last()) {
            Some(one) => gathered(list.drop_last(), of).push(one),
            None => gathered(list.drop_last(), of),
        }
    }
}

/// What is gathered is of the items that give something, all of them, once each and in order.
pub proof fn what_is_gathered_is_in_order<T, U>(list: Seq<T>, of: spec_fn(T) -> Option<U>) -> (at:
    Seq<int>)
    ensures
        at.len() == gathered(list, of).len(),
        forall|k: int|
            0 <= k < at.len() ==> 0 <= #[trigger] at[k] < list.len() && of(list[at[k]]) == Some(
                gathered(list, of)[k],
            ),
        forall|j: int, k: int| 0 <= j < k < at.len() ==> #[trigger] at[j] < #[trigger] at[k],
        forall|i: int| 0 <= i < list.len() && of(#[trigger] list[i]) is Some ==> at.contains(i),
    decreases list.len(),
{
    if list.len() == 0 {
        Seq::empty()
    } else {
        let n = list.len() - 1;
        let front = list.drop_last();
        let before = what_is_gathered_is_in_order(front, of);
        let at = if of(list.last()) is Some {
            before.push(n)
        } else {
            before
        };
        assert forall|k: int| 0 <= k < before.len() implies 0 <= #[trigger] before[k] < n && of(
            list[before[k]],
        ) == Some(gathered(front, of)[k]) by {
            assert(front[before[k]] == list[before[k]]);
        }
        assert forall|i: int| 0 <= i < list.len() && of(#[trigger] list[i]) is Some implies at.contains(
            i,
        ) by {
            if i < n {
                assert(front[i] == list[i]);
                assert(before.contains(i));
                let k = choose|k: int| 0 <= k < before.len() && before[k] == i;
                assert(at[k] == i);
            } else {
                assert(at[before.len() as int] == i);
            }
        }
        at
    }
}

} // verus!
