//! Counts and sums over lists.

use vstd::prelude::*;

verus! {

/// A number of each item, over all items.
pub open spec fn total<T>(list: Seq<T>, of: spec_fn(T) -> int) -> int
    decreases list.len(),
{
    if list.len() == 0 {
        0
    } else {
        total(list.drop_last(), of) + of(list.last())
    }
}

/// How many items a test counts.
pub open spec fn how_many<T>(list: Seq<T>, test: spec_fn(T) -> bool) -> nat
    decreases list.len(),
{
    if list.len() == 0 {
        0
    } else {
        how_many(list.drop_last(), test) + if test(list.last()) {
            1nat
        } else {
            0nat
        }
    }
}

/// The first thing that an item gives.
pub open spec fn first_some<T, U>(list: Seq<T>, of: spec_fn(T) -> Option<U>) -> Option<U>
    decreases list.len(),
{
    if list.len() == 0 {
        None
    } else {
        match first_some(list.drop_last(), of) {
            Some(found) => Some(found),
            None => of(list.last()),
        }
    }
}

pub proof fn one_more<T>(list: Seq<T>, n: int)
    requires
        0 <= n < list.len(),
    ensures
        list.take(n + 1).drop_last() == list.take(n),
        list.take(n + 1).last() == list[n],
{
    assert(list.take(n + 1).drop_last() =~= list.take(n));
}

/// The first `n` of a list and one more hold what the first `n` hold, and the one.
pub proof fn holds_one_more<T>(list: Seq<T>, n: int)
    requires
        0 <= n < list.len(),
    ensures
        forall|item: T| #[trigger]
            list.take(n + 1).contains(item) == (list.take(n).contains(item) || item == list[n]),
{
    let longer = list.take(n + 1);
    let shorter = list.take(n);
    assert forall|item: T| #[trigger]
        longer.contains(item) == (shorter.contains(item) || item == list[n]) by {
        if shorter.contains(item) {
            let i = choose|i: int| 0 <= i < shorter.len() && shorter[i] == item;
            assert(longer[i] == item);
        }
        if item == list[n] {
            assert(longer[n] == item);
        }
        if longer.contains(item) {
            let i = choose|i: int| 0 <= i < longer.len() && longer[i] == item;
            if i < n {
                assert(shorter[i] == item);
            }
        }
    }
}

pub proof fn take_all<T>(list: Seq<T>)
    ensures
        list.take(list.len() as int) == list,
{
    assert(list.take(list.len() as int) =~= list);
}

pub proof fn how_many_is_bounded<T>(list: Seq<T>, test: spec_fn(T) -> bool)
    ensures
        how_many(list, test) <= list.len(),
    decreases list.len(),
{
    if list.len() > 0 {
        how_many_is_bounded(list.drop_last(), test);
    }
}

/// A sum of natural numbers grows with the list.
pub proof fn total_of_a_part<T>(list: Seq<T>, of: spec_fn(T) -> int, n: int)
    requires
        0 <= n <= list.len(),
        forall|item: T| 0 <= #[trigger] of(item),
    ensures
        0 <= total(list.take(n), of) <= total(list, of),
    decreases list.len(),
{
    if list.len() == 0 {
        take_all(list);
    } else if n == list.len() {
        take_all(list);
        total_of_a_part(list.drop_last(), of, n - 1);
        assert(0 <= of(list.last()));
    } else {
        assert(list.drop_last().take(n) =~= list.take(n));
        total_of_a_part(list.drop_last(), of, n);
        assert(0 <= of(list.last()));
    }
}

pub proof fn how_many_joins<T>(a: Seq<T>, b: Seq<T>, test: spec_fn(T) -> bool)
    ensures
        how_many(a + b, test) == how_many(a, test) + how_many(b, test),
    decreases b.len(),
{
    if b.len() == 0 {
        assert(a + b =~= a);
    } else {
        assert((a + b).drop_last() =~= a + b.drop_last());
        how_many_joins(a, b.drop_last(), test);
    }
}

/// Where no item passes a test, the test counts none.
pub proof fn how_many_is_none<T>(list: Seq<T>, test: spec_fn(T) -> bool)
    requires
        forall|k: int| 0 <= k < list.len() ==> !test(#[trigger] list[k]),
    ensures
        how_many(list, test) == 0,
    decreases list.len(),
{
    if list.len() > 0 {
        assert(!test(list[list.len() - 1]));
        assert forall|k: int| 0 <= k < list.drop_last().len() implies !test(
            #[trigger] list.drop_last()[k],
        ) by {
            assert(list.drop_last()[k] == list[k]);
        }
        how_many_is_none(list.drop_last(), test);
    }
}

/// Where one item alone passes a test, the test counts one.
pub proof fn how_many_is_one<T>(list: Seq<T>, test: spec_fn(T) -> bool, at: int)
    requires
        0 <= at < list.len(),
        forall|k: int| 0 <= k < list.len() ==> test(#[trigger] list[k]) == (k == at),
    ensures
        how_many(list, test) == 1,
    decreases list.len(),
{
    let front = list.drop_last();
    let last = list.len() - 1;
    assert(test(list[last]) == (last == at));
    assert forall|k: int| 0 <= k < front.len() implies test(#[trigger] front[k]) == (k == at) by {
        assert(front[k] == list[k]);
    }
    if at == last {
        how_many_is_none(front, test);
    } else {
        how_many_is_one(front, test, at);
    }
}

/// Where every item passes a test, the test counts them all.
pub proof fn how_many_is_all<T>(list: Seq<T>, test: spec_fn(T) -> bool)
    requires
        forall|item: T| #[trigger] test(item),
    ensures
        how_many(list, test) == list.len(),
    decreases list.len(),
{
    if list.len() > 0 {
        how_many_is_all(list.drop_last(), test);
    }
}

/// A sum of as many words as a list can hold fits in two words.
pub proof fn room(n: int)
    requires
        0 <= n < usize::MAX,
    ensures
        n * u64::MAX + u64::MAX == (n + 1) * u64::MAX,
        (n + 1) * u64::MAX <= u128::MAX,
{
    assert(n * u64::MAX + u64::MAX == (n + 1) * u64::MAX) by (nonlinear_arith);
    assert((n + 1) * u64::MAX <= u64::MAX * u64::MAX) by (nonlinear_arith)
        requires
            n + 1 <= u64::MAX,
    ;
}

} // verus!
