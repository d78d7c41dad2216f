//! A stable sort.

use vstd::prelude::*;

verus! {

/// How many of a sorted list an item comes behind: all up to the last one that it does not
/// precede.
pub open spec fn place<T>(list: Seq<T>, item: T, lt: spec_fn(T, T) -> bool) -> int
    decreases list.len(),
{
    if list.len() == 0 {
        0
    } else if lt(item, list.last()) {
        place(list.drop_last(), item, lt)
    } else {
        list.len() as int
    }
}

/// A list in order, what neither precedes nor follows kept as it was.
pub open spec fn sorted<T>(list: Seq<T>, lt: spec_fn(T, T) -> bool) -> Seq<T>
    decreases list.len(),
{
    if list.len() == 0 {
        Seq::empty()
    } else {
        let front = sorted(list.drop_last(), lt);
        front.insert(place(front, list.last(), lt), list.last())
    }
}

/// What an order has to be for a sort by it: nothing precedes itself, and what does not follow
/// does so transitively.
pub open spec fn is_order<T>(lt: spec_fn(T, T) -> bool) -> bool {
    &&& forall|a: T| !#[trigger] lt(a, a)
    &&& forall|a: T, b: T, c: T|
        #![trigger lt(a, b), lt(b, c)]
        !lt(a, b) && !lt(b, c) ==> !lt(a, c)
    &&& forall|a: T, b: T| #[trigger] lt(a, b) ==> !lt(b, a)
}

/// No item precedes one before it.
pub open spec fn in_order<T>(list: Seq<T>, lt: spec_fn(T, T) -> bool) -> bool {
    forall|i: int, j: int|
        0 <= i < j < list.len() ==> !lt(#[trigger] list[j], #[trigger] list[i])
}

pub proof fn place_is_inside<T>(list: Seq<T>, item: T, lt: spec_fn(T, T) -> bool)
    ensures
        0 <= place(list, item, lt) <= list.len(),
        forall|i: int|
            place(list, item, lt) <= i < list.len() ==> lt(item, #[trigger] list[i]),
        place(list, item, lt) > 0 ==> !lt(item, list[place(list, item, lt) - 1]),
    decreases list.len(),
{
    if list.len() > 0 && lt(item, list.last()) {
        place_is_inside(list.drop_last(), item, lt);
        assert forall|i: int| place(list, item, lt) <= i < list.len() implies lt(
            item,
            #[trigger] list[i],
        ) by {
            if i < list.len() - 1 {
                assert(list.drop_last()[i] == list[i]);
            }
        }
    }
}

/// A sorted list is in order, and holds what the list held, as often.
pub proof fn sorted_is_in_order<T>(list: Seq<T>, lt: spec_fn(T, T) -> bool)
    requires
        is_order(lt),
    ensures
        in_order(sorted(list, lt), lt),
        sorted(list, lt).to_multiset() == list.to_multiset(),
        sorted(list, lt).len() == list.len(),
    decreases list.len(),
{
    broadcast use vstd::seq_lib::group_to_multiset_ensures;

    if list.len() == 0 {
        assert(sorted(list, lt) =~= list);
    } else {
        let item = list.last();
        let front = sorted(list.drop_last(), lt);
        sorted_is_in_order(list.drop_last(), lt);
        let at = place(front, item, lt);
        place_is_inside(front, item, lt);
        let whole = front.insert(at, item);
        assert forall|i: int| 0 <= i < at implies !lt(item, #[trigger] front[i]) by {
            if i < at - 1 {
                assert(!lt(front[at - 1], front[i]));
                assert(!lt(item, front[at - 1]));
            }
        }
        assert forall|i: int, j: int| 0 <= i < j < whole.len() implies !lt(
            #[trigger] whole[j],
            #[trigger] whole[i],
        ) by {
            if j < at {
                assert(whole[i] == front[i] && whole[j] == front[j]);
            } else if j == at {
                assert(whole[i] == front[i]);
            } else if i < at {
                assert(whole[i] == front[i] && whole[j] == front[j - 1]);
            } else if i == at {
                assert(whole[j] == front[j - 1]);
                assert(lt(item, front[j - 1]));
            } else {
                assert(whole[i] == front[i - 1] && whole[j] == front[j - 1]);
            }
        }
        vstd::seq_lib::to_multiset_insert(front, at, item);
        assert(list =~= list.drop_last().push(item));
        assert(list.to_multiset() =~= list.drop_last().to_multiset().insert(item));
    }
}

/// Two lists in order that hold the same, as often, are one list, where of two items that differ
/// one precedes the other.
pub proof fn order_is_one_list<T>(a: Seq<T>, b: Seq<T>, lt: spec_fn(T, T) -> bool)
    requires
        in_order(a, lt),
        in_order(b, lt),
        a.to_multiset() == b.to_multiset(),
        forall|i: int, j: int|
            0 <= i < a.len() && 0 <= j < a.len() && a[i] != a[j] ==> lt(
                #[trigger] a[i],
                #[trigger] a[j],
            ) || lt(a[j], a[i]),
    ensures
        a == b,
    decreases a.len(),
{
    broadcast use vstd::seq_lib::group_to_multiset_ensures;

    assert(a.len() == a.to_multiset().len());
    assert(b.len() == b.to_multiset().len());
    if a.len() == 0 {
        assert(a =~= b);
    } else {
        let n = a.len() - 1;
        assert(a.contains(a[n]) && b.contains(b[n]));
        assert(a.to_multiset().count(a[n]) > 0);
        assert(b.to_multiset().count(b[n]) > 0);
        assert(b.contains(a[n]) && a.contains(b[n]));
        let i = choose|i: int| 0 <= i < b.len() && b[i] == a[n];
        let j = choose|j: int| 0 <= j < a.len() && a[j] == b[n];
        if a[n] != b[n] {
            assert(lt(a[n], a[j]) || lt(a[j], a[n]));
            assert(i < n && j < n);
            assert(!lt(a[n], a[j]));
            assert(!lt(b[n], b[i]));
        }
        let (x, y) = (a.drop_last(), b.drop_last());
        assert(x =~= a.remove(n) && y =~= b.remove(n));
        assert(x.to_multiset() =~= a.to_multiset().remove(a[n]));
        assert(y.to_multiset() =~= b.to_multiset().remove(b[n]));
        order_is_one_list(x, y, lt);
        assert(a =~= x.push(a[n]));
        assert(b =~= y.push(b[n]));
    }
}

/// What a sorted list holds, the list held.
pub proof fn sorted_holds<T>(list: Seq<T>, lt: spec_fn(T, T) -> bool, item: T)
    ensures
        sorted(list, lt).len() == list.len(),
        sorted(list, lt).contains(item) == list.contains(item),
    decreases list.len(),
{
    if list.len() > 0 {
        let front = sorted(list.drop_last(), lt);
        sorted_holds(list.drop_last(), lt, item);
        place_is_inside(front, list.last(), lt);
        let at = place(front, list.last(), lt);
        let whole = front.insert(at, list.last());
        if list.contains(item) {
            let i = choose|i: int| 0 <= i < list.len() && list[i] == item;
            if i < list.len() - 1 {
                assert(list.drop_last()[i] == item);
                let k = choose|k: int| 0 <= k < front.len() && front[k] == item;
                if k < at {
                    assert(whole[k] == item);
                } else {
                    assert(whole[k + 1] == item);
                }
            } else {
                assert(whole[at] == item);
            }
        }
        if whole.contains(item) {
            let k = choose|k: int| 0 <= k < whole.len() && whole[k] == item;
            if k < at {
                assert(front[k] == item);
            } else if k > at {
                assert(front[k - 1] == item);
            }
            if k == at {
                assert(list[list.len() - 1] == item);
            } else {
                let i = choose|i: int| 0 <= i < list.len() - 1 && list.drop_last()[i] == item;
                assert(list[i] == item);
            }
        }
    } else {
        assert(sorted(list, lt) =~= list);
    }
}

/// Where a list holds nothing twice, neither does the sorted list.
pub proof fn sorted_holds_once<T>(list: Seq<T>, lt: spec_fn(T, T) -> bool)
    requires
        list.no_duplicates(),
    ensures
        sorted(list, lt).no_duplicates(),
    decreases list.len(),
{
    if list.len() > 0 {
        let front = sorted(list.drop_last(), lt);
        let item = list.last();
        sorted_holds_once(list.drop_last(), lt);
        sorted_holds(list.drop_last(), lt, item);
        place_is_inside(front, item, lt);
        let at = place(front, item, lt);
        let whole = front.insert(at, item);
        assert forall|k: int| 0 <= k < front.len() implies #[trigger] front[k] != item by {
            if front[k] == item {
                assert(front.contains(item));
            }
        }
        assert forall|i: int, j: int| 0 <= i < whole.len() && 0 <= j < whole.len() && i
            != j implies whole[i] != whole[j] by {
            let a = if i < at {
                i
            } else {
                i - 1
            };
            let b = if j < at {
                j
            } else {
                j - 1
            };
            if i != at && j != at {
                assert(whole[i] == front[a] && whole[j] == front[b]);
            } else if i == at {
                assert(whole[j] == front[b]);
            } else {
                assert(whole[i] == front[a]);
            }
        }
    }
}

proof fn place_maps<T, U>(
    list: Seq<T>,
    item: T,
    lt: spec_fn(T, T) -> bool,
    f: spec_fn(T) -> U,
    ltu: spec_fn(U, U) -> bool,
)
    requires
        forall|a: T, b: T| #[trigger] lt(a, b) == ltu(f(a), f(b)),
    ensures
        place(list, item, lt) == place(list.map_values(f), f(item), ltu),
    decreases list.len(),
{
    if list.len() > 0 {
        assert(list.map_values(f).drop_last() =~= list.drop_last().map_values(f));
        assert(list.map_values(f).last() == f(list.last()));
        place_maps(list.drop_last(), item, lt, f, ltu);
    }
}

/// What items of a list stand for is sorted as the items are.
pub proof fn sorted_maps<T, U>(
    list: Seq<T>,
    lt: spec_fn(T, T) -> bool,
    f: spec_fn(T) -> U,
    ltu: spec_fn(U, U) -> bool,
)
    requires
        forall|a: T, b: T| #[trigger] lt(a, b) == ltu(f(a), f(b)),
    ensures
        sorted(list, lt).map_values(f) == sorted(list.map_values(f), ltu),
    decreases list.len(),
{
    if list.len() == 0 {
        assert(sorted(list, lt).map_values(f) =~= sorted(list.map_values(f), ltu));
    } else {
        let front = sorted(list.drop_last(), lt);
        let item = list.last();
        sorted_maps(list.drop_last(), lt, f, ltu);
        assert(list.map_values(f).drop_last() =~= list.drop_last().map_values(f));
        assert(list.map_values(f).last() == f(item));
        place_maps(front, item, lt, f, ltu);
        place_is_inside(front, item, lt);
        let at = place(front, item, lt);
        assert(front.insert(at, item).map_values(f) =~= front.map_values(f).insert(at, f(item)));
    }
}

/// Sorts a list by an order, what it calls equal kept as it was.
pub(crate) fn sort<T, F: Fn(&T, &T) -> bool>(
    list: Vec<T>,
    less: F,
    Ghost(lt): Ghost<spec_fn(T, T) -> bool>,
) -> (whole: Vec<T>)
    requires
        forall|a: T, b: T| call_requires(less, (&a, &b)),
        forall|a: T, b: T, yes: bool| call_ensures(less, (&a, &b), yes) ==> yes == lt(a, b),
    ensures
        whole@ == sorted(list@, lt),
{
    let ghost all = list@;
    let mut rest: Vec<T> = list;
    let mut whole: Vec<T> = Vec::new();
    let ghost mut done: int = 0;
    while rest.len() > 0
        invariant
            forall|a: T, b: T| call_requires(less, (&a, &b)),
            forall|a: T, b: T, yes: bool| call_ensures(less, (&a, &b), yes) ==> yes == lt(a, b),
            0 <= done <= all.len(),
            rest@ == all.skip(done),
            whole@ == sorted(all.take(done), lt),
        decreases rest.len(),
    {
        let ghost next = all.take(done + 1);
        assert(next.drop_last() =~= all.take(done));
        let item: T = rest.remove(0);
        assert(next.last() == item);
        assert(rest@ =~= all.skip(done + 1));
        let mut at: usize = whole.len();
        assert(whole@.take(whole@.len() as int) =~= whole@);
        while at > 0 && less(&item, &whole[at - 1])
            invariant
                forall|a: T, b: T| call_requires(less, (&a, &b)),
                forall|a: T, b: T, yes: bool|
                    call_ensures(less, (&a, &b), yes) ==> yes == lt(a, b),
                at <= whole.len(),
                place(whole@, item, lt) == place(whole@.take(at as int), item, lt),
            decreases at,
        {
            assert(whole@.take(at as int).drop_last() =~= whole@.take(at - 1));
            at -= 1;
        }
        whole.insert(at, item);
        proof {
            done = done + 1;
        }
    }
    assert(all.take(done) =~= all);
    whole
}

} // verus!
