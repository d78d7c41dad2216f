//! Degree distributions.

use vstd::prelude::*;

use crate::doc::Num;
use crate::sorting;

verus! {

/// One degree distribution over every page.
pub struct Degrees {
    pub min: usize,
    pub median: Num,
    pub mean: Num,
    pub max: usize,
    /// Pages per degree bucket, in the order of the buckets.
    pub histogram: Vec<usize>,
}

/// How many degree buckets there are.
pub const BUCKETS: usize = 8;

/// The bucket that a degree is counted in.
pub open spec fn bucket(degree: int) -> int {
    if degree <= 2 {
        degree
    } else if degree <= 4 {
        3
    } else if degree <= 9 {
        4
    } else if degree <= 19 {
        5
    } else if degree <= 49 {
        6
    } else {
        7
    }
}

fn bucket_of(degree: usize) -> (at: usize)
    ensures
        at == bucket(degree as int),
        at < BUCKETS,
{
    if degree <= 2 {
        degree
    } else if degree <= 4 {
        3
    } else if degree <= 9 {
        4
    } else if degree <= 19 {
        5
    } else if degree <= 49 {
        6
    } else {
        7
    }
}

/// What a bucket is called: the degrees it holds.
pub open spec fn bucket_label(at: int) -> Seq<char> {
    if at == 0 {
        "0"@
    } else if at == 1 {
        "1"@
    } else if at == 2 {
        "2"@
    } else if at == 3 {
        "3-4"@
    } else if at == 4 {
        "5-9"@
    } else if at == 5 {
        "10-19"@
    } else if at == 6 {
        "20-49"@
    } else {
        "50+"@
    }
}

pub fn label(at: usize) -> (text: &'static str)
    ensures
        text@ == bucket_label(at as int),
{
    match at {
        0 => "0",
        1 => "1",
        2 => "2",
        3 => "3-4",
        4 => "5-9",
        5 => "10-19",
        6 => "20-49",
        _ => "50+",
    }
}

/// How many degrees a bucket holds.
pub open spec fn in_bucket(values: Seq<usize>, at: int) -> nat
    decreases values.len(),
{
    if values.len() == 0 {
        0
    } else {
        in_bucket(values.drop_last(), at) + if bucket(values.last() as int) == at {
            1nat
        } else {
            0nat
        }
    }
}

proof fn in_bucket_is_bounded(values: Seq<usize>, at: int)
    ensures
        in_bucket(values, at) <= values.len(),
    decreases values.len(),
{
    if values.len() > 0 {
        in_bucket_is_bounded(values.drop_last(), at);
    }
}

pub open spec fn sum(values: Seq<usize>) -> nat
    decreases values.len(),
{
    if values.len() == 0 {
        0
    } else {
        sum(values.drop_last()) + values.last() as nat
    }
}

pub proof fn sum_of_a_part(values: Seq<usize>, n: int)
    requires
        0 <= n <= values.len(),
    ensures
        sum(values.take(n)) <= sum(values),
        forall|i: int| 0 <= i < values.len() ==> #[trigger] values[i] <= sum(values),
        forall|i: int, j: int|
            0 <= i < j < values.len() ==> #[trigger] values[i] + #[trigger] values[j] <= sum(
                values,
            ),
    decreases values.len(),
{
    if values.len() > 0 {
        if n == values.len() {
            assert(values.take(n) =~= values);
        } else {
            assert(values.drop_last().take(n) =~= values.take(n));
        }
        sum_of_a_part(
            values.drop_last(),
            if n == values.len() {
                n - 1
            } else {
                n
            },
        );
        assert forall|i: int| 0 <= i < values.len() implies #[trigger] values[i] <= sum(values) by {
            if i < values.len() - 1 {
                assert(values.drop_last()[i] == values[i]);
            }
        }
        assert forall|i: int, j: int| 0 <= i < j < values.len() implies #[trigger] values[i]
            + #[trigger] values[j] <= sum(values) by {
            assert(values.drop_last()[i] == values[i]);
            if j < values.len() - 1 {
                assert(values.drop_last()[j] == values[j]);
            }
        }
    } else {
        assert(values.take(n) =~= values);
    }
}

/// Degrees in ascending order.
pub open spec fn upwards(values: Seq<usize>) -> Seq<usize> {
    sorting::sorted(values, |a: usize, b: usize| a < b)
}

/// The middle value, or the mean of the two middle values; zero of no values.
pub open spec fn median(sorted: Seq<usize>) -> Num {
    let middle = sorted.len() as int / 2;
    if sorted.len() == 0 {
        Num::Whole(0)
    } else if sorted.len() % 2 == 0 {
        Num::Over(
            Box::new(Num::Whole((sorted[middle - 1] + sorted[middle]) as u64)),
            Box::new(Num::Whole(2)),
        )
    } else {
        Num::Whole(sorted[middle] as u64)
    }
}

fn median_of(sorted: &Vec<usize>) -> (value: Num)
    requires
        sum(sorted@) <= usize::MAX,
    ensures
        value == median(sorted@),
{
    if sorted.len() == 0 {
        return Num::Whole(0);
    }
    let middle: usize = sorted.len() / 2;
    if sorted.len() % 2 == 0 {
        proof {
            sum_of_a_part(sorted@, 0);
            assert(sorted@[middle - 1] + sorted@[middle as int] <= sum(sorted@));
        }
        Num::Over(
            Box::new(Num::Whole((sorted[middle - 1] + sorted[middle]) as u64)),
            Box::new(Num::Whole(2)),
        )
    } else {
        Num::Whole(sorted[middle] as u64)
    }
}

/// The mean; zero of no values.
pub open spec fn mean(values: Seq<usize>) -> Num {
    if values.len() == 0 {
        Num::Whole(0)
    } else {
        Num::Over(
            Box::new(Num::Whole(sum(values) as u64)),
            Box::new(Num::Whole(values.len() as u64)),
        )
    }
}

fn mean_of(values: &Vec<usize>) -> (value: Num)
    requires
        sum(values@) <= usize::MAX,
    ensures
        value == mean(values@),
{
    if values.len() == 0 {
        return Num::Whole(0);
    }
    let mut total: usize = 0;
    for i in 0..values.len()
        invariant
            sum(values@) <= usize::MAX,
            total == sum(values@.take(i as int)),
    {
        assert(values@.take(i + 1).drop_last() =~= values@.take(i as int));
        proof {
            sum_of_a_part(values@, i + 1);
        }
        total += values[i];
    }
    assert(values@.take(values@.len() as int) =~= values@);
    Num::Over(Box::new(Num::Whole(total as u64)), Box::new(Num::Whole(values.len() as u64)))
}

/// The sum of a list does not depend on its order.
pub proof fn sum_is_kept(values: Seq<usize>, lt: spec_fn(usize, usize) -> bool)
    ensures
        sum(sorting::sorted(values, lt)) == sum(values),
    decreases values.len(),
{
    if values.len() > 0 {
        let front = sorting::sorted(values.drop_last(), lt);
        sum_is_kept(values.drop_last(), lt);
        sorting::place_is_inside(front, values.last(), lt);
        sum_with(front, sorting::place(front, values.last(), lt), values.last());
    }
}

proof fn sum_with(values: Seq<usize>, at: int, value: usize)
    requires
        0 <= at <= values.len(),
    ensures
        sum(values.insert(at, value)) == sum(values) + value,
    decreases values.len(),
{
    let whole = values.insert(at, value);
    if at == values.len() {
        assert(whole.drop_last() =~= values);
    } else {
        assert(whole.drop_last() =~= values.drop_last().insert(at, value));
        assert(whole.last() == values.last());
        sum_with(values.drop_last(), at, value);
    }
}

fn is_less(a: &usize, b: &usize) -> (yes: bool)
    ensures
        yes == (*a < *b),
{
    *a < *b
}

/// Whether a distribution is that of these degrees.
pub open spec fn describes(values: Seq<usize>, degrees: Degrees) -> bool {
    let sorted = upwards(values);
    &&& degrees.min == if values.len() == 0 {
        0
    } else {
        sorted[0]
    }
    &&& degrees.max == if values.len() == 0 {
        0
    } else {
        sorted[sorted.len() - 1]
    }
    &&& degrees.median == median(sorted)
    &&& degrees.mean == mean(values)
    &&& degrees.histogram.len() == BUCKETS
    &&& forall|at: int| 0 <= at < BUCKETS ==> #[trigger] degrees.histogram@[at] == in_bucket(values, at)
}

/// The distribution of one set of degrees.
pub fn degrees(values: &Vec<usize>) -> (found: Degrees)
    requires
        sum(values@) <= usize::MAX,
    ensures
        describes(values@, found),
{
    let mut list: Vec<usize> = Vec::new();
    for i in 0..values.len()
        invariant
            list@ == values@.take(i as int),
    {
        list.push(values[i]);
    }
    assert(values@.take(values@.len() as int) =~= values@);
    let ghost lt = |a: usize, b: usize| a < b;
    let sorted: Vec<usize> = sorting::sort(list, is_less, Ghost(lt));
    proof {
        assert(sorting::is_order(lt));
        sorting::sorted_is_in_order(values@, lt);
        sum_is_kept(values@, lt);
        assert(upwards(values@) == sorted@);
    }
    let mut histogram: Vec<usize> = Vec::new();
    for i in 0..BUCKETS
        invariant
            histogram.len() == i,
            forall|at: int| 0 <= at < i ==> histogram@[at] == 0,
    {
        histogram.push(0);
    }
    for i in 0..values.len()
        invariant
            histogram.len() == BUCKETS,
            forall|at: int|
                0 <= at < BUCKETS ==> #[trigger] histogram@[at] == in_bucket(
                    values@.take(i as int),
                    at,
                ),
    {
        let ghost next = values@.take(i + 1);
        assert(next.drop_last() =~= values@.take(i as int));
        let at: usize = bucket_of(values[i]);
        proof {
            in_bucket_is_bounded(values@.take(i as int), at as int);
        }
        let had: usize = histogram[at];
        histogram.set(at, had + 1);
    }
    let (min, max): (usize, usize) = if sorted.len() == 0 {
        (0, 0)
    } else {
        (sorted[0], sorted[sorted.len() - 1])
    };
    Degrees { min, median: median_of(&sorted), mean: mean_of(values), max, histogram }
}

/// The least degree is one of the degrees and none is less; the same of the greatest.
pub proof fn min_and_max_bound_the_degrees(values: Seq<usize>, degrees: Degrees)
    requires
        describes(values, degrees),
        values.len() > 0,
    ensures
        values.contains(degrees.min),
        values.contains(degrees.max),
        forall|i: int| 0 <= i < values.len() ==> degrees.min <= #[trigger] values[i] <= degrees.max,
{
    let lt = |a: usize, b: usize| a < b;
    assert(sorting::is_order(lt));
    let sorted = upwards(values);
    sorting::sorted_is_in_order(values, lt);
    sorting::sorted_holds(values, lt, degrees.min);
    sorting::sorted_holds(values, lt, degrees.max);
    assert(sorted.contains(sorted[0]));
    assert(sorted.contains(sorted[sorted.len() - 1]));
    assert forall|i: int| 0 <= i < values.len() implies degrees.min <= #[trigger] values[i]
        <= degrees.max by {
        sorting::sorted_holds(values, lt, values[i]);
        assert(values.contains(values[i]));
        let k = choose|k: int| 0 <= k < sorted.len() && sorted[k] == values[i];
        if k > 0 {
            assert(!lt(sorted[k], sorted[0]));
        }
        if k < sorted.len() - 1 {
            assert(!lt(sorted[sorted.len() - 1], sorted[k]));
        }
    }
}

/// How many pages a degree histogram counts.
pub open spec fn histogram_total(histogram: Seq<usize>) -> nat {
    sum(histogram)
}

/// Every page is in one bucket.
pub proof fn every_degree_is_in_one_bucket(values: Seq<usize>, degrees: Degrees)
    requires
        describes(values, degrees),
    ensures
        histogram_total(degrees.histogram@) == values.len(),
{
    let h = degrees.histogram@;
    reveal_with_fuel(sum, 9);
    assert(h.len() == 8);
    buckets_add_up(values);
    assert(h.drop_last().drop_last().drop_last().drop_last().drop_last().drop_last().drop_last().drop_last()
        =~= Seq::<usize>::empty());
    assert(sum(h) == h[0] + h[1] + h[2] + h[3] + h[4] + h[5] + h[6] + h[7]);
}

proof fn buckets_add_up(values: Seq<usize>)
    ensures
        in_bucket(values, 0) + in_bucket(values, 1) + in_bucket(values, 2) + in_bucket(values, 3)
            + in_bucket(values, 4) + in_bucket(values, 5) + in_bucket(values, 6) + in_bucket(
            values,
            7,
        ) == values.len(),
    decreases values.len(),
{
    if values.len() > 0 {
        buckets_add_up(values.drop_last());
    }
}

} // verus!
