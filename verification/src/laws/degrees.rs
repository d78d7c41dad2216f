//! What a degree distribution promises: its numbers are those of the degrees.

use vstd::prelude::*;

use crate::counting;
use crate::doc::Num;
use crate::graph::degrees;
use crate::graph::degrees::Degrees;
use crate::laws::basics;
use crate::sorting;

verus! {

/// A number as a fraction: a whole number over one, or the quotient of two whole numbers.
pub open spec fn fraction(value: Num) -> Option<(int, int)> {
    match value {
        Num::Whole(n) => Some((n as int, 1)),
        Num::Over(a, b) => match (*a, *b) {
            (Num::Whole(part), Num::Whole(whole)) => if whole > 0 {
                Some((part as int, whole as int))
            } else {
                None
            },
            _ => None,
        },
        _ => None,
    }
}

proof fn sum_is_total(values: Seq<usize>)
    ensures
        degrees::sum(values) == counting::total(values, |value: usize| value as int),
    decreases values.len(),
{
    if values.len() > 0 {
        sum_is_total(values.drop_last());
    }
}

proof fn upwards_is_in_order(values: Seq<usize>)
    ensures
        degrees::upwards(values).len() == values.len(),
        forall|i: int, j: int|
            0 <= i <= j < values.len() ==> #[trigger] degrees::upwards(values)[i]
                <= #[trigger] degrees::upwards(values)[j],
        forall|test: spec_fn(usize) -> bool|
            counting::how_many(degrees::upwards(values), test) == #[trigger] counting::how_many(
                values,
                test,
            ),
{
    let lt = |a: usize, b: usize| a < b;
    assert(sorting::is_order(lt));
    sorting::sorted_is_in_order(values, lt);
    let sorted = degrees::upwards(values);
    assert forall|i: int, j: int| 0 <= i <= j < values.len() implies #[trigger] sorted[i]
        <= #[trigger] sorted[j] by {
        if i < j {
            assert(!lt(sorted[j], sorted[i]));
        }
    }
    assert forall|test: spec_fn(usize) -> bool|
        counting::how_many(sorted, test) == #[trigger] counting::how_many(values, test) by {
        basics::sorting_keeps_the_counts(values, lt, test);
    }
}

/// The median is in the middle: it is a number between the least and the greatest degree, no fewer
/// than half of the degrees are at or below it, and no fewer than half are at or above it.
pub proof fn the_median_is_in_the_middle(values: Seq<usize>, found: Degrees)
    requires
        degrees::describes(values, found),
        values.len() > 0,
        counting::total(values, |value: usize| value as int) <= u64::MAX,
    ensures
        fraction(found.median) is Some,
        ({
            let (part, whole) = fraction(found.median)->0;
            &&& whole > 0
            &&& found.min * whole <= part <= found.max * whole
            &&& 2 * counting::how_many(values, |value: usize| value * whole <= part) >= values.len()
            &&& 2 * counting::how_many(values, |value: usize| value * whole >= part) >= values.len()
        }),
{
    let sorted = degrees::upwards(values);
    let n = values.len() as int;
    let middle = n / 2;
    upwards_is_in_order(values);
    sum_is_total(values);
    let lt = |a: usize, b: usize| a < b;
    degrees::sum_is_kept(values, lt);
    degrees::sum_of_a_part(sorted, 0);
    let (part, whole) = fraction(found.median)->0;
    let low = |value: usize| value * whole <= part;
    let high = |value: usize| value * whole >= part;
    if n % 2 == 0 {
        let (a, b) = (sorted[middle - 1], sorted[middle]);
        assert(a + b <= degrees::sum(sorted));
        assert(part == a + b && whole == 2);
        assert(sorted[0] <= a && b <= sorted[n - 1]);
        assert forall|k: int| 0 <= k < middle implies low(#[trigger] sorted[k]) by {
            assert(sorted[k] <= sorted[middle - 1] && sorted[middle - 1] <= sorted[middle]);
        }
        assert forall|k: int| middle <= k < n implies high(#[trigger] sorted[k]) by {
            assert(sorted[middle] <= sorted[k] && sorted[middle - 1] <= sorted[middle]);
        }
        basics::the_first_are_counted(sorted, low, middle);
        basics::the_last_are_counted(sorted, high, middle);
    } else {
        let m = sorted[middle];
        assert(m <= degrees::sum(sorted));
        assert(part == m && whole == 1);
        assert forall|k: int| 0 <= k < middle + 1 implies low(#[trigger] sorted[k]) by {
            assert(sorted[k] <= sorted[middle]);
        }
        assert forall|k: int| middle <= k < n implies high(#[trigger] sorted[k]) by {
            assert(sorted[middle] <= sorted[k]);
        }
        assert(sorted[0] <= m && m <= sorted[n - 1]);
        basics::the_first_are_counted(sorted, low, middle + 1);
        basics::the_last_are_counted(sorted, high, middle);
    }
    assert(counting::how_many(values, low) == counting::how_many(sorted, low));
    assert(counting::how_many(values, high) == counting::how_many(sorted, high));
}

/// Where the degrees are even in number, twice the median is the sum of the two in the middle: half
/// of them are at or below the lesser, and half at or above the greater.
pub proof fn twice_the_median_is_the_two_in_the_middle(values: Seq<usize>, found: Degrees) -> (two: (
    usize,
    usize,
))
    requires
        degrees::describes(values, found),
        values.len() > 0,
        values.len() % 2 == 0,
        counting::total(values, |value: usize| value as int) <= u64::MAX,
    ensures
        fraction(found.median) is Some,
        ({
            let (part, whole) = fraction(found.median)->0;
            2 * part == whole * (two.0 + two.1)
        }),
        two.0 <= two.1,
        2 * counting::how_many(values, |value: usize| value <= two.0) >= values.len(),
        2 * counting::how_many(values, |value: usize| value >= two.1) >= values.len(),
        counting::how_many(values, |value: usize| two.0 < value && value < two.1) == 0,
{
    let sorted = degrees::upwards(values);
    let n = values.len() as int;
    let middle = n / 2;
    upwards_is_in_order(values);
    sum_is_total(values);
    let lt = |a: usize, b: usize| a < b;
    degrees::sum_is_kept(values, lt);
    degrees::sum_of_a_part(sorted, 0);
    let (a, b) = (sorted[middle - 1], sorted[middle]);
    assert(a + b <= degrees::sum(sorted));
    let low = |value: usize| value <= a;
    let high = |value: usize| value >= b;
    let between = |value: usize| a < value && value < b;
    assert forall|k: int| 0 <= k < middle implies low(#[trigger] sorted[k]) by {
        assert(sorted[k] <= sorted[middle - 1]);
    }
    assert forall|k: int| middle <= k < n implies high(#[trigger] sorted[k]) by {
        assert(sorted[middle] <= sorted[k]);
    }
    basics::the_first_are_counted(sorted, low, middle);
    basics::the_last_are_counted(sorted, high, middle);
    assert forall|k: int| 0 <= k < n implies !between(#[trigger] sorted[k]) by {
        if k < middle {
            assert(sorted[k] <= sorted[middle - 1]);
        } else {
            assert(sorted[middle] <= sorted[k]);
        }
    }
    counting::how_many_is_none(sorted, between);
    assert(counting::how_many(values, low) == counting::how_many(sorted, low));
    assert(counting::how_many(values, high) == counting::how_many(sorted, high));
    assert(counting::how_many(values, between) == counting::how_many(sorted, between));
    (a, b)
}

/// The mean is the sum over the number of the degrees, and nothing where there is none.
pub proof fn the_mean_is_the_sum_over_the_number(values: Seq<usize>, found: Degrees)
    requires
        degrees::describes(values, found),
        counting::total(values, |value: usize| value as int) <= u64::MAX,
        values.len() <= u64::MAX,
    ensures
        fraction(found.mean) is Some,
        ({
            let (part, whole) = fraction(found.mean)->0;
            if values.len() == 0 {
                part == 0
            } else {
                part * values.len() == counting::total(values, |value: usize| value as int) * whole
            }
        }),
{
    sum_is_total(values);
}

/// The least degree is one of them and none is less, and the greatest is one and none is more; both
/// are nothing where there is none.
pub proof fn every_degree_is_between(values: Seq<usize>, found: Degrees, i: int)
    requires
        degrees::describes(values, found),
    ensures
        0 <= i < values.len() ==> found.min <= values[i] <= found.max,
        values.len() > 0 ==> values.contains(found.min) && values.contains(found.max),
        values.len() == 0 ==> found.min == 0 && found.max == 0,
{
    if values.len() > 0 {
        degrees::min_and_max_bound_the_degrees(values, found);
    }
}

proof fn a_bucket_counts(values: Seq<usize>, at: int)
    ensures
        degrees::in_bucket(values, at) == counting::how_many(
            values,
            |value: usize| degrees::bucket(value as int) == at,
        ),
    decreases values.len(),
{
    if values.len() > 0 {
        a_bucket_counts(values.drop_last(), at);
    }
}

/// Each bucket counts the degrees that its name says: none, one, two, three and four, five to nine,
/// ten to nineteen, twenty to forty-nine, and fifty and more.
pub proof fn a_bucket_counts_what_it_names(values: Seq<usize>, found: Degrees)
    requires
        degrees::describes(values, found),
    ensures
        found.histogram.len() == 8,
        found.histogram@[0] == counting::how_many(values, |value: usize| value == 0),
        found.histogram@[1] == counting::how_many(values, |value: usize| value == 1),
        found.histogram@[2] == counting::how_many(values, |value: usize| value == 2),
        found.histogram@[3] == counting::how_many(values, |value: usize| 3 <= value && value <= 4),
        found.histogram@[4] == counting::how_many(values, |value: usize| 5 <= value && value <= 9),
        found.histogram@[5] == counting::how_many(
            values,
            |value: usize| 10 <= value && value <= 19,
        ),
        found.histogram@[6] == counting::how_many(
            values,
            |value: usize| 20 <= value && value <= 49,
        ),
        found.histogram@[7] == counting::how_many(values, |value: usize| value >= 50),
        degrees::bucket_label(0) == "0"@,
        degrees::bucket_label(1) == "1"@,
        degrees::bucket_label(2) == "2"@,
        degrees::bucket_label(3) == "3-4"@,
        degrees::bucket_label(4) == "5-9"@,
        degrees::bucket_label(5) == "10-19"@,
        degrees::bucket_label(6) == "20-49"@,
        degrees::bucket_label(7) == "50+"@,
{
    a_bucket_counts(values, 0);
    a_bucket_counts(values, 1);
    a_bucket_counts(values, 2);
    a_bucket_counts(values, 3);
    a_bucket_counts(values, 4);
    a_bucket_counts(values, 5);
    a_bucket_counts(values, 6);
    a_bucket_counts(values, 7);
    let h = found.histogram@;
    assert(h[0] == degrees::in_bucket(values, 0));
    assert(h[1] == degrees::in_bucket(values, 1));
    assert(h[2] == degrees::in_bucket(values, 2));
    assert(h[3] == degrees::in_bucket(values, 3));
    assert(h[4] == degrees::in_bucket(values, 4));
    assert(h[5] == degrees::in_bucket(values, 5));
    assert(h[6] == degrees::in_bucket(values, 6));
    assert(h[7] == degrees::in_bucket(values, 7));
    basics::same_tests_count_the_same(
        values,
        |value: usize| degrees::bucket(value as int) == 0,
        |value: usize| value == 0,
    );
    basics::same_tests_count_the_same(
        values,
        |value: usize| degrees::bucket(value as int) == 1,
        |value: usize| value == 1,
    );
    basics::same_tests_count_the_same(
        values,
        |value: usize| degrees::bucket(value as int) == 2,
        |value: usize| value == 2,
    );
    basics::same_tests_count_the_same(
        values,
        |value: usize| degrees::bucket(value as int) == 3,
        |value: usize| 3 <= value && value <= 4,
    );
    basics::same_tests_count_the_same(
        values,
        |value: usize| degrees::bucket(value as int) == 4,
        |value: usize| 5 <= value && value <= 9,
    );
    basics::same_tests_count_the_same(
        values,
        |value: usize| degrees::bucket(value as int) == 5,
        |value: usize| 10 <= value && value <= 19,
    );
    basics::same_tests_count_the_same(
        values,
        |value: usize| degrees::bucket(value as int) == 6,
        |value: usize| 20 <= value && value <= 49,
    );
    basics::same_tests_count_the_same(
        values,
        |value: usize| degrees::bucket(value as int) == 7,
        |value: usize| value >= 50,
    );
}

} // verus!
