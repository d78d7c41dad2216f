//! What the aggregates promise: the mean, the spread and the ends of what was measured, over the
//! runs that were measured.

use vstd::prelude::*;

use crate::aggregate;
use crate::aggregate::{Aggregates, Group, Stat};
use crate::counting;
use crate::doc::Num;
use crate::doubles;
use crate::laws::basics;
use crate::row::Row;

verus! {

/// What a formula is worth as a fraction, where its doubles are worth whole numbers: none where a
/// root is in it, or a quotient whose divisor is not positive.
pub open spec fn worth(value: Num, of: spec_fn(u64) -> int) -> Option<(int, int)>
    decreases value,
{
    match value {
        Num::Whole(n) => Some((n as int, 1)),
        Num::Long(n) => Some((n as int, 1)),
        Num::Double(bits) => Some((of(bits), 1)),
        Num::Plus(a, b) => match (worth(*a, of), worth(*b, of)) {
            (Some((p, q)), Some((r, s))) => Some((p * s + r * q, q * s)),
            _ => None,
        },
        Num::Minus(a, b) => match (worth(*a, of), worth(*b, of)) {
            (Some((p, q)), Some((r, s))) => Some((p * s - r * q, q * s)),
            _ => None,
        },
        Num::Times(a, b) => match (worth(*a, of), worth(*b, of)) {
            (Some((p, q)), Some((r, s))) => Some((p * r, q * s)),
            _ => None,
        },
        Num::Over(a, b) => match (worth(*a, of), worth(*b, of)) {
            (Some((p, q)), Some((r, s))) => if r > 0 {
                Some((p * s, q * r))
            } else {
                None
            },
            _ => None,
        },
        Num::Root(_) => None,
        Num::Least(a, b) => match (worth(*a, of), worth(*b, of)) {
            (Some((p, q)), Some((r, s))) => if p * s <= r * q {
                Some((p, q))
            } else {
                Some((r, s))
            },
            _ => None,
        },
        Num::Greatest(a, b) => match (worth(*a, of), worth(*b, of)) {
            (Some((p, q)), Some((r, s))) => if p * s >= r * q {
                Some((p, q))
            } else {
                Some((r, s))
            },
            _ => None,
        },
    }
}

proof fn a_sum_is_worth_its_terms(samples: Seq<u64>, of: spec_fn(u64) -> int)
    ensures
        worth(aggregate::sum_of(samples), of) == Some((counting::total(samples, of), 1int)),
    decreases samples.len(),
{
    reveal_with_fuel(worth, 2);
    if samples.len() > 0 {
        a_sum_is_worth_its_terms(samples.drop_last(), of);
    }
}

/// The mean times the number of measurements is their sum, and the number is how many there are.
pub proof fn the_mean_is_the_sum_over_the_number(
    samples: Seq<u64>,
    stat: Stat,
    of: spec_fn(u64) -> int,
)
    requires
        aggregate::is_stat(samples, stat),
        0 < samples.len() <= u64::MAX,
    ensures
        stat.n == samples.len(),
        worth(stat.mean, of) is Some,
        ({
            let (part, whole) = worth(stat.mean, of)->0;
            whole > 0 && part * samples.len() == whole * counting::total(samples, of)
        }),
{
    reveal_with_fuel(worth, 2);
    a_sum_is_worth_its_terms(samples, of);
    let total = counting::total(samples, of);
    let n = samples.len() as int;
    assert(worth(stat.mean, of) == Some((total * 1, 1 * n)));
    assert(total * 1 * n == 1 * n * total) by (nonlinear_arith);
}

/// How far the measurements are from their mean, squared and added up, all in parts of the number
/// of measurements.
pub open spec fn far_from_the_mean(samples: Seq<u64>, of: spec_fn(u64) -> int) -> int {
    let n = samples.len() as int;
    let total = counting::total(samples, of);
    counting::total(samples, |bits: u64| (of(bits) * n - total) * (of(bits) * n - total))
}

proof fn one_square_more(p: int, q: int, t: int, s: int, nn: int)
    requires
        p * nn == q * t,
    ensures
        (p * nn + s * q) * nn == (q * nn) * (t + s),
{
    assert((p * nn + s * q) * nn == (p * nn) * nn + s * q * nn) by (nonlinear_arith);
    assert((q * t) * nn + s * q * nn == (q * nn) * (t + s)) by (nonlinear_arith);
}

proof fn squares_are_worth_their_distances(
    samples: Seq<u64>,
    mean: Num,
    of: spec_fn(u64) -> int,
    total: int,
    n: int,
)
    requires
        n > 0,
        worth(mean, of) == Some((total, n)),
    ensures
        ({
            let far = |bits: u64| (of(bits) * n - total) * (of(bits) * n - total);
            &&& worth(aggregate::squares(samples, mean), of) is Some
            &&& {
                let (p, q) = worth(aggregate::squares(samples, mean), of)->0;
                q > 0 && p * (n * n) == q * counting::total(samples, far)
            }
        }),
    decreases samples.len(),
{
    reveal_with_fuel(worth, 2);
    let far = |bits: u64| (of(bits) * n - total) * (of(bits) * n - total);
    if samples.len() > 0 {
        let front = samples.drop_last();
        let x = samples.last();
        squares_are_worth_their_distances(front, mean, of, total, n);
        let (p, q) = worth(aggregate::squares(front, mean), of)->0;
        let distance = Num::Minus(Box::new(Num::Double(x)), Box::new(mean));
        assert(worth(distance, of) == Some((of(x) * n - total * 1, 1 * n)));
        let d = of(x) * n - total;
        assert(worth(aggregate::square(x, mean), of) == Some((d * d, n * n))) by {
            assert(total * 1 == total && 1 * n == n);
        }
        let t = counting::total(front, far);
        assert(worth(aggregate::squares(samples, mean), of) == Some(
            (p * (n * n) + d * d * q, q * (n * n)),
        ));
        one_square_more(p, q, t, d * d, n * n);
        assert(q * (n * n) > 0) by (nonlinear_arith)
            requires
                q > 0,
                n > 0,
        ;
        assert(far(x) == d * d);
        assert(counting::total(samples, far) == t + d * d);
    } else {
        assert(1 * counting::total(samples, far) == 0);
        assert(0 * (n * n) == 0) by (nonlinear_arith);
    }
}

/// The spread is the root of the mean square distance from the mean, over one fewer than there are
/// measurements; one measurement has none.
pub proof fn the_spread_is_of_the_distances(
    samples: Seq<u64>,
    stat: Stat,
    of: spec_fn(u64) -> int,
)
    requires
        aggregate::is_stat(samples, stat),
        0 < samples.len() <= u64::MAX,
    ensures
        stat.sd is Some == (samples.len() > 1),
        stat.sd matches Some(spread) ==> {
            &&& spread matches Num::Root(square)
            &&& worth(*square, of) is Some
            &&& {
                let (part, whole) = worth(*square, of)->0;
                let n = samples.len() as int;
                whole > 0 && part * (n * n * (n - 1)) == whole * far_from_the_mean(samples, of)
            }
        },
{
    reveal_with_fuel(worth, 2);
    if samples.len() > 1 {
        let n = samples.len() as int;
        let total = counting::total(samples, of);
        let mean = aggregate::mean_of(samples);
        a_sum_is_worth_its_terms(samples, of);
        assert(worth(mean, of) == Some((total * 1, 1 * n)));
        assert(total * 1 == total && 1 * n == n);
        squares_are_worth_their_distances(samples, mean, of, total, n);
        let squares = aggregate::squares(samples, mean);
        let (p, q) = worth(squares, of)->0;
        let square = Num::Over(
            Box::new(squares),
            Box::new(Num::Whole((samples.len() - 1) as u64)),
        );
        assert(worth(square, of) == Some((p * 1, q * (n - 1))));
        let t = far_from_the_mean(samples, of);
        assert(t == counting::total(
            samples,
            |bits: u64| (of(bits) * n - total) * (of(bits) * n - total),
        ));
        assert(p * 1 * (n * n * (n - 1)) == q * (n - 1) * t) by (nonlinear_arith)
            requires
                p * (n * n) == q * t,
        ;
        assert(q * (n - 1) > 0) by (nonlinear_arith)
            requires
                q > 0,
                n > 1,
        ;
    }
}

proof fn the_ends_are_samples(samples: Seq<u64>, of: spec_fn(u64) -> int)
    requires
        samples.len() > 0,
    ensures
        ({
            let least = worth(aggregate::least_of(samples), of);
            &&& least is Some && {
                let (p, q) = least->0;
                &&& q == 1
                &&& exists|i: int| 0 <= i < samples.len() && p == of(#[trigger] samples[i])
                &&& forall|i: int| 0 <= i < samples.len() ==> p <= of(#[trigger] samples[i])
            }
        }),
        ({
            let greatest = worth(aggregate::greatest_of(samples), of);
            &&& greatest is Some && {
                let (p, q) = greatest->0;
                &&& q == 1
                &&& exists|i: int| 0 <= i < samples.len() && p == of(#[trigger] samples[i])
                &&& forall|i: int| 0 <= i < samples.len() ==> p >= of(#[trigger] samples[i])
            }
        }),
    decreases samples.len(),
{
    reveal_with_fuel(worth, 2);
    let last = samples.len() - 1;
    if samples.len() > 1 {
        let front = samples.drop_last();
        the_ends_are_samples(front, of);
        assert(forall|i: int| 0 <= i < front.len() ==> front[i] == samples[i]);
        let (p, _) = worth(aggregate::least_of(front), of)->0;
        let (g, _) = worth(aggregate::greatest_of(front), of)->0;
        let i = choose|i: int| 0 <= i < front.len() && p == of(#[trigger] front[i]);
        let k = choose|k: int| 0 <= k < front.len() && g == of(#[trigger] front[k]);
        assert(p == of(samples[i]) && g == of(samples[k]));
        let x = of(samples[last]);
        assert(samples[last] == samples.last());
        assert forall|j: int| 0 <= j < samples.len() implies (p <= of(#[trigger] samples[j]) || x
            <= of(samples[j])) && (g >= of(samples[j]) || x >= of(samples[j])) by {
            if j < front.len() {
                assert(p <= of(front[j]) && g >= of(front[j]));
            }
        }
        assert(worth(aggregate::least_of(samples), of) == Some(
            if p * 1 <= x * 1 {
                (p, 1int)
            } else {
                (x, 1int)
            },
        ));
        assert(worth(aggregate::greatest_of(samples), of) == Some(
            if g * 1 >= x * 1 {
                (g, 1int)
            } else {
                (x, 1int)
            },
        ));
        assert forall|j: int| 0 <= j < samples.len() implies p <= of(#[trigger] samples[j]) || j
            == last by {
            if j < front.len() {
                assert(p <= of(front[j]));
            }
        }
        assert forall|j: int| 0 <= j < samples.len() implies g >= of(#[trigger] samples[j]) || j
            == last by {
            if j < front.len() {
                assert(g >= of(front[j]));
            }
        }
    } else {
        assert(aggregate::least_of(samples) == Num::Double(samples[0]));
        assert(aggregate::greatest_of(samples) == Num::Double(samples[0]));
    }
}

/// The least is one of the measurements and none is less; the greatest is one and none is more.
pub proof fn the_least_and_the_greatest_are_measured(
    samples: Seq<u64>,
    stat: Stat,
    of: spec_fn(u64) -> int,
)
    requires
        aggregate::is_stat(samples, stat),
        samples.len() > 0,
    ensures
        worth(stat.min, of) is Some,
        worth(stat.max, of) is Some,
        ({
            let (least, one) = worth(stat.min, of)->0;
            &&& one == 1
            &&& exists|i: int| 0 <= i < samples.len() && least == of(#[trigger] samples[i])
            &&& forall|i: int| 0 <= i < samples.len() ==> least <= of(#[trigger] samples[i])
        }),
        ({
            let (greatest, one) = worth(stat.max, of)->0;
            &&& one == 1
            &&& exists|i: int| 0 <= i < samples.len() && greatest == of(#[trigger] samples[i])
            &&& forall|i: int| 0 <= i < samples.len() ==> greatest >= of(#[trigger] samples[i])
        }),
{
    the_ends_are_samples(samples, of);
}

/// The measurements that are zero are counted: those of no magnitude, of either sign. Where none is
/// negative, the greatest is zero just where all are.
pub proof fn the_zeros_are_counted(samples: Seq<u64>, stat: Stat)
    requires
        aggregate::is_stat(samples, stat),
    ensures
        stat.zeros == counting::how_many(
            samples,
            |bits: u64| bits == 0 || bits == 0x8000_0000_0000_0000,
        ),
        samples.len() > 0 && (forall|i: int|
            0 <= i < samples.len() ==> #[trigger] samples[i] <= 0x7ff0_0000_0000_0000)
            ==> stat.never_more_than_zero == (forall|i: int|
            0 <= i < samples.len() ==> #[trigger] samples[i] == 0),
{
    basics::same_tests_count_the_same(
        samples,
        |bits: u64| doubles::is_zero(bits),
        |bits: u64| bits == 0 || bits == 0x8000_0000_0000_0000,
    );
    if samples.len() > 0 && (forall|i: int|
        0 <= i < samples.len() ==> #[trigger] samples[i] <= 0x7ff0_0000_0000_0000) {
        if forall|i: int| 0 <= i < samples.len() ==> #[trigger] samples[i] == 0 {
            assert(samples[0] == 0);
            assert(doubles::is_zero(samples[0]));
            assert forall|i: int|
                0 <= i < samples.len() && !doubles::is_nan(
                    #[trigger] samples[i],
                ) implies doubles::is_zero(samples[i]) || doubles::is_negative(samples[i]) by {
                assert(samples[i] == 0);
            }
        }
        if stat.never_more_than_zero {
            assert forall|i: int| 0 <= i < samples.len() implies #[trigger] samples[i] == 0 by {
                assert(samples[i] <= 0x7ff0_0000_0000_0000);
                assert(!doubles::is_nan(samples[i]));
            }
        }
    }
}

/// Where the rows that carry a metric stand.
proof fn carrying(rows: Seq<Row>, metric: Seq<char>) -> (at: Seq<int>)
    ensures
        at.len() == aggregate::samples(rows, metric).len(),
        forall|k: int|
            0 <= k < at.len() ==> 0 <= #[trigger] at[k] < rows.len() && rows[at[k]].ok
                && rows[at[k]].metrics.names().contains(metric) && aggregate::samples(
                rows,
                metric,
            )[k] == rows[at[k]].metrics.at(metric),
        forall|j: int, k: int| 0 <= j < k < at.len() ==> #[trigger] at[j] < #[trigger] at[k],
        forall|i: int|
            0 <= i < rows.len() && (#[trigger] rows[i]).ok && rows[i].metrics.names().contains(
                metric,
            ) ==> at.contains(i),
    decreases rows.len(),
{
    if rows.len() == 0 {
        Seq::empty()
    } else {
        let n = rows.len() - 1;
        let front = rows.drop_last();
        let before = carrying(front, metric);
        let at = if aggregate::carries(rows.last(), metric) {
            before.push(n)
        } else {
            before
        };
        assert forall|k: int| 0 <= k < before.len() implies 0 <= #[trigger] before[k] < n
            && rows[before[k]].ok && rows[before[k]].metrics.names().contains(metric)
            && aggregate::samples(front, metric)[k] == rows[before[k]].metrics.at(metric) by {
            assert(front[before[k]] == rows[before[k]]);
        }
        assert forall|i: int|
            0 <= i < rows.len() && (#[trigger] rows[i]).ok && rows[i].metrics.names().contains(
                metric,
            ) implies at.contains(i) by {
            if i < n {
                assert(front[i] == rows[i]);
                assert(before.contains(i));
                let k = choose|k: int| 0 <= k < before.len() && before[k] == i;
                assert(at[k] == i);
            } else {
                assert(at[before.len() as int] == i);
            }
        }
        at
    }
}

/// A group counts all its runs, and those that failed; a metric is averaged over the runs that
/// worked and carry it, each once, and is there just where one does.
pub proof fn a_metric_is_of_the_runs_that_carry_it(
    rows: Seq<Row>,
    group: Group,
    metric: Seq<char>,
) -> (at: Seq<int>)
    requires
        aggregate::is_group(rows, group),
    ensures
        group.runs == rows.len(),
        group.failed == counting::how_many(rows, |row: Row| !row.ok),
        forall|j: int, k: int| 0 <= j < k < at.len() ==> #[trigger] at[j] < #[trigger] at[k],
        forall|i: int| #[trigger]
            at.contains(i) == (0 <= i < rows.len() && rows[i].ok && rows[i].metrics.names().contains(
                metric,
            )),
        group.metrics.names().contains(metric) == (at.len() > 0),
        at.len() > 0 ==> aggregate::is_stat(
            at.map_values(|i: int| rows[i].metrics.at(metric)),
            group.metrics.at(metric),
        ),
{
    let at = carrying(rows, metric);
    assert forall|i: int| #[trigger] at.contains(i) implies 0 <= i < rows.len() && rows[i].ok
        && rows[i].metrics.names().contains(metric) by {
        let k = choose|k: int| 0 <= k < at.len() && at[k] == i;
        assert(0 <= at[k] < rows.len());
    }
    assert(at.map_values(|i: int| rows[i].metrics.at(metric)) =~= aggregate::samples(rows, metric));
    at
}

proof fn mentions_count(rows: Seq<Row>, model: Seq<char>)
    ensures
        aggregate::mentions(rows, model) == counting::total(
            rows,
            |row: Row| counting::how_many(row.models@, |name: String| name@ == model) as int,
        ),
    decreases rows.len(),
{
    if rows.len() > 0 {
        mentions_count(rows.drop_last(), model);
        times_named_counts(rows.last().models@, model);
    }
}

proof fn times_named_counts(list: Seq<String>, model: Seq<char>)
    ensures
        aggregate::times_named(list, model) == counting::how_many(
            list,
            |name: String| name@ == model,
        ),
    decreases list.len(),
{
    if list.len() > 0 {
        times_named_counts(list.drop_last(), model);
    }
}

/// Each model is named with how often the runs name it, and each wiki revision that a run was
/// measured against is named, but for none at all.
pub proof fn models_and_revisions_are_named(
    rows: Seq<Row>,
    found: Aggregates,
    model: Seq<char>,
    wiki: Seq<char>,
)
    requires
        aggregate::is_aggregate(rows, found),
    ensures
        ({
            let times = counting::total(
                rows,
                |row: Row| counting::how_many(row.models@, |name: String| name@ == model) as int,
            );
            &&& found.models.names().contains(model) == (times > 0)
            &&& times > 0 ==> found.models.at(model) == times
        }),
        (exists|k: int| 0 <= k < found.wiki.len() && (#[trigger] found.wiki@[k])@ == wiki) == (
        wiki.len() > 0 && exists|i: int|
            0 <= i < rows.len() && (#[trigger] rows[i]).wiki@ == wiki),
{
    mentions_count(rows, model);
    let list = crate::text::texts(found.wiki@);
    if list.contains(wiki) {
        let k = choose|k: int| 0 <= k < list.len() && list[k] == wiki;
        assert(found.wiki@[k]@ == wiki);
    }
    if exists|k: int| 0 <= k < found.wiki.len() && (#[trigger] found.wiki@[k])@ == wiki {
        let k = choose|k: int| 0 <= k < found.wiki.len() && (#[trigger] found.wiki@[k])@ == wiki;
        assert(list[k] == wiki);
    }
}

} // verus!
