//! The rows, reduced to numbers keyed by query id, category and condition.

use vstd::prelude::*;

use crate::counting;
use crate::doc::{copy, Num};
use crate::doubles;
use crate::json;
use crate::ordered;
use crate::ordered::Table;
use crate::report::Method;
use crate::row::Row;
use crate::text;

verus! {

/// One metric over a set of runs.
pub struct Stat {
    pub mean: Num,
    /// The sample standard deviation, none for a single run: one measurement has no spread, and
    /// reporting zero would claim it does.
    pub sd: Option<Num>,
    pub min: Num,
    pub max: Num,
    pub n: usize,
    /// Whether the greatest measurement is zero.
    pub never_more_than_zero: bool,
    /// How many measurements are zero.
    pub zeros: usize,
}

/// Every metric over one set of runs, plus how many runs there were.
pub struct Group {
    pub runs: usize,
    /// Runs that produced no measurement, counted but not averaged.
    pub failed: usize,
    pub metrics: Table<Stat>,
}

/// One query's runs under one condition.
pub struct QueryGroup {
    pub category: String,
    pub group: Group,
}

/// The runs of one condition at one tier.
pub struct Condition {
    /// The condition, empty where only the key says it.
    pub condition: String,
    /// The model that was asked for, where one was.
    pub model: Option<String>,
    pub overall: Group,
    pub by_query: Table<QueryGroup>,
    pub by_category: Table<Group>,
}

/// The sum of doubles, in order.
pub open spec fn sum_of(samples: Seq<u64>) -> Num
    decreases samples.len(),
{
    if samples.len() == 0 {
        Num::Whole(0)
    } else {
        Num::Plus(
            Box::new(sum_of(samples.drop_last())),
            Box::new(Num::Double(samples.last())),
        )
    }
}

pub open spec fn mean_of(samples: Seq<u64>) -> Num {
    Num::Over(Box::new(sum_of(samples)), Box::new(Num::Whole(samples.len() as u64)))
}

/// The square of how far a double is from another number.
pub open spec fn square(sample: u64, mean: Num) -> Num {
    let far = Num::Minus(Box::new(Num::Double(sample)), Box::new(mean));
    Num::Times(Box::new(far), Box::new(far))
}

pub open spec fn squares(samples: Seq<u64>, mean: Num) -> Num
    decreases samples.len(),
{
    if samples.len() == 0 {
        Num::Whole(0)
    } else {
        Num::Plus(
            Box::new(squares(samples.drop_last(), mean)),
            Box::new(square(samples.last(), mean)),
        )
    }
}

/// The standard deviation is the sample one, over one less than the number of runs, because these
/// runs are a sample of what the agent would do and not the whole of it.
pub open spec fn spread_of(samples: Seq<u64>) -> Num {
    Num::Root(
        Box::new(
            Num::Over(
                Box::new(squares(samples, mean_of(samples))),
                Box::new(Num::Whole((samples.len() - 1) as u64)),
            ),
        ),
    )
}

pub open spec fn least_of(samples: Seq<u64>) -> Num
    decreases samples.len(),
{
    if samples.len() == 0 {
        Num::Whole(0)
    } else if samples.len() == 1 {
        Num::Double(samples[0])
    } else {
        Num::Least(
            Box::new(least_of(samples.drop_last())),
            Box::new(Num::Double(samples.last())),
        )
    }
}

pub open spec fn greatest_of(samples: Seq<u64>) -> Num
    decreases samples.len(),
{
    if samples.len() == 0 {
        Num::Whole(0)
    } else if samples.len() == 1 {
        Num::Double(samples[0])
    } else {
        Num::Greatest(
            Box::new(greatest_of(samples.drop_last())),
            Box::new(Num::Double(samples.last())),
        )
    }
}

/// What a metric's measurements come to.
pub open spec fn is_stat(samples: Seq<u64>, stat: Stat) -> bool {
    &&& stat.n == samples.len()
    &&& stat.mean == mean_of(samples)
    &&& stat.sd == if samples.len() > 1 {
        Some(spread_of(samples))
    } else {
        None
    }
    &&& stat.min == least_of(samples)
    &&& stat.max == greatest_of(samples)
    &&& stat.never_more_than_zero == doubles::greatest_is_zero(samples)
    &&& stat.zeros == counting::how_many(samples, |bits: u64| doubles::is_zero(bits))
}

/// One metric's spread.
pub fn stat(samples: &Vec<u64>) -> (found: Stat)
    ensures
        is_stat(samples@, found),
{
    let n: usize = samples.len();
    let mut sum = Num::Whole(0);
    let mut min = Num::Whole(0);
    let mut max = Num::Whole(0);
    let mut zeros: usize = 0;
    for i in 0..n
        invariant
            n == samples.len(),
            sum == sum_of(samples@.take(i as int)),
            min == least_of(samples@.take(i as int)),
            max == greatest_of(samples@.take(i as int)),
            zeros == counting::how_many(
                samples@.take(i as int),
                |bits: u64| doubles::is_zero(bits),
            ),
            zeros <= i,
    {
        proof {
            counting::one_more(samples@, i as int);
        }
        let one: u64 = samples[i];
        sum = Num::Plus(Box::new(sum), Box::new(Num::Double(one)));
        if i == 0 {
            min = Num::Double(one);
            max = Num::Double(one);
        } else {
            min = Num::Least(Box::new(min), Box::new(Num::Double(one)));
            max = Num::Greatest(Box::new(max), Box::new(Num::Double(one)));
        }
        if doubles::zero(one) {
            zeros += 1;
        }
    }
    proof {
        counting::take_all(samples@);
    }
    let mean = Num::Over(Box::new(sum), Box::new(Num::Whole(n as u64)));
    let sd: Option<Num> = if n > 1 {
        let mut far = Num::Whole(0);
        for i in 0..n
            invariant
                n == samples.len(),
                mean == mean_of(samples@),
                far == squares(samples@.take(i as int), mean),
        {
            proof {
                counting::one_more(samples@, i as int);
            }
            let one: u64 = samples[i];
            let a = Num::Minus(Box::new(Num::Double(one)), Box::new(copy(&mean)));
            let b = Num::Minus(Box::new(Num::Double(one)), Box::new(copy(&mean)));
            far = Num::Plus(Box::new(far), Box::new(Num::Times(Box::new(a), Box::new(b))));
        }
        proof {
            counting::take_all(samples@);
        }
        Some(
            Num::Root(
                Box::new(Num::Over(Box::new(far), Box::new(Num::Whole((n - 1) as u64)))),
            ),
        )
    } else {
        None
    };
    Stat {
        mean,
        sd,
        min,
        max,
        n,
        never_more_than_zero: doubles::is_greatest_zero(samples),
        zeros,
    }
}

/// Whether a run that worked carries a metric.
pub open spec fn carries(row: Row, metric: Seq<char>) -> bool {
    row.ok && row.metrics.names().contains(metric)
}

/// A metric's measurements, over the runs that carried it.
pub open spec fn samples(rows: Seq<Row>, metric: Seq<char>) -> Seq<u64>
    decreases rows.len(),
{
    if rows.len() == 0 {
        Seq::empty()
    } else if carries(rows.last(), metric) {
        samples(rows.drop_last(), metric).push(rows.last().metrics.at(metric))
    } else {
        samples(rows.drop_last(), metric)
    }
}

/// Every metric named by any run in the set, over the runs that carried it. A run that failed is
/// counted and left out of every average.
pub open spec fn is_group(rows: Seq<Row>, group: Group) -> bool {
    &&& group.runs == rows.len()
    &&& group.failed == counting::how_many(rows, |row: Row| !row.ok)
    &&& forall|metric: Seq<char>| #[trigger]
        group.metrics.names().contains(metric) == (samples(rows, metric).len() > 0)
    &&& forall|metric: Seq<char>|
        samples(rows, metric).len() > 0 ==> is_stat(
            samples(rows, metric),
            #[trigger] group.metrics.at(metric),
        )
}

/// The rows at some places of a list.
pub open spec fn picked(rows: Seq<Row>, places: Seq<usize>) -> Seq<Row> {
    places.map_values(|at: usize| rows[at as int])
}

pub open spec fn inside(rows: Seq<Row>, places: Seq<usize>) -> bool {
    forall|i: int| 0 <= i < places.len() ==> (#[trigger] places[i]) < rows.len()
}

/// The names of all metrics that the first runs of a set carry.
fn metric_names(rows: &Vec<Row>, places: &Vec<usize>) -> (names: Vec<String>)
    requires
        inside(rows@, places@),
    ensures
        ordered::ascending(text::texts(names@)),
        forall|metric: Seq<char>| #[trigger]
            text::texts(names@).contains(metric) == (samples(picked(rows@, places@), metric).len()
                > 0),
{
    let mut names: Vec<String> = Vec::new();
    let ghost set = picked(rows@, places@);
    assert(text::texts(names@) =~= Seq::<Seq<char>>::empty());
    for i in 0..places.len()
        invariant
            inside(rows@, places@),
            set == picked(rows@, places@),
            ordered::ascending(text::texts(names@)),
            forall|metric: Seq<char>| #[trigger]
                text::texts(names@).contains(metric) == (samples(set.take(i as int), metric).len()
                    > 0),
    {
        proof {
            counting::one_more(set, i as int);
        }
        let at: usize = places[i];
        let ghost row = rows@[at as int];
        assert(set[i as int] == row);
        let ghost before = text::texts(names@);
        if rows[at].ok {
            let width: usize = rows[at].metrics.len();
            for k in 0..width
                invariant
                    at < rows.len(),
                    row == rows@[at as int],
                    width == row.metrics.names().len(),
                    ordered::ascending(text::texts(names@)),
                    forall|metric: Seq<char>| #[trigger]
                        text::texts(names@).contains(metric) == (before.contains(metric)
                            || row.metrics.names().take(k as int).contains(metric)),
            {
                let ghost was = text::texts(names@);
                let name: String = rows[at].metrics.name(k).clone();
                let ghost added = name@;
                ordered::add(&mut names, name);
                proof {
                    let all = row.metrics.names();
                    counting::holds_one_more(all, k as int);
                    assert forall|metric: Seq<char>| #[trigger]
                        text::texts(names@).contains(metric) == (before.contains(metric)
                            || all.take(k + 1).contains(metric)) by {
                        assert(was.contains(metric) == (before.contains(metric) || all.take(
                            k as int,
                        ).contains(metric)));
                    }
                }
            }
            proof {
                counting::take_all(row.metrics.names());
            }
        }
        assert forall|metric: Seq<char>| #[trigger]
            text::texts(names@).contains(metric) == (samples(set.take(i + 1), metric).len()
                > 0) by {
            assert(before.contains(metric) == (samples(set.take(i as int), metric).len() > 0));
        }
    }
    proof {
        counting::take_all(set);
    }
    names
}

fn samples_of(rows: &Vec<Row>, places: &Vec<usize>, metric: &str) -> (list: Vec<u64>)
    requires
        inside(rows@, places@),
    ensures
        list@ == samples(picked(rows@, places@), metric@),
{
    let mut list: Vec<u64> = Vec::new();
    let ghost set = picked(rows@, places@);
    for i in 0..places.len()
        invariant
            inside(rows@, places@),
            set == picked(rows@, places@),
            list@ == samples(set.take(i as int), metric@),
    {
        proof {
            counting::one_more(set, i as int);
        }
        let at: usize = places[i];
        assert(set[i as int] == rows@[at as int]);
        if rows[at].ok {
            match rows[at].metrics.get(metric) {
                Some(value) => list.push(*value),
                None => {},
            }
        }
    }
    proof {
        counting::take_all(set);
    }
    list
}

/// Every metric of some of the rows.
fn group(rows: &Vec<Row>, places: &Vec<usize>) -> (found: Group)
    requires
        inside(rows@, places@),
    ensures
        is_group(picked(rows@, places@), found),
{
    let ghost set = picked(rows@, places@);
    let names: Vec<String> = metric_names(rows, places);
    let ghost all = text::texts(names@);
    let mut metrics: Table<Stat> = Table::new();
    for i in 0..names.len()
        invariant
            inside(rows@, places@),
            set == picked(rows@, places@),
            all == text::texts(names@),
            forall|metric: Seq<char>| #[trigger]
                all.contains(metric) == (samples(set, metric).len() > 0),
            forall|metric: Seq<char>| #[trigger]
                metrics.names().contains(metric) == all.take(i as int).contains(metric),
            forall|metric: Seq<char>|
                all.take(i as int).contains(metric) ==> is_stat(
                    samples(set, metric),
                    #[trigger] metrics.at(metric),
                ),
    {
        let ghost was = metrics;
        let list: Vec<u64> = samples_of(rows, places, names[i].as_str());
        metrics.set(names[i].clone(), stat(&list));
        proof {
            let next = all.take(i + 1);
            assert(all[i as int] == names@[i as int]@);
            counting::holds_one_more(all, i as int);
            assert forall|metric: Seq<char>| #[trigger]
                metrics.names().contains(metric) == next.contains(metric) by {
                assert(was.names().contains(metric) == all.take(i as int).contains(metric));
            }
            assert forall|metric: Seq<char>| next.contains(metric) implies is_stat(
                samples(set, metric),
                #[trigger] metrics.at(metric),
            ) by {
                if metric != all[i as int] {
                    assert(was.names().contains(metric) == all.take(i as int).contains(metric));
                    assert(metrics.at(metric) == was.at(metric));
                }
            }
        }
    }
    proof {
        counting::take_all(all);
    }
    let mut failed: usize = 0;
    for i in 0..places.len()
        invariant
            inside(rows@, places@),
            set == picked(rows@, places@),
            failed == counting::how_many(set.take(i as int), |row: Row| !row.ok),
            failed <= i,
    {
        proof {
            counting::one_more(set, i as int);
        }
        let at: usize = places[i];
        assert(set[i as int] == rows@[at as int]);
        if !rows[at].ok {
            failed += 1;
        }
    }
    proof {
        counting::take_all(set);
    }
    Group { runs: places.len(), failed, metrics }
}

/// Everything the report is rendered from, besides the graph statistics.
pub struct Aggregates {
    /// Distinct queries any condition ran.
    pub queries: usize,
    /// The models the measured work ran on, by how many runs each.
    pub models: Table<usize>,
    /// The wiki revisions the rows were measured against, one entry per distinct revision. More
    /// than one is a directory that mixed two cuts of a wiki.
    pub wiki: Vec<String>,
    /// How many runs were bought for this directory. Only the runner knows, and only it fills
    /// this in.
    pub bought: Option<usize>,
    pub conditions: Table<Condition>,
    /// How the runs were made, filled in by the runner.
    pub method: Option<Method>,
}

/// How a character of a condition is written in what its runs are filed under: the mark before a
/// model is none of it.
pub open spec fn marked(c: char) -> Seq<char> {
    if c == '@' {
        seq!['%', '4', '0']
    } else if c == '%' {
        seq!['%', '2', '5']
    } else {
        seq![c]
    }
}

/// A condition, with no mark of a model in it.
pub open spec fn unmarked(condition: Seq<char>) -> Seq<char>
    decreases condition.len(),
{
    if condition.len() == 0 {
        Seq::empty()
    } else {
        marked(condition[0]) + unmarked(condition.skip(1))
    }
}

/// What the runs of a condition at a tier are filed under: the condition, and the model that was
/// asked for where one was.
pub open spec fn tier(condition: Seq<char>, model: Option<Seq<char>>) -> Seq<char> {
    match model {
        Some(model) => unmarked(condition) + seq!['@'] + model,
        None => unmarked(condition),
    }
}

proof fn unmarked_holds_no_mark(condition: Seq<char>)
    ensures
        forall|i: int|
            0 <= i < unmarked(condition).len() ==> #[trigger] unmarked(condition)[i] != '@',
    decreases condition.len(),
{
    if condition.len() > 0 {
        let rest = condition.skip(1);
        unmarked_holds_no_mark(rest);
        let first = marked(condition[0]);
        assert forall|i: int| 0 <= i < unmarked(condition).len() implies #[trigger] unmarked(
            condition,
        )[i] != '@' by {
            if i >= first.len() {
                assert(unmarked(condition)[i] == unmarked(rest)[i - first.len()]);
            } else {
                assert(unmarked(condition)[i] == first[i]);
            }
        }
    }
}

proof fn unmarked_is_one_to_one(a: Seq<char>, b: Seq<char>)
    requires
        unmarked(a) == unmarked(b),
    ensures
        a == b,
    decreases a.len(),
{
    if a.len() > 0 && b.len() > 0 {
        let (x, y) = (marked(a[0]), marked(b[0]));
        let (u, v) = (unmarked(a.skip(1)), unmarked(b.skip(1)));
        assert(unmarked(a)[0] == x[0] && unmarked(b)[0] == y[0]);
        if x.len() == 3 && y.len() == 3 {
            assert(unmarked(a)[2] == x[2] && unmarked(b)[2] == y[2]);
        }
        assert(a[0] == b[0]);
        assert(u =~= unmarked(a).skip(x.len() as int));
        assert(v =~= unmarked(b).skip(y.len() as int));
        unmarked_is_one_to_one(a.skip(1), b.skip(1));
        assert(a =~= seq![a[0]] + a.skip(1));
        assert(b =~= seq![b[0]] + b.skip(1));
    } else if a.len() > 0 {
        assert(unmarked(a).len() > 0);
    } else if b.len() > 0 {
        assert(unmarked(b).len() > 0);
    } else {
        assert(a =~= b);
    }
}

/// Runs of two conditions, or of one asked for two models, are never filed together.
pub proof fn tiers_are_told_apart(
    a: Seq<char>,
    asked_a: Option<Seq<char>>,
    b: Seq<char>,
    asked_b: Option<Seq<char>>,
)
    requires
        tier(a, asked_a) == tier(b, asked_b),
    ensures
        a == b,
        asked_a == asked_b,
{
    unmarked_holds_no_mark(a);
    unmarked_holds_no_mark(b);
    let (x, y) = (unmarked(a), unmarked(b));
    let key = tier(a, asked_a);
    if asked_a is Some {
        assert(key[x.len() as int] == '@');
        if x.len() < y.len() {
            assert(key[x.len() as int] == y[x.len() as int]);
        }
    }
    if asked_b is Some {
        assert(key[y.len() as int] == '@');
        if y.len() < x.len() {
            assert(key[y.len() as int] == x[y.len() as int]);
        }
    }
    assert(x.len() == y.len());
    assert(x =~= key.take(x.len() as int));
    assert(y =~= key.take(y.len() as int));
    unmarked_is_one_to_one(a, b);
    if asked_a is Some {
        assert(asked_a->0 =~= key.skip(x.len() as int + 1));
        assert(asked_b->0 =~= key.skip(y.len() as int + 1));
    }
}

pub open spec fn tier_of(row: Row) -> Seq<char> {
    tier(row.condition@, json::text_of(row.model_asked_for))
}

fn row_tier(row: &Row) -> (key: String)
    ensures
        key@ == tier_of(*row),
{
    let all: Vec<char> = text::chars(row.condition.as_str());
    let mut key = String::new();
    assert(all@.skip(0) =~= all@);
    assert(unmarked(all@) =~= key@ + unmarked(all@.skip(0)));
    for i in 0..all.len()
        invariant
            unmarked(all@) == key@ + unmarked(all@.skip(i as int)),
    {
        let ghost was = key@;
        let ghost rest = all@.skip(i as int);
        let c: char = all[i];
        if c == '@' {
            key.push('%');
            key.push('4');
            key.push('0');
        } else if c == '%' {
            key.push('%');
            key.push('2');
            key.push('5');
        } else {
            key.push(c);
        }
        assert(key@ =~= was + marked(rest[0]));
        assert(rest.skip(1) =~= all@.skip(i + 1));
        assert(was + unmarked(rest) =~= key@ + unmarked(rest.skip(1)));
    }
    assert(all@.skip(all.len() as int) =~= Seq::<char>::empty());
    assert(key@ =~= unmarked(all@));
    match &row.model_asked_for {
        Some(model) => {
            let ghost was = key@;
            key.push('@');
            assert(key@ =~= was + seq!['@']);
            key.append(model.as_str());
        },
        None => {},
    }
    key
}

pub open spec fn in_tier(rows: Seq<Row>, key: Seq<char>) -> Seq<Row> {
    rows.filter(|row: Row| tier_of(row) == key)
}

pub open spec fn in_query(rows: Seq<Row>, id: Seq<char>) -> Seq<Row> {
    rows.filter(|row: Row| row.query_id@ == id)
}

pub open spec fn in_category(rows: Seq<Row>, name: Seq<char>) -> Seq<Row> {
    rows.filter(|row: Row| row.category@ == name)
}

/// The runs of a condition at a tier: overall, by query and by category.
pub open spec fn is_condition(rows: Seq<Row>, found: Condition) -> bool {
    &&& found.condition@ == rows[0].condition@
    &&& json::text_of(found.model) == json::text_of(rows[0].model_asked_for)
    &&& is_group(rows, found.overall)
    &&& forall|id: Seq<char>| #[trigger]
        found.by_query.names().contains(id) == (in_query(rows, id).len() > 0)
    &&& forall|id: Seq<char>|
        in_query(rows, id).len() > 0 ==> (#[trigger] found.by_query.at(id)).category@ == in_query(
            rows,
            id,
        )[0].category@ && is_group(in_query(rows, id), found.by_query.at(id).group)
    &&& forall|name: Seq<char>| #[trigger]
        found.by_category.names().contains(name) == (in_category(rows, name).len() > 0)
    &&& forall|name: Seq<char>|
        in_category(rows, name).len() > 0 ==> is_group(
            in_category(rows, name),
            #[trigger] found.by_category.at(name),
        )
}

/// How often a list names a model.
pub open spec fn times_named(list: Seq<String>, model: Seq<char>) -> nat
    decreases list.len(),
{
    if list.len() == 0 {
        0
    } else {
        times_named(list.drop_last(), model) + if list.last()@ == model {
            1nat
        } else {
            0nat
        }
    }
}

proof fn times_named_is_bounded(list: Seq<String>, model: Seq<char>)
    ensures
        times_named(list, model) <= list.len(),
    decreases list.len(),
{
    if list.len() > 0 {
        times_named_is_bounded(list.drop_last(), model);
    }
}

/// How often the rows name a model.
pub open spec fn mentions(rows: Seq<Row>, model: Seq<char>) -> nat
    decreases rows.len(),
{
    if rows.len() == 0 {
        0
    } else {
        mentions(rows.drop_last(), model) + times_named(rows.last().models@, model)
    }
}

/// How many models the rows name.
pub open spec fn models_named(rows: Seq<Row>) -> int {
    counting::total(rows, |row: Row| row.models.len() as int)
}

/// The distinct queries of the rows, in order.
pub open spec fn are_queries(rows: Seq<Row>, ids: Seq<Seq<char>>) -> bool {
    &&& ordered::ascending(ids)
    &&& forall|id: Seq<char>| #[trigger]
        ids.contains(id) == exists|i: int|
            0 <= i < rows.len() && (#[trigger] rows[i]).query_id@ == id
}

/// The rows, reduced to numbers.
pub open spec fn is_aggregate(rows: Seq<Row>, found: Aggregates) -> bool {
    &&& exists|ids: Seq<Seq<char>>| #[trigger]
        are_queries(rows, ids) && found.queries == ids.len()
    &&& forall|model: Seq<char>| #[trigger]
        found.models.names().contains(model) == (mentions(rows, model) > 0)
    &&& forall|model: Seq<char>|
        mentions(rows, model) > 0 ==> #[trigger] found.models.at(model) == mentions(rows, model)
    &&& ordered::ascending(text::texts(found.wiki@))
    &&& forall|wiki: Seq<char>| #[trigger]
        text::texts(found.wiki@).contains(wiki) == (wiki.len() > 0 && exists|i: int|
            0 <= i < rows.len() && (#[trigger] rows[i]).wiki@ == wiki)
    &&& found.bought is None
    &&& forall|key: Seq<char>| #[trigger]
        found.conditions.names().contains(key) == (in_tier(rows, key).len() > 0)
    &&& forall|key: Seq<char>|
        in_tier(rows, key).len() > 0 ==> is_condition(
            in_tier(rows, key),
            #[trigger] found.conditions.at(key),
        )
    &&& found.method is None
}

proof fn filter_is_some<T>(list: Seq<T>, test: spec_fn(T) -> bool)
    ensures
        (list.filter(test).len() > 0) == exists|i: int| 0 <= i < list.len() && test(#[trigger] list[i]),
{
    let kept = list.filter(test);
    if kept.len() > 0 {
        list.lemma_filter_pred(test, 0);
        assert(kept.contains(kept[0]));
        list.lemma_filter_contains_rev(test, kept[0]);
        let i = choose|i: int| 0 <= i < list.len() && list[i] == kept[0];
        assert(test(list[i]));
    }
    if exists|i: int| 0 <= i < list.len() && test(#[trigger] list[i]) {
        let i = choose|i: int| 0 <= i < list.len() && test(#[trigger] list[i]);
        list.lemma_filter_contains(test, i);
        assert(kept.contains(list[i]));
    }
}

/// All places of a list.
fn everywhere(rows: &Vec<Row>) -> (places: Vec<usize>)
    ensures
        inside(rows@, places@),
        picked(rows@, places@) == rows@,
{
    let mut places: Vec<usize> = Vec::new();
    for i in 0..rows.len()
        invariant
            places.len() == i,
            forall|k: int| 0 <= k < i ==> #[trigger] places@[k] == k,
    {
        places.push(i);
    }
    assert(picked(rows@, places@) =~= rows@);
    places
}

proof fn picks_one_more(
    rows: Seq<Row>,
    places: Seq<usize>,
    kept: Seq<usize>,
    n: int,
    test: spec_fn(Row) -> bool,
    now: Seq<usize>,
)
    requires
        0 <= n < places.len(),
        picked(rows, kept) == picked(rows, places).take(n).filter(test),
        now == if test(rows[places[n] as int]) {
            kept.push(places[n])
        } else {
            kept
        },
    ensures
        picked(rows, now) == picked(rows, places).take(n + 1).filter(test),
{
    let set = picked(rows, places);
    counting::one_more(set, n);
    reveal(Seq::filter);
    assert(set[n] == rows[places[n] as int]);
    if test(rows[places[n] as int]) {
        assert(picked(rows, now) =~= picked(rows, kept).push(rows[places[n] as int]));
    }
}

proof fn picks_none(rows: Seq<Row>, places: Seq<usize>, test: spec_fn(Row) -> bool)
    ensures
        picked(rows, Seq::empty()) == picked(rows, places).take(0).filter(test),
{
    reveal(Seq::filter);
    assert(picked(rows, places).take(0) =~= Seq::empty());
    assert(picked(rows, Seq::empty()) =~= picked(rows, places).take(0).filter(test));
}

fn of_tier(rows: &Vec<Row>, places: &Vec<usize>, key: &str) -> (kept: Vec<usize>)
    requires
        inside(rows@, places@),
    ensures
        inside(rows@, kept@),
        picked(rows@, kept@) == in_tier(picked(rows@, places@), key@),
{
    let ghost test = |row: Row| tier_of(row) == key@;
    let mut kept: Vec<usize> = Vec::new();
    proof {
        picks_none(rows@, places@, test);
    }
    for i in 0..places.len()
        invariant
            inside(rows@, places@),
            inside(rows@, kept@),
            test == (|row: Row| tier_of(row) == key@),
            picked(rows@, kept@) == picked(rows@, places@).take(i as int).filter(test),
    {
        let ghost was = kept@;
        let at: usize = places[i];
        let name: String = row_tier(&rows[at]);
        if text::same(name.as_str(), key) {
            kept.push(at);
        }
        proof {
            picks_one_more(rows@, places@, was, i as int, test, kept@);
        }
    }
    proof {
        counting::take_all(picked(rows@, places@));
    }
    kept
}

fn of_query(rows: &Vec<Row>, places: &Vec<usize>, id: &str) -> (kept: Vec<usize>)
    requires
        inside(rows@, places@),
    ensures
        inside(rows@, kept@),
        picked(rows@, kept@) == in_query(picked(rows@, places@), id@),
{
    let ghost test = |row: Row| row.query_id@ == id@;
    let mut kept: Vec<usize> = Vec::new();
    proof {
        picks_none(rows@, places@, test);
    }
    for i in 0..places.len()
        invariant
            inside(rows@, places@),
            inside(rows@, kept@),
            test == (|row: Row| row.query_id@ == id@),
            picked(rows@, kept@) == picked(rows@, places@).take(i as int).filter(test),
    {
        let ghost was = kept@;
        let at: usize = places[i];
        if text::same(rows[at].query_id.as_str(), id) {
            kept.push(at);
        }
        proof {
            picks_one_more(rows@, places@, was, i as int, test, kept@);
        }
    }
    proof {
        counting::take_all(picked(rows@, places@));
    }
    kept
}

fn of_category(rows: &Vec<Row>, places: &Vec<usize>, name: &str) -> (kept: Vec<usize>)
    requires
        inside(rows@, places@),
    ensures
        inside(rows@, kept@),
        picked(rows@, kept@) == in_category(picked(rows@, places@), name@),
{
    let ghost test = |row: Row| row.category@ == name@;
    let mut kept: Vec<usize> = Vec::new();
    proof {
        picks_none(rows@, places@, test);
    }
    for i in 0..places.len()
        invariant
            inside(rows@, places@),
            inside(rows@, kept@),
            test == (|row: Row| row.category@ == name@),
            picked(rows@, kept@) == picked(rows@, places@).take(i as int).filter(test),
    {
        let ghost was = kept@;
        let at: usize = places[i];
        if text::same(rows[at].category.as_str(), name) {
            kept.push(at);
        }
        proof {
            picks_one_more(rows@, places@, was, i as int, test, kept@);
        }
    }
    proof {
        counting::take_all(picked(rows@, places@));
    }
    kept
}

/// The runs of a condition at a tier, by query.
fn by_query(rows: &Vec<Row>, places: &Vec<usize>) -> (found: Table<QueryGroup>)
    requires
        inside(rows@, places@),
    ensures
        ({
            let set = picked(rows@, places@);
            &&& forall|id: Seq<char>| #[trigger]
                found.names().contains(id) == (in_query(set, id).len() > 0)
            &&& forall|id: Seq<char>|
                in_query(set, id).len() > 0 ==> (#[trigger] found.at(id)).category@ == in_query(
                    set,
                    id,
                )[0].category@ && is_group(in_query(set, id), found.at(id).group)
        }),
{
    let ghost set = picked(rows@, places@);
    let mut found: Table<QueryGroup> = Table::new();
    for i in 0..places.len()
        invariant
            inside(rows@, places@),
            set == picked(rows@, places@),
            forall|id: Seq<char>| #[trigger]
                found.names().contains(id) == exists|k: int|
                    0 <= k < i && (#[trigger] set[k]).query_id@ == id,
            forall|id: Seq<char>|
                found.names().contains(id) ==> (#[trigger] found.at(id)).category@ == in_query(
                    set,
                    id,
                )[0].category@ && is_group(in_query(set, id), found.at(id).group),
    {
        let ghost was = found;
        let at: usize = places[i];
        let ghost row = rows@[at as int];
        assert(set[i as int] == row);
        proof {
            filter_is_some(set, |row: Row| row.query_id@ == rows@[at as int].query_id@);
        }
        let kept: Vec<usize> = of_query(rows, places, rows[at].query_id.as_str());
        assert(picked(rows@, kept@).len() == kept.len());
        assert(picked(rows@, kept@)[0] == rows@[kept@[0] as int]);
        let category: String = rows[kept[0]].category.clone();
        found.set(
            rows[at].query_id.clone(),
            QueryGroup { category, group: group(rows, &kept) },
        );
        proof {
            assert forall|id: Seq<char>| #[trigger]
                found.names().contains(id) == exists|k: int|
                    0 <= k < i + 1 && (#[trigger] set[k]).query_id@ == id by {
                assert(was.names().contains(id) == exists|k: int|
                    0 <= k < i && (#[trigger] set[k]).query_id@ == id);
                if id == row.query_id@ {
                    assert(set[i as int].query_id@ == id);
                }
            }
            assert forall|id: Seq<char>| found.names().contains(id) implies (
            #[trigger] found.at(id)).category@ == in_query(set, id)[0].category@ && is_group(
                in_query(set, id),
                found.at(id).group,
            ) by {
                if id != row.query_id@ {
                    assert(was.names().contains(id));
                    assert(found.at(id) == was.at(id));
                }
            }
        }
    }
    proof {
        assert forall|id: Seq<char>| #[trigger]
            found.names().contains(id) == (in_query(set, id).len() > 0) by {
            filter_is_some(set, |row: Row| row.query_id@ == id);
            if found.names().contains(id) {
                let k = choose|k: int| 0 <= k < set.len() && (#[trigger] set[k]).query_id@ == id;
                assert((|row: Row| row.query_id@ == id)(set[k]));
            }
            if in_query(set, id).len() > 0 {
                let k = choose|k: int|
                    0 <= k < set.len() && (|row: Row| row.query_id@ == id)(#[trigger] set[k]);
                assert(set[k].query_id@ == id);
            }
        }
    }
    found
}

/// The runs of a condition at a tier, by category.
fn by_category(rows: &Vec<Row>, places: &Vec<usize>) -> (found: Table<Group>)
    requires
        inside(rows@, places@),
    ensures
        ({
            let set = picked(rows@, places@);
            &&& forall|name: Seq<char>| #[trigger]
                found.names().contains(name) == (in_category(set, name).len() > 0)
            &&& forall|name: Seq<char>|
                in_category(set, name).len() > 0 ==> is_group(
                    in_category(set, name),
                    #[trigger] found.at(name),
                )
        }),
{
    let ghost set = picked(rows@, places@);
    let mut found: Table<Group> = Table::new();
    for i in 0..places.len()
        invariant
            inside(rows@, places@),
            set == picked(rows@, places@),
            forall|name: Seq<char>| #[trigger]
                found.names().contains(name) == exists|k: int|
                    0 <= k < i && (#[trigger] set[k]).category@ == name,
            forall|name: Seq<char>|
                found.names().contains(name) ==> is_group(
                    in_category(set, name),
                    #[trigger] found.at(name),
                ),
    {
        let ghost was = found;
        let at: usize = places[i];
        let ghost row = rows@[at as int];
        assert(set[i as int] == row);
        let kept: Vec<usize> = of_category(rows, places, rows[at].category.as_str());
        found.set(rows[at].category.clone(), group(rows, &kept));
        proof {
            assert forall|name: Seq<char>| #[trigger]
                found.names().contains(name) == exists|k: int|
                    0 <= k < i + 1 && (#[trigger] set[k]).category@ == name by {
                assert(was.names().contains(name) == exists|k: int|
                    0 <= k < i && (#[trigger] set[k]).category@ == name);
                if name == row.category@ {
                    assert(set[i as int].category@ == name);
                }
            }
            assert forall|name: Seq<char>| found.names().contains(name) implies is_group(
                in_category(set, name),
                #[trigger] found.at(name),
            ) by {
                if name != row.category@ {
                    assert(was.names().contains(name));
                    assert(found.at(name) == was.at(name));
                }
            }
        }
    }
    proof {
        assert forall|name: Seq<char>| #[trigger]
            found.names().contains(name) == (in_category(set, name).len() > 0) by {
            filter_is_some(set, |row: Row| row.category@ == name);
            if found.names().contains(name) {
                let k = choose|k: int| 0 <= k < set.len() && (#[trigger] set[k]).category@ == name;
                assert((|row: Row| row.category@ == name)(set[k]));
            }
            if in_category(set, name).len() > 0 {
                let k = choose|k: int|
                    0 <= k < set.len() && (|row: Row| row.category@ == name)(#[trigger] set[k]);
                assert(set[k].category@ == name);
            }
        }
    }
    found
}

/// The runs of one condition at one tier.
fn condition(rows: &Vec<Row>, places: &Vec<usize>) -> (found: Condition)
    requires
        inside(rows@, places@),
        places.len() > 0,
    ensures
        is_condition(picked(rows@, places@), found),
{
    let first: usize = places[0];
    assert(picked(rows@, places@)[0] == rows@[first as int]);
    Condition {
        condition: rows[first].condition.clone(),
        model: match &rows[first].model_asked_for {
            Some(model) => Some(model.clone()),
            None => None,
        },
        overall: group(rows, places),
        by_query: by_query(rows, places),
        by_category: by_category(rows, places),
    }
}

/// The runs, by condition and tier.
fn by_tier(rows: &Vec<Row>) -> (found: Table<Condition>)
    ensures
        forall|key: Seq<char>| #[trigger]
            found.names().contains(key) == (in_tier(rows@, key).len() > 0),
        forall|key: Seq<char>|
            in_tier(rows@, key).len() > 0 ==> is_condition(
                in_tier(rows@, key),
                #[trigger] found.at(key),
            ),
{
    let all: Vec<usize> = everywhere(rows);
    let mut found: Table<Condition> = Table::new();
    for i in 0..rows.len()
        invariant
            inside(rows@, all@),
            picked(rows@, all@) == rows@,
            forall|key: Seq<char>| #[trigger]
                found.names().contains(key) == exists|k: int|
                    0 <= k < i && tier_of(#[trigger] rows@[k]) == key,
            forall|key: Seq<char>|
                found.names().contains(key) ==> is_condition(
                    in_tier(rows@, key),
                    #[trigger] found.at(key),
                ),
    {
        let ghost was = found;
        let name: String = row_tier(&rows[i]);
        let ghost mine = name@;
        proof {
            filter_is_some(rows@, |row: Row| tier_of(row) == mine);
            assert((|row: Row| tier_of(row) == mine)(rows@[i as int]));
        }
        let kept: Vec<usize> = of_tier(rows, &all, name.as_str());
        assert(picked(rows@, kept@).len() == kept.len());
        found.set(name, condition(rows, &kept));
        proof {
            assert forall|key: Seq<char>| #[trigger]
                found.names().contains(key) == exists|k: int|
                    0 <= k < i + 1 && tier_of(#[trigger] rows@[k]) == key by {
                assert(was.names().contains(key) == exists|k: int|
                    0 <= k < i && tier_of(#[trigger] rows@[k]) == key);
                if key == mine {
                    assert(tier_of(rows@[i as int]) == key);
                }
            }
            assert forall|key: Seq<char>| found.names().contains(key) implies is_condition(
                in_tier(rows@, key),
                #[trigger] found.at(key),
            ) by {
                if key != mine {
                    assert(was.names().contains(key));
                    assert(found.at(key) == was.at(key));
                }
            }
        }
    }
    proof {
        assert forall|key: Seq<char>| #[trigger]
            found.names().contains(key) == (in_tier(rows@, key).len() > 0) by {
            filter_is_some(rows@, |row: Row| tier_of(row) == key);
            if found.names().contains(key) {
                let k = choose|k: int| 0 <= k < rows.len() && tier_of(#[trigger] rows@[k]) == key;
                assert((|row: Row| tier_of(row) == key)(rows@[k]));
            }
            if in_tier(rows@, key).len() > 0 {
                let k = choose|k: int|
                    0 <= k < rows.len() && (|row: Row| tier_of(row) == key)(#[trigger] rows@[k]);
                assert(tier_of(rows@[k]) == key);
            }
        }
    }
    found
}

proof fn mentions_are_bounded(rows: Seq<Row>, model: Seq<char>)
    ensures
        mentions(rows, model) <= models_named(rows),
    decreases rows.len(),
{
    if rows.len() > 0 {
        mentions_are_bounded(rows.drop_last(), model);
        times_named_is_bounded(rows.last().models@, model);
    }
}

/// The models the rows name, by how often.
fn models_of(rows: &Vec<Row>) -> (found: Table<usize>)
    requires
        models_named(rows@) <= usize::MAX,
    ensures
        forall|model: Seq<char>| #[trigger]
            found.names().contains(model) == (mentions(rows@, model) > 0),
        forall|model: Seq<char>|
            mentions(rows@, model) > 0 ==> #[trigger] found.at(model) == mentions(rows@, model),
{
    let mut found: Table<usize> = Table::new();
    for i in 0..rows.len()
        invariant
            models_named(rows@) <= usize::MAX,
            forall|model: Seq<char>| #[trigger]
                found.names().contains(model) == (mentions(rows@.take(i as int), model) > 0),
            forall|model: Seq<char>|
                mentions(rows@.take(i as int), model) > 0 ==> #[trigger] found.at(model)
                    == mentions(rows@.take(i as int), model),
    {
        let ghost front = rows@.take(i as int);
        let ghost next = rows@.take(i + 1);
        let ghost list = rows@[i as int].models@;
        proof {
            counting::one_more(rows@, i as int);
            counting::total_of_a_part(rows@, |row: Row| row.models.len() as int, i + 1);
        }
        let width: usize = rows[i].models.len();
        for k in 0..width
            invariant
                i < rows.len(),
                list == rows@[i as int].models@,
                width == list.len(),
                models_named(front) + width <= usize::MAX,
                forall|model: Seq<char>| #[trigger]
                    found.names().contains(model) == (mentions(front, model)
                        + times_named(list.take(k as int), model) > 0),
                forall|model: Seq<char>| #[trigger]
                    found.names().contains(model) ==> found.at(model) == mentions(front, model)
                        + times_named(list.take(k as int), model),
        {
            let ghost was = found;
            let name: String = rows[i].models[k].clone();
            let ghost mine = name@;
            let had: usize = match found.get(name.as_str()) {
                Some(n) => *n,
                None => 0,
            };
            proof {
                counting::one_more(list, k as int);
                mentions_are_bounded(front, mine);
                times_named_is_bounded(list.take(k as int), mine);
                assert(was.names().contains(mine) == (mentions(front, mine) + times_named(list.take(k as int), mine) > 0));
            }
            found.set(name, had + 1);
            proof {
                assert forall|model: Seq<char>| #[trigger]
                    found.names().contains(model) == (mentions(front, model) + times_named(list.take(k + 1), model) > 0) by {
                    assert(was.names().contains(model) == (mentions(front, model)
                        + times_named(list.take(k as int), model) > 0));
                }
                assert forall|model: Seq<char>| #[trigger]
                    found.names().contains(model) implies found.at(model) == mentions(front, model)
                    + times_named(list.take(k + 1), model) by {
                    if model != mine {
                        assert(was.names().contains(model));
                        assert(found.at(model) == was.at(model));
                    }
                }
            }
        }
        proof {
            counting::take_all(list);
            assert forall|model: Seq<char>| #[trigger]
                found.names().contains(model) == (mentions(next, model) > 0) by {}
            assert forall|model: Seq<char>| mentions(next, model) > 0 implies #[trigger] found.at(
                model,
            ) == mentions(next, model) by {
                assert(found.names().contains(model));
            }
        }
    }
    proof {
        counting::take_all(rows@);
    }
    found
}

/// Reduces the rows to numbers. Rows that failed are counted and left out of every average: a run
/// that errored has no recall, and averaging it as zero would make a broken harness look like a
/// bad method.
pub fn aggregate(rows: &Vec<Row>) -> (found: Aggregates)
    requires
        models_named(rows@) <= usize::MAX,
    ensures
        is_aggregate(rows@, found),
{
    let mut ids: Vec<String> = Vec::new();
    let mut wiki: Vec<String> = Vec::new();
    assert(text::texts(ids@) =~= Seq::<Seq<char>>::empty());
    assert(text::texts(wiki@) =~= Seq::<Seq<char>>::empty());
    for i in 0..rows.len()
        invariant
            ordered::ascending(text::texts(ids@)),
            forall|value: Seq<char>| #[trigger]
                text::texts(ids@).contains(value) == exists|k: int|
                    0 <= k < i && (#[trigger] rows@[k]).query_id@ == value,
            ordered::ascending(text::texts(wiki@)),
            forall|value: Seq<char>| #[trigger]
                text::texts(wiki@).contains(value) == (value.len() > 0 && exists|k: int|
                    0 <= k < i && (#[trigger] rows@[k]).wiki@ == value),
    {
        let ghost had = text::texts(ids@);
        let ghost cuts = text::texts(wiki@);
        ordered::add(&mut ids, rows[i].query_id.clone());
        if !rows[i].wiki.as_str().is_empty() {
            ordered::add(&mut wiki, rows[i].wiki.clone());
        }
        proof {
            assert forall|value: Seq<char>| #[trigger]
                text::texts(ids@).contains(value) == exists|k: int|
                    0 <= k < i + 1 && (#[trigger] rows@[k]).query_id@ == value by {
                assert(had.contains(value) == exists|k: int|
                    0 <= k < i && (#[trigger] rows@[k]).query_id@ == value);
                if value == rows@[i as int].query_id@ {
                    assert(rows@[i as int].query_id@ == value);
                }
            }
            assert forall|value: Seq<char>| #[trigger]
                text::texts(wiki@).contains(value) == (value.len() > 0 && exists|k: int|
                    0 <= k < i + 1 && (#[trigger] rows@[k]).wiki@ == value) by {
                assert(cuts.contains(value) == (value.len() > 0 && exists|k: int|
                    0 <= k < i && (#[trigger] rows@[k]).wiki@ == value));
                if value == rows@[i as int].wiki@ {
                    assert(rows@[i as int].wiki@ == value);
                }
            }
        }
    }
    let found = Aggregates {
        queries: ids.len(),
        models: models_of(rows),
        wiki,
        bought: None,
        conditions: by_tier(rows),
        method: None,
    };
    assert(are_queries(rows@, text::texts(ids@)) && found.queries == text::texts(ids@).len());
    found
}

proof fn samples_of_some(rows: Seq<Row>, metric: Seq<char>)
    ensures
        samples(rows, metric) == samples(rows.filter(|row: Row| row.ok), metric),
    decreases rows.len(),
{
    reveal(Seq::filter);
    if rows.len() > 0 {
        samples_of_some(rows.drop_last(), metric);
        let kept = rows.filter(|row: Row| row.ok);
        let front = rows.drop_last().filter(|row: Row| row.ok);
        if rows.last().ok {
            assert(kept.drop_last() =~= front);
        }
    }
}

/// A failed run is counted but never averaged: the numbers are those of the runs that worked.
pub proof fn a_failed_run_is_counted_but_never_averaged(
    rows: Seq<Row>,
    group: Group,
    metric: Seq<char>,
)
    requires
        is_group(rows, group),
        group.metrics.names().contains(metric),
    ensures
        group.runs == rows.len(),
        is_stat(
            samples(rows.filter(|row: Row| row.ok), metric),
            group.metrics.at(metric),
        ),
{
    samples_of_some(rows, metric);
}

/// The rows that a key is given to.
spec fn under(rows: Seq<Row>, key_of: spec_fn(Row) -> Seq<char>, key: Seq<char>) -> Seq<Row> {
    rows.filter(|row: Row| key_of(row) == key)
}

/// One name of a list is another's: what is counted for each, and one more for it.
proof fn one_name_more(
    names: Seq<Seq<char>>,
    few: spec_fn(Seq<char>) -> int,
    more: spec_fn(Seq<char>) -> int,
    key: Seq<char>,
)
    requires
        ordered::ascending(names),
        forall|name: Seq<char>| #[trigger]
            more(name) == few(name) + if name == key {
                1int
            } else {
                0int
            },
    ensures
        counting::total(names, more) == counting::total(names, few) + if names.contains(key) {
            1int
        } else {
            0int
        },
    decreases names.len(),
{
    if names.len() > 0 {
        let rest = names.drop_last();
        one_name_more(rest, few, more, key);
        counting::holds_one_more(names, rest.len() as int);
        assert(names.take(rest.len() as int) =~= rest);
        counting::take_all(names);
        if names.last() == key && rest.contains(key) {
            let i = choose|i: int| 0 <= i < rest.len() && rest[i] == key;
            assert(text::before(names[i], names[names.len() - 1]));
            text::before_is_a_strict_total_order(key, key, key);
        }
    }
}

/// Rows under names that hold all their keys are all the rows, each once.
proof fn rows_are_parted(
    rows: Seq<Row>,
    key_of: spec_fn(Row) -> Seq<char>,
    names: Seq<Seq<char>>,
)
    requires
        ordered::ascending(names),
        forall|i: int| 0 <= i < rows.len() ==> names.contains(key_of(#[trigger] rows[i])),
    ensures
        counting::total(names, |name: Seq<char>| under(rows, key_of, name).len() as int)
            == rows.len(),
    decreases rows.len(),
{
    let all = |name: Seq<char>| under(rows, key_of, name).len() as int;
    if rows.len() == 0 {
        assert forall|name: Seq<char>| #[trigger] all(name) == 0 by {
            reveal(Seq::filter);
            assert(under(rows, key_of, name) =~= Seq::<Row>::empty());
        }
        nothing_is_counted(names, all);
    } else {
        let rest = rows.drop_last();
        let few = |name: Seq<char>| under(rest, key_of, name).len() as int;
        assert forall|i: int| 0 <= i < rest.len() implies names.contains(
            key_of(#[trigger] rest[i]),
        ) by {
            assert(rest[i] == rows[i]);
        }
        rows_are_parted(rest, key_of, names);
        let key = key_of(rows.last());
        assert forall|name: Seq<char>| #[trigger] all(name) == few(name) + if name == key {
            1int
        } else {
            0int
        } by {
            reveal(Seq::filter);
        }
        one_name_more(names, few, all, key);
        assert(names.contains(key_of(rows[rows.len() - 1])));
    }
}

proof fn nothing_is_counted(names: Seq<Seq<char>>, of: spec_fn(Seq<char>) -> int)
    requires
        forall|name: Seq<char>| #[trigger] of(name) == 0,
    ensures
        counting::total(names, of) == 0,
    decreases names.len(),
{
    if names.len() > 0 {
        nothing_is_counted(names.drop_last(), of);
    }
}

/// What two counts agree on for every name adds up alike.
proof fn counts_agree(
    names: Seq<Seq<char>>,
    a: spec_fn(Seq<char>) -> int,
    b: spec_fn(Seq<char>) -> int,
)
    requires
        forall|i: int| 0 <= i < names.len() ==> a(#[trigger] names[i]) == b(names[i]),
    ensures
        counting::total(names, a) == counting::total(names, b),
    decreases names.len(),
{
    if names.len() > 0 {
        let rest = names.drop_last();
        assert forall|i: int| 0 <= i < rest.len() implies a(#[trigger] rest[i]) == b(rest[i]) by {
            assert(rest[i] == names[i]);
        }
        counts_agree(rest, a, b);
        assert(a(names[names.len() - 1]) == b(names[names.len() - 1]));
    }
}

/// What a test counts among rows under names that hold all their keys is what it counts among the
/// rows.
proof fn counts_are_parted(
    rows: Seq<Row>,
    key_of: spec_fn(Row) -> Seq<char>,
    names: Seq<Seq<char>>,
    test: spec_fn(Row) -> bool,
)
    requires
        ordered::ascending(names),
        forall|i: int| 0 <= i < rows.len() ==> names.contains(key_of(#[trigger] rows[i])),
    ensures
        counting::total(
            names,
            |name: Seq<char>| counting::how_many(under(rows, key_of, name), test) as int,
        ) == counting::how_many(rows, test),
    decreases rows.len(),
{
    let all = |name: Seq<char>| counting::how_many(under(rows, key_of, name), test) as int;
    if rows.len() == 0 {
        assert forall|name: Seq<char>| #[trigger] all(name) == 0 by {
            reveal(Seq::filter);
            assert(under(rows, key_of, name) =~= Seq::<Row>::empty());
        }
        nothing_is_counted(names, all);
    } else {
        let rest = rows.drop_last();
        let few = |name: Seq<char>| counting::how_many(under(rest, key_of, name), test) as int;
        assert forall|i: int| 0 <= i < rest.len() implies names.contains(
            key_of(#[trigger] rest[i]),
        ) by {
            assert(rest[i] == rows[i]);
        }
        counts_are_parted(rest, key_of, names, test);
        let key = key_of(rows.last());
        assert forall|name: Seq<char>| #[trigger] all(name) == few(name) + if name == key && test(
            rows.last(),
        ) {
            1int
        } else {
            0int
        } by {
            reveal(Seq::filter);
            if name == key {
                assert(under(rows, key_of, name) =~= under(rest, key_of, name).push(rows.last()));
                assert(under(rows, key_of, name).drop_last() =~= under(rest, key_of, name));
            } else {
                assert(under(rows, key_of, name) =~= under(rest, key_of, name));
            }
        }
        if test(rows.last()) {
            one_name_more(names, few, all, key);
            assert(names.contains(key_of(rows[rows.len() - 1])));
        } else {
            counts_agree(names, few, all);
        }
    }
}

/// The runs of a condition by query, and its runs by category, are all its runs, each counted once,
/// and so are those of them that failed.
pub proof fn a_run_has_one_query_and_one_category(rows: Seq<Row>, found: Condition)
    requires
        is_condition(rows, found),
        ordered::ascending(found.by_query.names()),
        ordered::ascending(found.by_category.names()),
    ensures
        counting::total(
            found.by_query.names(),
            |id: Seq<char>| found.by_query.at(id).group.runs as int,
        ) == found.overall.runs,
        counting::total(
            found.by_category.names(),
            |name: Seq<char>| found.by_category.at(name).runs as int,
        ) == found.overall.runs,
        counting::total(
            found.by_query.names(),
            |id: Seq<char>| found.by_query.at(id).group.failed as int,
        ) == found.overall.failed,
        counting::total(
            found.by_category.names(),
            |name: Seq<char>| found.by_category.at(name).failed as int,
        ) == found.overall.failed,
{
    let lost = |row: Row| !row.ok;
    let ids = found.by_query.names();
    let query_of = |row: Row| row.query_id@;
    assert forall|id: Seq<char>| #[trigger] under(rows, query_of, id) == in_query(rows, id) by {
        assert((|row: Row| query_of(row) == id) =~= (|row: Row| row.query_id@ == id));
    }
    assert forall|i: int| 0 <= i < rows.len() implies ids.contains(query_of(#[trigger] rows[i])) by {
        filter_is_some(rows, |row: Row| row.query_id@ == rows[i].query_id@);
        assert(in_query(rows, rows[i].query_id@).len() > 0);
    }
    rows_are_parted(rows, query_of, ids);
    assert forall|i: int| 0 <= i < ids.len() implies found.by_query.at(#[trigger] ids[i]).group.runs
        == under(rows, query_of, ids[i]).len() by {
        assert(ids.contains(ids[i]));
        assert(in_query(rows, ids[i]).len() > 0);
    }
    counts_agree(
        ids,
        |id: Seq<char>| found.by_query.at(id).group.runs as int,
        |id: Seq<char>| under(rows, query_of, id).len() as int,
    );
    counts_are_parted(rows, query_of, ids, lost);
    assert forall|i: int| 0 <= i < ids.len() implies found.by_query.at(
        #[trigger] ids[i],
    ).group.failed == counting::how_many(under(rows, query_of, ids[i]), lost) by {
        assert(ids.contains(ids[i]));
        assert(in_query(rows, ids[i]).len() > 0);
    }
    counts_agree(
        ids,
        |id: Seq<char>| found.by_query.at(id).group.failed as int,
        |id: Seq<char>| counting::how_many(under(rows, query_of, id), lost) as int,
    );

    let names = found.by_category.names();
    let category_of = |row: Row| row.category@;
    assert forall|name: Seq<char>| #[trigger] under(rows, category_of, name) == in_category(
        rows,
        name,
    ) by {
        assert((|row: Row| category_of(row) == name) =~= (|row: Row| row.category@ == name));
    }
    assert forall|i: int| 0 <= i < rows.len() implies names.contains(
        category_of(#[trigger] rows[i]),
    ) by {
        filter_is_some(rows, |row: Row| row.category@ == rows[i].category@);
        assert(in_category(rows, rows[i].category@).len() > 0);
    }
    rows_are_parted(rows, category_of, names);
    assert forall|i: int| 0 <= i < names.len() implies found.by_category.at(
        #[trigger] names[i],
    ).runs == under(rows, category_of, names[i]).len() by {
        assert(names.contains(names[i]));
        assert(in_category(rows, names[i]).len() > 0);
    }
    counts_agree(
        names,
        |name: Seq<char>| found.by_category.at(name).runs as int,
        |name: Seq<char>| under(rows, category_of, name).len() as int,
    );
    counts_are_parted(rows, category_of, names, lost);
    assert forall|i: int| 0 <= i < names.len() implies found.by_category.at(
        #[trigger] names[i],
    ).failed == counting::how_many(under(rows, category_of, names[i]), lost) by {
        assert(names.contains(names[i]));
        assert(in_category(rows, names[i]).len() > 0);
    }
    counts_agree(
        names,
        |name: Seq<char>| found.by_category.at(name).failed as int,
        |name: Seq<char>| counting::how_many(under(rows, category_of, name), lost) as int,
    );
}

/// A row is a run of one condition at one tier: the runs of all conditions are the rows, each
/// counted once.
pub proof fn a_row_is_counted_once(rows: Seq<Row>, found: Aggregates)
    requires
        is_aggregate(rows, found),
        ordered::ascending(found.conditions.names()),
    ensures
        counting::total(
            found.conditions.names(),
            |key: Seq<char>| found.conditions.at(key).overall.runs as int,
        ) == rows.len(),
{
    let keys = found.conditions.names();
    let key_of = |row: Row| tier_of(row);
    assert forall|key: Seq<char>| #[trigger] under(rows, key_of, key) == in_tier(rows, key) by {
        assert((|row: Row| key_of(row) == key) =~= (|row: Row| tier_of(row) == key));
    }
    assert forall|i: int| 0 <= i < rows.len() implies keys.contains(key_of(#[trigger] rows[i])) by {
        filter_is_some(rows, |row: Row| tier_of(row) == tier_of(rows[i]));
        assert(in_tier(rows, tier_of(rows[i])).len() > 0);
    }
    rows_are_parted(rows, key_of, keys);
    assert forall|i: int| 0 <= i < keys.len() implies found.conditions.at(
        #[trigger] keys[i],
    ).overall.runs == under(rows, key_of, keys[i]).len() by {
        assert(keys.contains(keys[i]));
        assert(in_tier(rows, keys[i]).len() > 0);
    }
    counts_agree(
        keys,
        |key: Seq<char>| found.conditions.at(key).overall.runs as int,
        |key: Seq<char>| under(rows, key_of, key).len() as int,
    );
}

/// Whether two groups have the same metrics, and the same numbers for each.
pub open spec fn same_metrics(a: Group, b: Group) -> bool {
    forall|metric: Seq<char>| #[trigger]
        a.metrics.names().contains(metric) == b.metrics.names().contains(metric) && (
        a.metrics.names().contains(metric) ==> a.metrics.at(metric) == b.metrics.at(metric))
}

/// The rows that worked.
pub open spec fn worked(rows: Seq<Row>) -> Seq<Row> {
    rows.filter(|row: Row| row.ok)
}

proof fn filters_commute(rows: Seq<Row>, a: spec_fn(Row) -> bool, b: spec_fn(Row) -> bool)
    ensures
        rows.filter(a).filter(b) == rows.filter(b).filter(a),
        rows.filter(a).filter(b).len() <= rows.filter(a).len(),
    decreases rows.len(),
{
    reveal(Seq::filter);
    if rows.len() > 0 {
        let rest = rows.drop_last();
        filters_commute(rest, a, b);
        let last = rows.last();
        if a(last) {
            assert(rows.filter(a).drop_last() =~= rest.filter(a));
        }
        if b(last) {
            assert(rows.filter(b).drop_last() =~= rest.filter(b));
        }
    }
}

proof fn groups_agree(rows: Seq<Row>, a: Group, b: Group)
    requires
        is_group(rows, a),
        is_group(worked(rows), b),
    ensures
        same_metrics(a, b),
{
    assert forall|metric: Seq<char>| #[trigger]
        a.metrics.names().contains(metric) == b.metrics.names().contains(metric) && (
        a.metrics.names().contains(metric) ==> a.metrics.at(metric) == b.metrics.at(metric)) by {
        samples_of_some(rows, metric);
        if samples(rows, metric).len() > 0 {
            assert(is_stat(samples(rows, metric), a.metrics.at(metric)));
            assert(is_stat(samples(rows, metric), b.metrics.at(metric)));
        }
    }
}

/// A failed run is never averaged: the numbers of every condition, query and category that a run
/// worked for are those that the runs that worked have alone.
pub proof fn the_averages_are_of_the_runs_that_worked(
    rows: Seq<Row>,
    all: Aggregates,
    some: Aggregates,
    key: Seq<char>,
)
    requires
        is_aggregate(rows, all),
        is_aggregate(worked(rows), some),
        some.conditions.names().contains(key),
    ensures
        all.conditions.names().contains(key),
        same_metrics(all.conditions.at(key).overall, some.conditions.at(key).overall),
        forall|id: Seq<char>| #[trigger]
            some.conditions.at(key).by_query.names().contains(id) ==> all.conditions.at(
                key,
            ).by_query.names().contains(id) && same_metrics(
                all.conditions.at(key).by_query.at(id).group,
                some.conditions.at(key).by_query.at(id).group,
            ),
        forall|name: Seq<char>| #[trigger]
            some.conditions.at(key).by_category.names().contains(name) ==> all.conditions.at(
                key,
            ).by_category.names().contains(name) && same_metrics(
                all.conditions.at(key).by_category.at(name),
                some.conditions.at(key).by_category.at(name),
            ),
{
    let ok = |row: Row| row.ok;
    let part = in_tier(rows, key);
    filters_commute(rows, |row: Row| tier_of(row) == key, ok);
    assert(in_tier(worked(rows), key) == worked(part));
    assert(in_tier(worked(rows), key).len() > 0);
    let (a, b) = (all.conditions.at(key), some.conditions.at(key));
    assert(is_condition(part, a) && is_condition(worked(part), b));
    groups_agree(part, a.overall, b.overall);
    assert forall|id: Seq<char>| #[trigger]
        b.by_query.names().contains(id) implies a.by_query.names().contains(id) && same_metrics(
        a.by_query.at(id).group,
        b.by_query.at(id).group,
    ) by {
        filters_commute(part, |row: Row| row.query_id@ == id, ok);
        assert(in_query(worked(part), id) == worked(in_query(part, id)));
        groups_agree(in_query(part, id), a.by_query.at(id).group, b.by_query.at(id).group);
    }
    assert forall|name: Seq<char>| #[trigger]
        b.by_category.names().contains(name) implies a.by_category.names().contains(name)
        && same_metrics(a.by_category.at(name), b.by_category.at(name)) by {
        filters_commute(part, |row: Row| row.category@ == name, ok);
        assert(in_category(worked(part), name) == worked(in_category(part, name)));
        groups_agree(in_category(part, name), a.by_category.at(name), b.by_category.at(name));
    }
}

} // verus!
