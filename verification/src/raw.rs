//! The raw half of a row: it never reaches a report.
//!
//! A row keeps the query as it was asked, the files an agent opened and the command that was run in
//! its detail. What is printed about the rows is the same whatever stands there.

use vstd::prelude::*;

use crate::aggregate;
use crate::aggregate::{Aggregates, Condition, Group};
use crate::counting;
use crate::doc::DocView;
use crate::graph::GraphStats;
use crate::json;
use crate::ordered;
use crate::ordered::Table;
use crate::report;
use crate::report::Method;
use crate::row::Row;
use crate::text;

verus! {

/// Two rows that say the same but for their raw half.
pub open spec fn same_but_raw(a: Row, b: Row) -> bool {
    &&& a.query_id@ == b.query_id@
    &&& a.category@ == b.category@
    &&& a.condition@ == b.condition@
    &&& a.repeat == b.repeat
    &&& a.wiki@ == b.wiki@
    &&& a.ok == b.ok
    &&& a.metrics.names() == b.metrics.names()
    &&& a.metrics.column() == b.metrics.column()
    &&& json::text_of(a.model_asked_for) == json::text_of(b.model_asked_for)
    &&& text::texts(a.models@) == text::texts(b.models@)
}

pub open spec fn all_same_but_raw(a: Seq<Row>, b: Seq<Row>) -> bool {
    &&& a.len() == b.len()
    &&& forall|i: int| 0 <= i < a.len() ==> same_but_raw(#[trigger] a[i], b[i])
}

/// Whether a test does not see the raw half.
spec fn is_blind(test: spec_fn(Row) -> bool) -> bool {
    forall|x: Row, y: Row| #[trigger] same_but_raw(x, y) ==> test(x) == test(y)
}

proof fn filters_agree(a: Seq<Row>, b: Seq<Row>, test: spec_fn(Row) -> bool)
    requires
        all_same_but_raw(a, b),
        is_blind(test),
    ensures
        all_same_but_raw(a.filter(test), b.filter(test)),
    decreases a.len(),
{
    reveal(Seq::filter);
    if a.len() > 0 {
        let n = a.len() - 1;
        let (x, y) = (a.drop_last(), b.drop_last());
        assert forall|i: int| 0 <= i < x.len() implies same_but_raw(#[trigger] x[i], y[i]) by {
            assert(x[i] == a[i]);
        }
        filters_agree(x, y, test);
        assert(same_but_raw(a[n], b[n]));
        let (f, g) = (a.filter(test), b.filter(test));
        assert forall|i: int| 0 <= i < f.len() implies same_but_raw(#[trigger] f[i], g[i]) by {
            if i < x.filter(test).len() {
                assert(f[i] == x.filter(test)[i]);
                assert(g[i] == y.filter(test)[i]);
            }
        }
    }
}

proof fn times_agree(a: Seq<String>, b: Seq<String>, model: Seq<char>)
    requires
        text::texts(a) == text::texts(b),
    ensures
        aggregate::times_named(a, model) == aggregate::times_named(b, model),
    decreases a.len(),
{
    assert(text::texts(a).len() == a.len() && text::texts(b).len() == b.len());
    if a.len() > 0 {
        let n = a.len() - 1;
        assert(text::texts(a)[n] == a[n]@ && text::texts(b)[n] == b[n]@);
        assert(text::texts(a.drop_last()) =~= text::texts(a).drop_last());
        assert(text::texts(b.drop_last()) =~= text::texts(b).drop_last());
        times_agree(a.drop_last(), b.drop_last(), model);
    }
}

/// What is counted and sampled of rows that say the same is the same.
proof fn samples_agree(a: Seq<Row>, b: Seq<Row>, word: Seq<char>)
    requires
        all_same_but_raw(a, b),
    ensures
        aggregate::samples(a, word) == aggregate::samples(b, word),
        aggregate::mentions(a, word) == aggregate::mentions(b, word),
        counting::how_many(a, |row: Row| !row.ok) == counting::how_many(b, |row: Row| !row.ok),
    decreases a.len(),
{
    if a.len() > 0 {
        let n = a.len() - 1;
        let (x, y) = (a.drop_last(), b.drop_last());
        assert forall|i: int| 0 <= i < x.len() implies same_but_raw(#[trigger] x[i], y[i]) by {
            assert(x[i] == a[i]);
        }
        samples_agree(x, y, word);
        assert(same_but_raw(a[n], b[n]));
        times_agree(a[n].models@, b[n].models@, word);
    }
}

/// Two groups that print the same.
pub open spec fn same_group(a: Group, b: Group) -> bool {
    &&& a.runs == b.runs
    &&& a.failed == b.failed
    &&& aggregate::same_metrics(a, b)
}

/// Two conditions that print the same.
pub open spec fn same_condition(a: Condition, b: Condition) -> bool {
    &&& a.condition@ == b.condition@
    &&& json::text_of(a.model) == json::text_of(b.model)
    &&& same_group(a.overall, b.overall)
    &&& a.by_query.names() == b.by_query.names()
    &&& forall|id: Seq<char>| #[trigger]
        a.by_query.names().contains(id) ==> a.by_query.at(id).category@ == b.by_query.at(
            id,
        ).category@ && same_group(a.by_query.at(id).group, b.by_query.at(id).group)
}

/// Two aggregates that print the same.
pub open spec fn same_aggregates(a: Aggregates, b: Aggregates) -> bool {
    &&& a.queries == b.queries
    &&& a.models.names() == b.models.names()
    &&& a.models.column() == b.models.column()
    &&& text::texts(a.wiki@) == text::texts(b.wiki@)
    &&& a.bought == b.bought
    &&& a.conditions.names() == b.conditions.names()
    &&& a.conditions.column().len() == b.conditions.column().len()
    &&& forall|i: int|
        0 <= i < a.conditions.column().len() ==> same_condition(
            #[trigger] a.conditions.column()[i],
            b.conditions.column()[i],
        )
}

/// The tables of aggregates are tables.
pub open spec fn valid_tables(a: Aggregates) -> bool {
    &&& a.models.valid()
    &&& a.conditions.valid()
    &&& forall|i: int|
        0 <= i < a.conditions.column().len() ==> (#[trigger] a.conditions.column()[i]).by_query.valid()
}

proof fn groups_agree(a: Seq<Row>, b: Seq<Row>, of_a: Group, of_b: Group)
    requires
        all_same_but_raw(a, b),
        aggregate::is_group(a, of_a),
        aggregate::is_group(b, of_b),
    ensures
        same_group(of_a, of_b),
{
    samples_agree(a, b, Seq::empty());
    assert forall|metric: Seq<char>| #[trigger]
        of_a.metrics.names().contains(metric) == of_b.metrics.names().contains(metric) && (
        of_a.metrics.names().contains(metric) ==> of_a.metrics.at(metric) == of_b.metrics.at(
            metric,
        )) by {
        samples_agree(a, b, metric);
        let list = aggregate::samples(a, metric);
        if list.len() > 0 {
            assert(aggregate::is_stat(list, of_a.metrics.at(metric)));
            assert(aggregate::is_stat(list, of_b.metrics.at(metric)));
        }
    }
}

proof fn conditions_agree(a: Seq<Row>, b: Seq<Row>, of_a: Condition, of_b: Condition)
    requires
        all_same_but_raw(a, b),
        a.len() > 0,
        aggregate::is_condition(a, of_a),
        aggregate::is_condition(b, of_b),
        of_a.by_query.valid(),
        of_b.by_query.valid(),
    ensures
        same_condition(of_a, of_b),
{
    assert(same_but_raw(a[0], b[0]));
    groups_agree(a, b, of_a.overall, of_b.overall);
    assert forall|id: Seq<char>| all_same_but_raw(
        #[trigger] aggregate::in_query(a, id),
        aggregate::in_query(b, id),
    ) by {
        filters_agree(a, b, |row: Row| row.query_id@ == id);
    }
    let (x, y) = (of_a.by_query, of_b.by_query);
    assert forall|id: Seq<char>|
        #![trigger x.names().contains(id)]
        #![trigger y.names().contains(id)]
        x.names().contains(id) == y.names().contains(id) by {
        assert(aggregate::in_query(a, id).len() == aggregate::in_query(b, id).len());
    }
    ordered::ascending_is_one_list(x.names(), y.names());
    assert forall|id: Seq<char>| #[trigger] x.names().contains(id) implies x.at(id).category@
        == y.at(id).category@ && same_group(x.at(id).group, y.at(id).group) by {
        let (some, others) = (aggregate::in_query(a, id), aggregate::in_query(b, id));
        assert(some.len() > 0);
        assert(same_but_raw(some[0], others[0]));
        groups_agree(some, others, x.at(id).group, y.at(id).group);
    }
}

/// What is reduced of two sets of rows that say the same but for their raw half prints the same.
pub proof fn the_raw_half_is_not_reduced(a: Seq<Row>, b: Seq<Row>, of_a: Aggregates, of_b: Aggregates)
    requires
        all_same_but_raw(a, b),
        aggregate::is_aggregate(a, of_a),
        aggregate::is_aggregate(b, of_b),
        valid_tables(of_a),
        valid_tables(of_b),
    ensures
        same_aggregates(of_a, of_b),
{
    let ids = choose|ids: Seq<Seq<char>>| #[trigger]
        aggregate::are_queries(a, ids) && of_a.queries == ids.len();
    let others = choose|ids: Seq<Seq<char>>| #[trigger]
        aggregate::are_queries(b, ids) && of_b.queries == ids.len();
    assert forall|id: Seq<char>|
        #![trigger ids.contains(id)]
        #![trigger others.contains(id)]
        ids.contains(id) == others.contains(id) by {
        if ids.contains(id) {
            let i = choose|i: int| 0 <= i < a.len() && (#[trigger] a[i]).query_id@ == id;
            assert(same_but_raw(a[i], b[i]));
            assert(b[i].query_id@ == id);
        }
        if others.contains(id) {
            let i = choose|i: int| 0 <= i < b.len() && (#[trigger] b[i]).query_id@ == id;
            assert(same_but_raw(a[i], b[i]));
            assert(a[i].query_id@ == id);
        }
    }
    ordered::ascending_is_one_list(ids, others);

    let (x, y) = (of_a.models, of_b.models);
    assert forall|model: Seq<char>|
        #![trigger x.names().contains(model)]
        #![trigger y.names().contains(model)]
        x.names().contains(model) == y.names().contains(model) by {
        samples_agree(a, b, model);
    }
    ordered::ascending_is_one_list(x.names(), y.names());
    assert forall|i: int| 0 <= i < x.column().len() implies x.column()[i] == y.column()[i] by {
        ordered::a_value_is_in_its_place(x, i);
        ordered::a_value_is_in_its_place(y, i);
        let model = x.names()[i];
        samples_agree(a, b, model);
        assert(aggregate::mentions(a, model) > 0);
        assert(x.at(model) == aggregate::mentions(a, model));
        assert(y.at(model) == aggregate::mentions(b, model));
    }
    assert(x.column() =~= y.column());

    let (cuts, more) = (text::texts(of_a.wiki@), text::texts(of_b.wiki@));
    assert forall|wiki: Seq<char>|
        #![trigger cuts.contains(wiki)]
        #![trigger more.contains(wiki)]
        cuts.contains(wiki) == more.contains(wiki) by {
        if cuts.contains(wiki) {
            let i = choose|i: int| 0 <= i < a.len() && (#[trigger] a[i]).wiki@ == wiki;
            assert(same_but_raw(a[i], b[i]));
            assert(b[i].wiki@ == wiki);
        }
        if more.contains(wiki) {
            let i = choose|i: int| 0 <= i < b.len() && (#[trigger] b[i]).wiki@ == wiki;
            assert(same_but_raw(a[i], b[i]));
            assert(a[i].wiki@ == wiki);
        }
    }
    ordered::ascending_is_one_list(cuts, more);

    let (p, q) = (of_a.conditions, of_b.conditions);
    assert forall|key: Seq<char>| all_same_but_raw(
        #[trigger] aggregate::in_tier(a, key),
        aggregate::in_tier(b, key),
    ) by {
        filters_agree(a, b, |row: Row| aggregate::tier_of(row) == key);
    }
    assert forall|key: Seq<char>|
        #![trigger p.names().contains(key)]
        #![trigger q.names().contains(key)]
        p.names().contains(key) == q.names().contains(key) by {
        assert(aggregate::in_tier(a, key).len() == aggregate::in_tier(b, key).len());
    }
    ordered::ascending_is_one_list(p.names(), q.names());
    assert forall|i: int| 0 <= i < p.column().len() implies same_condition(
        #[trigger] p.column()[i],
        q.column()[i],
    ) by {
        ordered::a_value_is_in_its_place(p, i);
        ordered::a_value_is_in_its_place(q, i);
        let key = p.names()[i];
        let (some, others) = (aggregate::in_tier(a, key), aggregate::in_tier(b, key));
        assert(some.len() > 0);
        assert(q.column()[i].by_query.valid());
        conditions_agree(some, others, p.at(key), q.at(key));
    }
}

spec fn same_conditions(a: Table<Condition>, b: Table<Condition>) -> bool {
    &&& a.names() == b.names()
    &&& a.names().len() == a.column().len()
    &&& a.column().len() == b.column().len()
    &&& forall|i: int|
        0 <= i < a.column().len() ==> same_condition(#[trigger] a.column()[i], b.column()[i])
            && a.column()[i].by_query.valid() && b.column()[i].by_query.valid()
}

proof fn labels_agree(a: Table<Condition>, b: Table<Condition>, id: Seq<char>, n: int)
    requires
        same_conditions(a, b),
        0 <= n <= a.names().len(),
    ensures
        report::result_labels(a, n) == report::result_labels(b, n),
        report::query_labels(a, id, n) == report::query_labels(b, id, n),
        report::total_runs(a, n) == report::total_runs(b, n),
    decreases n,
{
    if n > 0 {
        labels_agree(a, b, id, n - 1);
        let (x, y) = (a.column()[n - 1], b.column()[n - 1]);
        assert(same_condition(x, y));
        assert(report::group_labels(a.names()[n - 1], x) == report::group_labels(
            b.names()[n - 1],
            y,
        ));
    }
}

proof fn all_labels_agree(a: Table<Condition>, b: Table<Condition>, ids: Seq<Seq<char>>)
    requires
        same_conditions(a, b),
    ensures
        report::all_query_labels(a, ids) == report::all_query_labels(b, ids),
    decreases ids.len(),
{
    if ids.len() > 0 {
        all_labels_agree(a, b, ids.drop_last());
        labels_agree(a, b, ids.last(), a.names().len() as int);
    }
}

proof fn metrics_agree(a: Group, b: Group, metric: Seq<char>)
    requires
        same_group(a, b),
    ensures
        a.metrics.names().contains(metric) == b.metrics.names().contains(metric),
        a.metrics.names().contains(metric) ==> a.metrics.at(metric) == b.metrics.at(metric),
{
    assert(a.metrics.names().contains(metric) == b.metrics.names().contains(metric));
}

proof fn cells_agree(out: DocView, a: Group, b: Group, columns: Seq<int>)
    requires
        same_group(a, b),
    ensures
        report::metric_cells(out, a, columns) == report::metric_cells(out, b, columns),
        report::runs_text(a) == report::runs_text(b),
    decreases columns.len(),
{
    metrics_agree(a, b, "relied_parsed"@);
    metrics_agree(a, b, "jev_calls"@);
    if columns.len() > 0 {
        cells_agree(out, a, b, columns.drop_last());
        metrics_agree(a, b, report::METRICS@[columns.last()]@);
    }
}

proof fn result_rows_agree(
    out: DocView,
    a: Table<Condition>,
    b: Table<Condition>,
    columns: Seq<int>,
    n: int,
)
    requires
        same_conditions(a, b),
        0 <= n <= a.names().len(),
    ensures
        report::result_rows(out, a, columns, n) == report::result_rows(out, b, columns, n),
    decreases n,
{
    if n > 0 {
        result_rows_agree(out, a, b, columns, n - 1);
        let (x, y) = (a.column()[n - 1], b.column()[n - 1]);
        assert(same_condition(x, y));
        let key = a.names()[n - 1];
        assert(report::condition_text(key, x) == report::condition_text(key, y));
        cells_agree(out, x.overall, y.overall, columns);
        let front = report::result_rows(out, a, columns, n - 1).text("|"@);
        let named = report::text_cell(front, report::condition_text(key, x));
        let counted = report::text_cell(named, report::runs_text(x.overall));
        cells_agree(counted, x.overall, y.overall, columns);
    }
}

proof fn query_rows_agree(
    out: DocView,
    a: Table<Condition>,
    b: Table<Condition>,
    columns: Seq<int>,
    id: Seq<char>,
    n: int,
)
    requires
        same_conditions(a, b),
        0 <= n <= a.names().len(),
    ensures
        report::query_rows(out, a, columns, id, n) == report::query_rows(out, b, columns, id, n),
    decreases n,
{
    if n > 0 {
        query_rows_agree(out, a, b, columns, id, n - 1);
        let (x, y) = (a.column()[n - 1], b.column()[n - 1]);
        assert(same_condition(x, y));
        let key = a.names()[n - 1];
        assert(report::condition_text(key, x) == report::condition_text(key, y));
        if x.by_query.names().contains(id) {
            let front = report::query_rows(out, a, columns, id, n - 1);
            let named = report::text_cell(front.text("|"@), "`"@ + id + "`"@);
            let labelled = report::text_cell(named, x.by_query.at(id).category@);
            let whole = report::text_cell(labelled, report::condition_text(key, x));
            cells_agree(whole, x.by_query.at(id).group, y.by_query.at(id).group, columns);
        }
    }
}

proof fn all_query_rows_agree(
    out: DocView,
    a: Table<Condition>,
    b: Table<Condition>,
    columns: Seq<int>,
    ids: Seq<Seq<char>>,
)
    requires
        same_conditions(a, b),
    ensures
        report::all_query_rows(out, a, columns, ids) == report::all_query_rows(
            out,
            b,
            columns,
            ids,
        ),
    decreases ids.len(),
{
    if ids.len() > 0 {
        all_query_rows_agree(out, a, b, columns, ids.drop_last());
        query_rows_agree(
            report::all_query_rows(out, a, columns, ids.drop_last()),
            a,
            b,
            columns,
            ids.last(),
            a.names().len() as int,
        );
    }
}

/// What conditions that print the same measured.
proof fn measured_one_way(a: Table<Condition>, b: Table<Condition>, metric: Seq<char>)
    requires
        same_conditions(a, b),
    ensures
        report::measured(a, metric) ==> report::measured(b, metric),
        report::measured_by_query(a, metric) ==> report::measured_by_query(b, metric),
        report::an_agent_ran(a) ==> report::an_agent_ran(b),
{
    if report::measured(a, metric) {
        let i = choose|i: int|
            0 <= i < a.column().len() && (#[trigger] a.column()[i]).overall.metrics.names().contains(
                metric,
            );
        assert(same_condition(a.column()[i], b.column()[i]));
        metrics_agree(a.column()[i].overall, b.column()[i].overall, metric);
        assert(b.column()[i].overall.metrics.names().contains(metric));
    }
    if report::measured_by_query(a, metric) {
        let i = choose|i: int|
            0 <= i < a.column().len() && report::measured_of_query(
                #[trigger] a.column()[i],
                metric,
            );
        let (x, y) = (a.column()[i], b.column()[i]);
        assert(same_condition(x, y));
        let k = choose|k: int|
            0 <= k < x.by_query.column().len() && (
            #[trigger] x.by_query.column()[k]).group.metrics.names().contains(metric);
        let id = x.by_query.names()[k];
        ordered::a_value_is_in_its_place(x.by_query, k);
        ordered::a_value_is_in_its_place(y.by_query, k);
        assert(x.by_query.names().contains(id));
        metrics_agree(x.by_query.at(id).group, y.by_query.at(id).group, metric);
        assert(y.by_query.column()[k].group.metrics.names().contains(metric));
        assert(report::measured_of_query(y, metric));
    }
    if report::an_agent_ran(a) {
        let i = choose|i: int|
            0 <= i < a.column().len() && crate::row::runs_an_agent(
                report::condition_name(a.names()[i], #[trigger] a.column()[i]),
            );
        assert(same_condition(a.column()[i], b.column()[i]));
        assert(crate::row::runs_an_agent(report::condition_name(b.names()[i], b.column()[i])));
    }
}

proof fn sameness_is_mutual(a: Table<Condition>, b: Table<Condition>)
    requires
        same_conditions(a, b),
    ensures
        same_conditions(b, a),
{
    assert forall|i: int| 0 <= i < b.column().len() implies same_condition(
        #[trigger] b.column()[i],
        a.column()[i],
    ) && b.column()[i].by_query.valid() && a.column()[i].by_query.valid() by {
        let (x, y) = (a.column()[i], b.column()[i]);
        assert(same_condition(x, y));
        assert forall|metric: Seq<char>| #[trigger]
            y.overall.metrics.names().contains(metric) == x.overall.metrics.names().contains(metric)
            && (y.overall.metrics.names().contains(metric) ==> y.overall.metrics.at(metric)
            == x.overall.metrics.at(metric)) by {
            metrics_agree(x.overall, y.overall, metric);
        }
        assert forall|id: Seq<char>| #[trigger] y.by_query.names().contains(id) implies y.by_query.at(
            id,
        ).category@ == x.by_query.at(id).category@ && same_group(
            y.by_query.at(id).group,
            x.by_query.at(id).group,
        ) by {
            assert(x.by_query.names().contains(id));
            let (g, h) = (x.by_query.at(id).group, y.by_query.at(id).group);
            assert forall|metric: Seq<char>| #[trigger]
                h.metrics.names().contains(metric) == g.metrics.names().contains(metric) && (
                h.metrics.names().contains(metric) ==> h.metrics.at(metric) == g.metrics.at(metric)) by {
                metrics_agree(g, h, metric);
            }
        }
    }
}

proof fn ids_agree(a: Table<Condition>, b: Table<Condition>, ids: Seq<Seq<char>>)
    requires
        same_conditions(a, b),
        report::are_ids(a, ids),
    ensures
        report::are_ids(b, ids),
{
    assert forall|id: Seq<char>| #[trigger]
        ids.contains(id) == exists|i: int|
            0 <= i < b.column().len() && (#[trigger] b.column()[i]).by_query.names().contains(
                id,
            ) by {
        if ids.contains(id) {
            let i = choose|i: int|
                0 <= i < a.column().len() && (#[trigger] a.column()[i]).by_query.names().contains(
                    id,
                );
            assert(same_condition(a.column()[i], b.column()[i]));
            assert(b.column()[i].by_query.names().contains(id));
        }
        if exists|i: int|
            0 <= i < b.column().len() && (#[trigger] b.column()[i]).by_query.names().contains(id) {
            let i = choose|i: int|
                0 <= i < b.column().len() && (#[trigger] b.column()[i]).by_query.names().contains(
                    id,
                );
            assert(same_condition(a.column()[i], b.column()[i]));
            assert(a.column()[i].by_query.names().contains(id));
        }
    }
}

proof fn models_agree(a: Table<usize>, b: Table<usize>, n: int)
    requires
        a.names() == b.names(),
        a.column() == b.column(),
    ensures
        report::model_texts(a, n) == report::model_texts(b, n),
    decreases n,
{
    if n > 0 {
        models_agree(a, b, n - 1);
    }
}

/// Aggregates that print the same have the same report, and the same reason for none.
pub proof fn what_prints_the_same_is_reported_the_same(
    a: Aggregates,
    b: Aggregates,
    stats: Option<GraphStats>,
    method: Method,
    agent: Seq<char>,
    ids: Seq<Seq<char>>,
)
    requires
        same_aggregates(a, b),
        valid_tables(a),
        valid_tables(b),
    ensures
        report::are_ids(a.conditions, ids) == report::are_ids(b.conditions, ids),
        report::report_fault(a, stats, method, ids) == report::report_fault(b, stats, method, ids),
        report::report_of(a, stats, method, agent, ids) == report::report_of(
            b,
            stats,
            method,
            agent,
            ids,
        ),
{
    let (x, y) = (a.conditions, b.conditions);
    assert(same_conditions(x, y));
    sameness_is_mutual(x, y);
    if report::are_ids(x, ids) {
        ids_agree(x, y, ids);
    }
    if report::are_ids(y, ids) {
        ids_agree(y, x, ids);
    }
    let n = x.names().len() as int;
    labels_agree(x, y, Seq::empty(), n);
    all_labels_agree(x, y, ids);
    models_agree(a.models, b.models, a.models.names().len() as int);
    assert forall|metric: Seq<char>|
        report::measured(x, metric) == report::measured(y, metric) && report::measured_by_query(
            x,
            metric,
        ) == #[trigger] report::measured_by_query(y, metric) by {
        measured_one_way(x, y, metric);
        measured_one_way(y, x, metric);
    }
    assert forall|metric: Seq<char>| #[trigger]
        report::measured(x, metric) == report::measured(y, metric) by {
        measured_one_way(x, y, metric);
        measured_one_way(y, x, metric);
    }
    measured_one_way(x, y, Seq::empty());
    measured_one_way(y, x, Seq::empty());
    assert((|metric: Seq<char>| report::measured(x, metric)) =~= (|metric: Seq<char>|
        report::measured(y, metric)));
    assert((|metric: Seq<char>| report::measured_by_query(x, metric)) =~= (|metric: Seq<char>|
        report::measured_by_query(y, metric)));
    assert(report::models_text(a) == report::models_text(b));
    assert forall|out: DocView| #[trigger]
        report::method_of(out, method, a, agent) == report::method_of(out, method, b, agent) by {
        assert forall|out: DocView| #[trigger]
            report::model_rows(out, method, a, agent) == report::model_rows(
                out,
                method,
                b,
                agent,
            ) by {}
        assert forall|out: DocView| #[trigger]
            report::bought_rows(out, a) == report::bought_rows(out, b) by {}
    }
    let shown = report::columns(|metric: Seq<char>| report::measured(x, metric), 11);
    let listed = report::columns(|metric: Seq<char>| report::measured_by_query(x, metric), 11);
    assert forall|out: DocView| #[trigger] report::results(out, x) == report::results(out, y) by {
        let out = out.text("## Results\n\n"@).text("|"@);
        let out = report::text_cell(report::text_cell(out, "Condition"@), "Runs"@);
        let out = report::title_cells(out, shown).text("\n"@).text("|"@);
        let out = report::rules(out, shown.len() as int + 2).text("\n"@);
        result_rows_agree(out, x, y, shown, n);
    }
    assert forall|out: DocView| #[trigger]
        report::per_query(out, x, ids) == report::per_query(out, y, ids) by {
        let out = out.text("## Per query\n\n"@).text("|"@);
        let out = report::text_cell(
            report::text_cell(report::text_cell(out, "Query"@), "Category"@),
            "Condition"@,
        );
        let out = report::title_cells(out, listed).text("\n"@).text("|"@);
        let out = report::rules(out, listed.len() as int + 3).text("\n"@);
        all_query_rows_agree(out, x, y, listed, ids);
    }
}

/// Whether this is what is rendered of aggregates: a report, or why there is none.
pub open spec fn is_rendered(
    aggregates: Aggregates,
    stats: Option<GraphStats>,
    method: Method,
    agent: Seq<char>,
    report: Result<DocView, Seq<char>>,
) -> bool {
    exists|ids: Seq<Seq<char>>| #[trigger]
        report::are_ids(aggregates.conditions, ids) && match report {
            Ok(doc) => report::report_fault(aggregates, stats, method, ids) is None && doc
                == report::report_of(aggregates, stats, method, agent, ids),
            Err(why) => report::report_fault(aggregates, stats, method, ids) == Some(why),
        }
}

/// Nothing of the raw half of a row reaches the report, nor the reason why there is none: two sets
/// of rows that say the same but for it are reported the same.
pub proof fn nothing_raw_is_reported(
    a: Seq<Row>,
    b: Seq<Row>,
    of_a: Aggregates,
    of_b: Aggregates,
    stats: Option<GraphStats>,
    method: Method,
    agent: Seq<char>,
    one: Result<DocView, Seq<char>>,
    other: Result<DocView, Seq<char>>,
)
    requires
        all_same_but_raw(a, b),
        aggregate::is_aggregate(a, of_a),
        aggregate::is_aggregate(b, of_b),
        valid_tables(of_a),
        valid_tables(of_b),
        is_rendered(of_a, stats, method, agent, one),
        is_rendered(of_b, stats, method, agent, other),
    ensures
        one == other,
{
    the_raw_half_is_not_reduced(a, b, of_a, of_b);
    let ids = choose|ids: Seq<Seq<char>>| #[trigger]
        report::are_ids(of_a.conditions, ids) && match one {
            Ok(doc) => report::report_fault(of_a, stats, method, ids) is None && doc
                == report::report_of(of_a, stats, method, agent, ids),
            Err(why) => report::report_fault(of_a, stats, method, ids) == Some(why),
        };
    let more = choose|ids: Seq<Seq<char>>| #[trigger]
        report::are_ids(of_b.conditions, ids) && match other {
            Ok(doc) => report::report_fault(of_b, stats, method, ids) is None && doc
                == report::report_of(of_b, stats, method, agent, ids),
            Err(why) => report::report_fault(of_b, stats, method, ids) == Some(why),
        };
    what_prints_the_same_is_reported_the_same(of_a, of_b, stats, method, agent, ids);
    assert(report::are_ids(of_b.conditions, ids));
    assert forall|id: Seq<char>|
        #![trigger ids.contains(id)]
        #![trigger more.contains(id)]
        ids.contains(id) == more.contains(id) by {}
    ordered::ascending_is_one_list(ids, more);
}

} // verus!
