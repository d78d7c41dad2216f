use s1m::aggregate::{aggregate, Aggregates, Condition, Group, Stat};
use s1m::doc::Num;
use s1m::ordered::Table;
use s1m::row::{agent_condition, Row};

/// What a number comes to.
fn value(num: &Num) -> f64 {
    match num {
        Num::Whole(n) => *n as f64,
        Num::Long(n) => *n as f64,
        Num::Double(bits) => f64::from_bits(*bits),
        Num::Plus(a, b) => value(a) + value(b),
        Num::Minus(a, b) => value(a) - value(b),
        Num::Times(a, b) => value(a) * value(b),
        Num::Over(a, b) => value(a) / value(b),
        Num::Root(a) => value(a).sqrt(),
        Num::Least(a, b) => value(a).min(value(b)),
        Num::Greatest(a, b) => value(a).max(value(b)),
    }
}

/// The revision these rows were measured against.
const WIKI: &str = "sha256:0f1e2d3c";

fn row(id: &str, category: &str, condition: &str, repeat: usize, recall: f64) -> Row {
    let mut metrics = Table::new();
    metrics.set("recall".to_string(), recall.to_bits());
    Row {
        query_id: id.to_string(),
        category: category.to_string(),
        condition: condition.to_string(),
        repeat,
        wiki: WIKI.to_string(),
        ok: true,
        metrics,
        model_asked_for: None,
        models: Vec::new(),
        detail: Some("{\"query\": \"the query text\"}".to_string()),
    }
}

fn condition<'a>(aggregates: &'a Aggregates, name: &str) -> &'a Condition {
    aggregates.conditions.get(name).expect("the condition")
}

fn recall(group: &Group) -> &Stat {
    group.metrics.get("recall").expect("the recall")
}

#[test]
fn averages_every_metric_per_condition_query_and_category() {
    let rows = vec![
        row("one", "how-to", "explore", 0, 1.0),
        row("one", "how-to", "explore", 1, 2.0),
        row("one", "how-to", "explore", 2, 6.0),
        row("two", "reference", "explore", 0, 0.0),
        row("one", "how-to", "s1m", 0, 0.5),
    ];

    let aggregates = aggregate(&rows);
    assert_eq!(aggregates.queries, 2);

    let explore = condition(&aggregates, "explore");
    // By hand over 1, 2, 6 and 0: mean 2.25.
    assert_eq!(explore.overall.runs, 4);
    assert!((value(&recall(&explore.overall).mean) - 2.25).abs() < 1e-12);

    // By hand over 1, 2, 6: mean 3, sample sd sqrt(7).
    let by_query = explore.by_query.get("one").expect("the query");
    let one = recall(&by_query.group);
    assert!((value(&one.mean) - 3.0).abs() < 1e-12);
    let sd = value(one.sd.as_ref().expect("three runs have a spread"));
    assert!((sd - 7.0_f64.sqrt()).abs() < 1e-12);
    assert_eq!((value(&one.min), value(&one.max), one.n), (1.0, 6.0, 3));
    assert_eq!(by_query.category, "how-to");

    // One run has no spread to report.
    let two = explore.by_query.get("two").expect("the query");
    assert!(recall(&two.group).sd.is_none());
    let reference = explore.by_category.get("reference").expect("the category");
    assert_eq!(value(&recall(reference).mean), 0.0);
    assert_eq!(condition(&aggregates, "s1m").overall.runs, 1);
}

#[test]
fn the_models_and_the_revisions_reach_the_aggregates() {
    let rows = vec![
        Row {
            models: vec!["sonnet-5".to_string()],
            ..row("one", "how-to", "explore", 0, 1.0)
        },
        Row {
            models: vec!["sonnet-5".to_string(), "haiku-4-5".to_string()],
            ..row("one", "how-to", "explore", 1, 0.0)
        },
        Row {
            wiki: "sha256:other".to_string(),
            ..row("one", "how-to", "s1m", 0, 0.5)
        },
    ];
    let aggregates = aggregate(&rows);
    assert_eq!(aggregates.models.get("sonnet-5"), Some(&2));
    assert_eq!(aggregates.models.get("haiku-4-5"), Some(&1));
    assert_eq!(
        aggregates.wiki,
        vec![WIKI.to_string(), "sha256:other".to_string()],
        "one entry per cut the rows were measured against"
    );
    assert_eq!(aggregates.bought, None, "only `run` knows what a pass bought");

    // A row from before revisions were recorded adds nothing to the cut.
    let aggregates = aggregate(&vec![Row {
        wiki: String::new(),
        ..row("one", "how-to", "explore", 0, 1.0)
    }]);
    assert!(aggregates.wiki.is_empty(), "{:?}", aggregates.wiki);
}

#[test]
fn a_failed_run_is_counted_but_never_averaged() {
    let mut failed = row("one", "how-to", "explore", 1, 0.0);
    failed.ok = false;
    failed.metrics = Table::new();
    failed.detail = Some("{\"error\": \"the agent timed out\"}".to_string());
    let rows = vec![row("one", "how-to", "explore", 0, 1.0), failed];

    let aggregates = aggregate(&rows);
    let explore = condition(&aggregates, "explore");
    assert_eq!((explore.overall.runs, explore.overall.failed), (2, 1));
    assert_eq!(value(&recall(&explore.overall).mean), 1.0);
    assert_eq!(recall(&explore.overall).n, 1);
}

#[test]
fn a_tier_is_a_group_of_its_own() {
    let rows = vec![
        Row {
            model_asked_for: Some("sonnet".to_string()),
            ..row("one", "how-to", "explore", 0, 1.0)
        },
        row("one", "how-to", "explore", 0, 0.0),
    ];
    let aggregates = aggregate(&rows);
    assert_eq!(aggregates.conditions.len(), 2);
    assert_eq!(condition(&aggregates, "explore").model, None);
    let tiered = (0..aggregates.conditions.len())
        .map(|i| aggregates.conditions.value(i))
        .find(|group| group.model.is_some())
        .expect("the tier");
    assert_eq!(tiered.condition, "explore");
    assert_eq!(tiered.model.as_deref(), Some("sonnet"));
}

#[test]
fn the_conditions_that_run_an_agent_are_known() {
    assert!(agent_condition("explore"));
    assert!(agent_condition("s1m-agent"));
    assert!(!agent_condition("s1m"));
    assert!(!agent_condition("s1m-cold"));
}

#[test]
fn a_table_holds_one_value_a_name_in_order() {
    let mut table: Table<u8> = Table::new();
    table.set("b".to_string(), 1);
    table.set("a".to_string(), 2);
    table.set("b".to_string(), 3);
    assert_eq!(table.len(), 2);
    assert_eq!((table.name(0).as_str(), *table.value(0)), ("a", 2));
    assert_eq!((table.name(1).as_str(), *table.value(1)), ("b", 3));
    assert_eq!(table.get("c"), None);
}

#[test]
fn every_row_is_counted_once() {
    let mut asked = row("two", "reference", "explore", 1, 1.0);
    asked.model_asked_for = Some("sonnet-5".to_string());
    let rows = vec![
        row("one", "how-to", "explore", 0, 1.0),
        row("two", "reference", "explore", 0, 0.0),
        row("three", "how-to", "explore", 0, 0.5),
        row("one", "how-to", "s1m", 0, 0.5),
        asked,
    ];
    let aggregates = aggregate(&rows);
    let mut all = 0;
    for at in 0..aggregates.conditions.len() {
        let group = aggregates.conditions.value(at);
        let queries: usize =
            (0..group.by_query.len()).map(|at| group.by_query.value(at).group.runs).sum();
        let categories: usize =
            (0..group.by_category.len()).map(|at| group.by_category.value(at).runs).sum();
        assert_eq!(queries, group.overall.runs);
        assert_eq!(categories, group.overall.runs);
        all += group.overall.runs;
    }
    assert_eq!(aggregates.conditions.len(), 3);
    assert_eq!(all, 5);
}

/// A condition whose name holds the mark before a model is not the condition before the mark.
#[test]
fn conditions_and_models_are_told_apart() {
    let mut asked = row("one", "how-to", "x", 0, 1.0);
    asked.model_asked_for = Some("y".to_string());
    let rows = vec![asked, row("one", "how-to", "x@y", 0, 0.0), row("one", "how-to", "x%40y", 0, 0.0)];
    let aggregates = aggregate(&rows);
    assert_eq!(aggregates.conditions.len(), 3);
    for at in 0..3 {
        assert_eq!(aggregates.conditions.value(at).overall.runs, 1);
    }
}

/// The failed runs of the queries, and of the categories, are those of the condition, and the
/// numbers are those of the runs that worked.
#[test]
fn failed_runs_are_counted_under_their_query() {
    let rows = || {
        vec![
            row("one", "how-to", "explore", 0, 1.0),
            row("two", "reference", "explore", 0, 0.5),
        ]
    };
    let mut all = rows();
    for (id, category) in [("one", "how-to"), ("one", "how-to"), ("three", "reference")] {
        let mut failed = row(id, category, "explore", 1, 0.0);
        failed.ok = false;
        all.push(failed);
    }
    let (all, some) = (aggregate(&all), aggregate(&rows()));
    let (group, worked) = (condition(&all, "explore"), condition(&some, "explore"));
    assert_eq!((group.overall.runs, group.overall.failed), (5, 3));
    let queries: usize =
        (0..group.by_query.len()).map(|at| group.by_query.value(at).group.failed).sum();
    let categories: usize =
        (0..group.by_category.len()).map(|at| group.by_category.value(at).failed).sum();
    assert_eq!((queries, categories), (3, 3));
    assert_eq!(value(&recall(&group.overall).mean), value(&recall(&worked.overall).mean));
    assert_eq!(recall(&group.overall).n, 2);
}
