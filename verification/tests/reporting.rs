use s1m::aggregate::{stat, Aggregates, Condition, Group, QueryGroup};
use s1m::doc::{Doc, Figure, Form, Num};
use s1m::graph::degrees::Degrees;
use s1m::graph::{Depth, Entry, GraphStats, LinkCounts};
use s1m::ordered::Table;
use s1m::report::{cell, Method};
use s1m::row::Row;
use s1m::run::{method_flags, DEFAULT_MODEL, EXPLORE_PROMPT, S1M_AGENT_PROMPT};

/// What a number comes to.
fn value(num: &Num) -> f64 {
    match num {
        Num::Whole(n) => *n as f64,
        Num::Long(n) => *n as f64,
        Num::Double(bits) => f64::from_bits(*bits),
        Num::Plus(a, b) => value(a) + value(b),
        Num::Minus(a, b) => value(a) - value(b),
        Num::Times(a, b) => value(a) * value(b),
        Num::Over(a, b) => value(a) / value(b),
        Num::Root(a) => value(a).sqrt(),
        Num::Least(a, b) => value(a).min(value(b)),
        Num::Greatest(a, b) => value(a).max(value(b)),
    }
}

/// A figure as it is printed.
fn figure(figure: &Figure) -> String {
    let value = value(&figure.value);
    match figure.form {
        Form::Fixed(places) => format!("{value:.0$}", places as usize),
        Form::Signed(places) => format!("{value:+.0$}", places as usize),
        Form::Plain => format!("{value}"),
        Form::Measure => {
            if value != 0.0 && value.abs() < 0.01 {
                format!("{value:.6}")
            } else if value.abs() < 100.0 {
                format!("{value:.2}")
            } else {
                format!("{}", value.round() as i64)
            }
        }
    }
}

/// A document as it is printed.
fn printed(doc: &Doc) -> String {
    let mut out = String::new();
    for piece in &doc.pieces {
        out.push_str(&piece.text);
        out.push_str(&figure(&piece.figure));
    }
    out.push_str(&doc.tail);
    out
}

/// The revision these rows were measured against.
const WIKI: &str = "sha256:0f1e2d3c4b5a69788796a5b4c3d2e1f00f1e2d3c4b5a69788796a5b4c3d2e1f0";

fn metrics(list: &[(&str, f64)]) -> Table<u64> {
    let mut table = Table::new();
    for (name, value) in list {
        table.set(name.to_string(), value.to_bits());
    }
    table
}

fn row(id: &str, category: &str, condition: &str, recall: f64) -> Row {
    Row {
        query_id: id.to_string(),
        category: category.to_string(),
        condition: condition.to_string(),
        repeat: 0,
        wiki: WIKI.to_string(),
        ok: true,
        model_asked_for: None,
        models: Vec::new(),
        metrics: metrics(&[
            ("recall", recall),
            ("precision", 0.5),
            ("cost_usd", 0.03),
            ("wall_ms", 1200.0),
            ("files_opened", 2.0),
            ("agent_read_tokens", 1000.0),
        ]),
        detail: Some(
            "{\"query\": \"how do I cut a release and publish the package\", \
             \"entry\": \"index.md\", \"files_read\": [\"concepts/release.md\"], \
             \"command\": [\"agent\", \"-p\", \"/home/someone/private-wiki\"]}"
                .to_string(),
        ),
    }
}

fn method() -> Method {
    Method {
        repeats: 1,
        conditions: vec!["explore".to_string(), "s1m".to_string()],
        claude_model: "sonnet-5".to_string(),
        claude_flags: vec!["--output-format stream-json".to_string()],
        s1m_flags: vec!["--format json".to_string()],
        thoroughness: "medium".to_string(),
        explore_prompt: "Answer <query> starting at <entry>.".to_string(),
        s1m_agent_prompt: "Open what you need of <files> and answer <query>.".to_string(),
        chars_per_token: 4,
    }
}

fn aggregate(rows: &Vec<Row>) -> Aggregates {
    s1m::aggregate::aggregate(rows)
}

fn render(
    aggregates: &Aggregates,
    stats: Option<&GraphStats>,
    method: &Method,
) -> Result<String, String> {
    s1m::report::render(aggregates, stats, method, "Agent").map(|doc| printed(&doc))
}

/// The renderer is fed rows whose raw half is full of things that must never be published.
#[test]
fn nothing_from_the_raw_half_of_a_row_reaches_the_report() {
    let rows = vec![
        row("release-and-publish", "how-to", "explore", 1.0),
        row("release-and-publish", "how-to", "s1m", 0.5),
    ];
    let report = render(&aggregate(&rows), None, &method()).expect("a report");

    for leak in [
        "how do I cut a release",
        "index.md",
        "concepts/release.md",
        "private-wiki",
        "/home/someone",
    ] {
        assert!(!report.contains(leak), "{leak:?} reached the report:\n{report}");
    }
    assert!(report.contains("release-and-publish"), "{report}");
    assert!(report.contains("how-to"), "{report}");
    assert!(report.contains("## Results"), "{report}");
    assert!(report.contains("## Method"), "{report}");
    assert!(report.contains("## Caveats"), "{report}");
    assert!(report.contains("## Per query"), "{report}");
}

#[test]
fn a_label_that_could_be_a_path_or_a_question_stops_the_report() {
    let paths = vec![row("concepts/release.md", "how-to", "explore", 1.0)];
    let error = render(&aggregate(&paths), None, &method()).expect_err("a path-like id");
    assert!(error.contains("looks like a path"), "{error}");

    let sentence = vec![row("how do I cut a release and publish", "how-to", "explore", 1.0)];
    let error = render(&aggregate(&sentence), None, &method()).expect_err("a query as an id");
    assert!(
        error.contains("sentence") || error.contains("longer than"),
        "{error}"
    );

    let category = vec![row("fine-id", "pages/about the wiki", "explore", 1.0)];
    assert!(render(&aggregate(&category), None, &method()).is_err());
}

/// A tenth of a cent is what one of these runs costs, and a report that rounded it to zero would say
/// the wrong thing.
#[test]
fn small_money_keeps_its_digits() {
    let number = |value: f64| {
        let mut table = Table::new();
        table.set("cost_usd".to_string(), stat(&vec![value.to_bits()]));
        let group = Group { runs: 1, failed: 0, metrics: table };
        let mut out = Doc::new();
        cell(&mut out, &group, "cost_usd");
        printed(&out)
    };
    assert_eq!(number(0.000_523), "0.000523");
    assert_eq!(number(0.001_172), "0.001172");
    assert_eq!(number(0.0), "0.00");
    assert_eq!(number(0.67), "0.67");
    assert_eq!(number(20737.0), "20737");
}

fn graph_stats() -> GraphStats {
    GraphStats {
        pages: 2000,
        words: 900_000,
        headings: 9000,
        links: LinkCounts {
            total: 20_000,
            markdown: 20_000,
            wikilink: 0,
            resolved: 19_000,
            broken: 900,
            outside: 100,
        },
        edges: 15_000,
        out_degree: Degrees {
            min: 0,
            median: Num::Double(6.0f64.to_bits()),
            mean: Num::Double(7.5f64.to_bits()),
            max: 300,
            histogram: vec![120, 0, 0, 0, 0, 0, 0, 0],
        },
        in_degree: Degrees {
            min: 0,
            median: Num::Double(5.0f64.to_bits()),
            mean: Num::Double(7.5f64.to_bits()),
            max: 400,
            histogram: vec![200, 0, 0, 0, 0, 0, 0, 0],
        },
        orphans: 200,
        depth: Depth {
            entry: Some(Entry::Convention("index.md".to_string())),
            histogram: vec![(0, 1), (1, 40)],
            unreachable: 12,
        },
        largest_scc: 800,
    }
}

#[test]
fn the_graph_statistics_are_the_first_table() {
    let rows = vec![row("one", "how-to", "explore", 1.0)];
    let stats = graph_stats();
    let report = render(&aggregate(&rows), Some(&stats), &method()).expect("a report");
    assert!(report.contains("## The wiki"), "{report}");
    assert!(report.contains("| Pages | 2000 |"), "{report}");
    assert!(
        report.contains("| Largest strongly connected component | 800 |"),
        "{report}"
    );
}

#[test]
fn a_condition_that_failed_says_how_often() {
    let mut failed = row("one", "how-to", "s1m", 0.0);
    failed.ok = false;
    failed.metrics = Table::new();
    failed.detail = Some("{\"error\": \"s1m exited 2: /a/page.md\"}".to_string());
    let rows = vec![row("one", "how-to", "s1m", 1.0), failed];

    let report = render(&aggregate(&rows), None, &method()).expect("a report");
    assert!(report.contains("| `s1m` | 2 (1 failed) |"), "{report}");
    // The run that failed is counted, not averaged: one good run of 1.00.
    assert!(report.contains("| 2 (1 failed) | 1.00 |"), "{report}");
    assert!(!report.contains("page.md"), "{report}");
}

/// A report made from aggregates that someone else wrote must not print what they say: every string
/// in them is held to the same rule as a query id.
#[test]
fn a_crafted_aggregates_file_cannot_talk_through_the_method_table() {
    let rows = vec![row("one", "how-to", "explore", 1.0)];
    let aggregates = aggregate(&rows);

    let crafted = |change: fn(&mut Method)| {
        let mut method = method();
        change(&mut method);
        render(&aggregates, None, &method)
    };

    // A model, a flag or a condition that is really a path.
    assert!(crafted(|m| m.claude_model = "/home/someone/private-wiki".to_string()).is_err());
    assert!(
        crafted(|m| m.claude_flags = vec!["--add-dir /home/someone/wiki".to_string()]).is_err()
    );
    assert!(crafted(|m| m.s1m_flags = vec!["--root concepts/release.md".to_string()]).is_err());
    assert!(crafted(|m| m.conditions = vec!["notes/private.md".to_string()]).is_err());

    // A prompt with the query substituted into it is not a template.
    let filled = crafted(|m| {
        m.explore_prompt = "Answer how do I cut a release starting at index.md.".to_string()
    });
    assert!(filled.is_err(), "a filled-in prompt was printed");
    assert!(crafted(|m| m.explore_prompt = "Answer <query> from <entry>.".to_string()).is_ok());
    assert!(crafted(|m| m.explore_prompt = "Answer <query>.".to_string()).is_err());

    // The prompts that are sent are templates by that test.
    let shipped = Method {
        explore_prompt: EXPLORE_PROMPT.to_string(),
        s1m_agent_prompt: S1M_AGENT_PROMPT.to_string(),
        claude_flags: method_flags(),
        ..method()
    };
    let report = render(&aggregates, None, &shipped).expect("the shipped method");
    assert!(report.contains("<query>"), "{report}");
    assert!(!report.contains("how do I cut a release"), "{report}");
}

#[test]
fn a_crafted_graph_stats_file_cannot_name_a_page() {
    let rows = vec![row("one", "how-to", "explore", 1.0)];
    let mut stats = graph_stats();

    stats.depth.entry = Some(Entry::Convention("private/index.md".to_string()));
    let error =
        render(&aggregate(&rows), Some(&stats), &method()).expect_err("a convention no one has");
    assert!(error.contains("convention"), "{error}");

    for entry in [
        Entry::Convention("index.md".to_string()),
        Entry::Convention("README.md".to_string()),
        Entry::Given,
    ] {
        stats.depth.entry = Some(entry);
        assert!(render(&aggregate(&rows), Some(&stats), &method()).is_ok());
    }
}

#[test]
fn the_cells_say_how_many_runs_are_behind_them() {
    let mut full = row("one", "how-to", "explore", 1.0);
    full.metrics.set("relied_parsed".to_string(), 1.0f64.to_bits());
    // A metric only one of the two runs carried.
    full.metrics.set("jev_cost_usd".to_string(), 0.002f64.to_bits());
    let mut thin = row("one", "how-to", "explore", 0.0);
    thin.metrics.set("relied_parsed".to_string(), 0.0f64.to_bits());

    let report = render(&aggregate(&vec![full, thin]), None, &method()).expect("a report");
    // Two runs, one of which wrote no list of files.
    assert!(report.contains("| `explore` | 2 (1 unparsed) |"), "{report}");
    assert!(report.contains("| 0.50 ± 0.71 |"), "{report}");
    assert!(report.contains("0.002000 (n=1)"), "{report}");
}

#[test]
fn the_method_says_whether_a_model_was_asked_for() {
    let rows = vec![row("one", "how-to", "explore", 1.0)];
    let aggregates = aggregate(&rows);

    let named = render(&aggregates, None, &method()).expect("a named model");
    assert!(named.contains("| Agent model | `sonnet-5` |"), "{named}");

    let default = Method { claude_model: DEFAULT_MODEL.to_string(), ..method() };
    let report = render(&aggregates, None, &default).expect("no model named");
    assert!(
        report.contains("no `--model` flag"),
        "the table does not say the models were the agent's own:\n{report}"
    );
}

#[test]
fn the_method_states_the_thoroughness_and_the_inherited_model() {
    let rows = vec![row("one", "how-to", "explore", 1.0)];
    let report = render(&aggregate(&rows), None, &method()).expect("a report");
    assert!(
        report.contains("| Explore thoroughness | `medium` |"),
        "{report}"
    );
    assert!(report.contains("inherits the session's model"), "{report}");

    // A run made before the thoroughness was said does not claim one.
    let silent = Method { thoroughness: String::new(), ..method() };
    let report = render(&aggregate(&rows), None, &silent).expect("a report");
    assert!(!report.contains("Explore thoroughness"), "{report}");

    // And it is a label like any other: a file cannot talk through it.
    let crafted = Method { thoroughness: "notes/private.md".to_string(), ..method() };
    assert!(render(&aggregate(&rows), None, &crafted).is_err());
}

#[test]
fn jev_input_tokens_are_shown_where_something_was_bought() {
    let bought = |id: &str, calls: f64, input: f64| {
        let mut row = row(id, "how-to", "s1m", 1.0);
        row.metrics.set("jev_calls".to_string(), calls.to_bits());
        row.metrics.set("jev_input_tokens".to_string(), input.to_bits());
        row.metrics.set("jev_cost_usd".to_string(), (input / 1e6 * 0.042).to_bits());
        row
    };
    let rows = vec![bought("cold-one", 6.0, 30000.0)];
    let report = render(&aggregate(&rows), None, &method()).expect("a report");
    assert!(report.contains("Jev input tokens"), "{report}");
    assert!(report.contains("| 30000 |"), "{report}");

    // A warm run: no call, so nothing to report but the zero it did spend.
    let rows = vec![bought("warm-one", 0.0, 0.0)];
    let report = render(&aggregate(&rows), None, &method()).expect("a report");
    let line = report
        .lines()
        .find(|line| line.contains("warm-one"))
        .expect("the per-query row");
    assert!(line.contains("—"), "{line}");
    assert!(!line.contains("| 0.00 | 0.00 |"), "{line}");

    // An agent condition never asks at all, and says so the same way.
    let report = render(
        &aggregate(&vec![row("one", "how-to", "explore", 1.0)]),
        None,
        &method(),
    )
    .expect("a report");
    assert!(report.contains("—"), "{report}");
}

/// One directory can hold one condition measured at two tiers, and the results table has a row per
/// tier.
#[test]
fn one_condition_at_two_tiers_is_two_rows_in_the_results_table() {
    let at = |model: &str, measured: &str, repeat: usize, recall: f64| Row {
        repeat,
        model_asked_for: Some(model.to_string()),
        models: vec![measured.to_string()],
        ..row("one", "how-to", "explore", recall)
    };
    let rows = vec![
        at("sonnet", "sonnet-5", 0, 1.0),
        at("sonnet", "sonnet-5", 1, 0.0),
        at("haiku", "haiku-4-5", 0, 1.0),
    ];
    let report = render(&aggregate(&rows), None, &Method::from_rows(&rows)).expect("a report");

    let line = |tier: &str| {
        report
            .lines()
            .find(|line| line.starts_with(&format!("| `explore` (asked for `{tier}`)")))
            .unwrap_or_else(|| panic!("no `{tier}` row:\n{report}"))
            .to_string()
    };
    // By hand: sonnet's two runs average 0.50, haiku's one is 1.00.
    assert!(line("sonnet").starts_with("| `explore` (asked for `sonnet`) | 2 | 0.50 ± 0.71 |"));
    assert!(line("haiku").starts_with("| `explore` (asked for `haiku`) | 1 | 1.00 |"));

    // And the per-query table splits the same way.
    assert!(
        report.contains("| `one` | how-to | `explore` (asked for `haiku`) |"),
        "{report}"
    );
    assert!(
        report.contains("| `one` | how-to | `explore` (asked for `sonnet`) |"),
        "{report}"
    );

    // The method table still knows an agent ran.
    assert!(report.contains("| Agent model | `haiku, sonnet` |"), "{report}");
    assert!(
        report.contains("| Models measured | `haiku-4-5` (1 run), `sonnet-5` (2 runs) |"),
        "{report}"
    );

    // A directory whose rows were all asked for the same tier is one row with the counts it always
    // had, and that row names the tier.
    let single = vec![at("sonnet", "sonnet-5", 0, 1.0)];
    let report = render(&aggregate(&single), None, &Method::from_rows(&single)).expect("a report");
    assert!(
        report.contains("| `explore` (asked for `sonnet`) | 1 |"),
        "{report}"
    );

    // A directory whose pass named no model is the bare condition.
    let silent = vec![row("one", "how-to", "explore", 1.0)];
    let report = render(&aggregate(&silent), None, &method()).expect("a report");
    assert!(report.contains("| `explore` | 1 |"), "{report}");
    assert!(!report.contains("(asked for"), "{report}");
}

/// One run that measured nothing but recall.
fn lone(recall: f64) -> Group {
    let mut table = Table::new();
    table.set("recall".to_string(), stat(&vec![recall.to_bits()]));
    Group { runs: 1, failed: 0, metrics: table }
}

/// Aggregates that name the condition in the key alone render the row they always did.
#[test]
fn aggregates_from_before_the_tier_pair_render_the_row_they_always_did() {
    let mut conditions = Table::new();
    for (name, recall) in [("explore", 1.0), ("s1m", 0.5)] {
        let mut by_query = Table::new();
        by_query.set(
            "one".to_string(),
            QueryGroup { category: "how-to".to_string(), group: lone(recall) },
        );
        let mut by_category = Table::new();
        by_category.set("how-to".to_string(), lone(recall));
        conditions.set(
            name.to_string(),
            Condition {
                condition: String::new(),
                model: None,
                overall: lone(recall),
                by_query,
                by_category,
            },
        );
    }
    let aggregates = Aggregates {
        queries: 1,
        models: Table::new(),
        wiki: vec![WIKI.to_string()],
        bought: None,
        conditions,
        method: None,
    };
    let report = render(&aggregates, None, &method()).expect("a report");
    assert!(report.contains("| `explore` | 1 |"), "{report}");
    assert!(report.contains("| `s1m` | 1 |"), "{report}");
    assert!(!report.contains("(asked for"), "{report}");
}

#[test]
fn a_crafted_aggregates_file_cannot_name_a_tier() {
    let at = |model: &str| {
        aggregate(&vec![Row {
            model_asked_for: Some(model.to_string()),
            ..row("one", "how-to", "explore", 1.0)
        }])
    };
    let error = render(&at("notes/private.md"), None, &method()).expect_err("a tier as a path");
    assert!(error.contains("looks like a path"), "{error}");
    assert!(render(&at("haiku"), None, &method()).is_ok());
}

/// The method is read back from the rows, not from the command that wrote them.
#[test]
fn the_method_is_read_back_from_the_rows() {
    let rows = vec![
        Row {
            model_asked_for: Some("sonnet".to_string()),
            ..row("one", "how-to", "explore", 1.0)
        },
        Row {
            repeat: 1,
            model_asked_for: Some("sonnet".to_string()),
            models: vec!["sonnet-5".to_string()],
            ..row("one", "how-to", "explore", 0.0)
        },
    ];
    let method = Method::from_rows(&rows);
    assert_eq!(method.conditions, vec!["explore".to_string()]);
    assert_eq!(method.repeats, 2, "two repeats were made");
    assert_eq!(method.claude_model, "sonnet");
    // The flags and the prompts are not the rows'.
    assert_eq!(method.claude_flags, method_flags());
    assert_eq!(method.explore_prompt, EXPLORE_PROMPT);

    // Rows that disagree about the model name both rather than one.
    let rows = vec![
        Row {
            model_asked_for: Some("sonnet".to_string()),
            ..row("one", "how-to", "explore", 1.0)
        },
        Row {
            model_asked_for: Some("haiku".to_string()),
            ..row("one", "how-to", "explore", 1.0)
        },
    ];
    assert_eq!(Method::from_rows(&rows).claude_model, "haiku, sonnet");

    // Nothing measured is nothing described, and no model was asked for.
    let empty = Method::from_rows(&Vec::new());
    assert_eq!((empty.repeats, empty.conditions.len()), (0, 0));
    assert_eq!(empty.claude_model, DEFAULT_MODEL);
}

#[test]
fn the_method_table_names_the_tier_and_the_revision_measured() {
    let rows = vec![
        Row {
            models: vec!["sonnet-5".to_string()],
            ..row("one", "how-to", "explore", 1.0)
        },
        Row {
            models: vec!["sonnet-5".to_string()],
            ..row("one", "how-to", "s1m-agent", 0.5)
        },
    ];
    let report = render(&aggregate(&rows), None, &Method::from_rows(&rows)).expect("a report");
    assert!(
        report.contains("| Models measured | `sonnet-5` (2 runs) |"),
        "{report}"
    );
    assert!(
        report.contains(&format!("| Wiki revision | `{WIKI}` |")),
        "{report}"
    );

    // No agent ran: there is no tier to name.
    let rows = vec![row("one", "how-to", "s1m", 1.0)];
    let report = render(&aggregate(&rows), None, &Method::from_rows(&rows)).expect("a report");
    assert!(
        report.contains("| Agent model | none: no agent condition ran |"),
        "{report}"
    );
    assert!(!report.contains("Models measured"), "{report}");

    // An agent ran and its rows named no model: not recorded.
    let rows = vec![row("one", "how-to", "explore", 1.0)];
    let report = render(&aggregate(&rows), None, &Method::from_rows(&rows)).expect("a report");
    assert!(report.contains("| Models measured | not recorded |"), "{report}");
}

#[test]
fn a_directory_that_mixed_two_cuts_says_so() {
    let rows = vec![
        row("one", "how-to", "explore", 1.0),
        Row {
            wiki: "sha256:1111222233334444555566667777888899990000aaaabbbbccccddddeeeeffff"
                .to_string(),
            ..row("one", "how-to", "explore", 0.0)
        },
    ];
    let report = render(&aggregate(&rows), None, &Method::from_rows(&rows)).expect("a report");
    assert!(
        report.contains("| Wiki revision | more than one: the rows were measured against 2 cuts |"),
        "{report}"
    );

    // A row from before revisions were recorded says that, too.
    let rows = vec![Row { wiki: String::new(), ..row("one", "how-to", "explore", 1.0) }];
    let report = render(&aggregate(&rows), None, &Method::from_rows(&rows)).expect("a report");
    assert!(report.contains("| Wiki revision | not recorded |"), "{report}");
}

#[test]
fn the_report_says_what_was_bought_beside_what_was_measured() {
    let rows = vec![row("one", "how-to", "s1m", 1.0)];
    let mut aggregates = aggregate(&rows);
    aggregates.bought = Some(3);
    let report = render(&aggregates, None, &Method::from_rows(&rows)).expect("a report");
    assert!(report.contains("| Runs | 3 bought, 1 measured |"), "{report}");
    assert!(report.contains("left unmeasured"), "{report}");

    // In step with each other, there is nothing to explain.
    aggregates.bought = Some(1);
    let report = render(&aggregates, None, &Method::from_rows(&rows)).expect("a report");
    assert!(report.contains("| Runs | 1 bought, 1 measured |"), "{report}");
    assert!(!report.contains("left unmeasured"), "{report}");

    // More rows than purchases is the other direction: a run retried after it failed.
    let retried = vec![
        row("one", "how-to", "s1m", 0.0),
        row("one", "how-to", "s1m", 1.0),
    ];
    let mut twice = aggregate(&retried);
    twice.bought = Some(1);
    let report = render(&twice, None, &Method::from_rows(&retried)).expect("a report");
    assert!(report.contains("| Runs | 1 bought, 2 measured |"), "{report}");
    assert!(!report.contains("left unmeasured"), "{report}");

    // A directory whose aggregates say nothing of purchases does not claim one.
    let report = render(&aggregate(&rows), None, &Method::from_rows(&rows)).expect("a report");
    assert!(!report.contains(" bought, "), "{report}");
}

#[test]
fn a_crafted_aggregates_file_cannot_name_a_model_or_a_revision() {
    let rows = vec![row("one", "how-to", "explore", 1.0)];
    let mut aggregates = aggregate(&rows);
    let models = |name: &str| {
        let mut table = Table::new();
        table.set(name.to_string(), 1usize);
        table
    };

    aggregates.models = models("notes/private.md");
    assert!(render(&aggregates, None, &method()).is_err());
    aggregates.models = models("sonnet-5");
    assert!(render(&aggregates, None, &method()).is_ok());

    for bad in [
        "/home/someone/wiki",
        "the wiki as of yesterday",
        "sha256:zzzz",
        "sha256:abc",
        "md5:0f1e2d3c",
    ] {
        aggregates.wiki = vec![bad.to_string()];
        assert!(
            render(&aggregates, None, &method()).is_err(),
            "{bad:?} was printed"
        );
    }
    aggregates.wiki = vec!["sha256:0f1e2d3c".to_string(), "git:abcdef1".to_string()];
    assert!(render(&aggregates, None, &method()).is_ok());
}

/// What is quoted in a message is quoted as Rust writes it.
#[test]
fn a_refused_label_is_quoted() {
    let rows = vec![row("a\"b/c", "how-to", "explore", 1.0)];
    let error = render(&aggregate(&rows), None, &method()).expect_err("a path");
    assert!(error.starts_with("\"a\\\"b/c\" looks like a path"), "{error}");
}
