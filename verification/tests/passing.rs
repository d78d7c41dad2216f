use s1m::doc::Num;
use s1m::explore::{StreamSummary, Task, TranscriptSummary, Usage};
use s1m::gold::{Gold, Query, UNCATEGORISED};
use s1m::hook::{script, settings, BLOCKED, REASON};
use s1m::json::{list_at, text_at};
use s1m::ledger::{bought_for, broken, default_path, fold, path_from, Entry, Ledger, LEDGER};
use s1m::ordered::Table;
use s1m::pass::{
    agent_arguments, agent_finished, cache_path, check_conditions, explore_prompt, jev_spent,
    lines_that_say, list_prompt, model_for, models_of, owed, poll, projects, raw_path, reading_list,
    record, tail, to_merge, transcript_paths, walk_arguments, walk_finished, work_of, Outcome, Poll,
    Work,
};
use s1m::reading::{chars_in, files_listed, read_list, summarise, Reading};
use s1m::row::{threshold_of, Key, Row};
use s1m::run::{
    agent_run, can_bill, explore_metrics, list_agent_metrics, pending, price_of, walk_metrics, Job,
};
use s1m::wiki::{revision, Page};

/// What a number comes to.
fn value(num: &Num) -> f64 {
    match num {
        Num::Whole(n) => *n as f64,
        Num::Long(n) => *n as f64,
        Num::Double(bits) => f64::from_bits(*bits),
        Num::Plus(a, b) => value(a) + value(b),
        Num::Minus(a, b) => value(a) - value(b),
        Num::Times(a, b) => value(a) * value(b),
        Num::Over(a, b) => value(a) / value(b),
        Num::Root(a) => value(a).sqrt(),
        Num::Least(a, b) => value(a).min(value(b)),
        Num::Greatest(a, b) => value(a).max(value(b)),
    }
}

fn texts(list: &[&str]) -> Vec<String> {
    list.iter().map(|text| text.to_string()).collect()
}

// ---------------------------------------------------------------- the gold set

fn query(id: &str, text: &str, wanted: &[&str]) -> Query {
    Query {
        id: id.to_string(),
        category: None,
        query: text.to_string(),
        entry: None,
        mode: None,
        wanted: texts(wanted),
    }
}

fn loaded(queries: Vec<Query>) -> Result<Gold, String> {
    Gold::load("gold.json", queries)
}

#[test]
fn reads_both_spellings_of_a_gold_set() {
    let old = loaded(vec![Query {
        mode: Some("answers".to_string()),
        entry: Some("index.md".to_string()),
        ..query("one", "q", &["a.md"])
    }]);
    let Ok(old) = old else { panic!("the committed spelling") };
    assert_eq!(old.queries[0].wanted(), ["a.md"]);
    assert_eq!(old.queries[0].category(), UNCATEGORISED);
    assert_eq!(old.queries[0].entry("fallback.md"), "index.md");

    let new = loaded(vec![Query {
        category: Some("how-to".to_string()),
        entry: Some("docs/start.md".to_string()),
        mode: Some("useful-for".to_string()),
        ..query("one", "q", &["a.md", "b.md"])
    }]);
    let Ok(new) = new else { panic!("the private spelling") };
    assert_eq!(new.queries[0].category(), "how-to");
    assert_eq!(new.queries[0].entry("fallback.md"), "docs/start.md");
    assert_eq!(new.queries[0].wanted().len(), 2);

    // A query with no entry of its own takes the caller's default.
    let Ok(bare) = loaded(vec![query("one", "q", &["a.md"])]) else {
        panic!("the smallest gold set that means anything")
    };
    assert_eq!(bare.queries[0].entry("fallback.md"), "fallback.md");
}

fn refusal(queries: Vec<Query>) -> String {
    match loaded(queries) {
        Ok(_) => panic!("it cannot be measured"),
        Err(message) => message,
    }
}

#[test]
fn a_gold_set_that_cannot_be_measured_is_an_error() {
    assert_eq!(refusal(Vec::new()), "gold.json: no queries");
    assert_eq!(refusal(vec![query("a", " ", &["a.md"])]), "a: the query is blank");
    assert_eq!(refusal(vec![query("a", "q", &[])]), "a: no wanted pages");
    assert_eq!(
        refusal(vec![query("a", "q", &["a.md"]), query("a", "r", &["b.md"])]),
        "a: two queries share this id"
    );
}

#[test]
fn a_pass_can_be_narrowed_to_named_queries() {
    let Ok(mut gold) = loaded(vec![
        query("one", "q", &["a.md"]),
        query("two", "r", &["b.md"]),
        query("three", "s", &["c.md"]),
    ]) else {
        panic!("three queries")
    };

    assert!(gold.only(&texts(&["three", "one"])).is_ok(), "two of them");
    let ids: Vec<&str> = gold.queries.iter().map(|query| query.id.as_str()).collect();
    assert_eq!(ids, vec!["one", "three"]);

    assert!(gold.only(&texts(&["four"])).is_err());
    // Naming nothing keeps everything.
    assert!(gold.only(&Vec::new()).is_ok(), "no filter");
    assert_eq!(gold.queries.len(), 2);
}

#[test]
fn a_page_wanted_twice_is_wanted_once() {
    assert_eq!(query("a", "q", &["b.md", "./a.md", "b.md", "a.md"]).wanted().len(), 3);
    assert_eq!(query("a", "q", &["b//c.md", "b/c.md"]).wanted(), ["b//c.md"]);
}

// ------------------------------------------------------------------- the ledger

fn key(query: &str, condition: &str, repeat: usize) -> Key {
    Key {
        wiki: "sha256:abc123".to_string(),
        query: query.to_string(),
        condition: condition.to_string(),
        repeat,
    }
}

/// A run is recorded when it is bought and again when it is measured: the ledger reads back what the
/// last line for each run said.
#[test]
fn a_run_is_a_purchase_and_then_a_measurement() {
    let buying = Entry::buying(key("one", "explore", 0), Some("sonnet"), "/runs/one");

    assert!(fold(&Vec::new()).is_empty());
    let entries = fold(&vec![buying.again()]);
    let entry = &entries[0];
    assert!(entry.same_run(&buying));
    // Bought, and not yet measured: no outcome and no price.
    assert_eq!((entry.ok, entry.cost_usd), (None, None));

    let measured = buying.measured(true, Some(0.27f64.to_bits()));
    let entries = fold(&vec![buying.again(), measured]);
    assert_eq!(entries.len(), 1, "one run is one entry");
    let entry = &entries[0];
    assert!(entry.same_run(&buying));
    assert_eq!(
        (entry.ok, entry.cost_usd.map(f64::from_bits)),
        (Some(true), Some(0.27))
    );
    assert_eq!(entry.model.as_deref(), Some("sonnet"));
    assert!(entry.key.same(&key("one", "explore", 0)));
    assert_eq!(entry.out, "/runs/one");
}

#[test]
fn the_same_run_under_another_model_is_another_entry() {
    let lines: Vec<Entry> = [Some("sonnet"), Some("haiku"), None]
        .into_iter()
        .map(|model| Entry::buying(key("one", "explore", 0), model, "/runs/one"))
        .collect();
    let entries = fold(&lines);
    assert_eq!(entries.len(), 3);
    assert!(
        entries.iter().any(|entry| {
            let (run, model) = entry.id();
            run.same(&key("one", "explore", 0)) && model.is_none()
        }),
        "a run that named no model is its own entry"
    );
}

#[test]
fn a_line_that_is_not_an_entry_is_an_error() {
    let ledger = Ledger::at("/runs/ledger.jsonl".to_string());
    let errors: Vec<String> = lines_that_say("not json\n")
        .iter()
        .filter_map(|line| {
            let error = serde_json::from_str::<serde_json::Value>(&line.text).err()?;
            Some(broken(ledger.path(), line.number, &error.to_string()))
        })
        .collect();
    assert_eq!(errors.len(), 1);
    let error = &errors[0];
    assert!(error.contains("ledger.jsonl:1"), "{error}");
}

/// One file for the machine, named outright by the environment and never inside a run directory
/// unless there is nowhere else to put it.
#[test]
fn the_default_ledger_is_one_file_for_the_machine() {
    let set = |value: &str| Some(value.to_string());

    // Named outright.
    assert_eq!(
        path_from(&set("/tmp/eval.jsonl"), &None, &None).as_deref(),
        Some("/tmp/eval.jsonl")
    );
    // Elsewhere in the data directory, and XDG wins over HOME where both are set.
    assert_eq!(
        path_from(&None, &set("/data"), &None).as_deref(),
        Some("/data/eval-agent/ledger.jsonl")
    );
    assert_eq!(
        path_from(&None, &None, &set("/home/someone")).as_deref(),
        Some("/home/someone/.local/share/eval-agent/ledger.jsonl")
    );
    assert_eq!(
        path_from(&None, &set("/data"), &set("/home/someone")).as_deref(),
        Some("/data/eval-agent/ledger.jsonl")
    );
    // A machine that keeps no home directory has nothing to share, and the ledger goes where the
    // rows are.
    assert_eq!(path_from(&None, &None, &None), None);
    assert_eq!(
        default_path(&None, &None, &None, "/somewhere/run"),
        format!("/somewhere/run/{LEDGER}")
    );
}

// ------------------------------------------------------------------ the reading

fn read(json: &str, source: impl Fn(&str) -> Option<String>) -> Reading {
    let list = match read_list(json) {
        Ok(list) => list,
        Err(error) => panic!("a reading list: {error}"),
    };
    let sources = files_listed(&list.items)
        .iter()
        .map(|file| source(&file.path))
        .collect();
    summarise(&list, &sources)
}

#[test]
fn counts_the_union_of_the_returned_ranges() {
    // Four lines of ten characters each, newline included.
    let source = |path: &str| match path {
        "a.md" => Some("123456789\n123456789\n123456789\n123456789\n".to_string()),
        "b.md" => Some("12345\n".to_string()),
        _ => None,
    };

    let json = r#"{"query":"q","mode":"useful-for","visited":3,"calls":2,"results":[
        {"path":"a.md","relevance":0.9,"scent":null,"via":[],"links":[],
         "sections":[{"heading":"A","lines":[1,3],"score":0.8},
                     {"heading":"B","lines":[2,2],"score":0.7}]},
        {"path":"b.md","relevance":0.7,"scent":0.8,"via":["a.md"],"links":[],
         "sections":[{"heading":null,"lines":[1,1],"score":0.7}]}]}"#;

    let reading = read(json, source);
    assert_eq!(reading.files, ["a.md", "b.md"]);
    assert_eq!((reading.visited, reading.calls), (3, 2));
    // Lines 1 to 3 of `a.md` are 30 characters, and line 2 is inside them; `b.md`'s one line is 6.
    // 36 characters is 9 tokens.
    assert_eq!(reading.read_chars, 36);
    assert_eq!(reading.read_tokens, 9);
}

#[test]
fn a_file_that_is_not_there_costs_nothing_to_read() {
    let json = r#"{"query":"q","mode":"useful-for","visited":1,"calls":0,"results":[
        {"path":"gone.md","relevance":0.9,"scent":null,"via":[],"links":[],
         "sections":[{"heading":null,"lines":[1,2],"score":0.8}]}]}"#;
    let reading = read(json, |_| None);
    assert_eq!(reading.read_chars, 0);
    assert_eq!(reading.files, ["gone.md"]);
}

#[test]
fn a_reading_list_that_is_none_is_an_error() {
    assert!(read_list("{ half a").is_err());
    match read_list("{\"visited\": 1}") {
        Ok(_) => panic!("no results"),
        Err(error) => assert_eq!(error, "s1m's reading list: no results"),
    }
}

#[test]
fn a_range_inside_another_costs_nothing_more() {
    let source = "one\ntwo\nthree";
    assert_eq!(chars_in(source, &vec![(1, 2)]), 8);
    assert_eq!(chars_in(source, &vec![(1, 2), (2, 2)]), 8);
    assert_eq!(chars_in(source, &vec![(1, 9)]), 13);
    assert_eq!(chars_in(source, &vec![(3, 2)]), 0);
}

// --------------------------------------------------------------------- the pass

fn gold() -> Gold {
    Gold { queries: vec![query("one", "q", &["a.md"]), query("two", "r", &["b.md"])] }
}

/// A pass costs money, so a run already recorded is never made again, and the cold walk is made only
/// as often as it is asked for.
#[test]
fn a_resumed_pass_owes_only_what_is_missing() {
    let conditions = texts(&["explore", "s1m"]);
    let all = pending(&gold(), &conditions, 2, 1, &Vec::new());
    // Two queries, two repeats, two conditions, plus one cold walk per query on the first repeat.
    assert_eq!(all.len(), 10);
    assert_eq!(
        all.iter().filter(|job| job.condition == "s1m-cold").count(),
        2
    );
    // One query at a time, so a pass stopped early has whole queries.
    assert!(all[..5].iter().all(|job| job.query == 0));

    let done = vec![
        ("one".to_string(), "explore".to_string(), 0),
        ("one".to_string(), "s1m-cold".to_string(), 0),
    ];
    let owed = pending(&gold(), &conditions, 2, 1, &done);
    assert_eq!(owed.len(), 8);
    assert!(!owed
        .iter()
        .any(|job| job.query == 0 && job.condition == "explore" && job.repeat == 0));
}

#[test]
fn a_condition_that_is_none_is_refused() {
    assert!(check_conditions(&texts(&["explore", "s1m", "s1m-agent"])).is_ok());
    match check_conditions(&texts(&["s1m", "grep"])) {
        Ok(_) => panic!("no such condition"),
        Err(error) => assert_eq!(
            error,
            "no condition named \"grep\": it is one of explore, s1m, s1m-agent"
        ),
    }
}

#[test]
fn a_condition_says_what_a_run_of_it_does() {
    for (name, work) in [
        ("explore", Work::Explore),
        ("s1m", Work::Walk),
        ("s1m-t0.7", Work::Walk),
        ("s1m-cold", Work::ColdWalk),
        ("s1m-agent", Work::ReadList),
    ] {
        match work_of(name) {
            Ok(found) => assert!(found == work, "{name}"),
            Err(error) => panic!("{error}"),
        }
    }
    for name in ["grep", "s1m-t", "S1m", ""] {
        match work_of(name) {
            Ok(_) => panic!("no such condition: {name}"),
            Err(error) => assert_eq!(error, format!("no condition named {name:?}")),
        }
    }
}

#[test]
fn the_prompts_are_filled_in() {
    let prompt = explore_prompt("index.md", "how do I <entry>?");
    assert!(prompt.contains("starting at its entry page index.md: how do I <entry>?\n"), "{prompt}");
    let prompt = list_prompt(&texts(&["a.md", "b.md"]), "why?");
    assert!(prompt.contains("\n- a.md\n- b.md\n"), "{prompt}");
    assert!(prompt.contains("opening only the files you need: why?\n"), "{prompt}");
}

#[test]
fn the_arguments_name_the_model_and_the_mode_where_there_is_one() {
    let plain = agent_arguments("p", &None, "Read");
    assert!(!plain.contains(&"--model".to_string()));
    assert_eq!(plain[..4], texts(&["-p", "p", "--output-format", "stream-json"])[..]);
    let named = agent_arguments("p", &Some("sonnet".to_string()), "Read");
    let at = named.iter().position(|word| word == "--model").expect("the model");
    assert_eq!(named[at + 1], "sonnet");
    assert_eq!(named.len(), plain.len() + 2);

    assert_eq!(
        walk_arguments("q", "index.md", &None, &None),
        ["q", "index.md", "--root", ".", "--format", "json"]
    );
    let mode = walk_arguments("q", "index.md", &Some("about".to_string()), &None);
    assert_eq!(mode[6..], texts(&["--mode", "about"])[..]);
    let cut = walk_arguments("q", "index.md", &None, &threshold_of("s1m-t0.7"));
    assert_eq!(cut[6..], texts(&["--threshold", "0.7"])[..]);
}

#[test]
fn s1m_at_a_threshold_is_a_condition() {
    assert!(check_conditions(&texts(&["explore", "s1m-t0.7", "s1m-t1", "s1m-t.5"])).is_ok());
    for name in ["s1m-t", "s1m-t.", "s1m-t0.7.1", "s1m-t-1", "s1m-tall", "S1m-t0.7", "s1m-"] {
        assert_eq!(threshold_of(name), None, "{name}");
        assert!(check_conditions(&texts(&[name])).is_err(), "{name}");
    }
    assert_eq!(threshold_of("s1m-t0.65"), Some("0.65".to_string()));
}

#[test]
fn only_an_agent_is_asked_for_a_model() {
    let model = Some("sonnet-5".to_string());
    assert_eq!(model_for("explore", &model), model);
    assert_eq!(model_for("s1m-agent", &model), model);
    assert_eq!(model_for("s1m", &model), None);
    assert_eq!(model_for("s1m-t0.7", &model), None);
    assert_eq!(model_for("explore", &None), None);
}

fn walked(id: &str, condition: &str, ok: bool, detail: &str) -> Row {
    Row {
        query_id: id.to_string(),
        category: "how-to".to_string(),
        condition: condition.to_string(),
        repeat: 0,
        wiki: String::new(),
        ok,
        metrics: Table::new(),
        model_asked_for: None,
        models: Vec::new(),
        detail: Some(detail.to_string()),
    }
}

#[test]
fn the_list_an_agent_is_handed_is_the_last_walk_of_its_query() {
    let rows = vec![
        walked("one", "s1m", true, "{\"files\": [\"old.md\"]}"),
        walked("one", "s1m", true, "{\"files\": [\"a.md\", \"b.md\"]}"),
        walked("two", "s1m", true, "{\"files\": [\"c.md\"]}"),
        walked("one", "explore", true, "{\"files\": [\"d.md\"]}"),
    ];
    match reading_list(&rows, "one") {
        Ok(files) => assert_eq!(files, ["a.md", "b.md"]),
        Err(error) => panic!("{error}"),
    }
    match reading_list(&rows, "three") {
        Ok(_) => panic!("nothing was walked"),
        Err(error) => assert!(error.contains("run the `s1m` condition first"), "{error}"),
    }
}

#[test]
fn the_last_line_said_is_quoted() {
    assert_eq!(tail("one\ntwo\n\n  \n"), "two");
    assert_eq!(tail("\n"), "no output");
    assert_eq!(tail(&"x".repeat(300)).len(), 200);
}

#[test]
fn a_program_that_failed_says_how() {
    assert!(agent_finished("agent", Some(0), "").is_ok());
    match agent_finished("agent", Some(2), "boom\n") {
        Ok(_) => panic!("it failed"),
        Err(error) => assert!(error.contains("2") && error.contains("boom"), "{error}"),
    }
    assert!(agent_finished("agent", Some(1), "").is_err());
    // A walk that found nothing above its threshold still has a list.
    assert!(walk_finished(Some(1), "").is_ok());
    assert!(walk_finished(Some(2), "").is_err());
    assert!(walk_finished(None, "").is_err());
}

#[test]
fn a_program_that_outruns_its_time_is_stopped() {
    assert!(matches!(poll(None, 10, 20), Poll::Wait));
    assert!(matches!(poll(None, 20, 20), Poll::Kill));
    assert!(matches!(poll(Some(Some(3)), 30, 20), Poll::Finished(3)));
    assert!(matches!(poll(Some(None), 0, 20), Poll::Finished(-1)));
}

#[test]
fn a_run_writes_under_its_own_names() {
    let one = query("one", "q", &["a.md"]);
    let job = Job { query: 0, condition: "s1m".to_string(), repeat: 2 };
    assert_eq!(raw_path("/out", &one, &job, "json"), "/out/raw/one-s1m-2.json");
    assert_eq!(
        cache_path("/out", &Some("/shared".to_string()), &one, 2, false),
        "/shared"
    );
    assert_ne!(
        cache_path("/out", &Some("/shared".to_string()), &one, 2, true),
        "/shared"
    );
    assert_eq!(
        cache_path("/out", &None, &one, 2, true),
        cache_path("/out", &Some("/shared".to_string()), &one, 2, true)
    );
}

#[test]
fn transcripts_are_looked_for_where_the_agent_keeps_them() {
    let given = Some("/given".to_string());
    let config = Some("/config".to_string());
    assert_eq!(projects(&given, &config, "/home", ".agent"), "/given");
    assert_eq!(projects(&None, &config, "/home", ".agent"), "/config/projects");
    assert_eq!(projects(&None, &None, "/home", ".agent"), "/home/.agent/projects");
    let paths = transcript_paths(&texts(&["/p/one", "/p/two"]), "S1", "agent7");
    assert_eq!(paths.len(), 2);
    assert!(paths[1].starts_with("/p/two/"), "{}", paths[1]);
    assert!(paths[1].contains("S1") && paths[1].contains("agent7"), "{}", paths[1]);
}

#[test]
fn what_was_bought_is_added_up() {
    let stored = texts(&[
        "{\"detail\": {\"input_tokens\": 10, \"output_tokens\": 1}}",
        "{\"detail\": {\"input_tokens\": 20}}",
        "{ half a",
    ]);
    assert_eq!(jev_spent(&stored), Some((30, 1)));
    assert_eq!(
        to_merge(&texts(&["a", "b", "c"]), &texts(&["b"])),
        ["a", "c"]
    );
}

fn usage(n: u64) -> Usage {
    Usage { input: n, output: 2 * n, cache_read: 3 * n, cache_create: 4 * n }
}

fn summary() -> StreamSummary {
    StreamSummary {
        session_id: Some("S1".to_string()),
        answer: "the answer".to_string(),
        is_error: false,
        cost_usd: 0.5f64.to_bits(),
        session_total: usage(5),
        parent_total: usage(2),
        parent_files_read: texts(&["index.md"]),
        parent_tool_uses: 3,
        parent_tools: Table::new(),
        model: Some("sonnet-5".to_string()),
        tasks: vec![Task {
            agent_id: "agent7".to_string(),
            kind: "Explore".to_string(),
            status: None,
            duration_ms: Some(1200),
            tool_uses: None,
        }],
    }
}

#[test]
fn a_run_is_billed_from_the_transcript_where_there_is_one() {
    let transcript = TranscriptSummary {
        model: Some("haiku-4-5".to_string()),
        usage: usage(3),
        turns: 4,
        tool_uses: 6,
        files_read: texts(&["a.md", "b.md"]),
    };
    let run = match agent_run(summary(), Some(transcript), Some(texts(&["a.md"])), 900) {
        Ok(run) => run,
        Err(error) => panic!("{error}"),
    };
    assert!(can_bill(&run));
    assert_eq!(run.agent.input, 3);
    assert_eq!(run.turns, 4);
    assert_eq!(models_of(&run), ["haiku-4-5"]);

    let table = explore_metrics(&run, &query("one", "q", &["a.md", "c.md"]));
    let metric = |name: &str| value(table.get(name).expect(name));
    assert_eq!(metric("recall"), 0.5);
    assert_eq!(metric("precision"), 1.0);
    assert_eq!(metric("cost_usd"), 0.5);
    assert_eq!(metric("wall_ms"), 900.0);
    assert_eq!(metric("parent_tool_uses"), run.parent_tool_uses as f64);
    assert_eq!(run.parent_tool_uses, summary().parent_tool_uses);

    let alone = match agent_run(summary(), None, None, 900) {
        Ok(run) => run,
        Err(error) => panic!("{error}"),
    };
    assert_eq!(alone.agent.input, 5);
    assert_eq!(alone.files_read, ["index.md"]);
    let table = list_agent_metrics(&alone, &query("one", "q", &["a.md"]));
    assert_eq!(value(table.get("recall").expect("recall")), 0.0);
}

#[test]
fn a_run_that_reported_an_error_is_one() {
    let failed = StreamSummary { is_error: true, answer: "no".to_string(), ..summary() };
    match agent_run(failed, None, None, 0) {
        Ok(_) => panic!("it failed"),
        Err(error) => assert_eq!(error, "the agent reported an error: no"),
    }
}

#[test]
fn a_walk_is_scored_on_what_it_returned() {
    let reading = Reading {
        files: texts(&["a.md", "b.md", "c.md", "d.md"]),
        visited: 9,
        calls: 4,
        read_chars: 36,
        read_tokens: 9,
    };
    let query = query("one", "q", &["a.md", "z.md"]);
    let table = walk_metrics(&reading, &query, 700, Some((2_000_000, 10)));
    let metric = |name: &str| value(table.get(name).expect(name));
    assert_eq!(metric("recall"), 0.5);
    assert_eq!(metric("precision"), 0.25);
    assert_eq!(metric("files_opened"), 4.0);
    assert_eq!(metric("files_visited"), 9.0);
    assert_eq!(metric("agent_read_tokens"), 9.0);
    assert_eq!(metric("cost_usd"), 0.084);
    assert_eq!(value(&price_of(1_000_000)), 0.042);
}

#[test]
fn a_run_that_failed_is_a_row_with_no_numbers() {
    let one = query("one", "q", &["a.md"]);
    let job = Job { query: 0, condition: "explore".to_string(), repeat: 1 };
    let mut metrics = Table::new();
    metrics.set("recall".to_string(), 1.0f64.to_bits());
    let measured = Outcome::Measured {
        metrics,
        models: texts(&["sonnet-5"]),
        detail: "{}".to_string(),
    };
    let row = record(&one, &job, "sha256:abc", &Some("sonnet".to_string()), measured);
    assert!(row.ok);
    assert_eq!(row.metrics.len(), 1);
    assert_eq!(row.models, ["sonnet-5"]);
    assert_eq!(row.category, UNCATEGORISED);
    assert_eq!((row.query_id.as_str(), row.repeat), ("one", 1));

    let failed = Outcome::Failed { detail: "{\"error\": \"x\"}".to_string() };
    let row = record(&one, &job, "sha256:abc", &None, failed);
    assert!(!row.ok);
    assert_eq!(row.metrics.len(), 0);
    assert_eq!(row.wiki, "sha256:abc");
    assert!(row.key().same(&Key {
        wiki: "sha256:abc".to_string(),
        query: "one".to_string(),
        condition: "explore".to_string(),
        repeat: 1,
    }));
}

#[test]
fn blank_lines_of_a_record_are_passed_over() {
    let lines = lines_that_say("a\n\n \nb\n");
    assert_eq!(
        lines.iter().map(|line| (line.number, line.text.as_str())).collect::<Vec<_>>(),
        [(1, "a"), (4, "b")]
    );
}

#[test]
fn the_settings_install_the_script_on_the_read_only_tools() {
    let settings = settings("/run/delegate-only.sh");
    assert_eq!(list_at(&settings, "/hooks/PreToolUse").expect("one matcher").len(), 1);
    let text = |place: &str| text_at(&settings, &format!("/hooks/PreToolUse/0{place}"));
    assert_eq!(text("/matcher").as_deref(), Some(BLOCKED));
    assert_eq!(text("/hooks/0/type").as_deref(), Some("command"));
    assert_eq!(
        text("/hooks/0/command").as_deref(),
        Some("/run/delegate-only.sh")
    );
    // `Task` is not blocked: delegating is the one thing the parent may do.
    assert!(!BLOCKED.contains("Task"), "{BLOCKED}");
}

#[test]
fn a_script_with_quotes_in_its_name_is_still_a_text() {
    let text = settings("/a \"b\"\\c\n.sh");
    assert_eq!(
        text_at(&text, "/hooks/PreToolUse/0/hooks/0/command").as_deref(),
        Some("/a \"b\"\\c\n.sh")
    );
}

#[test]
fn the_script_names_what_it_blocks_and_why() {
    let text = script("The agent");
    assert!(text.starts_with("#!/bin/sh\n"), "{text}");
    assert!(text.contains(BLOCKED), "{text}");
    assert!(text.contains(REASON), "{text}");
    assert!(text.contains("The agent runs this before every"), "{text}");
    // Delegating is the one thing the parent may do.
    assert!(!BLOCKED.contains("Task"), "{BLOCKED}");
    // What names no tool is let through before anything is refused.
    let through = text.find("if ! printf '%s\\n' \"$call\" | grep -q '\"tool_name\"");
    assert!(through.is_some() && through < text.find("exit 2"), "{text}");
}

// --------------------------------------------------------------------- the wiki

/// The pages of a directory that a walk reads.
fn pages(files: &[(&str, &str)]) -> Vec<Page> {
    let mut pages: Vec<Page> = files
        .iter()
        .filter(|(name, _)| name.ends_with(".md") && !name.starts_with('.'))
        .map(|(name, text)| Page { name: name.to_string(), text: text.to_string() })
        .collect();
    pages.sort_by(|a, b| a.name.cmp(&b.name));
    pages
}

fn revised(files: &[(&str, &str)]) -> String {
    match revision("wiki", &pages(files)) {
        Ok(revision) => revision,
        Err(error) => panic!("a revision: {error}"),
    }
}

#[test]
fn a_revision_follows_the_content() {
    let index = ("index.md", "# Index\n[one](one.md)\n");
    let before = revised(&[index, ("one.md", "# One\n")]);
    assert!(before.starts_with("sha256:"), "{before}");

    // Reading it again is the same wiki, and so is asking twice.
    assert_eq!(revised(&[index, ("one.md", "# One\n")]), before);

    // A page edited, a page added and a page renamed are all another cut.
    let one = ("one.md", "# One\n\nmore\n");
    let edited = revised(&[index, one]);
    assert_ne!(edited, before);
    assert_ne!(revised(&[index, one, ("two.md", "# Two\n")]), edited);
    assert_ne!(revised(&[index, ("three.md", "# One\n\nmore\n")]), edited);

    // A directory with no pages is not a wiki, and has no revision to record.
    assert!(revision("wiki", &Vec::new()).is_err());
}

#[test]
fn only_the_pages_the_walk_reads_are_hashed() {
    let index = ("index.md", "# Index\n");
    let before = revised(&[index]);

    // A dot directory and a file that is not a page are not the wiki.
    let notes = (".private/notes.md", "# Not a page the walk reads\n");
    assert_eq!(revised(&[index, notes, ("image.png", "not markdown at all")]), before);
}

/// The revision is the SHA-256 of every page's name and text, each ended by a zero byte.
#[test]
fn a_revision_is_the_hash_of_names_and_texts() {
    assert_eq!(
        revised(&[("a.md", "b")]),
        "sha256:a6cbbeb79d98b8ec8070a722586974651a9bfc6e53ae76f245daa1d7380c8554"
    );
}

/// A pass owes what no row of its wiki and no measurement in the ledger holds.
#[test]
fn a_run_is_bought_once() {
    let gold = gold();
    let conditions = texts(&["explore", "s1m"]);
    let model = Some("sonnet-5".to_string());
    let owes = |rows: &Vec<Row>, entries: &Vec<Entry>| -> Vec<(usize, String)> {
        owed(&gold, &conditions, 1, 0, rows, entries, "sha256:abc123", &model)
            .into_iter()
            .map(|job| (job.query, job.condition))
            .collect()
    };
    assert_eq!(owes(&Vec::new(), &Vec::new()).len(), 4);

    // A row of another cut of the wiki is another measurement; one of this cut is the run.
    let mut row = walked("one", "explore", false, "{}");
    assert_eq!(owes(&vec![walked("one", "explore", false, "{}")], &Vec::new()).len(), 4);
    row.wiki = "sha256:abc123".to_string();
    assert_eq!(
        owes(&vec![row], &Vec::new()),
        [
            (0, "s1m".to_string()),
            (1, "explore".to_string()),
            (1, "s1m".to_string())
        ]
    );

    // Bought and not measured is owed still; measured under another model too.
    let bought = Entry::buying(key("two", "explore", 0), Some("sonnet-5"), "/runs/a");
    let cheap = Entry::buying(key("one", "explore", 0), Some("haiku-4-5"), "/runs/a");
    let entries = vec![bought.again(), cheap.measured(true, None)];
    assert_eq!(owes(&Vec::new(), &entries).len(), 4);
    let walk = Entry::buying(key("one", "s1m", 0), None, "/runs/b");
    let entries = vec![bought.measured(false, None), walk.measured(true, None)];
    assert_eq!(
        owes(&Vec::new(), &entries),
        [(0, "explore".to_string()), (1, "s1m".to_string())]
    );
    assert_eq!(bought_for(&entries, "/runs/a"), 1);
    assert_eq!(bought_for(&entries, "/runs/b/"), 1);
    assert_eq!(bought_for(&entries, "/runs"), 0);
}

/// A pass that is stopped owes the rest, and no run twice.
#[test]
fn a_stopped_pass_owes_the_rest() {
    let gold = gold();
    let conditions = texts(&["explore", "s1m", "s1m-agent"]);
    let key = |job: &Job| (gold.queries[job.query].id.clone(), job.condition.clone(), job.repeat);
    let keys = |done: &Vec<(String, String, usize)>| -> Vec<(String, String, usize)> {
        pending(&gold, &conditions, 2, 1, done).iter().map(key).collect()
    };
    let all = keys(&Vec::new());
    for (at, job) in all.iter().enumerate() {
        assert!(!all[..at].contains(job), "{job:?}");
    }
    for made in 0..=all.len() {
        assert_eq!(keys(&all[..made].to_vec()), all[made..]);
    }
}

#[test]
fn a_revision_is_a_digest() {
    let revision = revised(&[("index.md", "# Index\n")]);
    let digits = revision.strip_prefix("sha256:").expect("the prefix");
    assert_eq!(digits.len(), 64);
    assert!(digits.chars().all(|c| c.is_ascii_digit() || ('a'..='f').contains(&c)), "{digits}");
}
