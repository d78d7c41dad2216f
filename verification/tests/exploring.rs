use s1m::explore::{
    closing_bracket, files_relied_on, relative, spoken_lines, summarise_stream,
    summarise_transcript, Usage,
};
use s1m::json::{count_at, double_at, flag_at, invalid, list_at, nothing_at, text_at, values_at};

fn usage(usage: &Usage) -> (u64, u64, u64, u64) {
    (usage.input, usage.output, usage.cache_read, usage.cache_create)
}

fn files(list: &[&str]) -> Option<Vec<String>> {
    Some(list.iter().map(|path| path.to_string()).collect())
}

#[test]
fn reads_the_last_json_array_in_an_answer() {
    let wiki = "/wiki";

    // A fenced array at the end, as an agent usually writes it.
    assert_eq!(
        files_relied_on(
            "The answer is 20.\n\n```json\n[\"index.md\", \"concepts/node.md\"]\n```\n",
            wiki
        ),
        files(&["index.md", "concepts/node.md"])
    );

    // A bare array, with prose after it, and an earlier array that is not the answer.
    assert_eq!(
        files_relied_on(
            "I considered [\"a.md\"] first.\nFiles: [\"b.md\", \"c.md\"]\nThat is all.",
            wiki
        ),
        files(&["b.md", "c.md"])
    );

    // Paths as the agent opened them: absolute under the wiki, or `./`.
    assert_eq!(
        files_relied_on("[\"/wiki/a.md\", \"./b.md\"]", wiki),
        files(&["a.md", "b.md"])
    );

    // An answer with no array at all did not answer.
    assert_eq!(files_relied_on("I could not find it.", wiki), None);
    // An array that is not of strings is not a file list.
    assert_eq!(files_relied_on("scores: [1, 2, 3]", wiki), None);
    // An empty array is an answer: it relied on nothing.
    assert_eq!(files_relied_on("Nothing helped: []", wiki), Some(Vec::new()));
}

/// A parent that spawned the Explore subagent in the background, answered once to say so, and
/// answered again when the subagent reported back.
const STREAM: &str = r#"
{"type":"system","subtype":"init","session_id":"S1","model":"sonnet-5"}
{"type":"assistant","session_id":"S1","message":{"id":"m1","model":"sonnet-5","usage":{"input_tokens":2,"output_tokens":1,"cache_read_input_tokens":0,"cache_creation_input_tokens":12610},"content":[{"type":"tool_use","id":"toolu_1","name":"Agent","input":{"subagent_type":"Explore"}}]}}
{"type":"system","subtype":"task_started","session_id":"S1","task_id":"agent7","tool_use_id":"toolu_1","subagent_type":"Explore","is_backgrounded":true}
{"type":"assistant","session_id":"S1","message":{"id":"m2","model":"sonnet-5","usage":{"input_tokens":2,"output_tokens":9,"cache_read_input_tokens":0,"cache_creation_input_tokens":10},"content":[{"type":"tool_use","id":"toolu_2","name":"Read","input":{"file_path":"/wiki/notes/parent.md"}}]}}
{"type":"assistant","session_id":"S1","parent_tool_use_id":"toolu_1","subagent_type":"Explore","message":{"id":"s1","model":"sonnet-5","usage":{"input_tokens":2,"output_tokens":3,"cache_read_input_tokens":0,"cache_creation_input_tokens":4990},"content":[{"type":"tool_use","id":"t1","name":"Read","input":{"file_path":"/wiki/index.md"}}]}}
{"type":"system","subtype":"task_notification","session_id":"S1","task_id":"agent7","status":"completed","usage":{"total_tokens":8897,"tool_uses":2,"duration_ms":6334}}
{"type":"result","subtype":"success","session_id":"S1","is_error":false,"total_cost_usd":0.0963594,"duration_ms":4188,"usage":{"input_tokens":4,"output_tokens":350,"cache_read_input_tokens":12610,"cache_creation_input_tokens":13340},"modelUsage":{"sonnet-5":{"inputTokens":12,"outputTokens":1058,"cacheReadInputTokens":37082,"cacheCreationInputTokens":22812,"costUSD":0.0963594}},"result":"I have launched the Explore agent."}
{"type":"result","subtype":"success","session_id":"S1","is_error":false,"total_cost_usd":0.0963594,"duration_ms":1633,"usage":{"input_tokens":2,"output_tokens":123,"cache_read_input_tokens":13340,"cache_creation_input_tokens":866},"modelUsage":{"sonnet-5":{"inputTokens":12,"outputTokens":1058,"cacheReadInputTokens":37082,"cacheCreationInputTokens":22812,"costUSD":0.0963594}},"result":"Node >= 20.12.0\n\n[\"index.md\", \"concepts/node.md\"]"}
"#;

#[test]
fn a_stream_reports_the_last_answer_the_spawned_agents_and_both_totals() {
    let summary = match summarise_stream(STREAM, "/wiki") {
        Ok(summary) => summary,
        Err(error) => panic!("a finished run: {error}"),
    };

    assert_eq!(summary.session_id.as_deref(), Some("S1"));
    assert!(
        summary.answer.starts_with("Node >= 20.12.0"),
        "{}",
        summary.answer
    );
    assert!(!summary.is_error);
    assert_eq!(f64::from_bits(summary.cost_usd), 0.0963594);

    // The whole session, totalled over every model.
    assert_eq!(usage(&summary.session_total), (12, 1058, 37082, 22812));
    // The parent alone: its result rows, summed, by hand.
    assert_eq!(usage(&summary.parent_total), (6, 473, 25950, 14206));

    // The parent's own tools.
    assert_eq!(summary.parent_files_read, ["notes/parent.md"]);
    assert_eq!(summary.parent_tool_uses, 2);
    assert_eq!(summary.parent_tools.len(), 2);
    assert_eq!(summary.parent_tools.get("Agent"), Some(&1));
    assert_eq!(summary.parent_tools.get("Read"), Some(&1));
    assert_eq!(summary.model.as_deref(), Some("sonnet-5"));

    assert_eq!(summary.tasks.len(), 1);
    let task = &summary.tasks[0];
    assert_eq!(task.agent_id, "agent7");
    assert_eq!(task.kind, "Explore");
    assert_eq!(task.status.as_deref(), Some("completed"));
    assert_eq!(task.duration_ms, Some(6334));
    assert_eq!(task.tool_uses, Some(2));
}

#[test]
fn a_run_that_printed_no_result_is_an_error() {
    assert!(summarise_stream("{\"type\":\"system\",\"subtype\":\"init\"}\n", "/wiki").is_err());
}

#[test]
fn a_line_that_is_no_json_is_an_error() {
    assert!(summarise_stream("{ half a\n", "/wiki").is_err());
}

/// Three turns, the first two written twice because they were streamed in two pieces.
const TRANSCRIPT: &str = r#"
{"type":"user","agentId":"agent7","message":{"role":"user","content":"go"}}
{"type":"assistant","message":{"id":"s1","model":"sonnet-5","usage":{"input_tokens":2,"output_tokens":3,"cache_read_input_tokens":0,"cache_creation_input_tokens":4990},"content":[{"type":"thinking","thinking":"..."}]}}
{"type":"assistant","message":{"id":"s1","model":"sonnet-5","usage":{"input_tokens":2,"output_tokens":136,"cache_read_input_tokens":0,"cache_creation_input_tokens":4990},"content":[{"type":"tool_use","id":"t1","name":"Read","input":{"file_path":"/wiki/index.md"}}]}}
{"type":"assistant","message":{"id":"s2","model":"sonnet-5","usage":{"input_tokens":2,"output_tokens":160,"cache_read_input_tokens":4990,"cache_creation_input_tokens":1152},"content":[{"type":"tool_use","id":"t2","name":"Read","input":{"file_path":"/wiki/concepts/node.md"}}]}}
{"type":"assistant","message":{"id":"s3","model":"sonnet-5","usage":{"input_tokens":2,"output_tokens":289,"cache_read_input_tokens":6142,"cache_creation_input_tokens":2464},"content":[{"type":"tool_use","id":"t3","name":"Glob","input":{"pattern":"**/*.md"}}]}}
"#;

#[test]
fn a_transcript_bills_each_turn_once_and_lists_what_was_read() {
    let summary = summarise_transcript(TRANSCRIPT, "/wiki").expect("a transcript");

    assert_eq!(summary.turns, 3);
    assert_eq!(summary.model.as_deref(), Some("sonnet-5"));
    // By hand, over the final piece of each turn: 2+2+2 in, 136+160+289 out, 0+4990+6142 read,
    // 4990+1152+2464 created.
    assert_eq!(usage(&summary.usage), (6, 585, 11132, 8606));
    assert_eq!(summary.usage.total(), 20329);
    assert_eq!(summary.tool_uses, 3);
    // Only `Read` names a file; the paths come back as the wiki spells them.
    assert_eq!(summary.files_read, ["concepts/node.md", "index.md"]);
}

/// What the subagent was billed for and what the parent was billed for add up to what the run was
/// billed for.
#[test]
fn the_parent_and_the_subagent_account_for_the_whole_session() {
    let stream = match summarise_stream(STREAM, "/wiki") {
        Ok(stream) => stream,
        Err(error) => panic!("a finished run: {error}"),
    };
    let subagent = summarise_transcript(TRANSCRIPT, "/wiki").expect("a transcript");

    let mut total = stream.parent_total;
    assert!(total.can_add(subagent.usage));
    total.add(subagent.usage);
    assert_eq!(usage(&total), usage(&stream.session_total));
}

#[test]
fn a_bracket_in_a_text_closes_nothing() {
    let all: Vec<char> = "[\"a]\\\"\", [1]] x".chars().collect();
    assert_eq!(closing_bracket(&all, 0), Some(12));
    let open: Vec<char> = "[\"a]".chars().collect();
    assert_eq!(closing_bracket(&open, 0), None);
}

#[test]
fn a_path_is_spelled_as_the_wiki_spells_it() {
    assert_eq!(relative("/wiki/a/b.md", "/wiki"), "a/b.md");
    assert_eq!(relative("./a.md", "/wiki"), "a.md");
    assert_eq!(relative("/elsewhere/a.md", "/wiki"), "/elsewhere/a.md");
}

#[test]
fn blank_lines_say_nothing() {
    assert_eq!(spoken_lines("a\n\n  \nb"), ["a", "b"]);
}

#[test]
fn a_place_in_a_json_text_is_read() {
    let doc = "{\"a\": {\"b\": [\"x\", 2]}, \"t\": true, \"n\": null, \"d\": 0.5, \"w\": 7}";
    assert_eq!(text_at(doc, "/a/b/0").as_deref(), Some("x"));
    assert_eq!(text_at(doc, "/w"), None);
    assert_eq!(count_at(doc, "/w"), Some(7));
    assert_eq!(count_at(doc, "/d"), None);
    assert_eq!(double_at(doc, "/d").map(f64::from_bits), Some(0.5));
    assert_eq!(flag_at(doc, "/t"), Some(true));
    assert!(nothing_at(doc, "/n"));
    assert!(nothing_at(doc, "/gone"));
    assert!(!nothing_at(doc, "/t"));
    assert_eq!(list_at(doc, "/a/b"), files(&["\"x\"", "2"]));
    assert_eq!(list_at(doc, "/a"), None);
    assert_eq!(values_at("{\"k\": {\"v\": 1}}", ""), files(&["{\"v\":1}"]));
    assert_eq!(invalid(doc), None);
    assert!(invalid("{").is_some());
}

/// A bracket in a path is part of the list that the path is in.
#[test]
fn a_bracket_in_a_path_opens_no_list() {
    assert_eq!(files_relied_on("[\"notes/a[].md\"]", "/wiki"), files(&["notes/a[].md"]));
    assert_eq!(
        files_relied_on("I read [\"x.md\"], then [\"a[\\\"b\\\"].md\", \"[]\"]; done", "/wiki"),
        files(&["a[\"b\"].md", "[]"])
    );
    // A list behind another is a list of its own.
    assert_eq!(files_relied_on("[\"[\"] [] \"]", "/wiki"), files(&[]));
    assert_eq!(files_relied_on("see [the notes] and [\"a.md\"]", "/wiki"), files(&["a.md"]));
    assert_eq!(files_relied_on("see [the notes]", "/wiki"), None);
}

#[test]
fn a_path_under_the_wiki_comes_back() {
    for path in ["a.md", "notes/a.md", "../b.md"] {
        assert_eq!(relative(&format!("/wiki/{path}"), "/wiki"), path);
        assert_eq!(relative(&format!("./{path}"), "/wiki"), path);
        assert_eq!(relative(path, "/wiki"), path);
    }
    assert_eq!(relative("/other/a.md", "/wiki"), "/other/a.md");
}
