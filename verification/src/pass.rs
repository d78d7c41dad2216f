//! Making one run of a pass: what is asked, the command that is run, and what its outcome says.

use vstd::prelude::*;

use crate::counting;
use crate::gold;
use crate::gold::{Gold, Query};
use crate::json;
use crate::ledger;
use crate::ledger::{Entry, EntryView};
use crate::ordered::Table;
use crate::paths;
use crate::row;
use crate::row::{Key, Row, CONDITIONS};
use crate::run;
use crate::run::{AgentRun, Job, JobView, Plan, EXPLORE_PROMPT, S1M_AGENT_PROMPT};
use crate::text;

verus! {

/// The file every run appends to.
pub const ROWS: &'static str = "runs.jsonl";

/// Where each run's own output is kept.
pub const RAW: &'static str = "raw";

/// What the cold walks buy their judgments into.
pub const COLD_CACHE: &'static str = "cold-cache";

/// The conditions a caller can name.
pub open spec fn condition_names() -> Seq<Seq<char>> {
    CONDITIONS@.map_values(|name: &'static str| name@)
}

/// A condition that a run can measure: one of the names, or s1m at a threshold.
pub open spec fn is_condition(name: Seq<char>) -> bool {
    condition_names().contains(name) || row::threshold_named(name) is Some
}

/// What is said of a condition that is none.
pub open spec fn no_condition(name: Seq<char>) -> Seq<char> {
    "no condition named "@ + text::debugged(name) + ": it is one of "@ + text::joined(
        condition_names(),
        ", "@,
    )
}

/// The first of some names that is no condition.
pub open spec fn is_first_unknown(names: Seq<Seq<char>>, at: int) -> bool {
    &&& 0 <= at < names.len()
    &&& !is_condition(names[at])
    &&& forall|k: int| 0 <= k < at ==> is_condition(#[trigger] names[k])
}

fn names_of_conditions() -> (names: Vec<String>)
    ensures
        text::texts(names@) == condition_names(),
{
    let mut names: Vec<String> = Vec::new();
    for i in 0..3usize
        invariant
            names.len() == i,
            forall|k: int| 0 <= k < i ==> (#[trigger] names@[k])@ == CONDITIONS@[k]@,
    {
        names.push(CONDITIONS[i].to_owned());
    }
    assert(text::texts(names@) =~= condition_names());
    names
}

/// Whether every condition asked for is one, and what is said of the first that is not.
pub fn check_conditions(conditions: &Vec<String>) -> (checked: Result<(), String>)
    ensures
        match checked {
            Ok(_) => forall|k: int|
                0 <= k < conditions.len() ==> is_condition(
                    (#[trigger] text::texts(conditions@)[k]),
                ),
            Err(message) => exists|at: int|
                #[trigger] is_first_unknown(text::texts(conditions@), at) && message@
                    == no_condition(text::texts(conditions@)[at]),
        },
{
    let names: Vec<String> = names_of_conditions();
    let ghost asked = text::texts(conditions@);
    for i in 0..conditions.len()
        invariant
            asked == text::texts(conditions@),
            text::texts(names@) == condition_names(),
            forall|k: int| 0 <= k < i ==> is_condition(#[trigger] asked[k]),
    {
        let mut known: bool = false;
        for j in 0..names.len()
            invariant
                i < conditions.len(),
                known == exists|k: int|
                    0 <= k < j && (#[trigger] names@[k])@ == conditions@[i as int]@,
        {
            if text::same(names[j].as_str(), conditions[i].as_str()) {
                known = true;
                assert(names@[j as int]@ == conditions@[i as int]@);
            }
        }
        assert(asked[i as int] == conditions@[i as int]@);
        assert(known == condition_names().contains(asked[i as int])) by {
            if known {
                let k = choose|k: int|
                    0 <= k < names.len() && (#[trigger] names@[k])@ == conditions@[i as int]@;
                assert(text::texts(names@)[k] == asked[i as int]);
            }
            if condition_names().contains(asked[i as int]) {
                let k = choose|k: int|
                    0 <= k < condition_names().len() && condition_names()[k] == asked[i as int];
                assert(names@[k]@ == text::texts(names@)[k]);
            }
        }
        if !known && row::threshold_of(conditions[i].as_str()).is_none() {
            let mut message: String = "no condition named ".to_owned();
            message.append(text::debug(conditions[i].as_str()).as_str());
            message.append(": it is one of ");
            message.append(text::join(&names, ", ").as_str());
            assert(is_first_unknown(asked, i as int));
            return Err(message);
        }
    }
    Ok(())
}

/// What a run of a condition does.
#[derive(PartialEq, Eq, Structural, Clone, Copy)]
pub enum Work {
    /// An agent hands the query to a subagent that explores.
    Explore,
    /// The walk, on the answers that are stored.
    Walk,
    /// The walk, every answer bought again.
    ColdWalk,
    /// An agent is handed the reading list of a walk before it.
    ReadList,
}

/// What a run of a condition does: nothing where there is no such condition.
pub open spec fn work_named(condition: Seq<char>) -> Option<Work> {
    if condition == "explore"@ {
        Some(Work::Explore)
    } else if condition == "s1m"@ || row::threshold_named(condition) is Some {
        Some(Work::Walk)
    } else if condition == "s1m-cold"@ {
        Some(Work::ColdWalk)
    } else if condition == "s1m-agent"@ {
        Some(Work::ReadList)
    } else {
        None
    }
}

pub fn work_of(condition: &str) -> (work: Result<Work, String>)
    ensures
        match work {
            Ok(work) => work_named(condition@) == Some(work),
            Err(message) => work_named(condition@) is None && message@ == "no condition named "@
                + text::debugged(condition@),
        },
{
    if text::same(condition, "explore") {
        Ok(Work::Explore)
    } else if text::same(condition, "s1m") || row::threshold_of(condition).is_some() {
        Ok(Work::Walk)
    } else if text::same(condition, "s1m-cold") {
        Ok(Work::ColdWalk)
    } else if text::same(condition, "s1m-agent") {
        Ok(Work::ReadList)
    } else {
        let mut message: String = "no condition named ".to_owned();
        message.append(text::debug(condition).as_str());
        Err(message)
    }
}

/// Every condition that a caller can ask for has its work, and it runs an agent where the condition
/// is one of those whose rows carry a model.
pub proof fn every_condition_has_its_work(name: Seq<char>)
    requires
        is_condition(name),
    ensures
        work_named(name) is Some,
        row::runs_an_agent(name) == (work_named(name) == Some(Work::Explore) || work_named(name)
            == Some(Work::ReadList)),
{
    reveal_strlit("explore");
    reveal_strlit("s1m");
    reveal_strlit("s1m-cold");
    reveal_strlit("s1m-agent");
    reveal_strlit("s1m-t");
    if condition_names().contains(name) {
        let k = choose|k: int| 0 <= k < condition_names().len() && condition_names()[k] == name;
        assert(name == CONDITIONS@[k]@);
        assert(k == 0 || k == 1 || k == 2);
    }
    if text::stands_at(name, "s1m-t"@, 0) {
        assert(name[4] == "s1m-t"@[4]);
        assert("s1m-agent"@[4] == 'a');
        assert(name[0] == "s1m-t"@[0]);
    }
}

/// What the parent agent of the Explore condition is asked.
pub open spec fn explore_asks(entry: Seq<char>, query: Seq<char>) -> Seq<char> {
    text::replaced(text::replaced(EXPLORE_PROMPT@, "<entry>"@, entry), "<query>"@, query)
}

pub fn explore_prompt(entry: &str, query: &str) -> (prompt: String)
    ensures
        prompt@ == explore_asks(entry@, query@),
{
    let placed: String = text::replace(EXPLORE_PROMPT, "<entry>", entry);
    text::replace(placed.as_str(), "<query>", query)
}

/// The files of a reading list, a line each.
pub open spec fn bullets(files: Seq<Seq<char>>) -> Seq<Seq<char>> {
    files.map_values(|file: Seq<char>| "- "@ + file)
}

/// What an agent handed a reading list is asked.
pub open spec fn list_asks(files: Seq<Seq<char>>, query: Seq<char>) -> Seq<char> {
    text::replaced(
        text::replaced(S1M_AGENT_PROMPT@, "<files>"@, text::joined(bullets(files), "\n"@)),
        "<query>"@,
        query,
    )
}

pub fn list_prompt(files: &Vec<String>, query: &str) -> (prompt: String)
    ensures
        prompt@ == list_asks(text::texts(files@), query@),
{
    let mut lines: Vec<String> = Vec::new();
    for i in 0..files.len()
        invariant
            lines.len() == i,
            forall|k: int| 0 <= k < i ==> (#[trigger] lines@[k])@ == "- "@ + files@[k]@,
    {
        let mut line: String = "- ".to_owned();
        line.append(files[i].as_str());
        lines.push(line);
    }
    assert(text::texts(lines@) =~= bullets(text::texts(files@)));
    let list: String = text::join(&lines, "\n");
    let placed: String = text::replace(S1M_AGENT_PROMPT, "<files>", list.as_str());
    text::replace(placed.as_str(), "<query>", query)
}

/// Whether a row is a measured walk of a query.
pub open spec fn is_walk_of(row: Row, id: Seq<char>) -> bool {
    row.query_id@ == id && row.condition@ == "s1m"@ && row.ok
}

/// The last measured walk of a query.
pub open spec fn last_walk(rows: Seq<Row>, id: Seq<char>) -> Option<Row>
    decreases rows.len(),
{
    if rows.len() == 0 {
        None
    } else if is_walk_of(rows.last(), id) {
        Some(rows.last())
    } else {
        last_walk(rows.drop_last(), id)
    }
}

/// The texts among the items of a list.
pub open spec fn texts_among(items: Seq<Seq<char>>) -> Seq<Seq<char>>
    decreases items.len(),
{
    if items.len() == 0 {
        Seq::empty()
    } else {
        match json::as_text(json::json_at(items.last(), ""@)) {
            Some(found) => texts_among(items.drop_last()).push(found),
            None => texts_among(items.drop_last()),
        }
    }
}

/// The files that the last measured walk of a query returned, where its row lists them.
pub open spec fn files_returned(rows: Seq<Row>, id: Seq<char>) -> Option<Seq<Seq<char>>> {
    match last_walk(rows, id) {
        Some(row) => match row.detail {
            Some(detail) => match json::as_list(json::json_at(detail@, "/files"@)) {
                Some(items) => Some(texts_among(items)),
                None => None,
            },
            None => None,
        },
        None => None,
    }
}

pub const NO_LIST: &'static str =
    "no s1m reading list for this query yet: run the `s1m` condition first";

fn texts_in(items: &Vec<String>) -> (list: Vec<String>)
    ensures
        text::texts(list@) == texts_among(text::texts(items@)),
{
    let ghost all = text::texts(items@);
    let mut list: Vec<String> = Vec::new();
    assert(text::texts(list@) =~= Seq::<Seq<char>>::empty());
    for i in 0..items.len()
        invariant
            all == text::texts(items@),
            text::texts(list@) == texts_among(all.take(i as int)),
    {
        proof {
            counting::one_more(all, i as int);
        }
        assert(all[i as int] == items@[i as int]@);
        let ghost was = text::texts(list@);
        match json::text_at(items[i].as_str(), "") {
            Some(found) => {
                let ghost added = found@;
                list.push(found);
                assert(text::texts(list@) =~= was.push(added));
            },
            None => {},
        }
    }
    proof {
        counting::take_all(all);
    }
    list
}

/// The reading list that the walk condition left for a query.
pub fn reading_list(rows: &Vec<Row>, id: &str) -> (files: Result<Vec<String>, String>)
    ensures
        match files {
            Ok(files) => files_returned(rows@, id@) == Some(text::texts(files@)),
            Err(message) => files_returned(rows@, id@) is None && message@ == NO_LIST@,
        },
{
    let mut n: usize = rows.len();
    assert(rows@.take(n as int) =~= rows@);
    while n > 0
        invariant
            n <= rows.len(),
            last_walk(rows@, id@) == last_walk(rows@.take(n as int), id@),
        decreases n,
    {
        n -= 1;
        proof {
            counting::one_more(rows@, n as int);
        }
        let row: &Row = &rows[n];
        if row.ok && text::same(row.query_id.as_str(), id) && text::same(
            row.condition.as_str(),
            "s1m",
        ) {
            assert(last_walk(rows@, id@) == Some(*row));
            match &row.detail {
                Some(detail) => match json::list_at(detail.as_str(), "/files") {
                    Some(items) => return Ok(texts_in(&items)),
                    None => return Err(NO_LIST.to_owned()),
                },
                None => return Err(NO_LIST.to_owned()),
            }
        }
    }
    assert(last_walk(rows@, id@) is None);
    Err(NO_LIST.to_owned())
}

/// The command line of an agent. With no model named every agent in the run takes its own default.
pub open spec fn agent_command(
    prompt: Seq<char>,
    model: Option<Seq<char>>,
    tools: Seq<char>,
) -> Seq<Seq<char>> {
    let list = Seq::empty().push("-p"@).push(prompt).push("--output-format"@).push(
        "stream-json"@,
    ).push("--verbose"@);
    let list = match model {
        Some(model) => list.push("--model"@).push(model),
        None => list,
    };
    list.push("--safe-mode"@).push("--tools"@).push(tools).push("--allowedTools"@).push(tools).push(
        "--permission-prompts"@,
    ).push("none"@)
}

fn word(list: &mut Vec<String>, word: &str)
    ensures
        text::texts(final(list)@) == text::texts(old(list)@).push(word@),
{
    let ghost was = text::texts(list@);
    list.push(word.to_owned());
    assert(text::texts(list@) =~= was.push(word@));
}

pub fn agent_arguments(prompt: &str, model: &Option<String>, tools: &str) -> (list: Vec<String>)
    ensures
        text::texts(list@) == agent_command(prompt@, json::text_of(*model), tools@),
{
    let mut list: Vec<String> = Vec::new();
    assert(text::texts(list@) =~= Seq::<Seq<char>>::empty());
    word(&mut list, "-p");
    word(&mut list, prompt);
    word(&mut list, "--output-format");
    word(&mut list, "stream-json");
    word(&mut list, "--verbose");
    match model {
        Some(model) => {
            word(&mut list, "--model");
            word(&mut list, model.as_str());
        },
        None => {},
    }
    word(&mut list, "--safe-mode");
    word(&mut list, "--tools");
    word(&mut list, tools);
    word(&mut list, "--allowedTools");
    word(&mut list, tools);
    word(&mut list, "--permission-prompts");
    word(&mut list, "none");
    list
}

/// The command line of a walk, from the wiki's directory. The gold set says what relevance means
/// for a query, and the walk takes it; a condition that is s1m at a threshold names that.
pub open spec fn walk_command(
    query: Seq<char>,
    entry: Seq<char>,
    mode: Option<Seq<char>>,
    threshold: Option<Seq<char>>,
) -> Seq<Seq<char>> {
    let list = Seq::empty().push(query).push(entry).push("--root"@).push("."@).push(
        "--format"@,
    ).push("json"@);
    let list = match mode {
        Some(mode) => list.push("--mode"@).push(mode),
        None => list,
    };
    match threshold {
        Some(threshold) => list.push("--threshold"@).push(threshold),
        None => list,
    }
}

pub fn walk_arguments(
    query: &str,
    entry: &str,
    mode: &Option<String>,
    threshold: &Option<String>,
) -> (list: Vec<String>)
    ensures
        text::texts(list@) == walk_command(
            query@,
            entry@,
            json::text_of(*mode),
            json::text_of(*threshold),
        ),
{
    let mut list: Vec<String> = Vec::new();
    assert(text::texts(list@) =~= Seq::<Seq<char>>::empty());
    word(&mut list, query);
    word(&mut list, entry);
    word(&mut list, "--root");
    word(&mut list, ".");
    word(&mut list, "--format");
    word(&mut list, "json");
    match mode {
        Some(mode) => {
            word(&mut list, "--mode");
            word(&mut list, mode.as_str());
        },
        None => {},
    }
    match threshold {
        Some(threshold) => {
            word(&mut list, "--threshold");
            word(&mut list, threshold.as_str());
        },
        None => {},
    }
    list
}

/// The last line of a text that says anything.
pub open spec fn last_said(lines: Seq<Seq<char>>) -> Option<Seq<char>>
    decreases lines.len(),
{
    if lines.len() == 0 {
        None
    } else if !text::blank(lines.last()) {
        Some(lines.last())
    } else {
        last_said(lines.drop_last())
    }
}

/// The first characters of a text.
pub open spec fn start_of(s: Seq<char>, n: int) -> Seq<char> {
    if s.len() <= n {
        s
    } else {
        s.take(n)
    }
}

/// How much of a line an error message quotes.
pub const QUOTED: usize = 200;

/// What an error message quotes of a text.
pub open spec fn tail_of(output: Seq<char>) -> Seq<char> {
    match last_said(text::lines(output)) {
        Some(line) => start_of(line, QUOTED as int),
        None => "no output"@,
    }
}

/// The last line of a run's output, for an error message.
pub fn tail(output: &str) -> (line: String)
    ensures
        line@ == tail_of(output@),
{
    let lines: Vec<String> = text::lines_of(output);
    let ghost all = text::texts(lines@);
    let mut n: usize = lines.len();
    assert(all.take(n as int) =~= all);
    while n > 0
        invariant
            n <= lines.len(),
            all == text::texts(lines@),
            all == text::lines(output@),
            last_said(all) == last_said(all.take(n as int)),
        decreases n,
    {
        n -= 1;
        proof {
            counting::one_more(all, n as int);
            assert(all[n as int] == lines@[n as int]@);
        }
        if !text::is_blank(lines[n].as_str()) {
            let chars: Vec<char> = text::chars(lines[n].as_str());
            let size: usize = if chars.len() <= QUOTED {
                chars.len()
            } else {
                QUOTED
            };
            let quoted: String = text::string(&chars, 0, size);
            assert(quoted@ =~= start_of(all[n as int], QUOTED as int));
            return quoted;
        }
    }
    "no output".to_owned()
}

/// A whole number in decimal, its sign before it where it is below zero.
pub open spec fn signed(n: int) -> Seq<char> {
    if n < 0 {
        "-"@ + text::decimal((-n) as nat)
    } else {
        text::decimal(n as nat)
    }
}

fn signed_of(n: i32) -> (text: String)
    ensures
        text@ == signed(n as int),
{
    if n < 0 {
        let mut text: String = "-".to_owned();
        let wide: i64 = -(n as i64);
        text.append(text::number(wide as u64).as_str());
        text
    } else {
        text::number(n as u64)
    }
}

/// What is said of a program that failed: how it exited, and the last line it wrote.
pub open spec fn exited(program: Seq<char>, status: Option<i32>, stderr: Seq<char>) -> Seq<char> {
    program + " exited "@ + match status {
        Some(code) => signed(code as int),
        None => "on a timeout"@,
    } + ": "@ + tail_of(stderr)
}

fn say_exited(program: &str, status: Option<i32>, stderr: &str) -> (message: String)
    ensures
        message@ == exited(program@, status, stderr@),
{
    let mut message: String = program.to_owned();
    message.append(" exited ");
    match status {
        Some(code) => message.append(signed_of(code).as_str()),
        None => message.append("on a timeout"),
    }
    message.append(": ");
    message.append(tail(stderr).as_str());
    message
}

/// Whether the run of an agent's program can be read back: it exited cleanly.
pub fn agent_finished(program: &str, status: Option<i32>, stderr: &str) -> (done: Result<(), String>)
    ensures
        match done {
            Ok(_) => status == Some(0i32),
            Err(message) => status != Some(0i32) && message@ == exited(
                program@,
                status,
                stderr@,
            ),
        },
{
    match status {
        Some(0) => Ok(()),
        _ => Err(say_exited(program, status, stderr)),
    }
}

/// Whether a walk can be read back: it found something, or it found nothing.
pub fn walk_finished(status: Option<i32>, stderr: &str) -> (done: Result<(), String>)
    ensures
        match done {
            Ok(_) => status == Some(0i32) || status == Some(1i32),
            Err(message) => status != Some(0i32) && status != Some(1i32) && message@ == exited(
                "s1m"@,
                status,
                stderr@,
            ),
        },
{
    match status {
        Some(0) => Ok(()),
        Some(1) => Ok(()),
        _ => Err(say_exited("s1m", status, stderr)),
    }
}

/// What to do about a program that is running.
#[derive(PartialEq, Eq, Structural, Clone, Copy)]
pub enum Poll {
    /// It is done, with this exit code.
    Finished(i32),
    /// It has outrun its time.
    Kill,
    Wait,
}

/// Looks at a program that is running: whether it has exited, and with which code where it was not
/// a signal that ended it.
pub fn poll(status: Option<Option<i32>>, elapsed_ms: u64, timeout_ms: u64) -> (next: Poll)
    ensures
        next == match status {
            Some(Some(code)) => Poll::Finished(code),
            Some(None) => Poll::Finished((-1int) as i32),
            None => if elapsed_ms >= timeout_ms {
                Poll::Kill
            } else {
                Poll::Wait
            },
        },
{
    match status {
        Some(Some(code)) => Poll::Finished(code),
        Some(None) => Poll::Finished(-1),
        None => if elapsed_ms >= timeout_ms {
            Poll::Kill
        } else {
            Poll::Wait
        },
    }
}

/// Where one run's own output is kept.
pub open spec fn raw_name(
    out: Seq<char>,
    id: Seq<char>,
    condition: Seq<char>,
    repeat: nat,
    suffix: Seq<char>,
) -> Seq<char> {
    paths::joined_path(
        paths::joined_path(out, RAW@),
        id + "-"@ + condition + "-"@ + text::decimal(repeat) + "."@ + suffix,
    )
}

pub fn raw_path(out: &str, query: &Query, job: &Job, suffix: &str) -> (path: String)
    ensures
        path@ == raw_name(out@, query.id@, job.condition@, job.repeat as nat, suffix@),
{
    let mut name: String = query.id.clone();
    name.append("-");
    name.append(job.condition.as_str());
    name.append("-");
    name.append(text::number(job.repeat as u64).as_str());
    name.append(".");
    name.append(suffix);
    paths::join(paths::join(out, RAW).as_str(), name.as_str())
}

/// Where a walk keeps its judgments: a cold one in a directory of its own, so that what it spent
/// can be read back afterwards.
pub open spec fn cache_of(
    out: Seq<char>,
    shared: Option<Seq<char>>,
    id: Seq<char>,
    repeat: nat,
    cold: bool,
) -> Seq<char> {
    if cold {
        paths::joined_path(
            paths::joined_path(out, COLD_CACHE@),
            id + "-"@ + text::decimal(repeat),
        )
    } else {
        match shared {
            Some(dir) => dir,
            None => paths::joined_path(out, "cache"@),
        }
    }
}

pub fn cache_path(
    out: &str,
    shared: &Option<String>,
    query: &Query,
    repeat: usize,
    cold: bool,
) -> (path: String)
    ensures
        path@ == cache_of(out@, json::text_of(*shared), query.id@, repeat as nat, cold),
{
    if cold {
        let mut name: String = query.id.clone();
        name.append("-");
        name.append(text::number(repeat as u64).as_str());
        paths::join(paths::join(out, COLD_CACHE).as_str(), name.as_str())
    } else {
        match shared {
            Some(dir) => dir.clone(),
            None => paths::join(out, "cache"),
        }
    }
}

/// Where agents keep their transcripts: in the directory given for them, else under the agents'
/// configuration, which is the directory of that `name` under the home directory where no other is
/// set.
pub open spec fn transcripts_dir(
    given: Option<Seq<char>>,
    config: Option<Seq<char>>,
    home: Seq<char>,
    name: Seq<char>,
) -> Seq<char> {
    match given {
        Some(dir) => dir,
        None => paths::joined_path(
            match config {
                Some(dir) => dir,
                None => paths::joined_path(home, name),
            },
            "projects"@,
        ),
    }
}

pub fn projects(
    given: &Option<String>,
    config: &Option<String>,
    home: &str,
    name: &str,
) -> (dir: String)
    ensures
        dir@ == transcripts_dir(json::text_of(*given), json::text_of(*config), home@, name@),
{
    match given {
        Some(dir) => dir.clone(),
        None => match config {
            Some(dir) => paths::join(dir.as_str(), "projects"),
            None => paths::join(paths::join(home, name).as_str(), "projects"),
        },
    }
}

/// Where a subagent's transcript would stand under a project, by session and agent.
pub open spec fn transcript_of(
    project: Seq<char>,
    session: Seq<char>,
    agent: Seq<char>,
) -> Seq<char> {
    paths::joined_path(
        paths::joined_path(paths::joined_path(project, session), "subagents"@),
        "agent-"@ + agent + ".jsonl"@,
    )
}

/// Where a subagent's transcript would stand under each project; the name of a project's directory
/// is derived from the working directory, so the session is looked for instead of spelled.
pub fn transcript_paths(projects: &Vec<String>, session: &str, agent: &str) -> (list: Vec<String>)
    ensures
        list.len() == projects.len(),
        forall|k: int|
            0 <= k < list.len() ==> (#[trigger] list@[k])@ == transcript_of(
                projects@[k]@,
                session@,
                agent@,
            ),
{
    let mut list: Vec<String> = Vec::new();
    for i in 0..projects.len()
        invariant
            list.len() == i,
            forall|k: int|
                0 <= k < i ==> (#[trigger] list@[k])@ == transcript_of(
                    projects@[k]@,
                    session@,
                    agent@,
                ),
    {
        let mut name: String = "agent-".to_owned();
        name.append(agent);
        name.append(".jsonl");
        let at: String = paths::join(projects[i].as_str(), session);
        let under: String = paths::join(at.as_str(), "subagents");
        list.push(paths::join(under.as_str(), name.as_str()));
    }
    list
}

/// What stored judgments say at a pointer, added up; one that does not say counts as nothing.
pub open spec fn spent_at(stored: Seq<Seq<char>>, pointer: Seq<char>) -> int
    decreases stored.len(),
{
    if stored.len() == 0 {
        0
    } else {
        spent_at(stored.drop_last(), pointer) + match json::as_count(
            json::json_at(stored.last(), pointer),
        ) {
            Some(n) => n as int,
            None => 0,
        }
    }
}

proof fn spent_grows(stored: Seq<Seq<char>>, pointer: Seq<char>, n: int)
    requires
        0 <= n <= stored.len(),
    ensures
        0 <= spent_at(stored.take(n), pointer) <= spent_at(stored, pointer),
    decreases stored.len(),
{
    if n < stored.len() {
        spent_grows(stored.drop_last(), pointer, n);
        assert(stored.drop_last().take(n) =~= stored.take(n));
    } else {
        assert(stored.take(n) =~= stored);
        if n > 0 {
            spent_grows(stored.drop_last(), pointer, n - 1);
        }
    }
}

fn add_up(stored: &Vec<String>, pointer: &str) -> (sum: Option<u64>)
    ensures
        match sum {
            Some(sum) => sum == spent_at(text::texts(stored@), pointer@),
            None => spent_at(text::texts(stored@), pointer@) > u64::MAX,
        },
{
    let ghost all = text::texts(stored@);
    let mut sum: u64 = 0;
    for i in 0..stored.len()
        invariant
            all == text::texts(stored@),
            sum == spent_at(all.take(i as int), pointer@),
    {
        proof {
            counting::one_more(all, i as int);
            assert(all[i as int] == stored@[i as int]@);
            spent_grows(all, pointer@, i + 1);
        }
        let more: u64 = match json::count_at(stored[i].as_str(), pointer) {
            Some(n) => n,
            None => 0,
        };
        match sum.checked_add(more) {
            Some(next) => {
                sum = next;
            },
            None => return None,
        }
    }
    proof {
        counting::take_all(all);
    }
    Some(sum)
}

/// What the judgments a cold walk stored cost: input tokens and output tokens. Nothing, where they
/// are more than can be counted.
pub fn jev_spent(stored: &Vec<String>) -> (spent: Option<(u64, u64)>)
    ensures
        match spent {
            Some((input, output)) => input == spent_at(
                text::texts(stored@),
                "/detail/input_tokens"@,
            ) && output == spent_at(text::texts(stored@), "/detail/output_tokens"@),
            None => spent_at(text::texts(stored@), "/detail/input_tokens"@) > u64::MAX || spent_at(
                text::texts(stored@),
                "/detail/output_tokens"@,
            ) > u64::MAX,
        },
{
    match add_up(stored, "/detail/input_tokens") {
        Some(input) => match add_up(stored, "/detail/output_tokens") {
            Some(output) => Some((input, output)),
            None => None,
        },
        None => None,
    }
}

/// The names that another list does not hold, in order.
pub open spec fn absent(names: Seq<Seq<char>>, held: Seq<Seq<char>>) -> Seq<Seq<char>>
    decreases names.len(),
{
    if names.len() == 0 {
        Seq::empty()
    } else if held.contains(names.last()) {
        absent(names.drop_last(), held)
    } else {
        absent(names.drop_last(), held).push(names.last())
    }
}

/// Which of the judgments a cold walk bought the shared cache lacks. The names are the requests'
/// hashes, so a name that is already there is the same answer.
pub fn to_merge(bought: &Vec<String>, shared: &Vec<String>) -> (list: Vec<String>)
    ensures
        text::texts(list@) == absent(text::texts(bought@), text::texts(shared@)),
{
    let ghost all = text::texts(bought@);
    let ghost held = text::texts(shared@);
    let mut list: Vec<String> = Vec::new();
    assert(text::texts(list@) =~= Seq::<Seq<char>>::empty());
    for i in 0..bought.len()
        invariant
            all == text::texts(bought@),
            held == text::texts(shared@),
            text::texts(list@) == absent(all.take(i as int), held),
    {
        proof {
            counting::one_more(all, i as int);
            assert(all[i as int] == bought@[i as int]@);
        }
        let mut known: bool = false;
        for j in 0..shared.len()
            invariant
                i < bought.len(),
                held == text::texts(shared@),
                known == exists|k: int| 0 <= k < j && (#[trigger] held[k]) == bought@[i as int]@,
        {
            assert(held[j as int] == shared@[j as int]@);
            if text::same(shared[j].as_str(), bought[i].as_str()) {
                known = true;
            }
        }
        if !known {
            let ghost was = text::texts(list@);
            let name: String = bought[i].clone();
            list.push(name);
            assert(text::texts(list@) =~= was.push(bought@[i as int]@));
        }
    }
    proof {
        counting::take_all(all);
    }
    list
}

/// The models that answered a run.
pub fn models_of(run: &AgentRun) -> (models: Vec<String>)
    ensures
        text::texts(models@) == match run.model {
            Some(model) => Seq::empty().push(model@),
            None => Seq::<Seq<char>>::empty(),
        },
{
    let mut models: Vec<String> = Vec::new();
    assert(text::texts(models@) =~= Seq::<Seq<char>>::empty());
    match &run.model {
        Some(model) => word(&mut models, model.as_str()),
        None => {},
    }
    models
}

/// What a run came to: its numbers, the models that answered and its detail, or what went wrong, as
/// detail.
pub enum Outcome {
    Measured { metrics: Table<u64>, models: Vec<String>, detail: String },
    Failed { detail: String },
}

/// Whether a row says what a run came to: a run that failed is a row too, so that a resumed pass
/// does not try it forever; it carries no numbers.
pub open spec fn records(
    query: Query,
    job: Job,
    wiki: Seq<char>,
    model: Option<Seq<char>>,
    outcome: Outcome,
    row: Row,
) -> bool {
    &&& row.query_id@ == query.id@
    &&& row.category@ == query.category_name()
    &&& row.condition@ == job.condition@
    &&& row.repeat == job.repeat
    &&& row.wiki@ == wiki
    &&& json::text_of(row.model_asked_for) == model
    &&& match outcome {
        Outcome::Measured { metrics, models, detail } => {
            &&& row.ok
            &&& row.metrics == metrics
            &&& row.models == models
            &&& row.detail == Some(detail)
        },
        Outcome::Failed { detail } => {
            &&& !row.ok
            &&& row.metrics.names().len() == 0
            &&& row.models.len() == 0
            &&& row.detail == Some(detail)
        },
    }
}

/// The model that a run of a condition is bought under: s1m's own walk asks none.
pub open spec fn model_of(condition: Seq<char>, model: Option<Seq<char>>) -> Option<Seq<char>> {
    if row::runs_an_agent(condition) {
        model
    } else {
        None
    }
}

pub fn model_for(condition: &str, model: &Option<String>) -> (asked: Option<String>)
    ensures
        json::text_of(asked) == model_of(condition@, json::text_of(*model)),
{
    if row::agent_condition(condition) {
        match model {
            Some(model) => Some(model.clone()),
            None => None,
        }
    } else {
        None
    }
}

/// One run as a row, whatever happened.
pub fn record(
    query: &Query,
    job: &Job,
    wiki: &str,
    model: &Option<String>,
    outcome: Outcome,
) -> (row: Row)
    ensures
        records(*query, *job, wiki@, json::text_of(*model), outcome, row),
{
    let model_asked_for: Option<String> = match model {
        Some(model) => Some(model.clone()),
        None => None,
    };
    match outcome {
        Outcome::Measured { metrics, models, detail } => Row {
            query_id: query.id.clone(),
            category: query.category().to_owned(),
            condition: job.condition.clone(),
            repeat: job.repeat,
            wiki: wiki.to_owned(),
            ok: true,
            metrics,
            model_asked_for,
            models,
            detail: Some(detail),
        },
        Outcome::Failed { detail } => Row {
            query_id: query.id.clone(),
            category: query.category().to_owned(),
            condition: job.condition.clone(),
            repeat: job.repeat,
            wiki: wiki.to_owned(),
            ok: false,
            metrics: Table::new(),
            model_asked_for,
            models: Vec::new(),
            detail: Some(detail),
        },
    }
}

/// A run against this cut of the wiki that a row holds, whatever came of it.
pub open spec fn in_rows(rows: Seq<Row>, wiki: Seq<char>, id: Seq<char>, job: JobView) -> bool {
    exists|i: int|
        0 <= i < rows.len() && (#[trigger] rows[i]).wiki@ == wiki && rows[i].query_id@ == id
            && rows[i].condition@ == job.condition && rows[i].repeat == job.repeat
}

/// A run that the ledger holds as measured under the model asked for, for whatever directory. One
/// that was bought and not measured is owed still.
pub open spec fn in_ledger(
    entries: Seq<EntryView>,
    wiki: Seq<char>,
    model: Option<Seq<char>>,
    id: Seq<char>,
    job: JobView,
) -> bool {
    exists|i: int|
        0 <= i < entries.len() && (#[trigger] entries[i]).ok is Some && entries[i].id.key.wiki
            == wiki && entries[i].id.key.query == id && entries[i].id.key.condition
            == job.condition && entries[i].id.key.repeat == job.repeat && entries[i].id.model
            == model_of(job.condition, model)
}

/// Whether a list is the runs of this cut of the wiki that the rows hold.
pub open spec fn are_done(
    rows: Seq<Row>,
    wiki: Seq<char>,
    done: Seq<(String, String, usize)>,
) -> bool {
    forall|id: Seq<char>, job: JobView| #[trigger]
        run::is_done(done, id, job) == in_rows(rows, wiki, id, job)
}

/// The jobs that the ledger does not hold as measured.
pub open spec fn unsettled(
    jobs: Seq<JobView>,
    ids: Seq<Seq<char>>,
    entries: Seq<EntryView>,
    wiki: Seq<char>,
    model: Option<Seq<char>>,
) -> Seq<JobView>
    decreases jobs.len(),
{
    if jobs.len() == 0 {
        Seq::empty()
    } else {
        let rest = unsettled(jobs.drop_last(), ids, entries, wiki, model);
        if in_ledger(entries, wiki, model, ids[jobs.last().query], jobs.last()) {
            rest
        } else {
            rest.push(jobs.last())
        }
    }
}

/// The runs of this cut of the wiki that the rows hold: a wiki that has changed makes a different
/// measurement.
fn done_rows(rows: &Vec<Row>, wiki: &str) -> (done: Vec<(String, String, usize)>)
    ensures
        are_done(rows@, wiki@, done@),
{
    let mut done: Vec<(String, String, usize)> = Vec::new();
    for n in 0..rows.len()
        invariant
            are_done(rows@.take(n as int), wiki@, done@),
    {
        let ghost was = done@;
        let ghost (few, more) = (rows@.take(n as int), rows@.take(n + 1));
        let row: &Row = &rows[n];
        let ours: bool = text::same(row.wiki.as_str(), wiki);
        if ours {
            done.push((row.query_id.clone(), row.condition.clone(), row.repeat));
        }
        assert forall|id: Seq<char>, job: JobView| #[trigger]
            run::is_done(done@, id, job) == in_rows(more, wiki@, id, job) by {
            assert(run::is_done(was, id, job) == in_rows(few, wiki@, id, job));
            if run::is_done(done@, id, job) {
                let i = choose|i: int|
                    0 <= i < done.len() && (#[trigger] done@[i]).0@ == id && done@[i].1@
                        == job.condition && done@[i].2 == job.repeat;
                if i < was.len() {
                    assert(was[i] == done@[i]);
                    let k = choose|k: int|
                        0 <= k < few.len() && (#[trigger] few[k]).wiki@ == wiki@ && few[k].query_id@
                            == id && few[k].condition@ == job.condition && few[k].repeat
                            == job.repeat;
                    assert(more[k] == few[k]);
                } else {
                    assert(more[n as int].wiki@ == wiki@);
                }
            }
            if in_rows(more, wiki@, id, job) {
                let k = choose|k: int|
                    0 <= k < more.len() && (#[trigger] more[k]).wiki@ == wiki@ && more[k].query_id@
                        == id && more[k].condition@ == job.condition && more[k].repeat
                        == job.repeat;
                if k < n {
                    assert(few[k] == more[k]);
                    let i = choose|i: int|
                        0 <= i < was.len() && (#[trigger] was[i]).0@ == id && was[i].1@
                            == job.condition && was[i].2 == job.repeat;
                    assert(done@[i] == was[i]);
                } else {
                    assert(done@[was.len() as int].0@ == id);
                }
            }
        }
    }
    proof {
        counting::take_all(rows@);
    }
    done
}

/// Whether the ledger holds a run as measured.
fn is_settled(
    entries: &Vec<Entry>,
    wiki: &str,
    model: &Option<String>,
    id: &str,
    job: &Job,
) -> (yes: bool)
    ensures
        yes == in_ledger(
            ledger::entry_views(entries@),
            wiki@,
            json::text_of(*model),
            id@,
            job@,
        ),
{
    let key: Key = Key {
        wiki: wiki.to_owned(),
        query: id.to_owned(),
        condition: job.condition.clone(),
        repeat: job.repeat,
    };
    let asked: Option<String> = model_for(job.condition.as_str(), model);
    let run: Entry = Entry { key, model: asked, out: String::new(), ok: None, cost_usd: None };
    let ghost views = ledger::entry_views(entries@);
    for i in 0..entries.len()
        invariant
            views == ledger::entry_views(entries@),
            run@.id.key.wiki == wiki@,
            run@.id.key.query == id@,
            run@.id.key.condition == job.condition@,
            run@.id.key.repeat == job.repeat,
            run@.id.model == model_of(job.condition@, json::text_of(*model)),
            forall|k: int| 0 <= k < i ==> !((#[trigger] views[k]).ok is Some && views[k].id == run@.id),
    {
        assert(views[i as int] == entries@[i as int]@);
        if entries[i].ok.is_some() && entries[i].same_run(&run) {
            return true;
        }
    }
    proof {
        if in_ledger(views, wiki@, json::text_of(*model), id@, job@) {
            let i = choose|i: int|
                0 <= i < views.len() && (#[trigger] views[i]).ok is Some && views[i].id.key.wiki
                    == wiki@ && views[i].id.key.query == id@ && views[i].id.key.condition
                    == job@.condition && views[i].id.key.repeat == job@.repeat
                    && views[i].id.model == model_of(job@.condition, json::text_of(*model));
            assert(views[i].id.key =~= run@.id.key);
            assert(views[i].id =~= run@.id);
        }
    }
    false
}

/// Which runs a pass owes, in the order they should be made: what it plans, less what a row of this
/// cut of the wiki holds, and less what the ledger holds as measured under the model asked for, so
/// that a second directory does not buy what the first one already has.
pub fn owed(
    gold: &Gold,
    conditions: &Vec<String>,
    repeats: usize,
    cold_repeats: usize,
    rows: &Vec<Row>,
    entries: &Vec<Entry>,
    wiki: &str,
    model: &Option<String>,
) -> (jobs: Vec<Job>)
    ensures
        exists|done: Seq<(String, String, usize)>| #[trigger]
            are_done(rows@, wiki@, done) && run::job_views(jobs@) == unsettled(
                run::owed(
                    gold::ids(gold.queries@),
                    (Plan {
                        conditions: text::texts(conditions@),
                        repeats: repeats as int,
                        cold_repeats: cold_repeats as int,
                        done,
                    }),
                    gold.queries.len() as int,
                ),
                gold::ids(gold.queries@),
                ledger::entry_views(entries@),
                wiki@,
                json::text_of(*model),
            ),
{
    let done: Vec<(String, String, usize)> = done_rows(rows, wiki);
    let planned: Vec<Job> = run::pending(gold, conditions, repeats, cold_repeats, &done);
    let ghost ids = gold::ids(gold.queries@);
    let ghost plan = Plan {
        conditions: text::texts(conditions@),
        repeats: repeats as int,
        cold_repeats: cold_repeats as int,
        done: done@,
    };
    let ghost all = run::job_views(planned@);
    let ghost views = ledger::entry_views(entries@);
    let ghost tier = json::text_of(*model);
    let mut jobs: Vec<Job> = Vec::new();
    assert(run::job_views(jobs@) =~= Seq::<JobView>::empty());
    for n in 0..planned.len()
        invariant
            all == run::job_views(planned@),
            all == run::owed(ids, plan, ids.len() as int),
            0 <= plan.repeats,
            ids == gold::ids(gold.queries@),
            views == ledger::entry_views(entries@),
            tier == json::text_of(*model),
            run::job_views(jobs@) == unsettled(all.take(n as int), ids, views, wiki@, tier),
    {
        proof {
            counting::one_more(all, n as int);
            assert(all[n as int] == planned@[n as int]@);
            assert(all.contains(all[n as int]));
            run::a_resumed_pass_owes_only_what_is_missing(ids, plan, all[n as int]);
        }
        let job: &Job = &planned[n];
        let id: &str = gold.queries[job.query].id.as_str();
        assert(id@ == ids[job.query as int]);
        let settled: bool = is_settled(entries, wiki, model, id, job);
        if !settled {
            let ghost was = jobs@;
            let one: Job = Job {
                query: job.query,
                condition: job.condition.clone(),
                repeat: job.repeat,
            };
            assert(one@ == job@);
            jobs.push(one);
            assert(run::job_views(jobs@) =~= run::job_views(was).push(job@));
        }
    }
    proof {
        counting::take_all(all);
    }
    jobs
}

proof fn unsettled_holds(
    jobs: Seq<JobView>,
    ids: Seq<Seq<char>>,
    entries: Seq<EntryView>,
    wiki: Seq<char>,
    model: Option<Seq<char>>,
    job: JobView,
)
    ensures
        unsettled(jobs, ids, entries, wiki, model).contains(job) == (jobs.contains(job)
            && !in_ledger(entries, wiki, model, ids[job.query], job)),
    decreases jobs.len(),
{
    if jobs.len() > 0 {
        let front = jobs.drop_last();
        unsettled_holds(front, ids, entries, wiki, model, job);
        counting::holds_one_more(jobs, front.len() as int);
        assert(jobs.take(front.len() as int) =~= front);
        counting::take_all(jobs);
        let rest = unsettled(front, ids, entries, wiki, model);
        let all = rest.push(jobs.last());
        counting::holds_one_more(all, rest.len() as int);
        assert(all.take(rest.len() as int) =~= rest);
        counting::take_all(all);
    }
}

/// A run is bought once: a pass owes just what it plans, that no row of this cut of the wiki holds
/// and that the ledger does not hold as measured under the model asked for.
pub proof fn a_run_is_bought_once(
    ids: Seq<Seq<char>>,
    plan: Plan,
    rows: Seq<Row>,
    entries: Seq<EntryView>,
    wiki: Seq<char>,
    model: Option<Seq<char>>,
    job: JobView,
)
    requires
        0 <= plan.repeats,
        are_done(rows, wiki, plan.done),
    ensures
        unsettled(run::owed(ids, plan, ids.len() as int), ids, entries, wiki, model).contains(job)
            == (run::planned(ids, plan, job) && !in_rows(rows, wiki, ids[job.query], job)
            && !in_ledger(entries, wiki, model, ids[job.query], job)),
{
    run::a_resumed_pass_owes_only_what_is_missing(ids, plan, job);
    unsettled_holds(run::owed(ids, plan, ids.len() as int), ids, entries, wiki, model, job);
    assert(run::is_done(plan.done, ids[job.query], job) == in_rows(
        rows,
        wiki,
        ids[job.query],
        job,
    ));
}

/// A run that was recorded is not owed again, however it ended.
pub proof fn a_recorded_run_is_not_owed_again(
    query: Query,
    job: Job,
    wiki: Seq<char>,
    model: Option<Seq<char>>,
    outcome: Outcome,
    row: Row,
    ids: Seq<Seq<char>>,
    plan: Plan,
    rows: Seq<Row>,
    entries: Seq<EntryView>,
)
    requires
        records(query, job, wiki, model, outcome, row),
        rows.contains(row),
        0 <= plan.repeats,
        are_done(rows, wiki, plan.done),
        0 <= job.query < ids.len(),
        ids[job.query as int] == query.id@,
    ensures
        !unsettled(run::owed(ids, plan, ids.len() as int), ids, entries, wiki, model).contains(job@),
{
    a_run_is_bought_once(ids, plan, rows, entries, wiki, model, job@);
    let i = choose|i: int| 0 <= i < rows.len() && rows[i] == row;
    assert(rows[i].wiki@ == wiki);
}

/// The lines of a file of rows that say anything, each with its number.
pub open spec fn said_lines(lines: Seq<Seq<char>>) -> Seq<(int, Seq<char>)>
    decreases lines.len(),
{
    if lines.len() == 0 {
        Seq::empty()
    } else if text::blank(lines.last()) {
        said_lines(lines.drop_last())
    } else {
        said_lines(lines.drop_last()).push((lines.len() as int, lines.last()))
    }
}

/// A numbered line.
pub struct Line {
    pub number: usize,
    pub text: String,
}

/// What numbered lines say.
pub open spec fn line_views(lines: Seq<Line>) -> Seq<(int, Seq<char>)> {
    lines.map_values(|line: Line| (line.number as int, line.text@))
}

pub fn lines_that_say(content: &str) -> (list: Vec<Line>)
    ensures
        line_views(list@) == said_lines(text::lines(content@)),
{
    let lines: Vec<String> = text::lines_of(content);
    let ghost all = text::texts(lines@);
    let mut list: Vec<Line> = Vec::new();
    assert(line_views(list@) =~= Seq::<(int, Seq<char>)>::empty());
    for i in 0..lines.len()
        invariant
            all == text::texts(lines@),
            line_views(list@) == said_lines(all.take(i as int)),
    {
        proof {
            counting::one_more(all, i as int);
            assert(all[i as int] == lines@[i as int]@);
        }
        if !text::is_blank(lines[i].as_str()) {
            let ghost was = line_views(list@);
            let text: String = lines[i].clone();
            list.push(Line { number: i + 1, text });
            assert(line_views(list@) =~= was.push((i + 1, all[i as int])));
        }
    }
    proof {
        counting::take_all(all);
    }
    list
}

} // verus!
