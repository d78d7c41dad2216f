//! What an agent run cost and what it read, from what the agent's command line reports.
//!
//! The parent agent is asked to hand the query to a subagent, so the measurement that matters is
//! the subagent's own: its tokens, its wall time, its model, and the files it opened. That is
//! reported in two places. The stream carries the task events: which subagent was spawned, under
//! which agent id, and what the whole run cost. The subagent's transcript carries its messages
//! with their final usage, which the stream does not: the stream's per-message usage is the usage
//! so far, so its output token counts are partial.

use vstd::prelude::*;

use crate::counting;
use crate::json;
use crate::ordered;
use crate::ordered::Table;
use crate::paths;
use crate::text;

verus! {

/// The tokens one agent was billed for.
#[derive(PartialEq, Eq, Structural, Clone, Copy, Debug)]
pub struct Usage {
    pub input: u64,
    pub output: u64,
    pub cache_read: u64,
    pub cache_create: u64,
}

impl Usage {
    /// Nothing billed.
    pub open spec fn zero() -> Usage {
        Usage { input: 0, output: 0, cache_read: 0, cache_create: 0 }
    }

    pub open spec fn sum(self) -> int {
        self.input + self.output + self.cache_read + self.cache_create
    }

    /// Both together, where each count fits.
    pub open spec fn plus(self, other: Usage) -> Usage {
        Usage {
            input: (self.input + other.input) as u64,
            output: (self.output + other.output) as u64,
            cache_read: (self.cache_read + other.cache_read) as u64,
            cache_create: (self.cache_create + other.cache_create) as u64,
        }
    }

    pub open spec fn fits(self, other: Usage) -> bool {
        &&& self.input + other.input <= u64::MAX
        &&& self.output + other.output <= u64::MAX
        &&& self.cache_read + other.cache_read <= u64::MAX
        &&& self.cache_create + other.cache_create <= u64::MAX
    }

    pub fn none() -> (usage: Usage)
        ensures
            usage == Usage::zero(),
    {
        Usage { input: 0, output: 0, cache_read: 0, cache_create: 0 }
    }

    /// Everything the agent was billed for: what it read, cached or not, plus what it wrote.
    pub fn total(&self) -> (n: u64)
        requires
            self.sum() <= u64::MAX,
        ensures
            n == self.sum(),
    {
        self.input + self.output + self.cache_read + self.cache_create
    }

    /// Whether everything the agent was billed for can be counted.
    pub fn can_total(&self) -> (yes: bool)
        ensures
            yes == (self.sum() <= u64::MAX),
    {
        let most: u128 = u64::MAX as u128;
        self.input as u128 + self.output as u128 + self.cache_read as u128
            + self.cache_create as u128 <= most
    }

    /// What the agent read: the billed context, cached or not.
    pub fn read(&self) -> (n: u64)
        requires
            self.input + self.cache_read + self.cache_create <= u64::MAX,
        ensures
            n == self.input + self.cache_read + self.cache_create,
            n == self.sum() - self.output,
    {
        self.input + self.cache_read + self.cache_create
    }

    pub fn add(&mut self, other: Usage)
        requires
            old(self).fits(other),
        ensures
            *final(self) == old(self).plus(other),
            final(self).sum() == old(self).sum() + other.sum(),
    {
        self.input = self.input + other.input;
        self.output = self.output + other.output;
        self.cache_read = self.cache_read + other.cache_read;
        self.cache_create = self.cache_create + other.cache_create;
    }

    /// Whether both together can be counted.
    pub fn can_add(&self, other: Usage) -> (yes: bool)
        ensures
            yes == self.fits(other),
    {
        self.input <= u64::MAX - other.input && self.output <= u64::MAX - other.output
            && self.cache_read <= u64::MAX - other.cache_read && self.cache_create <= u64::MAX
            - other.cache_create
    }
}

/// A path as the wiki spells it: relative to the root, with any `./` dropped. A path that is not
/// under the wiki is left as it was written.
pub open spec fn relative_path(path: Seq<char>, wiki: Seq<char>) -> Seq<char> {
    let inside = match paths::below(path, wiki) {
        Some(rest) => paths::path_of(rest),
        None => path,
    };
    match paths::below(inside, seq!['.']) {
        Some(rest) => paths::path_of(rest),
        None => inside,
    }
}

pub fn relative(path: &str, wiki: &str) -> (spelt: String)
    ensures
        spelt@ == relative_path(path@, wiki@),
{
    let inside: String = match paths::strip(path, wiki) {
        Some(rest) => rest,
        None => path.to_owned(),
    };
    let mut here = String::new();
    here.push('.');
    assert(here@ =~= seq!['.']);
    match paths::strip(inside.as_str(), here.as_str()) {
        Some(rest) => rest,
        None => inside,
    }
}

/// An absolute path.
pub open spec fn is_absolute(path: Seq<char>) -> bool {
    path.len() > 0 && path[0] == '/'
}

proof fn here_is_one_component()
    ensures
        paths::components(seq!['.']) == seq![seq!['.']],
{
    let here = seq!['.'];
    assert(!here.contains('/'));
    text::runs_hold_no_separator(here, '/');
    let runs = seq![here];
    let none = Seq::<Seq<char>>::empty();
    assert(runs.drop_last() =~= none);
    assert(runs.last() == here);
    assert(paths::kept(none) =~= none);
    assert(paths::kept(runs) == none.push(here));
    assert(none.push(here) =~= runs);
}

/// The path of names under an absolute wiki is its own spelling there.
proof fn names_stay(parts: Seq<Seq<char>>, wiki: Seq<char>)
    requires
        is_absolute(wiki),
        paths::all_names(parts),
    ensures
        relative_path(paths::path_of(parts), wiki) == paths::path_of(parts),
        paths::below(paths::path_of(parts), wiki) is None,
        paths::below(paths::path_of(parts), seq!['.']) is None,
{
    paths::names_are_components(parts);
    paths::components_are_names(wiki);
    here_is_one_component();
    let front = paths::components(wiki);
    if front.is_prefix_of(parts) {
        assert(parts[0] == front[0]);
        assert(paths::is_name(parts[0]));
        assert(seq!['/'][0] == '/');
        assert(seq!['/'].contains('/'));
    }
    if seq![seq!['.']].is_prefix_of(parts) {
        assert(parts[0] == seq![seq!['.']][0]);
        assert(paths::is_name(parts[0]));
    }
}

/// A spelling that the wiki gave is kept: to spell a path again changes nothing.
pub proof fn spelling_again_changes_nothing(path: Seq<char>, wiki: Seq<char>)
    requires
        is_absolute(wiki),
    ensures
        relative_path(relative_path(path, wiki), wiki) == relative_path(path, wiki),
{
    paths::components_are_names(path);
    paths::components_are_names(wiki);
    here_is_one_component();
    let whole = paths::components(path);
    match paths::below(path, wiki) {
        Some(rest) => {
            assert forall|i: int| 0 <= i < rest.len() implies paths::is_name(#[trigger] rest[i]) by {
                assert(rest[i] == whole[i + paths::components(wiki).len()]);
            }
            names_stay(rest, wiki);
        },
        None => match paths::below(path, seq!['.']) {
            Some(rest) => {
                assert forall|i: int| 0 <= i < rest.len() implies paths::is_name(
                    #[trigger] rest[i],
                ) by {
                    assert(rest[i] == whole[i + 1]);
                }
                names_stay(rest, wiki);
            },
            None => {},
        },
    }
}

/// A path under the wiki comes back as it is spelled there, and so does one with a `./` before it;
/// an absolute path that is not under the wiki comes back as it was written.
pub proof fn a_path_under_the_wiki_comes_back(path: Seq<char>, wiki: Seq<char>)
    requires
        is_absolute(wiki),
    ensures
        !is_absolute(path) && (paths::components(path).len() > 0 ==> paths::components(path)[0]
            != seq!['.']) ==> relative_path(paths::joined_path(wiki, path), wiki)
            == paths::spelling(path) && relative_path(seq!['.', '/'] + path, wiki)
            == paths::spelling(path) && paths::same_path(paths::spelling(path), path),
        is_absolute(path) && paths::below(path, wiki) is None ==> relative_path(path, wiki) == path,
{
    paths::components_are_names(path);
    paths::components_are_names(wiki);
    here_is_one_component();
    let own = paths::components(path);
    let front = paths::components(wiki);
    if !is_absolute(path) && (own.len() > 0 ==> own[0] != seq!['.']) {
        assert forall|i: int| 0 <= i < own.len() implies paths::is_name(#[trigger] own[i]) by {}
        paths::names_are_components(own);
        names_stay(own, wiki);
        paths::components_join(wiki, path);
        assert((front + own).subrange(0, front.len() as int) =~= front);
        assert(front.is_prefix_of(front + own));
        assert((front + own).skip(front.len() as int) =~= own);
        let here = seq!['.'];
        assert(paths::joined_path(here, path) =~= seq!['.', '/'] + path);
        paths::components_join(here, path);
        let dotted = seq!['.', '/'] + path;
        let all = seq![here] + own;
        assert(paths::components(dotted) == all);
        assert(all[0] == here);
        if front.is_prefix_of(all) {
            assert(front[0] == all[0]);
            assert(here[0] != seq!['/'][0]);
        }
        assert(seq![here].is_prefix_of(all)) by {
            assert(all.subrange(0, 1) =~= seq![here]);
        }
        assert(all.skip(1) =~= own);
    }
    if is_absolute(path) && paths::below(path, wiki) is None {
        if seq![seq!['.']].is_prefix_of(own) {
            assert(own[0] == seq![seq!['.']][0]);
            assert(seq!['/'][0] != seq!['.'][0]);
        }
    }
}

/// Where a scan of JSON text stands: how many brackets are open, and whether it is inside a
/// string, behind a backslash there.
#[derive(PartialEq, Eq, Structural, Clone, Copy)]
pub struct Scan {
    pub depth: usize,
    pub in_string: bool,
    pub escaped: bool,
}

/// The scan from `start` up to `end`.
pub open spec fn scanned(s: Seq<char>, start: int, end: int) -> Scan
    decreases end - start,
{
    if end <= start {
        Scan { depth: 0, in_string: false, escaped: false }
    } else {
        let before = scanned(s, start, end - 1);
        let c = s[end - 1];
        if before.in_string {
            if before.escaped {
                Scan { escaped: false, ..before }
            } else if c == '\\' {
                Scan { escaped: true, ..before }
            } else if c == '"' {
                Scan { in_string: false, ..before }
            } else {
                before
            }
        } else if c == '"' {
            Scan { in_string: true, ..before }
        } else if c == '[' {
            Scan { depth: (before.depth + 1) as usize, ..before }
        } else if c == ']' {
            Scan { depth: (before.depth - 1) as usize, ..before }
        } else {
            before
        }
    }
}

/// Whether the bracket at `end` closes the one at `start`, as the first that leaves none open;
/// anything inside a JSON string is no bracket.
pub open spec fn closes(s: Seq<char>, start: int, end: int) -> bool {
    &&& start < end < s.len()
    &&& s[end] == ']'
    &&& !scanned(s, start, end).in_string
    &&& scanned(s, start, end + 1).depth == 0
    &&& forall|at: int| start < at <= end ==> (#[trigger] scanned(s, start, at)).depth > 0
}

/// The bracket that closes the one at `start`.
pub fn closing_bracket(all: &Vec<char>, start: usize) -> (end: Option<usize>)
    requires
        start < all.len(),
        all@[start as int] == '[',
    ensures
        match end {
            Some(end) => closes(all@, start as int, end as int),
            None => forall|end: int| !#[trigger] closes(all@, start as int, end),
        },
{
    let mut scan = Scan { depth: 0, in_string: false, escaped: false };
    let mut at: usize = start;
    while at < all.len()
        invariant
            start <= at <= all.len(),
            start < all.len(),
            all@[start as int] == '[',
            scan == scanned(all@, start as int, at as int),
            at > start ==> scan.depth > 0,
            scan.depth <= at - start,
            scan.escaped ==> scan.in_string,
            forall|j: int| start < j <= at ==> (#[trigger] scanned(all@, start as int, j)).depth > 0,
            forall|end: int| start < end < at ==> !#[trigger] closes(all@, start as int, end),
        decreases all.len() - at,
    {
        let c: char = all[at];
        let ghost now = scanned(all@, start as int, at + 1);
        if scan.in_string {
            if scan.escaped {
                scan.escaped = false;
            } else if c == '\\' {
                scan.escaped = true;
            } else if c == '"' {
                scan.in_string = false;
            }
        } else if c == '"' {
            scan.in_string = true;
        } else if c == '[' {
            scan.depth = scan.depth + 1;
        } else if c == ']' {
            scan.depth = scan.depth - 1;
            if scan.depth == 0 {
                assert(closes(all@, start as int, at as int));
                return Some(at);
            }
        }
        assert(!closes(all@, start as int, at as int));
        at += 1;
    }
    assert forall|end: int| !#[trigger] closes(all@, start as int, end) by {
        if end > start && end < all.len() {
            assert(!closes(all@, start as int, end));
        }
    }
    None
}

/// What stands between a bracket and the one that closes it, brackets and all.
pub open spec fn is_bracketed(s: Seq<char>, start: int, slice: Seq<char>) -> bool {
    &&& 0 <= start < s.len()
    &&& s[start] == '['
    &&& exists|end: int| #[trigger] closes(s, start, end) && slice == s.subrange(start, end + 1)
}

proof fn one_closing(s: Seq<char>, start: int, a: int, b: int)
    requires
        closes(s, start, a),
        closes(s, start, b),
    ensures
        a == b,
{
    if a < b {
        assert(scanned(s, start, a + 1).depth > 0);
    }
    if b < a {
        assert(scanned(s, start, b + 1).depth > 0);
    }
}

/// Whether the bracket at `start` opens a JSON list of texts, and which.
pub open spec fn list_from(s: Seq<char>, start: int) -> Option<Seq<Seq<char>>> {
    if exists|slice: Seq<char>| is_bracketed(s, start, slice) {
        json::json_strings(choose|slice: Seq<char>| is_bracketed(s, start, slice))
    } else {
        None
    }
}

/// The list from a bracket.
fn list_at(all: &Vec<char>, start: usize) -> (list: Option<Vec<String>>)
    requires
        start < all.len(),
        all@[start as int] == '[',
    ensures
        json::texts_of(list) == list_from(all@, start as int),
{
    match closing_bracket(all, start) {
        Some(end) => {
            let slice: String = text::string(all, start, end + 1);
            proof {
                assert(is_bracketed(all@, start as int, slice@));
                let one = choose|one: Seq<char>| is_bracketed(all@, start as int, one);
                let other = choose|end: int| #[trigger]
                    closes(all@, start as int, end) && one == all@.subrange(start as int, end + 1);
                one_closing(all@, start as int, end as int, other);
            }
            json::strings(slice.as_str())
        },
        None => {
            assert(!exists|slice: Seq<char>| is_bracketed(all@, start as int, slice));
            None
        },
    }
}

/// The paths of a list as the wiki spells them.
pub open spec fn relatives(list: Seq<Seq<char>>, wiki: Seq<char>) -> Seq<Seq<char>> {
    list.map_values(|path: Seq<char>| relative_path(path, wiki))
}

pub fn all_relative(list: &Vec<String>, wiki: &str) -> (spelt: Vec<String>)
    ensures
        text::texts(spelt@) == relatives(text::texts(list@), wiki@),
{
    let mut spelt: Vec<String> = Vec::new();
    for i in 0..list.len()
        invariant
            spelt.len() == i,
            forall|k: int|
                0 <= k < i ==> (#[trigger] spelt@[k])@ == relative_path(list@[k]@, wiki@),
    {
        spelt.push(relative(list[i].as_str(), wiki));
    }
    assert(text::texts(spelt@) =~= relatives(text::texts(list@), wiki@));
    spelt
}

/// Whether a bracket opens a JSON list of texts.
pub open spec fn opens_list(s: Seq<char>, at: int) -> bool {
    0 <= at < s.len() && s[at] == '[' && list_from(s, at) is Some
}

/// The bracket that closes the list from a bracket.
pub open spec fn closing(s: Seq<char>, start: int) -> int {
    choose|end: int| closes(s, start, end)
}

/// The last JSON list of texts that starts at `from` or behind it, where lists are read one after
/// the other: what stands inside a list is part of it, so a bracket in one of its texts opens none.
pub open spec fn last_list(s: Seq<char>, from: int) -> Option<Seq<Seq<char>>>
    decreases s.len() - from,
{
    if from < 0 || from >= s.len() {
        None
    } else if opens_list(s, from) && from < closing(s, from) {
        match last_list(s, closing(s, from) + 1) {
            Some(list) => Some(list),
            None => list_from(s, from),
        }
    } else {
        last_list(s, from + 1)
    }
}

proof fn a_list_is_closed(s: Seq<char>, at: int)
    requires
        opens_list(s, at),
    ensures
        closes(s, at, closing(s, at)),
{
    let slice = choose|slice: Seq<char>| is_bracketed(s, at, slice);
    assert(is_bracketed(s, at, slice));
}

/// There is no list just where no bracket opens one.
proof fn a_list_is_found(s: Seq<char>, from: int)
    requires
        0 <= from,
    ensures
        last_list(s, from) is None == forall|at: int| from <= at ==> !#[trigger] opens_list(s, at),
    decreases s.len() - from,
{
    if from < s.len() {
        if opens_list(s, from) {
            a_list_is_closed(s, from);
        } else {
            a_list_is_found(s, from + 1);
            if last_list(s, from) is None {
                assert forall|at: int| from <= at implies !#[trigger] opens_list(s, at) by {
                    if at > from {
                        assert(!opens_list(s, at));
                    }
                }
            }
        }
    }
}

/// An answer that is one list, whatever brackets its texts hold, relies on that list; so does one
/// that opens no list before it or behind it.
pub proof fn a_bracket_in_a_path_opens_no_list(s: Seq<char>, start: int, end: int)
    requires
        opens_list(s, start),
        closes(s, start, end),
        forall|at: int| 0 <= at < start ==> !#[trigger] opens_list(s, at),
        forall|at: int| end < at ==> !#[trigger] opens_list(s, at),
    ensures
        last_list(s, 0) == list_from(s, start),
{
    nothing_before(s, 0, start);
    a_list_is_closed(s, start);
    one_closing(s, start, end, closing(s, start));
    a_list_is_found(s, end + 1);
}

proof fn nothing_before(s: Seq<char>, from: int, to: int)
    requires
        0 <= from <= to < s.len(),
        forall|at: int| from <= at < to ==> !#[trigger] opens_list(s, at),
    ensures
        last_list(s, from) == last_list(s, to),
    decreases to - from,
{
    if from < to {
        assert(!opens_list(s, from));
        nothing_before(s, from + 1, to);
    }
}

/// The relative paths an agent named as the ones it relied on: the last JSON list of texts in its
/// answer, fenced or not, and none when it wrote no list at all.
///
/// An answer with no list is not an answer with an empty one. An agent that was asked for a list
/// and did not write one has not said it relied on nothing: it has failed to answer the question
/// that is being scored.
///
/// The last list wins, a bracket in a path is part of its list, absolute paths under the wiki come
/// back relative to it, and anything that is not a path under the wiki is kept as written.
pub fn files_relied_on(answer: &str, wiki: &str) -> (files: Option<Vec<String>>)
    ensures
        json::texts_of(files) == match last_list(answer@, 0) {
            Some(list) => Some(relatives(list, wiki@)),
            None => None,
        },
        files is None == forall|at: int| 0 <= at ==> !#[trigger] opens_list(answer@, at),
{
    let all: Vec<char> = text::chars(answer);
    let ghost s = all@;
    let mut found: Option<Vec<String>> = None;
    let mut from: usize = 0;
    while from < all.len()
        invariant
            from <= all.len(),
            s == all@,
            last_list(s, 0) == match last_list(s, from as int) {
                Some(list) => Some(list),
                None => json::texts_of(found),
            },
        decreases all.len() - from,
    {
        if all[from] == '[' {
            match closing_bracket(&all, from) {
                Some(end) => {
                    match list_at(&all, from) {
                        Some(list) => {
                            proof {
                                a_list_is_closed(s, from as int);
                                one_closing(s, from as int, end as int, closing(s, from as int));
                            }
                            found = Some(list);
                            from = end + 1;
                        },
                        None => {
                            from += 1;
                        },
                    }
                },
                None => {
                    proof {
                        if opens_list(s, from as int) {
                            a_list_is_closed(s, from as int);
                        }
                    }
                    from += 1;
                },
            }
        } else {
            from += 1;
        }
    }
    proof {
        a_list_is_found(s, 0);
    }
    match found {
        Some(list) => Some(all_relative(&list, wiki)),
        None => None,
    }
}

/// A tool an agent used, or another block of a message.
pub struct Block {
    pub kind: Option<String>,
    pub name: Option<String>,
    /// The file that the tool was handed.
    pub path: Option<String>,
}

/// One line of a stream: what of it is read here.
pub struct StreamRow {
    pub kind: Option<String>,
    pub subtype: Option<String>,
    pub session_id: Option<String>,
    /// Whether no tool call is over it: a subagent's messages are the subagent's.
    pub own: bool,
    pub model: Option<String>,
    pub blocks: Vec<Block>,
    pub task_id: Option<String>,
    pub subagent_type: Option<String>,
    pub status: Option<String>,
    pub duration_ms: Option<u64>,
    pub tool_uses: Option<u64>,
    pub result: Option<String>,
    pub is_error: Option<bool>,
    /// The bits of the double that the run cost, in dollars.
    pub cost: Option<u64>,
    pub usage: Usage,
    /// What each model was billed for.
    pub models: Vec<Usage>,
}

/// One spawned subagent, as the stream's task events describe it.
pub struct Task {
    /// The id its transcript is named after.
    pub agent_id: String,
    /// Which agent was asked for: `Explore` is the built-in one.
    pub kind: String,
    pub status: Option<String>,
    /// How long the subagent ran, as it was timed.
    pub duration_ms: Option<u64>,
    /// How many tools it used, as they were counted.
    pub tool_uses: Option<u64>,
}

/// What a task says.
pub struct TaskView {
    pub agent_id: Seq<char>,
    pub kind: Seq<char>,
    pub status: Option<Seq<char>>,
    pub duration_ms: Option<u64>,
    pub tool_uses: Option<u64>,
}

impl View for Task {
    type V = TaskView;

    open spec fn view(&self) -> TaskView {
        TaskView {
            agent_id: self.agent_id@,
            kind: self.kind@,
            status: json::text_of(self.status),
            duration_ms: self.duration_ms,
            tool_uses: self.tool_uses,
        }
    }
}

/// What one agent run reported.
pub struct StreamSummary {
    /// The session the run wrote its transcripts under.
    pub session_id: Option<String>,
    /// The last result's text: an agent that hands off to a backgrounded subagent answers twice,
    /// and only the last answer has the findings.
    pub answer: String,
    pub is_error: bool,
    /// What the whole run cost, parent and subagent, in dollars: the bits of a double.
    pub cost_usd: u64,
    /// Every token the run was billed for, over every model and agent.
    pub session_total: Usage,
    /// The parent agent's own tokens: the result rows are its turns.
    pub parent_total: Usage,
    /// One per subagent the parent spawned, in the order they started.
    pub tasks: Vec<Task>,
    /// The model that answered, as the run reported it.
    pub model: Option<String>,
    /// The files the parent opened itself, relative to the wiki, in the order of their paths.
    pub parent_files_read: Vec<String>,
    /// Tools the parent used itself, the subagent's not counted.
    pub parent_tool_uses: usize,
    /// The same, by tool name. A parent that is meant to hand the work to a subagent and goes
    /// looking itself says so here.
    pub parent_tools: Table<usize>,
}

/// Whether a text is there and says just that.
pub open spec fn said(value: Option<String>, word: Seq<char>) -> bool {
    json::text_of(value) == Some(word)
}

pub fn says(value: &Option<String>, word: &str) -> (yes: bool)
    ensures
        yes == said(*value, word@),
{
    match value {
        Some(value) => text::same(value.as_str(), word),
        None => false,
    }
}

/// The same text once more, where there is one.
pub fn again(value: &Option<String>) -> (same: Option<String>)
    ensures
        same == *value,
{
    match value {
        Some(value) => Some(value.clone()),
        None => None,
    }
}

/// A message of the parent's own.
pub open spec fn is_parents(row: StreamRow) -> bool {
    said(row.kind, "assistant"@) && row.own
}

pub open spec fn is_result(row: StreamRow) -> bool {
    said(row.kind, "result"@)
}

/// The blocks of the parent's own messages.
pub open spec fn parent_blocks(rows: Seq<StreamRow>) -> Seq<Block>
    decreases rows.len(),
{
    if rows.len() == 0 {
        Seq::empty()
    } else if is_parents(rows.last()) {
        parent_blocks(rows.drop_last()) + rows.last().blocks@
    } else {
        parent_blocks(rows.drop_last())
    }
}

pub open spec fn is_tool_use(block: Block) -> bool {
    said(block.kind, "tool_use"@)
}

/// Whether a block opens a file, in the wiki's spelling.
pub open spec fn opens(block: Block, wiki: Seq<char>, file: Seq<char>) -> bool {
    &&& is_tool_use(block)
    &&& said(block.name, "Read"@)
    &&& block.path matches Some(path) && relative_path(path@, wiki) == file
}

/// Whether some block opens a file, whatever the spelling of the path.
pub open spec fn opened(blocks: Seq<Block>, wiki: Seq<char>, file: Seq<char>) -> bool {
    exists|i: int|
        0 <= i < blocks.len() && ((#[trigger] blocks[i]).path matches Some(path) && opens(
            blocks[i],
            wiki,
            relative_path(path@, wiki),
        ) && paths::same_path(relative_path(path@, wiki), file))
}

/// Where the first task of an id is.
pub open spec fn task_at(tasks: Seq<TaskView>, id: Seq<char>) -> int
    decreases tasks.len(),
{
    if tasks.len() == 0 {
        0
    } else if task_at(tasks.drop_last(), id) < tasks.len() - 1 {
        task_at(tasks.drop_last(), id)
    } else if tasks.last().agent_id == id {
        tasks.len() - 1
    } else {
        tasks.len() as int
    }
}

/// A text, or none of it.
pub open spec fn or_empty(value: Option<String>) -> Seq<char> {
    match value {
        Some(value) => value@,
        None => Seq::empty(),
    }
}

/// The tasks once a row of the stream has been read.
pub open spec fn tasks_with(tasks: Seq<TaskView>, row: StreamRow) -> Seq<TaskView> {
    if said(row.kind, "system"@) && said(row.subtype, "task_started"@) {
        tasks.push(
            TaskView {
                agent_id: or_empty(row.task_id),
                kind: or_empty(row.subagent_type),
                status: None,
                duration_ms: None,
                tool_uses: None,
            },
        )
    } else if said(row.kind, "system"@) && said(row.subtype, "task_notification"@) {
        let at = task_at(tasks, or_empty(row.task_id));
        if at < tasks.len() {
            tasks.update(
                at,
                TaskView {
                    status: json::text_of(row.status),
                    duration_ms: row.duration_ms,
                    tool_uses: row.tool_uses,
                    ..tasks[at]
                },
            )
        } else {
            tasks
        }
    } else {
        tasks
    }
}

/// The subagents that a stream's task events describe, in the order they started.
pub open spec fn tasks_of(rows: Seq<StreamRow>) -> Seq<TaskView>
    decreases rows.len(),
{
    if rows.len() == 0 {
        Seq::empty()
    } else {
        tasks_with(tasks_of(rows.drop_last()), rows.last())
    }
}

/// The tasks of a list.
pub open spec fn task_views(tasks: Seq<Task>) -> Seq<TaskView> {
    tasks.map_values(|task: Task| task@)
}

/// One of four token counts.
#[derive(PartialEq, Eq, Structural, Clone, Copy)]
pub enum Part {
    Input,
    Output,
    CacheRead,
    CacheCreate,
}

pub open spec fn part(usage: Usage, which: Part) -> int {
    match which {
        Part::Input => usage.input as int,
        Part::Output => usage.output as int,
        Part::CacheRead => usage.cache_read as int,
        Part::CacheCreate => usage.cache_create as int,
    }
}

/// What a list of usages comes to.
pub open spec fn billed(list: Seq<Usage>, which: Part) -> int {
    counting::total(list, |usage: Usage| part(usage, which))
}

pub open spec fn billable(list: Seq<Usage>) -> bool {
    forall|which: Part| #[trigger] billed(list, which) <= u64::MAX
}

pub open spec fn is_billed(list: Seq<Usage>, usage: Usage) -> bool {
    forall|which: Part| #[trigger] part(usage, which) == billed(list, which)
}

proof fn billed_is_bounded(list: Seq<Usage>, which: Part)
    ensures
        0 <= billed(list, which) <= list.len() * u64::MAX,
    decreases list.len(),
{
    if list.len() > 0 {
        billed_is_bounded(list.drop_last(), which);
        assert(list.len() * u64::MAX == (list.len() - 1) * u64::MAX + u64::MAX)
            by (nonlinear_arith);
    }
}

fn part_of(usage: &Usage, which: Part) -> (n: u64)
    ensures
        n == part(*usage, which),
{
    match which {
        Part::Input => usage.input,
        Part::Output => usage.output,
        Part::CacheRead => usage.cache_read,
        Part::CacheCreate => usage.cache_create,
    }
}

/// What one count of a list of usages comes to.
fn bill(list: &Vec<Usage>, which: Part) -> (n: u128)
    ensures
        n == billed(list@, which),
{
    let mut n: u128 = 0;
    for i in 0..list.len()
        invariant
            n == billed(list@.take(i as int), which),
            n <= i * u64::MAX,
    {
        proof {
            counting::one_more(list@, i as int);
            assert((i + 1) * u64::MAX == i * u64::MAX + u64::MAX) by (nonlinear_arith);
            assert(i * u64::MAX <= u64::MAX * u64::MAX) by (nonlinear_arith)
                requires
                    i <= u64::MAX,
            ;
        }
        n += part_of(&list[i], which) as u128;
    }
    proof {
        counting::take_all(list@);
    }
    n
}

/// The sum of a list of usages, where each count fits.
pub fn bill_all(list: &Vec<Usage>) -> (total: Option<Usage>)
    ensures
        match total {
            Some(total) => billable(list@) && is_billed(list@, total),
            None => !billable(list@),
        },
{
    let input: u128 = bill(list, Part::Input);
    let output: u128 = bill(list, Part::Output);
    let cache_read: u128 = bill(list, Part::CacheRead);
    let cache_create: u128 = bill(list, Part::CacheCreate);
    let most: u128 = u64::MAX as u128;
    if input <= most && output <= most && cache_read <= most && cache_create <= most {
        let total = Usage {
            input: input as u64,
            output: output as u64,
            cache_read: cache_read as u64,
            cache_create: cache_create as u64,
        };
        assert forall|which: Part| #[trigger] billed(list@, which) <= u64::MAX by {
            match which {
                Part::Input => {},
                Part::Output => {},
                Part::CacheRead => {},
                Part::CacheCreate => {},
            }
        }
        assert forall|which: Part| #[trigger] part(total, which) == billed(list@, which) by {
            match which {
                Part::Input => {},
                Part::Output => {},
                Part::CacheRead => {},
                Part::CacheCreate => {},
            }
        }
        Some(total)
    } else {
        proof {
            assert(billed(list@, Part::Input) > u64::MAX || billed(list@, Part::Output) > u64::MAX
                || billed(list@, Part::CacheRead) > u64::MAX || billed(list@, Part::CacheCreate)
                > u64::MAX);
        }
        None
    }
}

/// The last result row.
pub open spec fn last_result(rows: Seq<StreamRow>) -> Option<StreamRow>
    decreases rows.len(),
{
    if rows.len() == 0 {
        None
    } else if is_result(rows.last()) {
        Some(rows.last())
    } else {
        last_result(rows.drop_last())
    }
}

/// What each result row bills the parent for.
pub open spec fn turns(rows: Seq<StreamRow>) -> Seq<Usage>
    decreases rows.len(),
{
    if rows.len() == 0 {
        Seq::empty()
    } else if is_result(rows.last()) {
        turns(rows.drop_last()).push(rows.last().usage)
    } else {
        turns(rows.drop_last())
    }
}

/// Whether the totals of a finished run fit in machine words.
pub open spec fn is_countable(rows: Seq<StreamRow>) -> bool {
    &&& billable(turns(rows))
    &&& last_result(rows) matches Some(row) ==> billable(row.models@)
    &&& parent_blocks(rows).len() <= usize::MAX
}

/// What a run reported, over the rows of its stream.
pub open spec fn summarises(rows: Seq<StreamRow>, wiki: Seq<char>, summary: StreamSummary) -> bool {
    let blocks = parent_blocks(rows);
    &&& json::text_of(summary.session_id) == counting::first_some(
        rows,
        |row: StreamRow| json::text_of(row.session_id),
    )
    &&& json::text_of(summary.model) == counting::first_some(
        rows,
        |row: StreamRow|
            if is_parents(row) {
                json::text_of(row.model)
            } else {
                None
            },
    )
    &&& last_result(rows) matches Some(row) && {
        &&& summary.answer@ == or_empty(row.result)
        &&& summary.is_error == (row.is_error == Some(true))
        &&& summary.cost_usd == match row.cost {
            Some(bits) => bits,
            None => 0,
        }
        &&& is_billed(row.models@, summary.session_total)
    }
    &&& is_billed(turns(rows), summary.parent_total)
    &&& task_views(summary.tasks@) == tasks_of(rows)
    &&& summary.parent_tool_uses == counting::how_many(blocks, |block: Block| is_tool_use(block))
    &&& forall|name: Seq<char>| #[trigger]
        summary.parent_tools.names().contains(name) == (tool_count(blocks, name) > 0)
    &&& forall|name: Seq<char>|
        tool_count(blocks, name) > 0 ==> #[trigger] summary.parent_tools.at(name) == tool_count(
            blocks,
            name,
        )
    &&& paths::ascending(text::texts(summary.parent_files_read@))
    &&& forall|file: Seq<char>| #[trigger]
        paths::holds(text::texts(summary.parent_files_read@), file) == opened(blocks, wiki, file)
}

/// How often a tool was used.
pub open spec fn tool_count(blocks: Seq<Block>, name: Seq<char>) -> nat {
    counting::how_many(blocks, |block: Block| is_tool_use(block) && said(block.name, name))
}

/// What the blocks of an agent's messages say of its tools.
struct Tools {
    uses: usize,
    by_name: Table<usize>,
    files: Vec<String>,
}

impl Tools {
    spec fn count(self, blocks: Seq<Block>, wiki: Seq<char>) -> bool {
        &&& self.uses == counting::how_many(blocks, |block: Block| is_tool_use(block))
        &&& forall|name: Seq<char>| #[trigger]
            self.by_name.names().contains(name) == (tool_count(blocks, name) > 0)
        &&& forall|name: Seq<char>|
            tool_count(blocks, name) > 0 ==> #[trigger] self.by_name.at(name) == tool_count(
                blocks,
                name,
            )
        &&& paths::ascending(text::texts(self.files@))
        &&& forall|file: Seq<char>| #[trigger]
            paths::holds(text::texts(self.files@), file) == opened(blocks, wiki, file)
    }

    fn new(wiki: &str) -> (tools: Tools)
        ensures
            tools.count(Seq::empty(), wiki@),
    {
        let tools = Tools { uses: 0, by_name: Table::new(), files: Vec::new() };
        proof {
            assert(text::texts(tools.files@) =~= Seq::<Seq<char>>::empty());
        }
        tools
    }

    /// Counts one block more.
    fn see(&mut self, block: &Block, wiki: &str, Ghost(blocks): Ghost<Seq<Block>>)
        requires
            old(self).count(blocks, wiki@),
            blocks.len() < usize::MAX,
        ensures
            final(self).count(blocks.push(*block), wiki@),
    {
        let ghost was = *self;
        let ghost now = blocks.push(*block);
        proof {
            assert(now.drop_last() =~= blocks);
            counting::how_many_is_bounded(blocks, |block: Block| is_tool_use(block));
            opened_by_one_more(blocks, *block, wiki@);
            assert forall|name: Seq<char>| #[trigger] tool_count(now, name) == tool_count(
                blocks,
                name,
            ) + if is_tool_use(*block) && said(block.name, name) {
                1nat
            } else {
                0nat
            } by {}
        }
        if says(&block.kind, "tool_use") {
            self.uses = self.uses + 1;
            match &block.name {
                Some(name) => {
                    let had: usize = match self.by_name.get(name.as_str()) {
                        Some(n) => *n,
                        None => 0,
                    };
                    proof {
                        counting::how_many_is_bounded(
                            blocks,
                            |block: Block| is_tool_use(block) && said(block.name, name@),
                        );
                        assert(was.by_name.names().contains(name@) == (tool_count(blocks, name@)
                            > 0));
                        assert(had == tool_count(blocks, name@));
                    }
                    self.by_name.set(name.clone(), had + 1);
                },
                None => {},
            }
            proof {
                assert forall|name: Seq<char>| #[trigger]
                    self.by_name.names().contains(name) == (tool_count(now, name) > 0) by {
                    assert(was.by_name.names().contains(name) == (tool_count(blocks, name) > 0));
                }
                assert forall|name: Seq<char>|
                    tool_count(now, name) > 0 implies #[trigger] self.by_name.at(name)
                    == tool_count(now, name) by {
                    assert(was.by_name.names().contains(name) == (tool_count(blocks, name) > 0));
                    if !said(block.name, name) {
                        assert(was.by_name.at(name) == tool_count(blocks, name));
                    }
                }
            }
            if says(&block.name, "Read") {
                match &block.path {
                    Some(path) => {
                        let file: String = relative(path.as_str(), wiki);
                        paths::add(&mut self.files, file);
                    },
                    None => {},
                }
            }
        }
    }
}

proof fn opened_by_one_more(blocks: Seq<Block>, block: Block, wiki: Seq<char>)
    ensures
        forall|file: Seq<char>| #[trigger]
            opened(blocks.push(block), wiki, file) == (opened(blocks, wiki, file) || (
            block.path matches Some(path) && opens(block, wiki, relative_path(path@, wiki))
                && paths::same_path(relative_path(path@, wiki), file))),
{
    let now = blocks.push(block);
    assert forall|file: Seq<char>| #[trigger]
        opened(now, wiki, file) == (opened(blocks, wiki, file) || (
        block.path matches Some(path) && opens(block, wiki, relative_path(path@, wiki))
            && paths::same_path(relative_path(path@, wiki), file))) by {
        if opened(blocks, wiki, file) {
            let i = choose|i: int|
                0 <= i < blocks.len() && ((#[trigger] blocks[i]).path matches Some(path) && opens(
                    blocks[i],
                    wiki,
                    relative_path(path@, wiki),
                ) && paths::same_path(relative_path(path@, wiki), file));
            assert(now[i] == blocks[i]);
        }
        if block.path matches Some(path) && opens(block, wiki, relative_path(path@, wiki))
            && paths::same_path(relative_path(path@, wiki), file) {
            assert(now[blocks.len() as int] == block);
        }
        if opened(now, wiki, file) {
            let i = choose|i: int|
                0 <= i < now.len() && ((#[trigger] now[i]).path matches Some(path) && opens(
                    now[i],
                    wiki,
                    relative_path(path@, wiki),
                ) && paths::same_path(relative_path(path@, wiki), file));
            if i < blocks.len() {
                assert(blocks[i] == now[i]);
            }
        }
    }
}

/// The task of an id.
fn find_task(tasks: &Vec<Task>, id: &str) -> (at: usize)
    ensures
        at == task_at(task_views(tasks@), id@),
        at <= tasks.len(),
{
    let ghost views = task_views(tasks@);
    for at in 0..tasks.len()
        invariant
            views == task_views(tasks@),
            task_at(views.take(at as int), id@) == at,
    {
        proof {
            counting::one_more(views, at as int);
        }
        if text::same(tasks[at].agent_id.as_str(), id) {
            proof {
                task_stays(views, id@, at + 1);
            }
            return at;
        }
    }
    proof {
        counting::take_all(views);
    }
    tasks.len()
}

proof fn task_stays(tasks: Seq<TaskView>, id: Seq<char>, n: int)
    requires
        0 <= n <= tasks.len(),
        task_at(tasks.take(n), id) < n,
    ensures
        task_at(tasks, id) == task_at(tasks.take(n), id),
    decreases tasks.len(),
{
    if n == tasks.len() {
        counting::take_all(tasks);
    } else {
        assert(tasks.drop_last().take(n) =~= tasks.take(n));
        task_stays(tasks.drop_last(), id, n);
    }
}

fn empty_if_none(value: &Option<String>) -> (text: String)
    ensures
        text@ == or_empty(*value),
{
    match value {
        Some(value) => value.clone(),
        None => String::new(),
    }
}

/// Reads a row's task event.
fn note_task(tasks: &mut Vec<Task>, row: &StreamRow)
    ensures
        task_views(final(tasks)@) == tasks_with(task_views(old(tasks)@), *row),
{
    let ghost was = task_views(tasks@);
    if says(&row.kind, "system") && says(&row.subtype, "task_started") {
        let task = Task {
            agent_id: empty_if_none(&row.task_id),
            kind: empty_if_none(&row.subagent_type),
            status: None,
            duration_ms: None,
            tool_uses: None,
        };
        let ghost added = task@;
        tasks.push(task);
        assert(task_views(tasks@) =~= was.push(added));
    } else if says(&row.kind, "system") && says(&row.subtype, "task_notification") {
        let id: String = empty_if_none(&row.task_id);
        let at: usize = find_task(tasks, id.as_str());
        if at < tasks.len() {
            let task = Task {
                agent_id: tasks[at].agent_id.clone(),
                kind: tasks[at].kind.clone(),
                status: again(&row.status),
                duration_ms: row.duration_ms,
                tool_uses: row.tool_uses,
            };
            let ghost changed = task@;
            assert(was[at as int] == tasks@[at as int]@);
            tasks.set(at, task);
            assert(task_views(tasks@) =~= was.update(at as int, changed));
        }
    }
}

proof fn blocks_of_a_part(rows: Seq<StreamRow>, n: int)
    requires
        0 <= n <= rows.len(),
    ensures
        parent_blocks(rows.take(n)).len() <= parent_blocks(rows).len(),
    decreases rows.len(),
{
    if n == rows.len() {
        counting::take_all(rows);
    } else {
        assert(rows.drop_last().take(n) =~= rows.take(n));
        blocks_of_a_part(rows.drop_last(), n);
    }
}

/// What each result row bills the parent for, in order.
fn turns_of(rows: &Vec<StreamRow>) -> (list: Vec<Usage>)
    ensures
        list@ == turns(rows@),
{
    let mut list: Vec<Usage> = Vec::new();
    for i in 0..rows.len()
        invariant
            list@ == turns(rows@.take(i as int)),
    {
        proof {
            counting::one_more(rows@, i as int);
        }
        if says(&rows[i].kind, "result") {
            list.push(rows[i].usage);
        }
    }
    proof {
        counting::take_all(rows@);
    }
    list
}

/// Where the last result row is.
fn last_result_at(rows: &Vec<StreamRow>) -> (at: Option<usize>)
    ensures
        match at {
            Some(at) => at < rows.len() && last_result(rows@) == Some(rows@[at as int]),
            None => last_result(rows@) is None,
        },
{
    let mut at: usize = rows.len();
    proof {
        counting::take_all(rows@);
    }
    while at > 0
        invariant
            at <= rows.len(),
            last_result(rows@) == last_result(rows@.take(at as int)),
        decreases at,
    {
        at -= 1;
        proof {
            counting::one_more(rows@, at as int);
        }
        if says(&rows[at].kind, "result") {
            return Some(at);
        }
    }
    None
}

/// The tools of the parent's own messages.
fn parent_tools(rows: &Vec<StreamRow>, wiki: &str) -> (tools: Tools)
    requires
        parent_blocks(rows@).len() <= usize::MAX,
    ensures
        tools.count(parent_blocks(rows@), wiki@),
{
    let mut tools: Tools = Tools::new(wiki);
    for i in 0..rows.len()
        invariant
            parent_blocks(rows@).len() <= usize::MAX,
            tools.count(parent_blocks(rows@.take(i as int)), wiki@),
    {
        proof {
            counting::one_more(rows@, i as int);
            blocks_of_a_part(rows@, i + 1);
        }
        if says(&rows[i].kind, "assistant") && rows[i].own {
            let width: usize = rows[i].blocks.len();
            let ghost front = parent_blocks(rows@.take(i as int));
            let ghost list = rows@[i as int].blocks@;
            assert(front + list.take(0) =~= front);
            for k in 0..width
                invariant
                    i < rows.len(),
                    width == rows@[i as int].blocks.len(),
                    list == rows@[i as int].blocks@,
                    front.len() + width <= usize::MAX,
                    tools.count(front + list.take(k as int), wiki@),
            {
                tools.see(&rows[i].blocks[k], wiki, Ghost(front + list.take(k as int)));
                assert((front + list.take(k as int)).push(list[k as int]) =~= front + list.take(
                    k + 1,
                ));
            }
            proof {
                counting::take_all(list);
            }
        }
    }
    proof {
        counting::take_all(rows@);
    }
    tools
}

/// Whether the parent's blocks can be counted.
fn can_count_blocks(rows: &Vec<StreamRow>) -> (yes: bool)
    ensures
        yes == (parent_blocks(rows@).len() <= usize::MAX),
{
    let mut n: usize = 0;
    for i in 0..rows.len()
        invariant
            n == parent_blocks(rows@.take(i as int)).len(),
    {
        proof {
            counting::one_more(rows@, i as int);
            blocks_of_a_part(rows@, i + 1);
        }
        if says(&rows[i].kind, "assistant") && rows[i].own {
            if rows[i].blocks.len() > usize::MAX - n {
                return false;
            }
            n += rows[i].blocks.len();
        }
    }
    proof {
        counting::take_all(rows@);
    }
    true
}

/// What the rows of a stream say once they end: nothing, where no row is a result.
pub fn summarise_rows(rows: &Vec<StreamRow>, wiki: &str) -> (found: Option<StreamSummary>)
    requires
        is_countable(rows@),
    ensures
        found is Some == last_result(rows@) is Some,
        found matches Some(summary) ==> summarises(rows@, wiki@, summary),
{
    let at: usize = match last_result_at(rows) {
        Some(at) => at,
        None => {
            return None;
        },
    };
    let mut session_id: Option<String> = None;
    let mut model: Option<String> = None;
    let mut tasks: Vec<Task> = Vec::new();
    assert(task_views(tasks@) =~= Seq::<TaskView>::empty());
    for i in 0..rows.len()
        invariant
            json::text_of(session_id) == counting::first_some(
                rows@.take(i as int),
                |row: StreamRow| json::text_of(row.session_id),
            ),
            json::text_of(model) == counting::first_some(
                rows@.take(i as int),
                |row: StreamRow|
                    if is_parents(row) {
                        json::text_of(row.model)
                    } else {
                        None
                    },
            ),
            task_views(tasks@) == tasks_of(rows@.take(i as int)),
    {
        proof {
            counting::one_more(rows@, i as int);
        }
        if session_id.is_none() {
            session_id = again(&rows[i].session_id);
        }
        if model.is_none() && says(&rows[i].kind, "assistant") && rows[i].own {
            model = again(&rows[i].model);
        }
        note_task(&mut tasks, &rows[i]);
    }
    proof {
        counting::take_all(rows@);
    }
    let tools: Tools = parent_tools(rows, wiki);
    let list: Vec<Usage> = turns_of(rows);
    let parent_total: Usage = match bill_all(&list) {
        Some(total) => total,
        None => Usage::none(),
    };
    let session_total: Usage = match bill_all(&rows[at].models) {
        Some(total) => total,
        None => Usage::none(),
    };
    let is_error: bool = match rows[at].is_error {
        Some(flag) => flag,
        None => false,
    };
    let cost_usd: u64 = match rows[at].cost {
        Some(bits) => bits,
        None => 0,
    };
    Some(
        StreamSummary {
            session_id,
            answer: empty_if_none(&rows[at].result),
            is_error,
            cost_usd,
            session_total,
            parent_total,
            tasks,
            model,
            parent_files_read: tools.files,
            parent_tool_uses: tools.uses,
            parent_tools: tools.by_name,
        },
    )
}

/// Whether a run's totals fit in machine words.
pub fn can_count(rows: &Vec<StreamRow>) -> (yes: bool)
    ensures
        yes == is_countable(rows@),
{
    let list: Vec<Usage> = turns_of(rows);
    if bill_all(&list).is_none() || !can_count_blocks(rows) {
        return false;
    }
    match last_result_at(rows) {
        Some(at) => bill_all(&rows[at].models).is_some(),
        None => true,
    }
}

/// A count, or zero.
pub open spec fn or_zero(count: Option<u64>) -> u64 {
    match count {
        Some(n) => n,
        None => 0,
    }
}

fn zero_if_none(count: Option<u64>) -> (n: u64)
    ensures
        n == or_zero(count),
{
    match count {
        Some(n) => n,
        None => 0,
    }
}

/// One message's usage, as the API spells its fields, under a place in a JSON text.
pub open spec fn message_usage(doc: Seq<char>, place: Seq<char>) -> Usage {
    Usage {
        input: or_zero(json::as_count(json::json_at(doc, place + "/input_tokens"@))),
        output: or_zero(json::as_count(json::json_at(doc, place + "/output_tokens"@))),
        cache_read: or_zero(
            json::as_count(json::json_at(doc, place + "/cache_read_input_tokens"@)),
        ),
        cache_create: or_zero(
            json::as_count(json::json_at(doc, place + "/cache_creation_input_tokens"@)),
        ),
    }
}

fn count_under(doc: &str, place: &str, name: &str) -> (n: u64)
    ensures
        n == or_zero(json::as_count(json::json_at(doc@, place@ + name@))),
{
    let mut pointer: String = place.to_owned();
    pointer.append(name);
    zero_if_none(json::count_at(doc, pointer.as_str()))
}

pub fn usage(doc: &str, place: &str) -> (usage: Usage)
    ensures
        usage == message_usage(doc@, place@),
{
    Usage {
        input: count_under(doc, place, "/input_tokens"),
        output: count_under(doc, place, "/output_tokens"),
        cache_read: count_under(doc, place, "/cache_read_input_tokens"),
        cache_create: count_under(doc, place, "/cache_creation_input_tokens"),
    }
}

/// One model's totals, as a run's result spells them.
pub open spec fn model_totals(doc: Seq<char>) -> Usage {
    Usage {
        input: or_zero(json::as_count(json::json_at(doc, "/inputTokens"@))),
        output: or_zero(json::as_count(json::json_at(doc, "/outputTokens"@))),
        cache_read: or_zero(json::as_count(json::json_at(doc, "/cacheReadInputTokens"@))),
        cache_create: or_zero(json::as_count(json::json_at(doc, "/cacheCreationInputTokens"@))),
    }
}

/// The totals of each model that a run used: one entry per model, and the whole session over
/// them, the parent's turns and every subagent's.
pub open spec fn models_read(doc: Seq<char>, models: Seq<Usage>) -> bool {
    match json::as_values(json::json_at(doc, "/modelUsage"@)) {
        Some(values) => models.len() == values.len() && forall|i: int|
            0 <= i < values.len() ==> #[trigger] models[i] == model_totals(values[i]),
        None => models.len() == 0,
    }
}

pub fn model_usage(doc: &str) -> (models: Vec<Usage>)
    ensures
        models_read(doc@, models@),
{
    let mut models: Vec<Usage> = Vec::new();
    match json::values_at(doc, "/modelUsage") {
        Some(values) => {
            for i in 0..values.len()
                invariant
                    models.len() == i,
                    forall|k: int|
                        0 <= k < i ==> #[trigger] models@[k] == model_totals(values@[k]@),
            {
                let one: &str = values[i].as_str();
                models.push(
                    Usage {
                        input: zero_if_none(json::count_at(one, "/inputTokens")),
                        output: zero_if_none(json::count_at(one, "/outputTokens")),
                        cache_read: zero_if_none(json::count_at(one, "/cacheReadInputTokens")),
                        cache_create: zero_if_none(
                            json::count_at(one, "/cacheCreationInputTokens"),
                        ),
                    },
                );
            }
            proof {
                assert forall|i: int| 0 <= i < values.len() implies #[trigger] models@[i]
                    == model_totals(text::texts(values@)[i]) by {}
            }
        },
        None => {},
    }
    models
}

/// What of a message block is read here.
pub open spec fn block_read(doc: Seq<char>, block: Block) -> bool {
    &&& json::text_of(block.kind) == json::as_text(json::json_at(doc, "/type"@))
    &&& json::text_of(block.name) == json::as_text(json::json_at(doc, "/name"@))
    &&& json::text_of(block.path) == json::as_text(json::json_at(doc, "/input/file_path"@))
}

/// The blocks of a message.
pub open spec fn blocks_read(doc: Seq<char>, blocks: Seq<Block>) -> bool {
    match json::as_list(json::json_at(doc, "/message/content"@)) {
        Some(items) => blocks.len() == items.len() && forall|i: int|
            0 <= i < items.len() ==> block_read(items[i], #[trigger] blocks[i]),
        None => blocks.len() == 0,
    }
}

fn read_blocks(doc: &str) -> (blocks: Vec<Block>)
    ensures
        blocks_read(doc@, blocks@),
{
    let mut blocks: Vec<Block> = Vec::new();
    match json::list_at(doc, "/message/content") {
        Some(items) => {
            for i in 0..items.len()
                invariant
                    blocks.len() == i,
                    forall|k: int| 0 <= k < i ==> block_read(items@[k]@, #[trigger] blocks@[k]),
            {
                let one: &str = items[i].as_str();
                blocks.push(
                    Block {
                        kind: json::text_at(one, "/type"),
                        name: json::text_at(one, "/name"),
                        path: json::text_at(one, "/input/file_path"),
                    },
                );
            }
            proof {
                assert forall|i: int| 0 <= i < items.len() implies block_read(
                    text::texts(items@)[i],
                    #[trigger] blocks@[i],
                ) by {}
            }
        },
        None => {},
    }
    blocks
}

/// What a line of the stream says.
pub open spec fn row_read(doc: Seq<char>, row: StreamRow) -> bool {
    &&& json::text_of(row.kind) == json::as_text(json::json_at(doc, "/type"@))
    &&& json::text_of(row.subtype) == json::as_text(json::json_at(doc, "/subtype"@))
    &&& json::text_of(row.session_id) == json::as_text(json::json_at(doc, "/session_id"@))
    &&& row.own == json::is_nothing(json::json_at(doc, "/parent_tool_use_id"@))
    &&& json::text_of(row.model) == json::as_text(json::json_at(doc, "/message/model"@))
    &&& blocks_read(doc, row.blocks@)
    &&& json::text_of(row.task_id) == json::as_text(json::json_at(doc, "/task_id"@))
    &&& json::text_of(row.subagent_type) == json::as_text(json::json_at(doc, "/subagent_type"@))
    &&& json::text_of(row.status) == json::as_text(json::json_at(doc, "/status"@))
    &&& row.duration_ms == json::as_count(json::json_at(doc, "/usage/duration_ms"@))
    &&& row.tool_uses == json::as_count(json::json_at(doc, "/usage/tool_uses"@))
    &&& json::text_of(row.result) == json::as_text(json::json_at(doc, "/result"@))
    &&& row.is_error == json::as_flag(json::json_at(doc, "/is_error"@))
    &&& row.cost == json::as_double(json::json_at(doc, "/total_cost_usd"@))
    &&& row.usage == message_usage(doc, "/usage"@)
    &&& models_read(doc, row.models@)
}

pub fn read_row(doc: &str) -> (row: StreamRow)
    ensures
        row_read(doc@, row),
{
    StreamRow {
        kind: json::text_at(doc, "/type"),
        subtype: json::text_at(doc, "/subtype"),
        session_id: json::text_at(doc, "/session_id"),
        own: json::nothing_at(doc, "/parent_tool_use_id"),
        model: json::text_at(doc, "/message/model"),
        blocks: read_blocks(doc),
        task_id: json::text_at(doc, "/task_id"),
        subagent_type: json::text_at(doc, "/subagent_type"),
        status: json::text_at(doc, "/status"),
        duration_ms: json::count_at(doc, "/usage/duration_ms"),
        tool_uses: json::count_at(doc, "/usage/tool_uses"),
        result: json::text_at(doc, "/result"),
        is_error: json::flag_at(doc, "/is_error"),
        cost: json::double_at(doc, "/total_cost_usd"),
        usage: usage(doc, "/usage"),
        models: model_usage(doc),
    }
}

/// The lines of a text that are not blank.
pub open spec fn said_lines(s: Seq<char>) -> Seq<Seq<char>> {
    text::lines(s).filter(|line: Seq<char>| !text::blank(line))
}

pub fn spoken_lines(text: &str) -> (list: Vec<String>)
    ensures
        text::texts(list@) == said_lines(text@),
{
    let all: Vec<String> = text::lines_of(text);
    let mut list: Vec<String> = Vec::new();
    let ghost lines = text::texts(all@);
    let ghost keep = |line: Seq<char>| !text::blank(line);
    assert(lines.take(0).filter(keep) =~= Seq::<Seq<char>>::empty()) by {
        reveal(Seq::filter);
    }
    for i in 0..all.len()
        invariant
            lines == text::texts(all@),
            keep == (|line: Seq<char>| !text::blank(line)),
            text::texts(list@) == lines.take(i as int).filter(keep),
    {
        proof {
            counting::one_more(lines, i as int);
            assert(lines[i as int] == all@[i as int]@);
            reveal(Seq::filter);
        }
        if !text::is_blank(all[i].as_str()) {
            let ghost was = text::texts(list@);
            list.push(all[i].clone());
            assert(text::texts(list@) =~= was.push(lines[i as int]));
        }
    }
    proof {
        counting::take_all(lines);
    }
    list
}

pub const NO_RESULT: &'static str = "the run printed no result";

pub const THE_STREAM: &'static str = "the stream: ";

pub const TOO_MUCH: &'static str = "the stream: more than can be counted";

/// Why a line of a stream cannot be read: the first line that is no JSON.
pub open spec fn first_invalid(lines: Seq<Seq<char>>) -> Option<Seq<char>> {
    counting::first_some(lines, |line: Seq<char>| json::why_invalid(json::json_at(line, ""@)))
}

/// The rows of a stream's lines.
pub open spec fn rows_read(lines: Seq<Seq<char>>, rows: Seq<StreamRow>) -> bool {
    rows.len() == lines.len() && forall|i: int|
        0 <= i < lines.len() ==> row_read(lines[i], #[trigger] rows[i])
}

/// Reads a stream: one JSON object a line, in the order they were printed. A line that is no JSON
/// is an error, and so is a stream without a result, or one whose totals do not fit.
pub fn summarise_stream(stream: &str, wiki: &str) -> (found: Result<StreamSummary, String>)
    ensures
        match first_invalid(said_lines(stream@)) {
            Some(why) => found matches Err(message) && message@ == THE_STREAM@ + why,
            None => exists|rows: Seq<StreamRow>| #[trigger]
                rows_read(said_lines(stream@), rows) && match found {
                    Ok(summary) => summarises(rows, wiki@, summary) && is_countable(rows),
                    Err(message) => if last_result(rows) is None {
                        message@ == NO_RESULT@
                    } else {
                        message@ == TOO_MUCH@ && !is_countable(rows)
                    },
                },
        },
{
    let lines: Vec<String> = spoken_lines(stream);
    let ghost said = text::texts(lines@);
    let mut rows: Vec<StreamRow> = Vec::new();
    for i in 0..lines.len()
        invariant
            said == text::texts(lines@),
            said == said_lines(stream@),
            first_invalid(said.take(i as int)) is None,
            rows_read(said.take(i as int), rows@),
    {
        proof {
            counting::one_more(said, i as int);
            assert(said[i as int] == lines@[i as int]@);
        }
        match json::invalid(lines[i].as_str()) {
            Some(why) => {
                let mut message: String = THE_STREAM.to_owned();
                message.append(why.as_str());
                proof {
                    first_stays(
                        said,
                        |line: Seq<char>| json::why_invalid(json::json_at(line, ""@)),
                        i + 1,
                    );
                }
                return Err(message);
            },
            None => {},
        }
        let ghost was = rows@;
        rows.push(read_row(lines[i].as_str()));
        assert forall|k: int| 0 <= k < i + 1 implies row_read(
            said.take(i + 1)[k],
            #[trigger] rows@[k],
        ) by {
            if k < i {
                assert(rows@[k] == was[k]);
                assert(row_read(said.take(i as int)[k], was[k]));
            }
        }
    }
    proof {
        counting::take_all(said);
    }
    if last_result_at(&rows).is_none() {
        return Err(NO_RESULT.to_owned());
    }
    if !can_count(&rows) {
        return Err(TOO_MUCH.to_owned());
    }
    match summarise_rows(&rows, wiki) {
        Some(summary) => Ok(summary),
        None => Err(NO_RESULT.to_owned()),
    }
}

proof fn first_stays<T, U>(list: Seq<T>, of: spec_fn(T) -> Option<U>, n: int)
    requires
        0 <= n <= list.len(),
        counting::first_some(list.take(n), of) is Some,
    ensures
        counting::first_some(list, of) == counting::first_some(list.take(n), of),
    decreases list.len(),
{
    if n == list.len() {
        counting::take_all(list);
    } else {
        assert(list.drop_last().take(n) =~= list.take(n));
        first_stays(list.drop_last(), of, n);
    }
}

/// One line of a subagent's transcript: what of it is read here.
pub struct TranscriptRow {
    pub kind: Option<String>,
    /// Which message the line is a piece of.
    pub id: Option<String>,
    pub model: Option<String>,
    pub usage: Usage,
    pub blocks: Vec<Block>,
}

/// What one subagent's transcript says it read and was billed for.
pub struct TranscriptSummary {
    pub model: Option<String>,
    pub usage: Usage,
    /// Assistant messages: the subagent's turns.
    pub turns: usize,
    pub tool_uses: usize,
    /// The files it opened, relative to the wiki, each once, in the order of their paths.
    pub files_read: Vec<String>,
}

/// A piece of a message of the subagent's.
pub open spec fn is_piece(row: TranscriptRow) -> bool {
    said(row.kind, "assistant"@) && row.id is Some
}

/// Messages, and what each is billed for.
#[verifier::ext_equal]
pub struct Turns {
    pub ids: Seq<Seq<char>>,
    pub bills: Seq<Usage>,
}

/// A message is written once per piece it was streamed in, and the piece with the most output
/// tokens is the last: that one is billed.
pub open spec fn turns_with(turns: Turns, row: TranscriptRow) -> Turns {
    if !is_piece(row) {
        turns
    } else {
        let id = or_empty(row.id);
        let at = turns.ids.index_of(id);
        if !turns.ids.contains(id) {
            Turns { ids: turns.ids.push(id), bills: turns.bills.push(row.usage) }
        } else if row.usage.output > turns.bills[at].output {
            Turns { ids: turns.ids, bills: turns.bills.update(at, row.usage) }
        } else {
            turns
        }
    }
}

/// The messages of a transcript, in the order they start.
pub open spec fn messages(rows: Seq<TranscriptRow>) -> Turns
    decreases rows.len(),
{
    if rows.len() == 0 {
        Turns { ids: Seq::empty(), bills: Seq::empty() }
    } else {
        turns_with(messages(rows.drop_last()), rows.last())
    }
}

/// Whether a row is a piece of a message.
pub open spec fn is_piece_of(row: TranscriptRow, id: Seq<char>) -> bool {
    is_piece(row) && or_empty(row.id) == id
}

/// Each message is billed once, for the piece with the most output tokens, whatever the order the
/// pieces come in.
pub proof fn each_message_is_billed_once_for_its_largest_piece(rows: Seq<TranscriptRow>)
    ensures
        ({
            let turns = messages(rows);
            &&& turns.ids.len() == turns.bills.len()
            &&& turns.ids.no_duplicates()
            &&& forall|id: Seq<char>| #[trigger]
                turns.ids.contains(id) == exists|i: int|
                    0 <= i < rows.len() && is_piece_of(#[trigger] rows[i], id)
            &&& forall|k: int, i: int|
                #![trigger turns.ids[k], rows[i]]
                0 <= k < turns.ids.len() && 0 <= i < rows.len() && is_piece_of(
                    rows[i],
                    turns.ids[k],
                ) ==> rows[i].usage.output <= turns.bills[k].output
            &&& forall|k: int|
                0 <= k < turns.ids.len() ==> exists|i: int|
                    0 <= i < rows.len() && is_piece_of(rows[i], #[trigger] turns.ids[k])
                        && #[trigger] rows[i].usage == turns.bills[k]
        }),
    decreases rows.len(),
{
    if rows.len() > 0 {
        let front = rows.drop_last();
        let row = rows.last();
        each_message_is_billed_once_for_its_largest_piece(front);
        let was = messages(front);
        let now = messages(rows);
        let last = rows.len() - 1;
        assert(forall|i: int| 0 <= i < last ==> rows[i] == front[i]);
        assert forall|id: Seq<char>| #[trigger]
            now.ids.contains(id) == exists|i: int|
                0 <= i < rows.len() && is_piece_of(#[trigger] rows[i], id) by {
            assert(was.ids.contains(id) == exists|i: int|
                0 <= i < front.len() && is_piece_of(#[trigger] front[i], id));
            if was.ids.contains(id) {
                let i = choose|i: int| 0 <= i < front.len() && is_piece_of(#[trigger] front[i], id);
                assert(is_piece_of(rows[i], id));
                let k = choose|k: int| 0 <= k < was.ids.len() && was.ids[k] == id;
                assert(now.ids[k] == id);
            }
            if is_piece(row) && or_empty(row.id) == id {
                assert(is_piece_of(rows[last], id));
                if !was.ids.contains(id) {
                    assert(now.ids[now.ids.len() - 1] == id);
                }
            }
            if now.ids.contains(id) && !was.ids.contains(id) {
                let k = choose|k: int| 0 <= k < now.ids.len() && now.ids[k] == id;
                assert(is_piece(row) && or_empty(row.id) == id);
            }
            if exists|i: int| 0 <= i < rows.len() && is_piece_of(#[trigger] rows[i], id) {
                let i = choose|i: int| 0 <= i < rows.len() && is_piece_of(#[trigger] rows[i], id);
                if i < last {
                    assert(is_piece_of(front[i], id));
                }
            }
        }
        assert(now.ids.no_duplicates()) by {
            if is_piece(row) && !was.ids.contains(or_empty(row.id)) {
                assert forall|a: int, b: int|
                    0 <= a < now.ids.len() && 0 <= b < now.ids.len() && a != b implies now.ids[a]
                    != now.ids[b] by {
                    if a == was.ids.len() {
                        assert(now.ids[b] == was.ids[b]);
                    } else if b == was.ids.len() {
                        assert(now.ids[a] == was.ids[a]);
                    }
                }
            }
        }
        assert forall|k: int, i: int|
            #![trigger now.ids[k], rows[i]]
            0 <= k < now.ids.len() && 0 <= i < rows.len() && is_piece_of(
                rows[i],
                now.ids[k],
            ) implies rows[i].usage.output <= now.bills[k].output by {
            if k < was.ids.len() {
                assert(now.ids[k] == was.ids[k]);
                if i < last {
                    assert(front[i] == rows[i]);
                    assert(front[i].usage.output <= was.bills[k].output);
                } else {
                    assert(was.ids.contains(was.ids[k]));
                    assert(was.ids[was.ids.index_of(or_empty(row.id))] == was.ids[k]);
                }
            } else {
                if i < last {
                    assert(is_piece_of(front[i], or_empty(row.id)));
                    assert(was.ids.contains(or_empty(row.id)));
                }
            }
        }
        assert forall|k: int| 0 <= k < now.ids.len() implies exists|i: int|
            0 <= i < rows.len() && is_piece_of(rows[i], #[trigger] now.ids[k])
                && #[trigger] rows[i].usage == now.bills[k] by {
            if k < was.ids.len() && now.bills[k] == was.bills[k] {
                assert(now.ids[k] == was.ids[k]);
                let i = choose|i: int|
                    0 <= i < front.len() && is_piece_of(front[i], was.ids[k])
                        && #[trigger] front[i].usage == was.bills[k];
                assert(rows[i].usage == now.bills[k]);
            } else {
                assert(rows[last].usage == now.bills[k]);
                if k < was.ids.len() {
                    assert(was.ids.contains(or_empty(row.id)));
                    assert(was.ids[was.ids.index_of(or_empty(row.id))] == or_empty(row.id));
                }
            }
        }
    }
}

/// The blocks of a transcript's messages.
pub open spec fn piece_blocks(rows: Seq<TranscriptRow>) -> Seq<Block>
    decreases rows.len(),
{
    if rows.len() == 0 {
        Seq::empty()
    } else if is_piece(rows.last()) {
        piece_blocks(rows.drop_last()) + rows.last().blocks@
    } else {
        piece_blocks(rows.drop_last())
    }
}

/// Whether a transcript's totals fit in machine words.
pub open spec fn is_countable_transcript(rows: Seq<TranscriptRow>) -> bool {
    billable(messages(rows).bills) && piece_blocks(rows).len() <= usize::MAX
}

/// What a transcript says.
pub open spec fn transcribes(
    rows: Seq<TranscriptRow>,
    wiki: Seq<char>,
    summary: TranscriptSummary,
) -> bool {
    let blocks = piece_blocks(rows);
    &&& json::text_of(summary.model) == counting::first_some(
        rows,
        |row: TranscriptRow|
            if is_piece(row) {
                json::text_of(row.model)
            } else {
                None
            },
    )
    &&& is_billed(messages(rows).bills, summary.usage)
    &&& summary.turns == messages(rows).ids.len()
    &&& summary.tool_uses == counting::how_many(blocks, |block: Block| is_tool_use(block))
    &&& paths::ascending(text::texts(summary.files_read@))
    &&& forall|file: Seq<char>| #[trigger]
        paths::holds(text::texts(summary.files_read@), file) == opened(blocks, wiki, file)
}

proof fn piece_blocks_of_a_part(rows: Seq<TranscriptRow>, n: int)
    requires
        0 <= n <= rows.len(),
    ensures
        piece_blocks(rows.take(n)).len() <= piece_blocks(rows).len(),
    decreases rows.len(),
{
    if n == rows.len() {
        counting::take_all(rows);
    } else {
        assert(rows.drop_last().take(n) =~= rows.take(n));
        piece_blocks_of_a_part(rows.drop_last(), n);
    }
}

fn piece(row: &TranscriptRow) -> (yes: bool)
    ensures
        yes == is_piece(*row),
{
    says(&row.kind, "assistant") && row.id.is_some()
}

/// Whether the blocks of a transcript can be counted.
fn can_count_pieces(rows: &Vec<TranscriptRow>) -> (yes: bool)
    ensures
        yes == (piece_blocks(rows@).len() <= usize::MAX),
{
    let mut n: usize = 0;
    for i in 0..rows.len()
        invariant
            n == piece_blocks(rows@.take(i as int)).len(),
    {
        proof {
            counting::one_more(rows@, i as int);
            piece_blocks_of_a_part(rows@, i + 1);
        }
        if piece(&rows[i]) {
            if rows[i].blocks.len() > usize::MAX - n {
                return false;
            }
            n += rows[i].blocks.len();
        }
    }
    proof {
        counting::take_all(rows@);
    }
    true
}

/// The messages of a transcript and what each is billed for.
fn messages_of(rows: &Vec<TranscriptRow>) -> (found: (Vec<String>, Vec<Usage>))
    ensures
        text::texts(found.0@) == messages(rows@).ids,
        found.1@ == messages(rows@).bills,
{
    let mut ids: Vec<String> = Vec::new();
    let mut bills: Vec<Usage> = Vec::new();
    assert(text::texts(ids@) =~= Seq::<Seq<char>>::empty());
    for i in 0..rows.len()
        invariant
            text::texts(ids@) == messages(rows@.take(i as int)).ids,
            bills@ == messages(rows@.take(i as int)).bills,
    {
        proof {
            counting::one_more(rows@, i as int);
            each_message_is_billed_once_for_its_largest_piece(rows@.take(i as int));
        }
        if piece(&rows[i]) {
            let id: String = empty_if_none(&rows[i].id);
            let ghost names = text::texts(ids@);
            let at: usize = ordered::position(&ids, id.as_str());
            if at < ids.len() {
                proof {
                    assert(names[at as int] == id@);
                    assert(names.contains(id@));
                    assert(names[names.index_of(id@)] == id@);
                }
                if rows[i].usage.output > bills[at].output {
                    bills.set(at, rows[i].usage);
                }
            } else {
                let ghost name = id@;
                ids.push(id);
                bills.push(rows[i].usage);
                assert(text::texts(ids@) =~= names.push(name));
            }
        }
    }
    proof {
        counting::take_all(rows@);
    }
    (ids, bills)
}

/// What the rows of a transcript say.
pub fn summarise_pieces(rows: &Vec<TranscriptRow>, wiki: &str) -> (summary: TranscriptSummary)
    requires
        is_countable_transcript(rows@),
    ensures
        transcribes(rows@, wiki@, summary),
{
    let mut model: Option<String> = None;
    let mut tools: Tools = Tools::new(wiki);
    for i in 0..rows.len()
        invariant
            is_countable_transcript(rows@),
            json::text_of(model) == counting::first_some(
                rows@.take(i as int),
                |row: TranscriptRow|
                    if is_piece(row) {
                        json::text_of(row.model)
                    } else {
                        None
                    },
            ),
            tools.count(piece_blocks(rows@.take(i as int)), wiki@),
    {
        proof {
            counting::one_more(rows@, i as int);
            piece_blocks_of_a_part(rows@, i + 1);
        }
        if piece(&rows[i]) {
            if model.is_none() {
                model = again(&rows[i].model);
            }
            let width: usize = rows[i].blocks.len();
            let ghost front = piece_blocks(rows@.take(i as int));
            let ghost list = rows@[i as int].blocks@;
            assert(front + list.take(0) =~= front);
            for k in 0..width
                invariant
                    i < rows.len(),
                    width == rows@[i as int].blocks.len(),
                    list == rows@[i as int].blocks@,
                    front.len() + width <= usize::MAX,
                    tools.count(front + list.take(k as int), wiki@),
            {
                tools.see(&rows[i].blocks[k], wiki, Ghost(front + list.take(k as int)));
                assert((front + list.take(k as int)).push(list[k as int]) =~= front + list.take(
                    k + 1,
                ));
            }
            proof {
                counting::take_all(list);
            }
        }
    }
    proof {
        counting::take_all(rows@);
        each_message_is_billed_once_for_its_largest_piece(rows@);
    }
    let (ids, bills): (Vec<String>, Vec<Usage>) = messages_of(rows);
    let usage: Usage = match bill_all(&bills) {
        Some(total) => total,
        None => Usage::none(),
    };
    assert(text::texts(ids@).len() == ids.len());
    TranscriptSummary {
        model,
        usage,
        turns: ids.len(),
        tool_uses: tools.uses,
        files_read: tools.files,
    }
}

/// What a line of a transcript says.
pub open spec fn transcript_row_read(doc: Seq<char>, row: TranscriptRow) -> bool {
    &&& json::text_of(row.kind) == json::as_text(json::json_at(doc, "/type"@))
    &&& json::text_of(row.id) == json::as_text(json::json_at(doc, "/message/id"@))
    &&& json::text_of(row.model) == json::as_text(json::json_at(doc, "/message/model"@))
    &&& row.usage == message_usage(doc, "/message/usage"@)
    &&& blocks_read(doc, row.blocks@)
}

pub fn read_transcript_row(doc: &str) -> (row: TranscriptRow)
    ensures
        transcript_row_read(doc@, row),
{
    TranscriptRow {
        kind: json::text_at(doc, "/type"),
        id: json::text_at(doc, "/message/id"),
        model: json::text_at(doc, "/message/model"),
        usage: usage(doc, "/message/usage"),
        blocks: read_blocks(doc),
    }
}

/// The lines of a transcript that can be read.
pub open spec fn readable_lines(s: Seq<char>) -> Seq<Seq<char>> {
    said_lines(s).filter(
        |line: Seq<char>| json::why_invalid(json::json_at(line, ""@)) is None,
    )
}

/// The rows of a transcript's lines.
pub open spec fn transcript_read(lines: Seq<Seq<char>>, rows: Seq<TranscriptRow>) -> bool {
    rows.len() == lines.len() && forall|i: int|
        0 <= i < lines.len() ==> transcript_row_read(lines[i], #[trigger] rows[i])
}

/// Reads a subagent's transcript; a line that is no JSON is passed over. Nothing where the totals
/// do not fit in machine words.
pub fn summarise_transcript(transcript: &str, wiki: &str) -> (found: Option<TranscriptSummary>)
    ensures
        exists|rows: Seq<TranscriptRow>| #[trigger]
            transcript_read(readable_lines(transcript@), rows) && match found {
                Some(summary) => is_countable_transcript(rows) && transcribes(
                    rows,
                    wiki@,
                    summary,
                ),
                None => !is_countable_transcript(rows),
            },
{
    let lines: Vec<String> = spoken_lines(transcript);
    let ghost all = text::texts(lines@);
    let ghost keep = |line: Seq<char>| json::why_invalid(json::json_at(line, ""@)) is None;
    let mut rows: Vec<TranscriptRow> = Vec::new();
    assert(all.take(0).filter(keep) =~= Seq::<Seq<char>>::empty()) by {
        reveal(Seq::filter);
    }
    for i in 0..lines.len()
        invariant
            all == text::texts(lines@),
            keep == (|line: Seq<char>| json::why_invalid(json::json_at(line, ""@)) is None),
            transcript_read(all.take(i as int).filter(keep), rows@),
    {
        proof {
            counting::one_more(all, i as int);
            assert(all[i as int] == lines@[i as int]@);
            reveal(Seq::filter);
        }
        if json::invalid(lines[i].as_str()).is_none() {
            let ghost was = rows@;
            let ghost front = all.take(i as int).filter(keep);
            rows.push(read_transcript_row(lines[i].as_str()));
            assert forall|k: int| 0 <= k < rows.len() implies transcript_row_read(
                all.take(i + 1).filter(keep)[k],
                #[trigger] rows@[k],
            ) by {
                if k < was.len() {
                    assert(rows@[k] == was[k]);
                    assert(transcript_row_read(front[k], was[k]));
                }
            }
        }
    }
    proof {
        counting::take_all(all);
        assert(readable_lines(transcript@) == all.filter(keep));
        assert(transcript_read(readable_lines(transcript@), rows@));
    }
    let (_, bills): (Vec<String>, Vec<Usage>) = messages_of(&rows);
    if bill_all(&bills).is_none() || !can_count_pieces(&rows) {
        return None;
    }
    Some(summarise_pieces(&rows, wiki))
}

} // verus!
