//! The report: numbers in markdown.
//!
//! The wiki this measures may be private, so the report is rendered from aggregates and graph
//! statistics and from nothing else. Neither holds a query, a path, a heading or a line of text.
//! What is left that a wiki could still speak through is the labels: a query id and a category
//! come from the gold set, whoever wrote it. So every label is checked before it is printed, and a
//! label that looks like a path or reads like a sentence stops the report rather than appearing in
//! it.

use vstd::prelude::*;

use crate::aggregate::{Aggregates, Condition, Group};
use crate::counting;
use crate::doc;
use crate::doc::{args, Doc, DocView, Figure, Form};
use crate::graph;
use crate::graph::{Entry, GraphStats};
use crate::json;
use crate::ordered;
use crate::ordered::Table;
use crate::reading;
use crate::row;
use crate::row::Row;
use crate::run;
use crate::text;

verus! {

/// How a run was made: flags and constants, never a path or a query.
pub struct Method {
    pub repeats: usize,
    pub conditions: Vec<String>,
    pub claude_model: String,
    /// The flags the agent was run under, values and all where they are not paths.
    pub claude_flags: Vec<String>,
    pub s1m_flags: Vec<String>,
    /// The prompt template: the query and the entry page are substituted into it at run time and
    /// are not here.
    pub explore_prompt: String,
    pub s1m_agent_prompt: String,
    /// How hard the Explore agent was told to look. Empty in a run made before it was said.
    pub thoroughness: String,
    pub chars_per_token: usize,
}

/// The longest a label may be before it is treated as prose.
pub const LABEL_LIMIT: usize = 64;

/// The most words a label may have before it reads like a sentence.
pub const WORD_LIMIT: usize = 4;

pub const LOOKS_LIKE_A_PATH: &'static str =
    " looks like a path: a report never names a file, so give the query an id that is a name";

pub const TOO_LONG: &'static str =
    " is longer than 64 characters: a report prints ids and categories, never a query";

pub const A_SENTENCE: &'static str =
    " reads like a sentence: a report prints ids and categories, never a query";

/// Whether a text names a file, by its ending.
pub open spec fn names_a_file(s: Seq<char>) -> bool {
    let lower = text::lowered(s);
    text::holds(lower, ".md"@) || text::holds(lower, ".txt"@) || text::holds(lower, ".markdown"@)
}

/// Whether a label can be mistaken for a path.
pub open spec fn path_like(label: Seq<char>) -> bool {
    text::holds(label, "/"@) || text::holds(label, "\\"@) || names_a_file(label)
}

/// Why a label may not be printed.
pub open spec fn label_fault(label: Seq<char>) -> Option<Seq<char>> {
    if path_like(label) {
        Some(text::debugged(label) + LOOKS_LIKE_A_PATH@)
    } else if label.len() > LABEL_LIMIT {
        Some(text::debugged(label) + TOO_LONG@)
    } else if text::word_count(label) > WORD_LIMIT {
        Some(text::debugged(label) + A_SENTENCE@)
    } else {
        None
    }
}

fn file_named(s: &str) -> (yes: bool)
    ensures
        yes == names_a_file(s@),
{
    let lower: String = text::lower_ascii(s);
    text::contains(lower.as_str(), ".md") || text::contains(lower.as_str(), ".txt")
        || text::contains(lower.as_str(), ".markdown")
}

fn message(label: &str, why: &str) -> (whole: String)
    ensures
        whole@ == text::debugged(label@) + why@,
{
    let mut whole: String = text::debug(label);
    whole.append(why);
    whole
}

/// A label may be printed when it cannot be mistaken for a path and does not read like a sentence.
/// This is the last gate between a private gold set and a published file, so it errs towards
/// refusing.
pub fn safe(label: &str) -> (checked: Result<&str, String>)
    ensures
        match checked {
            Ok(same) => label_fault(label@) is None && same@ == label@,
            Err(why) => label_fault(label@) == Some(why@),
        },
{
    if text::contains(label, "/") || text::contains(label, "\\") || file_named(label) {
        return Err(message(label, LOOKS_LIKE_A_PATH));
    }
    if text::length(label) > LABEL_LIMIT {
        return Err(message(label, TOO_LONG));
    }
    if text::count_words(label) > WORD_LIMIT {
        return Err(message(label, A_SENTENCE));
    }
    Ok(label)
}

pub const NO_PLACEHOLDER: &'static str = "the prompt in the aggregates has no literal ";

pub const NOT_A_TEMPLATE: &'static str =
    ": a prompt with the query or the pages substituted into it is not a template, and the report prints the template";

pub const PROMPT_NAMES_A_PATH: &'static str = "the prompt in the aggregates names a path";

/// Why a prompt may not be printed: it is no template any more, or it names a path.
pub open spec fn prompt_fault(
    prompt: Seq<char>,
    first: Seq<char>,
    second: Seq<char>,
) -> Option<Seq<char>> {
    if !text::holds(prompt, first) {
        Some(NO_PLACEHOLDER@ + first + NOT_A_TEMPLATE@)
    } else if !text::holds(prompt, second) {
        Some(NO_PLACEHOLDER@ + second + NOT_A_TEMPLATE@)
    } else if text::holds(prompt, "/"@) || names_a_file(prompt) {
        Some(PROMPT_NAMES_A_PATH@)
    } else {
        None
    }
}

fn missing_placeholder(placeholder: &str) -> (whole: String)
    ensures
        whole@ == NO_PLACEHOLDER@ + placeholder@ + NOT_A_TEMPLATE@,
{
    let mut whole: String = NO_PLACEHOLDER.to_owned();
    whole.append(placeholder);
    whole.append(NOT_A_TEMPLATE);
    whole
}

/// A prompt may be printed when it is still a template: every placeholder in place, and nothing in
/// it that looks like a path.
pub fn template(prompt: &str, first: &str, second: &str) -> (fault: Option<String>)
    ensures
        json::text_of(fault) == prompt_fault(prompt@, first@, second@),
{
    if !text::contains(prompt, first) {
        return Some(missing_placeholder(first));
    }
    if !text::contains(prompt, second) {
        return Some(missing_placeholder(second));
    }
    if text::contains(prompt, "/") || file_named(prompt) {
        return Some(PROMPT_NAMES_A_PATH.to_owned());
    }
    None
}

/// A digit of a hexadecimal number.
pub open spec fn is_hex(c: char) -> bool {
    ('0' <= c && c <= '9') || ('a' <= c && c <= 'f') || ('A' <= c && c <= 'F')
}

pub open spec fn all_hex(s: Seq<char>) -> bool {
    forall|i: int| 0 <= i < s.len() ==> is_hex(#[trigger] s[i])
}

/// A digest as a revision writes it.
pub open spec fn is_digest(s: Seq<char>) -> bool {
    6 <= s.len() <= 64 && all_hex(s)
}

/// A prefix of a revision, and a digest behind it.
pub open spec fn has_digest(revision: Seq<char>, prefix: Seq<char>) -> bool {
    text::stands_at(revision, prefix, 0) && is_digest(revision.skip(prefix.len() as int))
}

/// A wiki revision: a prefix and a hexadecimal digest.
pub open spec fn is_revision(revision: Seq<char>) -> bool {
    has_digest(revision, "sha256:"@) || has_digest(revision, "git:"@)
}

pub const NOT_A_REVISION: &'static str =
    " is not a wiki revision: a report names one as this harness writes it, `sha256:<hex>` or `git:<hex>`";

pub open spec fn revision_fault(revision: Seq<char>) -> Option<Seq<char>> {
    if is_revision(revision) {
        None
    } else {
        Some(text::debugged(revision) + NOT_A_REVISION@)
    }
}

fn hex(c: char) -> (yes: bool)
    ensures
        yes == is_hex(c),
{
    ('0' <= c && c <= '9') || ('a' <= c && c <= 'f') || ('A' <= c && c <= 'F')
}

fn digest_behind(all: &Vec<char>, prefix: &str) -> (yes: bool)
    ensures
        yes == has_digest(all@, prefix@),
{
    let front: Vec<char> = text::chars(prefix);
    if !text::is_at(all, &front, 0) {
        return false;
    }
    let from: usize = front.len();
    let width: usize = all.len() - from;
    if width < 6 || width > 64 {
        return false;
    }
    for i in from..all.len()
        invariant
            from <= all.len(),
            front@ == prefix@,
            from == front.len(),
            forall|k: int| 0 <= k < i - from ==> is_hex(#[trigger] all@.skip(from as int)[k]),
    {
        assert(all@.skip(from as int)[i - from] == all@[i as int]);
        if !hex(all[i]) {
            return false;
        }
    }
    true
}

/// A wiki revision is something this library writes and nobody else's file chooses the shape of:
/// a prefix and a hexadecimal digest. Anything else is refused rather than printed.
pub fn revision_label(revision: &str) -> (fault: Option<String>)
    ensures
        json::text_of(fault) == revision_fault(revision@),
{
    let all: Vec<char> = text::chars(revision);
    if digest_behind(&all, "sha256:") || digest_behind(&all, "git:") {
        None
    } else {
        Some(message(revision, NOT_A_REVISION))
    }
}

pub const NOT_A_CONVENTION: &'static str =
    " is not an entry page convention: the report names the conventions this harness looks for, and nothing else a wiki holds";

/// Why graph statistics may not be printed: the only text in them is the entry page, and the only
/// ones that may be named are the conventions.
pub open spec fn stats_fault(stats: GraphStats) -> Option<Seq<char>> {
    match stats.depth.entry {
        Some(Entry::Convention(name)) => if name@ == graph::ENTRY_CONVENTIONS@[0]@ || name@
            == graph::ENTRY_CONVENTIONS@[1]@ {
            None
        } else {
            Some(text::debugged(name@) + NOT_A_CONVENTION@)
        },
        _ => None,
    }
}

pub fn check_stats(stats: &GraphStats) -> (fault: Option<String>)
    ensures
        json::text_of(fault) == stats_fault(*stats),
{
    match &stats.depth.entry {
        Some(Entry::Convention(name)) => {
            if text::same(name.as_str(), graph::ENTRY_CONVENTIONS[0]) || text::same(
                name.as_str(),
                graph::ENTRY_CONVENTIONS[1],
            ) {
                None
            } else {
                Some(message(name.as_str(), NOT_A_CONVENTION))
            }
        },
        _ => None,
    }
}

/// The first label of a list that may not be printed, and why.
pub open spec fn labels_fault(labels: Seq<Seq<char>>) -> Option<Seq<char>> {
    counting::first_some(labels, |label: Seq<char>| label_fault(label))
}

/// The first of two faults.
pub open spec fn or_fault(first: Option<Seq<char>>, second: Option<Seq<char>>) -> Option<Seq<char>> {
    match first {
        Some(why) => Some(why),
        None => second,
    }
}

pub fn check_labels(labels: &Vec<String>) -> (fault: Option<String>)
    ensures
        json::text_of(fault) == labels_fault(text::texts(labels@)),
{
    let ghost all = text::texts(labels@);
    let mut fault: Option<String> = None;
    for i in 0..labels.len()
        invariant
            all == text::texts(labels@),
            json::text_of(fault) == labels_fault(all.take(i as int)),
    {
        proof {
            counting::one_more(all, i as int);
            assert(all[i as int] == labels@[i as int]@);
        }
        if fault.is_none() {
            match safe(labels[i].as_str()) {
                Ok(_) => {},
                Err(why) => {
                    fault = Some(why);
                },
            }
        }
    }
    proof {
        counting::take_all(all);
    }
    fault
}

/// The labels of a method.
pub open spec fn method_labels(method: Method) -> Seq<Seq<char>> {
    let flags = seq![method.claude_model@] + text::texts(method.conditions@) + text::texts(
        method.claude_flags@,
    ) + text::texts(method.s1m_flags@);
    if method.thoroughness@.len() > 0 {
        flags.push(method.thoroughness@)
    } else {
        flags
    }
}

/// Why a method may not be printed.
pub open spec fn method_fault(method: Method) -> Option<Seq<char>> {
    or_fault(
        or_fault(
            labels_fault(method_labels(method)),
            prompt_fault(method.explore_prompt@, "<query>"@, "<entry>"@),
        ),
        if method.s1m_agent_prompt@.len() > 0 {
            prompt_fault(method.s1m_agent_prompt@, "<query>"@, "<files>"@)
        } else {
            None
        },
    )
}

/// Puts copies of texts behind others.
fn extend(list: &mut Vec<String>, more: &Vec<String>)
    ensures
        text::texts(final(list)@) == text::texts(old(list)@) + text::texts(more@),
{
    let ghost was = text::texts(list@);
    assert(was + text::texts(more@).take(0) =~= was);
    for i in 0..more.len()
        invariant
            text::texts(list@) == was + text::texts(more@).take(i as int),
    {
        let ghost before = text::texts(list@);
        list.push(more[i].clone());
        assert(text::texts(list@) =~= before.push(more@[i as int]@));
        assert(text::texts(list@) =~= was + text::texts(more@).take(i + 1));
    }
    proof {
        counting::take_all(text::texts(more@));
    }
}

fn append_text(list: &mut Vec<String>, more: &str)
    ensures
        text::texts(final(list)@) == text::texts(old(list)@).push(more@),
{
    let ghost was = text::texts(list@);
    list.push(more.to_owned());
    assert(text::texts(list@) =~= was.push(more@));
}

/// The method, as a file gave it. A model, a flag or a condition is a label, and a prompt is a
/// template: it has to still have its placeholders in it, because a prompt with the query
/// substituted into it is a copy of the query.
pub fn check(method: &Method) -> (fault: Option<String>)
    ensures
        json::text_of(fault) == method_fault(*method),
{
    let mut labels: Vec<String> = Vec::new();
    append_text(&mut labels, method.claude_model.as_str());
    assert(text::texts(labels@) =~= seq![method.claude_model@]);
    extend(&mut labels, &method.conditions);
    extend(&mut labels, &method.claude_flags);
    extend(&mut labels, &method.s1m_flags);
    if !method.thoroughness.as_str().is_empty() {
        append_text(&mut labels, method.thoroughness.as_str());
    }
    match check_labels(&labels) {
        Some(why) => {
            return Some(why);
        },
        None => {},
    }
    match template(method.explore_prompt.as_str(), "<query>", "<entry>") {
        Some(why) => {
            return Some(why);
        },
        None => {},
    }
    if !method.s1m_agent_prompt.as_str().is_empty() {
        return template(method.s1m_agent_prompt.as_str(), "<query>", "<files>");
    }
    None
}

/// Why aggregates may not be printed.
pub open spec fn aggregates_fault(aggregates: Aggregates) -> Option<Seq<char>> {
    or_fault(
        counting::first_some(
            text::texts(aggregates.wiki@),
            |revision: Seq<char>| revision_fault(revision),
        ),
        labels_fault(aggregates.models.names()),
    )
}

fn names_of<V>(table: &Table<V>) -> (names: Vec<String>)
    ensures
        text::texts(names@) == table.names(),
{
    let n: usize = table.len();
    let mut names: Vec<String> = Vec::new();
    assert(text::texts(names@) =~= table.names().take(0));
    for i in 0..n
        invariant
            n == table.names().len(),
            text::texts(names@) == table.names().take(i as int),
    {
        let ghost was = text::texts(names@);
        names.push(table.name(i).clone());
        assert(text::texts(names@) =~= was.push(table.names()[i as int]));
        assert(text::texts(names@) =~= table.names().take(i + 1));
    }
    proof {
        counting::take_all(table.names());
    }
    names
}

/// The aggregates, as a file gave them. The models and the wiki revisions are the two texts in
/// them that the method table prints, and they go through the same gate as every other label.
pub fn check_aggregates(aggregates: &Aggregates) -> (fault: Option<String>)
    ensures
        json::text_of(fault) == aggregates_fault(*aggregates),
{
    let ghost all = text::texts(aggregates.wiki@);
    let mut fault: Option<String> = None;
    for i in 0..aggregates.wiki.len()
        invariant
            all == text::texts(aggregates.wiki@),
            json::text_of(fault) == counting::first_some(
                all.take(i as int),
                |revision: Seq<char>| revision_fault(revision),
            ),
    {
        proof {
            counting::one_more(all, i as int);
            assert(all[i as int] == aggregates.wiki@[i as int]@);
        }
        if fault.is_none() {
            fault = revision_label(aggregates.wiki[i].as_str());
        }
    }
    proof {
        counting::take_all(all);
    }
    if fault.is_some() {
        return fault;
    }
    let models: Vec<String> = names_of(&aggregates.models);
    check_labels(&models)
}

/// The condition a group is: its own name, or, where only the key says it, the condition it is
/// filed under.
pub open spec fn condition_name(key: Seq<char>, group: Condition) -> Seq<char> {
    if group.condition@.len() == 0 {
        key
    } else {
        group.condition@
    }
}

pub fn condition_of<'a>(key: &'a str, group: &'a Condition) -> (name: &'a str)
    ensures
        name@ == condition_name(key@, *group),
{
    if group.condition.as_str().is_empty() {
        key
    } else {
        group.condition.as_str()
    }
}

/// The labels that a row of a group prints.
pub open spec fn group_labels(key: Seq<char>, group: Condition) -> Seq<Seq<char>> {
    match group.model {
        Some(model) => seq![condition_name(key, group)].push(model@),
        None => seq![condition_name(key, group)],
    }
}

fn add_group_labels(list: &mut Vec<String>, key: &str, group: &Condition)
    ensures
        text::texts(final(list)@) == text::texts(old(list)@) + group_labels(key@, *group),
{
    let ghost was = text::texts(list@);
    append_text(list, condition_of(key, group));
    match &group.model {
        Some(model) => append_text(list, model.as_str()),
        None => {},
    }
    assert(text::texts(list@) =~= was + group_labels(key@, *group));
}

/// The labels of the first `n` rows of the results table.
pub open spec fn result_labels(conditions: Table<Condition>, n: int) -> Seq<Seq<char>>
    decreases n,
{
    if n <= 0 {
        Seq::empty()
    } else {
        result_labels(conditions, n - 1) + group_labels(
            conditions.names()[n - 1],
            conditions.column()[n - 1],
        )
    }
}

/// The labels that a query's rows print, over the first `n` conditions.
pub open spec fn query_labels(conditions: Table<Condition>, id: Seq<char>, n: int) -> Seq<Seq<char>>
    decreases n,
{
    if n <= 0 {
        Seq::empty()
    } else {
        let group = conditions.column()[n - 1];
        let front = query_labels(conditions, id, n - 1);
        if group.by_query.names().contains(id) {
            front.push(id).push(group.by_query.at(id).category@) + group_labels(
                conditions.names()[n - 1],
                group,
            )
        } else {
            front
        }
    }
}

/// The labels that the rows of queries print.
pub open spec fn all_query_labels(
    conditions: Table<Condition>,
    ids: Seq<Seq<char>>,
) -> Seq<Seq<char>>
    decreases ids.len(),
{
    if ids.len() == 0 {
        Seq::empty()
    } else {
        all_query_labels(conditions, ids.drop_last()) + query_labels(
            conditions,
            ids.last(),
            conditions.names().len() as int,
        )
    }
}

/// Whether a list is that of the queries that any condition ran, in order.
pub open spec fn are_ids(conditions: Table<Condition>, ids: Seq<Seq<char>>) -> bool {
    &&& ordered::ascending(ids)
    &&& forall|id: Seq<char>| #[trigger]
        ids.contains(id) == exists|i: int|
            0 <= i < conditions.column().len() && (#[trigger] conditions.column()[i]).by_query.names().contains(
                id,
            )
}

/// The queries that any condition ran, in order.
fn ids_of(conditions: &Table<Condition>) -> (ids: Vec<String>)
    ensures
        are_ids(*conditions, text::texts(ids@)),
{
    let n: usize = conditions.len();
    let mut ids: Vec<String> = Vec::new();
    let ghost groups = conditions.column();
    assert(text::texts(ids@) =~= Seq::<Seq<char>>::empty());
    for i in 0..n
        invariant
            n == groups.len(),
            groups == conditions.column(),
            ordered::ascending(text::texts(ids@)),
            forall|id: Seq<char>| #[trigger]
                text::texts(ids@).contains(id) == exists|k: int|
                    0 <= k < i && (#[trigger] groups[k]).by_query.names().contains(id),
    {
        let group: &Condition = conditions.value(i);
        let ghost before = text::texts(ids@);
        let ghost names = group.by_query.names();
        let width: usize = group.by_query.len();
        for k in 0..width
            invariant
                width == names.len(),
                names == group.by_query.names(),
                ordered::ascending(text::texts(ids@)),
                forall|id: Seq<char>| #[trigger]
                    text::texts(ids@).contains(id) == (before.contains(id) || names.take(
                        k as int,
                    ).contains(id)),
        {
            let ghost was = text::texts(ids@);
            ordered::add(&mut ids, group.by_query.name(k).clone());
            proof {
                counting::holds_one_more(names, k as int);
                assert forall|id: Seq<char>| #[trigger]
                    text::texts(ids@).contains(id) == (before.contains(id) || names.take(
                        k + 1,
                    ).contains(id)) by {
                    assert(was.contains(id) == (before.contains(id) || names.take(
                        k as int,
                    ).contains(id)));
                }
            }
        }
        proof {
            counting::take_all(names);
            assert forall|id: Seq<char>| #[trigger]
                text::texts(ids@).contains(id) == exists|k: int|
                    0 <= k < i + 1 && (#[trigger] groups[k]).by_query.names().contains(id) by {
                assert(before.contains(id) == exists|k: int|
                    0 <= k < i && (#[trigger] groups[k]).by_query.names().contains(id));
                if names.contains(id) {
                    assert(groups[i as int].by_query.names().contains(id));
                }
            }
        }
    }
    ids
}

/// The labels of the results table.
fn labels_of_results(conditions: &Table<Condition>) -> (labels: Vec<String>)
    ensures
        text::texts(labels@) == result_labels(*conditions, conditions.names().len() as int),
{
    let n: usize = conditions.len();
    let mut labels: Vec<String> = Vec::new();
    assert(text::texts(labels@) =~= Seq::<Seq<char>>::empty());
    for i in 0..n
        invariant
            n == conditions.names().len(),
            n == conditions.column().len(),
            text::texts(labels@) == result_labels(*conditions, i as int),
    {
        add_group_labels(&mut labels, conditions.name(i).as_str(), conditions.value(i));
    }
    labels
}

/// The labels of the table of queries.
fn labels_of_queries(conditions: &Table<Condition>, ids: &Vec<String>) -> (labels: Vec<String>)
    ensures
        text::texts(labels@) == all_query_labels(*conditions, text::texts(ids@)),
{
    let n: usize = conditions.len();
    let ghost all = text::texts(ids@);
    let mut labels: Vec<String> = Vec::new();
    assert(text::texts(labels@) =~= Seq::<Seq<char>>::empty());
    for q in 0..ids.len()
        invariant
            n == conditions.names().len(),
            n == conditions.column().len(),
            all == text::texts(ids@),
            text::texts(labels@) == all_query_labels(*conditions, all.take(q as int)),
    {
        proof {
            counting::one_more(all, q as int);
            assert(all[q as int] == ids@[q as int]@);
        }
        let id: &str = ids[q].as_str();
        let ghost front = text::texts(labels@);
        assert(front + query_labels(*conditions, id@, 0) =~= front);
        for i in 0..n
            invariant
                n == conditions.names().len(),
                n == conditions.column().len(),
                text::texts(labels@) == front + query_labels(*conditions, id@, i as int),
        {
            let group: &Condition = conditions.value(i);
            match group.by_query.get(id) {
                Some(query) => {
                    append_text(&mut labels, id);
                    append_text(&mut labels, query.category.as_str());
                    add_group_labels(&mut labels, conditions.name(i).as_str(), group);
                    assert(text::texts(labels@) =~= front + query_labels(
                        *conditions,
                        id@,
                        i + 1,
                    ));
                },
                None => {},
            }
        }
    }
    proof {
        counting::take_all(all);
    }
    labels
}

/// Why a report may not be printed, its queries being `ids`: the first text in it that is refused.
pub open spec fn report_fault(
    aggregates: Aggregates,
    stats: Option<GraphStats>,
    method: Method,
    ids: Seq<Seq<char>>,
) -> Option<Seq<char>> {
    let conditions = aggregates.conditions;
    let before = or_fault(
        or_fault(method_fault(method), aggregates_fault(aggregates)),
        match stats {
            Some(stats) => stats_fault(stats),
            None => None,
        },
    );
    or_fault(
        or_fault(
            before,
            labels_fault(result_labels(conditions, conditions.names().len() as int)),
        ),
        labels_fault(all_query_labels(conditions, ids)),
    )
}

/// The metrics the tables show, in order, with the heading each one prints under. A metric no
/// condition measured is left out of the table.
pub const METRICS: [&'static str; 11] = [
    "recall",
    "precision",
    "agent_read_tokens",
    "agent_total_tokens",
    "files_opened",
    "parent_tool_uses",
    "parent_tool_denials",
    "cost_usd",
    "wall_ms",
    "jev_input_tokens",
    "jev_cost_usd",
];

pub const TITLES: [&'static str; 11] = [
    "Recall",
    "Precision",
    "Agent tokens",
    "Billed tokens",
    "Files opened",
    "Parent tools",
    "Parent blocked",
    "Cost (USD)",
    "Wall (ms)",
    "Jev input tokens",
    "Jev cost (USD)",
];

/// Whether any condition measured a metric.
pub open spec fn measured(conditions: Table<Condition>, metric: Seq<char>) -> bool {
    exists|i: int|
        0 <= i < conditions.column().len() && (#[trigger] conditions.column()[i]).overall.metrics.names().contains(
            metric,
        )
}

/// Whether any query's runs measured a metric.
pub open spec fn measured_of_query(group: Condition, metric: Seq<char>) -> bool {
    exists|k: int|
        0 <= k < group.by_query.column().len() && (#[trigger] group.by_query.column()[k]).group.metrics.names().contains(
            metric,
        )
}

pub open spec fn measured_by_query(conditions: Table<Condition>, metric: Seq<char>) -> bool {
    exists|i: int|
        0 <= i < conditions.column().len() && measured_of_query(
            #[trigger] conditions.column()[i],
            metric,
        )
}

/// The columns, out of the first `n`, of metrics that were measured.
pub open spec fn columns(shown: spec_fn(Seq<char>) -> bool, n: int) -> Seq<int>
    decreases n,
{
    if n <= 0 {
        Seq::empty()
    } else if shown(METRICS@[n - 1]@) {
        columns(shown, n - 1).push(n - 1)
    } else {
        columns(shown, n - 1)
    }
}

/// The places of a list as numbers.
pub open spec fn numbers(list: Seq<usize>) -> Seq<int> {
    list.map_values(|at: usize| at as int)
}

fn is_measured(conditions: &Table<Condition>, metric: &str) -> (yes: bool)
    ensures
        yes == measured(*conditions, metric@),
{
    let n: usize = conditions.len();
    for i in 0..n
        invariant
            n == conditions.column().len(),
            forall|k: int|
                0 <= k < i ==> !(
                #[trigger] conditions.column()[k]).overall.metrics.names().contains(metric@),
    {
        if conditions.value(i).overall.metrics.get(metric).is_some() {
            return true;
        }
    }
    false
}

fn is_measured_by_query(conditions: &Table<Condition>, metric: &str) -> (yes: bool)
    ensures
        yes == measured_by_query(*conditions, metric@),
{
    let n: usize = conditions.len();
    for i in 0..n
        invariant
            n == conditions.column().len(),
            forall|k: int|
                0 <= k < i ==> !measured_of_query(#[trigger] conditions.column()[k], metric@),
    {
        let group: &Condition = conditions.value(i);
        let width: usize = group.by_query.len();
        for k in 0..width
            invariant
                i < conditions.column().len(),
                *group == conditions.column()[i as int],
                width == group.by_query.column().len(),
                forall|j: int|
                    0 <= j < k ==> !(
                    #[trigger] group.by_query.column()[j]).group.metrics.names().contains(
                        metric@,
                    ),
        {
            if group.by_query.value(k).group.metrics.get(metric).is_some() {
                assert(measured_of_query(conditions.column()[i as int], metric@));
                return true;
            }
        }
    }
    false
}

/// The columns of the results table.
fn result_columns(conditions: &Table<Condition>) -> (list: Vec<usize>)
    ensures
        numbers(list@) == columns(|metric: Seq<char>| measured(*conditions, metric), 11),
        forall|i: int| 0 <= i < list.len() ==> (#[trigger] list@[i]) < 11,
{
    let mut list: Vec<usize> = Vec::new();
    let ghost shown = |metric: Seq<char>| measured(*conditions, metric);
    assert(numbers(list@) =~= Seq::<int>::empty());
    for at in 0..11usize
        invariant
            shown == (|metric: Seq<char>| measured(*conditions, metric)),
            numbers(list@) == columns(shown, at as int),
            forall|i: int| 0 <= i < list.len() ==> (#[trigger] list@[i]) < 11,
    {
        let ghost was = numbers(list@);
        if is_measured(conditions, METRICS[at]) {
            list.push(at);
            assert(numbers(list@) =~= was.push(at as int));
        }
    }
    list
}

/// The columns of the table of queries.
fn query_columns(conditions: &Table<Condition>) -> (list: Vec<usize>)
    ensures
        numbers(list@) == columns(|metric: Seq<char>| measured_by_query(*conditions, metric), 11),
        forall|i: int| 0 <= i < list.len() ==> (#[trigger] list@[i]) < 11,
{
    let mut list: Vec<usize> = Vec::new();
    let ghost shown = |metric: Seq<char>| measured_by_query(*conditions, metric);
    assert(numbers(list@) =~= Seq::<int>::empty());
    for at in 0..11usize
        invariant
            shown == (|metric: Seq<char>| measured_by_query(*conditions, metric)),
            numbers(list@) == columns(shown, at as int),
            forall|i: int| 0 <= i < list.len() ==> (#[trigger] list@[i]) < 11,
    {
        let ghost was = numbers(list@);
        if is_measured_by_query(conditions, METRICS[at]) {
            list.push(at);
            assert(numbers(list@) =~= was.push(at as int));
        }
    }
    list
}

/// A cell of a table.
pub open spec fn text_cell(out: DocView, cell: Seq<char>) -> DocView {
    out.text(" "@).text(cell).text(" |"@)
}

fn put_cell(out: &mut Doc, cell: &str)
    ensures
        final(out)@ == text_cell(old(out)@, cell@),
{
    out.text(" ");
    out.text(cell);
    out.text(" |");
}

/// The headings of columns.
pub open spec fn title_cells(out: DocView, columns: Seq<int>) -> DocView
    decreases columns.len(),
{
    if columns.len() == 0 {
        out
    } else {
        text_cell(title_cells(out, columns.drop_last()), TITLES@[columns.last()]@)
    }
}

/// The line under the headings of a table.
pub open spec fn rules(out: DocView, n: int) -> DocView
    decreases n,
{
    if n <= 0 {
        out
    } else {
        rules(out, n - 1).text(" --- |"@)
    }
}

fn put_titles(out: &mut Doc, columns: &Vec<usize>)
    requires
        forall|i: int| 0 <= i < columns.len() ==> (#[trigger] columns@[i]) < 11,
    ensures
        final(out)@ == title_cells(old(out)@, numbers(columns@)),
{
    let ghost was = out@;
    let ghost all = numbers(columns@);
    for i in 0..columns.len()
        invariant
            forall|k: int| 0 <= k < columns.len() ==> (#[trigger] columns@[k]) < 11,
            all == numbers(columns@),
            out@ == title_cells(was, all.take(i as int)),
    {
        proof {
            counting::one_more(all, i as int);
        }
        let at: usize = columns[i];
        put_cell(out, TITLES[at]);
    }
    proof {
        counting::take_all(all);
    }
}

fn put_rules(out: &mut Doc, n: usize)
    ensures
        final(out)@ == rules(old(out)@, n as int),
{
    let ghost was = out@;
    for i in 0..n
        invariant
            out@ == rules(was, i as int),
    {
        out.text(" --- |");
    }
}

/// What nothing is written as.
pub const DASH: &'static str = "—";

/// Whether a metric is a number the run never went and got. A warm walk bought no judgment, so it
/// read no tokens; that zero is the cache's doing and not the walk's.
pub open spec fn is_nothing(group: Group, metric: Seq<char>) -> bool {
    metric == "jev_input_tokens"@ && group.metrics.names().contains("jev_calls"@)
        && group.metrics.at("jev_calls"@).never_more_than_zero
}

pub fn nothing_to_report(group: &Group, metric: &str) -> (yes: bool)
    ensures
        yes == is_nothing(*group, metric@),
{
    if !text::same(metric, "jev_input_tokens") {
        return false;
    }
    match group.metrics.get("jev_calls") {
        Some(calls) => calls.never_more_than_zero,
        None => false,
    }
}

/// One metric's mean, with its spread where there is one, and how many runs it came from where
/// that is not every run that produced a measurement.
pub open spec fn metric_cell(out: DocView, group: Group, metric: Seq<char>) -> DocView {
    if !group.metrics.names().contains(metric) || is_nothing(group, metric) {
        out.text(DASH@)
    } else {
        let stat = group.metrics.at(metric);
        let mean = out.figure(Figure { value: stat.mean, form: Form::Measure });
        let spread = match stat.sd {
            Some(sd) => mean.text(" ± "@).figure(Figure { value: sd, form: Form::Measure }),
            None => mean,
        };
        if stat.n != group.runs - group.failed {
            spread.fill(" (n={})"@, doc::none().push(doc::count(stat.n as int)))
        } else {
            spread
        }
    }
}

pub fn cell(out: &mut Doc, group: &Group, metric: &str)
    requires
        group.failed <= group.runs,
    ensures
        final(out)@ == metric_cell(old(out)@, *group, metric@),
{
    let stat = match group.metrics.get(metric) {
        Some(stat) => stat,
        None => {
            out.text(DASH);
            return;
        },
    };
    if nothing_to_report(group, metric) {
        out.text(DASH);
        return;
    }
    out.figure(Figure { value: doc::copy(&stat.mean), form: Form::Measure });
    match &stat.sd {
        Some(sd) => {
            out.text(" ± ");
            out.figure(Figure { value: doc::copy(sd), form: Form::Measure });
        },
        None => {},
    }
    if stat.n != group.runs - group.failed {
        out.fill(" (n={})", args().count(stat.n));
    }
}

/// The cells of a group under columns.
pub open spec fn metric_cells(out: DocView, group: Group, columns: Seq<int>) -> DocView
    decreases columns.len(),
{
    if columns.len() == 0 {
        out
    } else {
        metric_cell(
            metric_cells(out, group, columns.drop_last()).text(" "@),
            group,
            METRICS@[columns.last()]@,
        ).text(" |"@)
    }
}

fn put_metrics(out: &mut Doc, group: &Group, columns: &Vec<usize>)
    requires
        group.failed <= group.runs,
        forall|i: int| 0 <= i < columns.len() ==> (#[trigger] columns@[i]) < 11,
    ensures
        final(out)@ == metric_cells(old(out)@, *group, numbers(columns@)),
{
    let ghost was = out@;
    let ghost all = numbers(columns@);
    for i in 0..columns.len()
        invariant
            group.failed <= group.runs,
            forall|k: int| 0 <= k < columns.len() ==> (#[trigger] columns@[k]) < 11,
            all == numbers(columns@),
            out@ == metric_cells(was, *group, all.take(i as int)),
    {
        proof {
            counting::one_more(all, i as int);
        }
        let at: usize = columns[i];
        out.text(" ");
        cell(out, group, METRICS[at]);
        out.text(" |");
    }
    proof {
        counting::take_all(all);
    }
}

/// Runs whose agent answered without the list of files it was asked for. Those runs are scored,
/// an agent that names nothing found nothing, but a column of zeroes from unanswered questions is
/// not the same measurement as one from wrong answers. Each run says one or zero of it.
pub open spec fn unparsed_of(group: Group) -> nat {
    if group.metrics.names().contains("relied_parsed"@) {
        group.metrics.at("relied_parsed"@).zeros as nat
    } else {
        0
    }
}

pub fn unparsed(group: &Group) -> (n: usize)
    ensures
        n == unparsed_of(*group),
{
    match group.metrics.get("relied_parsed") {
        Some(stat) => stat.zeros,
        None => 0,
    }
}

/// How many runs are behind a row, and how many of them said nothing: a run that failed, and a run
/// whose agent wrote no list of files to score.
pub open spec fn runs_text(group: Group) -> Seq<char> {
    let failed = text::decimal(group.failed as nat) + " failed"@;
    let unread = text::decimal(unparsed_of(group)) + " unparsed"@;
    let runs = text::decimal(group.runs as nat);
    if group.failed > 0 && unparsed_of(group) > 0 {
        runs + " ("@ + failed + ", "@ + unread + ")"@
    } else if group.failed > 0 {
        runs + " ("@ + failed + ")"@
    } else if unparsed_of(group) > 0 {
        runs + " ("@ + unread + ")"@
    } else {
        runs
    }
}

fn counted(n: usize, what: &str) -> (line: String)
    ensures
        line@ == text::decimal(n as nat) + what@,
{
    let mut line: String = text::number(n as u64);
    line.append(what);
    line
}

pub fn runs(group: &Group) -> (line: String)
    ensures
        line@ == runs_text(*group),
{
    let failed: String = counted(group.failed, " failed");
    let missing: usize = unparsed(group);
    let unread: String = counted(missing, " unparsed");
    let mut line: String = text::number(group.runs as u64);
    if group.failed > 0 && missing > 0 {
        line.append(" (");
        line.append(failed.as_str());
        line.append(", ");
        line.append(unread.as_str());
        line.append(")");
    } else if group.failed > 0 {
        line.append(" (");
        line.append(failed.as_str());
        line.append(")");
    } else if missing > 0 {
        line.append(" (");
        line.append(unread.as_str());
        line.append(")");
    }
    line
}

/// The condition as a table names it: the condition, and the model it was asked for where a pass
/// named one. One directory can hold one condition measured at two tiers, and each is a row of its
/// own, so a row has to say which it is.
pub open spec fn condition_text(key: Seq<char>, group: Condition) -> Seq<char> {
    let name = "`"@ + condition_name(key, group) + "`"@;
    match group.model {
        Some(model) => name + " (asked for `"@ + model@ + "`)"@,
        None => name,
    }
}

pub fn condition_cell(key: &str, group: &Condition) -> (line: String)
    ensures
        line@ == condition_text(key@, *group),
{
    let mut line: String = "`".to_owned();
    line.append(condition_of(key, group));
    line.append("`");
    match &group.model {
        Some(model) => {
            line.append(" (asked for `");
            line.append(model.as_str());
            line.append("`)");
        },
        None => {},
    }
    line
}

/// The first `n` rows of the results table.
pub open spec fn result_rows(
    out: DocView,
    conditions: Table<Condition>,
    columns: Seq<int>,
    n: int,
) -> DocView
    decreases n,
{
    if n <= 0 {
        out
    } else {
        let group = conditions.column()[n - 1];
        let front = result_rows(out, conditions, columns, n - 1).text("|"@);
        let named = text_cell(front, condition_text(conditions.names()[n - 1], group));
        let counted = text_cell(named, runs_text(group.overall));
        metric_cells(counted, group.overall, columns).text("\n"@)
    }
}

pub const RESULTS_NOTE: &'static str =
    "\nEvery cell is the mean over the runs, with the sample standard deviation after it where there was more than one run.\n\n";

/// One row per condition, one column per metric anything measured.
pub open spec fn results(out: DocView, conditions: Table<Condition>) -> DocView {
    let shown = columns(|metric: Seq<char>| measured(conditions, metric), 11);
    let out = out.text("## Results\n\n"@).text("|"@);
    let out = text_cell(text_cell(out, "Condition"@), "Runs"@);
    let out = title_cells(out, shown).text("\n"@).text("|"@);
    let out = rules(out, shown.len() as int + 2).text("\n"@);
    result_rows(out, conditions, shown, conditions.names().len() as int).text(RESULTS_NOTE@)
}

/// No group counts more failed runs than runs.
pub open spec fn sound_group(group: Group) -> bool {
    group.failed <= group.runs
}

pub open spec fn sound_groups(conditions: Table<Condition>) -> bool {
    forall|i: int|
        0 <= i < conditions.column().len() ==> sound_group(
            (#[trigger] conditions.column()[i]).overall,
        ) && forall|id: Seq<char>|
            conditions.column()[i].by_query.names().contains(id) ==> sound_group(
                (#[trigger] conditions.column()[i].by_query.at(id)).group,
            )
}

fn results_section(out: &mut Doc, conditions: &Table<Condition>)
    requires
        sound_groups(*conditions),
    ensures
        final(out)@ == results(old(out)@, *conditions),
{
    let columns: Vec<usize> = result_columns(conditions);
    let ghost shown = numbers(columns@);
    let n: usize = conditions.len();
    out.text("## Results\n\n");
    out.text("|");
    put_cell(out, "Condition");
    put_cell(out, "Runs");
    put_titles(out, &columns);
    out.text("\n");
    out.text("|");
    proof {
        columns_are_few(|metric: Seq<char>| measured(*conditions, metric), 11);
    }
    put_rules(out, columns.len() + 2);
    out.text("\n");
    let ghost front = out@;
    for i in 0..n
        invariant
            sound_groups(*conditions),
            n == conditions.names().len(),
            n == conditions.column().len(),
            shown == numbers(columns@),
            forall|k: int| 0 <= k < columns.len() ==> (#[trigger] columns@[k]) < 11,
            out@ == result_rows(front, *conditions, shown, i as int),
    {
        let group: &Condition = conditions.value(i);
        out.text("|");
        let name: String = condition_cell(conditions.name(i).as_str(), group);
        put_cell(out, name.as_str());
        let counted: String = runs(&group.overall);
        put_cell(out, counted.as_str());
        assert(sound_group(conditions.column()[i as int].overall));
        put_metrics(out, &group.overall, &columns);
        out.text("\n");
    }
    out.text(RESULTS_NOTE);
}

proof fn columns_are_few(shown: spec_fn(Seq<char>) -> bool, n: int)
    requires
        0 <= n,
    ensures
        columns(shown, n).len() <= n,
    decreases n,
{
    if n > 0 {
        columns_are_few(shown, n - 1);
    }
}

/// The rows of one query, over the first `n` conditions.
pub open spec fn query_rows(
    out: DocView,
    conditions: Table<Condition>,
    columns: Seq<int>,
    id: Seq<char>,
    n: int,
) -> DocView
    decreases n,
{
    if n <= 0 {
        out
    } else {
        let group = conditions.column()[n - 1];
        let front = query_rows(out, conditions, columns, id, n - 1);
        if group.by_query.names().contains(id) {
            let query = group.by_query.at(id);
            let named = text_cell(front.text("|"@), "`"@ + id + "`"@);
            let labelled = text_cell(named, query.category@);
            let whole = text_cell(labelled, condition_text(conditions.names()[n - 1], group));
            metric_cells(whole, query.group, columns).text("\n"@)
        } else {
            front
        }
    }
}

pub open spec fn all_query_rows(
    out: DocView,
    conditions: Table<Condition>,
    columns: Seq<int>,
    ids: Seq<Seq<char>>,
) -> DocView
    decreases ids.len(),
{
    if ids.len() == 0 {
        out
    } else {
        query_rows(
            all_query_rows(out, conditions, columns, ids.drop_last()),
            conditions,
            columns,
            ids.last(),
            conditions.names().len() as int,
        )
    }
}

pub const QUERIES_NOTE: &'static str =
    "\nThe query column is the gold set's id for the query, and the category its label: the question itself, the pages it wanted and the files any run opened are in the raw rows under the run directory, which is not committed.\n\n";

/// One row per query and condition: the id, the category and the numbers.
pub open spec fn per_query(
    out: DocView,
    conditions: Table<Condition>,
    ids: Seq<Seq<char>>,
) -> DocView {
    let shown = columns(|metric: Seq<char>| measured_by_query(conditions, metric), 11);
    let out = out.text("## Per query\n\n"@).text("|"@);
    let out = text_cell(text_cell(text_cell(out, "Query"@), "Category"@), "Condition"@);
    let out = title_cells(out, shown).text("\n"@).text("|"@);
    let out = rules(out, shown.len() as int + 3).text("\n"@);
    all_query_rows(out, conditions, shown, ids).text(QUERIES_NOTE@)
}

fn per_query_section(out: &mut Doc, conditions: &Table<Condition>, ids: &Vec<String>)
    requires
        sound_groups(*conditions),
    ensures
        final(out)@ == per_query(old(out)@, *conditions, text::texts(ids@)),
{
    let columns: Vec<usize> = query_columns(conditions);
    let ghost shown = numbers(columns@);
    let ghost all = text::texts(ids@);
    let n: usize = conditions.len();
    out.text("## Per query\n\n");
    out.text("|");
    put_cell(out, "Query");
    put_cell(out, "Category");
    put_cell(out, "Condition");
    put_titles(out, &columns);
    out.text("\n");
    out.text("|");
    proof {
        columns_are_few(|metric: Seq<char>| measured_by_query(*conditions, metric), 11);
    }
    put_rules(out, columns.len() + 3);
    out.text("\n");
    let ghost front = out@;
    for q in 0..ids.len()
        invariant
            sound_groups(*conditions),
            n == conditions.names().len(),
            n == conditions.column().len(),
            all == text::texts(ids@),
            shown == numbers(columns@),
            forall|k: int| 0 <= k < columns.len() ==> (#[trigger] columns@[k]) < 11,
            out@ == all_query_rows(front, *conditions, shown, all.take(q as int)),
    {
        proof {
            counting::one_more(all, q as int);
            assert(all[q as int] == ids@[q as int]@);
        }
        let id: &str = ids[q].as_str();
        let ghost before = out@;
        for i in 0..n
            invariant
                sound_groups(*conditions),
                n == conditions.names().len(),
                n == conditions.column().len(),
                shown == numbers(columns@),
                forall|k: int| 0 <= k < columns.len() ==> (#[trigger] columns@[k]) < 11,
                out@ == query_rows(before, *conditions, shown, id@, i as int),
        {
            let group: &Condition = conditions.value(i);
            match group.by_query.get(id) {
                Some(query) => {
                    out.text("|");
                    let mut quoted: String = "`".to_owned();
                    quoted.append(id);
                    quoted.append("`");
                    put_cell(out, quoted.as_str());
                    put_cell(out, query.category.as_str());
                    let name: String = condition_cell(conditions.name(i).as_str(), group);
                    put_cell(out, name.as_str());
                    assert(sound_group(conditions.column()[i as int].by_query.at(id@).group));
                    put_metrics(out, &query.group, &columns);
                    out.text("\n");
                },
                None => {},
            }
        }
    }
    proof {
        counting::take_all(all);
    }
    out.text(QUERIES_NOTE);
}

/// The flags as a reader would type them, back-quoted one by one.
pub open spec fn flags_text(flags: Seq<Seq<char>>) -> Seq<char> {
    if flags.len() == 0 {
        "the defaults"@
    } else {
        text::joined(flags.map_values(|flag: Seq<char>| "`"@ + flag + "`"@), " "@)
    }
}

pub fn flags(list: &Vec<String>) -> (line: String)
    ensures
        line@ == flags_text(text::texts(list@)),
{
    if list.len() == 0 {
        return "the defaults".to_owned();
    }
    let mut quoted: Vec<String> = Vec::new();
    for i in 0..list.len()
        invariant
            quoted.len() == i,
            forall|k: int| 0 <= k < i ==> (#[trigger] quoted@[k])@ == "`"@ + list@[k]@ + "`"@,
    {
        let mut one: String = "`".to_owned();
        one.append(list[i].as_str());
        one.append("`");
        quoted.push(one);
    }
    assert(text::texts(quoted@) =~= text::texts(list@).map_values(
        |flag: Seq<char>| "`"@ + flag + "`"@,
    ));
    text::join(&quoted, " ")
}

/// Lines as markdown quotes them.
pub open spec fn quoted(lines: Seq<Seq<char>>) -> Seq<char>
    decreases lines.len(),
{
    if lines.len() == 0 {
        Seq::empty()
    } else {
        quoted(lines.drop_last()) + "> "@ + lines.last() + "\n"@
    }
}

pub fn quote(s: &str) -> (whole: String)
    ensures
        whole@ == quoted(text::lines(s@)),
{
    let lines: Vec<String> = text::lines_of(s);
    let ghost all = text::texts(lines@);
    let mut whole = String::new();
    for i in 0..lines.len()
        invariant
            all == text::texts(lines@),
            whole@ == quoted(all.take(i as int)),
    {
        proof {
            counting::one_more(all, i as int);
            assert(all[i as int] == lines@[i as int]@);
        }
        whole.append("> ");
        whole.append(lines[i].as_str());
        whole.append("\n");
    }
    proof {
        counting::take_all(all);
    }
    whole
}

/// The cut of the wiki the rows were measured against. Rows from more than one cut are the thing
/// this cannot unpick, and it says so rather than naming one of them as though it were all of
/// them.
pub open spec fn revisions_text(revisions: Seq<Seq<char>>) -> Seq<char> {
    if revisions.len() == 0 {
        "not recorded"@
    } else if revisions.len() == 1 {
        "`"@ + revisions[0] + "`"@
    } else {
        "more than one: the rows were measured against "@ + text::decimal(revisions.len())
            + " cuts"@
    }
}

pub fn revisions(list: &Vec<String>) -> (line: String)
    ensures
        line@ == revisions_text(text::texts(list@)),
{
    assert(text::texts(list@).len() == list.len());
    if list.len() == 0 {
        "not recorded".to_owned()
    } else if list.len() == 1 {
        assert(text::texts(list@)[0] == list@[0]@);
        let mut line: String = "`".to_owned();
        line.append(list[0].as_str());
        line.append("`");
        line
    } else {
        let mut line: String = "more than one: the rows were measured against ".to_owned();
        line.append(text::number(list.len() as u64).as_str());
        line.append(" cuts");
        line
    }
}

/// Whether any measured group runs an agent. It is asked of the group rather than of the key it is
/// filed under, which for a tiered condition names the tier too.
pub open spec fn an_agent_ran(conditions: Table<Condition>) -> bool {
    exists|i: int|
        0 <= i < conditions.column().len() && row::runs_an_agent(
            condition_name(conditions.names()[i], #[trigger] conditions.column()[i]),
        )
}

pub fn agents_ran(conditions: &Table<Condition>) -> (yes: bool)
    ensures
        yes == an_agent_ran(*conditions),
{
    let n: usize = conditions.len();
    for i in 0..n
        invariant
            n == conditions.names().len(),
            n == conditions.column().len(),
            forall|k: int|
                0 <= k < i ==> !row::runs_an_agent(
                    condition_name(conditions.names()[k], #[trigger] conditions.column()[k]),
                ),
    {
        if row::agent_condition(condition_of(conditions.name(i).as_str(), conditions.value(i))) {
            assert(row::runs_an_agent(
                condition_name(conditions.names()[i as int], conditions.column()[i as int]),
            ));
            return true;
        }
    }
    false
}

/// The first `n` models, by how many runs each.
pub open spec fn model_texts(models: Table<usize>, n: int) -> Seq<Seq<char>>
    decreases n,
{
    if n <= 0 {
        Seq::empty()
    } else {
        let runs = models.column()[n - 1];
        model_texts(models, n - 1).push(
            "`"@ + models.names()[n - 1] + "` ("@ + text::decimal(runs as nat) + if runs == 1 {
                " run)"@
            } else {
                " runs)"@
            },
        )
    }
}

/// The tier the numbers were measured at, by how many runs each: read back from the rows rather
/// than from the flag, so it is what answered and not what was asked for. A condition that runs an
/// agent whose rows name no model says so, instead of leaving the reader to guess from the flag.
pub open spec fn models_text(aggregates: Aggregates) -> Seq<char> {
    if aggregates.models.names().len() > 0 {
        text::joined(
            model_texts(aggregates.models, aggregates.models.names().len() as int),
            ", "@,
        )
    } else if an_agent_ran(aggregates.conditions) {
        "not recorded"@
    } else {
        "none: no agent condition ran"@
    }
}

pub fn models(aggregates: &Aggregates) -> (line: String)
    ensures
        line@ == models_text(*aggregates),
{
    let n: usize = aggregates.models.len();
    if n > 0 {
        let mut list: Vec<String> = Vec::new();
        assert(text::texts(list@) =~= Seq::<Seq<char>>::empty());
        for i in 0..n
            invariant
                n == aggregates.models.names().len(),
                n == aggregates.models.column().len(),
                text::texts(list@) == model_texts(aggregates.models, i as int),
        {
            let count: usize = *aggregates.models.value(i);
            let mut one: String = "`".to_owned();
            one.append(aggregates.models.name(i).as_str());
            one.append("` (");
            one.append(text::number(count as u64).as_str());
            one.append(
                if count == 1 {
                    " run)"
                } else {
                    " runs)"
                },
            );
            append_text(&mut list, one.as_str());
        }
        return text::join(&list, ", ");
    }
    if agents_ran(&aggregates.conditions) {
        "not recorded".to_owned()
    } else {
        "none: no agent condition ran".to_owned()
    }
}

/// How many runs produced a row, over the first `n` conditions.
pub open spec fn total_runs(conditions: Table<Condition>, n: int) -> nat
    decreases n,
{
    if n <= 0 {
        0
    } else {
        total_runs(conditions, n - 1) + conditions.column()[n - 1].overall.runs as nat
    }
}

proof fn total_runs_grow(conditions: Table<Condition>, n: int, m: int)
    requires
        0 <= n <= m,
    ensures
        total_runs(conditions, n) <= total_runs(conditions, m),
    decreases m - n,
{
    if n < m {
        total_runs_grow(conditions, n, m - 1);
    }
}

/// How many runs produced a row, over every condition.
pub open spec fn all_runs(conditions: Table<Condition>) -> nat {
    total_runs(conditions, conditions.column().len() as int)
}

pub fn measured_runs(conditions: &Table<Condition>) -> (runs: usize)
    requires
        all_runs(*conditions) <= usize::MAX,
    ensures
        runs == all_runs(*conditions),
{
    let n: usize = conditions.len();
    let mut runs: usize = 0;
    for i in 0..n
        invariant
            n == conditions.column().len(),
            all_runs(*conditions) <= usize::MAX,
            runs == total_runs(*conditions, i as int),
    {
        proof {
            total_runs_grow(*conditions, i + 1, n as int);
        }
        runs += conditions.value(i).overall.runs;
    }
    runs
}

pub const METHOD_INTRO: &'static str =
    "{} queries, {} repeat(s) per condition. A run is one query under one condition; recall and precision are against the gold set's wanted pages, and a run that errored is counted and left out of every average.\n\n";

pub const OWN_MODEL: &'static str =
    "| Agent model | {}'s own: no `--model` flag was passed, so the parent and its subagent each took their default |\n";

pub const UNMEASURED: &'static str =
    "\n{} runs were bought for this directory and {} rows are in it. A run is recorded before it is paid for and its row after it is measured, so a purchase with no row is a run that was bought and left unmeasured.\n";

pub const INHERITED: &'static str =
    "\nThe Explore agent is dispatched by the parent, and on this build it inherits the session's model rather than declaring one of its own: with no model named it takes whatever {} would have used, and with one named it takes that. What answered is recorded per run.\n";

pub const ASKED: &'static str =
    "\nThe agent was asked, with the query and the entry page substituted in:\n\n";

pub const LIST_ASKED: &'static str =
    "\nThe `s1m-agent` condition was asked, with the reading list substituted in:\n\n";

/// Which model answered, and which was asked for. The tier the numbers were measured at is not the
/// same question as what was asked for: the Explore agent inherits the session's model. Where no
/// agent ran there is no model to name and nothing answered.
pub open spec fn model_rows(
    out: DocView,
    method: Method,
    aggregates: Aggregates,
    agent: Seq<char>,
) -> DocView {
    let named = doc::none().push(doc::word(models_text(aggregates)));
    if an_agent_ran(aggregates.conditions) {
        let asked = if method.claude_model@ == run::DEFAULT_MODEL@ {
            out.fill(OWN_MODEL@, doc::none().push(doc::word(agent)))
        } else {
            out.line("| Agent model | `{}` |"@, doc::none().push(doc::word(method.claude_model@)))
        };
        asked.line("| Models measured | {} |"@, named)
    } else {
        out.line("| Agent model | {} |"@, named)
    }
}

/// How many runs were bought, where that is known, and how many measured. Only one direction of
/// difference means a missing measurement: a retried run appends a row of its own.
pub open spec fn bought_rows(out: DocView, aggregates: Aggregates) -> DocView {
    match aggregates.bought {
        Some(bought) => {
            let both = doc::none().push(doc::count(bought as int)).push(
                doc::count(all_runs(aggregates.conditions) as int),
            );
            let counted = out.line("| Runs | {} bought, {} measured |"@, both);
            if bought > all_runs(aggregates.conditions) {
                counted.fill(UNMEASURED@, both)
            } else {
                counted
            }
        },
        None => out,
    }
}

pub open spec fn method_of(
    out: DocView,
    method: Method,
    aggregates: Aggregates,
    agent: Seq<char>,
) -> DocView {
    let out = out.text("## Method\n\n"@);
    let out = out.fill(
        METHOD_INTRO@,
        doc::none().push(doc::count(aggregates.queries as int)).push(
            doc::count(method.repeats as int),
        ),
    );
    let out = out.text("| | |\n| --- | --- |\n"@);
    let out = out.line(
        "| Conditions | {} |"@,
        doc::none().push(doc::word(text::joined(text::texts(method.conditions@), ", "@))),
    );
    let out = model_rows(out, method, aggregates, agent);
    let out = out.line(
        "| Agent flags | {} |"@,
        doc::none().push(doc::word(flags_text(text::texts(method.claude_flags@)))),
    );
    let out = out.line(
        "| s1m flags | {} |"@,
        doc::none().push(doc::word(flags_text(text::texts(method.s1m_flags@)))),
    );
    let out = if method.thoroughness@.len() > 0 {
        out.line(
            "| Explore thoroughness | `{}` |"@,
            doc::none().push(doc::word(method.thoroughness@)),
        )
    } else {
        out
    };
    let out = out.line(
        "| Agent tokens | returned characters at {} a token |"@,
        doc::none().push(doc::count(method.chars_per_token as int)),
    );
    let out = out.line(
        "| Wiki revision | {} |"@,
        doc::none().push(doc::word(revisions_text(text::texts(aggregates.wiki@)))),
    );
    let out = bought_rows(out, aggregates);
    let out = out.fill(INHERITED@, doc::none().push(doc::word(agent))).text(ASKED@).text(
        quoted(text::lines(method.explore_prompt@)),
    );
    let out = if method.s1m_agent_prompt@.len() > 0 {
        out.text(LIST_ASKED@).text(quoted(text::lines(method.s1m_agent_prompt@)))
    } else {
        out
    };
    out.text("\n"@)
}

fn put_model_rows(out: &mut Doc, method: &Method, aggregates: &Aggregates, agent: &str)
    ensures
        final(out)@ == model_rows(old(out)@, *method, *aggregates, agent@),
{
    let named: String = models(aggregates);
    if agents_ran(&aggregates.conditions) {
        if text::same(method.claude_model.as_str(), run::DEFAULT_MODEL) {
            out.fill(OWN_MODEL, args().text(agent));
        } else {
            out.line("| Agent model | `{}` |", args().text(method.claude_model.as_str()));
        }
        out.line("| Models measured | {} |", args().text(named.as_str()));
    } else {
        out.line("| Agent model | {} |", args().text(named.as_str()));
    }
}

fn put_bought_rows(out: &mut Doc, aggregates: &Aggregates)
    requires
        all_runs(aggregates.conditions) <= usize::MAX,
    ensures
        final(out)@ == bought_rows(old(out)@, *aggregates),
{
    match aggregates.bought {
        Some(bought) => {
            let measured: usize = measured_runs(&aggregates.conditions);
            out.line("| Runs | {} bought, {} measured |", args().count(bought).count(measured));
            if bought > measured {
                out.fill(UNMEASURED, args().count(bought).count(measured));
            }
        },
        None => {},
    }
}

pub fn method_section(out: &mut Doc, method: &Method, aggregates: &Aggregates, agent: &str)
    requires
        all_runs(aggregates.conditions) <= usize::MAX,
    ensures
        final(out)@ == method_of(old(out)@, *method, *aggregates, agent@),
{
    out.text("## Method\n\n");
    out.fill(METHOD_INTRO, args().count(aggregates.queries).count(method.repeats));
    out.text("| | |\n| --- | --- |\n");
    let conditions: String = text::join(&method.conditions, ", ");
    out.line("| Conditions | {} |", args().text(conditions.as_str()));
    put_model_rows(out, method, aggregates, agent);
    let agent_flags: String = flags(&method.claude_flags);
    out.line("| Agent flags | {} |", args().text(agent_flags.as_str()));
    let s1m_flags: String = flags(&method.s1m_flags);
    out.line("| s1m flags | {} |", args().text(s1m_flags.as_str()));
    if !method.thoroughness.as_str().is_empty() {
        out.line("| Explore thoroughness | `{}` |", args().text(method.thoroughness.as_str()));
    }
    out.line(
        "| Agent tokens | returned characters at {} a token |",
        args().count(method.chars_per_token),
    );
    let cuts: String = revisions(&aggregates.wiki);
    out.line("| Wiki revision | {} |", args().text(cuts.as_str()));
    put_bought_rows(out, aggregates);
    out.fill(INHERITED, args().text(agent));
    out.text(ASKED);
    let prompt: String = quote(method.explore_prompt.as_str());
    out.text(prompt.as_str());
    if !method.s1m_agent_prompt.as_str().is_empty() {
        out.text(LIST_ASKED);
        let prompt: String = quote(method.s1m_agent_prompt.as_str());
        out.text(prompt.as_str());
    }
    out.text("\n");
}

pub const CAVEATS: [&'static str; 15] = [
    "Recall and precision are against one gold set, written by reading the wiki. A page that is useful and unlisted costs precision, so precision is a lower bound.",
    "The Explore condition's parent is stopped from exploring by a hook that refuses its own reads, so that what is measured is the subagent. *Parent tools* counts the parent's tool calls and *Parent blocked* the ones the hook refused; a parent that read anything the hook let through would be work counted as the Explore agent's.",
    "The Explore condition is scored on the files the agent said it relied on. The files it actually opened are counted separately, and the two are not the same set: an agent reads more than it cites.",
    "The agent's tokens are what {} billed the subagent for, summed over its turns from its own transcript, cache reads and cache writes included. The parent agent's tokens are reported beside them and are not part of the subagent's figure.",
    "Cost is what the CLI priced the whole run at, parent included. A subagent's share of it is apportioned by tokens, which is an estimate and not a price.",
    "Jev's input tokens are of the same order as an exploring agent's: it reads every page the walk visits whole, plus a preview of each of that page's links. What differs is the price of a token and the cache — a judgment already bought is not bought again, and a warm run reads nothing at all.",
    "s1m's tokens are the characters in the ranges it returned, counted at the rate in the method table. Nothing here tokenises, and an agent that opens a returned file whole reads more than that.",
    "The agent token columns and s1m's are not the same quantity. An agent's are what it was billed for, which includes its system prompt, its tool definitions and every tool result it read; s1m's are the characters of wiki text it asked for. The comparison that puts them on one footing is `s1m-agent` against `explore`.",
    "The `s1m-agent` condition's cost is the agent's plus what the reading list it was handed cost to buy, so the two agent conditions are priced on the same footing. A warm s1m run has bought nothing and adds nothing; the cold run is where a list's price shows.",
    "An agent that answered without the list of files it was asked for is counted as unparsed beside the failure count. Those runs are still scored, and they score zero, so a condition with unparsed answers is reading lower than it looked.",
    "Wall time is one machine on one network, and the agent condition depends on a service whose latency is not ours.",
    "The two conditions are not the same shape of work: s1m returns a reading list and answers nothing, the agent reads until it can answer. The `s1m-agent` condition is the one that compares like with like.",
    "The method table is read back from the rows and not from the command that wrote them, so a pass that resumes a directory describes the rows in it. The wiki revision it names is a hash of the pages the walk reads; rows measured against more than one cut are named as more than one, and which row came from which cut is in the raw rows.",
    "The results table is a row per condition and tier, so a directory holding one condition measured at two models is two rows and not one average of both. The tier a row names is the model its pass asked for; what actually answered is counted in the method table, and the two are not always the same.",
    "A run is recorded when it is bought and its row when it has been measured, so *Runs* counts both: a directory with more runs bought than rows holds a run that was paid for and never measured, and one with more rows than runs holds a retried run, whose second attempt is a row of its own and not a new purchase.",
];

/// The first `n` caveats, one to a line.
pub open spec fn caveat_lines(out: DocView, n: int, agent: Seq<char>) -> DocView
    decreases n,
{
    if n <= 0 {
        out
    } else {
        caveat_lines(out, n - 1, agent).text("- "@).fill(
            CAVEATS@[n - 1]@,
            doc::none().push(doc::word(agent)),
        ).text("\n"@)
    }
}

pub fn caveats_section(out: &mut Doc, agent: &str)
    ensures
        final(out)@ == caveat_lines(old(out)@.text("## Caveats\n\n"@), 15, agent@),
{
    out.text("## Caveats\n\n");
    let ghost was = out@;
    for i in 0..15usize
        invariant
            out@ == caveat_lines(was, i as int, agent@),
    {
        out.text("- ");
        out.fill(CAVEATS[i], args().text(agent));
        out.text("\n");
    }
}

pub const TITLE: &'static str =
    "# Evaluation: a reading list against an agent that explores\n\ns1m hands an agent a ranked reading list; a {} Explore agent opens the wiki and looks. This is what each is worth on one wiki, in numbers only: the wiki, the queries and the pages they name stay out of this file, so it can be published about a wiki that cannot be.\n\n";

/// The report, its queries being `ids` and its agents those of the program named `agent`.
pub open spec fn report_of(
    aggregates: Aggregates,
    stats: Option<GraphStats>,
    method: Method,
    agent: Seq<char>,
    ids: Seq<Seq<char>>,
) -> DocView {
    let out = DocView::empty().fill(TITLE@, doc::none().push(doc::word(agent)));
    let out = match stats {
        Some(stats) => graph::table_rows(out.text("## The wiki\n\n"@), stats).text("\n"@),
        None => out,
    };
    let out = method_of(out, method, aggregates, agent);
    let out = results(out, aggregates.conditions);
    let out = per_query(out, aggregates.conditions, ids);
    caveat_lines(out.text("## Caveats\n\n"@), 15, agent)
}

/// The counts that a report adds up fit in machine words, and its degree histograms have their
/// buckets.
pub open spec fn printable(aggregates: Aggregates, stats: Option<GraphStats>) -> bool {
    &&& sound_groups(aggregates.conditions)
    &&& all_runs(aggregates.conditions) <= usize::MAX
    &&& stats matches Some(stats) ==> stats.out_degree.histogram.len() == graph::degrees::BUCKETS
        && stats.in_degree.histogram.len() == graph::degrees::BUCKETS
}

/// Renders the report, or says which label stopped it.
pub fn render(
    aggregates: &Aggregates,
    stats: Option<&GraphStats>,
    method: &Method,
    agent: &str,
) -> (report: Result<Doc, String>)
    requires
        printable(
            *aggregates,
            match stats {
                Some(stats) => Some(*stats),
                None => None,
            },
        ),
    ensures
        ({
            let wiki = match stats {
                Some(stats) => Some(*stats),
                None => None,
            };
            exists|ids: Seq<Seq<char>>| #[trigger]
                are_ids(aggregates.conditions, ids) && match report {
                    Ok(doc) => report_fault(*aggregates, wiki, *method, ids) is None && doc@
                        == report_of(*aggregates, wiki, *method, agent@, ids),
                    Err(why) => report_fault(*aggregates, wiki, *method, ids) == Some(why@),
                }
        }),
{
    let ids: Vec<String> = ids_of(&aggregates.conditions);
    let ghost wiki = match stats {
        Some(stats) => Some(*stats),
        None => None,
    };
    let ghost names = text::texts(ids@);
    assert(are_ids(aggregates.conditions, names));
    match check(method) {
        Some(why) => {
            assert(report_fault(*aggregates, wiki, *method, names) == Some(why@));
            return Err(why);
        },
        None => {},
    }
    match check_aggregates(aggregates) {
        Some(why) => {
            assert(report_fault(*aggregates, wiki, *method, names) == Some(why@));
            return Err(why);
        },
        None => {},
    }
    match stats {
        Some(stats) => {
            match check_stats(stats) {
                Some(why) => {
                    assert(report_fault(*aggregates, wiki, *method, names) == Some(why@));
                    return Err(why);
                },
                None => {},
            }
        },
        None => {},
    }
    let shown: Vec<String> = labels_of_results(&aggregates.conditions);
    match check_labels(&shown) {
        Some(why) => {
            assert(report_fault(*aggregates, wiki, *method, names) == Some(why@));
            return Err(why);
        },
        None => {},
    }
    let asked: Vec<String> = labels_of_queries(&aggregates.conditions, &ids);
    match check_labels(&asked) {
        Some(why) => {
            assert(report_fault(*aggregates, wiki, *method, names) == Some(why@));
            return Err(why);
        },
        None => {},
    }
    let mut out = Doc::new();
    out.fill(TITLE, args().text(agent));
    match stats {
        Some(stats) => {
            out.text("## The wiki\n\n");
            graph::put_table(&mut out, stats);
            out.text("\n");
        },
        None => {},
    }
    method_section(&mut out, method, aggregates, agent);
    results_section(&mut out, &aggregates.conditions);
    per_query_section(&mut out, &aggregates.conditions, &ids);
    caveats_section(&mut out, agent);
    assert(out@ == report_of(*aggregates, wiki, *method, agent@, names));
    Ok(out)
}

/// What a label that may be printed is: no path, no longer than a label, and no sentence.
pub open spec fn is_label(label: Seq<char>) -> bool {
    !path_like(label) && label.len() <= LABEL_LIMIT && text::word_count(label) <= WORD_LIMIT
}

proof fn passed(labels: Seq<Seq<char>>)
    requires
        labels_fault(labels) is None,
    ensures
        forall|i: int| 0 <= i < labels.len() ==> is_label(#[trigger] labels[i]),
    decreases labels.len(),
{
    if labels.len() > 0 {
        passed(labels.drop_last());
        assert forall|i: int| 0 <= i < labels.len() implies is_label(#[trigger] labels[i]) by {
            if i < labels.len() - 1 {
                assert(labels.drop_last()[i] == labels[i]);
            }
        }
    }
}

/// A report that is printed names no file: every condition, tier, query id, category, model and
/// flag in it is a label and not a path or a sentence.
pub proof fn a_report_names_no_file(
    aggregates: Aggregates,
    stats: Option<GraphStats>,
    method: Method,
    ids: Seq<Seq<char>>,
)
    requires
        report_fault(aggregates, stats, method, ids) is None,
    ensures
        forall|i: int|
            0 <= i < method_labels(method).len() ==> is_label(#[trigger] method_labels(method)[i]),
        forall|i: int|
            0 <= i < aggregates.models.names().len() ==> is_label(
                #[trigger] aggregates.models.names()[i],
            ),
        ({
            let labels = result_labels(
                aggregates.conditions,
                aggregates.conditions.names().len() as int,
            );
            forall|i: int| 0 <= i < labels.len() ==> is_label(#[trigger] labels[i])
        }),
        ({
            let labels = all_query_labels(aggregates.conditions, ids);
            forall|i: int| 0 <= i < labels.len() ==> is_label(#[trigger] labels[i])
        }),
        stats matches Some(stats) ==> stats_fault(stats) is None,
{
    passed(method_labels(method));
    passed(aggregates.models.names());
    passed(
        result_labels(aggregates.conditions, aggregates.conditions.names().len() as int),
    );
    passed(all_query_labels(aggregates.conditions, ids));
}

impl Method {
    /// The method the rows describe.
    ///
    /// A resumed pass writes aggregates for every row in its directory, those of an earlier pass
    /// among them, so what the table says about them has to be read back from them: the
    /// conditions, the repeats and the model asked for are the rows' own. The flags, the prompts
    /// and the thoroughness are constants rather than anything a row holds.
    pub fn from_rows(rows: &Vec<Row>) -> (method: Method)
        requires
            forall|i: int| 0 <= i < rows.len() ==> (#[trigger] rows@[i]).repeat < usize::MAX,
        ensures
            ordered::ascending(text::texts(method.conditions@)),
            forall|name: Seq<char>| #[trigger]
                text::texts(method.conditions@).contains(name) == exists|i: int|
                    0 <= i < rows.len() && (#[trigger] rows@[i]).condition@ == name,
            forall|i: int| 0 <= i < rows.len() ==> (#[trigger] rows@[i]).repeat < method.repeats,
            method.repeats > 0 ==> exists|i: int|
                0 <= i < rows.len() && (#[trigger] rows@[i]).repeat + 1 == method.repeats,
            exists|asked: Seq<Seq<char>>| #[trigger]
                are_asked(rows@, asked) && method.claude_model@ == if asked.len() == 0 {
                    run::DEFAULT_MODEL@
                } else {
                    text::joined(asked, ", "@)
                },
            text::texts(method.claude_flags@) == run::agent_flags(),
            text::texts(method.s1m_flags@) == run::walk_flags(),
            method.explore_prompt@ == run::EXPLORE_PROMPT@,
            method.s1m_agent_prompt@ == run::S1M_AGENT_PROMPT@,
            method.thoroughness@ == run::THOROUGHNESS@,
            method.chars_per_token == reading::CHARS_PER_TOKEN,
    {
        let mut conditions: Vec<String> = Vec::new();
        let mut asked: Vec<String> = Vec::new();
        let mut repeats: usize = 0;
        assert(text::texts(conditions@) =~= Seq::<Seq<char>>::empty());
        assert(text::texts(asked@) =~= Seq::<Seq<char>>::empty());
        for i in 0..rows.len()
            invariant
                forall|k: int| 0 <= k < rows.len() ==> (#[trigger] rows@[k]).repeat < usize::MAX,
                ordered::ascending(text::texts(conditions@)),
                forall|name: Seq<char>| #[trigger]
                    text::texts(conditions@).contains(name) == exists|k: int|
                        0 <= k < i && (#[trigger] rows@[k]).condition@ == name,
                forall|k: int| 0 <= k < i ==> (#[trigger] rows@[k]).repeat < repeats,
                repeats > 0 ==> exists|k: int|
                    0 <= k < i && (#[trigger] rows@[k]).repeat + 1 == repeats,
                ordered::ascending(text::texts(asked@)),
                forall|name: Seq<char>| #[trigger]
                    text::texts(asked@).contains(name) == exists|k: int|
                        0 <= k < i && json::text_of((#[trigger] rows@[k]).model_asked_for) == Some(
                            name,
                        ),
        {
            let ghost had = text::texts(conditions@);
            let ghost names = text::texts(asked@);
            ordered::add(&mut conditions, rows[i].condition.clone());
            if rows[i].repeat + 1 > repeats {
                repeats = rows[i].repeat + 1;
                assert(rows@[i as int].repeat + 1 == repeats);
            }
            match &rows[i].model_asked_for {
                Some(model) => ordered::add(&mut asked, model.clone()),
                None => {},
            }
            proof {
                assert forall|name: Seq<char>| #[trigger]
                    text::texts(conditions@).contains(name) == exists|k: int|
                        0 <= k < i + 1 && (#[trigger] rows@[k]).condition@ == name by {
                    assert(had.contains(name) == exists|k: int|
                        0 <= k < i && (#[trigger] rows@[k]).condition@ == name);
                    if name == rows@[i as int].condition@ {
                        assert(rows@[i as int].condition@ == name);
                    }
                }
                assert forall|name: Seq<char>| #[trigger]
                    text::texts(asked@).contains(name) == exists|k: int|
                        0 <= k < i + 1 && json::text_of((#[trigger] rows@[k]).model_asked_for)
                            == Some(name) by {
                    assert(names.contains(name) == exists|k: int|
                        0 <= k < i && json::text_of((#[trigger] rows@[k]).model_asked_for) == Some(
                            name,
                        ));
                    if json::text_of(rows@[i as int].model_asked_for) == Some(name) {
                        assert(json::text_of(rows@[i as int].model_asked_for) == Some(name));
                    }
                }
            }
        }
        assert(text::texts(asked@).len() == asked.len());
        let claude_model: String = if asked.len() == 0 {
            run::DEFAULT_MODEL.to_owned()
        } else {
            text::join(&asked, ", ")
        };
        let method = Method {
            repeats,
            conditions,
            claude_model,
            claude_flags: run::method_flags(),
            s1m_flags: run::s1m_flags(),
            explore_prompt: run::EXPLORE_PROMPT.to_owned(),
            s1m_agent_prompt: run::S1M_AGENT_PROMPT.to_owned(),
            thoroughness: run::THOROUGHNESS.to_owned(),
            chars_per_token: reading::CHARS_PER_TOKEN,
        };
        assert(are_asked(rows@, text::texts(asked@)));
        method
    }
}

/// The models that rows were asked for, in order. Rows that disagree are a directory two passes
/// measured into, and naming both beats naming one of them.
pub open spec fn are_asked(rows: Seq<Row>, asked: Seq<Seq<char>>) -> bool {
    &&& ordered::ascending(asked)
    &&& forall|name: Seq<char>| #[trigger]
        asked.contains(name) == exists|i: int|
            0 <= i < rows.len() && json::text_of((#[trigger] rows[i]).model_asked_for) == Some(
                name,
            )
}

} // verus!
