//! What a pass promises: which runs it owes, what each is made with, and what is kept of it.

use vstd::prelude::*;

use crate::counting;
use crate::doc::Num;
use crate::gold;
use crate::gold::{Fault, Query};
use crate::json;
use crate::json::JsonView;
use crate::laws::basics;
use crate::laws::stream::number_at;
use crate::ledger;
use crate::ledger::{EntryView, Id};
use crate::pass;
use crate::pass::{Outcome, Work};
use crate::paths;
use crate::row;
use crate::row::Row;
use crate::run;
use crate::run::{Job, JobView, Plan};
use crate::text;

verus! {

/// A pass plans a run for every query, repeat and condition, and for `s1m` one more, bought cold,
/// at each repeat that is to be measured cold too; and nothing else.
pub proof fn a_pass_plans_every_run(ids: Seq<Seq<char>>, plan: Plan, job: JobView)
    ensures
        run::planned(ids, plan, job) == (0 <= job.query < ids.len() && 0 <= job.repeat
            < plan.repeats && (plan.conditions.contains(job.condition) || (job.condition
            == "s1m-cold"@ && job.repeat < plan.cold_repeats && plan.conditions.contains(
            "s1m"@,
        )))),
{
    reveal_strlit("s1m");
    reveal_strlit("-cold");
    reveal_strlit("s1m-cold");
    assert("s1m"@ + "-cold"@ =~= "s1m-cold"@);
    let condition = job.condition;
    assert forall|c: Seq<char>| #[trigger]
        run::variants(c, job.repeat, plan.cold_repeats).contains(condition) == (c == condition || (c
            == "s1m"@ && job.repeat < plan.cold_repeats && condition == "s1m-cold"@)) by {
        let list = run::variants(c, job.repeat, plan.cold_repeats);
        if c == condition {
            assert(list[list.len() - 1] == condition);
        }
        if c == "s1m"@ && job.repeat < plan.cold_repeats && condition == "s1m-cold"@ {
            assert(list[0] == condition);
        }
    }
    if 0 <= job.query < ids.len() && 0 <= job.repeat < plan.repeats {
        if run::planned(ids, plan, job) {
            let c = choose|c: int|
                0 <= c < plan.conditions.len() && run::variants(
                    #[trigger] plan.conditions[c],
                    job.repeat,
                    plan.cold_repeats,
                ).contains(condition);
            assert(plan.conditions.contains(plan.conditions[c]));
        }
        if plan.conditions.contains(condition) {
            let c = choose|c: int|
                0 <= c < plan.conditions.len() && plan.conditions[c] == condition;
            assert(run::variants(plan.conditions[c], job.repeat, plan.cold_repeats).contains(
                condition,
            ));
        }
        if condition == "s1m-cold"@ && job.repeat < plan.cold_repeats && plan.conditions.contains(
            "s1m"@,
        ) {
            let c = choose|c: int| 0 <= c < plan.conditions.len() && plan.conditions[c] == "s1m"@;
            assert(run::variants(plan.conditions[c], job.repeat, plan.cold_repeats).contains(
                condition,
            ));
        }
    }
}

/// A pass owes every run that it plans and that no row and no settled entry of the ledger is of,
/// and no other: a row of the same wiki, query, condition and repeat, or an entry of them and of
/// the model, which only a run of an agent has.
pub proof fn a_pass_owes_what_is_neither_measured_nor_settled(
    ids: Seq<Seq<char>>,
    plan: Plan,
    rows: Seq<Row>,
    entries: Seq<EntryView>,
    wiki: Seq<char>,
    model: Option<Seq<char>>,
    job: JobView,
)
    requires
        0 <= plan.repeats,
        pass::are_done(rows, wiki, plan.done),
    ensures
        pass::unsettled(
            run::owed(ids, plan, ids.len() as int),
            ids,
            entries,
            wiki,
            model,
        ).contains(job) == (run::planned(ids, plan, job) && !(exists|i: int|
            0 <= i < rows.len() && (#[trigger] rows[i]).wiki@ == wiki && rows[i].query_id@
                == ids[job.query] && rows[i].condition@ == job.condition && rows[i].repeat
                == job.repeat) && !(exists|i: int|
            0 <= i < entries.len() && (#[trigger] entries[i]).ok is Some && entries[i].id.key.wiki
                == wiki && entries[i].id.key.query == ids[job.query] && entries[i].id.key.condition
                == job.condition && entries[i].id.key.repeat == job.repeat && entries[i].id.model
                == if job.condition == "explore"@ || job.condition == "s1m-agent"@ {
                model
            } else {
                None
            })),
{
    pass::a_run_is_bought_once(ids, plan, rows, entries, wiki, model, job);
}

/// The runs that a pass owes are in the order of the queries, and those of a query in the order of
/// the repeats.
pub proof fn runs_are_owed_by_query_and_repeat(ids: Seq<Seq<char>>, plan: Plan)
    ensures
        forall|i: int, j: int|
            0 <= i < j < run::owed(ids, plan, ids.len() as int).len() ==> {
                let (a, b) = (
                    #[trigger] run::owed(ids, plan, ids.len() as int)[i],
                    #[trigger] run::owed(ids, plan, ids.len() as int)[j],
                );
                a.query < b.query || (a.query == b.query && a.repeat <= b.repeat)
            },
{
    owed_in_order(ids, plan, ids.len() as int);
}

/// Whether runs are in order, up to a query and a repeat of it.
spec fn up_to(jobs: Seq<JobView>, query: int, repeat: int) -> bool {
    &&& forall|i: int, j: int|
        0 <= i < j < jobs.len() ==> {
            let (a, b) = (#[trigger] jobs[i], #[trigger] jobs[j]);
            a.query < b.query || (a.query == b.query && a.repeat <= b.repeat)
        }
    &&& forall|i: int|
        0 <= i < jobs.len() ==> (#[trigger] jobs[i]).query < query || (jobs[i].query == query
            && jobs[i].repeat <= repeat)
}

proof fn repeat_in_order(
    jobs: Seq<JobView>,
    plan: Plan,
    id: Seq<char>,
    query: int,
    repeat: int,
    n: int,
)
    requires
        up_to(jobs, query, repeat),
    ensures
        up_to(run::with_repeat(jobs, plan, id, query, repeat, n), query, repeat),
    decreases n,
{
    if n > 0 {
        repeat_in_order(jobs, plan, id, query, repeat, n - 1);
    }
}

proof fn query_in_order(jobs: Seq<JobView>, plan: Plan, id: Seq<char>, query: int, n: int)
    requires
        up_to(jobs, query, -1),
        forall|i: int| 0 <= i < jobs.len() ==> (#[trigger] jobs[i]).query < query,
    ensures
        up_to(run::with_query(jobs, plan, id, query, n), query, n - 1) || n <= 0,
        n <= 0 ==> run::with_query(jobs, plan, id, query, n) == jobs,
    decreases n,
{
    if n > 0 {
        query_in_order(jobs, plan, id, query, n - 1);
        let before = run::with_query(jobs, plan, id, query, n - 1);
        assert(up_to(before, query, n - 1)) by {
            if n - 1 > 0 {
                assert(up_to(before, query, n - 2));
            }
        }
        repeat_in_order(before, plan, id, query, n - 1, plan.conditions.len() as int);
    }
}

proof fn owed_in_order(ids: Seq<Seq<char>>, plan: Plan, n: int)
    ensures
        up_to(run::owed(ids, plan, n), n, -1),
        forall|i: int|
            0 <= i < run::owed(ids, plan, n).len() ==> (#[trigger] run::owed(
                ids,
                plan,
                n,
            )[i]).query < n,
    decreases n,
{
    if n > 0 {
        owed_in_order(ids, plan, n - 1);
        let before = run::owed(ids, plan, n - 1);
        query_in_order(before, plan, ids[n - 1], n - 1, plan.repeats);
    }
}

/// Each condition's runs do what it is named for.
pub proof fn a_condition_does_what_it_is_named_for(condition: Seq<char>)
    ensures
        (pass::work_named(condition) == Some(Work::Explore)) == (condition == "explore"@),
        (pass::work_named(condition) == Some(Work::ColdWalk)) == (condition == "s1m-cold"@),
        (pass::work_named(condition) == Some(Work::ReadList)) == (condition == "s1m-agent"@),
        (pass::work_named(condition) == Some(Work::Walk)) == (condition == "s1m"@
            || row::threshold_named(condition) is Some),
{
    assert("explore"@.len() == 7 && "explore"@[0] == 'e') by {
        reveal_strlit("explore");
    }
    assert("s1m"@.len() == 3) by {
        reveal_strlit("s1m");
    }
    assert("s1m-cold"@.len() == 8 && "s1m-cold"@[4] == 'c') by {
        reveal_strlit("s1m-cold");
    }
    assert("s1m-agent"@.len() == 9 && "s1m-agent"@[4] == 'a') by {
        reveal_strlit("s1m-agent");
    }
    assert("s1m-t"@.len() == 5 && "s1m-t"@[0] == 's' && "s1m-t"@[4] == 't') by {
        reveal_strlit("s1m-t");
    }
    if text::stands_at(condition, "s1m-t"@, 0) {
        assert(condition.subrange(0, 5)[0] == condition[0]);
        assert(condition.subrange(0, 5)[4] == condition[4]);
    }
}

/// A threshold is named by what follows `s1m-t`: digits with at most one point among them, at least
/// one digit; and what is named is just that.
pub proof fn a_threshold_is_what_follows(figure: Seq<char>)
    ensures
        row::threshold_named("s1m-t"@ + figure) == if (exists|i: int|
            0 <= i < figure.len() && '0' <= #[trigger] figure[i] <= '9') && (forall|i: int|
            0 <= i < figure.len() ==> '0' <= #[trigger] figure[i] <= '9' || figure[i] == '.')
            && counting::how_many(figure, |c: char| c == '.') <= 1 {
            Some(figure)
        } else {
            None
        },
{
    reveal_strlit("s1m-t");
    let whole = "s1m-t"@ + figure;
    assert(whole.skip(5) =~= figure);
    assert(whole.subrange(0, 5) =~= "s1m-t"@);
    points_are_apart(figure);
    if exists|i: int| 0 <= i < figure.len() && '0' <= #[trigger] figure[i] <= '9' {
        let i = choose|i: int| 0 <= i < figure.len() && '0' <= #[trigger] figure[i] <= '9';
        assert(row::is_digit(figure[i]));
    }
    if forall|i: int|
        0 <= i < figure.len() ==> row::is_digit(#[trigger] figure[i]) || figure[i] == '.' {
        assert forall|i: int| 0 <= i < figure.len() implies '0' <= #[trigger] figure[i] <= '9'
            || figure[i] == '.' by {
            assert(row::is_digit(figure[i]) || figure[i] == '.');
        }
    }
}

proof fn points_are_apart(s: Seq<char>)
    ensures
        (counting::how_many(s, |c: char| c == '.') <= 1) == (forall|i: int, j: int|
            0 <= i < j < s.len() ==> !(#[trigger] s[i] == '.' && #[trigger] s[j] == '.')),
        (counting::how_many(s, |c: char| c == '.') == 0) == (forall|i: int|
            0 <= i < s.len() ==> #[trigger] s[i] != '.'),
    decreases s.len(),
{
    let test = |c: char| c == '.';
    if s.len() > 0 {
        let n = s.len() - 1;
        let front = s.drop_last();
        points_are_apart(front);
        assert(forall|i: int| 0 <= i < n ==> front[i] == s[i]);
        if counting::how_many(s, test) == 0 {
            assert forall|i: int| 0 <= i < s.len() implies #[trigger] s[i] != '.' by {
                if i < n {
                    assert(front[i] != '.');
                }
            }
        }
        if forall|i: int| 0 <= i < s.len() ==> #[trigger] s[i] != '.' {
            assert(s[n] != '.');
            assert forall|i: int| 0 <= i < front.len() implies #[trigger] front[i] != '.' by {
                assert(s[i] != '.');
            }
        }
        if counting::how_many(s, test) <= 1 {
            assert forall|i: int, j: int| 0 <= i < j < s.len() implies !(#[trigger] s[i] == '.'
                && #[trigger] s[j] == '.') by {
                if j < n {
                    assert(!(front[i] == '.' && front[j] == '.'));
                } else if s[n] == '.' {
                    assert(front[i] != '.');
                }
            }
        }
        if forall|i: int, j: int|
            0 <= i < j < s.len() ==> !(#[trigger] s[i] == '.' && #[trigger] s[j] == '.') {
            assert forall|i: int, j: int| 0 <= i < j < front.len() implies !(#[trigger] front[i]
                == '.' && #[trigger] front[j] == '.') by {
                assert(!(s[i] == '.' && s[j] == '.'));
            }
            if s[n] == '.' {
                assert forall|i: int| 0 <= i < front.len() implies #[trigger] front[i] != '.' by {
                    assert(!(s[i] == '.' && s[n] == '.'));
                }
            }
        }
    }
}

/// A row says what became of a run: which it was, and what was measured of one that worked; one
/// that failed has no numbers.
pub proof fn a_row_says_what_became_of_a_run(
    query: Query,
    job: Job,
    wiki: Seq<char>,
    model: Option<Seq<char>>,
    outcome: Outcome,
    found: Row,
)
    requires
        pass::records(query, job, wiki, model, outcome, found),
    ensures
        found.query_id@ == query.id@,
        found.condition@ == job.condition@,
        found.repeat == job.repeat,
        found.wiki@ == wiki,
        match found.model_asked_for {
            Some(asked) => model == Some(asked@),
            None => model is None,
        },
        found.category@ == match query.category {
            Some(category) => category@,
            None => "uncategorised"@,
        },
        outcome matches Outcome::Measured { metrics, models, detail } ==> found.ok && found.metrics
            == metrics && found.models == models && found.detail == Some(detail),
        outcome matches Outcome::Failed { detail } ==> !found.ok && found.metrics.names().len() == 0
            && found.models.len() == 0 && found.detail == Some(detail),
{
}

proof fn the_last_walk(rows: Seq<Row>, id: Seq<char>, at: int)
    requires
        0 <= at < rows.len(),
        pass::is_walk_of(rows[at], id),
        forall|k: int| at < k < rows.len() ==> !pass::is_walk_of(#[trigger] rows[k], id),
    ensures
        pass::last_walk(rows, id) == Some(rows[at]),
    decreases rows.len(),
{
    if at < rows.len() - 1 {
        let front = rows.drop_last();
        assert(!pass::is_walk_of(rows[rows.len() - 1], id));
        assert forall|k: int| at < k < front.len() implies !pass::is_walk_of(
            #[trigger] front[k],
            id,
        ) by {
            assert(front[k] == rows[k]);
        }
        the_last_walk(front, id, at);
    }
}

/// The reading list that an agent is handed is that of the last walk of the query that worked: the
/// texts of its files, in order.
pub proof fn an_agent_is_handed_the_last_list(
    rows: Seq<Row>,
    id: Seq<char>,
    at: int,
    detail: Seq<char>,
    items: Seq<Seq<char>>,
)
    requires
        0 <= at < rows.len(),
        rows[at].query_id@ == id && rows[at].condition@ == "s1m"@ && rows[at].ok,
        forall|k: int|
            at < k < rows.len() ==> !((#[trigger] rows[k]).query_id@ == id && rows[k].condition@
                == "s1m"@ && rows[k].ok),
        rows[at].detail is Some && rows[at].detail->0@ == detail,
        json::json_at(detail, "/files"@) == JsonView::List(items),
    ensures
        pass::files_returned(rows, id) == Some(
            basics::gathered(
                items,
                |item: Seq<char>|
                    match json::json_at(item, ""@) {
                        JsonView::Text(file) => Some(file),
                        _ => None,
                    },
            ),
        ),
{
    the_last_walk(rows, id, at);
    texts_are_gathered(items);
}

proof fn texts_are_gathered(items: Seq<Seq<char>>)
    ensures
        pass::texts_among(items) == basics::gathered(
            items,
            |item: Seq<char>|
                match json::json_at(item, ""@) {
                    JsonView::Text(file) => Some(file),
                    _ => None,
                },
        ),
    decreases items.len(),
{
    if items.len() > 0 {
        texts_are_gathered(items.drop_last());
    }
}

/// What a cold walk bought is the sum over the answers it stored, and what is merged is what the
/// shared cache does not hold yet, in order.
pub proof fn what_was_bought_adds_up(
    stored: Seq<Seq<char>>,
    pointer: Seq<char>,
    names: Seq<Seq<char>>,
    held: Seq<Seq<char>>,
)
    ensures
        pass::spent_at(stored, pointer) == counting::total(
            stored,
            |one: Seq<char>| number_at(one, pointer),
        ),
        pass::absent(names, held) == basics::gathered(
            names,
            |name: Seq<char>|
                if held.contains(name) {
                    None
                } else {
                    Some(name)
                },
        ),
    decreases stored.len() + names.len(),
{
    if stored.len() > 0 {
        what_was_bought_adds_up(stored.drop_last(), pointer, names, held);
    } else if names.len() > 0 {
        what_was_bought_adds_up(stored, pointer, names.drop_last(), held);
    }
    if names.len() > 0 {
        what_was_bought_adds_up(stored.take(0), pointer, names.drop_last(), held);
    }
}

/// A command quotes the last line that says anything, no more than two hundred characters of it.
pub proof fn the_last_line_that_says_something_is_quoted(output: Seq<char>, at: int)
    requires
        0 <= at < text::lines(output).len(),
        !text::blank(text::lines(output)[at]),
        forall|k: int|
            at < k < text::lines(output).len() ==> text::blank(#[trigger] text::lines(output)[k]),
    ensures
        text::lines(output)[at].len() <= 200 ==> pass::tail_of(output) == text::lines(output)[at],
        text::lines(output)[at].len() > 200 ==> pass::tail_of(output) == text::lines(
            output,
        )[at].take(200),
{
    last_said_is(text::lines(output), at);
}

proof fn last_said_is(lines: Seq<Seq<char>>, at: int)
    requires
        0 <= at < lines.len(),
        !text::blank(lines[at]),
        forall|k: int| at < k < lines.len() ==> text::blank(#[trigger] lines[k]),
    ensures
        pass::last_said(lines) == Some(lines[at]),
    decreases lines.len(),
{
    if at < lines.len() - 1 {
        let front = lines.drop_last();
        assert(text::blank(lines[lines.len() - 1]));
        assert forall|k: int| at < k < front.len() implies text::blank(#[trigger] front[k]) by {
            assert(front[k] == lines[k]);
        }
        last_said_is(front, at);
    }
}

/// Every line of a file that is not blank is read, with its number counted from one.
pub proof fn lines_are_numbered_from_one(lines: Seq<Seq<char>>, line: Seq<char>)
    ensures
        text::blank(line) ==> pass::said_lines(lines.push(line)) == pass::said_lines(lines),
        !text::blank(line) ==> pass::said_lines(lines.push(line)) == pass::said_lines(lines).push(
            (lines.len() as int + 1, line),
        ),
        pass::said_lines(Seq::empty()).len() == 0,
{
    assert(lines.push(line).drop_last() =~= lines);
}

/// The ledger holds one entry for each run and model: the last line of it.
pub proof fn the_last_line_of_a_run_is_held(lines: Seq<EntryView>, entries: Seq<EntryView>, at: int)
    requires
        ledger::is_fold(lines, entries),
        0 <= at < lines.len(),
        forall|k: int| at < k < lines.len() ==> (#[trigger] lines[k]).id != lines[at].id,
    ensures
        entries.contains(lines[at]),
        forall|i: int|
            0 <= i < entries.len() && (#[trigger] entries[i]).id == lines[at].id ==> entries[i]
                == lines[at],
{
    held_is_the_last(lines, at);
    assert(ledger::held(lines, lines[at].id) is Some);
}

proof fn held_is_the_last(lines: Seq<EntryView>, at: int)
    requires
        0 <= at < lines.len(),
        forall|k: int| at < k < lines.len() ==> (#[trigger] lines[k]).id != lines[at].id,
    ensures
        ledger::held(lines, lines[at].id) == Some(lines[at]),
    decreases lines.len(),
{
    if at < lines.len() - 1 {
        let front = lines.drop_last();
        assert(lines[lines.len() - 1].id != lines[at].id);
        assert forall|k: int| at < k < front.len() implies (#[trigger] front[k]).id
            != front[at].id by {
            assert(front[k] == lines[k]);
        }
        held_is_the_last(front, at);
    }
}

/// Nothing is in the ledger that no line says.
pub proof fn an_entry_is_a_line(lines: Seq<EntryView>, entries: Seq<EntryView>, i: int)
    requires
        ledger::is_fold(lines, entries),
        0 <= i < entries.len(),
    ensures
        lines.contains(entries[i]),
        forall|j: int| 0 <= j < entries.len() && j != i ==> (#[trigger] entries[j]).id
            != entries[i].id,
{
    assert(ledger::held(lines, entries[i].id) == Some(entries[i]));
    held_is_a_line(lines, entries[i].id);
    assert forall|j: int| 0 <= j < entries.len() && j != i implies (#[trigger] entries[j]).id
        != entries[i].id by {
        if j < i {
            assert(entries[j].id != entries[i].id);
        } else {
            assert(entries[i].id != entries[j].id);
        }
    }
}

proof fn held_is_a_line(lines: Seq<EntryView>, id: Id)
    ensures
        ledger::held(lines, id) matches Some(line) ==> lines.contains(line) && line.id == id,
    decreases lines.len(),
{
    if lines.len() > 0 {
        let front = lines.drop_last();
        held_is_a_line(front, id);
        if lines.last().id == id {
            assert(lines[lines.len() - 1] == lines.last());
        } else if ledger::held(front, id) is Some {
            let line = ledger::held(front, id)->0;
            let k = choose|k: int| 0 <= k < front.len() && front[k] == line;
            assert(lines[k] == line);
        }
    }
}

/// The ledger is the file that is named for it, else one in the data directory, else one under the
/// home directory; there is none where nothing is set.
pub proof fn the_ledger_is_found_in_order(
    named: Seq<char>,
    data: Option<Seq<char>>,
    home: Option<Seq<char>>,
)
    ensures
        ledger::named_ledger(Some(named), data, home) == Some(named),
        data matches Some(dir) ==> ledger::named_ledger(None, data, home) == Some(
            paths::joined_path(paths::joined_path(dir, "eval-agent"@), "ledger.jsonl"@),
        ),
        data is None ==> (home matches Some(dir) ==> ledger::named_ledger(None, data, home) == Some(
            paths::joined_path(
                paths::joined_path(paths::joined_path(dir, ".local/share"@), "eval-agent"@),
                "ledger.jsonl"@,
            ),
        )),
        data is None && home is None ==> ledger::named_ledger(None, data, home) is None,
{
}

/// A gold set is refused for the first query that is blank, that has the id of one before it, or
/// that wants no page; and for nothing else.
pub proof fn a_gold_set_is_refused_for_its_first_fault(queries: Seq<Query>, at: int)
    requires
        0 <= at < queries.len(),
    ensures
        gold::fault(queries, at) is None == (!text::blank(queries[at].query@) && !(exists|k: int|
            0 <= k < at && (#[trigger] queries[k]).id@ == queries[at].id@)
            && queries[at].wanted.len() > 0),
{
    let before = gold::ids(queries.take(at));
    if before.contains(queries[at].id@) {
        let k = choose|k: int| 0 <= k < before.len() && before[k] == queries[at].id@;
        assert(queries[k].id@ == queries[at].id@);
    }
    if exists|k: int| 0 <= k < at && (#[trigger] queries[k]).id@ == queries[at].id@ {
        let k = choose|k: int| 0 <= k < at && (#[trigger] queries[k]).id@ == queries[at].id@;
        assert(before[k] == queries[at].id@);
    }
}

/// Of a query that has more than one fault the one that is told is that it is blank, else that its
/// id is taken, else that it wants nothing; each is told of with the id.
pub proof fn a_fault_is_told_in_order(queries: Seq<Query>, at: int, id: Seq<char>)
    requires
        0 <= at < queries.len(),
    ensures
        (gold::fault(queries, at) == Some(Fault::Blank)) == text::blank(queries[at].query@),
        gold::fault(queries, at) == Some(Fault::NoPages) ==> queries[at].wanted.len() == 0 && forall|
            k: int,
        |
            0 <= k < at ==> (#[trigger] queries[k]).id@ != queries[at].id@,
        gold::fault(queries, at) == Some(Fault::SharedId) ==> exists|k: int|
            0 <= k < at && (#[trigger] queries[k]).id@ == queries[at].id@,
        gold::fault_message(Fault::Blank, id) == id + ": the query is blank"@,
        gold::fault_message(Fault::SharedId, id) == id + ": two queries share this id"@,
        gold::fault_message(Fault::NoPages, id) == id + ": no wanted pages"@,
{
    let before = gold::ids(queries.take(at));
    assert(forall|k: int| 0 <= k < at ==> before[k] == (#[trigger] queries[k]).id@);
    if before.contains(queries[at].id@) {
        let k = choose|k: int| 0 <= k < before.len() && before[k] == queries[at].id@;
        assert(queries[k].id@ == queries[at].id@);
    } else {
        assert forall|k: int| 0 <= k < at implies (#[trigger] queries[k]).id@ != queries[at].id@ by {
            assert(before[k] == queries[k].id@);
            assert(before.contains(before[k]));
        }
    }
}

/// An id that is asked for is missing where no query has it.
pub proof fn an_id_is_missing_where_no_query_has_it(
    queries: Seq<Query>,
    wanted: Seq<Seq<char>>,
    id: Seq<char>,
)
    ensures
        gold::is_missing(queries, wanted, id) == (wanted.contains(id) && forall|k: int|
            0 <= k < queries.len() ==> (#[trigger] queries[k]).id@ != id),
{
    let all = gold::ids(queries);
    if all.contains(id) {
        let k = choose|k: int| 0 <= k < all.len() && all[k] == id;
        assert(queries[k].id@ == id);
    }
    if exists|k: int| 0 <= k < queries.len() && (#[trigger] queries[k]).id@ == id {
        let k = choose|k: int| 0 <= k < queries.len() && (#[trigger] queries[k]).id@ == id;
        assert(all[k] == id);
    }
}

/// What is kept of a run is named for it: the directory, the query, the condition and the repeat.
pub proof fn what_is_kept_of_a_run_is_named_for_it(
    out: Seq<char>,
    id: Seq<char>,
    condition: Seq<char>,
    repeat: nat,
    suffix: Seq<char>,
    shared: Option<Seq<char>>,
)
    ensures
        pass::raw_name(out, id, condition, repeat, suffix) == paths::joined_path(
            paths::joined_path(out, "raw"@),
            id + "-"@ + condition + "-"@ + text::decimal(repeat) + "."@ + suffix,
        ),
        pass::cache_of(out, shared, id, repeat, true) == paths::joined_path(
            paths::joined_path(out, "cold-cache"@),
            id + "-"@ + text::decimal(repeat),
        ),
        shared matches Some(dir) ==> pass::cache_of(out, shared, id, repeat, false) == dir,
        shared is None ==> pass::cache_of(out, shared, id, repeat, false) == paths::joined_path(
            out,
            "cache"@,
        ),
{
}

/// A walk is run on the query from its entry, with the criterion and the threshold that are named.
pub proof fn a_walk_is_run_as_it_is_asked(
    query: Seq<char>,
    entry: Seq<char>,
    mode: Option<Seq<char>>,
    threshold: Option<Seq<char>>,
)
    ensures
        ({
            let list = pass::walk_command(query, entry, mode, threshold);
            &&& list[0] == query
            &&& list[1] == entry
            &&& list.subrange(2, 6) == seq!["--root"@, "."@, "--format"@, "json"@]
            &&& list.len() == 6 + if mode is Some {
                2int
            } else {
                0
            } + if threshold is Some {
                2int
            } else {
                0
            }
            &&& mode matches Some(mode) ==> list[6] == "--mode"@ && list[7] == mode
            &&& threshold matches Some(threshold) ==> list[list.len() - 2] == "--threshold"@
                && list.last() == threshold
        }),
{
    let list = pass::walk_command(query, entry, mode, threshold);
    assert(list.subrange(2, 6) =~= seq!["--root"@, "."@, "--format"@, "json"@]);
}

/// An agent is run on its prompt with the tools that it may use and no other, and with the model
/// that is named.
pub proof fn an_agent_is_run_as_it_is_asked(
    prompt: Seq<char>,
    model: Option<Seq<char>>,
    tools: Seq<char>,
)
    ensures
        ({
            let list = pass::agent_command(prompt, model, tools);
            let n = list.len() as int;
            &&& list.take(5) == seq!["-p"@, prompt, "--output-format"@, "stream-json"@, "--verbose"@]
            &&& list.skip(n - 7) == seq![
                "--safe-mode"@,
                "--tools"@,
                tools,
                "--allowedTools"@,
                tools,
                "--permission-prompts"@,
                "none"@,
            ]
            &&& model matches Some(model) ==> n == 14 && list[5] == "--model"@ && list[6] == model
            &&& model is None ==> n == 12
        }),
{
    let list = pass::agent_command(prompt, model, tools);
    let n = list.len() as int;
    assert(list.take(5) =~= seq!["-p"@, prompt, "--output-format"@, "stream-json"@, "--verbose"@]);
    assert(list.skip(n - 7) =~= seq![
        "--safe-mode"@,
        "--tools"@,
        tools,
        "--allowedTools"@,
        tools,
        "--permission-prompts"@,
        "none"@,
    ]);
}

/// Transcripts are looked for where they are said to be, else among the agents' configuration,
/// under the session and the agent.
pub proof fn a_transcript_is_looked_for_by_session_and_agent(
    given: Seq<char>,
    config: Option<Seq<char>>,
    home: Seq<char>,
    name: Seq<char>,
    project: Seq<char>,
    session: Seq<char>,
    agent: Seq<char>,
)
    ensures
        pass::transcripts_dir(Some(given), config, home, name) == given,
        config matches Some(dir) ==> pass::transcripts_dir(None, config, home, name)
            == paths::joined_path(dir, "projects"@),
        config is None ==> pass::transcripts_dir(None, config, home, name) == paths::joined_path(
            paths::joined_path(home, name),
            "projects"@,
        ),
        pass::transcript_of(project, session, agent) == paths::joined_path(
            paths::joined_path(paths::joined_path(project, session), "subagents"@),
            "agent-"@ + agent + ".jsonl"@,
        ),
{
}

} // verus!
