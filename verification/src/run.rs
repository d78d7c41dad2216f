//! A pass: every query, under every condition, as many times as asked, with one row per run.
//!
//! Runs cost money and take minutes, so the pass is resumable: a row already written is a run that
//! has happened, and it is not run again.

use vstd::prelude::*;

use crate::counting;
use crate::doc::Num;
use crate::explore::{StreamSummary, TranscriptSummary, Usage};
use crate::gold;
use crate::gold::{Gold, Query};
use crate::json;
use crate::ordered::Table;
use crate::paths;
use crate::reading::Reading;
use crate::text;

verus! {

/// The parent agent's prompt. The query and the entry page are substituted in; nothing else about
/// the wiki is.
pub const EXPLORE_PROMPT: &'static str =
    "Use the Explore agent to answer this query from the wiki in the current directory, starting at its entry page <entry>: <query>\nReply with the answer, and then a JSON array of the relative paths of the files the Explore agent relied on.";

/// The same, for an agent handed a reading list instead of a wiki to walk.
pub const S1M_AGENT_PROMPT: &'static str =
    "Here is a reading list for a query, from the wiki in the current directory, most relevant first:\n<files>\nAnswer this query, opening only the files you need: <query>\nReply with the answer, and then a JSON array of the relative paths of the files you relied on.";

/// The tools the Explore condition runs under: read-only, plus the one that spawns the subagent.
pub const EXPLORE_TOOLS: &'static str = "Read,Glob,Grep,Task";

/// The tools an agent handed a reading list runs under: it was given the files, so it has no need
/// to search for them.
pub const S1M_AGENT_TOOLS: &'static str = "Read";

/// What stands for the model of a run that named none.
pub const DEFAULT_MODEL: &'static str = "default";

/// How hard the Explore agent is told to look.
pub const THOROUGHNESS: &'static str = "medium";

/// The flags an agent is run under, as a report prints them.
pub const AGENT_FLAGS: [&'static str; 7] = [
    "-p",
    "--output-format stream-json",
    "--verbose",
    "--safe-mode",
    "--tools Read,Glob,Grep,Task",
    "--allowedTools Read,Glob,Grep,Task",
    "--permission-prompts none",
];

pub const WALK_FLAGS: [&'static str; 2] = ["--format json", "--root ."];

pub open spec fn agent_flags() -> Seq<Seq<char>> {
    AGENT_FLAGS@.map_values(|flag: &'static str| flag@)
}

pub open spec fn walk_flags() -> Seq<Seq<char>> {
    WALK_FLAGS@.map_values(|flag: &'static str| flag@)
}

pub fn method_flags() -> (flags: Vec<String>)
    ensures
        text::texts(flags@) == agent_flags(),
{
    let mut flags: Vec<String> = Vec::new();
    for i in 0..7usize
        invariant
            flags.len() == i,
            forall|k: int| 0 <= k < i ==> (#[trigger] flags@[k])@ == AGENT_FLAGS@[k]@,
    {
        flags.push(AGENT_FLAGS[i].to_owned());
    }
    assert(text::texts(flags@) =~= agent_flags());
    flags
}

pub fn s1m_flags() -> (flags: Vec<String>)
    ensures
        text::texts(flags@) == walk_flags(),
{
    let mut flags: Vec<String> = Vec::new();
    for i in 0..2usize
        invariant
            flags.len() == i,
            forall|k: int| 0 <= k < i ==> (#[trigger] flags@[k])@ == WALK_FLAGS@[k]@,
    {
        flags.push(WALK_FLAGS[i].to_owned());
    }
    assert(text::texts(flags@) =~= walk_flags());
    flags
}

/// One run that has not happened yet.
pub struct Job {
    pub query: usize,
    pub condition: String,
    pub repeat: usize,
}

/// What a job says.
pub struct JobView {
    pub query: int,
    pub condition: Seq<char>,
    pub repeat: int,
}

impl View for Job {
    type V = JobView;

    open spec fn view(&self) -> JobView {
        JobView { query: self.query as int, condition: self.condition@, repeat: self.repeat as int }
    }
}

/// The jobs of a list.
pub open spec fn job_views(jobs: Seq<Job>) -> Seq<JobView> {
    jobs.map_values(|job: Job| job@)
}

/// A run that has happened: its query, condition and repeat.
pub open spec fn is_done(done: Seq<(String, String, usize)>, id: Seq<char>, job: JobView) -> bool {
    exists|i: int|
        0 <= i < done.len() && (#[trigger] done[i]).0@ == id && done[i].1@ == job.condition
            && done[i].2 == job.repeat
}

/// How a condition is measured on a repeat: the walk condition also against a cache it has never
/// seen, which is the only way to see what a query costs to buy; that is measured the first few
/// repeats only, because every cold run is bought again.
pub open spec fn variants(condition: Seq<char>, repeat: int, cold_repeats: int) -> Seq<Seq<char>> {
    if condition == "s1m"@ && repeat < cold_repeats {
        seq![condition + "-cold"@, condition]
    } else {
        seq![condition]
    }
}

/// A job, unless it is done.
pub open spec fn with_job(
    jobs: Seq<JobView>,
    done: Seq<(String, String, usize)>,
    id: Seq<char>,
    job: JobView,
) -> Seq<JobView> {
    if is_done(done, id, job) {
        jobs
    } else {
        jobs.push(job)
    }
}

/// The jobs owed of one condition on one repeat.
pub open spec fn with_condition(
    jobs: Seq<JobView>,
    done: Seq<(String, String, usize)>,
    id: Seq<char>,
    query: int,
    repeat: int,
    condition: Seq<char>,
    cold_repeats: int,
) -> Seq<JobView> {
    let jobs = if condition == "s1m"@ && repeat < cold_repeats {
        with_job(jobs, done, id, JobView { query, condition: condition + "-cold"@, repeat })
    } else {
        jobs
    };
    with_job(jobs, done, id, JobView { query, condition, repeat })
}

/// What a pass measures.
pub struct Plan {
    pub conditions: Seq<Seq<char>>,
    pub repeats: int,
    pub cold_repeats: int,
    pub done: Seq<(String, String, usize)>,
}

/// The jobs owed of the first `n` conditions on one repeat.
pub open spec fn with_repeat(
    jobs: Seq<JobView>,
    plan: Plan,
    id: Seq<char>,
    query: int,
    repeat: int,
    n: int,
) -> Seq<JobView>
    decreases n,
{
    if n <= 0 {
        jobs
    } else {
        with_condition(
            with_repeat(jobs, plan, id, query, repeat, n - 1),
            plan.done,
            id,
            query,
            repeat,
            plan.conditions[n - 1],
            plan.cold_repeats,
        )
    }
}

/// The jobs owed of one query on its first `n` repeats.
pub open spec fn with_query(
    jobs: Seq<JobView>,
    plan: Plan,
    id: Seq<char>,
    query: int,
    n: int,
) -> Seq<JobView>
    decreases n,
{
    if n <= 0 {
        jobs
    } else {
        with_repeat(
            with_query(jobs, plan, id, query, n - 1),
            plan,
            id,
            query,
            n - 1,
            plan.conditions.len() as int,
        )
    }
}

/// The runs still owed of the first `n` queries, in the order they should be made: one query at a
/// time, so a pass that is stopped early has whole queries measured.
pub open spec fn owed(ids: Seq<Seq<char>>, plan: Plan, n: int) -> Seq<JobView>
    decreases n,
{
    if n <= 0 {
        Seq::empty()
    } else {
        with_query(owed(ids, plan, n - 1), plan, ids[n - 1], n - 1, plan.repeats)
    }
}

fn done_already(
    done: &Vec<(String, String, usize)>,
    id: &str,
    condition: &str,
    repeat: usize,
    Ghost(query): Ghost<int>,
) -> (yes: bool)
    ensures
        yes == is_done(
            done@,
            id@,
            (JobView { query, condition: condition@, repeat: repeat as int }),
        ),
{
    for i in 0..done.len()
        invariant
            forall|k: int|
                0 <= k < i ==> !((#[trigger] done@[k]).0@ == id@ && done@[k].1@ == condition@
                    && done@[k].2 == repeat),
    {
        if done[i].2 == repeat && text::same(done[i].0.as_str(), id) && text::same(
            done[i].1.as_str(),
            condition,
        ) {
            assert(done@[i as int].0@ == id@);
            return true;
        }
    }
    false
}

fn owe(
    jobs: &mut Vec<Job>,
    done: &Vec<(String, String, usize)>,
    id: &str,
    query: usize,
    condition: String,
    repeat: usize,
)
    ensures
        job_views(final(jobs)@) == with_job(
            job_views(old(jobs)@),
            done@,
            id@,
            (JobView { query: query as int, condition: condition@, repeat: repeat as int }),
        ),
{
    let ghost was = job_views(jobs@);
    if !done_already(done, id, condition.as_str(), repeat, Ghost(query as int)) {
        let job = Job { query, condition, repeat };
        let ghost added = job@;
        jobs.push(job);
        assert(job_views(jobs@) =~= was.push(added));
    }
}

/// Which runs are still owed, in the order they should be made.
pub fn pending(
    gold: &Gold,
    conditions: &Vec<String>,
    repeats: usize,
    cold_repeats: usize,
    done: &Vec<(String, String, usize)>,
) -> (jobs: Vec<Job>)
    ensures
        job_views(jobs@) == owed(
            gold::ids(gold.queries@),
            (Plan {
                conditions: text::texts(conditions@),
                repeats: repeats as int,
                cold_repeats: cold_repeats as int,
                done: done@,
            }),
            gold.queries.len() as int,
        ),
{
    let ghost plan = Plan {
        conditions: text::texts(conditions@),
        repeats: repeats as int,
        cold_repeats: cold_repeats as int,
        done: done@,
    };
    let ghost ids = gold::ids(gold.queries@);
    let mut jobs: Vec<Job> = Vec::new();
    assert(job_views(jobs@) =~= Seq::<JobView>::empty());
    for at in 0..gold.queries.len()
        invariant
            ids == gold::ids(gold.queries@),
            plan.conditions == text::texts(conditions@),
            plan.repeats == repeats,
            plan.cold_repeats == cold_repeats,
            plan.done == done@,
            job_views(jobs@) == owed(ids, plan, at as int),
    {
        let ghost before = job_views(jobs@);
        let id: &str = gold.queries[at].id.as_str();
        assert(ids[at as int] == id@);
        for repeat in 0..repeats
            invariant
                plan.conditions == text::texts(conditions@),
                plan.cold_repeats == cold_repeats,
                plan.done == done@,
                job_views(jobs@) == with_query(before, plan, id@, at as int, repeat as int),
        {
            let ghost sofar = job_views(jobs@);
            assert(plan.conditions.len() == conditions.len());
            for c in 0..conditions.len()
                invariant
                    plan.conditions == text::texts(conditions@),
                    plan.cold_repeats == cold_repeats,
                    plan.done == done@,
                    job_views(jobs@) == with_repeat(
                        sofar,
                        plan,
                        id@,
                        at as int,
                        repeat as int,
                        c as int,
                    ),
            {
                assert(plan.conditions[c as int] == conditions@[c as int]@);
                if text::same(conditions[c].as_str(), "s1m") && repeat < cold_repeats {
                    let mut cold: String = conditions[c].clone();
                    cold.append("-cold");
                    owe(&mut jobs, done, id, at, cold, repeat);
                }
                owe(&mut jobs, done, id, at, conditions[c].clone(), repeat);
            }
        }
    }
    jobs
}

/// Whether a pass measures a job at all.
pub open spec fn planned(ids: Seq<Seq<char>>, plan: Plan, job: JobView) -> bool {
    &&& 0 <= job.query < ids.len()
    &&& 0 <= job.repeat < plan.repeats
    &&& exists|c: int|
        0 <= c < plan.conditions.len() && variants(
            #[trigger] plan.conditions[c],
            job.repeat,
            plan.cold_repeats,
        ).contains(job.condition)
}

proof fn job_added(
    jobs: Seq<JobView>,
    done: Seq<(String, String, usize)>,
    id: Seq<char>,
    added: JobView,
    job: JobView,
)
    ensures
        with_job(jobs, done, id, added).contains(job) == (jobs.contains(job) || (job == added
            && !is_done(done, id, added))),
{
    let now = with_job(jobs, done, id, added);
    if jobs.contains(job) {
        let i = choose|i: int| 0 <= i < jobs.len() && jobs[i] == job;
        assert(now[i] == job);
    }
    if job == added && !is_done(done, id, added) {
        assert(now[jobs.len() as int] == job);
    }
    if now.contains(job) {
        let i = choose|i: int| 0 <= i < now.len() && now[i] == job;
        if i < jobs.len() {
            assert(jobs[i] == job);
        }
    }
}

proof fn condition_added(
    jobs: Seq<JobView>,
    plan: Plan,
    id: Seq<char>,
    query: int,
    repeat: int,
    condition: Seq<char>,
    job: JobView,
)
    ensures
        with_condition(jobs, plan.done, id, query, repeat, condition, plan.cold_repeats).contains(
            job,
        ) == (jobs.contains(job) || (job.query == query && job.repeat == repeat && variants(
            condition,
            repeat,
            plan.cold_repeats,
        ).contains(job.condition) && !is_done(plan.done, id, job))),
{
    let cold = JobView { query, condition: condition + "-cold"@, repeat };
    let warm = JobView { query, condition, repeat };
    let list = variants(condition, repeat, plan.cold_repeats);
    let first = with_job(jobs, plan.done, id, cold);
    job_added(jobs, plan.done, id, cold, job);
    if condition == "s1m"@ && repeat < plan.cold_repeats {
        job_added(first, plan.done, id, warm, job);
        assert(list[0] == condition + "-cold"@);
        assert(list[1] == condition);
    } else {
        job_added(jobs, plan.done, id, warm, job);
        assert(list[0] == condition);
    }
    if list.contains(job.condition) {
        let i = choose|i: int| 0 <= i < list.len() && list[i] == job.condition;
    }
    if job == cold {
        assert(job.condition == cold.condition);
    }
}

/// Whether one of the first `n` conditions is measured as a job says.
spec fn varies(plan: Plan, job: JobView, n: int) -> bool {
    exists|c: int|
        0 <= c < n && variants(
            #[trigger] plan.conditions[c],
            job.repeat,
            plan.cold_repeats,
        ).contains(job.condition)
}

proof fn repeat_added(
    jobs: Seq<JobView>,
    plan: Plan,
    id: Seq<char>,
    query: int,
    repeat: int,
    n: int,
    job: JobView,
)
    requires
        0 <= n <= plan.conditions.len(),
    ensures
        with_repeat(jobs, plan, id, query, repeat, n).contains(job) == (jobs.contains(job) || (
        job.query == query && job.repeat == repeat && varies(plan, job, n) && !is_done(
            plan.done,
            id,
            job,
        ))),
    decreases n,
{
    if n > 0 {
        repeat_added(jobs, plan, id, query, repeat, n - 1, job);
        condition_added(
            with_repeat(jobs, plan, id, query, repeat, n - 1),
            plan,
            id,
            query,
            repeat,
            plan.conditions[n - 1],
            job,
        );
        if varies(plan, job, n - 1) {
            let c = choose|c: int|
                0 <= c < n - 1 && variants(
                    #[trigger] plan.conditions[c],
                    job.repeat,
                    plan.cold_repeats,
                ).contains(job.condition);
            assert(variants(plan.conditions[c], job.repeat, plan.cold_repeats).contains(
                job.condition,
            ));
        }
        if varies(plan, job, n) {
            let c = choose|c: int|
                0 <= c < n && variants(
                    #[trigger] plan.conditions[c],
                    job.repeat,
                    plan.cold_repeats,
                ).contains(job.condition);
            if c < n - 1 {
                assert(varies(plan, job, n - 1));
            }
        }
    }
}

proof fn query_added(
    jobs: Seq<JobView>,
    plan: Plan,
    id: Seq<char>,
    query: int,
    n: int,
    job: JobView,
)
    requires
        0 <= n,
    ensures
        with_query(jobs, plan, id, query, n).contains(job) == (jobs.contains(job) || (job.query
            == query && 0 <= job.repeat < n && varies(plan, job, plan.conditions.len() as int)
            && !is_done(plan.done, id, job))),
    decreases n,
{
    if n > 0 {
        query_added(jobs, plan, id, query, n - 1, job);
        repeat_added(
            with_query(jobs, plan, id, query, n - 1),
            plan,
            id,
            query,
            n - 1,
            plan.conditions.len() as int,
            job,
        );
    }
}

proof fn owed_of_some(ids: Seq<Seq<char>>, plan: Plan, n: int, job: JobView)
    requires
        0 <= n <= ids.len(),
        0 <= plan.repeats,
    ensures
        owed(ids, plan, n).contains(job) == (0 <= job.query < n && 0 <= job.repeat < plan.repeats
            && varies(plan, job, plan.conditions.len() as int) && !is_done(
            plan.done,
            ids[job.query],
            job,
        )),
    decreases n,
{
    if n > 0 {
        owed_of_some(ids, plan, n - 1, job);
        query_added(owed(ids, plan, n - 1), plan, ids[n - 1], n - 1, plan.repeats, job);
    }
}

/// A pass owes just what it plans and has not done: a run already measured is never made again,
/// and nothing that is missing is left out.
pub proof fn a_resumed_pass_owes_only_what_is_missing(
    ids: Seq<Seq<char>>,
    plan: Plan,
    job: JobView,
)
    requires
        0 <= plan.repeats,
    ensures
        owed(ids, plan, ids.len() as int).contains(job) == (planned(ids, plan, job) && !is_done(
            plan.done,
            ids[job.query],
            job,
        )),
{
    owed_of_some(ids, plan, ids.len() as int, job);
}

/// The jobs of a list that are not done.
spec fn left(
    jobs: Seq<JobView>,
    ids: Seq<Seq<char>>,
    done: Seq<(String, String, usize)>,
) -> Seq<JobView>
    decreases jobs.len(),
{
    if jobs.len() == 0 {
        Seq::empty()
    } else {
        with_job(
            left(jobs.drop_last(), ids, done),
            done,
            ids[jobs.last().query],
            jobs.last(),
        )
    }
}

/// A pass that has done nothing yet.
spec fn fresh(plan: Plan) -> Plan {
    Plan { done: Seq::empty(), ..plan }
}

proof fn job_left(
    jobs: Seq<JobView>,
    ids: Seq<Seq<char>>,
    done: Seq<(String, String, usize)>,
    job: JobView,
)
    ensures
        left(with_job(jobs, Seq::empty(), ids[job.query], job), ids, done) == with_job(
            left(jobs, ids, done),
            done,
            ids[job.query],
            job,
        ),
{
    let all = jobs.push(job);
    assert(!is_done(Seq::empty(), ids[job.query], job));
    assert(all.drop_last() =~= jobs);
    assert(all.last() == job);
}

proof fn repeat_left(
    jobs: Seq<JobView>,
    ids: Seq<Seq<char>>,
    plan: Plan,
    query: int,
    repeat: int,
    n: int,
)
    ensures
        left(with_repeat(jobs, fresh(plan), ids[query], query, repeat, n), ids, plan.done)
            == with_repeat(left(jobs, ids, plan.done), plan, ids[query], query, repeat, n),
    decreases n,
{
    if n > 0 {
        repeat_left(jobs, ids, plan, query, repeat, n - 1);
        let before = with_repeat(jobs, fresh(plan), ids[query], query, repeat, n - 1);
        let condition = plan.conditions[n - 1];
        let cold = JobView { query, condition: condition + "-cold"@, repeat };
        let warm = JobView { query, condition, repeat };
        job_left(before, ids, plan.done, cold);
        job_left(
            with_job(before, Seq::empty(), ids[query], cold),
            ids,
            plan.done,
            warm,
        );
        job_left(before, ids, plan.done, warm);
    }
}

proof fn query_left(jobs: Seq<JobView>, ids: Seq<Seq<char>>, plan: Plan, query: int, n: int)
    ensures
        left(with_query(jobs, fresh(plan), ids[query], query, n), ids, plan.done) == with_query(
            left(jobs, ids, plan.done),
            plan,
            ids[query],
            query,
            n,
        ),
    decreases n,
{
    if n > 0 {
        query_left(jobs, ids, plan, query, n - 1);
        repeat_left(
            with_query(jobs, fresh(plan), ids[query], query, n - 1),
            ids,
            plan,
            query,
            n - 1,
            plan.conditions.len() as int,
        );
    }
}

/// What is owed is what a fresh pass owes, less what is done.
proof fn owed_is_left(ids: Seq<Seq<char>>, plan: Plan, n: int)
    ensures
        left(owed(ids, fresh(plan), n), ids, plan.done) == owed(ids, plan, n),
    decreases n,
{
    if n > 0 {
        owed_is_left(ids, plan, n - 1);
        query_left(owed(ids, fresh(plan), n - 1), ids, plan, n - 1, plan.repeats);
    }
}

/// Conditions that name no run twice: none is there twice, and none is the cold walk, which the
/// walk condition brings along.
pub open spec fn names_each_once(conditions: Seq<Seq<char>>) -> bool {
    &&& conditions.no_duplicates()
    &&& forall|i: int| 0 <= i < conditions.len() ==> #[trigger] conditions[i] != "s1m"@ + "-cold"@
}

proof fn pushed_once(jobs: Seq<JobView>, job: JobView)
    requires
        jobs.no_duplicates(),
        !jobs.contains(job),
    ensures
        jobs.push(job).no_duplicates(),
{
    let all = jobs.push(job);
    assert forall|i: int, j: int| 0 <= i < all.len() && 0 <= j < all.len() && i != j implies all[i]
        != all[j] by {
        if i < jobs.len() && j == jobs.len() {
            assert(jobs.contains(jobs[i]));
        }
        if j < jobs.len() && i == jobs.len() {
            assert(jobs.contains(jobs[j]));
        }
    }
}

proof fn repeat_once(
    jobs: Seq<JobView>,
    plan: Plan,
    id: Seq<char>,
    query: int,
    repeat: int,
    n: int,
)
    requires
        0 <= n <= plan.conditions.len(),
        names_each_once(plan.conditions),
        jobs.no_duplicates(),
        forall|job: JobView| #[trigger]
            jobs.contains(job) ==> job.query != query || job.repeat != repeat,
    ensures
        with_repeat(jobs, plan, id, query, repeat, n).no_duplicates(),
    decreases n,
{
    if n > 0 {
        repeat_once(jobs, plan, id, query, repeat, n - 1);
        let before = with_repeat(jobs, plan, id, query, repeat, n - 1);
        let condition = plan.conditions[n - 1];
        let cold = JobView { query, condition: condition + "-cold"@, repeat };
        let warm = JobView { query, condition, repeat };
        repeat_added(jobs, plan, id, query, repeat, n - 1, warm);
        assert(!before.contains(warm)) by {
            if varies(plan, warm, n - 1) {
                let c = choose|c: int|
                    0 <= c < n - 1 && variants(
                        #[trigger] plan.conditions[c],
                        repeat,
                        plan.cold_repeats,
                    ).contains(condition);
                one_of_two(plan.conditions[c], repeat, plan.cold_repeats, condition);
                assert(plan.conditions[c] != condition);
            }
        }
        if condition == "s1m"@ && repeat < plan.cold_repeats {
            repeat_added(jobs, plan, id, query, repeat, n - 1, cold);
            assert(!before.contains(cold)) by {
                if varies(plan, cold, n - 1) {
                    let c = choose|c: int|
                        0 <= c < n - 1 && variants(
                            #[trigger] plan.conditions[c],
                            repeat,
                            plan.cold_repeats,
                        ).contains(cold.condition);
                    one_of_two(plan.conditions[c], repeat, plan.cold_repeats, cold.condition);
                    assert(plan.conditions[c] != condition);
                }
            }
            pushed_once(before, cold);
            let first = with_job(before, plan.done, id, cold);
            job_added(before, plan.done, id, cold, warm);
            assert(warm.condition.len() != cold.condition.len()) by {
                reveal_strlit("-cold");
            }
            pushed_once(first, warm);
        } else {
            pushed_once(before, warm);
        }
    }
}

proof fn one_of_two(condition: Seq<char>, repeat: int, cold_repeats: int, name: Seq<char>)
    requires
        variants(condition, repeat, cold_repeats).contains(name),
    ensures
        name == condition || (condition == "s1m"@ && name == "s1m"@ + "-cold"@),
{
    let list = variants(condition, repeat, cold_repeats);
    let i = choose|i: int| 0 <= i < list.len() && list[i] == name;
    assert(list[i] == name);
}

proof fn query_once(jobs: Seq<JobView>, plan: Plan, id: Seq<char>, query: int, n: int)
    requires
        0 <= n,
        names_each_once(plan.conditions),
        jobs.no_duplicates(),
        forall|job: JobView| #[trigger] jobs.contains(job) ==> job.query != query,
    ensures
        with_query(jobs, plan, id, query, n).no_duplicates(),
    decreases n,
{
    if n > 0 {
        query_once(jobs, plan, id, query, n - 1);
        let before = with_query(jobs, plan, id, query, n - 1);
        assert forall|job: JobView| #[trigger] before.contains(job) implies job.query != query
            || job.repeat != n - 1 by {
            query_added(jobs, plan, id, query, n - 1, job);
        }
        repeat_once(before, plan, id, query, n - 1, plan.conditions.len() as int);
    }
}

proof fn owed_once(ids: Seq<Seq<char>>, plan: Plan, n: int)
    requires
        0 <= n <= ids.len(),
        0 <= plan.repeats,
        names_each_once(plan.conditions),
    ensures
        owed(ids, plan, n).no_duplicates(),
    decreases n,
{
    if n > 0 {
        owed_once(ids, plan, n - 1);
        let before = owed(ids, plan, n - 1);
        assert forall|job: JobView| #[trigger] before.contains(job) implies job.query != n - 1 by {
            owed_of_some(ids, plan, n - 1, job);
        }
        query_once(before, plan, ids[n - 1], n - 1, plan.repeats);
    }
}

/// No run is owed twice.
pub proof fn no_run_is_owed_twice(ids: Seq<Seq<char>>, plan: Plan)
    requires
        0 <= plan.repeats,
        names_each_once(plan.conditions),
    ensures
        owed(ids, plan, ids.len() as int).no_duplicates(),
{
    owed_once(ids, plan, ids.len() as int);
}

/// What is done once some runs have been made: what was done, and those.
pub open spec fn done_after(
    ids: Seq<Seq<char>>,
    done: Seq<(String, String, usize)>,
    made: Seq<JobView>,
    now: Seq<(String, String, usize)>,
) -> bool {
    forall|id: Seq<char>, job: JobView| #[trigger]
        is_done(now, id, job) == (is_done(done, id, job) || exists|i: int|
            0 <= i < made.len() && ids[(#[trigger] made[i]).query] == id && made[i].condition
                == job.condition && made[i].repeat == job.repeat)
}

proof fn left_of_left(
    jobs: Seq<JobView>,
    ids: Seq<Seq<char>>,
    done: Seq<(String, String, usize)>,
    now: Seq<(String, String, usize)>,
)
    requires
        forall|id: Seq<char>, job: JobView| #[trigger]
            is_done(done, id, job) ==> is_done(now, id, job),
    ensures
        left(left(jobs, ids, done), ids, now) == left(jobs, ids, now),
    decreases jobs.len(),
{
    if jobs.len() > 0 {
        let front = jobs.drop_last();
        left_of_left(front, ids, done, now);
        let kept = left(front, ids, done);
        let job = jobs.last();
        if !is_done(done, ids[job.query], job) {
            assert(kept.push(job).drop_last() =~= kept);
        }
    }
}

proof fn left_behind(
    jobs: Seq<JobView>,
    ids: Seq<Seq<char>>,
    now: Seq<(String, String, usize)>,
    k: int,
)
    requires
        0 <= k <= jobs.len(),
        forall|i: int|
            0 <= i < jobs.len() ==> is_done(now, ids[(#[trigger] jobs[i]).query], jobs[i]) == (i
                < k),
    ensures
        left(jobs, ids, now) == jobs.skip(k),
    decreases jobs.len(),
{
    if jobs.len() > 0 {
        let front = jobs.drop_last();
        let n = jobs.len() - 1;
        assert(is_done(now, ids[jobs[n].query], jobs[n]) == (n < k));
        if k <= n {
            left_behind(front, ids, now, k);
            assert(jobs.skip(k) =~= front.skip(k).push(jobs[n]));
        } else {
            left_behind(front, ids, now, n);
            assert(jobs.skip(k) =~= front.skip(n));
        }
    } else {
        assert(jobs.skip(k) =~= left(jobs, ids, now));
    }
}

/// A pass that is stopped owes the rest: once its first runs have been made and recorded, what a
/// resumed pass owes is what came behind them, in the same order.
pub proof fn a_stopped_pass_owes_the_rest(
    ids: Seq<Seq<char>>,
    plan: Plan,
    now: Seq<(String, String, usize)>,
    k: int,
)
    requires
        0 <= plan.repeats,
        ids.no_duplicates(),
        names_each_once(plan.conditions),
        0 <= k <= owed(ids, plan, ids.len() as int).len(),
        done_after(ids, plan.done, owed(ids, plan, ids.len() as int).take(k), now),
    ensures
        owed(ids, (Plan { done: now, ..plan }), ids.len() as int) == owed(
            ids,
            plan,
            ids.len() as int,
        ).skip(k),
{
    let n = ids.len() as int;
    let next = Plan { done: now, ..plan };
    let all = owed(ids, fresh(plan), n);
    let jobs = owed(ids, plan, n);
    let made = jobs.take(k);
    owed_is_left(ids, plan, n);
    owed_is_left(ids, next, n);
    assert(fresh(next) == fresh(plan));
    left_of_left(all, ids, plan.done, now);
    owed_once(ids, plan, n);
    assert forall|i: int| 0 <= i < jobs.len() implies is_done(
        now,
        ids[(#[trigger] jobs[i]).query],
        jobs[i],
    ) == (i < k) by {
        let job = jobs[i];
        let id = ids[job.query];
        assert(jobs.contains(job));
        owed_of_some(ids, plan, n, job);
        assert(!is_done(plan.done, id, job));
        if i < k {
            assert(made[i] == job);
        }
        if is_done(now, id, job) {
            let j = choose|j: int|
                0 <= j < made.len() && ids[(#[trigger] made[j]).query] == id && made[j].condition
                    == job.condition && made[j].repeat == job.repeat;
            assert(made[j] == jobs[j]);
            assert(jobs.contains(jobs[j]));
            owed_of_some(ids, plan, n, jobs[j]);
            assert(jobs[j].query == job.query);
            assert(jobs[j] == job);
        }
    }
    left_behind(jobs, ids, now, k);
}

/// No job comes before one of an earlier query.
pub open spec fn by_query(jobs: Seq<JobView>) -> bool {
    forall|i: int, j: int|
        0 <= i < j < jobs.len() ==> (#[trigger] jobs[i]).query <= (#[trigger] jobs[j]).query
}

spec fn up_to(jobs: Seq<JobView>, query: int) -> bool {
    by_query(jobs) && forall|i: int| 0 <= i < jobs.len() ==> (#[trigger] jobs[i]).query <= query
}

proof fn repeat_keeps(
    jobs: Seq<JobView>,
    plan: Plan,
    id: Seq<char>,
    query: int,
    repeat: int,
    n: int,
)
    requires
        up_to(jobs, query),
    ensures
        up_to(with_repeat(jobs, plan, id, query, repeat, n), query),
    decreases n,
{
    if n > 0 {
        repeat_keeps(jobs, plan, id, query, repeat, n - 1);
    }
}

proof fn query_keeps(jobs: Seq<JobView>, plan: Plan, id: Seq<char>, query: int, n: int)
    requires
        up_to(jobs, query),
    ensures
        up_to(with_query(jobs, plan, id, query, n), query),
    decreases n,
{
    if n > 0 {
        query_keeps(jobs, plan, id, query, n - 1);
        repeat_keeps(
            with_query(jobs, plan, id, query, n - 1),
            plan,
            id,
            query,
            n - 1,
            plan.conditions.len() as int,
        );
    }
}

proof fn owed_in_order(ids: Seq<Seq<char>>, plan: Plan, n: int)
    ensures
        up_to(owed(ids, plan, n), n),
    decreases n,
{
    if n > 0 {
        owed_in_order(ids, plan, n - 1);
        query_keeps(owed(ids, plan, n - 1), plan, ids[n - 1], n - 1, plan.repeats);
    }
}

/// One query at a time: a pass that is stopped early has whole queries measured.
pub proof fn one_query_at_a_time(ids: Seq<Seq<char>>, plan: Plan)
    ensures
        by_query(owed(ids, plan, ids.len() as int)),
{
    owed_in_order(ids, plan, ids.len() as int);
}

/// The number under a name: the last one put there.
pub open spec fn entry(list: Seq<(Seq<char>, Num)>, name: Seq<char>) -> Option<Num>
    decreases list.len(),
{
    if list.len() == 0 {
        None
    } else if list.last().0 == name {
        Some(list.last().1)
    } else {
        entry(list.drop_last(), name)
    }
}

/// Whether a table holds just the numbers of a list, by name.
pub open spec fn tabulates(list: Seq<(Seq<char>, Num)>, table: Table<Num>) -> bool {
    forall|name: Seq<char>|
        #![trigger entry(list, name)]
        #![trigger table.names().contains(name)]
        match entry(list, name) {
            Some(value) => table.names().contains(name) && table.at(name) == value,
            None => !table.names().contains(name),
        }
}

/// Puts a number under a name made of two texts.
fn put(
    table: &mut Table<Num>,
    prefix: &str,
    name: &str,
    value: Num,
    Ghost(list): Ghost<Seq<(Seq<char>, Num)>>,
)
    requires
        tabulates(list, *old(table)),
    ensures
        tabulates(list.push((prefix@ + name@, value)), *final(table)),
{
    let ghost was = *table;
    let mut whole: String = prefix.to_owned();
    whole.append(name);
    let ghost key = whole@;
    table.set(whole, value);
    proof {
        let now = list.push((key, value));
        assert(now.drop_last() =~= list);
        assert forall|other: Seq<char>|
            #![trigger entry(now, other)]
            #![trigger table.names().contains(other)]
            match entry(now, other) {
                Some(value) => table.names().contains(other) && table.at(other) == value,
                None => !table.names().contains(other),
            } by {
            assert(table.names().contains(other) == (was.names().contains(other) || other == key));
            if other != key {
                assert(entry(now, other) == entry(list, other));
                if was.names().contains(other) {
                    assert(table.at(other) == was.at(other));
                }
            }
        }
    }
}

/// A fraction, zero where it is of nothing.
pub open spec fn share(part: nat, whole: nat) -> Num {
    if whole == 0 {
        Num::Whole(0)
    } else {
        Num::Over(Box::new(Num::Whole(part as u64)), Box::new(Num::Whole(whole as u64)))
    }
}

fn share_of(part: usize, whole: usize) -> (value: Num)
    ensures
        value == share(part as nat, whole as nat),
{
    if whole == 0 {
        Num::Whole(0)
    } else {
        Num::Over(Box::new(Num::Whole(part as u64)), Box::new(Num::Whole(whole as u64)))
    }
}

/// How many of some paths another list holds.
pub open spec fn found(wanted: Seq<Seq<char>>, returned: Seq<Seq<char>>) -> nat
    decreases wanted.len(),
{
    if wanted.len() == 0 {
        0
    } else {
        found(wanted.drop_last(), returned) + if paths::holds(returned, wanted.last()) {
            1nat
        } else {
            0nat
        }
    }
}

/// Recall and precision of `returned` against `wanted`, under a name prefix.
pub open spec fn scored(
    list: Seq<(Seq<char>, Num)>,
    prefix: Seq<char>,
    wanted: Seq<Seq<char>>,
    returned: Seq<Seq<char>>,
) -> Seq<(Seq<char>, Num)> {
    let hits = found(wanted, returned);
    list.push((prefix + "recall"@, share(hits, wanted.len()))).push(
        (prefix + "precision"@, share(hits, returned.len())),
    ).push((prefix + "found"@, Num::Whole(hits as u64)))
}

/// How many of the wanted paths were returned.
fn count_found(wanted: &Vec<String>, returned: &Vec<String>) -> (n: usize)
    ensures
        n == found(text::texts(wanted@), text::texts(returned@)),
        n <= wanted.len(),
{
    let ghost all = text::texts(wanted@);
    let mut n: usize = 0;
    for i in 0..wanted.len()
        invariant
            all == text::texts(wanted@),
            n == found(all.take(i as int), text::texts(returned@)),
            n <= i,
    {
        proof {
            counting::one_more(all, i as int);
            assert(all[i as int] == wanted@[i as int]@);
        }
        if paths::has(returned, wanted[i].as_str()) {
            n += 1;
        }
    }
    proof {
        counting::take_all(all);
    }
    n
}

fn score(
    table: &mut Table<Num>,
    prefix: &str,
    wanted: &Vec<String>,
    returned: &Vec<String>,
    Ghost(list): Ghost<Seq<(Seq<char>, Num)>>,
)
    requires
        tabulates(list, *old(table)),
    ensures
        tabulates(
            scored(list, prefix@, text::texts(wanted@), text::texts(returned@)),
            *final(table),
        ),
{
    let hits: usize = count_found(wanted, returned);
    let recall: Num = share_of(hits, wanted.len());
    let precision: Num = share_of(hits, returned.len());
    let ghost list1 = list.push((prefix@ + "recall"@, recall));
    let ghost list2 = list1.push((prefix@ + "precision"@, precision));
    assert(text::texts(wanted@).len() == wanted.len());
    assert(text::texts(returned@).len() == returned.len());
    put(table, prefix, "recall", recall, Ghost(list));
    put(table, prefix, "precision", precision, Ghost(list1));
    put(table, prefix, "found", Num::Whole(hits as u64), Ghost(list2));
}

/// One agent's tokens, under a name prefix.
pub open spec fn with_tokens(
    list: Seq<(Seq<char>, Num)>,
    prefix: Seq<char>,
    usage: Usage,
) -> Seq<(Seq<char>, Num)> {
    list.push((prefix + "total_tokens"@, Num::Whole(usage.sum() as u64))).push(
        (prefix + "read_tokens"@, Num::Whole((usage.sum() - usage.output) as u64)),
    ).push((prefix + "input_tokens"@, Num::Whole(usage.input))).push(
        (prefix + "output_tokens"@, Num::Whole(usage.output)),
    ).push((prefix + "cache_read_tokens"@, Num::Whole(usage.cache_read))).push(
        (prefix + "cache_create_tokens"@, Num::Whole(usage.cache_create)),
    )
}

fn tokens(
    table: &mut Table<Num>,
    prefix: &str,
    usage: Usage,
    Ghost(list): Ghost<Seq<(Seq<char>, Num)>>,
)
    requires
        tabulates(list, *old(table)),
        usage.sum() <= u64::MAX,
    ensures
        tabulates(with_tokens(list, prefix@, usage), *final(table)),
{
    let total: u64 = usage.total();
    let read: u64 = usage.read();
    let ghost list1 = list.push((prefix@ + "total_tokens"@, Num::Whole(total)));
    let ghost list2 = list1.push((prefix@ + "read_tokens"@, Num::Whole(read)));
    let ghost list3 = list2.push((prefix@ + "input_tokens"@, Num::Whole(usage.input)));
    let ghost list4 = list3.push((prefix@ + "output_tokens"@, Num::Whole(usage.output)));
    let ghost list5 = list4.push((prefix@ + "cache_read_tokens"@, Num::Whole(usage.cache_read)));
    put(table, prefix, "total_tokens", Num::Whole(total), Ghost(list));
    put(table, prefix, "read_tokens", Num::Whole(read), Ghost(list1));
    put(table, prefix, "input_tokens", Num::Whole(usage.input), Ghost(list2));
    put(table, prefix, "output_tokens", Num::Whole(usage.output), Ghost(list3));
    put(table, prefix, "cache_read_tokens", Num::Whole(usage.cache_read), Ghost(list4));
    put(table, prefix, "cache_create_tokens", Num::Whole(usage.cache_create), Ghost(list5));
}

/// What one agent run reported, whichever condition asked for it.
pub struct AgentRun {
    /// The files the agent said it relied on; none where it wrote no list.
    pub files_relied: Option<Vec<String>>,
    pub files_read: Vec<String>,
    /// The subagent's own tokens, or the whole session's when nothing was spawned.
    pub agent: Usage,
    pub parent: Usage,
    pub session: Usage,
    pub turns: usize,
    pub tool_uses: usize,
    /// Tools the parent used itself, the subagent's not counted.
    pub parent_tool_uses: usize,
    /// What the run cost, in dollars: the bits of a double.
    pub cost_usd: u64,
    pub wall_ms: u64,
    pub agent_wall_ms: Option<u64>,
    /// The model that answered, where it is known.
    pub model: Option<String>,
    /// Whether the subagent's own transcript was read.
    pub from_transcript: bool,
}

/// What a finished run comes to: the subagent's transcript is the only place its turns carry their
/// final token counts. Where nothing was spawned, or its transcript could not be found, the agent
/// that ran is the parent, and the stream carries what it opened.
pub open spec fn is_agent_run(
    summary: StreamSummary,
    transcript: Option<TranscriptSummary>,
    relied: Option<Seq<Seq<char>>>,
    wall_ms: u64,
    run: AgentRun,
) -> bool {
    &&& json::texts_of(run.files_relied) == relied
    &&& run.parent == summary.parent_total
    &&& run.session == summary.session_total
    &&& run.parent_tool_uses == summary.parent_tool_uses
    &&& run.cost_usd == summary.cost_usd
    &&& run.wall_ms == wall_ms
    &&& run.agent_wall_ms == if summary.tasks.len() > 0 {
        summary.tasks@[0].duration_ms
    } else {
        None
    }
    &&& run.from_transcript == transcript is Some
    &&& match transcript {
        Some(subagent) => {
            &&& run.agent == subagent.usage
            &&& text::texts(run.files_read@) == text::texts(subagent.files_read@)
            &&& run.turns == subagent.turns
            &&& run.tool_uses == subagent.tool_uses
            &&& run.model == subagent.model
        },
        None => {
            &&& run.agent == summary.session_total
            &&& text::texts(run.files_read@) == text::texts(summary.parent_files_read@)
            &&& run.turns == 0
            &&& run.tool_uses == summary.parent_tool_uses
            &&& run.model == summary.model
        },
    }
}

pub const REPORTED_AN_ERROR: &'static str = "the agent reported an error: ";

/// Reads back what a finished run says; a run that reported an error says only that.
pub fn agent_run(
    summary: StreamSummary,
    transcript: Option<TranscriptSummary>,
    relied: Option<Vec<String>>,
    wall_ms: u64,
) -> (run: Result<AgentRun, String>)
    ensures
        match run {
            Ok(run) => !summary.is_error && is_agent_run(
                summary,
                transcript,
                json::texts_of(relied),
                wall_ms,
                run,
            ),
            Err(message) => summary.is_error && message@ == REPORTED_AN_ERROR@ + summary.answer@,
        },
{
    if summary.is_error {
        let mut message: String = REPORTED_AN_ERROR.to_owned();
        message.append(summary.answer.as_str());
        return Err(message);
    }
    let agent_wall_ms: Option<u64> = if summary.tasks.len() > 0 {
        summary.tasks[0].duration_ms
    } else {
        None
    };
    match transcript {
        Some(subagent) => Ok(
            AgentRun {
                files_relied: relied,
                files_read: subagent.files_read,
                agent: subagent.usage,
                parent: summary.parent_total,
                session: summary.session_total,
                turns: subagent.turns,
                tool_uses: subagent.tool_uses,
                parent_tool_uses: summary.parent_tool_uses,
                cost_usd: summary.cost_usd,
                wall_ms,
                agent_wall_ms,
                model: subagent.model,
                from_transcript: true,
            },
        ),
        None => Ok(
            AgentRun {
                files_relied: relied,
                files_read: summary.parent_files_read,
                agent: summary.session_total,
                parent: summary.parent_total,
                session: summary.session_total,
                turns: 0,
                tool_uses: summary.parent_tool_uses,
                parent_tool_uses: summary.parent_tool_uses,
                cost_usd: summary.cost_usd,
                wall_ms,
                agent_wall_ms,
                model: summary.model,
                from_transcript: false,
            },
        ),
    }
}

/// The files an agent relied on, where it said so.
pub open spec fn relied_on(run: AgentRun) -> Seq<Seq<char>> {
    match run.files_relied {
        Some(files) => text::texts(files@),
        None => Seq::empty(),
    }
}

/// One where an agent wrote the list of files it was asked for, else zero.
pub open spec fn parsed(run: AgentRun) -> u64 {
    if run.files_relied is Some {
        1
    } else {
        0
    }
}

/// What an agent's files come to, given each list of them once and in order.
pub open spec fn with_files(
    run: AgentRun,
    wanted: Seq<Seq<char>>,
    relied: Seq<Seq<char>>,
    read: Seq<Seq<char>>,
) -> Seq<(Seq<char>, Num)> {
    let list = scored(Seq::empty(), ""@, wanted, relied);
    let list = scored(list, "read_"@, wanted, read);
    list.push((""@ + "relied_parsed"@, Num::Whole(parsed(run)))).push(
        (""@ + "files_relied"@, Num::Whole(relied.len() as u64)),
    ).push((""@ + "files_opened"@, Num::Whole(read.len() as u64))).push(
        (""@ + "wall_ms"@, Num::Whole(run.wall_ms)),
    ).push((""@ + "cost_usd"@, Num::Double(run.cost_usd)))
}

/// Whether an agent's tokens can be added up.
pub open spec fn is_billable(run: AgentRun) -> bool {
    run.agent.sum() <= u64::MAX && run.parent.sum() <= u64::MAX && run.session.sum() <= u64::MAX
}

fn distinct_relied(run: &AgentRun) -> (list: Vec<String>)
    ensures
        gold::is_path_set(relied_on(*run), text::texts(list@)),
{
    match &run.files_relied {
        Some(files) => gold::distinct_paths(files),
        None => {
            let list: Vec<String> = Vec::new();
            assert(text::texts(list@) =~= Seq::<Seq<char>>::empty());
            list
        },
    }
}

fn put_files(
    table: &mut Table<Num>,
    run: &AgentRun,
    wanted: &Vec<String>,
    relied: &Vec<String>,
    read: &Vec<String>,
)
    requires
        tabulates(Seq::empty(), *old(table)),
    ensures
        tabulates(
            with_files(
                *run,
                text::texts(wanted@),
                text::texts(relied@),
                text::texts(read@),
            ),
            *final(table),
        ),
{
    let ghost list1 = scored(Seq::empty(), ""@, text::texts(wanted@), text::texts(relied@));
    let ghost list2 = scored(list1, "read_"@, text::texts(wanted@), text::texts(read@));
    score(table, "", wanted, relied, Ghost(Seq::empty()));
    score(table, "read_", wanted, read, Ghost(list1));
    let said: u64 = if run.files_relied.is_some() {
        1
    } else {
        0
    };
    assert(text::texts(relied@).len() == relied.len());
    assert(text::texts(read@).len() == read.len());
    let ghost list3 = list2.push((""@ + "relied_parsed"@, Num::Whole(said)));
    let ghost list4 = list3.push((""@ + "files_relied"@, Num::Whole(relied.len() as u64)));
    let ghost list5 = list4.push((""@ + "files_opened"@, Num::Whole(read.len() as u64)));
    let ghost list6 = list5.push((""@ + "wall_ms"@, Num::Whole(run.wall_ms)));
    put(table, "", "relied_parsed", Num::Whole(said), Ghost(list2));
    put(table, "", "files_relied", Num::Whole(relied.len() as u64), Ghost(list3));
    put(table, "", "files_opened", Num::Whole(read.len() as u64), Ghost(list4));
    put(table, "", "wall_ms", Num::Whole(run.wall_ms), Ghost(list5));
    put(table, "", "cost_usd", Num::Double(run.cost_usd), Ghost(list6));
}

fn no_metrics() -> (table: Table<Num>)
    ensures
        tabulates(Seq::empty(), table),
{
    Table::new()
}

/// What the Explore condition measures of a run.
pub open spec fn explore_list(
    run: AgentRun,
    wanted: Seq<Seq<char>>,
    relied: Seq<Seq<char>>,
    read: Seq<Seq<char>>,
) -> Seq<(Seq<char>, Num)> {
    let list = with_files(run, wanted, relied, read);
    let list = list.push((""@ + "session_total_tokens"@, Num::Whole(run.session.sum() as u64)));
    let list = list.push((""@ + "parent_total_tokens"@, Num::Whole(run.parent.sum() as u64)));
    let list = list.push((""@ + "parent_tool_uses"@, Num::Whole(run.parent_tool_uses as u64)));
    let list = with_tokens(list, "agent_"@, run.agent);
    let list = list.push((""@ + "agent_turns"@, Num::Whole(run.turns as u64)));
    let list = list.push((""@ + "agent_tool_uses"@, Num::Whole(run.tool_uses as u64)));
    let list = match run.agent_wall_ms {
        Some(ms) => list.push((""@ + "agent_wall_ms"@, Num::Whole(ms))),
        None => list,
    };
    if run.session.sum() > 0 {
        list.push((""@ + "agent_cost_share_usd"@, cost_share(run)))
    } else {
        list
    }
}

/// A run is priced, not an agent: apportioning by tokens is the closest a caller gets to what the
/// subagent alone cost.
pub open spec fn cost_share(run: AgentRun) -> Num {
    Num::Times(
        Box::new(Num::Double(run.cost_usd)),
        Box::new(
            Num::Over(
                Box::new(Num::Whole(run.agent.sum() as u64)),
                Box::new(Num::Whole(run.session.sum() as u64)),
            ),
        ),
    )
}

/// Whether metrics are those that the Explore condition measures of a run.
pub open spec fn is_explore(run: AgentRun, query: Query, table: Table<Num>) -> bool {
    exists|wanted: Seq<Seq<char>>, relied: Seq<Seq<char>>, read: Seq<Seq<char>>|
        #![trigger explore_list(run, wanted, relied, read)]
        gold::is_path_set(text::texts(query.wanted@), wanted) && gold::is_path_set(
            relied_on(run),
            relied,
        ) && gold::is_path_set(text::texts(run.files_read@), read) && tabulates(
            explore_list(run, wanted, relied, read),
            table,
        )
}

/// The Explore condition: a parent agent that hands the query to a subagent, measured on the
/// subagent's own tokens.
pub fn explore_metrics(run: &AgentRun, query: &Query) -> (table: Table<Num>)
    requires
        is_billable(*run),
    ensures
        is_explore(*run, *query, table),
{
    let wanted: Vec<String> = query.wanted();
    let relied: Vec<String> = distinct_relied(run);
    let read: Vec<String> = gold::distinct_paths(&run.files_read);
    let ghost (w, r, f) = (text::texts(wanted@), text::texts(relied@), text::texts(read@));
    let mut table: Table<Num> = no_metrics();
    put_files(&mut table, run, &wanted, &relied, &read);
    let session: u64 = run.session.total();
    let parent: u64 = run.parent.total();
    let agent: u64 = run.agent.total();
    let ghost list1 = with_files(*run, w, r, f);
    put(&mut table, "", "session_total_tokens", Num::Whole(session), Ghost(list1));
    let ghost list2 = list1.push((""@ + "session_total_tokens"@, Num::Whole(session)));
    put(&mut table, "", "parent_total_tokens", Num::Whole(parent), Ghost(list2));
    let ghost told = list2.push((""@ + "parent_total_tokens"@, Num::Whole(parent)));
    put(
        &mut table,
        "",
        "parent_tool_uses",
        Num::Whole(run.parent_tool_uses as u64),
        Ghost(told),
    );
    let ghost list3 = told.push(
        (""@ + "parent_tool_uses"@, Num::Whole(run.parent_tool_uses as u64)),
    );
    tokens(&mut table, "agent_", run.agent, Ghost(list3));
    let ghost list4 = with_tokens(list3, "agent_"@, run.agent);
    put(&mut table, "", "agent_turns", Num::Whole(run.turns as u64), Ghost(list4));
    let ghost list5 = list4.push((""@ + "agent_turns"@, Num::Whole(run.turns as u64)));
    put(&mut table, "", "agent_tool_uses", Num::Whole(run.tool_uses as u64), Ghost(list5));
    let ghost list6 = list5.push((""@ + "agent_tool_uses"@, Num::Whole(run.tool_uses as u64)));
    let ghost mut list7 = list6;
    match run.agent_wall_ms {
        Some(ms) => {
            put(&mut table, "", "agent_wall_ms", Num::Whole(ms), Ghost(list6));
            proof {
                list7 = list6.push((""@ + "agent_wall_ms"@, Num::Whole(ms)));
            }
        },
        None => {},
    }
    if session > 0 {
        let part = Num::Over(Box::new(Num::Whole(agent)), Box::new(Num::Whole(session)));
        let cost = Num::Times(Box::new(Num::Double(run.cost_usd)), Box::new(part));
        put(&mut table, "", "agent_cost_share_usd", cost, Ghost(list7));
    }
    assert(tabulates(explore_list(*run, w, r, f), table));
    table
}

/// What the condition of an agent handed a reading list measures of a run. No subagent here: the
/// agent that was handed the list is the one measured.
pub open spec fn list_agent_list(
    run: AgentRun,
    wanted: Seq<Seq<char>>,
    relied: Seq<Seq<char>>,
    read: Seq<Seq<char>>,
) -> Seq<(Seq<char>, Num)> {
    with_tokens(with_files(run, wanted, relied, read), "agent_"@, run.session).push(
        (""@ + "parent_total_tokens"@, Num::Whole(run.parent.sum() as u64)),
    )
}

pub open spec fn is_list_agent(run: AgentRun, query: Query, table: Table<Num>) -> bool {
    exists|wanted: Seq<Seq<char>>, relied: Seq<Seq<char>>, read: Seq<Seq<char>>|
        #![trigger list_agent_list(run, wanted, relied, read)]
        gold::is_path_set(text::texts(query.wanted@), wanted) && gold::is_path_set(
            relied_on(run),
            relied,
        ) && gold::is_path_set(text::texts(run.files_read@), read) && tabulates(
            list_agent_list(run, wanted, relied, read),
            table,
        )
}

pub fn list_agent_metrics(run: &AgentRun, query: &Query) -> (table: Table<Num>)
    requires
        is_billable(*run),
    ensures
        is_list_agent(*run, *query, table),
{
    let wanted: Vec<String> = query.wanted();
    let relied: Vec<String> = distinct_relied(run);
    let read: Vec<String> = gold::distinct_paths(&run.files_read);
    let ghost (w, r, f) = (text::texts(wanted@), text::texts(relied@), text::texts(read@));
    let mut table: Table<Num> = no_metrics();
    put_files(&mut table, run, &wanted, &relied, &read);
    let ghost list1 = with_files(*run, w, r, f);
    tokens(&mut table, "agent_", run.session, Ghost(list1));
    let ghost list2 = with_tokens(list1, "agent_"@, run.session);
    let parent: u64 = run.parent.total();
    put(&mut table, "", "parent_total_tokens", Num::Whole(parent), Ghost(list2));
    assert(tabulates(list_agent_list(*run, w, r, f), table));
    table
}

/// What an agent's tokens add up to, where that fits.
pub fn can_bill(run: &AgentRun) -> (yes: bool)
    ensures
        yes == is_billable(*run),
{
    run.agent.can_total() && run.parent.can_total() && run.session.can_total()
}

/// What a million tokens of judging cost, in dollars: the bits of 0.042.
pub const PRICE_PER_MTOK: u64 = 0x3fa5_8106_24dd_2f1b;

/// What tokens of judging cost.
pub open spec fn price(tokens: u64) -> Num {
    Num::Times(
        Box::new(
            Num::Over(Box::new(Num::Whole(tokens)), Box::new(Num::Whole(1_000_000))),
        ),
        Box::new(Num::Double(PRICE_PER_MTOK)),
    )
}

pub fn price_of(tokens: u64) -> (cost: Num)
    ensures
        cost == price(tokens),
{
    Num::Times(
        Box::new(
            Num::Over(Box::new(Num::Whole(tokens)), Box::new(Num::Whole(1_000_000))),
        ),
        Box::new(Num::Double(PRICE_PER_MTOK)),
    )
}

/// What the walk condition measures of a reading list: what it bought where it was cold, and
/// nothing where every judgment was stored already.
pub open spec fn walk_list(
    reading: Reading,
    wall_ms: u64,
    spent: Option<(u64, u64)>,
    wanted: Seq<Seq<char>>,
    returned: Seq<Seq<char>>,
) -> Seq<(Seq<char>, Num)> {
    let list = scored(Seq::empty(), ""@, wanted, returned);
    let list = list.push((""@ + "files_opened"@, Num::Whole(returned.len() as u64)));
    let list = list.push((""@ + "files_visited"@, Num::Whole(reading.visited as u64)));
    let list = list.push((""@ + "agent_read_tokens"@, Num::Whole(reading.read_tokens as u64)));
    let list = list.push((""@ + "wall_ms"@, Num::Whole(wall_ms)));
    let list = list.push((""@ + "jev_calls"@, Num::Whole(reading.calls)));
    match spent {
        Some((input, output)) => list.push((""@ + "jev_input_tokens"@, Num::Whole(input))).push(
            (""@ + "jev_output_tokens"@, Num::Whole(output)),
        ).push((""@ + "jev_cost_usd"@, price(input))).push((""@ + "cost_usd"@, price(input))),
        None => list.push((""@ + "cost_usd"@, Num::Whole(0))),
    }
}

pub open spec fn is_walk(
    reading: Reading,
    query: Query,
    wall_ms: u64,
    spent: Option<(u64, u64)>,
    table: Table<Num>,
) -> bool {
    exists|wanted: Seq<Seq<char>>, returned: Seq<Seq<char>>|
        #![trigger walk_list(reading, wall_ms, spent, wanted, returned)]
        gold::is_path_set(text::texts(query.wanted@), wanted) && gold::is_path_set(
            text::texts(reading.files@),
            returned,
        ) && tabulates(walk_list(reading, wall_ms, spent, wanted, returned), table)
}

/// The walk condition: what it returned, and what that cost to buy where it was cold.
pub fn walk_metrics(
    reading: &Reading,
    query: &Query,
    wall_ms: u64,
    spent: Option<(u64, u64)>,
) -> (table: Table<Num>)
    ensures
        is_walk(*reading, *query, wall_ms, spent, table),
{
    let wanted: Vec<String> = query.wanted();
    let returned: Vec<String> = gold::distinct_paths(&reading.files);
    let ghost (w, r) = (text::texts(wanted@), text::texts(returned@));
    let mut table: Table<Num> = no_metrics();
    score(&mut table, "", &wanted, &returned, Ghost(Seq::empty()));
    let ghost list1 = scored(Seq::empty(), ""@, w, r);
    assert(r.len() == returned.len());
    let opened: u64 = returned.len() as u64;
    put(&mut table, "", "files_opened", Num::Whole(opened), Ghost(list1));
    let ghost list2 = list1.push((""@ + "files_opened"@, Num::Whole(opened)));
    let visited: u64 = reading.visited as u64;
    put(&mut table, "", "files_visited", Num::Whole(visited), Ghost(list2));
    let ghost list3 = list2.push((""@ + "files_visited"@, Num::Whole(visited)));
    let read: u64 = reading.read_tokens as u64;
    put(&mut table, "", "agent_read_tokens", Num::Whole(read), Ghost(list3));
    let ghost list4 = list3.push((""@ + "agent_read_tokens"@, Num::Whole(read)));
    put(&mut table, "", "wall_ms", Num::Whole(wall_ms), Ghost(list4));
    let ghost list5 = list4.push((""@ + "wall_ms"@, Num::Whole(wall_ms)));
    put(&mut table, "", "jev_calls", Num::Whole(reading.calls), Ghost(list5));
    let ghost list6 = list5.push((""@ + "jev_calls"@, Num::Whole(reading.calls)));
    match spent {
        Some((input, output)) => {
            put(&mut table, "", "jev_input_tokens", Num::Whole(input), Ghost(list6));
            let ghost list7 = list6.push((""@ + "jev_input_tokens"@, Num::Whole(input)));
            put(&mut table, "", "jev_output_tokens", Num::Whole(output), Ghost(list7));
            let ghost list8 = list7.push((""@ + "jev_output_tokens"@, Num::Whole(output)));
            put(&mut table, "", "jev_cost_usd", price_of(input), Ghost(list8));
            let ghost list9 = list8.push((""@ + "jev_cost_usd"@, price(input)));
            put(&mut table, "", "cost_usd", price_of(input), Ghost(list9));
        },
        None => {
            put(&mut table, "", "cost_usd", Num::Whole(0), Ghost(list6));
        },
    }
    assert(tabulates(walk_list(*reading, wall_ms, spent, w, r), table));
    table
}

} // verus!
