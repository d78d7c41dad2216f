//! What is measured: the ways of asking, and the walks that a measurement makes.

use vstd::prelude::*;

use crate::cache;
use crate::cli::Admission;
use crate::counting;
use crate::doc;
use crate::doc::{Doc, DocView, Form, Num};
use crate::doubles;
use crate::eval::runs;
use crate::eval::runs::{Bill, Run, Spent};
use crate::json;
use crate::text;

verus! {

/// Most link hops from an entry file.
pub const MAX_DEPTH: usize = 6;

/// Frontier files expanded per round.
pub const FANOUT: usize = 8;

/// How many files a walk following shares visits at one depth.
pub const BEAM: usize = 8;

/// The thresholds the sweep walks at: the bits of 0.5, 0.6, 0.7 and 0.8.
pub const SWEEP: [u64; 4] = [
    0x3fe0_0000_0000_0000,
    0x3fe3_3333_3333_3333,
    0x3fe6_6666_6666_6666,
    0x3fe9_9999_9999_999a,
];

/// The bits of one.
pub const ONE: u64 = 0x3ff0_0000_0000_0000;

/// How a walk's links are judged: one yes/no question each, or one choice over a page's links.
#[derive(PartialEq, Eq, Structural, Clone, Copy)]
pub enum Links {
    Noul,
    Choice,
}

/// What a link is judged from.
#[derive(PartialEq, Eq, Structural, Clone, Copy)]
pub struct Context {
    /// Whether the target is previewed.
    pub previews: bool,
    /// Whether a preview carries the target's frontmatter.
    pub frontmatter: bool,
    /// Whether it carries the target's headings.
    pub headings: bool,
    /// Whether it carries the anchors of the target's own links.
    pub leads: bool,
    /// Whether the question is asked about two hops.
    pub two_hop: bool,
}

/// What a share has to hold to be kept: the bits of a double, and how many options' worth.
#[derive(PartialEq, Eq, Structural, Clone, Copy)]
pub struct KeepRule {
    pub floor: u64,
    pub k: u64,
}

/// The bits of 0.02.
pub const FLOOR: u64 = 0x3f94_7ae1_47ae_147b;

/// How many options' worth of a question's mass a link has to hold.
pub const KEEP_K: u64 = 3;

pub const LOOSE_K: u64 = 1;

/// One measured way of asking: which link judgment is asked, the state it is asked from, the
/// register the questions are put in, by its place among the registers, and what a share has to
/// hold to be kept.
#[derive(PartialEq, Eq, Structural, Clone, Copy)]
pub struct Policy {
    pub links: Links,
    pub context: Context,
    pub wording: Option<usize>,
    pub keep: KeepRule,
}

/// The state that ships.
pub open spec fn shipped() -> Context {
    Context { previews: true, frontmatter: true, headings: true, leads: true, two_hop: true }
}

pub fn shipped_context() -> (context: Context)
    ensures
        context == shipped(),
{
    Context { previews: true, frontmatter: true, headings: true, leads: true, two_hop: true }
}

/// The state of the link context in each row of the preview table: what ships, then each knob
/// turned off on its own.
pub open spec fn preview_context(row: int) -> Context {
    if row == 0 {
        shipped()
    } else if row == 1 {
        Context { frontmatter: false, ..shipped() }
    } else {
        Context { previews: false, ..shipped() }
    }
}

pub const PREVIEWS: [&'static str; 3] = [
    "previews on (default)",
    "previews, no frontmatter",
    "previews off",
];

pub fn context_of_preview(row: usize) -> (context: Context)
    ensures
        context == preview_context(row as int),
{
    let mut context: Context = shipped_context();
    if row == 1 {
        context.frontmatter = false;
    } else if row > 1 {
        context.previews = false;
    }
    context
}

/// The state in each row of the link-context table: what ships, then one part of the state or the
/// question taken away at a time, then the state that was asked from before any of them was there.
pub open spec fn ablation(row: int) -> Context {
    if row == 0 {
        shipped()
    } else if row == 1 {
        Context { headings: false, ..shipped() }
    } else if row == 2 {
        Context { leads: false, ..shipped() }
    } else if row == 3 {
        Context { two_hop: false, ..shipped() }
    } else {
        Context { headings: false, leads: false, two_hop: false, ..shipped() }
    }
}

pub const CONTEXTS: [&'static str; 5] = [
    "what ships (default)",
    "no headings",
    "no leads_to",
    "one hop",
    "before #46",
];

pub fn context_of_ablation(row: usize) -> (context: Context)
    ensures
        context == ablation(row as int),
{
    let mut context: Context = shipped_context();
    if row == 1 || row > 3 {
        context.headings = false;
    }
    if row == 2 || row > 3 {
        context.leads = false;
    }
    if row >= 3 {
        context.two_hop = false;
    }
    context
}

impl Policy {
    /// The walk that ships, at one state of the link context.
    pub open spec fn plain(context: Context) -> Policy {
        Policy {
            links: Links::Noul,
            context,
            wording: None,
            keep: KeepRule { floor: FLOOR, k: KEEP_K },
        }
    }

    pub fn noul(context: Context) -> (policy: Policy)
        ensures
            policy == Policy::plain(context),
    {
        Policy {
            links: Links::Noul,
            context,
            wording: None,
            keep: KeepRule { floor: FLOOR, k: KEEP_K },
        }
    }

    /// The same walk with its questions in a register.
    pub fn worded(wording: usize) -> (policy: Policy)
        ensures
            policy == (Policy { wording: Some(wording), ..Policy::plain(shipped()) }),
    {
        let mut policy: Policy = Policy::noul(shipped_context());
        policy.wording = Some(wording);
        policy
    }

    /// How the walk admits a link: a yes/no answer against the caller's threshold, a share against
    /// the scorer's own rule.
    pub fn admission(&self, threshold: u64) -> (admission: Admission)
        ensures
            admission == match self.links {
                Links::Noul => Admission::Threshold(threshold),
                Links::Choice => Admission::Scorer,
            },
    {
        match self.links {
            Links::Noul => Admission::Threshold(threshold),
            Links::Choice => Admission::Scorer,
        }
    }

    /// The beam the walk runs with: none at all for the walk that ships.
    pub fn beam(&self) -> (beam: Option<usize>)
        ensures
            beam == match self.links {
                Links::Noul => None,
                Links::Choice => Some(BEAM),
            },
    {
        match self.links {
            Links::Noul => None,
            Links::Choice => Some(BEAM),
        }
    }
}

/// The way of asking in each row of the relative-judge table.
pub open spec fn relative_policy(row: int) -> Policy {
    if row == 0 {
        Policy::plain(shipped())
    } else {
        Policy {
            links: Links::Choice,
            context: if row == 1 {
                Context { previews: false, ..shipped() }
            } else {
                shipped()
            },
            wording: None,
            keep: KeepRule {
                floor: FLOOR,
                k: if row < 3 {
                    KEEP_K
                } else {
                    LOOSE_K
                },
            },
        }
    }
}

pub const POLICIES: [&'static str; 4] = [
    "noul: what ships",
    "choice",
    "choice + previews",
    "choice + previews, k=1",
];

pub fn policy_of_row(row: usize) -> (policy: Policy)
    ensures
        policy == relative_policy(row as int),
{
    if row == 0 {
        return Policy::noul(shipped_context());
    }
    let mut context: Context = shipped_context();
    if row == 1 {
        context.previews = false;
    }
    let k: u64 = if row < 3 {
        KEEP_K
    } else {
        LOOSE_K
    };
    Policy { links: Links::Choice, context, wording: None, keep: KeepRule { floor: FLOOR, k } }
}

/// Which table a walk of the gold set is for.
#[derive(PartialEq, Eq, Structural, Clone, Copy)]
pub enum Stage {
    /// At a budget, by its place among the budgets.
    Budget(usize),
    /// At a swept threshold, by its place.
    Sweep(usize),
    /// A row of the preview table.
    Preview(usize),
    /// A row of the link-context table.
    Context(usize),
    /// A row of the relative-judge table.
    Relative(usize),
    /// A register, by its place.
    Wording(usize),
}

/// One walk of the whole gold set.
#[derive(PartialEq, Eq, Structural, Clone, Copy)]
pub struct Pass {
    pub stage: Stage,
    pub budget: usize,
    pub threshold: u64,
    pub policy: Policy,
}

/// What is measured.
pub struct Asked {
    /// The file budgets, smallest first.
    pub budgets: Vec<usize>,
    /// The threshold of the main runs: the bits of a double.
    pub threshold: u64,
    /// Whether the relative judge is measured.
    pub relative: bool,
    /// How many registers are measured.
    pub wordings: usize,
}

impl Asked {
    /// The walk of the gold set at each budget.
    pub open spec fn at_budgets(self) -> Seq<Pass> {
        Seq::new(
            self.budgets.len() as nat,
            |i: int|
                Pass {
                    stage: Stage::Budget(i as usize),
                    budget: self.budgets@[i],
                    threshold: self.threshold,
                    policy: Policy::plain(shipped()),
                },
        )
    }

    pub open spec fn swept(self) -> Seq<Pass> {
        Seq::new(
            4,
            |i: int|
                Pass {
                    stage: Stage::Sweep(i as usize),
                    budget: self.budgets@[0],
                    threshold: SWEEP@[i],
                    policy: Policy::plain(shipped()),
                },
        )
    }

    /// A walk at the smallest budget, in another way of asking.
    pub open spec fn tight(self, stage: Stage, policy: Policy) -> Pass {
        Pass { stage, budget: self.budgets@[0], threshold: self.threshold, policy }
    }

    /// The rows of the preview table but the first, which the gold set has already walked.
    pub open spec fn previewed(self) -> Seq<Pass> {
        Seq::new(
            2,
            |i: int|
                self.tight(
                    Stage::Preview((i + 1) as usize),
                    Policy::plain(preview_context(i + 1)),
                ),
        )
    }

    pub open spec fn ablated(self) -> Seq<Pass> {
        Seq::new(
            4,
            |i: int|
                self.tight(Stage::Context((i + 1) as usize), Policy::plain(ablation(i + 1))),
        )
    }

    pub open spec fn related(self) -> Seq<Pass> {
        Seq::new(
            if self.relative {
                3
            } else {
                0
            },
            |i: int| self.tight(Stage::Relative((i + 1) as usize), relative_policy(i + 1)),
        )
    }

    pub open spec fn reworded(self) -> Seq<Pass> {
        Seq::new(
            self.wordings as nat,
            |i: int|
                self.tight(
                    Stage::Wording(i as usize),
                    (Policy { wording: Some(i as usize), ..Policy::plain(shipped()) }),
                ),
        )
    }

    /// Every walk of the gold set, in order: smallest budget first, since a bigger one visits a
    /// superset of the same files; what ships is walked once, and every table starts from it.
    pub open spec fn planned(self) -> Seq<Pass> {
        self.at_budgets() + self.swept() + self.previewed() + self.ablated() + self.related()
            + self.reworded()
    }

    pub fn passes(&self) -> (passes: Vec<Pass>)
        requires
            self.budgets.len() > 0,
        ensures
            passes@ == self.planned(),
    {
        let mut passes: Vec<Pass> = Vec::new();
        let tight: usize = self.budgets[0];
        for i in 0..self.budgets.len()
            invariant
                passes@ =~= self.at_budgets().take(i as int),
        {
            passes.push(
                Pass {
                    stage: Stage::Budget(i),
                    budget: self.budgets[i],
                    threshold: self.threshold,
                    policy: Policy::noul(shipped_context()),
                },
            );
        }
        let ghost done = self.at_budgets();
        assert(passes@ =~= done);
        for i in 0..4usize
            invariant
                tight == self.budgets@[0],
                passes@ =~= done + self.swept().take(i as int),
        {
            passes.push(
                Pass {
                    stage: Stage::Sweep(i),
                    budget: tight,
                    threshold: SWEEP[i],
                    policy: Policy::noul(shipped_context()),
                },
            );
        }
        let ghost done = done + self.swept();
        assert(passes@ =~= done);
        for i in 0..2usize
            invariant
                tight == self.budgets@[0],
                passes@ =~= done + self.previewed().take(i as int),
        {
            passes.push(
                Pass {
                    stage: Stage::Preview(i + 1),
                    budget: tight,
                    threshold: self.threshold,
                    policy: Policy::noul(context_of_preview(i + 1)),
                },
            );
        }
        let ghost done = done + self.previewed();
        assert(passes@ =~= done);
        for i in 0..4usize
            invariant
                tight == self.budgets@[0],
                passes@ =~= done + self.ablated().take(i as int),
        {
            passes.push(
                Pass {
                    stage: Stage::Context(i + 1),
                    budget: tight,
                    threshold: self.threshold,
                    policy: Policy::noul(context_of_ablation(i + 1)),
                },
            );
        }
        let ghost done = done + self.ablated();
        assert(passes@ =~= done);
        let rows: usize = if self.relative {
            3
        } else {
            0
        };
        for i in 0..rows
            invariant
                rows <= 3,
                rows == self.related().len(),
                tight == self.budgets@[0],
                passes@ =~= done + self.related().take(i as int),
        {
            passes.push(
                Pass {
                    stage: Stage::Relative(i + 1),
                    budget: tight,
                    threshold: self.threshold,
                    policy: policy_of_row(i + 1),
                },
            );
        }
        let ghost done = done + self.related();
        assert(passes@ =~= done);
        for i in 0..self.wordings
            invariant
                tight == self.budgets@[0],
                passes@ =~= done + self.reworded().take(i as int),
        {
            passes.push(
                Pass {
                    stage: Stage::Wording(i),
                    budget: tight,
                    threshold: self.threshold,
                    policy: Policy::worded(i),
                },
            );
        }
        assert(passes@ =~= done + self.reworded());
        passes
    }
}

/// No walk of a measurement is made twice: two of them differ in the table they are for.
pub proof fn nothing_is_walked_twice(asked: Asked, a: int, b: int)
    requires
        0 <= a < b < asked.planned().len(),
    ensures
        asked.planned()[a].stage != asked.planned()[b].stage,
{
}

/// Whether budgets are those of a list, each once, smallest first.
pub open spec fn are_budgets(list: Seq<usize>, budgets: Seq<usize>) -> bool {
    &&& forall|i: int, j: int|
        0 <= i < j < budgets.len() ==> #[trigger] budgets[i] < #[trigger] budgets[j]
    &&& forall|n: usize| #[trigger] budgets.contains(n) == list.contains(n)
}

fn add_budget(budgets: &mut Vec<usize>, n: usize)
    requires
        forall|i: int, j: int|
            0 <= i < j < old(budgets).len() ==> #[trigger] old(budgets)@[i]
                < #[trigger] old(budgets)@[j],
    ensures
        forall|i: int, j: int|
            0 <= i < j < final(budgets).len() ==> #[trigger] final(budgets)@[i]
                < #[trigger] final(budgets)@[j],
        forall|m: usize| #[trigger]
            final(budgets)@.contains(m) == (old(budgets)@.contains(m) || m == n),
{
    let ghost was = budgets@;
    let mut at: usize = 0;
    while at < budgets.len() && budgets[at] < n
        invariant
            at <= budgets.len(),
            budgets@ == was,
            forall|k: int| 0 <= k < at ==> #[trigger] was[k] < n,
        decreases budgets.len() - at,
    {
        at += 1;
    }
    if at < budgets.len() && budgets[at] == n {
        assert(was[at as int] == n);
        return ;
    }
    budgets.insert(at, n);
    assert forall|m: usize| #[trigger] budgets@.contains(m) == (was.contains(m) || m == n) by {
        if was.contains(m) {
            let k = choose|k: int| 0 <= k < was.len() && was[k] == m;
            if k < at {
                assert(budgets@[k] == m);
            } else {
                assert(budgets@[k + 1] == m);
            }
        }
        if m == n {
            assert(budgets@[at as int] == m);
        }
        if budgets@.contains(m) {
            let k = choose|k: int| 0 <= k < budgets@.len() && budgets@[k] == m;
            if k < at {
                assert(was[k] == m);
            } else if k > at {
                assert(was[k - 1] == m);
            }
        }
    }
}

/// The budgets of a list, each once, smallest first.
pub fn sorted_budgets(list: &Vec<usize>) -> (budgets: Vec<usize>)
    ensures
        are_budgets(list@, budgets@),
{
    let mut budgets: Vec<usize> = Vec::new();
    for i in 0..list.len()
        invariant
            are_budgets(list@.take(i as int), budgets@),
    {
        let ghost was = budgets@;
        add_budget(&mut budgets, list[i]);
        proof {
            counting::holds_one_more(list@, i as int);
            assert forall|n: usize| #[trigger] budgets@.contains(n) == list@.take(
                i + 1,
            ).contains(n) by {
                assert(was.contains(n) == list@.take(i as int).contains(n));
            }
        }
    }
    proof {
        counting::take_all(list@);
    }
    budgets
}

pub const NO_BUDGET: &'static str = "--budgets wants at least one budget of one file or more";

/// What stands against what a caller asked to measure.
pub open spec fn asked_fault(budgets: Seq<usize>, threshold: u64) -> Option<DocView> {
    if budgets.len() == 0 || budgets.contains(0) {
        Some(DocView::empty().text(NO_BUDGET@))
    } else if !(doubles::reaches(threshold, 0) && doubles::reaches(ONE, threshold)) {
        Some(
            DocView::empty().fill(
                "--threshold {} is not between 0 and 1"@,
                doc::none().push(doc::shown(Num::Double(threshold), Form::Plain)),
            ),
        )
    } else {
        None
    }
}

/// Whether what a caller asked can be measured, and what stands against it.
pub fn check_asked(budgets: &Vec<usize>, threshold: u64) -> (checked: Result<(), Doc>)
    ensures
        match checked {
            Ok(_) => asked_fault(budgets@, threshold) is None,
            Err(message) => asked_fault(budgets@, threshold) == Some(message@),
        },
{
    let mut empty: bool = budgets.len() == 0;
    for i in 0..budgets.len()
        invariant
            empty == (budgets.len() == 0 || budgets@.take(i as int).contains(0)),
    {
        proof {
            counting::holds_one_more(budgets@, i as int);
        }
        if budgets[i] == 0 {
            empty = true;
        }
    }
    proof {
        counting::take_all(budgets@);
    }
    if empty {
        let mut message: Doc = Doc::new();
        message.text(NO_BUDGET);
        return Err(message);
    }
    if !(doubles::is_at_least(threshold, 0) && doubles::is_at_least(ONE, threshold)) {
        let mut message: Doc = Doc::new();
        message.fill(
            "--threshold {} is not between 0 and 1",
            doc::args().figure(Num::Double(threshold), Form::Plain),
        );
        return Err(message);
    }
    Ok(())
}

/// Where answers come from.
pub enum Cache {
    /// Every judgment is bought.
    Off,
    /// Entries under the directory the caller named.
    Dir(String),
    /// Neither: the usual place.
    Env,
}

impl Cache {
    pub fn chosen(no_cache: bool, dir: &Option<String>) -> (cache: Cache)
        ensures
            no_cache ==> cache is Off,
            !no_cache && *dir is None ==> cache is Env,
            !no_cache && *dir is Some ==> cache is Dir && Some(cache->Dir_0@) == json::text_of(
                *dir,
            ),
    {
        if no_cache {
            Cache::Off
        } else {
            match dir {
                Some(dir) => Cache::Dir(dir.clone()),
                None => Cache::Env,
            }
        }
    }

    /// What the report says the answers came from.
    pub open spec fn origin(self) -> Seq<char> {
        match self {
            Cache::Off => "--no-cache: every judgment was bought"@,
            Cache::Dir(dir) => "`"@ + dir@ + "`"@,
            Cache::Env => "`"@ + cache::DIR_VAR@ + "`, else the XDG cache directory"@,
        }
    }

    pub fn label(&self) -> (label: String)
        ensures
            label@ == self.origin(),
    {
        match self {
            Cache::Off => "--no-cache: every judgment was bought".to_owned(),
            Cache::Dir(dir) => {
                let mut label: String = "`".to_owned();
                label.append(dir.as_str());
                label.append("`");
                label
            },
            Cache::Env => {
                let mut label: String = "`".to_owned();
                label.append(cache::DIR_VAR);
                label.append("`, else the XDG cache directory");
                label
            },
        }
    }

    /// The flag that puts a rerun at the same answers.
    pub fn flag(&self) -> (flag: Option<String>)
        ensures
            json::text_of(flag) == match *self {
                Cache::Off => Some("  --no-cache \\"@),
                Cache::Dir(dir) => Some("  --cache "@ + dir@ + " \\"@),
                Cache::Env => None,
            },
    {
        match self {
            Cache::Off => Some("  --no-cache \\".to_owned()),
            Cache::Dir(dir) => {
                let mut flag: String = "  --cache ".to_owned();
                flag.append(dir.as_str());
                flag.append(" \\");
                Some(flag)
            },
            Cache::Env => None,
        }
    }

    /// What a caller is told before the first walk: that every judgment is bought, or that there is
    /// no key and so a miss fails the query.
    pub fn notice(&self, key: &str) -> (notice: Option<String>)
        ensures
            json::text_of(notice) == match *self {
                Cache::Off => Some(
                    "--no-cache: every judgment is bought, and nothing is stored"@,
                ),
                _ => if text::blank(key@) {
                    Some(
                        "TYPESAFE_API_KEY is not set: every judgment has to come from "@
                            + self.origin() + ", so a miss fails the query"@,
                    )
                } else {
                    None
                },
            },
    {
        match self {
            Cache::Off => Some(
                "--no-cache: every judgment is bought, and nothing is stored".to_owned(),
            ),
            _ => if text::is_blank(key) {
                let mut notice: String =
                    "TYPESAFE_API_KEY is not set: every judgment has to come from ".to_owned();
                notice.append(self.label().as_str());
                notice.append(", so a miss fails the query");
                Some(notice)
            } else {
                None
            },
        }
    }
}

/// What runs spent, added up.
pub open spec fn bill_of_runs(runs: Seq<Run>) -> Bill
    decreases runs.len(),
{
    if runs.len() == 0 {
        Bill {
            served: 0,
            bought: 0,
            requests: 0,
            input_tokens: 0,
            bought_tokens: 0,
            latency: 0,
        }
    } else {
        bill_of_runs(runs.drop_last()).plus(runs.last().spent.bill())
    }
}

/// Whether a model answered in one of some runs.
pub open spec fn answered(runs: Seq<Run>, model: Seq<char>) -> bool {
    exists|i: int|
        0 <= i < runs.len() && text::texts((#[trigger] runs[i]).spent.models@).contains(model)
}

proof fn a_bill_grows(start: Bill, runs: Seq<Run>, n: int)
    requires
        0 <= n <= runs.len(),
    ensures
        start.plus(bill_of_runs(runs)).fits() ==> start.plus(bill_of_runs(runs.take(n))).fits(),
    decreases runs.len(),
{
    if n < runs.len() {
        assert(runs.drop_last().take(n) =~= runs.take(n));
        a_bill_grows(start, runs.drop_last(), n);
    } else {
        assert(runs.take(n) =~= runs);
    }
}

/// Adds what the runs of a walk over the gold set spent, where the sums fit.
pub fn add_runs(total: &mut Spent, runs: &Vec<Run>) -> (fits: bool)
    requires
        old(total).sound(),
    ensures
        final(total).sound(),
        fits == old(total).bill().plus(bill_of_runs(runs@)).fits(),
        fits ==> {
            &&& final(total).bill() == old(total).bill().plus(bill_of_runs(runs@))
            &&& forall|model: Seq<char>| #[trigger]
                text::texts(final(total).models@).contains(model) == (text::texts(
                    old(total).models@,
                ).contains(model) || answered(runs@, model))
        },
{
    let ghost start = total.bill();
    let ghost had = text::texts(total.models@);
    assert forall|model: Seq<char>| #[trigger]
        text::texts(total.models@).contains(model) == (had.contains(model) || answered(
            runs@.take(0),
            model,
        )) by {}
    for i in 0..runs.len()
        invariant
            total.sound(),
            start == old(total).bill(),
            had == text::texts(old(total).models@),
            total.bill() == start.plus(bill_of_runs(runs@.take(i as int))),
            forall|model: Seq<char>| #[trigger]
                text::texts(total.models@).contains(model) == (had.contains(model) || answered(
                    runs@.take(i as int),
                    model,
                )),
    {
        let ghost was = text::texts(total.models@);
        proof {
            counting::one_more(runs@, i as int);
        }
        if !total.merge(&runs[i].spent) {
            proof {
                a_bill_grows(start, runs@, i + 1);
                let next = bill_of_runs(runs@.take(i + 1));
                assert(start.plus(next) == start.plus(bill_of_runs(runs@.take(i as int))).plus(
                    runs@[i as int].spent.bill(),
                ));
            }
            return false;
        }
        proof {
            let sofar = runs@.take(i as int);
            let next = runs@.take(i + 1);
            assert forall|model: Seq<char>| #[trigger]
                text::texts(total.models@).contains(model) == (had.contains(model) || answered(
                    next,
                    model,
                )) by {
                assert(was.contains(model) == (had.contains(model) || answered(sofar, model)));
                if answered(sofar, model) {
                    let k = choose|k: int|
                        0 <= k < sofar.len() && text::texts(
                            (#[trigger] sofar[k]).spent.models@,
                        ).contains(model);
                    assert(next[k] == sofar[k]);
                }
                if text::texts(runs@[i as int].spent.models@).contains(model) {
                    assert(next[i as int] == runs@[i as int]);
                }
                if answered(next, model) {
                    let k = choose|k: int|
                        0 <= k < next.len() && text::texts(
                            (#[trigger] next[k]).spent.models@,
                        ).contains(model);
                    if k < i {
                        assert(sofar[k] == next[k]);
                    }
                }
            }
        }
    }
    proof {
        counting::take_all(runs@);
    }
    true
}

/// What a measurement tells when it is done: what this run paid, which is not what the report says.
pub fn paid(total: &Spent) -> (line: Doc)
    ensures
        line@ == DocView::empty().fill(
            "{} answers served, {} bought now for ${}; every answer used cost ${}"@,
            doc::none().push(doc::count(total.served as int)).push(
                doc::count(total.bought as int),
            ).push(
                doc::shown(crate::run::price(total.bought_tokens), Form::Fixed(6)),
            ).push(doc::shown(crate::run::price(total.input_tokens), Form::Fixed(6))),
        ),
{
    let mut line: Doc = Doc::new();
    line.fill(
        "{} answers served, {} bought now for ${}; every answer used cost ${}",
        doc::args().sum(total.served as u128).sum(total.bought as u128).figure(
            total.spent_usd(),
            Form::Fixed(6),
        ).figure(total.cost_usd(), Form::Fixed(6)),
    );
    line
}

} // verus!
