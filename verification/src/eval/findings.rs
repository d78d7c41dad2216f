//! Everything one measurement produced, for the report to be written from.

use vstd::prelude::*;

use crate::counting;
use crate::doubles;
use crate::eval::corpus;
use crate::eval::corpus::Corpus;
use crate::eval::figures;
use crate::eval::figures::{Decision, Link};
use crate::eval::labels::{Gold, Query};
use crate::eval::measure;
use crate::eval::measure::Asked;
use crate::eval::runs;
use crate::eval::runs::{Run, Spent, Visit};
use crate::doc::{Doc, DocView, Num};
use crate::gold;
use crate::paths;
use crate::sorting;
use crate::text;

verus! {

/// The gold set at a budget, and the keyword ranker at the same.
pub struct Budget {
    pub budget: usize,
    pub runs: Vec<Run>,
    pub grep: Vec<Run>,
}

/// The gold set at a swept threshold: the bits of a double.
pub struct Swept {
    pub threshold: u64,
    pub runs: Vec<Run>,
}

/// The gold set walked in another way of asking.
pub struct Row {
    pub label: String,
    pub runs: Vec<Run>,
}

/// The scents one page's links were given in one way of asking: the bits of doubles.
pub struct Scents {
    pub label: String,
    pub links: Vec<(String, u64)>,
}

/// Everything one measurement produced. A table of ways of asking starts from what ships, which is
/// the run at the smallest budget; only the other rows stand here.
pub struct Findings {
    /// The wiki that was walked, as the caller spelled it.
    pub wiki: String,
    /// The gold set that was measured against.
    pub gold_path: String,
    pub corpus: Corpus,
    pub gold: Gold,
    /// The threshold the main runs walked at: the bits of a double.
    pub threshold: u64,
    /// The gold set at each budget, smallest first.
    pub budgets: Vec<Budget>,
    pub sweep: Vec<Swept>,
    pub previews: Vec<Row>,
    pub contexts: Vec<Row>,
    /// The relative judge, where it was asked for.
    pub policies: Option<Vec<Row>>,
    /// The registers, where they were asked for.
    pub wordings: Option<Vec<Row>>,
    /// One query's entry page in each row of the preview table.
    pub scents: Vec<Scents>,
    /// Which query and page those scents are.
    pub scents_of: Option<(String, String)>,
    /// Everything the report cost.
    pub total: Spent,
    /// Where the answers came from.
    pub cache: String,
    /// The flag that puts a rerun at the same answers.
    pub cache_flag: Option<String>,
    /// The most of a question's mass that a link has to hold: the bits of a double.
    pub keep_ceiling: u64,
}

/// Whether every row has a run of every query.
pub open spec fn complete(rows: Seq<Row>, queries: nat) -> bool {
    forall|i: int| 0 <= i < rows.len() ==> (#[trigger] rows[i]).runs.len() == queries
}

impl Findings {
    /// Every table is there, with a run of every query in it.
    pub open spec fn sound(self) -> bool {
        let n = self.gold.queries.len() as nat;
        &&& self.budgets.len() > 0
        &&& self.budgets@[0].runs.len() == n
        &&& self.previews.len() == 2
        &&& self.contexts.len() == 4
        &&& complete(self.contexts@, n)
        &&& self.policies matches Some(rows) ==> complete(rows@, n)
        &&& self.wordings matches Some(rows) ==> complete(rows@, n)
        &&& self.unranked_tokens() <= u128::MAX
    }

    /// The runs that every table starts from: what ships, at the smallest budget.
    pub open spec fn shipped(self) -> Seq<Run> {
        self.budgets@[0].runs@
    }

    pub open spec fn tight(self) -> int {
        self.budgets@[0].budget as int
    }

    /// The widest budget measured.
    pub open spec fn wide(self) -> int {
        self.budgets@.last().budget as int
    }

    pub open spec fn widest(self) -> Seq<Run> {
        self.budgets@.last().runs@
    }

    /// The tokens of the whole wiki.
    pub open spec fn corpus_tokens(self) -> int {
        corpus::tokens_of(corpus::chars_in_all(self.corpus.pages@))
    }

    /// The tokens of the whole wiki, read once per query.
    pub open spec fn unranked_tokens(self) -> int {
        self.corpus_tokens() * self.gold.queries.len()
    }

    pub fn whole_corpus(&self) -> (n: u128)
        ensures
            n == self.corpus_tokens(),
    {
        corpus::tokens(self.corpus.chars())
    }
}

/// Whether the rows of a table have a run of every query.
fn are_complete(rows: &Vec<Row>, queries: usize) -> (yes: bool)
    ensures
        yes == complete(rows@, queries as nat),
{
    for i in 0..rows.len()
        invariant
            forall|k: int| 0 <= k < i ==> (#[trigger] rows@[k]).runs.len() == queries,
    {
        if rows[i].runs.len() != queries {
            assert(rows@[i as int].runs.len() != queries);
            return false;
        }
    }
    true
}

impl Findings {
    /// Whether a report can be written: every table is there, with a run of every query in it.
    pub fn is_sound(&self) -> (yes: bool)
        ensures
            yes == self.sound(),
    {
        let n: usize = self.gold.queries.len();
        if self.budgets.len() == 0 || self.previews.len() != 2 || self.contexts.len() != 4 {
            return false;
        }
        let policies: bool = match &self.policies {
            Some(rows) => are_complete(rows, n),
            None => true,
        };
        let wordings: bool = match &self.wordings {
            Some(rows) => are_complete(rows, n),
            None => true,
        };
        let counted: bool = self.whole_corpus().checked_mul(n as u128).is_some();
        self.budgets[0].runs.len() == n && are_complete(&self.contexts, n) && policies && wordings
            && counted
    }

    /// The tokens of the whole wiki, read once per query.
    pub fn unranked(&self) -> (n: u128)
        requires
            self.sound(),
        ensures
            n == self.unranked_tokens(),
    {
        self.whole_corpus() * self.gold.queries.len() as u128
    }
}

/// The query of a gold set with an id.
pub open spec fn query_with(queries: Seq<Query>, id: Seq<char>) -> Option<Query>
    decreases queries.len(),
{
    if queries.len() == 0 {
        None
    } else {
        match query_with(queries.drop_last(), id) {
            Some(query) => Some(query),
            None => if queries.last().id@ == id {
                Some(queries.last())
            } else {
                None
            },
        }
    }
}

/// The pages that the query with an id wants.
pub open spec fn pages_wanted(queries: Seq<Query>, id: Seq<char>) -> Seq<Seq<char>> {
    match query_with(queries, id) {
        Some(query) => query.pages(),
        None => Seq::empty(),
    }
}

proof fn found_stays(queries: Seq<Query>, id: Seq<char>, n: int)
    requires
        0 <= n <= queries.len(),
        query_with(queries.take(n), id) is Some,
    ensures
        query_with(queries, id) == query_with(queries.take(n), id),
    decreases queries.len(),
{
    if n < queries.len() {
        assert(queries.drop_last().take(n) =~= queries.take(n));
        found_stays(queries.drop_last(), id, n);
    } else {
        assert(queries.take(n) =~= queries);
    }
}

pub fn find_query<'a>(queries: &'a Vec<Query>, id: &str) -> (query: Option<&'a Query>)
    ensures
        match query {
            Some(query) => query_with(queries@, id@) == Some(*query),
            None => query_with(queries@, id@) is None,
        },
{
    for i in 0..queries.len()
        invariant
            query_with(queries@.take(i as int), id@) is None,
    {
        proof {
            counting::one_more(queries@, i as int);
        }
        if text::same(queries[i].id.as_str(), id) {
            proof {
                found_stays(queries@, id@, i + 1);
            }
            return Some(&queries[i]);
        }
    }
    proof {
        counting::take_all(queries@);
    }
    None
}

/// The pages that the query with an id wants, each once.
pub fn wanted_pages(queries: &Vec<Query>, id: &str) -> (pages: Vec<String>)
    ensures
        gold::is_path_set(pages_wanted(queries@, id@), text::texts(pages@)),
{
    match find_query(queries, id) {
        Some(query) => query.expected(),
        None => {
            let pages: Vec<String> = Vec::new();
            assert(text::texts(pages@) =~= Seq::<Seq<char>>::empty());
            pages
        },
    }
}

/// The judged links of a run whose target is a page of the wiki: a target outside of it has no
/// label.
pub open spec fn labelled(corpus: Corpus, run: Run, pages: Seq<Seq<char>>, n: int) -> Seq<Link>
    decreases n,
{
    if n <= 0 {
        Seq::empty()
    } else {
        let link = run.judged@[n - 1];
        let others = labelled(corpus, run, pages, n - 1);
        if corpus.holds(link.target@) {
            others.push(
                Link {
                    scent: link.scent,
                    followed: link.followed,
                    wanted: paths::holds(pages, link.target@),
                },
            )
        } else {
            others
        }
    }
}

/// How many of a run's judged links lead out of the wiki.
pub open spec fn unlabelled(corpus: Corpus, run: Run, n: int) -> nat
    decreases n,
{
    if n <= 0 {
        0
    } else {
        unlabelled(corpus, run, n - 1) + if corpus.holds(run.judged@[n - 1].target@) {
            0nat
        } else {
            1nat
        }
    }
}

/// The judged links of runs whose target is a page of the wiki.
pub open spec fn all_labelled(corpus: Corpus, queries: Seq<Query>, list: Seq<Run>) -> Seq<Link>
    decreases list.len(),
{
    if list.len() == 0 {
        Seq::empty()
    } else {
        let run = list.last();
        all_labelled(corpus, queries, list.drop_last()) + labelled(
            corpus,
            run,
            pages_wanted(queries, run.id@),
            run.judged.len() as int,
        )
    }
}

pub open spec fn all_unlabelled(corpus: Corpus, list: Seq<Run>) -> int
    decreases list.len(),
{
    if list.len() == 0 {
        0
    } else {
        all_unlabelled(corpus, list.drop_last()) + unlabelled(
            corpus,
            list.last(),
            list.last().judged.len() as int,
        )
    }
}

fn add_labelled(links: &mut Vec<Link>, corpus: &Corpus, run: &Run, queries: &Vec<Query>)
    ensures
        final(links)@ == old(links)@ + labelled(
            *corpus,
            *run,
            pages_wanted(queries@, run.id@),
            run.judged.len() as int,
        ),
{
    let pages: Vec<String> = wanted_pages(queries, run.id.as_str());
    let ghost wanted = pages_wanted(queries@, run.id@);
    let ghost was = links@;
    assert(was + labelled(*corpus, *run, wanted, 0) =~= was);
    for i in 0..run.judged.len()
        invariant
            gold::is_path_set(wanted, text::texts(pages@)),
            links@ == was + labelled(*corpus, *run, wanted, i as int),
    {
        let target: &str = run.judged[i].target.as_str();
        if corpus.has(target) {
            links.push(
                Link {
                    scent: run.judged[i].scent,
                    followed: run.judged[i].followed,
                    wanted: paths::has(&pages, target),
                },
            );
            assert(links@ =~= was + labelled(*corpus, *run, wanted, i + 1));
        }
    }
}

fn count_unlabelled(corpus: &Corpus, run: &Run) -> (n: usize)
    ensures
        n == unlabelled(*corpus, *run, run.judged.len() as int),
{
    let mut n: usize = 0;
    for i in 0..run.judged.len()
        invariant
            n == unlabelled(*corpus, *run, i as int),
            n <= i,
    {
        if !corpus.has(run.judged[i].target.as_str()) {
            n += 1;
        }
    }
    n
}

impl Findings {
    /// Every link the widest budget judged whose target is a page of the wiki.
    pub open spec fn links(self) -> Seq<Link> {
        all_labelled(self.corpus, self.gold.queries@, self.widest())
    }

    pub fn judged_links(&self) -> (links: Vec<Link>)
        requires
            self.sound(),
        ensures
            links@ == self.links(),
    {
        let wide: &Vec<Run> = &self.budgets[self.budgets.len() - 1].runs;
        let mut links: Vec<Link> = Vec::new();
        for i in 0..wide.len()
            invariant
                links@ == all_labelled(self.corpus, self.gold.queries@, wide@.take(i as int)),
        {
            proof {
                counting::one_more(wide@, i as int);
            }
            add_labelled(&mut links, &self.corpus, &wide[i], &self.gold.queries);
        }
        proof {
            counting::take_all(wide@);
        }
        links
    }

    /// How many judged links lead out of the wiki.
    pub fn links_outside(&self) -> (n: u128)
        requires
            self.sound(),
        ensures
            n == all_unlabelled(self.corpus, self.widest()),
    {
        let wide: &Vec<Run> = &self.budgets[self.budgets.len() - 1].runs;
        let mut n: u128 = 0;
        for i in 0..wide.len()
            invariant
                n == all_unlabelled(self.corpus, wide@.take(i as int)),
                n <= i * u64::MAX,
        {
            proof {
                counting::one_more(wide@, i as int);
                counting::room(i as int);
            }
            n += count_unlabelled(&self.corpus, &wide[i]) as u128;
        }
        proof {
            counting::take_all(wide@);
        }
        n
    }

    /// The walk's follow decision over every link the widest budget judged.
    pub fn decision(&self) -> (decision: Decision)
        requires
            self.sound(),
        ensures
            figures::is_decision(self.links(), self.threshold, decision),
    {
        figures::decide(&self.judged_links(), self.threshold)
    }

    /// The share of the followed links whose target was wanted.
    pub open spec fn followed_share(self) -> Num {
        let (wanted, judged) = figures::tally(self.links(), true);
        runs::part_of(wanted, judged)
    }

    pub open spec fn passed_share(self) -> Num {
        let (wanted, judged) = figures::tally(self.links(), false);
        runs::part_of(wanted, judged)
    }
}

/// A file that a link reached: the scent of that link, the relevance the model then gave the file,
/// and whether it was wanted.
#[derive(PartialEq, Eq, Structural, Clone, Copy)]
pub struct Arrival {
    pub scent: u64,
    pub relevance: u64,
    pub wanted: bool,
}

/// The visits of a list that a link reached.
pub open spec fn arrivals_among(visits: Seq<Visit>, pages: Seq<Seq<char>>) -> Seq<Arrival>
    decreases visits.len(),
{
    if visits.len() == 0 {
        Seq::empty()
    } else {
        let visit = visits.last();
        let others = arrivals_among(visits.drop_last(), pages);
        match visit.scent {
            Some(scent) => others.push(
                Arrival {
                    scent,
                    relevance: match visit.relevance {
                        Some(relevance) => relevance,
                        None => 0,
                    },
                    wanted: paths::holds(pages, visit.path@),
                },
            ),
            None => others,
        }
    }
}

/// The files that links reached, in order.
pub open spec fn all_arrivals(queries: Seq<Query>, list: Seq<Run>) -> Seq<Arrival>
    decreases list.len(),
{
    if list.len() == 0 {
        Seq::empty()
    } else {
        let run = list.last();
        let pages = pages_wanted(queries, run.id@);
        all_arrivals(queries, list.drop_last()) + arrivals_among(run.returned@, pages)
            + arrivals_among(run.walked@, pages)
    }
}

fn add_arrivals(
    arrivals: &mut Vec<Arrival>,
    visits: &Vec<Visit>,
    pages: &Vec<String>,
    Ghost(wanted): Ghost<Seq<Seq<char>>>,
)
    requires
        gold::is_path_set(wanted, text::texts(pages@)),
    ensures
        final(arrivals)@ == old(arrivals)@ + arrivals_among(visits@, wanted),
{
    let ghost was = arrivals@;
    assert(was + arrivals_among(visits@.take(0), wanted) =~= was);
    for i in 0..visits.len()
        invariant
            gold::is_path_set(wanted, text::texts(pages@)),
            arrivals@ == was + arrivals_among(visits@.take(i as int), wanted),
    {
        proof {
            counting::one_more(visits@, i as int);
        }
        match visits[i].scent {
            Some(scent) => {
                let relevance: u64 = match visits[i].relevance {
                    Some(relevance) => relevance,
                    None => 0,
                };
                let wanted_page: bool = paths::has(pages, visits[i].path.as_str());
                arrivals.push(Arrival { scent, relevance, wanted: wanted_page });
                assert(arrivals@ =~= was + arrivals_among(visits@.take(i + 1), wanted));
            },
            None => {},
        }
    }
    proof {
        counting::take_all(visits@);
    }
}

impl Findings {
    /// Every file a link reached at the widest budget.
    pub open spec fn arrivals(self) -> Seq<Arrival> {
        all_arrivals(self.gold.queries@, self.widest())
    }

    pub fn arrived(&self) -> (arrivals: Vec<Arrival>)
        requires
            self.sound(),
        ensures
            arrivals@ == self.arrivals(),
    {
        let wide: &Vec<Run> = &self.budgets[self.budgets.len() - 1].runs;
        let mut arrivals: Vec<Arrival> = Vec::new();
        for i in 0..wide.len()
            invariant
                arrivals@ == all_arrivals(self.gold.queries@, wide@.take(i as int)),
        {
            proof {
                counting::one_more(wide@, i as int);
            }
            let pages: Vec<String> = wanted_pages(&self.gold.queries, wide[i].id.as_str());
            let ghost wanted = pages_wanted(self.gold.queries@, wide@[i as int].id@);
            add_arrivals(&mut arrivals, &wide[i].returned, &pages, Ghost(wanted));
            add_arrivals(&mut arrivals, &wide[i].walked, &pages, Ghost(wanted));
        }
        proof {
            counting::take_all(wide@);
        }
        arrivals
    }
}

/// A query's place in the gold set, how much of what it wanted was found, and its id.
pub struct Place {
    pub at: usize,
    pub found: usize,
    pub gold: usize,
    pub id: String,
}

#[verifier::ext_equal]
pub struct PlaceView {
    pub at: int,
    pub found: int,
    pub gold: int,
    pub id: Seq<char>,
}

impl View for Place {
    type V = PlaceView;

    open spec fn view(&self) -> PlaceView {
        PlaceView {
            at: self.at as int,
            found: self.found as int,
            gold: self.gold as int,
            id: self.id@,
        }
    }
}

/// Whether a query comes before another: the one that found less of what it wanted, and of two that
/// found as much the one whose id comes first.
pub open spec fn found_less(a: PlaceView, b: PlaceView) -> bool {
    a.found * b.gold < b.found * a.gold || (a.found * b.gold == b.found * a.gold && text::before(
        a.id,
        b.id,
    ))
}

proof fn product_fits(a: usize, b: usize)
    ensures
        0 <= a * b <= u128::MAX,
{
    assert(0 <= a * b) by (nonlinear_arith);
    assert(a * b <= u64::MAX * u64::MAX) by (nonlinear_arith)
        requires
            a <= u64::MAX,
            b <= u64::MAX,
    ;
}

fn has_found_less(a: &Place, b: &Place) -> (yes: bool)
    ensures
        yes == found_less(a@, b@),
{
    proof {
        product_fits(a.found, b.gold);
        product_fits(b.found, a.gold);
    }
    let mine: u128 = a.found as u128 * b.gold as u128;
    let theirs: u128 = b.found as u128 * a.gold as u128;
    mine < theirs || (mine == theirs && text::is_before(a.id.as_str(), b.id.as_str()))
}

/// The first `n` queries, each with what its run found.
pub open spec fn places(queries: Seq<Query>, list: Seq<Run>, n: int) -> Seq<PlaceView>
    decreases n,
{
    if n <= 0 {
        Seq::empty()
    } else {
        places(queries, list, n - 1).push(
            PlaceView {
                at: n - 1,
                found: list[n - 1].score.found as int,
                gold: list[n - 1].score.gold as int,
                id: queries[n - 1].id@,
            },
        )
    }
}

/// The queries of a gold set, those that a walk found least of first.
pub open spec fn least_found(queries: Seq<Query>, list: Seq<Run>) -> Seq<PlaceView> {
    sorting::sorted(
        places(queries, list, queries.len() as int),
        |a: PlaceView, b: PlaceView| found_less(a, b),
    )
}

pub open spec fn place_views(list: Seq<Place>) -> Seq<PlaceView> {
    list.map_values(|place: Place| place@)
}

proof fn places_are_inside(queries: Seq<Query>, list: Seq<Run>, n: int, k: int)
    requires
        0 <= n,
        0 <= k < places(queries, list, n).len(),
    ensures
        0 <= places(queries, list, n)[k].at < n,
    decreases n,
{
    if n > 0 && k < places(queries, list, n - 1).len() {
        places_are_inside(queries, list, n - 1, k);
    }
}

/// The queries of a gold set, those that a walk found least of first.
pub fn order_by_found(queries: &Vec<Query>, list: &Vec<Run>) -> (order: Vec<Place>)
    requires
        list.len() == queries.len(),
    ensures
        place_views(order@) == least_found(queries@, list@),
        forall|k: int| 0 <= k < order.len() ==> (#[trigger] order@[k]).at < queries.len(),
{
    let mut order: Vec<Place> = Vec::new();
    assert(place_views(order@) =~= Seq::<PlaceView>::empty());
    for i in 0..queries.len()
        invariant
            list.len() == queries.len(),
            place_views(order@) == places(queries@, list@, i as int),
    {
        let ghost was = place_views(order@);
        let place = Place {
            at: i,
            found: list[i].score.found,
            gold: list[i].score.gold,
            id: queries[i].id.clone(),
        };
        let ghost added = place@;
        order.push(place);
        assert(place_views(order@) =~= was.push(added));
    }
    let ghost lt = |a: Place, b: Place| found_less(a@, b@);
    let ghost ltv = |a: PlaceView, b: PlaceView| found_less(a, b);
    proof {
        sorting::sorted_maps(order@, lt, |place: Place| place@, ltv);
    }
    let whole: Vec<Place> = sorting::sort(order, has_found_less, Ghost(lt));
    assert forall|k: int| 0 <= k < whole.len() implies (#[trigger] whole@[k]).at
        < queries.len() by {
        let all = places(queries@, list@, queries.len() as int);
        let sorted = place_views(whole@);
        assert(sorted[k] == whole@[k]@);
        sorting::sorted_holds(all, ltv, sorted[k]);
        assert(sorted.contains(sorted[k]));
        let m = choose|m: int| 0 <= m < all.len() && all[m] == sorted[k];
        places_are_inside(queries@, list@, queries.len() as int, m);
    }
    whole
}

/// A query's place in the gold set, how much more of the wanted parts one walk covered than
/// another, as the bits of a double, and its id.
pub struct Loss {
    pub at: usize,
    pub lost: u64,
    pub id: String,
}

#[verifier::ext_equal]
pub struct LossView {
    pub at: int,
    pub lost: u64,
    pub id: Seq<char>,
}

impl View for Loss {
    type V = LossView;

    open spec fn view(&self) -> LossView {
        LossView { at: self.at as int, lost: self.lost, id: self.id@ }
    }
}

/// Whether a number is less than another; what is no number is neither.
pub open spec fn is_under(a: u64, b: u64) -> bool {
    !doubles::is_nan(a) && !doubles::is_nan(b) && !doubles::reaches(a, b)
}

fn under(a: u64, b: u64) -> (yes: bool)
    ensures
        yes == is_under(a, b),
{
    doubles::is_at_least(a, a) && doubles::is_at_least(b, b) && !doubles::is_at_least(a, b)
}

/// Whether a query comes before another: the one that lost more, and of two that lost as much the
/// one whose id comes first.
pub open spec fn lost_more(a: LossView, b: LossView) -> bool {
    is_under(a.lost, b.lost) || (!is_under(b.lost, a.lost) && text::before(a.id, b.id))
}

fn has_lost_more(a: &Loss, b: &Loss) -> (yes: bool)
    ensures
        yes == lost_more(a@, b@),
{
    under(a.lost, b.lost) || (!under(b.lost, a.lost) && text::is_before(
        a.id.as_str(),
        b.id.as_str(),
    ))
}

pub open spec fn losses(queries: Seq<Query>, lost: Seq<u64>, n: int) -> Seq<LossView>
    decreases n,
{
    if n <= 0 {
        Seq::empty()
    } else {
        losses(queries, lost, n - 1).push(
            LossView { at: n - 1, lost: lost[n - 1], id: queries[n - 1].id@ },
        )
    }
}

/// The queries of a gold set, those that lost most first.
pub open spec fn most_lost(queries: Seq<Query>, lost: Seq<u64>) -> Seq<LossView> {
    sorting::sorted(
        losses(queries, lost, queries.len() as int),
        |a: LossView, b: LossView| lost_more(a, b),
    )
}

pub open spec fn loss_views(list: Seq<Loss>) -> Seq<LossView> {
    list.map_values(|loss: Loss| loss@)
}

proof fn losses_are_inside(queries: Seq<Query>, lost: Seq<u64>, n: int, k: int)
    requires
        0 <= n,
        0 <= k < losses(queries, lost, n).len(),
    ensures
        0 <= losses(queries, lost, n)[k].at < n,
    decreases n,
{
    if n > 0 && k < losses(queries, lost, n - 1).len() {
        losses_are_inside(queries, lost, n - 1, k);
    }
}

pub fn order_by_lost(queries: &Vec<Query>, lost: &Vec<u64>) -> (order: Vec<Loss>)
    requires
        lost.len() == queries.len(),
    ensures
        loss_views(order@) == most_lost(queries@, lost@),
        forall|k: int| 0 <= k < order.len() ==> (#[trigger] order@[k]).at < queries.len(),
{
    let mut order: Vec<Loss> = Vec::new();
    assert(loss_views(order@) =~= Seq::<LossView>::empty());
    for i in 0..queries.len()
        invariant
            lost.len() == queries.len(),
            loss_views(order@) == losses(queries@, lost@, i as int),
    {
        let ghost was = loss_views(order@);
        let loss = Loss { at: i, lost: lost[i], id: queries[i].id.clone() };
        let ghost added = loss@;
        order.push(loss);
        assert(loss_views(order@) =~= was.push(added));
    }
    let ghost lt = |a: Loss, b: Loss| lost_more(a@, b@);
    let ghost ltv = |a: LossView, b: LossView| lost_more(a, b);
    proof {
        sorting::sorted_maps(order@, lt, |loss: Loss| loss@, ltv);
    }
    let whole: Vec<Loss> = sorting::sort(order, has_lost_more, Ghost(lt));
    assert forall|k: int| 0 <= k < whole.len() implies (#[trigger] whole@[k]).at
        < queries.len() by {
        let all = losses(queries@, lost@, queries.len() as int);
        let sorted = loss_views(whole@);
        assert(sorted[k] == whole@[k]@);
        sorting::sorted_holds(all, ltv, sorted[k]);
        assert(sorted.contains(sorted[k]));
        let m = choose|m: int| 0 <= m < all.len() && all[m] == sorted[k];
        losses_are_inside(queries@, lost@, queries.len() as int, m);
    }
    whole
}

/// The row of a table with a label.
pub open spec fn row_with(rows: Seq<Row>, label: Seq<char>) -> Option<int>
    decreases rows.len(),
{
    if rows.len() == 0 {
        None
    } else {
        match row_with(rows.drop_last(), label) {
            Some(at) => Some(at),
            None => if rows.last().label@ == label {
                Some(rows.len() - 1)
            } else {
                None
            },
        }
    }
}

proof fn a_row_stays(rows: Seq<Row>, label: Seq<char>, n: int)
    requires
        0 <= n <= rows.len(),
        row_with(rows.take(n), label) is Some,
    ensures
        row_with(rows, label) == row_with(rows.take(n), label),
    decreases rows.len(),
{
    if n < rows.len() {
        assert(rows.drop_last().take(n) =~= rows.take(n));
        a_row_stays(rows.drop_last(), label, n);
    } else {
        assert(rows.take(n) =~= rows);
    }
}

pub fn find_row(rows: &Vec<Row>, label: &str) -> (at: Option<usize>)
    ensures
        match at {
            Some(at) => row_with(rows@, label@) == Some(at as int) && at < rows.len(),
            None => row_with(rows@, label@) is None,
        },
{
    for i in 0..rows.len()
        invariant
            row_with(rows@.take(i as int), label@) is None,
    {
        proof {
            counting::one_more(rows@, i as int);
        }
        if text::same(rows[i].label.as_str(), label) {
            proof {
                a_row_stays(rows@, label@, i + 1);
            }
            return Some(i);
        }
    }
    proof {
        counting::take_all(rows@);
    }
    None
}

/// The tables of a measurement, but for the rows that every one of them starts from.
pub struct Tables {
    pub budgets: Vec<Budget>,
    pub sweep: Vec<Swept>,
    pub previews: Vec<Row>,
    pub contexts: Vec<Row>,
    pub policies: Option<Vec<Row>>,
    pub wordings: Option<Vec<Row>>,
}

/// Whether rows are the walks from a place on, each under its label.
pub open spec fn are_rows(
    rows: Seq<Row>,
    labels: Seq<Seq<char>>,
    results: Seq<Vec<Run>>,
    from: int,
) -> bool {
    &&& rows.len() == labels.len()
    &&& forall|i: int|
        0 <= i < rows.len() ==> (#[trigger] rows[i]).label@ == labels[i] && rows[i].runs
            == results[from + i]
}

/// Whether budgets are the first walks, each with the keyword ranker at the same budget.
pub open spec fn are_at_budgets(
    rows: Seq<Budget>,
    budgets: Seq<usize>,
    results: Seq<Vec<Run>>,
    greps: Seq<Vec<Run>>,
) -> bool {
    &&& rows.len() == budgets.len()
    &&& forall|i: int|
        0 <= i < rows.len() ==> (#[trigger] rows[i]).budget == budgets[i] && rows[i].runs
            == results[i] && rows[i].grep == greps[i]
}

/// Whether rows are the walks from a place on, each at its threshold.
pub open spec fn are_swept(rows: Seq<Swept>, results: Seq<Vec<Run>>, from: int) -> bool {
    &&& rows.len() == measure::SWEEP@.len()
    &&& forall|i: int|
        0 <= i < rows.len() ==> (#[trigger] rows[i]).threshold == measure::SWEEP@[i]
            && rows[i].runs == results[from + i]
}

/// The labels of a list but for the first.
pub open spec fn labels_after_first(labels: Seq<&'static str>) -> Seq<Seq<char>> {
    labels.skip(1).map_values(|label: &'static str| label@)
}

/// A table of walks that each ran every query has a run of every query in every row.
pub proof fn what_is_gathered_is_complete(
    rows: Seq<Row>,
    labels: Seq<Seq<char>>,
    results: Seq<Vec<Run>>,
    from: int,
    queries: nat,
)
    requires
        are_rows(rows, labels, results, from),
        0 <= from <= results.len() - labels.len(),
        forall|i: int| 0 <= i < results.len() ==> (#[trigger] results[i]).len() == queries,
    ensures
        complete(rows, queries),
{
    assert forall|i: int| 0 <= i < rows.len() implies (#[trigger] rows[i]).runs.len()
        == queries by {
        assert(rows[i].runs == results[from + i]);
    }
}

/// Takes the first walks, each under its label.
fn take_rows(results: &mut Vec<Vec<Run>>, labels: &Vec<String>) -> (rows: Vec<Row>)
    requires
        old(results).len() >= labels.len(),
    ensures
        are_rows(rows@, text::texts(labels@), old(results)@, 0),
        final(results)@ == old(results)@.skip(labels.len() as int),
{
    let ghost all = results@;
    let mut rows: Vec<Row> = Vec::new();
    for i in 0..labels.len()
        invariant
            all.len() >= labels.len(),
            rows.len() == i,
            results@ == all.skip(i as int),
            forall|k: int|
                0 <= k < i ==> (#[trigger] rows@[k]).label@ == labels@[k]@ && rows@[k].runs
                    == all[k],
    {
        let runs: Vec<Run> = results.remove(0);
        rows.push(Row { label: labels[i].clone(), runs });
        assert(results@ =~= all.skip(i + 1));
    }
    rows
}

fn owned(labels: &[&'static str], from: usize) -> (list: Vec<String>)
    requires
        from <= labels.len(),
    ensures
        list.len() == labels.len() - from,
        text::texts(list@) == labels@.skip(from as int).map_values(|label: &'static str| label@),
{
    let mut list: Vec<String> = Vec::new();
    for i in from..labels.len()
        invariant
            from <= i <= labels.len(),
            list.len() == i - from,
            forall|k: int| 0 <= k < list.len() ==> (#[trigger] list@[k])@ == labels@[from + k]@,
    {
        list.push(labels[i].to_owned());
    }
    assert(text::texts(list@) =~= labels@.skip(from as int).map_values(
        |label: &'static str| label@,
    ));
    list
}

/// The walks of a measurement, in the order they were planned in, sorted into tables.
pub fn gather(
    asked: &Asked,
    results: Vec<Vec<Run>>,
    greps: Vec<Vec<Run>>,
    names: &Vec<String>,
) -> (tables: Tables)
    requires
        asked.budgets.len() > 0,
        results.len() == asked.planned().len(),
        greps.len() == asked.budgets.len(),
        names.len() == asked.wordings,
    ensures
        ({
            let swept = asked.budgets.len() as int;
            let previews = swept + 4;
            let contexts = previews + 2;
            let policies = contexts + 4;
            let wordings = policies + if asked.relative {
                3int
            } else {
                0int
            };
            &&& are_at_budgets(tables.budgets@, asked.budgets@, results@, greps@)
            &&& are_swept(tables.sweep@, results@, swept)
            &&& are_rows(
                tables.previews@,
                labels_after_first(measure::PREVIEWS@),
                results@,
                previews,
            )
            &&& are_rows(
                tables.contexts@,
                labels_after_first(measure::CONTEXTS@),
                results@,
                contexts,
            )
            &&& match tables.policies {
                Some(rows) => asked.relative && are_rows(
                    rows@,
                    labels_after_first(measure::POLICIES@),
                    results@,
                    policies,
                ),
                None => !asked.relative,
            }
            &&& match tables.wordings {
                Some(rows) => asked.wordings > 0 && are_rows(
                    rows@,
                    text::texts(names@),
                    results@,
                    wordings,
                ),
                None => asked.wordings == 0,
            }
        }),
{
    let ghost all = results@;
    let ghost ranked = greps@;
    let mut results: Vec<Vec<Run>> = results;
    let mut greps: Vec<Vec<Run>> = greps;
    let mut budgets: Vec<Budget> = Vec::new();
    for i in 0..asked.budgets.len()
        invariant
            all.len() == asked.planned().len(),
            ranked.len() == asked.budgets.len(),
            all.len() >= asked.budgets.len(),
            budgets.len() == i,
            results@ == all.skip(i as int),
            greps@ == ranked.skip(i as int),
            forall|k: int|
                0 <= k < i ==> (#[trigger] budgets@[k]).budget == asked.budgets@[k]
                    && budgets@[k].runs == all[k] && budgets@[k].grep == ranked[k],
    {
        let runs: Vec<Run> = results.remove(0);
        let grep: Vec<Run> = greps.remove(0);
        budgets.push(Budget { budget: asked.budgets[i], runs, grep });
        assert(results@ =~= all.skip(i + 1));
        assert(greps@ =~= ranked.skip(i + 1));
    }
    let ghost from = asked.budgets.len() as int;
    let mut sweep: Vec<Swept> = Vec::new();
    for i in 0..measure::SWEEP.len()
        invariant
            all.len() >= from + 4,
            from >= 0,
            sweep.len() == i,
            results@ == all.skip(from + i),
            forall|k: int|
                0 <= k < i ==> (#[trigger] sweep@[k]).threshold == measure::SWEEP@[k]
                    && sweep@[k].runs == all[from + k],
    {
        let runs: Vec<Run> = results.remove(0);
        sweep.push(Swept { threshold: measure::SWEEP[i], runs });
        assert(results@ =~= all.skip(from + i + 1));
    }
    let previews: Vec<Row> = take_rows(&mut results, &owned(&measure::PREVIEWS, 1));
    assert(results@ =~= all.skip(from + 6));
    let contexts: Vec<Row> = take_rows(&mut results, &owned(&measure::CONTEXTS, 1));
    assert(results@ =~= all.skip(from + 10));
    let policies: Option<Vec<Row>> = if asked.relative {
        let rows: Vec<Row> = take_rows(&mut results, &owned(&measure::POLICIES, 1));
        assert(results@ =~= all.skip(from + 13));
        Some(rows)
    } else {
        None
    };
    let wordings: Option<Vec<Row>> = if asked.wordings > 0 {
        Some(take_rows(&mut results, names))
    } else {
        None
    };
    Tables { budgets, sweep, previews, contexts, policies, wordings }
}

impl Findings {
    /// The whole report, section after section; `lost` is what the last table of the registers is
    /// ordered by.
    pub open spec fn rendered(self, lost: Seq<u64>) -> DocView {
        let out = self.with_headline(DocView::empty());
        let out = self.with_how_to_reproduce(out);
        let out = self.with_the_gold_set(out);
        let out = self.with_at_a_budget(out);
        let out = self.with_against_grep(out);
        let out = self.with_never_reached(out);
        let out = self.with_calibration(out);
        let out = self.with_the_threshold(out);
        let out = self.with_the_preview_experiment(out);
        let out = self.with_the_link_context_experiment(out);
        let out = match self.policies {
            Some(rows) => self.with_the_relative_judge(out, rows@),
            None => out,
        };
        let out = match self.wordings {
            Some(rows) => self.with_the_wording_experiment(out, rows@, lost),
            None => out,
        };
        let out = self.with_limitations(out);
        self.with_the_cache(out)
    }

    /// The whole report. The last table of the registers is ordered by how much each query lost,
    /// as the double that its formula among `losses` comes to.
    pub fn render(&self, lost: &Vec<u64>) -> (out: Doc)
        requires
            self.sound(),
            self.wordings is Some ==> lost.len() == self.gold.queries.len(),
        ensures
            out@ == self.rendered(lost@),
    {
        let mut out: Doc = Doc::new();
        self.headline(&mut out);
        self.how_to_reproduce(&mut out);
        self.the_gold_set(&mut out);
        self.at_a_budget(&mut out);
        self.against_grep(&mut out);
        self.never_reached(&mut out);
        self.calibration(&mut out);
        self.the_threshold(&mut out);
        self.the_preview_experiment(&mut out);
        self.the_link_context_experiment(&mut out);
        match &self.policies {
            Some(rows) => self.the_relative_judge(&mut out, rows),
            None => {},
        }
        match &self.wordings {
            Some(rows) => self.the_wording_experiment(&mut out, rows, lost),
            None => {},
        }
        self.limitations(&mut out);
        self.the_cache(&mut out);
        out
    }
}

} // verus!
