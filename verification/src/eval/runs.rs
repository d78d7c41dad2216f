//! What walks found and what they spent.

use vstd::prelude::*;

use crate::cli;
use crate::cli::{FailedFile, Failure, RankedLink, RankedSection, VisitedFile};
use crate::counting;
use crate::doc::Num;
use crate::doubles;
use crate::eval::corpus;
use crate::eval::corpus::{Corpus, Reading};
use crate::eval::keywords;
use crate::eval::keywords::Candidate;
use crate::eval::labels;
use crate::eval::labels::{Query, Wanted};
use crate::gold;
use crate::ordered;
use crate::paths;
use crate::reading;
use crate::run;
use crate::s1mignore::Ignore;
use crate::text;

verus! {

/// What one answer cost.
pub struct Detail {
    pub model: String,
    pub requests: u64,
    pub input_tokens: u64,
    /// How long the call took, in nanoseconds.
    pub latency: u64,
}

/// What the answers served cost, added up: whole numbers only, so the order two answers arrive in
/// cannot change them.
pub struct Spent {
    /// Answers served: bought now, or stored.
    pub served: u64,
    /// Answers bought now.
    pub bought: u64,
    /// Requests those answers took.
    pub requests: u64,
    /// The input tokens of every answer served.
    pub input_tokens: u64,
    /// The input tokens of the ones bought now.
    pub bought_tokens: u64,
    /// The time the calls took, in nanoseconds.
    pub latency: u64,
    /// Which models answered, each once, in order.
    pub models: Vec<String>,
}

/// What was spent, as whole numbers.
pub struct Bill {
    pub served: int,
    pub bought: int,
    pub requests: int,
    pub input_tokens: int,
    pub bought_tokens: int,
    pub latency: int,
}

impl Bill {
    pub open spec fn plus(self, other: Bill) -> Bill {
        Bill {
            served: self.served + other.served,
            bought: self.bought + other.bought,
            requests: self.requests + other.requests,
            input_tokens: self.input_tokens + other.input_tokens,
            bought_tokens: self.bought_tokens + other.bought_tokens,
            latency: self.latency + other.latency,
        }
    }

    /// Whether every number fits in a machine word.
    pub open spec fn fits(self) -> bool {
        self.served <= u64::MAX && self.bought <= u64::MAX && self.requests <= u64::MAX
            && self.input_tokens <= u64::MAX && self.bought_tokens <= u64::MAX && self.latency
            <= u64::MAX
    }
}

/// What one answer adds to what was spent: its tokens are spent now only where it is bought now.
pub open spec fn bill_of(detail: Detail, bought: bool) -> Bill {
    Bill {
        served: 1,
        bought: if bought {
            1
        } else {
            0
        },
        requests: detail.requests as int,
        input_tokens: detail.input_tokens as int,
        bought_tokens: if bought {
            detail.input_tokens as int
        } else {
            0
        },
        latency: detail.latency as int,
    }
}

/// Whether models are those of two lists, each once, in order.
pub open spec fn are_models(
    a: Seq<Seq<char>>,
    b: Seq<Seq<char>>,
    both: Seq<Seq<char>>,
) -> bool {
    &&& ordered::ascending(both)
    &&& forall|t: Seq<char>| #[trigger] both.contains(t) == (a.contains(t) || b.contains(t))
}

fn copy_models(models: &Vec<String>) -> (same: Vec<String>)
    ensures
        text::texts(same@) == text::texts(models@),
{
    let mut same: Vec<String> = Vec::new();
    for i in 0..models.len()
        invariant
            same.len() == i,
            forall|k: int| 0 <= k < i ==> (#[trigger] same@[k])@ == models@[k]@,
    {
        same.push(models[i].clone());
    }
    assert(text::texts(same@) =~= text::texts(models@));
    same
}

impl Spent {
    pub open spec fn bill(self) -> Bill {
        Bill {
            served: self.served as int,
            bought: self.bought as int,
            requests: self.requests as int,
            input_tokens: self.input_tokens as int,
            bought_tokens: self.bought_tokens as int,
            latency: self.latency as int,
        }
    }

    /// The models are in order, each once.
    pub open spec fn sound(self) -> bool {
        ordered::ascending(text::texts(self.models@))
    }

    /// Nothing yet.
    pub fn none() -> (spent: Spent)
        ensures
            spent.sound(),
            spent.bill() == (Bill {
                served: 0,
                bought: 0,
                requests: 0,
                input_tokens: 0,
                bought_tokens: 0,
                latency: 0,
            }),
            spent.models.len() == 0,
    {
        Spent {
            served: 0,
            bought: 0,
            requests: 0,
            input_tokens: 0,
            bought_tokens: 0,
            latency: 0,
            models: Vec::new(),
        }
    }

    /// Adds an answer, where the sums fit.
    pub fn add(&mut self, detail: &Detail, bought: bool) -> (fits: bool)
        requires
            old(self).sound(),
        ensures
            final(self).sound(),
            fits == old(self).bill().plus(bill_of(*detail, bought)).fits(),
            fits ==> final(self).bill() == old(self).bill().plus(bill_of(*detail, bought))
                && are_models(
                text::texts(old(self).models@),
                Seq::empty().push(detail.model@),
                text::texts(final(self).models@),
            ),
            !fits ==> *final(self) == *old(self),
    {
        let now: u64 = if bought {
            1
        } else {
            0
        };
        let paid: u64 = if bought {
            detail.input_tokens
        } else {
            0
        };
        if self.served > u64::MAX - 1 || self.bought > u64::MAX - now || self.requests > u64::MAX
            - detail.requests || self.input_tokens > u64::MAX - detail.input_tokens
            || self.bought_tokens > u64::MAX - paid || self.latency > u64::MAX - detail.latency {
            return false;
        }
        self.served = self.served + 1;
        self.bought = self.bought + now;
        self.requests = self.requests + detail.requests;
        self.input_tokens = self.input_tokens + detail.input_tokens;
        self.bought_tokens = self.bought_tokens + paid;
        self.latency = self.latency + detail.latency;
        let ghost was = text::texts(self.models@);
        let mut models: Vec<String> = copy_models(&self.models);
        ordered::add(&mut models, detail.model.clone());
        self.models = models;
        proof {
            let one = Seq::<Seq<char>>::empty().push(detail.model@);
            assert forall|t: Seq<char>| #[trigger]
                text::texts(self.models@).contains(t) == (was.contains(t) || one.contains(t)) by {
                assert(one.contains(t) == (t == detail.model@)) by {
                    if t == detail.model@ {
                        assert(one[0] == t);
                    }
                }
            }
        }
        true
    }

    /// Adds what another run spent, where the sums fit.
    pub fn merge(&mut self, other: &Spent) -> (fits: bool)
        requires
            old(self).sound(),
        ensures
            final(self).sound(),
            fits == old(self).bill().plus(other.bill()).fits(),
            fits ==> final(self).bill() == old(self).bill().plus(other.bill()) && are_models(
                text::texts(old(self).models@),
                text::texts(other.models@),
                text::texts(final(self).models@),
            ),
            !fits ==> *final(self) == *old(self),
    {
        if self.served > u64::MAX - other.served || self.bought > u64::MAX - other.bought
            || self.requests > u64::MAX - other.requests || self.input_tokens > u64::MAX
            - other.input_tokens || self.bought_tokens > u64::MAX - other.bought_tokens
            || self.latency > u64::MAX - other.latency {
            return false;
        }
        self.served = self.served + other.served;
        self.bought = self.bought + other.bought;
        self.requests = self.requests + other.requests;
        self.input_tokens = self.input_tokens + other.input_tokens;
        self.bought_tokens = self.bought_tokens + other.bought_tokens;
        self.latency = self.latency + other.latency;
        let ghost was = text::texts(self.models@);
        let ghost all = text::texts(other.models@);
        let mut models: Vec<String> = copy_models(&self.models);
        assert(all.take(0) =~= Seq::<Seq<char>>::empty());
        for i in 0..other.models.len()
            invariant
                all == text::texts(other.models@),
                are_models(was, all.take(i as int), text::texts(models@)),
        {
            let ghost before = text::texts(models@);
            ordered::add(&mut models, other.models[i].clone());
            proof {
                counting::holds_one_more(all, i as int);
                assert(all[i as int] == other.models@[i as int]@);
                assert forall|t: Seq<char>| #[trigger]
                    text::texts(models@).contains(t) == (was.contains(t) || all.take(
                        i + 1,
                    ).contains(t)) by {
                    assert(before.contains(t) == (was.contains(t) || all.take(
                        i as int,
                    ).contains(t)));
                }
            }
        }
        proof {
            counting::take_all(all);
        }
        self.models = models;
        true
    }

    /// What these answers cost at the list price: input tokens only. Every answer served, whether
    /// it was bought now or earlier.
    pub fn cost_usd(&self) -> (cost: Num)
        ensures
            cost == run::price(self.input_tokens),
    {
        run::price_of(self.input_tokens)
    }

    /// What this run actually spent: the answers it bought.
    pub fn spent_usd(&self) -> (cost: Num)
        ensures
            cost == run::price(self.bought_tokens),
    {
        run::price_of(self.bought_tokens)
    }

    /// What one answer took, in nanoseconds.
    pub fn mean_latency(&self) -> (latency: u128)
        ensures
            latency == mean_time(self.latency as int, self.served as int),
    {
        mean_of_time(self.latency as u128, self.served as u128)
    }
}

/// A time over how many answers took it; nothing over none.
pub open spec fn mean_time(latency: int, served: int) -> int {
    if served == 0 {
        0
    } else {
        latency / served
    }
}

pub(crate) fn mean_of_time(latency: u128, served: u128) -> (mean: u128)
    ensures
        mean == mean_time(latency as int, served as int),
{
    if served == 0 {
        0
    } else {
        latency / served
    }
}

/// One file a walk returned or passed through; its numbers are the bits of doubles.
pub struct Visit {
    pub path: String,
    /// What the model made of it; none for a run with no model behind it.
    pub relevance: Option<u64>,
    /// The scent of the link that reached it; none for the entry file.
    pub scent: Option<u64>,
    /// The lines the reading list returns.
    pub lines: Vec<(usize, usize)>,
}

/// What a visit says.
#[verifier::ext_equal]
pub struct VisitView {
    pub path: Seq<char>,
    pub relevance: Option<u64>,
    pub scent: Option<u64>,
    pub lines: Seq<(usize, usize)>,
}

impl View for Visit {
    type V = VisitView;

    open spec fn view(&self) -> VisitView {
        VisitView {
            path: self.path@,
            relevance: self.relevance,
            scent: self.scent,
            lines: self.lines@,
        }
    }
}

pub open spec fn visit_views(visits: Seq<Visit>) -> Seq<VisitView> {
    visits.map_values(|visit: Visit| visit@)
}

/// One outgoing link the walk judged.
pub struct Judged {
    pub target: String,
    /// The bits of a double.
    pub scent: u64,
    pub followed: bool,
}

#[verifier::ext_equal]
pub struct JudgedView {
    pub target: Seq<char>,
    pub scent: u64,
    pub followed: bool,
}

impl View for Judged {
    type V = JudgedView;

    open spec fn view(&self) -> JudgedView {
        JudgedView { target: self.target@, scent: self.scent, followed: self.followed }
    }
}

pub open spec fn judged_views(links: Seq<Judged>) -> Seq<JudgedView> {
    links.map_values(|link: Judged| link@)
}

/// What a reading list is worth against a labelled query.
#[derive(Clone, Copy, PartialEq, Eq, Structural)]
pub struct Score {
    /// How many pages the query wants.
    pub gold: usize,
    /// How many files the walk judged.
    pub visited: usize,
    /// How many the reading list returned.
    pub returned: usize,
    /// How many of the returned files it wanted.
    pub found: usize,
    /// How many of the wanted parts the returned ranges overlap.
    pub parts_found: usize,
    /// How many of the files the walk judged it wanted.
    pub reached: usize,
    /// Tokens an agent reads when it opens the returned ranges.
    pub read_tokens: u64,
    /// The lines those ranges span.
    pub read_lines: u64,
    /// Tokens it reads when it opens the returned files whole.
    pub whole_tokens: u64,
}

/// A part of a whole.
pub open spec fn quotient(part: nat, whole: nat) -> Num {
    Num::Over(Box::new(Num::Whole(part as u64)), Box::new(Num::Whole(whole as u64)))
}

pub(crate) fn quotient_of(part: usize, whole: usize) -> (value: Num)
    ensures
        value == quotient(part as nat, whole as nat),
{
    Num::Over(Box::new(Num::Whole(part as u64)), Box::new(Num::Whole(whole as u64)))
}

/// A part of a whole, and nothing when there is nothing to divide by.
pub open spec fn part_of(part: nat, whole: nat) -> Num {
    if whole == 0 {
        Num::Whole(0)
    } else {
        quotient(part, whole)
    }
}

fn rate(part: usize, whole: usize) -> (value: Num)
    ensures
        value == part_of(part as nat, whole as nat),
{
    if whole == 0 {
        Num::Whole(0)
    } else {
        quotient_of(part, whole)
    }
}

/// How much more one number is than another; nothing where it is less.
pub open spec fn less(a: int, b: int) -> int {
    if a >= b {
        a - b
    } else {
        0
    }
}

impl Score {
    /// The wanted pages in the list over all of the query's wanted pages.
    pub fn recall(&self) -> (value: Num)
        ensures
            value == quotient(self.found as nat, self.gold as nat),
    {
        quotient_of(self.found, self.gold)
    }

    /// The wanted pages the list also gave something to read in, over all of them.
    pub fn section_recall(&self) -> (value: Num)
        ensures
            value == quotient(self.parts_found as nat, self.gold as nat),
    {
        quotient_of(self.parts_found, self.gold)
    }

    /// The share of what was returned that was wanted.
    pub fn precision(&self) -> (value: Num)
        ensures
            value == part_of(self.found as nat, self.returned as nat),
    {
        rate(self.found, self.returned)
    }

    /// The same over everything the walk judged.
    pub fn precision_over_visited(&self) -> (value: Num)
        ensures
            value == part_of(self.reached as nat, self.visited as nat),
    {
        rate(self.reached, self.visited)
    }

    /// The wanted pages no walk reached at all.
    pub fn missed(&self) -> (n: usize)
        ensures
            n == less(self.gold as int, self.reached as int),
    {
        if self.gold >= self.reached {
            self.gold - self.reached
        } else {
            0
        }
    }
}

/// One measured run.
pub struct Run {
    /// The query's id.
    pub id: String,
    pub score: Score,
    pub spent: Spent,
    /// The files the reading list returned.
    pub returned: Vec<Visit>,
    /// The files the walk visited that did not earn a place.
    pub walked: Vec<Visit>,
    pub judged: Vec<Judged>,
    /// Files the walk reached and could not read.
    pub unreadable: Vec<String>,
}

impl Run {
    /// Every file the walk visited, returned first.
    pub open spec fn visits(self) -> Seq<VisitView> {
        visit_views(self.returned@) + visit_views(self.walked@)
    }

    /// Whether the walk reached a page, however the reading list treated it.
    pub open spec fn reaches(self, page: Seq<char>) -> bool {
        exists|i: int|
            0 <= i < self.visits().len() && paths::same_path(
                (#[trigger] self.visits()[i]).path,
                page,
            )
    }

    pub fn has_visited(&self, page: &str) -> (yes: bool)
        ensures
            yes == self.reaches(page@),
    {
        let ghost all = self.visits();
        for i in 0..self.returned.len()
            invariant
                all == self.visits(),
                forall|k: int| 0 <= k < i ==> !paths::same_path((#[trigger] all[k]).path, page@),
        {
            assert(all[i as int] == self.returned@[i as int]@);
            if paths::is_same(self.returned[i].path.as_str(), page) {
                return true;
            }
        }
        let ghost n = self.returned.len() as int;
        for i in 0..self.walked.len()
            invariant
                all == self.visits(),
                n == self.returned.len(),
                forall|k: int|
                    0 <= k < n + i ==> !paths::same_path((#[trigger] all[k]).path, page@),
        {
            assert(all[n + i] == self.walked@[i as int]@);
            if paths::is_same(self.walked[i].path.as_str(), page) {
                return true;
            }
        }
        assert(all.len() == n + self.walked.len());
        false
    }
}

/// Whether ranges reach a part: a range that touches it is reading it.
pub open spec fn touch(ranges: Seq<(usize, usize)>, part: (usize, usize)) -> bool {
    exists|i: int|
        0 <= i < ranges.len() && (#[trigger] ranges[i]).0 <= part.1 && part.0 <= ranges[i].1
}

pub fn covers(ranges: &Vec<(usize, usize)>, part: (usize, usize)) -> (yes: bool)
    ensures
        yes == touch(ranges@, part),
{
    for i in 0..ranges.len()
        invariant
            forall|k: int|
                0 <= k < i ==> !((#[trigger] ranges@[k]).0 <= part.1 && part.0 <= ranges@[k].1),
    {
        if ranges[i].0 <= part.1 && part.0 <= ranges[i].1 {
            return true;
        }
    }
    false
}

/// How many visits are of pages of a list.
pub open spec fn wanted_visits(visits: Seq<Visit>, pages: Seq<Seq<char>>) -> nat
    decreases visits.len(),
{
    if visits.len() == 0 {
        0
    } else {
        wanted_visits(visits.drop_last(), pages) + if paths::holds(pages, visits.last().path@) {
            1nat
        } else {
            0nat
        }
    }
}

/// Whether a list gives something to read in a wanted part.
pub open spec fn is_covered(part: Wanted, returned: Seq<Visit>) -> bool {
    exists|i: int|
        0 <= i < returned.len() && paths::same_path((#[trigger] returned[i]).path@, part.page@)
            && touch(returned[i].lines@, part.lines)
}

/// How many wanted parts a list gives something to read in.
pub open spec fn covered_parts(parts: Seq<Wanted>, returned: Seq<Visit>) -> nat
    decreases parts.len(),
{
    if parts.len() == 0 {
        0
    } else {
        covered_parts(parts.drop_last(), returned) + if is_covered(parts.last(), returned) {
            1nat
        } else {
            0nat
        }
    }
}

/// The characters in the ranges of a list.
pub open spec fn chars_read(corpus: Corpus, visits: Seq<Visit>) -> int {
    counting::total(visits, |visit: Visit| corpus.read(visit.path@, visit.lines@).0 as int)
}

/// The lines in the ranges of a list.
pub open spec fn lines_read(corpus: Corpus, visits: Seq<Visit>) -> int {
    counting::total(visits, |visit: Visit| corpus.read(visit.path@, visit.lines@).1 as int)
}

/// The characters in the files of a list.
pub open spec fn chars_whole(corpus: Corpus, visits: Seq<Visit>) -> int {
    counting::total(visits, |visit: Visit| corpus.size(visit.path@) as int)
}

/// Whether a score is what a reading list is worth against a query's labels.
pub open spec fn is_score(
    corpus: Corpus,
    query: Query,
    returned: Seq<Visit>,
    walked: Seq<Visit>,
    score: Score,
) -> bool {
    &&& exists|pages: Seq<Seq<char>>| #[trigger]
        gold::is_path_set(query.pages(), pages) && score.gold == pages.len()
    &&& score.visited == returned.len() + walked.len()
    &&& score.returned == returned.len()
    &&& score.found == wanted_visits(returned, query.pages())
    &&& score.parts_found == covered_parts(query.wanted@, returned)
    &&& score.reached == wanted_visits(returned, query.pages()) + wanted_visits(
        walked,
        query.pages(),
    )
    &&& score.read_tokens == corpus::tokens_of(chars_read(corpus, returned))
    &&& score.read_lines == lines_read(corpus, returned)
    &&& score.whole_tokens == corpus::tokens_of(chars_whole(corpus, returned))
}

/// Whether what a reading list holds can be counted.
pub open spec fn can_count(corpus: Corpus, returned: Seq<Visit>, walked: Seq<Visit>) -> bool {
    &&& returned.len() + walked.len() <= usize::MAX
    &&& corpus::tokens_of(chars_read(corpus, returned)) <= u64::MAX
    &&& lines_read(corpus, returned) <= u64::MAX
    &&& corpus::tokens_of(chars_whole(corpus, returned)) <= u64::MAX
}

fn count_wanted(
    visits: &Vec<Visit>,
    pages: &Vec<String>,
    Ghost(list): Ghost<Seq<Seq<char>>>,
) -> (n: usize)
    requires
        gold::is_path_set(list, text::texts(pages@)),
    ensures
        n == wanted_visits(visits@, list),
        n <= visits.len(),
{
    let mut n: usize = 0;
    for i in 0..visits.len()
        invariant
            gold::is_path_set(list, text::texts(pages@)),
            n == wanted_visits(visits@.take(i as int), list),
            n <= i,
    {
        proof {
            counting::one_more(visits@, i as int);
        }
        if paths::has(pages, visits[i].path.as_str()) {
            n += 1;
        }
    }
    proof {
        counting::take_all(visits@);
    }
    n
}

fn count_parts(parts: &Vec<Wanted>, returned: &Vec<Visit>) -> (n: usize)
    ensures
        n == covered_parts(parts@, returned@),
        n <= parts.len(),
{
    let mut n: usize = 0;
    for i in 0..parts.len()
        invariant
            n == covered_parts(parts@.take(i as int), returned@),
            n <= i,
    {
        proof {
            counting::one_more(parts@, i as int);
        }
        let part: &Wanted = &parts[i];
        let mut covered: bool = false;
        for k in 0..returned.len()
            invariant
                covered == exists|j: int|
                    0 <= j < k && paths::same_path((#[trigger] returned@[j]).path@, part.page@)
                        && touch(returned@[j].lines@, part.lines),
        {
            if paths::is_same(returned[k].path.as_str(), part.page.as_str()) && covers(
                &returned[k].lines,
                part.lines,
            ) {
                covered = true;
            }
        }
        if covered {
            n += 1;
        }
    }
    proof {
        counting::take_all(parts@);
    }
    n
}

/// One reading list against one query's labels: none where it is more than can be counted.
pub fn score(
    corpus: &Corpus,
    query: &Query,
    returned: &Vec<Visit>,
    walked: &Vec<Visit>,
) -> (score: Option<Score>)
    ensures
        score is Some == can_count(*corpus, returned@, walked@),
        score matches Some(score) ==> is_score(*corpus, *query, returned@, walked@, score),
{
    if walked.len() > usize::MAX - returned.len() {
        return None;
    }
    let pages: Vec<String> = query.expected();
    let ghost list = query.pages();
    let found: usize = count_wanted(returned, &pages, Ghost(list));
    let passed: usize = count_wanted(walked, &pages, Ghost(list));
    let parts_found: usize = count_parts(&query.wanted, returned);
    let ghost of_chars = |visit: Visit| corpus.read(visit.path@, visit.lines@).0 as int;
    let ghost of_lines = |visit: Visit| corpus.read(visit.path@, visit.lines@).1 as int;
    let ghost of_whole = |visit: Visit| corpus.size(visit.path@) as int;
    let mut chars: u128 = 0;
    let mut lines: u128 = 0;
    let mut whole: u128 = 0;
    for i in 0..returned.len()
        invariant
            of_chars == (|visit: Visit| corpus.read(visit.path@, visit.lines@).0 as int),
            of_lines == (|visit: Visit| corpus.read(visit.path@, visit.lines@).1 as int),
            of_whole == (|visit: Visit| corpus.size(visit.path@) as int),
            chars == counting::total(returned@.take(i as int), of_chars),
            lines == counting::total(returned@.take(i as int), of_lines),
            whole == counting::total(returned@.take(i as int), of_whole),
            chars <= i * u64::MAX,
            lines <= i * u64::MAX,
            whole <= i * u64::MAX,
    {
        proof {
            counting::one_more(returned@, i as int);
            counting::room(i as int);
        }
        let visit: &Visit = &returned[i];
        let read: Reading = corpus.reading(visit.path.as_str(), &visit.lines);
        let size: usize = corpus.chars_of(visit.path.as_str());
        chars += read.chars as u128;
        lines += read.lines as u128;
        whole += size as u128;
    }
    proof {
        counting::take_all(returned@);
        assert(text::texts(pages@).len() == pages.len());
    }
    let read_tokens: u128 = corpus::tokens(chars);
    let whole_tokens: u128 = corpus::tokens(whole);
    let most: u128 = u64::MAX as u128;
    if read_tokens > most || lines > most || whole_tokens > most {
        return None;
    }
    let score = Score {
        gold: pages.len(),
        visited: returned.len() + walked.len(),
        returned: returned.len(),
        found,
        parts_found,
        reached: found + passed,
        read_tokens: read_tokens as u64,
        read_lines: lines as u64,
        whole_tokens: whole_tokens as u64,
    };
    assert(gold::is_path_set(query.pages(), text::texts(pages@)));
    Some(score)
}

/// The lines of the sections that clear a threshold, in order.
pub open spec fn lines_above(sections: Seq<RankedSection>, threshold: u64) -> Seq<(usize, usize)>
    decreases sections.len(),
{
    if sections.len() == 0 {
        Seq::empty()
    } else if doubles::reaches(sections.last().score, threshold) {
        lines_above(sections.drop_last(), threshold).push(
            (sections.last().first, sections.last().last),
        )
    } else {
        lines_above(sections.drop_last(), threshold)
    }
}

/// A visited file as a run keeps it: the ranges are a returned file's, since a walked one has
/// nothing to return.
pub open spec fn visit_of(file: VisitedFile, threshold: u64, earns: bool) -> VisitView {
    VisitView {
        path: file.path@,
        relevance: Some(file.relevance),
        scent: file.scent,
        lines: if earns {
            lines_above(file.sections@, threshold)
        } else {
            Seq::empty()
        },
    }
}

/// The visits of the files that earn a place, or of those that do not.
pub open spec fn visits_of(
    files: Seq<VisitedFile>,
    threshold: u64,
    place: bool,
) -> Seq<VisitView>
    decreases files.len(),
{
    if files.len() == 0 {
        Seq::empty()
    } else if cli::earns(files.last(), threshold) == place {
        visits_of(files.drop_last(), threshold, place).push(
            visit_of(files.last(), threshold, place),
        )
    } else {
        visits_of(files.drop_last(), threshold, place)
    }
}

/// The links among some that the model gave a scent.
pub open spec fn scented(links: Seq<RankedLink>) -> Seq<JudgedView>
    decreases links.len(),
{
    if links.len() == 0 {
        Seq::empty()
    } else {
        match links.last().scent {
            Some(scent) => scented(links.drop_last()).push(
                JudgedView {
                    target: links.last().target@,
                    scent,
                    followed: links.last().followed,
                },
            ),
            None => scented(links.drop_last()),
        }
    }
}

/// Every visited file's links that were judged: a hub the list does not return is still a file
/// whose links the walk judged.
pub open spec fn all_scented(files: Seq<VisitedFile>) -> Seq<JudgedView>
    decreases files.len(),
{
    if files.len() == 0 {
        Seq::empty()
    } else {
        all_scented(files.drop_last()) + scented(files.last().links@)
    }
}

/// The pages of a walk that could not be read.
pub open spec fn unread(failed: Seq<FailedFile>) -> Seq<Seq<char>>
    decreases failed.len(),
{
    if failed.len() == 0 {
        Seq::empty()
    } else {
        match failed.last().failure {
            Failure::Parse(_) => unread(failed.drop_last()).push(failed.last().path@),
            Failure::Score(_) => unread(failed.drop_last()),
        }
    }
}

/// What is said of a walk with a page that could not be judged: half a ranking is a different
/// answer, and not one to report on.
pub open spec fn not_judged(id: Seq<char>, failed: FailedFile) -> Seq<char> {
    labels::about(
        id,
        failed.path@ + " could not be judged: "@ + match failed.failure {
            Failure::Score(why) => why@,
            Failure::Parse(why) => why@,
        },
    )
}

pub const TOO_MUCH: &'static str = "there is more to read than can be counted";

/// Whether a run is what a walk of a query came to.
pub open spec fn is_run(
    corpus: Corpus,
    query: Query,
    threshold: u64,
    files: Seq<VisitedFile>,
    failed: Seq<FailedFile>,
    spent: Spent,
    run: Run,
) -> bool {
    &&& run.id@ == query.id@
    &&& is_score(corpus, query, run.returned@, run.walked@, run.score)
    &&& run.spent == spent
    &&& visit_views(run.returned@) == visits_of(files, threshold, true)
    &&& visit_views(run.walked@) == visits_of(files, threshold, false)
    &&& judged_views(run.judged@) == all_scented(files)
    &&& text::texts(run.unreadable@) == unread(failed)
}

fn lines_of(sections: &Vec<RankedSection>, threshold: u64) -> (lines: Vec<(usize, usize)>)
    ensures
        lines@ == lines_above(sections@, threshold),
{
    let mut lines: Vec<(usize, usize)> = Vec::new();
    for i in 0..sections.len()
        invariant
            lines@ == lines_above(sections@.take(i as int), threshold),
    {
        proof {
            counting::one_more(sections@, i as int);
        }
        if doubles::is_at_least(sections[i].score, threshold) {
            lines.push((sections[i].first, sections[i].last));
        }
    }
    proof {
        counting::take_all(sections@);
    }
    lines
}

fn keep_visits(files: &Vec<VisitedFile>, threshold: u64, place: bool) -> (visits: Vec<Visit>)
    ensures
        visit_views(visits@) == visits_of(files@, threshold, place),
{
    let mut visits: Vec<Visit> = Vec::new();
    assert(visit_views(visits@) =~= Seq::<VisitView>::empty());
    for i in 0..files.len()
        invariant
            visit_views(visits@) == visits_of(files@.take(i as int), threshold, place),
    {
        proof {
            counting::one_more(files@, i as int);
        }
        let file: &VisitedFile = &files[i];
        if file.earns_a_place(threshold) == place {
            let ghost was = visit_views(visits@);
            let lines: Vec<(usize, usize)> = if place {
                lines_of(&file.sections, threshold)
            } else {
                Vec::new()
            };
            let visit = Visit {
                path: file.path.clone(),
                relevance: Some(file.relevance),
                scent: file.scent,
                lines,
            };
            let ghost added = visit@;
            assert(added =~= visit_of(*file, threshold, place));
            visits.push(visit);
            assert(visit_views(visits@) =~= was.push(added));
        }
    }
    proof {
        counting::take_all(files@);
    }
    visits
}

fn keep_links(judged: &mut Vec<Judged>, links: &Vec<RankedLink>)
    ensures
        judged_views(final(judged)@) == judged_views(old(judged)@) + scented(links@),
{
    let ghost was = judged_views(judged@);
    assert(was + scented(links@.take(0)) =~= was);
    for i in 0..links.len()
        invariant
            judged_views(judged@) == was + scented(links@.take(i as int)),
    {
        proof {
            counting::one_more(links@, i as int);
        }
        match links[i].scent {
            Some(scent) => {
                let ghost before = judged_views(judged@);
                let link = Judged {
                    target: links[i].target.clone(),
                    scent,
                    followed: links[i].followed,
                };
                let ghost added = link@;
                judged.push(link);
                assert(judged_views(judged@) =~= before.push(added));
                assert(judged_views(judged@) =~= was + scented(links@.take(i + 1)));
            },
            None => {},
        }
    }
    proof {
        counting::take_all(links@);
    }
}

/// What a walk of a query came to: the files that earn a place, the files it passed through, every
/// link it judged, and what the list is worth.
pub fn run_of(
    corpus: &Corpus,
    query: &Query,
    threshold: u64,
    files: &Vec<VisitedFile>,
    failed: &Vec<FailedFile>,
    spent: Spent,
) -> (run: Result<Run, String>)
    ensures
        match run {
            Ok(run) => {
                &&& forall|k: int| 0 <= k < failed.len() ==> (#[trigger] failed@[k]).failure is Parse
                &&& is_run(*corpus, *query, threshold, files@, failed@, spent, run)
            },
            Err(message) => {
                ||| exists|at: int| #[trigger]
                    cli::is_first_unjudged(failed@, at) && message@ == not_judged(
                        query.id@,
                        failed@[at],
                    )
                ||| (forall|k: int|
                    0 <= k < failed.len() ==> (#[trigger] failed@[k]).failure is Parse) && message@
                    == labels::about(query.id@, TOO_MUCH@) && exists|
                    returned: Seq<Visit>,
                    walked: Seq<Visit>,
                |
                    #![trigger can_count(*corpus, returned, walked)]
                    !can_count(*corpus, returned, walked) && visit_views(returned) == visits_of(
                        files@,
                        threshold,
                        true,
                    ) && visit_views(walked) == visits_of(files@, threshold, false)
            },
        },
{
    let mut unreadable: Vec<String> = Vec::new();
    assert(text::texts(unreadable@) =~= Seq::<Seq<char>>::empty());
    for i in 0..failed.len()
        invariant
            text::texts(unreadable@) == unread(failed@.take(i as int)),
            forall|k: int| 0 <= k < i ==> (#[trigger] failed@[k]).failure is Parse,
    {
        proof {
            counting::one_more(failed@, i as int);
        }
        match &failed[i].failure {
            Failure::Parse(_) => {
                let ghost was = text::texts(unreadable@);
                unreadable.push(failed[i].path.clone());
                assert(text::texts(unreadable@) =~= was.push(failed@[i as int].path@));
            },
            Failure::Score(why) => {
                let mut message: String = query.id.clone();
                message.append(": ");
                let mut rest: String = failed[i].path.clone();
                rest.append(" could not be judged: ");
                rest.append(why.as_str());
                message.append(rest.as_str());
                assert(cli::is_first_unjudged(failed@, i as int));
                assert(message@ =~= not_judged(query.id@, failed@[i as int]));
                return Err(message);
            },
        }
    }
    proof {
        counting::take_all(failed@);
    }
    let returned: Vec<Visit> = keep_visits(files, threshold, true);
    let walked: Vec<Visit> = keep_visits(files, threshold, false);
    let mut judged: Vec<Judged> = Vec::new();
    assert(judged_views(judged@) =~= Seq::<JudgedView>::empty());
    for i in 0..files.len()
        invariant
            judged_views(judged@) == all_scented(files@.take(i as int)),
    {
        proof {
            counting::one_more(files@, i as int);
        }
        keep_links(&mut judged, &files[i].links);
    }
    proof {
        counting::take_all(files@);
    }
    match score(corpus, query, &returned, &walked) {
        Some(score) => Ok(
            Run { id: query.id.clone(), score, spent, returned, walked, judged, unreadable },
        ),
        None => {
            let mut message: String = query.id.clone();
            message.append(": ");
            message.append(TOO_MUCH);
            assert(!can_count(*corpus, returned@, walked@));
            Err(message)
        },
    }
}

/// The pages a query's keywords hit, each read whole.
pub open spec fn whole_visits(corpus: Corpus, pages: Seq<Seq<char>>) -> Seq<VisitView> {
    pages.map_values(
        |page: Seq<char>|
            VisitView {
                path: page,
                relevance: None,
                scent: None,
                lines: Seq::empty().push((1usize, corpus.line_count(page) as usize)),
            },
    )
}

/// The keyword ranker as a reading list: the pages a query's keywords hit, read whole because a
/// ranker has no line ranges to offer. No model, so nothing spent.
pub fn grep(
    corpus: &Corpus,
    query: &Query,
    budget: usize,
    pages: &Vec<Candidate>,
    ignore: &Ignore,
) -> (run: Result<Run, String>)
    ensures
        ({
            let hits = whole_visits(
                *corpus,
                keywords::best_pages(pages@, query.query@, budget as nat, *ignore),
            );
            match run {
                Ok(run) => {
                    &&& run.id@ == query.id@
                    &&& visit_views(run.returned@) == hits
                    &&& run.walked.len() == 0
                    &&& run.judged.len() == 0
                    &&& run.unreadable.len() == 0
                    &&& run.spent.bill().served == 0
                    &&& run.spent.bill().input_tokens == 0
                    &&& is_score(*corpus, *query, run.returned@, run.walked@, run.score)
                },
                Err(message) => message@ == labels::about(query.id@, TOO_MUCH@) && exists|
                    returned: Seq<Visit>,
                |
                    #![trigger can_count(*corpus, returned, Seq::<Visit>::empty())]
                    visit_views(returned) == hits && !can_count(
                        *corpus,
                        returned,
                        Seq::<Visit>::empty(),
                    ),
            }
        }),
{
    let hits: Vec<String> = keywords::best_hits(pages, query.query.as_str(), budget, ignore);
    let ghost found = text::texts(hits@);
    let mut returned: Vec<Visit> = Vec::new();
    for i in 0..hits.len()
        invariant
            found == text::texts(hits@),
            returned.len() == i,
            forall|k: int|
                0 <= k < i ==> (#[trigger] returned@[k])@ == whole_visits(*corpus, found)[k],
    {
        let mut lines: Vec<(usize, usize)> = Vec::new();
        lines.push(labels::whole_page(corpus, hits[i].as_str()));
        let path: String = hits[i].clone();
        let visit = Visit { path, relevance: None, scent: None, lines };
        assert(found[i as int] == hits@[i as int]@);
        assert(visit@ =~= whole_visits(*corpus, found)[i as int]);
        returned.push(visit);
    }
    assert(visit_views(returned@) =~= whole_visits(*corpus, found));
    let walked: Vec<Visit> = Vec::new();
    match score(corpus, query, &returned, &walked) {
        Some(score) => Ok(
            Run {
                id: query.id.clone(),
                score,
                spent: Spent::none(),
                returned,
                walked,
                judged: Vec::new(),
                unreadable: Vec::new(),
            },
        ),
        None => {
            let mut message: String = query.id.clone();
            message.append(": ");
            message.append(TOO_MUCH);
            assert(walked@ =~= Seq::<Visit>::empty());
            assert(!can_count(*corpus, returned@, Seq::<Visit>::empty()));
            Err(message)
        },
    }
}

/// How many parts are of a page.
spec fn parts_of(parts: Seq<Wanted>, page: Seq<char>) -> nat
    decreases parts.len(),
{
    if parts.len() == 0 {
        0
    } else {
        parts_of(parts.drop_last(), page) + if paths::same_path(page, parts.last().page@) {
            1nat
        } else {
            0nat
        }
    }
}

/// Whether no two parts are of the same page.
pub open spec fn one_part_each(parts: Seq<Wanted>) -> bool {
    forall|i: int, j: int|
        0 <= i < j < parts.len() ==> !paths::same_path(
            (#[trigger] parts[i]).page@,
            (#[trigger] parts[j]).page@,
        )
}

proof fn no_part_of(parts: Seq<Wanted>, page: Seq<char>)
    requires
        forall|i: int|
            0 <= i < parts.len() ==> !paths::same_path(page, (#[trigger] parts[i]).page@),
    ensures
        parts_of(parts, page) == 0,
    decreases parts.len(),
{
    if parts.len() > 0 {
        assert(!paths::same_path(page, parts[parts.len() - 1].page@));
        assert forall|i: int| 0 <= i < parts.drop_last().len() implies !paths::same_path(
            page,
            (#[trigger] parts.drop_last()[i]).page@,
        ) by {
            assert(parts[i] == parts.drop_last()[i]);
        }
        no_part_of(parts.drop_last(), page);
    }
}

proof fn at_most_one_part(parts: Seq<Wanted>, page: Seq<char>, pages: Seq<Seq<char>>)
    requires
        one_part_each(parts),
        forall|i: int|
            0 <= i < parts.len() ==> paths::holds(pages, (#[trigger] parts[i]).page@),
    ensures
        parts_of(parts, page) <= 1,
        parts_of(parts, page) > 0 ==> paths::holds(pages, page),
    decreases parts.len(),
{
    if parts.len() > 0 {
        let front = parts.drop_last();
        let last = parts[parts.len() - 1];
        assert(forall|i: int| 0 <= i < front.len() ==> front[i] == parts[i]);
        at_most_one_part(front, page, pages);
        if paths::same_path(page, last.page@) {
            assert forall|i: int| 0 <= i < front.len() implies !paths::same_path(
                page,
                (#[trigger] front[i]).page@,
            ) by {
                assert(!paths::same_path(parts[i].page@, last.page@));
            }
            no_part_of(front, page);
            assert(paths::holds(pages, last.page@));
            let k = choose|k: int|
                0 <= k < pages.len() && paths::same_path(#[trigger] pages[k], last.page@);
            assert(paths::same_path(pages[k], page));
        }
    }
}

proof fn one_visit_more(parts: Seq<Wanted>, returned: Seq<Visit>, visit: Visit)
    ensures
        covered_parts(parts, returned.push(visit)) <= covered_parts(parts, returned) + parts_of(
            parts,
            visit.path@,
        ),
    decreases parts.len(),
{
    if parts.len() > 0 {
        one_visit_more(parts.drop_last(), returned, visit);
        let part = parts.last();
        let more = returned.push(visit);
        if is_covered(part, more) && !paths::same_path(visit.path@, part.page@) {
            let i = choose|i: int|
                0 <= i < more.len() && paths::same_path((#[trigger] more[i]).path@, part.page@)
                    && touch(more[i].lines@, part.lines);
            assert(more[i] == returned[i]);
            assert(is_covered(part, returned));
        }
    }
}

/// Section recall is never above recall: a part cannot be returned without its page.
pub proof fn a_part_is_not_returned_without_its_page(
    parts: Seq<Wanted>,
    pages: Seq<Seq<char>>,
    returned: Seq<Visit>,
)
    requires
        one_part_each(parts),
        forall|i: int|
            0 <= i < parts.len() ==> paths::holds(pages, (#[trigger] parts[i]).page@),
    ensures
        covered_parts(parts, returned) <= wanted_visits(returned, pages),
    decreases returned.len(),
{
    if returned.len() == 0 {
        nothing_is_covered(parts, returned);
    } else {
        let front = returned.drop_last();
        let visit = returned.last();
        assert(returned =~= front.push(visit));
        a_part_is_not_returned_without_its_page(parts, pages, front);
        one_visit_more(parts, front, visit);
        at_most_one_part(parts, visit.path@, pages);
    }
}

proof fn nothing_is_covered(parts: Seq<Wanted>, returned: Seq<Visit>)
    requires
        returned.len() == 0,
    ensures
        covered_parts(parts, returned) == 0,
    decreases parts.len(),
{
    if parts.len() > 0 {
        nothing_is_covered(parts.drop_last(), returned);
    }
}

proof fn ranges_are_no_more_than_files(corpus: Corpus, visits: Seq<Visit>)
    ensures
        0 <= chars_read(corpus, visits) <= chars_whole(corpus, visits),
    decreases visits.len(),
{
    let read = |visit: Visit| corpus.read(visit.path@, visit.lines@).0 as int;
    let whole = |visit: Visit| corpus.size(visit.path@) as int;
    if visits.len() > 0 {
        ranges_are_no_more_than_files(corpus, visits.drop_last());
        let last = visits.last();
        match corpus.source(last.path@) {
            Some(source) => reading::no_more_than_the_file(source, last.lines@),
            None => {},
        }
        assert(read(last) <= whole(last));
    }
}

/// Whether a walk visited no file twice.
pub open spec fn visited_once(visits: Seq<Visit>) -> bool {
    forall|i: int, j: int|
        0 <= i < j < visits.len() ==> !paths::same_path(
            (#[trigger] visits[i]).path@,
            (#[trigger] visits[j]).path@,
        )
}

/// No more of the visits are of wanted pages than there are pages that hold them all.
proof fn each_visit_has_its_page(
    visits: Seq<Visit>,
    pages: Seq<Seq<char>>,
    places: Seq<Seq<char>>,
)
    requires
        visited_once(visits),
        forall|i: int|
            0 <= i < visits.len() && paths::holds(pages, (#[trigger] visits[i]).path@)
                ==> paths::holds(places, visits[i].path@),
    ensures
        wanted_visits(visits, pages) <= places.len(),
    decreases visits.len(),
{
    if visits.len() > 0 {
        let front = visits.drop_last();
        let last = visits.last();
        assert forall|i: int| 0 <= i < front.len() implies #[trigger] front[i] == visits[i] by {}
        if paths::holds(pages, last.path@) {
            assert(paths::holds(places, visits[visits.len() - 1].path@));
            let k = choose|k: int|
                0 <= k < places.len() && paths::same_path(#[trigger] places[k], last.path@);
            let rest = places.remove(k);
            assert forall|i: int|
                0 <= i < front.len() && paths::holds(
                    pages,
                    (#[trigger] front[i]).path@,
                ) implies paths::holds(rest, front[i].path@) by {
                assert(paths::holds(places, visits[i].path@));
                let m = choose|m: int|
                    0 <= m < places.len() && paths::same_path(
                        #[trigger] places[m],
                        visits[i].path@,
                    );
                assert(!paths::same_path(visits[i].path@, visits[visits.len() - 1].path@));
                assert(m != k);
                let at = if m < k {
                    m
                } else {
                    m - 1
                };
                assert(rest[at] == places[m]);
            }
            each_visit_has_its_page(front, pages, rest);
        } else {
            each_visit_has_its_page(front, pages, places);
        }
    }
}

proof fn wanted_visits_join(a: Seq<Visit>, b: Seq<Visit>, pages: Seq<Seq<char>>)
    ensures
        wanted_visits(a + b, pages) == wanted_visits(a, pages) + wanted_visits(b, pages),
    decreases b.len(),
{
    if b.len() == 0 {
        assert(a + b =~= a);
    } else {
        assert((a + b).drop_last() =~= a + b.drop_last());
        wanted_visits_join(a, b.drop_last(), pages);
    }
}

/// Recall is never above one: a walk that visits no file twice reaches, and its list finds, no more
/// pages than the labels want.
pub proof fn recall_is_never_above_one(
    corpus: Corpus,
    query: Query,
    returned: Seq<Visit>,
    walked: Seq<Visit>,
    score: Score,
)
    requires
        is_score(corpus, query, returned, walked, score),
        visited_once(returned + walked),
    ensures
        score.found <= score.reached <= score.gold,
{
    let pages = choose|pages: Seq<Seq<char>>| #[trigger]
        gold::is_path_set(query.pages(), pages) && score.gold == pages.len();
    wanted_visits_join(returned, walked, query.pages());
    each_visit_has_its_page(returned + walked, query.pages(), pages);
}

/// Reading the returned ranges is never more than reading the returned files whole, and the list
/// never finds more than the walk reached.
pub proof fn a_list_reads_no_more_than_its_files(
    corpus: Corpus,
    query: Query,
    returned: Seq<Visit>,
    walked: Seq<Visit>,
    score: Score,
)
    requires
        is_score(corpus, query, returned, walked, score),
    ensures
        score.read_tokens <= score.whole_tokens,
        score.found <= score.reached,
        score.returned <= score.visited,
{
    ranges_are_no_more_than_files(corpus, returned);
}

} // verus!
