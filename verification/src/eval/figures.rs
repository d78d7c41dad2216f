//! The figures of a report: sums, means and differences over runs.

use vstd::prelude::*;

use crate::counting;
use crate::doc;
use crate::doc::{Arg, Figure, Form, Num};
use crate::doubles;
use crate::eval::runs;
use crate::eval::runs::Run;
use crate::run;
use crate::text;

verus! {

/// A whole number that a run has.
#[derive(PartialEq, Eq, Structural, Clone, Copy)]
pub enum Field {
    Gold,
    Visited,
    Returned,
    Found,
    Parts,
    Reached,
    /// The wanted pages the walk did not reach.
    Missed,
    /// The wanted pages it reached and the list does not return.
    CutOff,
    ReadTokens,
    ReadLines,
    WholeTokens,
    InputTokens,
    Requests,
    Served,
    Latency,
}

pub open spec fn field(run: Run, which: Field) -> int {
    match which {
        Field::Gold => run.score.gold as int,
        Field::Visited => run.score.visited as int,
        Field::Returned => run.score.returned as int,
        Field::Found => run.score.found as int,
        Field::Parts => run.score.parts_found as int,
        Field::Reached => run.score.reached as int,
        Field::Missed => runs::less(run.score.gold as int, run.score.reached as int),
        Field::CutOff => runs::less(run.score.reached as int, run.score.found as int),
        Field::ReadTokens => run.score.read_tokens as int,
        Field::ReadLines => run.score.read_lines as int,
        Field::WholeTokens => run.score.whole_tokens as int,
        Field::InputTokens => run.spent.input_tokens as int,
        Field::Requests => run.spent.requests as int,
        Field::Served => run.spent.served as int,
        Field::Latency => run.spent.latency as int,
    }
}

pub fn field_of(run: &Run, which: Field) -> (n: u64)
    ensures
        n == field(*run, which),
{
    match which {
        Field::Gold => run.score.gold as u64,
        Field::Visited => run.score.visited as u64,
        Field::Returned => run.score.returned as u64,
        Field::Found => run.score.found as u64,
        Field::Parts => run.score.parts_found as u64,
        Field::Reached => run.score.reached as u64,
        Field::Missed => run.score.missed() as u64,
        Field::CutOff => if run.score.reached >= run.score.found {
            (run.score.reached - run.score.found) as u64
        } else {
            0
        },
        Field::ReadTokens => run.score.read_tokens,
        Field::ReadLines => run.score.read_lines,
        Field::WholeTokens => run.score.whole_tokens,
        Field::InputTokens => run.spent.input_tokens,
        Field::Requests => run.spent.requests,
        Field::Served => run.spent.served,
        Field::Latency => run.spent.latency,
    }
}

/// A whole number of each run, over all runs.
pub open spec fn sum_of(list: Seq<Run>, which: Field) -> int
    decreases list.len(),
{
    if list.len() == 0 {
        0
    } else {
        sum_of(list.drop_last(), which) + field(list.last(), which)
    }
}

pub fn sum(list: &Vec<Run>, which: Field) -> (n: u128)
    ensures
        n == sum_of(list@, which),
{
    let mut n: u128 = 0;
    for i in 0..list.len()
        invariant
            n == sum_of(list@.take(i as int), which),
            n <= i * u64::MAX,
    {
        proof {
            counting::one_more(list@, i as int);
            counting::room(i as int);
        }
        n += field_of(&list[i], which) as u128;
    }
    proof {
        counting::take_all(list@);
    }
    n
}

/// A number that a run comes to.
#[derive(PartialEq, Eq, Structural, Clone, Copy)]
pub enum Rate {
    Recall,
    SectionRecall,
    Precision,
    /// Precision over everything the walk judged.
    OverVisited,
    Cost,
}

pub open spec fn rate(run: Run, which: Rate) -> Num {
    match which {
        Rate::Recall => runs::quotient(run.score.found as nat, run.score.gold as nat),
        Rate::SectionRecall => runs::quotient(run.score.parts_found as nat, run.score.gold as nat),
        Rate::Precision => runs::part_of(run.score.found as nat, run.score.returned as nat),
        Rate::OverVisited => runs::part_of(run.score.reached as nat, run.score.visited as nat),
        Rate::Cost => run::price(run.spent.input_tokens),
    }
}

pub fn rate_of(run: &Run, which: Rate) -> (value: Num)
    ensures
        value == rate(*run, which),
{
    match which {
        Rate::Recall => run.score.recall(),
        Rate::SectionRecall => run.score.section_recall(),
        Rate::Precision => run.score.precision(),
        Rate::OverVisited => run.score.precision_over_visited(),
        Rate::Cost => run.spent.cost_usd(),
    }
}

/// A number of each run, added up in order.
pub open spec fn total(list: Seq<Run>, which: Rate) -> Num
    decreases list.len(),
{
    if list.len() == 0 {
        Num::Whole(0)
    } else {
        Num::Plus(
            Box::new(total(list.drop_last(), which)),
            Box::new(rate(list.last(), which)),
        )
    }
}

pub fn total_of(list: &Vec<Run>, which: Rate) -> (value: Num)
    ensures
        value == total(list@, which),
{
    let mut value: Num = Num::Whole(0);
    for i in 0..list.len()
        invariant
            value == total(list@.take(i as int), which),
    {
        proof {
            counting::one_more(list@, i as int);
        }
        value = Num::Plus(Box::new(value), Box::new(rate_of(&list[i], which)));
    }
    proof {
        counting::take_all(list@);
    }
    value
}

pub open spec fn over(a: Num, b: Num) -> Num {
    Num::Over(Box::new(a), Box::new(b))
}

pub open spec fn minus(a: Num, b: Num) -> Num {
    Num::Minus(Box::new(a), Box::new(b))
}

pub fn difference(a: Num, b: Num) -> (value: Num)
    ensures
        value == minus(a, b),
{
    Num::Minus(Box::new(a), Box::new(b))
}

/// The mean of a number over runs; nothing over none.
pub open spec fn mean(list: Seq<Run>, which: Rate) -> Num {
    if list.len() == 0 {
        Num::Whole(0)
    } else {
        over(total(list, which), Num::Whole(list.len() as u64))
    }
}

pub fn mean_of(list: &Vec<Run>, which: Rate) -> (value: Num)
    ensures
        value == mean(list@, which),
{
    if list.len() == 0 {
        Num::Whole(0)
    } else {
        Num::Over(Box::new(total_of(list, which)), Box::new(Num::Whole(list.len() as u64)))
    }
}

/// A sum over how many runs it is of.
pub open spec fn per_run(sum: Num, n: nat) -> Num {
    over(sum, Num::Whole(n as u64))
}

pub fn each_of(sum: Num, n: usize) -> (value: Num)
    ensures
        value == per_run(sum, n as nat),
{
    Num::Over(Box::new(sum), Box::new(Num::Whole(n as u64)))
}

pub open spec fn long(n: int) -> Num {
    Num::Long(n as u128)
}

/// A quotient of sums, and nothing when there is nothing to divide by.
pub open spec fn ratio_of_sums(part: int, whole: int) -> Num {
    if whole == 0 {
        Num::Whole(0)
    } else {
        over(long(part), long(whole))
    }
}

pub fn sums_ratio(part: u128, whole: u128) -> (value: Num)
    ensures
        value == ratio_of_sums(part as int, whole as int),
{
    if whole == 0 {
        Num::Whole(0)
    } else {
        Num::Over(Box::new(Num::Long(part)), Box::new(Num::Long(whole)))
    }
}

/// The requests that answers took, per answer.
pub open spec fn requests_per_answer(list: Seq<Run>) -> Num {
    ratio_of_sums(sum_of(list, Field::Requests), sum_of(list, Field::Served))
}

pub fn requests_each(list: &Vec<Run>) -> (value: Num)
    ensures
        value == requests_per_answer(list@),
{
    sums_ratio(sum(list, Field::Requests), sum(list, Field::Served))
}

/// A part of a whole as a percentage.
pub open spec fn share(part: int, whole: int) -> Num {
    if whole == 0 {
        Num::Whole(0)
    } else {
        over(Num::Times(Box::new(Num::Whole(100)), Box::new(long(part))), long(whole))
    }
}

pub fn share_of(part: u128, whole: u128) -> (value: Num)
    ensures
        value == share(part as int, whole as int),
{
    if whole == 0 {
        Num::Whole(0)
    } else {
        Num::Over(
            Box::new(Num::Times(Box::new(Num::Whole(100)), Box::new(Num::Long(part)))),
            Box::new(Num::Long(whole)),
        )
    }
}

pub fn less_of(a: u128, b: u128) -> (n: u128)
    ensures
        n == runs::less(a as int, b as int),
{
    if a >= b {
        a - b
    } else {
        0
    }
}

/// How much more a part is than a base, as a signed percentage: a reader can tell a saving from a
/// cost without reading the sentence around it.
pub open spec fn delta(part: int, base: int) -> doc::ArgView {
    if base == 0 {
        doc::word("—"@)
    } else {
        doc::framed(
            ""@,
            over(
                Num::Times(Box::new(Num::Whole(100)), Box::new(minus(long(part), long(base)))),
                long(base),
            ),
            Form::Signed(0),
            "%"@,
        )
    }
}

pub fn delta_of(part: u128, base: u128) -> (arg: Arg)
    ensures
        arg@ == delta(part as int, base as int),
{
    if base == 0 {
        Arg::Text("—".to_owned())
    } else {
        let change: Num = difference(Num::Long(part), Num::Long(base));
        let value: Num = Num::Over(
            Box::new(Num::Times(Box::new(Num::Whole(100)), Box::new(change))),
            Box::new(Num::Long(base)),
        );
        Arg::Framed {
            before: "".to_owned(),
            figure: Figure { value, form: Form::Signed(0) },
            after: "%".to_owned(),
        }
    }
}

/// A part as a multiple of a base.
pub open spec fn times(part: int, base: int) -> doc::ArgView {
    if base == 0 {
        doc::word("—"@)
    } else {
        doc::framed(""@, over(long(part), long(base)), Form::Fixed(1), "×"@)
    }
}

pub fn times_of(part: u128, base: u128) -> (arg: Arg)
    ensures
        arg@ == times(part as int, base as int),
{
    if base == 0 {
        Arg::Text("—".to_owned())
    } else {
        let value: Num = Num::Over(Box::new(Num::Long(part)), Box::new(Num::Long(base)));
        Arg::Framed {
            before: "".to_owned(),
            figure: Figure { value, form: Form::Fixed(1) },
            after: "×".to_owned(),
        }
    }
}

/// The mean of one answer's latency over runs, in nanoseconds.
pub open spec fn mean_run_latency(list: Seq<Run>) -> int {
    runs::mean_time(sum_of(list, Field::Latency), sum_of(list, Field::Served))
}

pub fn latency_of(list: &Vec<Run>) -> (nanos: u128)
    ensures
        nanos == mean_run_latency(list@),
{
    runs::mean_of_time(sum(list, Field::Latency), sum(list, Field::Served))
}

/// The whole milliseconds of a time in nanoseconds.
pub open spec fn millis(nanos: int) -> int {
    nanos / 1_000_000
}

pub fn millis_of(nanos: u128) -> (n: u128)
    ensures
        n == millis(nanos as int),
{
    nanos / 1_000_000
}

/// A time in nanoseconds as seconds.
pub open spec fn seconds(nanos: int) -> Num {
    Num::Plus(
        Box::new(long(nanos / 1_000_000_000)),
        Box::new(over(long(nanos % 1_000_000_000), Num::Whole(1_000_000_000))),
    )
}

pub fn seconds_of(nanos: u128) -> (value: Num)
    ensures
        value == seconds(nanos as int),
{
    Num::Plus(
        Box::new(Num::Long(nanos / 1_000_000_000)),
        Box::new(
            Num::Over(
                Box::new(Num::Long(nanos % 1_000_000_000)),
                Box::new(Num::Whole(1_000_000_000)),
            ),
        ),
    )
}

/// A rate of how many links were wanted.
#[derive(PartialEq, Eq, Structural, Clone, Copy)]
pub struct Tally {
    pub wanted: usize,
    pub judged: usize,
}

/// What judged links say about the walk's follow decision.
#[derive(PartialEq, Eq, Structural, Clone, Copy)]
pub struct Decision {
    /// The links the walk followed, and how many of their targets were wanted.
    pub followed: Tally,
    /// The same for the links it passed over.
    pub passed: Tally,
    /// How many of those passed over cleared the threshold: the decision is not a scent
    /// comparison.
    pub cleared: usize,
}

/// A link that was judged: its scent, whether the walk followed it and whether its target was
/// wanted.
#[derive(PartialEq, Eq, Structural, Clone, Copy)]
pub struct Link {
    pub scent: u64,
    pub followed: bool,
    pub wanted: bool,
}

/// How many links were followed or not, and wanted or either way.
pub open spec fn tally(links: Seq<Link>, followed: bool) -> (nat, nat)
    decreases links.len(),
{
    if links.len() == 0 {
        (0, 0)
    } else {
        let (wanted, judged) = tally(links.drop_last(), followed);
        if links.last().followed == followed {
            (
                wanted + if links.last().wanted {
                    1nat
                } else {
                    0nat
                },
                judged + 1,
            )
        } else {
            (wanted, judged)
        }
    }
}

/// How many links that were passed over reach a threshold.
pub open spec fn cleared(links: Seq<Link>, threshold: u64) -> nat
    decreases links.len(),
{
    if links.len() == 0 {
        0
    } else {
        cleared(links.drop_last(), threshold) + if !links.last().followed && doubles::reaches(
            links.last().scent,
            threshold,
        ) {
            1nat
        } else {
            0nat
        }
    }
}

pub open spec fn is_decision(links: Seq<Link>, threshold: u64, decision: Decision) -> bool {
    &&& (decision.followed.wanted as nat, decision.followed.judged as nat) == tally(links, true)
    &&& (decision.passed.wanted as nat, decision.passed.judged as nat) == tally(links, false)
    &&& decision.cleared == cleared(links, threshold)
}

/// What links say about the walk's follow decision: it splits on what the walk did.
pub fn decide(links: &Vec<Link>, threshold: u64) -> (decision: Decision)
    ensures
        is_decision(links@, threshold, decision),
{
    let mut decision = Decision {
        followed: Tally { wanted: 0, judged: 0 },
        passed: Tally { wanted: 0, judged: 0 },
        cleared: 0,
    };
    for i in 0..links.len()
        invariant
            is_decision(links@.take(i as int), threshold, decision),
            decision.followed.wanted <= i,
            decision.followed.judged <= i,
            decision.passed.wanted <= i,
            decision.passed.judged <= i,
            decision.cleared <= i,
    {
        proof {
            counting::one_more(links@, i as int);
        }
        let link: Link = links[i];
        let one: usize = if link.wanted {
            1
        } else {
            0
        };
        if link.followed {
            decision.followed = Tally {
                wanted: decision.followed.wanted + one,
                judged: decision.followed.judged + 1,
            };
        } else {
            if doubles::is_at_least(link.scent, threshold) {
                decision.cleared = decision.cleared + 1;
            }
            decision.passed = Tally {
                wanted: decision.passed.wanted + one,
                judged: decision.passed.judged + 1,
            };
        }
    }
    proof {
        counting::take_all(links@);
    }
    decision
}

/// Every judged link was followed or passed over, and none that cleared the threshold was counted
/// as followed.
pub proof fn every_link_is_decided_once(links: Seq<Link>, threshold: u64)
    ensures
        tally(links, true).1 + tally(links, false).1 == links.len(),
        cleared(links, threshold) <= tally(links, false).1,
        tally(links, true).0 <= tally(links, true).1,
        tally(links, false).0 <= tally(links, false).1,
    decreases links.len(),
{
    if links.len() > 0 {
        every_link_is_decided_once(links.drop_last(), threshold);
    }
}

impl Tally {
    /// The share of links whose target was wanted.
    pub open spec fn share(self) -> Num {
        runs::part_of(self.wanted as nat, self.judged as nat)
    }

    pub fn rate(&self) -> (value: Num)
        ensures
            value == self.share(),
    {
        if self.judged == 0 {
            Num::Whole(0)
        } else {
            Num::Over(
                Box::new(Num::Whole(self.wanted as u64)),
                Box::new(Num::Whole(self.judged as u64)),
            )
        }
    }
}

/// How many bins the calibration tables cut 0 to 1 into.
pub const BINS: usize = 10;

/// Where each bin but the first starts: the bits of the least double whose tenfold, as a double, is
/// at least the bin's number.
pub const BIN_STARTS: [u64; 9] = [
    0x3fb9_9999_9999_999a,
    0x3fc9_9999_9999_999a,
    0x3fd3_3333_3333_3333,
    0x3fd9_9999_9999_999a,
    0x3fe0_0000_0000_0000,
    0x3fe3_3333_3333_3333,
    0x3fe6_6666_6666_6666,
    0x3fe9_9999_9999_999a,
    0x3fec_cccc_cccc_cccc,
];

/// How many of the first `n` bin starts a scent reaches.
pub open spec fn starts_reached(scent: u64, n: int) -> nat
    decreases n,
{
    if n <= 0 {
        0
    } else {
        starts_reached(scent, n - 1) + if doubles::reaches(scent, BIN_STARTS@[n - 1]) {
            1nat
        } else {
            0nat
        }
    }
}

/// Which bin a scent falls in: ten of them over 0 to 1, the last one closed so that a scent of 1
/// has a home.
pub fn bin_of(scent: u64) -> (bin: usize)
    ensures
        bin == starts_reached(scent, 9),
        bin < BINS,
{
    let mut bin: usize = 0;
    for i in 0..9usize
        invariant
            bin == starts_reached(scent, i as int),
            bin <= i,
    {
        if doubles::is_at_least(scent, BIN_STARTS[i]) {
            bin += 1;
        }
    }
    bin
}

/// A tenth as it is written with one decimal.
pub open spec fn tenths(n: nat) -> Seq<char> {
    text::decimal(n / 10) + "."@ + text::decimal(n % 10)
}

fn tenths_of(n: usize) -> (text: String)
    ensures
        text@ == tenths(n as nat),
{
    let mut text: String = text::number((n / 10) as u64);
    text.append(".");
    text.append(text::number((n % 10) as u64).as_str());
    text
}

/// What a bin is called.
pub open spec fn bin_name(bin: nat) -> Seq<char> {
    tenths(bin) + "–"@ + tenths(bin + 1)
}

pub fn bin_label(bin: usize) -> (label: String)
    requires
        bin < BINS,
    ensures
        label@ == bin_name(bin as nat),
{
    let mut label: String = tenths_of(bin);
    label.append("–");
    label.append(tenths_of(bin + 1).as_str());
    label
}

} // verus!
