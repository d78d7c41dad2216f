//! What is promised of the figures of an evaluation.

use vstd::prelude::*;

use crate::counting;
use crate::doc::{ArgView, Form, Num};
use crate::doubles;
use crate::eval::figures;
use crate::eval::figures::{Decision, Field, Link, Rate};
use crate::eval::runs::Run;
use crate::laws::degrees::fraction;

verus! {

/// A sum over runs grows with each run by what that run was scored or spent, and is nothing for no
/// runs.
pub proof fn a_sum_is_over_every_run(list: Seq<Run>, one: Run, which: Field)
    ensures
        figures::sum_of(Seq::empty(), which) == 0,
        figures::sum_of(list.push(one), which) - figures::sum_of(list, which) == match which {
            Field::Gold => one.score.gold as int,
            Field::Visited => one.score.visited as int,
            Field::Returned => one.score.returned as int,
            Field::Found => one.score.found as int,
            Field::Parts => one.score.parts_found as int,
            Field::Reached => one.score.reached as int,
            Field::Missed => if one.score.gold > one.score.reached {
                one.score.gold - one.score.reached
            } else {
                0
            },
            Field::CutOff => if one.score.reached > one.score.found {
                one.score.reached - one.score.found
            } else {
                0
            },
            Field::ReadTokens => one.score.read_tokens as int,
            Field::ReadLines => one.score.read_lines as int,
            Field::WholeTokens => one.score.whole_tokens as int,
            Field::InputTokens => one.spent.input_tokens as int,
            Field::Requests => one.spent.requests as int,
            Field::Served => one.spent.served as int,
            Field::Latency => one.spent.latency as int,
        },
{
    assert(list.push(one).drop_last() =~= list);
}

/// The rates of a run are of what it wanted, of what it returned and of what it visited.
pub proof fn a_rate_is_of_its_run(one: Run)
    requires
        one.score.gold > 0,
    ensures
        fraction(figures::rate(one, Rate::Recall)) == Some(
            (one.score.found as int, one.score.gold as int),
        ),
        fraction(figures::rate(one, Rate::SectionRecall)) == Some(
            (one.score.parts_found as int, one.score.gold as int),
        ),
        fraction(figures::rate(one, Rate::Precision)) == if one.score.returned == 0 {
            Some((0int, 1int))
        } else {
            Some((one.score.found as int, one.score.returned as int))
        },
        fraction(figures::rate(one, Rate::OverVisited)) == if one.score.visited == 0 {
            Some((0int, 1int))
        } else {
            Some((one.score.reached as int, one.score.visited as int))
        },
{
}

/// The mean over runs is their sum over their number: a run more adds its rate to the sum, and
/// nothing is the mean of no runs.
pub proof fn a_mean_is_over_every_run(list: Seq<Run>, one: Run, which: Rate)
    requires
        list.len() < u64::MAX,
    ensures
        figures::total(list.push(one), which) matches Num::Plus(before, more) && *before
            == figures::total(list, which) && *more == figures::rate(one, which),
        figures::mean(list.push(one), which) matches Num::Over(sum, number) && *sum
            == figures::total(list.push(one), which) && *number == Num::Whole(
            (list.len() + 1) as u64,
        ),
        figures::total(Seq::empty(), which) == Num::Whole(0),
        figures::mean(Seq::empty(), which) == Num::Whole(0),
{
    assert(list.push(one).drop_last() =~= list);
}

/// A share is a hundred times the part for each of the whole, and a change a hundred times the
/// difference; how many times a number is of another is their quotient. Nothing is told where there
/// is nothing to divide by.
pub proof fn a_share_is_in_hundredths(part: u128, whole: u128)
    requires
        whole > 0,
    ensures
        figures::share(part as int, whole as int) matches Num::Over(a, b) && *b == Num::Long(whole)
            && (*a matches Num::Times(c, d) && *c == Num::Whole(100) && *d == Num::Long(part)),
        figures::share(part as int, 0) == Num::Whole(0),
        figures::ratio_of_sums(part as int, whole as int) matches Num::Over(a, b) && *a
            == Num::Long(part) && *b == Num::Long(whole),
        figures::ratio_of_sums(part as int, 0) == Num::Whole(0),
        figures::delta(part as int, 0) == ArgView::Text("—"@),
        figures::times(part as int, 0) == ArgView::Text("—"@),
        figures::delta(part as int, whole as int) matches ArgView::Framed { before, figure, after }
            && before == ""@ && after == "%"@ && figure.form == Form::Signed(0) && (
        figure.value matches Num::Over(a, b) && *b == Num::Long(whole) && (*a matches Num::Times(
            c,
            d,
        ) && *c == Num::Whole(100) && (*d matches Num::Minus(e, f) && *e == Num::Long(part) && *f
            == Num::Long(whole)))),
        figures::times(part as int, whole as int) matches ArgView::Framed { before, figure, after }
            && before == ""@ && after == "×"@ && figure.form == Form::Fixed(1) && (
        figure.value matches Num::Over(a, b) && *a == Num::Long(part) && *b == Num::Long(whole)),
{
}

/// A time is told in thousandths of a second, rounded down.
pub proof fn a_time_is_rounded_down(nanos: int)
    requires
        0 <= nanos,
    ensures
        1_000_000 * figures::millis(nanos) <= nanos < 1_000_000 * (figures::millis(nanos) + 1),
{
}

/// Links are counted as followed or passed over, those whose target is wanted once more, and those
/// passed over that clear the threshold.
pub proof fn every_link_is_decided(links: Seq<Link>, threshold: u64, decision: Decision)
    requires
        figures::is_decision(links, threshold, decision),
    ensures
        decision.followed.judged == counting::how_many(links, |link: Link| link.followed),
        decision.followed.wanted == counting::how_many(
            links,
            |link: Link| link.followed && link.wanted,
        ),
        decision.passed.judged == counting::how_many(links, |link: Link| !link.followed),
        decision.passed.wanted == counting::how_many(
            links,
            |link: Link| !link.followed && link.wanted,
        ),
        decision.cleared == counting::how_many(
            links,
            |link: Link| !link.followed && doubles::reaches(link.scent, threshold),
        ),
{
    links_are_tallied(links, threshold);
}

proof fn links_are_tallied(links: Seq<Link>, threshold: u64)
    ensures
        figures::tally(links, true) == (
            counting::how_many(links, |link: Link| link.followed && link.wanted),
            counting::how_many(links, |link: Link| link.followed),
        ),
        figures::tally(links, false) == (
            counting::how_many(links, |link: Link| !link.followed && link.wanted),
            counting::how_many(links, |link: Link| !link.followed),
        ),
        figures::cleared(links, threshold) == counting::how_many(
            links,
            |link: Link| !link.followed && doubles::reaches(link.scent, threshold),
        ),
    decreases links.len(),
{
    if links.len() > 0 {
        links_are_tallied(links.drop_last(), threshold);
    }
}

} // verus!
