//! What is promised of how a walk is printed: its links, its files and its tree.

use vstd::prelude::*;

use crate::cli::{ReadingList, Reason};
use crate::doc::Num;
use crate::doubles;
use crate::eval::experiments;
use crate::eval::figures;
use crate::eval::figures::Link;
use crate::eval::findings::{Arrival, Budget};
use crate::eval::labels::Query;
use crate::eval::overview;
use crate::eval::runs;
use crate::eval::runs::Run;
use crate::laws::basics;
use crate::paths;
use crate::text;

verus! {

/// Links are printed from the strongest scent to the weakest, those of the same scent by their
/// targets, and those without one last; every link is printed.
pub proof fn stronger_links_are_printed_first(
    links: Seq<crate::format::LinkView>,
    i: int,
    j: int,
)
    requires
        0 <= i < j < crate::format::queue(links).len(),
    ensures
        ({
            let (a, b) = (crate::format::queue(links)[i], crate::format::queue(links)[j]);
            &&& b.scent is Some ==> a.scent is Some
            &&& a.scent matches Some(x) ==> (b.scent matches Some(y) ==> x <= 0x7ff0_0000_0000_0000
                && y <= 0x7ff0_0000_0000_0000 ==> x >= y)
            &&& a.scent == b.scent ==> !text::before(b.target, a.target)
        }),
{
    crate::format::links_are_queued_in_order(links);
    let (a, b) = (crate::format::queue(links)[i], crate::format::queue(links)[j]);
    assert(!crate::format::queued_before(b, a));
    match (a.scent, b.scent) {
        (Some(x), Some(y)) => {
            if x <= 0x7ff0_0000_0000_0000 && y <= 0x7ff0_0000_0000_0000 {
                basics::ordinary_doubles_are_in_the_order_of_their_bits(x, y);
                basics::ordinary_doubles_are_in_the_order_of_their_bits(y, x);
            }
        },
        _ => {},
    }
}

/// The files of a walk are printed as they were found: the results and then the others, each with
/// its path, what it was found to be worth, the scent that led to it, and the way there.
pub proof fn every_file_is_printed_as_it_was_found(list: ReadingList, i: int)
    requires
        0 <= i < list.results.len() + list.walked.len(),
    ensures
        crate::format::files_of(list).len() == list.results.len() + list.walked.len(),
        ({
            let file = crate::format::files_of(list)[i];
            if i < list.results.len() {
                let from = list.results@[i];
                file.path == from.path@ && file.relevance == from.relevance && file.scent
                    == from.scent && file.via == text::texts(from.via@) && file.links.len()
                    == from.links.len()
            } else {
                let from = list.walked@[i - list.results.len()];
                file.path == from.path@ && file.relevance == from.relevance && file.scent
                    == from.scent && file.via == text::texts(from.via@) && file.links.len()
                    == from.links.len()
            }
        }),
{
    let files = crate::format::files_of(list);
    if i < list.results.len() {
        assert(files[i] == crate::format::result_file(list.results@[i]));
        queue_keeps(crate::format::link_views(list.results@[i].links@));
    } else {
        assert(files[i] == crate::format::walked_file(list.walked@[i - list.results.len()]));
        queue_keeps(crate::format::link_views(list.walked@[i - list.results.len()].links@));
    }
}

proof fn queue_keeps(links: Seq<crate::format::LinkView>)
    ensures
        crate::format::queue(links).len() == links.len(),
{
    crate::sorting::sorted_holds(
        links,
        |a: crate::format::LinkView, b: crate::format::LinkView|
            crate::format::queued_before(a, b),
        arbitrary(),
    );
}

/// A link that was followed is told as such; one that was not is told as already reached where it
/// was, and else as pruned.
pub proof fn a_link_is_told_by_what_became_of_it(link: crate::format::LinkView)
    ensures
        link.followed ==> crate::format::mark(link) == "followed"@,
        !link.followed && link.reason == Some(Reason::AlreadyReached) ==> crate::format::mark(link)
            == "already reached"@,
        !link.followed && link.reason != Some(Reason::AlreadyReached) ==> crate::format::mark(link)
            == "pruned"@,
{
}

/// A file hangs from the file that its way comes from last, where that one followed a link to it;
/// a file that no way leads to hangs from none.
pub proof fn a_file_hangs_from_where_its_way_comes_from(
    files: Seq<crate::format::FileView>,
    at: int,
    p: int,
)
    requires
        crate::format::distinct(files),
        0 <= at < files.len(),
        0 <= p < files.len(),
    ensures
        (crate::format::parent(files, at) == Some(p)) == (files[at].via.len() > 0
            && files[at].via.last() == files[p].path && exists|i: int|
            0 <= i < files[p].links.len() && (#[trigger] files[p].links[i]).followed
                && files[p].links[i].target == files[at].path),
{
    if files[at].via.len() > 0 {
        found_at(files, files[at].via.last());
        if files[at].via.last() == files[p].path {
            is_found(files, p);
        }
    }
}

proof fn found_at(files: Seq<crate::format::FileView>, path: Seq<char>)
    ensures
        crate::format::find(files, path) matches Some(i) ==> 0 <= i < files.len() && files[i].path
            == path,
    decreases files.len(),
{
    if files.len() > 0 {
        found_at(files.drop_last(), path);
    }
}

proof fn is_found(files: Seq<crate::format::FileView>, p: int)
    requires
        crate::format::distinct(files),
        0 <= p < files.len(),
    ensures
        crate::format::find(files, files[p].path) == Some(p),
    decreases files.len(),
{
    let front = files.drop_last();
    if p < files.len() - 1 {
        assert(files[p].path != files[files.len() - 1].path);
        assert(crate::format::distinct(front)) by {
            assert forall|i: int, j: int| 0 <= i < j < front.len() implies (#[trigger] front[i]).path
                != (#[trigger] front[j]).path by {
                assert(files[i].path != files[j].path);
            }
        }
        is_found(front, p);
    }
}

/// A number of things is told with its noun, in the plural unless it is one.
pub proof fn one_is_told_in_the_singular(n: nat, noun: Seq<char>)
    ensures
        n == 1 ==> crate::format::counted(n, noun) == text::decimal(1) + " "@ + noun,
        n != 1 ==> crate::format::counted(n, noun) == text::decimal(n) + " "@ + noun + "s"@,
{
}

/// What falls into a bin is what has its scent there, all of it and in order.
pub proof fn a_bin_holds_what_falls_into_it(arrivals: Seq<Arrival>, links: Seq<Link>, bin: int)
    ensures
        experiments::arrivals_in(arrivals, bin) == basics::gathered(
            arrivals,
            |one: Arrival|
                if figures::starts_reached(one.scent, 9) == bin {
                    Some(one)
                } else {
                    None
                },
        ),
        experiments::links_in(links, bin) == basics::gathered(
            links,
            |one: Link|
                if figures::starts_reached(one.scent, 9) == bin {
                    Some(one)
                } else {
                    None
                },
        ),
    decreases arrivals.len() + links.len(),
{
    if arrivals.len() > 0 {
        a_bin_holds_what_falls_into_it(arrivals.drop_last(), links, bin);
    }
    if links.len() > 0 {
        a_bin_holds_what_falls_into_it(arrivals, links.drop_last(), bin);
    }
}

/// Arrivals are added up one by one: the scent, what the page was worth, and whether it was wanted.
pub proof fn an_arrival_more_is_added(list: Seq<Arrival>, one: Arrival)
    ensures
        experiments::scent_sum(list.push(one)) matches Num::Plus(before, more) && *before
            == experiments::scent_sum(list) && *more == Num::Double(one.scent),
        experiments::relevance_sum(list.push(one)) matches Num::Plus(before, more) && *before
            == experiments::relevance_sum(list) && *more == Num::Double(one.relevance),
        experiments::wanted_arrivals(list.push(one)) == experiments::wanted_arrivals(list)
            + if one.wanted {
            1nat
        } else {
            0nat
        },
        experiments::scent_sum(Seq::empty()) == Num::Whole(0),
        experiments::relevance_sum(Seq::empty()) == Num::Whole(0),
        experiments::wanted_arrivals(Seq::empty()) == 0,
{
    assert(list.push(one).drop_last() =~= list);
}

/// A link has changed where the walk would follow it by one of its scents and not by the other; a
/// link that was not judged before is not counted, and every one that was is compared.
pub proof fn a_link_has_changed_where_the_decision_has(
    links: Seq<(String, u64)>,
    one: (String, u64),
    decided: Seq<(String, u64)>,
    threshold: u64,
)
    ensures
        experiments::changed(links.push(one), decided, threshold) - experiments::changed(
            links,
            decided,
            threshold,
        ) == match experiments::scent_in(decided, one.0@) {
            Some(before) => if doubles::reaches(before, threshold) != doubles::reaches(
                one.1,
                threshold,
            ) {
                1int
            } else {
                0
            },
            None => 0,
        },
        experiments::scent_in(decided, one.0@) is Some ==> experiments::moved(
            links.push(one),
            decided,
        ).1 == experiments::moved(links, decided).1 + 1,
        experiments::scent_in(decided, one.0@) is None ==> experiments::moved(
            links.push(one),
            decided,
        ) == experiments::moved(links, decided),
        experiments::changed(Seq::empty(), decided, threshold) == 0,
        experiments::moved(Seq::empty(), decided).1 == 0,
{
    assert(links.push(one).drop_last() =~= links);
}

/// The scent of a target is that of the first link to it.
pub proof fn the_first_link_gives_the_scent(
    links: Seq<(String, u64)>,
    target: Seq<char>,
    at: int,
)
    requires
        0 <= at < links.len(),
        paths::components(links[at].0@) == paths::components(target),
        forall|k: int|
            0 <= k < at ==> paths::components((#[trigger] links[k]).0@) != paths::components(target),
    ensures
        experiments::scent_in(links, target) == Some(links[at].1),
    decreases links.len(),
{
    let front = links.drop_last();
    if at < links.len() - 1 {
        assert forall|k: int| 0 <= k < at implies paths::components((#[trigger] front[k]).0@)
            != paths::components(target) by {
            assert(front[k] == links[k]);
        }
        the_first_link_gives_the_scent(front, target, at);
    } else {
        assert forall|k: int| 0 <= k < front.len() implies paths::components(
            (#[trigger] front[k]).0@,
        ) != paths::components(target) by {
            assert(front[k] == links[k]);
        }
        no_link_gives_a_scent(front, target);
    }
}

proof fn no_link_gives_a_scent(links: Seq<(String, u64)>, target: Seq<char>)
    requires
        forall|k: int|
            0 <= k < links.len() ==> paths::components((#[trigger] links[k]).0@)
                != paths::components(target),
    ensures
        experiments::scent_in(links, target) is None,
    decreases links.len(),
{
    if links.len() > 0 {
        let front = links.drop_last();
        assert forall|k: int| 0 <= k < front.len() implies paths::components(
            (#[trigger] front[k]).0@,
        ) != paths::components(target) by {
            assert(front[k] == links[k]);
        }
        no_link_gives_a_scent(front, target);
        assert(paths::components(links[links.len() - 1].0@) != paths::components(target));
    }
}

/// The pages that a run did not reach are those that none of its visits is of, in order.
pub proof fn what_was_not_reached_is_listed(one: Run, pages: Seq<Seq<char>>)
    ensures
        overview::not_reached(one, pages) == basics::gathered(
            pages,
            |page: Seq<char>|
                if one.reaches(page) {
                    None
                } else {
                    Some(page)
                },
        ),
    decreases pages.len(),
{
    if pages.len() > 0 {
        what_was_not_reached_is_listed(one, pages.drop_last());
    }
}

/// What could not be read is listed for every run of every budget.
pub proof fn what_could_not_be_read_is_listed(
    list: Seq<Run>,
    one: Run,
    budgets: Seq<Budget>,
    budget: Budget,
)
    ensures
        overview::unread(list.push(one)) == overview::unread(list) + text::texts(one.unreadable@),
        overview::all_unread(budgets.push(budget)) == overview::all_unread(budgets)
            + overview::unread(budget.runs@),
        overview::unread(Seq::empty()).len() == 0,
        overview::all_unread(Seq::empty()).len() == 0,
{
    assert(list.push(one).drop_last() =~= list);
    assert(budgets.push(budget).drop_last() =~= budgets);
}

/// What queries want of a wiki is averaged over the queries: of each the pages that it wants over
/// all pages.
pub proof fn what_is_wanted_is_averaged(queries: Seq<Query>, one: Query, pages: nat)
    requires
        pages > 0,
        queries.len() < u64::MAX,
    ensures
        overview::gold_shares(queries.push(one), pages) matches Num::Plus(before, more) && *before
            == overview::gold_shares(queries, pages) && *more == runs::quotient(
            one.expected.len() as nat,
            pages,
        ),
        overview::mean_gold_over(queries.push(one), pages) matches Num::Over(sum, number) && *sum
            == overview::gold_shares(queries.push(one), pages) && *number == Num::Whole(
            (queries.len() + 1) as u64,
        ),
        overview::gold_shares(Seq::empty(), pages) == Num::Whole(0),
        overview::mean_gold_over(Seq::empty(), pages) == Num::Whole(0),
{
    assert(queries.push(one).drop_last() =~= queries);
}

} // verus!
