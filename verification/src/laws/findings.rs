//! What is promised of the findings of an evaluation: what is looked up, what is labelled and in
//! which order queries are told of.

use vstd::prelude::*;

use crate::counting;
use crate::doubles;
use crate::eval::corpus;
use crate::eval::corpus::{Corpus, Heading, Page};
use crate::eval::figures::Link;
use crate::eval::findings;
use crate::eval::findings::{Arrival, Findings, LossView, PlaceView, Row};
use crate::eval::labels;
use crate::eval::labels::{Expected, Query};
use crate::eval::runs::{Judged, Run, Visit};
use crate::laws::basics;
use crate::paths;
use crate::sorting;
use crate::text;

verus! {

/// A query is looked up by its id, and a row by its label: the first that has it.
pub proof fn the_first_of_a_name_is_found(
    queries: Seq<Query>,
    rows: Seq<Row>,
    name: Seq<char>,
    q: int,
    r: int,
)
    requires
        0 <= q < queries.len(),
        queries[q].id@ == name,
        forall|k: int| 0 <= k < q ==> (#[trigger] queries[k]).id@ != name,
        0 <= r < rows.len(),
        rows[r].label@ == name,
        forall|k: int| 0 <= k < r ==> (#[trigger] rows[k]).label@ != name,
    ensures
        findings::query_with(queries, name) == Some(queries[q]),
        findings::row_with(rows, name) == Some(r),
{
    first_query(queries, name, q);
    first_row(rows, name, r);
}

proof fn first_query(queries: Seq<Query>, name: Seq<char>, q: int)
    requires
        0 <= q < queries.len(),
        queries[q].id@ == name,
        forall|k: int| 0 <= k < q ==> (#[trigger] queries[k]).id@ != name,
    ensures
        findings::query_with(queries, name) == Some(queries[q]),
    decreases queries.len(),
{
    let front = queries.drop_last();
    if q < queries.len() - 1 {
        assert forall|k: int| 0 <= k < q implies (#[trigger] front[k]).id@ != name by {
            assert(front[k] == queries[k]);
        }
        first_query(front, name, q);
    } else {
        assert forall|k: int| 0 <= k < front.len() implies (#[trigger] front[k]).id@ != name by {
            assert(front[k] == queries[k]);
        }
        no_query(front, name);
    }
}

proof fn no_query(queries: Seq<Query>, name: Seq<char>)
    requires
        forall|k: int| 0 <= k < queries.len() ==> (#[trigger] queries[k]).id@ != name,
    ensures
        findings::query_with(queries, name) is None,
    decreases queries.len(),
{
    if queries.len() > 0 {
        let front = queries.drop_last();
        assert forall|k: int| 0 <= k < front.len() implies (#[trigger] front[k]).id@ != name by {
            assert(front[k] == queries[k]);
        }
        no_query(front, name);
        assert(queries[queries.len() - 1].id@ != name);
    }
}

proof fn first_row(rows: Seq<Row>, name: Seq<char>, r: int)
    requires
        0 <= r < rows.len(),
        rows[r].label@ == name,
        forall|k: int| 0 <= k < r ==> (#[trigger] rows[k]).label@ != name,
    ensures
        findings::row_with(rows, name) == Some(r),
    decreases rows.len(),
{
    let front = rows.drop_last();
    if r < rows.len() - 1 {
        assert forall|k: int| 0 <= k < r implies (#[trigger] front[k]).label@ != name by {
            assert(front[k] == rows[k]);
        }
        first_row(front, name, r);
    } else {
        assert forall|k: int| 0 <= k < front.len() implies (#[trigger] front[k]).label@ != name by {
            assert(front[k] == rows[k]);
        }
        no_row(front, name);
    }
}

proof fn no_row(rows: Seq<Row>, name: Seq<char>)
    requires
        forall|k: int| 0 <= k < rows.len() ==> (#[trigger] rows[k]).label@ != name,
    ensures
        findings::row_with(rows, name) is None,
    decreases rows.len(),
{
    if rows.len() > 0 {
        let front = rows.drop_last();
        assert forall|k: int| 0 <= k < front.len() implies (#[trigger] front[k]).label@ != name by {
            assert(front[k] == rows[k]);
        }
        no_row(front, name);
        assert(rows[rows.len() - 1].label@ != name);
    }
}

/// Every link of a run to a page of the wiki is labelled, as wanted where its target is; a link
/// that leads elsewhere is not, and is counted as such.
pub proof fn every_link_into_the_wiki_is_labelled(
    wiki: Corpus,
    one: Run,
    pages: Seq<Seq<char>>,
)
    ensures
        findings::labelled(wiki, one, pages, one.judged.len() as int) == basics::gathered(
            one.judged@,
            |link: Judged|
                if wiki.holds(link.target@) {
                    Some(
                        Link {
                            scent: link.scent,
                            followed: link.followed,
                            wanted: exists|k: int|
                                0 <= k < pages.len() && paths::components(#[trigger] pages[k])
                                    == paths::components(link.target@),
                        },
                    )
                } else {
                    None
                },
        ),
        findings::unlabelled(wiki, one, one.judged.len() as int) + findings::labelled(
            wiki,
            one,
            pages,
            one.judged.len() as int,
        ).len() == one.judged.len(),
{
    let of = |link: Judged|
        if wiki.holds(link.target@) {
            Some(
                Link {
                    scent: link.scent,
                    followed: link.followed,
                    wanted: exists|k: int|
                        0 <= k < pages.len() && paths::components(#[trigger] pages[k])
                            == paths::components(link.target@),
                },
            )
        } else {
            None
        };
    assert forall|page: Seq<char>| #[trigger] paths::holds(pages, page) == exists|k: int|
        0 <= k < pages.len() && paths::components(#[trigger] pages[k]) == paths::components(
            page,
        ) by {
        if paths::holds(pages, page) {
            let k = choose|k: int| 0 <= k < pages.len() && paths::same_path(pages[k], page);
            assert(paths::components(pages[k]) == paths::components(page));
        }
        if exists|k: int|
            0 <= k < pages.len() && paths::components(#[trigger] pages[k]) == paths::components(
                page,
            ) {
            let k = choose|k: int|
                0 <= k < pages.len() && paths::components(#[trigger] pages[k])
                    == paths::components(page);
            assert(paths::same_path(pages[k], page));
        }
    }
    labelled_so_far(wiki, one, pages, of, one.judged.len() as int);
    assert(one.judged@.take(one.judged.len() as int) =~= one.judged@);
}

proof fn labelled_so_far(
    wiki: Corpus,
    one: Run,
    pages: Seq<Seq<char>>,
    of: spec_fn(Judged) -> Option<Link>,
    n: int,
)
    requires
        0 <= n <= one.judged.len(),
        forall|link: Judged| #[trigger]
            of(link) == if wiki.holds(link.target@) {
                Some(
                    Link {
                        scent: link.scent,
                        followed: link.followed,
                        wanted: paths::holds(pages, link.target@),
                    },
                )
            } else {
                None
            },
    ensures
        findings::labelled(wiki, one, pages, n) == basics::gathered(one.judged@.take(n), of),
        findings::unlabelled(wiki, one, n) + findings::labelled(wiki, one, pages, n).len() == n,
    decreases n,
{
    let some = one.judged@.take(n);
    if n > 0 {
        labelled_so_far(wiki, one, pages, of, n - 1);
        assert(some.drop_last() =~= one.judged@.take(n - 1));
        assert(some.last() == one.judged@[n - 1]);
        assert(of(one.judged@[n - 1]) == of(some.last()));
    }
}

/// What is labelled of runs is what is labelled of each, in order, and so is what arrived.
pub proof fn every_run_is_labelled(wiki: Corpus, queries: Seq<Query>, list: Seq<Run>, one: Run)
    ensures
        findings::all_labelled(wiki, queries, list.push(one)) == findings::all_labelled(
            wiki,
            queries,
            list,
        ) + findings::labelled(
            wiki,
            one,
            findings::pages_wanted(queries, one.id@),
            one.judged.len() as int,
        ),
        findings::all_unlabelled(wiki, list.push(one)) == findings::all_unlabelled(wiki, list)
            + findings::unlabelled(wiki, one, one.judged.len() as int),
        findings::all_arrivals(queries, list.push(one)) == findings::all_arrivals(queries, list)
            + findings::arrivals_among(one.returned@, findings::pages_wanted(queries, one.id@))
            + findings::arrivals_among(one.walked@, findings::pages_wanted(queries, one.id@)),
        findings::all_labelled(wiki, queries, Seq::empty()).len() == 0,
        findings::all_unlabelled(wiki, Seq::empty()) == 0,
        findings::all_arrivals(queries, Seq::empty()).len() == 0,
{
    assert(list.push(one).drop_last() =~= list);
}

/// Every visit that a link led to is an arrival, with the scent of the link, what the page was
/// found to be worth, and whether it was wanted.
pub proof fn every_visit_by_a_link_is_an_arrival(visits: Seq<Visit>, pages: Seq<Seq<char>>)
    ensures
        findings::arrivals_among(visits, pages) == basics::gathered(
            visits,
            |visit: Visit|
                match visit.scent {
                    Some(scent) => Some(
                        Arrival {
                            scent,
                            relevance: if visit.relevance is Some {
                                visit.relevance->0
                            } else {
                                0
                            },
                            wanted: paths::holds(pages, visit.path@),
                        },
                    ),
                    None => None,
                },
        ),
    decreases visits.len(),
{
    if visits.len() > 0 {
        every_visit_by_a_link_is_an_arrival(visits.drop_last(), pages);
    }
}

proof fn neighbours_are_in_order<T>(list: Seq<T>, lt: spec_fn(T, T) -> bool, i: int)
    requires
        forall|a: T, b: T| #[trigger] lt(a, b) ==> !lt(b, a),
        0 <= i < list.len() - 1,
    ensures
        sorting::sorted(list, lt).len() == list.len(),
        !lt(sorting::sorted(list, lt)[i + 1], sorting::sorted(list, lt)[i]),
    decreases list.len(),
{
    let front = sorting::sorted(list.drop_last(), lt);
    let item = list.last();
    sorting::sorted_holds(list.drop_last(), lt, item);
    sorting::sorted_holds(list, lt, item);
    sorting::place_is_inside(front, item, lt);
    let at = sorting::place(front, item, lt);
    let whole = front.insert(at, item);
    if i + 1 < at {
        neighbours_are_in_order(list.drop_last(), lt, i);
        assert(whole[i] == front[i] && whole[i + 1] == front[i + 1]);
    } else if i + 1 == at {
        assert(whole[i] == front[at - 1] && whole[i + 1] == item);
    } else if i == at {
        assert(whole[i] == item && whole[i + 1] == front[at]);
        assert(lt(item, front[at]));
    } else {
        neighbours_are_in_order(list.drop_last(), lt, i - 1);
        assert(whole[i] == front[i - 1] && whole[i + 1] == front[i]);
    }
}

proof fn places_are_those_of_the_queries(queries: Seq<Query>, list: Seq<Run>, n: int, i: int)
    requires
        0 <= i < n,
    ensures
        findings::places(queries, list, n).len() == n,
        findings::places(queries, list, n)[i] == (PlaceView {
            at: i,
            found: list[i].score.found as int,
            gold: list[i].score.gold as int,
            id: queries[i].id@,
        }),
    decreases n,
{
    if n > 1 && i < n - 1 {
        places_are_those_of_the_queries(queries, list, n - 1, i);
    } else if n > 1 {
        places_are_those_of_the_queries(queries, list, n - 1, 0);
    } else {
        assert(findings::places(queries, list, 0).len() == 0);
    }
}

/// Queries are told of from the one that found the least of what it wants: a share that is no
/// greater than that of the next, and of two that found the same the one whose id comes first.
/// Every query is told of.
pub proof fn the_least_found_is_told_first(queries: Seq<Query>, list: Seq<Run>, k: int, i: int)
    requires
        0 <= i < queries.len(),
        0 <= k < queries.len() - 1,
    ensures
        findings::least_found(queries, list).len() == queries.len(),
        ({
            let (a, b) = (
                findings::least_found(queries, list)[k],
                findings::least_found(queries, list)[k + 1],
            );
            &&& a.found * b.gold <= b.found * a.gold
            &&& a.found * b.gold == b.found * a.gold ==> !text::before(b.id, a.id)
        }),
        findings::least_found(queries, list).contains(
            PlaceView {
                at: i,
                found: list[i].score.found as int,
                gold: list[i].score.gold as int,
                id: queries[i].id@,
            },
        ),
{
    let lt = |a: PlaceView, b: PlaceView| findings::found_less(a, b);
    let n = queries.len() as int;
    let all = findings::places(queries, list, n);
    places_are_those_of_the_queries(queries, list, n, i);
    assert forall|a: PlaceView, b: PlaceView| #[trigger] lt(a, b) implies !lt(b, a) by {
        text::before_is_a_strict_total_order(a.id, b.id, a.id);
    }
    neighbours_are_in_order(all, lt, k);
    let (a, b) = (
        findings::least_found(queries, list)[k],
        findings::least_found(queries, list)[k + 1],
    );
    assert(!lt(b, a));
    sorting::sorted_holds(all, lt, all[i]);
    assert(all.contains(all[i]));
}

proof fn losses_are_those_of_the_queries(queries: Seq<Query>, lost: Seq<u64>, n: int, i: int)
    requires
        0 <= i < n,
    ensures
        findings::losses(queries, lost, n).len() == n,
        findings::losses(queries, lost, n)[i] == (LossView {
            at: i,
            lost: lost[i],
            id: queries[i].id@,
        }),
    decreases n,
{
    if n > 1 && i < n - 1 {
        losses_are_those_of_the_queries(queries, lost, n - 1, i);
    } else if n > 1 {
        losses_are_those_of_the_queries(queries, lost, n - 1, 0);
    } else {
        assert(findings::losses(queries, lost, 0).len() == 0);
    }
}

/// Of two queries that neighbour each other the one that lost more is told first, and of two that
/// lost the same the one whose id comes first. Every query is told of.
pub proof fn the_most_lost_is_told_first(queries: Seq<Query>, lost: Seq<u64>, k: int, i: int)
    requires
        0 <= i < queries.len(),
        0 <= k < queries.len() - 1,
    ensures
        findings::most_lost(queries, lost).len() == queries.len(),
        ({
            let (a, b) = (
                findings::most_lost(queries, lost)[k],
                findings::most_lost(queries, lost)[k + 1],
            );
            &&& a.lost <= 0x7ff0_0000_0000_0000 && b.lost <= 0x7ff0_0000_0000_0000 ==> a.lost
                <= b.lost && (a.lost == b.lost ==> !text::before(b.id, a.id))
        }),
        findings::most_lost(queries, lost).contains(
            LossView { at: i, lost: lost[i], id: queries[i].id@ },
        ),
{
    let lt = |a: LossView, b: LossView| findings::lost_more(a, b);
    let n = queries.len() as int;
    let all = findings::losses(queries, lost, n);
    losses_are_those_of_the_queries(queries, lost, n, i);
    assert forall|a: LossView, b: LossView| #[trigger] lt(a, b) implies !lt(b, a) by {
        text::before_is_a_strict_total_order(a.id, b.id, a.id);
    }
    neighbours_are_in_order(all, lt, k);
    let (a, b) = (findings::most_lost(queries, lost)[k], findings::most_lost(queries, lost)[k + 1]);
    assert(!lt(b, a));
    if a.lost <= 0x7ff0_0000_0000_0000 && b.lost <= 0x7ff0_0000_0000_0000 {
        basics::ordinary_doubles_are_in_the_order_of_their_bits(a.lost, b.lost);
        basics::ordinary_doubles_are_in_the_order_of_their_bits(b.lost, a.lost);
        assert(!doubles::is_nan(a.lost) && !doubles::is_nan(b.lost));
    }
    sorting::sorted_holds(all, lt, all[i]);
    assert(all.contains(all[i]));
}

/// The tightest budget is the first and the widest the last, and reading everything costs every
/// query the whole wiki.
pub proof fn reading_everything_costs_every_query_the_wiki(all: Findings)
    requires
        all.budgets.len() > 0,
    ensures
        all.tight() == all.budgets@[0].budget,
        all.shipped() == all.budgets@[0].runs@,
        all.wide() == all.budgets@[all.budgets.len() - 1].budget,
        all.widest() == all.budgets@[all.budgets.len() - 1].runs@,
        4 * all.corpus_tokens() >= counting::total(
            all.corpus.pages@,
            |page: Page| page.text@.len() as int,
        ),
        4 * all.corpus_tokens() < counting::total(
            all.corpus.pages@,
            |page: Page| page.text@.len() as int,
        ) + 4,
        all.unranked_tokens() == all.corpus_tokens() * all.gold.queries.len(),
{
}

/// A section is found by its heading where just one section has it.
pub proof fn a_section_is_found_by_its_only_heading(
    page: Seq<char>,
    sections: Seq<Heading>,
    heading: Seq<char>,
    lines: (usize, usize),
)
    ensures
        corpus::named_section(page, sections, heading, Ok(lines)) == (counting::how_many(
            sections,
            |section: Heading|
                section.heading matches Some(name) && name@ == heading,
        ) == 1 && exists|i: int|
            0 <= i < sections.len() && ((#[trigger] sections[i]).heading matches Some(name) && name@
                == heading) && sections[i].lines == lines),
{
    headings_are_counted(sections, heading);
    if corpus::named_section(page, sections, heading, Ok(lines)) {
        let i = choose|i: int|
            0 <= i < sections.len() && corpus::is_headed(#[trigger] sections[i], heading)
                && sections[i].lines == lines;
        assert(sections[i].heading matches Some(name) && name@ == heading);
    }
    if exists|i: int|
        0 <= i < sections.len() && ((#[trigger] sections[i]).heading matches Some(name) && name@
            == heading) && sections[i].lines == lines {
        let i = choose|i: int|
            0 <= i < sections.len() && ((#[trigger] sections[i]).heading matches Some(name) && name@
                == heading) && sections[i].lines == lines;
        assert(corpus::is_headed(sections[i], heading));
    }
}

proof fn headings_are_counted(sections: Seq<Heading>, heading: Seq<char>)
    ensures
        corpus::times_headed(sections, heading) == counting::how_many(
            sections,
            |section: Heading|
                section.heading matches Some(name) && name@ == heading,
        ),
    decreases sections.len(),
{
    if sections.len() > 0 {
        headings_are_counted(sections.drop_last(), heading);
    }
}

/// A query that names lines is read as those lines where the page has them, and a whole page from
/// its first line to its last.
pub proof fn lines_are_read_where_the_page_has_them(
    wiki: Corpus,
    path: String,
    first: usize,
    last: usize,
    lines: (usize, usize),
)
    ensures
        labels::is_part(
            wiki,
            Expected::Part { path, heading: None, lines: Some((first, last)) },
            Ok(lines),
        ) == (1 <= first <= last <= wiki.line_count(path@) && lines == (first, last)),
        labels::is_part(wiki, Expected::Page(path), Ok(lines)) ==> lines.0 == 1 && lines.1
            == wiki.line_count(path@) as usize,
        !labels::is_part(
            wiki,
            Expected::Part { path, heading: None, lines: None },
            Ok(lines),
        ),
{
}

/// A gold set is faulty where a query of it is blank, has no mode, shares its id with one before
/// it, starts from a page that the wiki does not hold, wants nothing, or wants a page that is not
/// there or that it wants already; else it is not.
pub proof fn a_query_is_sound_where_nothing_is_wrong(
    wiki: Corpus,
    queries: Seq<Query>,
    at: int,
)
    requires
        0 <= at < queries.len(),
    ensures
        labels::query_fault(wiki, queries, at) is None == {
            let query = queries[at];
            &&& !text::blank(query.query@)
            &&& query.mode@ == "about"@ || query.mode@ == "useful-for"@ || query.mode@
                == "answers"@
            &&& forall|k: int| 0 <= k < at ==> (#[trigger] queries[k]).id@ != query.id@
            &&& wiki.holds(query.entry@)
            &&& query.expected.len() > 0
            &&& forall|i: int| 0 <= i < query.expected.len() ==> #[trigger] page_is_sound(
                wiki,
                query,
                i,
            )
        },
{
    let query = queries[at];
    pages_are_sound(wiki, query, query.expected.len() as int);
}

/// Whether a page that a query wants is in the wiki, and is not one that it wants already.
pub open spec fn page_is_sound(wiki: Corpus, query: Query, i: int) -> bool {
    &&& wiki.holds(query.pages()[i])
    &&& forall|k: int|
        0 <= k < i ==> paths::components(#[trigger] query.pages()[k]) != paths::components(
            query.pages()[i],
        )
}

proof fn pages_are_sound(wiki: Corpus, query: Query, n: int)
    requires
        n <= query.expected.len(),
    ensures
        labels::pages_fault(wiki, query, n) is None == forall|i: int|
            0 <= i < n ==> #[trigger] page_is_sound(wiki, query, i),
    decreases n,
{
    if n > 0 {
        pages_are_sound(wiki, query, n - 1);
        let page = query.pages()[n - 1];
        if labels::page_fault(wiki, query, n - 1) is None {
            assert forall|k: int| 0 <= k < n - 1 implies paths::components(
                #[trigger] query.pages()[k],
            ) != paths::components(page) by {
                assert(!paths::same_path(query.pages()[k], page));
            }
            assert(page_is_sound(wiki, query, n - 1));
        } else if page_is_sound(wiki, query, n - 1) {
            let k = choose|k: int|
                0 <= k < n - 1 && paths::same_path(#[trigger] query.pages()[k], page);
            assert(paths::components(query.pages()[k]) != paths::components(page));
        }
    }
}

/// A wiki holds each page once: where two have the same path, the one that was read last.
pub proof fn the_last_page_of_a_path_is_held(pages: Seq<Page>, at: int)
    requires
        0 <= at < pages.len(),
        forall|k: int|
            at < k < pages.len() ==> paths::components((#[trigger] pages[k]).path@)
                != paths::components(pages[at].path@),
    ensures
        corpus::held(pages).contains(pages[at]),
    decreases pages.len(),
{
    let front = pages.drop_last();
    let before = corpus::held(front);
    let last = pages.last();
    corpus::find_is_inside(before, last.path@);
    if at < pages.len() - 1 {
        assert forall|k: int| at < k < front.len() implies paths::components(
            (#[trigger] front[k]).path@,
        ) != paths::components(front[at].path@) by {
            assert(front[k] == pages[k]);
        }
        the_last_page_of_a_path_is_held(front, at);
        let k = choose|k: int| 0 <= k < before.len() && before[k] == pages[at];
        assert(paths::components(pages[pages.len() - 1].path@) != paths::components(
            pages[at].path@,
        ));
        match corpus::find(before, last.path@) {
            Some(i) => {
                assert(i != k);
                assert(before.update(i, last)[k] == pages[at]);
            },
            None => {
                assert(before.push(last)[k] == pages[at]);
            },
        }
    } else {
        match corpus::find(before, last.path@) {
            Some(i) => {
                assert(before.update(i, last)[i] == last);
            },
            None => {
                assert(before.push(last)[before.len() as int] == last);
            },
        }
    }
}

} // verus!
