//! What the numbers of a link graph promise: every page, link and edge of the wiki is counted, once.

use vstd::prelude::*;

use crate::counting;
use crate::graph;
use crate::graph::degrees;
use crate::graph::levels;
use crate::graph::reach;
use crate::graph::scc;
use crate::graph::{Entry, GraphStats, Link, LinkKind, Page};
use crate::laws::basics;
use crate::paths;
use crate::text;

verus! {

/// Whether a page of a wiki is at a path.
pub open spec fn is_at(page: Page, path: Seq<char>) -> bool {
    paths::spelling(page.path@) == paths::spelling(path)
}

/// The page at a path is a page of that path and the last of them; there is none just where no page
/// is of that path.
pub proof fn a_page_is_found_at_its_path(pages: Seq<Page>, path: Seq<char>)
    ensures
        match graph::page_at(pages, path) {
            Some(at) => 0 <= at < pages.len() && is_at(pages[at], path) && forall|k: int|
                at < k < pages.len() ==> !is_at(#[trigger] pages[k], path),
            None => forall|k: int| 0 <= k < pages.len() ==> !is_at(#[trigger] pages[k], path),
        },
    decreases pages.len(),
{
    if pages.len() > 0 && !is_at(pages.last(), path) {
        let front = pages.drop_last();
        a_page_is_found_at_its_path(front, path);
        match graph::page_at(front, path) {
            Some(at) => {
                assert(front[at] == pages[at]);
                assert forall|k: int| at < k < pages.len() implies !is_at(
                    #[trigger] pages[k],
                    path,
                ) by {
                    if k < front.len() {
                        assert(front[k] == pages[k]);
                    }
                }
            },
            None => {
                assert forall|k: int| 0 <= k < pages.len() implies !is_at(
                    #[trigger] pages[k],
                    path,
                ) by {
                    if k < front.len() {
                        assert(front[k] == pages[k]);
                    }
                }
            },
        }
    }
}

/// Whether a link leads to a page of the wiki: its target is inside, and a page is there.
pub open spec fn is_resolved(pages: Seq<Page>, link: Link) -> bool {
    link.in_root && exists|k: int| 0 <= k < pages.len() && is_at(#[trigger] pages[k], link.target@)
}

proof fn resolved_is_found(pages: Seq<Page>, link: Link)
    ensures
        graph::target(pages, link) is Some == is_resolved(pages, link),
{
    a_page_is_found_at_its_path(pages, link.target@);
}

/// How many links of all the pages pass a test.
pub open spec fn links_that(pages: Seq<Page>, test: spec_fn(Link) -> bool) -> int {
    counting::total(pages, |page: Page| counting::how_many(page.links@, test) as int)
}

proof fn tally_counts(links: Seq<Link>, test: spec_fn(Link) -> bool)
    ensures
        graph::tally(links, test) == counting::how_many(links, test),
    decreases links.len(),
{
    if links.len() > 0 {
        tally_counts(links.drop_last(), test);
    }
}

proof fn links_count(pages: Seq<Page>, test: spec_fn(Link) -> bool, other: spec_fn(Link) -> bool)
    requires
        forall|link: Link| #[trigger] test(link) == other(link),
    ensures
        graph::links_where(pages, test) == links_that(pages, other),
    decreases pages.len(),
{
    if pages.len() > 0 {
        links_count(pages.drop_last(), test, other);
        let links = pages.last().links@;
        tally_counts(links, test);
        basics::same_tests_count_the_same(links, test, other);
    }
}

/// Every link that the parser found is counted, by how it is written and by where it leads.
pub proof fn every_link_is_counted(
    pages: Seq<Page>,
    entries: Seq<Seq<char>>,
    out: Seq<Vec<usize>>,
    stats: GraphStats,
)
    requires
        graph::measures(pages, entries, out, stats),
    ensures
        stats.links.total == counting::total(pages, |page: Page| page.links.len() as int),
        stats.links.markdown == links_that(pages, |link: Link| link.kind == LinkKind::Markdown),
        stats.links.wikilink == links_that(pages, |link: Link| link.kind == LinkKind::Wikilink),
        stats.links.resolved == links_that(pages, |link: Link| is_resolved(pages, link)),
        stats.links.broken == links_that(
            pages,
            |link: Link| link.in_root && !is_resolved(pages, link),
        ),
        stats.links.outside == links_that(pages, |link: Link| !link.in_root),
{
    assert forall|link: Link| graph::target(pages, link) is Some == #[trigger] is_resolved(
        pages,
        link,
    ) by {
        resolved_is_found(pages, link);
    }
    let all = |link: Link| true;
    links_count(pages, all, all);
    all_links(pages);
    links_count(
        pages,
        |link: Link| link.kind == LinkKind::Markdown,
        |link: Link| link.kind == LinkKind::Markdown,
    );
    links_count(
        pages,
        |link: Link| link.kind == LinkKind::Wikilink,
        |link: Link| link.kind == LinkKind::Wikilink,
    );
    links_count(
        pages,
        |link: Link| graph::target(pages, link) is Some,
        |link: Link| is_resolved(pages, link),
    );
    links_count(
        pages,
        |link: Link| link.in_root && graph::target(pages, link) is None,
        |link: Link| link.in_root && !is_resolved(pages, link),
    );
    links_count(pages, |link: Link| !link.in_root, |link: Link| !link.in_root);
}

proof fn all_links(pages: Seq<Page>)
    ensures
        links_that(pages, |link: Link| true) == counting::total(
            pages,
            |page: Page| page.links.len() as int,
        ),
    decreases pages.len(),
{
    if pages.len() > 0 {
        all_links(pages.drop_last());
        counting::how_many_is_all(pages.last().links@, |link: Link| true);
    }
}

/// The pages, the words of their texts and the headings of their sections are counted.
pub proof fn pages_words_and_headings_are_counted(
    pages: Seq<Page>,
    entries: Seq<Seq<char>>,
    out: Seq<Vec<usize>>,
    stats: GraphStats,
)
    requires
        graph::measures(pages, entries, out, stats),
    ensures
        stats.pages == pages.len(),
        stats.words == counting::total(pages, |page: Page| words_in(page.text@) as int),
        stats.headings == counting::total(
            pages,
            |page: Page|
                counting::how_many(
                    page.headings@,
                    |heading: Option<String>| heading is Some,
                ) as int,
        ),
{
    words_add_up(pages);
    headings_add_up(pages);
}

/// How many words a text has: the places where one starts, after white space or at the start.
pub open spec fn words_in(s: Seq<char>) -> nat {
    counting::how_many(
        Seq::new(s.len(), |i: int| i),
        |i: int| !text::whitespace(s[i]) && (i == 0 || text::whitespace(s[i - 1])),
    )
}

proof fn a_text_has_its_words(s: Seq<char>)
    ensures
        text::word_count(s) == words_in(s),
    decreases s.len(),
{
    let places = Seq::new(s.len(), |i: int| i);
    if s.len() > 0 {
        let front = s.drop_last();
        a_text_has_its_words(front);
        let before = Seq::new(front.len(), |i: int| i);
        assert(places.drop_last() =~= before);
        basics::same_tests_count_the_same(
            before,
            |i: int| !text::whitespace(front[i]) && (i == 0 || text::whitespace(front[i - 1])),
            |i: int| !text::whitespace(s[i]) && (i == 0 || text::whitespace(s[i - 1])),
        );
        assert(places.last() == s.len() - 1);
    } else {
        assert(places =~= Seq::<int>::empty());
    }
}

proof fn words_add_up(pages: Seq<Page>)
    ensures
        graph::over_pages(pages, |page: Page| text::word_count(page.text@)) == counting::total(
            pages,
            |page: Page| words_in(page.text@) as int,
        ),
    decreases pages.len(),
{
    if pages.len() > 0 {
        words_add_up(pages.drop_last());
        a_text_has_its_words(pages.last().text@);
    }
}

proof fn headed_counts(headings: Seq<Option<String>>)
    ensures
        graph::headed(headings) == counting::how_many(
            headings,
            |heading: Option<String>| heading is Some,
        ),
    decreases headings.len(),
{
    if headings.len() > 0 {
        headed_counts(headings.drop_last());
    }
}

proof fn headings_add_up(pages: Seq<Page>)
    ensures
        graph::over_pages(pages, |page: Page| graph::headed(page.headings@)) == counting::total(
            pages,
            |page: Page|
                counting::how_many(
                    page.headings@,
                    |heading: Option<String>| heading is Some,
                ) as int,
        ),
    decreases pages.len(),
{
    if pages.len() > 0 {
        headings_add_up(pages.drop_last());
        headed_counts(pages.last().headings@);
    }
}

/// Whether a page has a link to another: a page is at the link's target, inside the root, and none
/// behind it is.
pub open spec fn links_on(pages: Seq<Page>, from: int, to: int) -> bool {
    from != to && exists|k: int|
        0 <= k < pages[from].links.len() && is_link_to(
            pages,
            #[trigger] pages[from].links@[k],
            to,
        )
}

pub open spec fn is_link_to(pages: Seq<Page>, link: Link, to: int) -> bool {
    &&& link.in_root
    &&& 0 <= to < pages.len()
    &&& is_at(pages[to], link.target@)
    &&& forall|k: int| to < k < pages.len() ==> !is_at(#[trigger] pages[k], link.target@)
}

proof fn leads_is_links_on(pages: Seq<Page>, from: int, to: int)
    ensures
        graph::leads(pages, from, to) == links_on(pages, from, to),
{
    assert forall|link: Link| #[trigger] is_link_to(pages, link, to) == (graph::target(pages, link)
        == Some(to)) by {
        a_page_is_found_at_its_path(pages, link.target@);
        match graph::page_at(pages, link.target@) {
            Some(at) => {
                if is_link_to(pages, link, to) && at != to {
                    if at < to {
                        assert(!is_at(pages[to], link.target@));
                    } else {
                        assert(!is_at(pages[at], link.target@));
                    }
                }
            },
            None => {},
        }
    }
    if graph::leads(pages, from, to) {
        let k = choose|k: int|
            0 <= k < pages[from].links.len() && graph::target(
                pages,
                #[trigger] pages[from].links@[k],
            ) == Some(to);
        assert(is_link_to(pages, pages[from].links@[k], to));
    }
    if links_on(pages, from, to) {
        let k = choose|k: int|
            0 <= k < pages[from].links.len() && is_link_to(
                pages,
                #[trigger] pages[from].links@[k],
                to,
            );
        assert(graph::target(pages, pages[from].links@[k]) == Some(to));
    }
}

/// The numbers of the pages.
pub open spec fn numbers(n: nat) -> Seq<int> {
    Seq::new(n, |i: int| i)
}

proof fn a_list_counts_what_it_holds(list: Seq<usize>, n: nat)
    requires
        graph::increasing(list),
        forall|k: int| 0 <= k < list.len() ==> (#[trigger] list[k]) < n,
        n <= usize::MAX,
    ensures
        list.len() == counting::how_many(numbers(n), |to: int| list.contains(to as usize)),
    decreases list.len(),
{
    let all = numbers(n);
    let holds = |to: int| list.contains(to as usize);
    if list.len() == 0 {
        counting::how_many_is_none(all, holds);
    } else {
        let front = list.drop_last();
        let last = list.last();
        assert(list[list.len() - 1] == last);
        assert forall|k: int| 0 <= k < front.len() implies (#[trigger] front[k]) < n && front[k]
            < last by {
            assert(front[k] == list[k]);
        }
        assert(graph::increasing(front)) by {
            assert forall|i: int, j: int| 0 <= i < j < front.len() implies #[trigger] front[i]
                < #[trigger] front[j] by {
                assert(list[i] < list[j]);
            }
        }
        a_list_counts_what_it_holds(front, n);
        let before = |to: int| front.contains(to as usize);
        let here = |to: int| to == last;
        assert forall|k: int| 0 <= k < all.len() implies holds(#[trigger] all[k]) == (before(all[k])
            || here(all[k])) && !(before(all[k]) && here(all[k])) by {
            let to = all[k] as usize;
            if front.contains(to) {
                let m = choose|m: int| 0 <= m < front.len() && front[m] == to;
                assert(list[m] == to);
            }
            if list.contains(to) {
                let m = choose|m: int| 0 <= m < list.len() && list[m] == to;
                if m < front.len() {
                    assert(front[m] == to);
                }
            }
            if all[k] == last {
                assert(list[list.len() - 1] == to);
            }
        }
        basics::counts_of_parts_add_up(all, before, here, holds);
        assert forall|k: int| 0 <= k < all.len() implies here(#[trigger] all[k]) == (k
            == last as int) by {}
        counting::how_many_is_one(all, here, last as int);
    }
}

proof fn lists_are_inside(pages: Seq<Page>, out: Seq<Vec<usize>>, at: int)
    requires
        graph::is_adjacency(pages, out),
        0 <= at < out.len(),
    ensures
        forall|k: int| 0 <= k < out[at].len() ==> (#[trigger] out[at]@[k]) < pages.len(),
{
    assert forall|k: int| 0 <= k < out[at].len() implies (#[trigger] out[at]@[k])
        < pages.len() by {
        assert(out[at]@.contains(out[at]@[k]));
        leads_is_links_on(pages, at, out[at]@[k] as int);
    }
}

proof fn a_page_has_its_edges(pages: Seq<Page>, out: Seq<Vec<usize>>, at: int)
    requires
        graph::is_adjacency(pages, out),
        0 <= at < out.len(),
        pages.len() <= usize::MAX,
    ensures
        out[at].len() == counting::how_many(
            numbers(pages.len()),
            |to: int| links_on(pages, at, to),
        ),
{
    lists_are_inside(pages, out, at);
    let list = out[at]@;
    a_list_counts_what_it_holds(list, pages.len());
    let all = numbers(pages.len());
    assert forall|k: int| 0 <= k < all.len() implies list.contains((#[trigger] all[k]) as usize)
        == links_on(pages, at, all[k]) by {
        leads_is_links_on(pages, at, all[k]);
        assert(list.contains(all[k] as usize) == graph::leads(pages, at, (all[k] as usize) as int));
    }
    basics::same_tests_count_the_same(
        all,
        |to: int| list.contains(to as usize),
        |to: int| links_on(pages, at, to),
    );
}

proof fn edges_add_up(pages: Seq<Page>, out: Seq<Vec<usize>>, n: nat)
    requires
        graph::is_adjacency(pages, out),
        pages.len() <= usize::MAX,
        n <= out.len(),
    ensures
        graph::edge_count(out.take(n as int)) == counting::total(
            numbers(n),
            |at: int|
                counting::how_many(
                    numbers(pages.len()),
                    |to: int| links_on(pages, at, to),
                ) as int,
        ),
    decreases n,
{
    if n > 0 {
        let m = (n - 1) as nat;
        edges_add_up(pages, out, m);
        assert(out.take(n as int).drop_last() =~= out.take(m as int));
        assert(numbers(n).drop_last() =~= numbers(m));
        a_page_has_its_edges(pages, out, m as int);
    }
}

/// An edge is a pair of pages of which one links to the other, however often it does: the edges are
/// as many as there are such pairs, and the out-degree of a page counts those that start there.
pub proof fn an_edge_is_a_pair_of_pages(
    pages: Seq<Page>,
    entries: Seq<Seq<char>>,
    out: Seq<Vec<usize>>,
    stats: GraphStats,
) -> (values: Seq<usize>)
    requires
        graph::measures(pages, entries, out, stats),
    ensures
        stats.edges == counting::total(
            numbers(pages.len()),
            |at: int|
                counting::how_many(
                    numbers(pages.len()),
                    |to: int| links_on(pages, at, to),
                ) as int,
        ),
        degrees::describes(values, stats.out_degree),
        values.len() == pages.len(),
        forall|at: int|
            0 <= at < pages.len() ==> #[trigger] values[at] == counting::how_many(
                numbers(pages.len()),
                |to: int| links_on(pages, at, to),
            ),
{
    edges_add_up(pages, out, pages.len());
    assert(out.take(out.len() as int) =~= out);
    let values = choose|values: Seq<usize>| #[trigger]
        degrees::describes(values, stats.out_degree) && graph::is_out_degrees(out, values);
    assert forall|at: int| 0 <= at < pages.len() implies #[trigger] values[at]
        == counting::how_many(numbers(pages.len()), |to: int| links_on(pages, at, to)) by {
        a_page_has_its_edges(pages, out, at);
    }
    values
}

proof fn times_is_whether(list: Seq<usize>, page: int)
    requires
        graph::increasing(list),
        0 <= page <= usize::MAX,
    ensures
        graph::times(list, page) == if list.contains(page as usize) {
            1nat
        } else {
            0nat
        },
    decreases list.len(),
{
    if list.len() > 0 {
        let front = list.drop_last();
        assert(graph::increasing(front)) by {
            assert forall|i: int, j: int| 0 <= i < j < front.len() implies #[trigger] front[i]
                < #[trigger] front[j] by {
                assert(list[i] < list[j]);
            }
        }
        times_is_whether(front, page);
        let last = list[list.len() - 1];
        if front.contains(page as usize) {
            let m = choose|m: int| 0 <= m < front.len() && front[m] == page as usize;
            assert(list[m] < list[list.len() - 1]);
            assert(list[m] == page as usize);
        }
        if list.contains(page as usize) {
            let m = choose|m: int| 0 <= m < list.len() && list[m] == page as usize;
            if m < front.len() {
                assert(front[m] == page as usize);
            }
        }
    }
}

proof fn incoming_counts(pages: Seq<Page>, out: Seq<Vec<usize>>, page: int, n: nat)
    requires
        graph::is_adjacency(pages, out),
        pages.len() <= usize::MAX,
        0 <= page < pages.len(),
        n <= out.len(),
    ensures
        graph::incoming(out.take(n as int), page) == counting::how_many(
            numbers(n),
            |from: int| links_on(pages, from, page),
        ),
    decreases n,
{
    if n > 0 {
        let m = (n - 1) as nat;
        incoming_counts(pages, out, page, m);
        assert(out.take(n as int).drop_last() =~= out.take(m as int));
        assert(numbers(n).drop_last() =~= numbers(m));
        assert(graph::increasing(out[m as int]@));
        times_is_whether(out[m as int]@, page);
        leads_is_links_on(pages, m as int, page);
        assert(out[m as int]@.contains(page as usize) == graph::leads(
            pages,
            m as int,
            (page as usize) as int,
        ));
    }
}

/// The in-degree of a page counts the pages that link to it, and a page that none links to is an
/// orphan.
pub proof fn an_orphan_is_a_page_that_none_links_to(
    pages: Seq<Page>,
    entries: Seq<Seq<char>>,
    out: Seq<Vec<usize>>,
    stats: GraphStats,
) -> (values: Seq<usize>)
    requires
        graph::measures(pages, entries, out, stats),
    ensures
        degrees::describes(values, stats.in_degree),
        values.len() == pages.len(),
        forall|page: int|
            0 <= page < pages.len() ==> #[trigger] values[page] == counting::how_many(
                numbers(pages.len()),
                |from: int| links_on(pages, from, page),
            ),
        stats.orphans == counting::how_many(values, |value: usize| value == 0),
{
    let values = choose|values: Seq<usize>| #[trigger]
        degrees::describes(values, stats.in_degree) && graph::is_in_degrees(out, values)
            && stats.orphans == graph::zeros(values);
    assert(out.take(out.len() as int) =~= out);
    assert forall|page: int| 0 <= page < pages.len() implies #[trigger] values[page]
        == counting::how_many(numbers(pages.len()), |from: int| links_on(pages, from, page)) by {
        incoming_counts(pages, out, page, pages.len());
    }
    times_count(values);
    values
}

proof fn times_count(values: Seq<usize>)
    ensures
        graph::times(values, 0) == counting::how_many(values, |value: usize| value == 0),
    decreases values.len(),
{
    if values.len() > 0 {
        times_count(values.drop_last());
    }
}

/// A walk starts from the pages that the caller names, all of them; where it names none, from
/// `index.md`, and from `README.md` where the wiki has no `index.md`.
pub proof fn a_walk_starts_from_its_entries(
    pages: Seq<Page>,
    entries: Seq<Seq<char>>,
    out: Seq<Vec<usize>>,
    stats: GraphStats,
)
    requires
        graph::measures(pages, entries, out, stats),
    ensures
        entries.len() > 0 ==> stats.depth.entry == Some(Entry::Given) && (
        graph::starting(pages, entries) matches Some(starts) && forall|page: int| #[trigger]
            starts.contains(page) == exists|i: int|
                0 <= i < entries.len() && graph::page_at(pages, #[trigger] entries[i]) == Some(page)),
        entries.len() == 0 ==> match graph::page_at(pages, "index.md"@) {
            Some(page) => {
                &&& stats.depth.entry matches Some(Entry::Convention(name)) && name@ == "index.md"@
                &&& graph::starting(pages, entries) == Some(set![page])
            },
            None => match graph::page_at(pages, "README.md"@) {
                Some(page) => {
                    &&& stats.depth.entry matches Some(Entry::Convention(name)) && name@
                        == "README.md"@
                    &&& graph::starting(pages, entries) == Some(set![page])
                },
                None => {
                    &&& stats.depth.entry is None
                    &&& graph::starting(pages, entries) is None
                    &&& stats.depth.histogram.len() == 0
                    &&& stats.depth.unreachable == pages.len()
                },
            },
        },
{
    assert(graph::ENTRY_CONVENTIONS@[0]@ == "index.md"@);
    assert(graph::ENTRY_CONVENTIONS@[1]@ == "README.md"@);
}

/// Whether so many links, and no fewer, lead from a starting page to a page.
pub open spec fn is_hops_away(out: Seq<Vec<usize>>, starts: Set<int>, page: int, hops: nat) -> bool {
    &&& is_within(out, starts, page, hops)
    &&& forall|fewer: nat| fewer < hops ==> !#[trigger] is_within(out, starts, page, fewer)
}

/// Whether a chain of so many links leads from a starting page to a page.
pub open spec fn is_within(out: Seq<Vec<usize>>, starts: Set<int>, page: int, hops: nat) -> bool {
    exists|chain: Seq<int>|
        #![trigger reach::is_chain(out, chain)]
        reach::is_chain(out, chain) && chain.len() == hops + 1 && starts.contains(chain[0])
            && chain.last() == page
}

proof fn a_chain_is_within(out: Seq<Vec<usize>>, starts: Set<int>, chain: Seq<int>)
    requires
        reach::is_chain(out, chain),
        starts.contains(chain[0]),
    ensures
        levels::within(out, starts, (chain.len() - 1) as nat).contains(chain.last()),
    decreases chain.len(),
{
    if chain.len() > 1 {
        let front = chain.drop_last();
        assert(reach::is_chain(out, front)) by {
            assert forall|i: int| 0 <= i < front.len() implies 0 <= #[trigger] front[i]
                < out.len() by {
                assert(front[i] == chain[i]);
            }
            assert forall|i: int| 0 <= i < front.len() - 1 implies reach::links_to(
                out,
                #[trigger] front[i],
                front[i + 1],
            ) by {
                assert(reach::links_to(out, chain[i], chain[i + 1]));
            }
        }
        a_chain_is_within(out, starts, front);
        let n = chain.len() - 2;
        assert(reach::links_to(out, chain[n], chain[n + 1]));
        assert(front.last() == chain[n]);
    }
}

proof fn within_has_a_chain(out: Seq<Vec<usize>>, starts: Set<int>, page: int, hops: nat) -> (
    fewer: nat)
    requires
        reach::links_inside(out),
        forall|start: int| starts.contains(start) ==> 0 <= start < out.len(),
        levels::within(out, starts, hops).contains(page),
    ensures
        fewer <= hops,
        is_within(out, starts, page, fewer),
    decreases hops,
{
    if hops == 0 {
        let chain = seq![page];
        assert(reach::is_chain(out, chain));
        assert(chain.last() == page);
        0
    } else {
        let nearer = levels::within(out, starts, (hops - 1) as nat);
        if nearer.contains(page) {
            within_has_a_chain(out, starts, page, (hops - 1) as nat)
        } else {
            let source = choose|source: int|
                nearer.contains(source) && #[trigger] reach::links_to(out, source, page);
            let fewer = within_has_a_chain(out, starts, source, (hops - 1) as nat);
            let chain = choose|chain: Seq<int>|
                #![trigger reach::is_chain(out, chain)]
                reach::is_chain(out, chain) && chain.len() == fewer + 1 && starts.contains(chain[0])
                    && chain.last() == source;
            let longer = chain.push(page);
            assert(reach::is_chain(out, longer)) by {
                assert forall|i: int| 0 <= i < longer.len() implies 0 <= #[trigger] longer[i]
                    < out.len() by {
                    if i < chain.len() {
                        assert(longer[i] == chain[i]);
                    } else {
                        let k = choose|k: int|
                            0 <= k < out[source].len() && #[trigger] out[source]@[k] == page;
                        assert(out[source]@[k] < out.len());
                    }
                }
                assert forall|i: int| 0 <= i < longer.len() - 1 implies reach::links_to(
                    out,
                    #[trigger] longer[i],
                    longer[i + 1],
                ) by {
                    if i + 1 < chain.len() {
                        assert(reach::links_to(out, chain[i], chain[i + 1]));
                    } else {
                        assert(longer[i] == source);
                    }
                }
            }
            assert(longer.last() == page);
            (fewer + 1) as nat
        }
    }
}

proof fn within_grows(out: Seq<Vec<usize>>, starts: Set<int>, page: int, fewer: nat, hops: nat)
    requires
        fewer <= hops,
        levels::within(out, starts, fewer).contains(page),
    ensures
        levels::within(out, starts, hops).contains(page),
    decreases hops,
{
    if fewer < hops {
        within_grows(out, starts, page, fewer, (hops - 1) as nat);
    }
}

/// A page is counted at the fewest links that lead to it from a page the walk starts from: each
/// number of hops counts the pages that are so many hops away, up to the last that has any, and the
/// rest cannot be reached.
pub proof fn a_page_is_as_far_as_its_shortest_chain(
    out: Seq<Vec<usize>>,
    starts: Set<int>,
    histogram: Seq<(usize, usize)>,
    unreachable: int,
    hops: nat,
)
    requires
        reach::links_inside(out),
        forall|start: int| starts.contains(start) ==> 0 <= start < out.len(),
        levels::is_levels(out, starts, histogram, unreachable),
    ensures
        hops < histogram.len() ==> histogram[hops as int].0 == hops && histogram[hops as int].1
            == Set::new(|page: int| is_hops_away(out, starts, page, hops)).len()
            && histogram[hops as int].1 > 0,
        hops == histogram.len() ==> forall|page: int| !#[trigger] is_hops_away(
            out,
            starts,
            page,
            hops,
        ),
        unreachable == Set::new(
            |page: int|
                0 <= page < out.len() && forall|n: nat| !#[trigger] is_within(out, starts, page, n),
        ).len(),
{
    levels::every_page_is_counted_once(out, starts, histogram, unreachable);
    let there = levels::at_hops(out, starts, hops);
    assert forall|page: int| #[trigger] there.contains(page) == is_hops_away(
        out,
        starts,
        page,
        hops,
    ) by {
        if there.contains(page) {
            if hops == 0 {
                let chain = seq![page];
                assert(reach::is_chain(out, chain));
                assert(chain.last() == page);
                assert(is_within(out, starts, page, 0));
            } else {
                let fewer = within_has_a_chain(out, starts, page, hops);
                if fewer < hops {
                    nearer_is_within(out, starts, page, fewer);
                    within_grows(out, starts, page, fewer, (hops - 1) as nat);
                }
                assert forall|n: nat| n < hops implies !#[trigger] is_within(
                    out,
                    starts,
                    page,
                    n,
                ) by {
                    if is_within(out, starts, page, n) {
                        nearer_is_within(out, starts, page, n);
                        within_grows(out, starts, page, n, (hops - 1) as nat);
                    }
                }
            }
        }
        if is_hops_away(out, starts, page, hops) {
            nearer_is_within(out, starts, page, hops);
            if hops > 0 && levels::within(out, starts, (hops - 1) as nat).contains(page) {
                let fewer = within_has_a_chain(out, starts, page, (hops - 1) as nat);
                assert(is_within(out, starts, page, fewer));
            }
        }
    }
    assert(there =~= Set::new(|page: int| is_hops_away(out, starts, page, hops)));
    if hops == histogram.len() {
        assert forall|page: int| !#[trigger] is_hops_away(out, starts, page, hops) by {
            assert(!there.contains(page));
        }
    }
    let left = Set::new(
        |page: int| 0 <= page < out.len() && !levels::is_reached(out, starts, page),
    );
    let apart = Set::new(
        |page: int|
            0 <= page < out.len() && forall|n: nat| !#[trigger] is_within(out, starts, page, n),
    );
    assert forall|page: int| left.contains(page) == apart.contains(page) by {
        if levels::is_reached(out, starts, page) {
            let start = choose|start: int|
                starts.contains(start) && #[trigger] reach::reaches(out, start, page);
            let chain = choose|chain: Seq<int>| #[trigger]
                reach::is_chain(out, chain) && chain[0] == start && chain.last() == page;
            assert(is_within(out, starts, page, (chain.len() - 1) as nat));
        }
        if exists|n: nat| is_within(out, starts, page, n) {
            let n = choose|n: nat| is_within(out, starts, page, n);
            let chain = choose|chain: Seq<int>|
                #![trigger reach::is_chain(out, chain)]
                reach::is_chain(out, chain) && chain.len() == n + 1 && starts.contains(chain[0])
                    && chain.last() == page;
            assert(reach::reaches(out, chain[0], page));
            assert(levels::is_reached(out, starts, page));
        }
    }
    assert(left =~= apart);
}

proof fn nearer_is_within(out: Seq<Vec<usize>>, starts: Set<int>, page: int, hops: nat)
    requires
        is_within(out, starts, page, hops),
    ensures
        levels::within(out, starts, hops).contains(page),
{
    let chain = choose|chain: Seq<int>|
        #![trigger reach::is_chain(out, chain)]
        reach::is_chain(out, chain) && chain.len() == hops + 1 && starts.contains(chain[0])
            && chain.last() == page;
    a_chain_is_within(out, starts, chain);
}

/// The largest component is a set of pages that all reach each other, and no larger set is.
pub proof fn the_largest_component_is_connected(out: Seq<Vec<usize>>, size: nat) -> (pages: Set<int>)
    requires
        scc::is_largest(out, size),
    ensures
        pages.len() == size,
        forall|page: int| #[trigger] pages.contains(page) ==> 0 <= page < out.len(),
        forall|a: int, b: int| #[trigger]
            pages.contains(a) && #[trigger] pages.contains(b) ==> reach::reaches(out, a, b),
        forall|others: Set<int>|
            (forall|page: int| #[trigger] others.contains(page) ==> 0 <= page < out.len()) && (
            forall|a: int, b: int| #[trigger]
                others.contains(a) && #[trigger] others.contains(b) ==> reach::reaches(out, a, b))
                ==> #[trigger] others.len() <= size,
{
    assert forall|others: Set<int>|
        (forall|page: int| #[trigger] others.contains(page) ==> 0 <= page < out.len()) && (forall|
            a: int,
            b: int,
        | #[trigger]
            others.contains(a) && #[trigger] others.contains(b) ==> reach::reaches(out, a, b))
            implies #[trigger] others.len() <= size by {
        scc::no_larger_set_is_connected(out, size, others);
    }
    if out.len() == 0 {
        Set::empty()
    } else {
        let page = choose|page: int|
            0 <= page < out.len() && (#[trigger] scc::component(out, page)).len() == size;
        let pages = scc::component(out, page);
        assert forall|a: int, b: int| #[trigger]
            pages.contains(a) && #[trigger] pages.contains(b) implies reach::reaches(
            out,
            a,
            b,
        ) by {
            reach::reaches_on(out, a, page, b);
        }
        pages
    }
}

} // verus!
