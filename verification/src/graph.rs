//! What a wiki's link graph looks like, as numbers.
//!
//! Nothing here reports a path, a heading or a line of text: the whole point of the numbers is
//! that they can be published about a wiki that cannot be.

use vstd::prelude::*;

use crate::doc;
use crate::doc::{args, Doc, DocView, Form};
use crate::graph::degrees::{degrees, Degrees};
use crate::graph::levels::levels;
use crate::graph::scc::largest_scc;
use crate::ordered::Table;
use crate::paths;
use crate::text;

pub mod degrees;
pub mod levels;
pub mod reach;
pub mod scc;

verus! {

/// The entry page conventions, in the order they are tried. Both are constants of this library
/// rather than anything read from a wiki, so naming one in the output leaks nothing.
pub const ENTRY_CONVENTIONS: [&'static str; 2] = ["index.md", "README.md"];

/// How a link is written: `[text](target.md)` or `[[target]]`.
#[derive(PartialEq, Eq, Structural, Clone, Copy)]
pub enum LinkKind {
    Markdown,
    Wikilink,
}

/// A link as the parser found it.
pub struct Link {
    pub target: String,
    pub kind: LinkKind,
    /// Whether the target is inside the root.
    pub in_root: bool,
}

/// A page as the parser read it.
pub struct Page {
    /// Where it is under the root.
    pub path: String,
    pub text: String,
    /// The heading of each section, of a section that has one.
    pub headings: Vec<Option<String>>,
    pub links: Vec<Link>,
}

/// Everything measured of a link graph.
pub struct GraphStats {
    /// Markdown and text files under the root.
    pub pages: usize,
    /// Whitespace-separated words of the raw markdown, markup and all.
    pub words: usize,
    /// Heading sections over every page.
    pub headings: usize,
    /// Every link the parser found, by kind and by where it points.
    pub links: LinkCounts,
    /// Distinct page-to-page edges: one per source and target, self-links dropped, both link
    /// kinds counted.
    pub edges: usize,
    pub out_degree: Degrees,
    pub in_degree: Degrees,
    /// Pages no other page links to.
    pub orphans: usize,
    pub depth: Depth,
    /// The largest strongly connected component, in pages.
    pub largest_scc: usize,
}

/// Link instances, counted as they were written.
#[derive(PartialEq, Eq, Structural, Clone, Copy)]
pub struct LinkCounts {
    /// Every link instance the parser returned, duplicates and all.
    pub total: usize,
    /// `[text](target.md)`.
    pub markdown: usize,
    /// `[[target]]`.
    pub wikilink: usize,
    /// Instances whose target is a page under the root.
    pub resolved: usize,
    /// Instances inside the root naming a file that is not there.
    pub broken: usize,
    /// Instances whose target escapes the root.
    pub outside: usize,
}

/// Which page the depths were measured from.
///
/// A convention is a constant of this library and so safe to print. A page the caller named is
/// not: it is a path in a wiki that may be private, so it is recorded as having been given and
/// never as itself.
pub enum Entry {
    Convention(String),
    Given,
}

/// How far each page sits from the entry page.
pub struct Depth {
    /// Where the walk started; none when the root holds neither convention and the caller named
    /// no page.
    pub entry: Option<Entry>,
    /// Pages per hop count from the entry page, the entry page itself at 0.
    pub histogram: Vec<(usize, usize)>,
    /// Pages no walk from the entry page reaches. Every page when there is no entry page.
    pub unreachable: usize,
}

/// The last page at a path, the path in its one spelling.
pub open spec fn page_spelt(pages: Seq<Page>, spelt: Seq<char>) -> Option<int>
    decreases pages.len(),
{
    if pages.len() == 0 {
        None
    } else if paths::spelling(pages.last().path@) == spelt {
        Some(pages.len() - 1)
    } else {
        page_spelt(pages.drop_last(), spelt)
    }
}

/// The page at a path.
pub open spec fn page_at(pages: Seq<Page>, path: Seq<char>) -> Option<int> {
    page_spelt(pages, paths::spelling(path))
}

proof fn page_spelt_is_a_page(pages: Seq<Page>, spelt: Seq<char>)
    ensures
        page_spelt(pages, spelt) matches Some(at) ==> 0 <= at < pages.len(),
    decreases pages.len(),
{
    if pages.len() > 0 {
        page_spelt_is_a_page(pages.drop_last(), spelt);
    }
}

/// The page that a link leads to.
pub open spec fn target(pages: Seq<Page>, link: Link) -> Option<int> {
    if link.in_root {
        page_at(pages, link.target@)
    } else {
        None
    }
}

/// How many links a test counts.
pub open spec fn tally(links: Seq<Link>, test: spec_fn(Link) -> bool) -> nat
    decreases links.len(),
{
    if links.len() == 0 {
        0
    } else {
        tally(links.drop_last(), test) + if test(links.last()) {
            1nat
        } else {
            0nat
        }
    }
}

/// How many of a page's sections have a heading.
pub open spec fn headed(headings: Seq<Option<String>>) -> nat
    decreases headings.len(),
{
    if headings.len() == 0 {
        0
    } else {
        headed(headings.drop_last()) + if headings.last() is Some {
            1nat
        } else {
            0nat
        }
    }
}

/// A number of each page, over all pages.
pub open spec fn over_pages(pages: Seq<Page>, of: spec_fn(Page) -> nat) -> nat
    decreases pages.len(),
{
    if pages.len() == 0 {
        0
    } else {
        over_pages(pages.drop_last(), of) + of(pages.last())
    }
}

/// The links of all pages that a test counts.
pub open spec fn links_where(pages: Seq<Page>, test: spec_fn(Link) -> bool) -> nat {
    over_pages(pages, |page: Page| tally(page.links@, test))
}

/// Every link, by kind and by where it points.
pub open spec fn counts_links(pages: Seq<Page>, counts: LinkCounts) -> bool {
    &&& counts.total == links_where(pages, |link: Link| true)
    &&& counts.markdown == links_where(pages, |link: Link| link.kind == LinkKind::Markdown)
    &&& counts.wikilink == links_where(pages, |link: Link| link.kind == LinkKind::Wikilink)
    &&& counts.resolved == links_where(pages, |link: Link| target(pages, link) is Some)
    &&& counts.broken == links_where(
        pages,
        |link: Link| link.in_root && target(pages, link) is None,
    )
    &&& counts.outside == links_where(pages, |link: Link| !link.in_root)
}

proof fn tally_splits(
    links: Seq<Link>,
    a: spec_fn(Link) -> bool,
    b: spec_fn(Link) -> bool,
    both: spec_fn(Link) -> bool,
)
    requires
        forall|link: Link| #[trigger] both(link) == (a(link) || b(link)),
        forall|link: Link| !(#[trigger] a(link) && b(link)),
    ensures
        tally(links, both) == tally(links, a) + tally(links, b),
    decreases links.len(),
{
    if links.len() > 0 {
        tally_splits(links.drop_last(), a, b, both);
        let link = links.last();
        assert(both(link) == (a(link) || b(link)));
        assert(!(a(link) && b(link)));
    }
}

proof fn links_split(
    pages: Seq<Page>,
    a: spec_fn(Link) -> bool,
    b: spec_fn(Link) -> bool,
    both: spec_fn(Link) -> bool,
)
    requires
        forall|link: Link| #[trigger] both(link) == (a(link) || b(link)),
        forall|link: Link| !(#[trigger] a(link) && b(link)),
    ensures
        links_where(pages, both) == links_where(pages, a) + links_where(pages, b),
    decreases pages.len(),
{
    if pages.len() > 0 {
        links_split(pages.drop_last(), a, b, both);
        tally_splits(pages.last().links@, a, b, both);
    }
}

/// Every link instance is of one kind, and leads to a page, nowhere, or outside.
pub proof fn links_are_counted_once(pages: Seq<Page>, counts: LinkCounts)
    requires
        counts_links(pages, counts),
    ensures
        counts.total == counts.markdown + counts.wikilink,
        counts.total == counts.resolved + counts.broken + counts.outside,
{
    let all = |link: Link| true;
    let inside = |link: Link| link.in_root;
    let outside = |link: Link| !link.in_root;
    let resolved = |link: Link| target(pages, link) is Some;
    let broken = |link: Link| link.in_root && target(pages, link) is None;
    links_split(
        pages,
        |link: Link| link.kind == LinkKind::Markdown,
        |link: Link| link.kind == LinkKind::Wikilink,
        all,
    );
    links_split(pages, inside, outside, all);
    links_split(pages, resolved, broken, inside);
}

/// Ascending page numbers, none twice.
pub open spec fn increasing(list: Seq<usize>) -> bool {
    forall|i: int, j: int| 0 <= i < j < list.len() ==> #[trigger] list[i] < #[trigger] list[j]
}

/// Whether a link of a page leads to another page.
pub open spec fn leads(pages: Seq<Page>, from: int, to: int) -> bool {
    from != to && exists|k: int|
        0 <= k < pages[from].links.len() && target(pages, #[trigger] pages[from].links@[k])
            == Some(to)
}

/// The link graph as adjacency lists: each page's distinct targets other than itself.
pub open spec fn is_adjacency(pages: Seq<Page>, out: Seq<Vec<usize>>) -> bool {
    &&& out.len() == pages.len()
    &&& forall|at: int| 0 <= at < out.len() ==> increasing(#[trigger] out[at]@)
    &&& forall|at: int, to: usize|
        0 <= at < out.len() ==> #[trigger] out[at]@.contains(to) == leads(pages, at, to as int)
}

/// How many links an adjacency list holds.
pub open spec fn edge_count(out: Seq<Vec<usize>>) -> nat
    decreases out.len(),
{
    if out.len() == 0 {
        0
    } else {
        edge_count(out.drop_last()) + out.last().len() as nat
    }
}

/// How often a list holds a number.
pub open spec fn times(list: Seq<usize>, page: int) -> nat
    decreases list.len(),
{
    if list.len() == 0 {
        0
    } else {
        times(list.drop_last(), page) + if list.last() == page {
            1nat
        } else {
            0nat
        }
    }
}

/// How many links lead to a page.
pub open spec fn incoming(out: Seq<Vec<usize>>, page: int) -> nat
    decreases out.len(),
{
    if out.len() == 0 {
        0
    } else {
        incoming(out.drop_last(), page) + times(out.last()@, page)
    }
}

proof fn incoming_is_bounded(out: Seq<Vec<usize>>, page: int)
    ensures
        incoming(out, page) <= edge_count(out),
    decreases out.len(),
{
    if out.len() > 0 {
        incoming_is_bounded(out.drop_last(), page);
        times_is_bounded(out.last()@, page);
    }
}

proof fn times_is_bounded(list: Seq<usize>, page: int)
    ensures
        times(list, page) <= list.len(),
    decreases list.len(),
{
    if list.len() > 0 {
        times_is_bounded(list.drop_last(), page);
    }
}

/// How many zeros a list holds.
pub open spec fn zeros(list: Seq<usize>) -> nat {
    times(list, 0)
}

/// How many distinct pages link to each page.
pub fn in_degrees(out: &Vec<Vec<usize>>) -> (counts: Vec<usize>)
    requires
        reach::links_inside(out@),
        edge_count(out@) <= usize::MAX,
    ensures
        counts.len() == out.len(),
        forall|page: int|
            0 <= page < out.len() ==> #[trigger] counts@[page] == incoming(out@, page),
{
    let n: usize = out.len();
    let mut counts: Vec<usize> = Vec::new();
    for i in 0..n
        invariant
            counts.len() == i,
            forall|page: int| 0 <= page < i ==> counts@[page] == 0,
    {
        counts.push(0);
    }
    for at in 0..n
        invariant
            n == out.len(),
            reach::links_inside(out@),
            edge_count(out@) <= usize::MAX,
            counts.len() == n,
            forall|page: int|
                0 <= page < n ==> #[trigger] counts@[page] == incoming(
                    out@.take(at as int),
                    page,
                ),
    {
        let ghost next = out@.take(at + 1);
        assert(next.drop_last() =~= out@.take(at as int));
        assert(next.last() == out@[at as int]);
        let width: usize = out[at].len();
        proof {
            edges_of_a_part(out@, at + 1);
        }
        for k in 0..width
            invariant
                n == out.len(),
                at < n,
                width == out@[at as int].len(),
                reach::links_inside(out@),
                counts.len() == n,
                edge_count(next) <= usize::MAX,
                edge_count(next) == edge_count(out@.take(at as int)) + width,
                forall|page: int|
                    0 <= page < n ==> #[trigger] counts@[page] == incoming(
                        out@.take(at as int),
                        page,
                    ) + times(out@[at as int]@.take(k as int), page),
        {
            let page: usize = out[at][k];
            let ghost list = out@[at as int]@;
            assert(list.take(k + 1).drop_last() =~= list.take(k as int));
            proof {
                incoming_is_bounded(out@.take(at as int), page as int);
                times_is_bounded(list.take(k as int), page as int);
            }
            let had: usize = counts[page];
            counts.set(page, had + 1);
        }
        assert(out@[at as int]@.take(width as int) =~= out@[at as int]@);
    }
    assert(out@.take(n as int) =~= out@);
    counts
}

proof fn edges_of_a_part(out: Seq<Vec<usize>>, n: int)
    requires
        0 <= n <= out.len(),
    ensures
        edge_count(out.take(n)) <= edge_count(out),
    decreases out.len(),
{
    if n < out.len() {
        assert(out.drop_last().take(n) =~= out.take(n));
        edges_of_a_part(out.drop_last(), n);
    } else {
        assert(out.take(n) =~= out);
    }
}

/// Puts a number into an ascending list, unless it is there already.
fn put(list: &mut Vec<usize>, page: usize)
    requires
        increasing(old(list)@),
    ensures
        increasing(final(list)@),
        final(list).len() <= old(list).len() + 1,
        forall|other: usize| #[trigger]
            final(list)@.contains(other) == (old(list)@.contains(other) || other == page),
{
    let ghost was = list@;
    let mut at: usize = 0;
    while at < list.len() && list[at] < page
        invariant
            at <= list.len(),
            list@ == was,
            forall|i: int| 0 <= i < at ==> #[trigger] list@[i] < page,
        decreases list.len() - at,
    {
        at += 1;
    }
    if at < list.len() && list[at] == page {
        return;
    }
    list.insert(at, page);
    proof {
        let now = list@;
        assert forall|i: int, j: int| 0 <= i < j < now.len() implies #[trigger] now[i]
            < #[trigger] now[j] by {
            if i < at && j == at {
                assert(was[i] < page);
            } else if i < at && j > at {
                assert(was[i] < was[j - 1]);
            } else if i == at {
                assert(was[at as int] <= was[j - 1]) by {
                    if j - 1 > at {
                        assert(was[at as int] < was[j - 1]);
                    }
                }
            } else if j < at {
                assert(was[i] < was[j]);
            } else {
                assert(was[i - 1] < was[j - 1]);
            }
        }
        assert forall|other: usize| #[trigger]
            now.contains(other) == (was.contains(other) || other == page) by {
            if was.contains(other) {
                let i = choose|i: int| 0 <= i < was.len() && was[i] == other;
                if i < at {
                    assert(now[i] == other);
                } else {
                    assert(now[i + 1] == other);
                }
            }
            if other == page {
                assert(now[at as int] == other);
            }
            if now.contains(other) {
                let i = choose|i: int| 0 <= i < now.len() && now[i] == other;
                if i < at {
                    assert(was[i] == other);
                } else if i > at {
                    assert(was[i - 1] == other);
                }
            }
        }
    }
}

/// Whether a table finds each page by its path.
spec fn finds(pages: Seq<Page>, index: Table<usize>) -> bool {
    forall|spelt: Seq<char>|
        #![trigger index.names().contains(spelt)]
        #![trigger page_spelt(pages, spelt)]
        match page_spelt(pages, spelt) {
            Some(at) => index.names().contains(spelt) && index.at(spelt) == at,
            None => !index.names().contains(spelt),
        }
}

/// The pages by path.
fn index_of(pages: &Vec<Page>) -> (index: Table<usize>)
    ensures
        finds(pages@, index),
{
    let mut index: Table<usize> = Table::new();
    for at in 0..pages.len()
        invariant
            finds(pages@.take(at as int), index),
    {
        let ghost next = pages@.take(at + 1);
        assert(next.drop_last() =~= pages@.take(at as int));
        let ghost was = index;
        let spelt: String = paths::spell(pages[at].path.as_str());
        let ghost name = spelt@;
        index.set(spelt, at);
        assert forall|spelt: Seq<char>|
            #![trigger index.names().contains(spelt)]
            #![trigger page_spelt(next, spelt)]
            match page_spelt(next, spelt) {
                Some(at) => index.names().contains(spelt) && index.at(spelt) == at,
                None => !index.names().contains(spelt),
            } by {
            assert(index.names().contains(spelt) == (was.names().contains(spelt) || spelt == name));
            if spelt != name {
                assert(page_spelt(next, spelt) == page_spelt(pages@.take(at as int), spelt));
                if was.names().contains(spelt) {
                    assert(index.at(spelt) == was.at(spelt));
                }
            }
        }
    }
    assert(pages@.take(pages@.len() as int) =~= pages@);
    index
}

fn find(pages: &Vec<Page>, index: &Table<usize>, path: &str) -> (at: Option<usize>)
    requires
        finds(pages@, *index),
    ensures
        at is Some == page_at(pages@, path@) is Some,
        at matches Some(page) ==> page_at(pages@, path@) == Some(page as int) && page < pages.len(),
{
    let spelt: String = paths::spell(path);
    proof {
        page_spelt_is_a_page(pages@, spelt@);
    }
    match index.get(spelt.as_str()) {
        Some(at) => Some(*at),
        None => None,
    }
}

/// What one pass over the pages counts.
struct Survey {
    words: usize,
    headings: usize,
    links: LinkCounts,
    out: Vec<Vec<usize>>,
}

/// The totals of a wiki fit in machine words.
pub open spec fn countable(pages: Seq<Page>) -> bool {
    &&& over_pages(pages, |page: Page| text::word_count(page.text@)) <= usize::MAX
    &&& over_pages(pages, |page: Page| headed(page.headings@)) <= usize::MAX
    &&& links_where(pages, |link: Link| true) <= usize::MAX
}

proof fn over_a_part(pages: Seq<Page>, of: spec_fn(Page) -> nat, n: int)
    requires
        0 <= n < pages.len(),
    ensures
        over_pages(pages.take(n), of) + of(pages[n]) == over_pages(pages.take(n + 1), of),
        over_pages(pages.take(n + 1), of) <= over_pages(pages, of),
    decreases pages.len(),
{
    assert(pages.take(n + 1).drop_last() =~= pages.take(n));
    if n + 1 < pages.len() {
        assert(pages.drop_last().take(n) =~= pages.take(n));
        assert(pages.drop_last().take(n + 1) =~= pages.take(n + 1));
        over_a_part(pages.drop_last(), of, n);
    } else {
        assert(pages.take(n + 1) =~= pages);
    }
}

proof fn tally_is_bounded(links: Seq<Link>, test: spec_fn(Link) -> bool)
    ensures
        tally(links, test) <= links.len(),
        tally(links, |link: Link| true) == links.len(),
    decreases links.len(),
{
    if links.len() > 0 {
        tally_is_bounded(links.drop_last(), test);
    }
}

/// The links of all pages up to one, and the first of that one's, that a test counts.
spec fn links_sofar(pages: Seq<Page>, at: int, k: int, test: spec_fn(Link) -> bool) -> nat {
    links_where(pages.take(at), test) + tally(pages[at].links@.take(k), test)
}

/// The counts of all links up to one of a page.
spec fn counts_sofar(pages: Seq<Page>, at: int, k: int, counts: LinkCounts) -> bool {
    &&& counts.total == links_sofar(pages, at, k, |link: Link| true)
    &&& counts.markdown == links_sofar(
        pages,
        at,
        k,
        |link: Link| link.kind == LinkKind::Markdown,
    )
    &&& counts.wikilink == links_sofar(
        pages,
        at,
        k,
        |link: Link| link.kind == LinkKind::Wikilink,
    )
    &&& counts.resolved == links_sofar(pages, at, k, |link: Link| target(pages, link) is Some)
    &&& counts.broken == links_sofar(
        pages,
        at,
        k,
        |link: Link| link.in_root && target(pages, link) is None,
    )
    &&& counts.outside == links_sofar(pages, at, k, |link: Link| !link.in_root)
}

proof fn one_link_more(pages: Seq<Page>, at: int, k: int, test: spec_fn(Link) -> bool)
    requires
        0 <= at < pages.len(),
        0 <= k < pages[at].links.len(),
    ensures
        links_sofar(pages, at, k + 1, test) == links_sofar(pages, at, k, test) + if test(
            pages[at].links@[k],
        ) {
            1nat
        } else {
            0nat
        },
        links_sofar(pages, at, k, test) <= links_sofar(pages, at, k, |link: Link| true),
        links_sofar(pages, at, k + 1, |link: Link| true) <= links_where(pages, |link: Link| true),
{
    let links = pages[at].links@;
    assert(links.take(k + 1).drop_last() =~= links.take(k));
    let all = |link: Link| true;
    let of = |page: Page| tally(page.links@, all);
    over_a_part(pages, of, at);
    tally_is_bounded(links.take(k + 1), test);
    tally_is_bounded(links.take(k), test);
    tally_is_bounded(links, test);
    fewer_where(pages.take(at), test);
}

proof fn fewer_where(pages: Seq<Page>, test: spec_fn(Link) -> bool)
    ensures
        links_where(pages, test) <= links_where(pages, |link: Link| true),
    decreases pages.len(),
{
    if pages.len() > 0 {
        fewer_where(pages.drop_last(), test);
        tally_is_bounded(pages.last().links@, test);
    }
}

proof fn next_page(pages: Seq<Page>, at: int, test: spec_fn(Link) -> bool)
    requires
        0 <= at < pages.len(),
    ensures
        links_sofar(pages, at, pages[at].links.len() as int, test) == links_where(
            pages.take(at + 1),
            test,
        ),
        links_sofar(pages, at, 0, test) == links_where(pages.take(at), test),
{
    over_a_part(pages, |page: Page| tally(page.links@, test), at);
    assert(pages[at].links@.take(pages[at].links.len() as int) =~= pages[at].links@);
    assert(pages[at].links@.take(0) =~= Seq::<Link>::empty());
}

/// Counts one link and notes where it leads.
fn follow(
    pages: &Vec<Page>,
    index: &Table<usize>,
    at: usize,
    k: usize,
    counts: LinkCounts,
    targets: &mut Vec<usize>,
) -> (now: LinkCounts)
    requires
        finds(pages@, *index),
        at < pages.len(),
        k < pages@[at as int].links.len(),
        links_where(pages@, |link: Link| true) <= usize::MAX,
        counts_sofar(pages@, at as int, k as int, counts),
        increasing(old(targets)@),
        old(targets).len() <= k,
        forall|to: usize| #[trigger]
            old(targets)@.contains(to) == (to != at && exists|j: int|
                0 <= j < k && target(pages@, #[trigger] pages@[at as int].links@[j]) == Some(
                    to as int,
                )),
        forall|i: int| 0 <= i < old(targets).len() ==> (#[trigger] old(targets)@[i]) < pages.len(),
    ensures
        counts_sofar(pages@, at as int, k + 1, now),
        increasing(final(targets)@),
        final(targets).len() <= k + 1,
        forall|to: usize| #[trigger]
            final(targets)@.contains(to) == (to != at && exists|j: int|
                0 <= j < k + 1 && target(pages@, #[trigger] pages@[at as int].links@[j]) == Some(
                    to as int,
                )),
        forall|i: int|
            0 <= i < final(targets).len() ==> (#[trigger] final(targets)@[i]) < pages.len(),
{
    let ghost links = pages@[at as int].links@;
    proof {
        let all = |link: Link| true;
        one_link_more(pages@, at as int, k as int, all);
        one_link_more(pages@, at as int, k as int, |link: Link| link.kind == LinkKind::Markdown);
        one_link_more(pages@, at as int, k as int, |link: Link| link.kind == LinkKind::Wikilink);
        one_link_more(pages@, at as int, k as int, |link: Link| target(pages@, link) is Some);
        one_link_more(
            pages@,
            at as int,
            k as int,
            |link: Link| link.in_root && target(pages@, link) is None,
        );
        one_link_more(pages@, at as int, k as int, |link: Link| !link.in_root);
    }
    let ghost was = targets@;
    let mut now = counts;
    now.total = now.total + 1;
    match pages[at].links[k].kind {
        LinkKind::Markdown => {
            now.markdown = now.markdown + 1;
        },
        LinkKind::Wikilink => {
            now.wikilink = now.wikilink + 1;
        },
    }
    if !pages[at].links[k].in_root {
        now.outside = now.outside + 1;
        assert(target(pages@, links[k as int]) is None);
    } else {
        match find(pages, index, pages[at].links[k].target.as_str()) {
            Some(page) => {
                now.resolved = now.resolved + 1;
                if page != at {
                    put(targets, page);
                    assert forall|i: int| 0 <= i < targets.len() implies (#[trigger] targets@[i])
                        < pages.len() by {
                        assert(targets@.contains(targets@[i]));
                        if was.contains(targets@[i]) {
                            let j = choose|j: int| 0 <= j < was.len() && was[j] == targets@[i];
                            assert(was[j] < pages.len());
                        }
                    }
                }
                assert(target(pages@, links[k as int]) == Some(page as int));
            },
            None => {
                now.broken = now.broken + 1;
            },
        }
    }
    assert forall|to: usize| #[trigger]
        targets@.contains(to) == (to != at && exists|j: int|
            0 <= j < k + 1 && target(pages@, #[trigger] links[j]) == Some(to as int)) by {
        assert(was.contains(to) == (to != at && exists|j: int|
            0 <= j < k && target(pages@, #[trigger] links[j]) == Some(to as int)));
        if was.contains(to) {
            let j = choose|j: int|
                0 <= j < k && target(pages@, #[trigger] links[j]) == Some(to as int);
            assert(target(pages@, links[j]) == Some(to as int));
        }
        if exists|j: int| 0 <= j < k + 1 && target(pages@, #[trigger] links[j]) == Some(to as int) {
            let j = choose|j: int|
                0 <= j < k + 1 && target(pages@, #[trigger] links[j]) == Some(to as int);
            if j == k {
                assert(target(pages@, links[k as int]) == Some(to as int));
            }
        }
    }
    now
}

/// How many sections have a heading.
fn count_headings(headings: &Vec<Option<String>>) -> (n: usize)
    ensures
        n == headed(headings@),
{
    let mut n: usize = 0;
    for i in 0..headings.len()
        invariant
            n == headed(headings@.take(i as int)),
            n <= i,
    {
        assert(headings@.take(i + 1).drop_last() =~= headings@.take(i as int));
        if headings[i].is_some() {
            n += 1;
        }
    }
    assert(headings@.take(headings@.len() as int) =~= headings@);
    n
}

/// One pass over the pages.
fn survey(pages: &Vec<Page>, index: &Table<usize>) -> (found: Survey)
    requires
        finds(pages@, *index),
        countable(pages@),
    ensures
        found.words == over_pages(pages@, |page: Page| text::word_count(page.text@)),
        found.headings == over_pages(pages@, |page: Page| headed(page.headings@)),
        counts_links(pages@, found.links),
        is_adjacency(pages@, found.out@),
        reach::links_inside(found.out@),
        edge_count(found.out@) <= links_where(pages@, |link: Link| true),
{
    let ghost words_of = |page: Page| text::word_count(page.text@);
    let ghost headings_of = |page: Page| headed(page.headings@);
    let mut words: usize = 0;
    let mut headings: usize = 0;
    let mut links = LinkCounts {
        total: 0,
        markdown: 0,
        wikilink: 0,
        resolved: 0,
        broken: 0,
        outside: 0,
    };
    let mut out: Vec<Vec<usize>> = Vec::new();
    for at in 0..pages.len()
        invariant
            finds(pages@, *index),
            countable(pages@),
            words_of == (|page: Page| text::word_count(page.text@)),
            headings_of == (|page: Page| headed(page.headings@)),
            words == over_pages(pages@.take(at as int), words_of),
            headings == over_pages(pages@.take(at as int), headings_of),
            links.total == links_where(pages@.take(at as int), |link: Link| true),
            links.markdown == links_where(
                pages@.take(at as int),
                |link: Link| link.kind == LinkKind::Markdown,
            ),
            links.wikilink == links_where(
                pages@.take(at as int),
                |link: Link| link.kind == LinkKind::Wikilink,
            ),
            links.resolved == links_where(
                pages@.take(at as int),
                |link: Link| target(pages@, link) is Some,
            ),
            links.broken == links_where(
                pages@.take(at as int),
                |link: Link| link.in_root && target(pages@, link) is None,
            ),
            links.outside == links_where(pages@.take(at as int), |link: Link| !link.in_root),
            out.len() == at,
            forall|i: int| 0 <= i < at ==> increasing(#[trigger] out@[i]@),
            forall|i: int, to: usize|
                0 <= i < at ==> #[trigger] out@[i]@.contains(to) == leads(pages@, i, to as int),
            forall|i: int, k: int|
                0 <= i < at && 0 <= k < out@[i].len() ==> (#[trigger] out@[i]@[k]) < pages.len(),
            edge_count(out@) <= links_where(pages@.take(at as int), |link: Link| true),
    {
        proof {
            over_a_part(pages@, words_of, at as int);
            over_a_part(pages@, headings_of, at as int);
        }
        words += text::count_words(pages[at].text.as_str());
        headings += count_headings(&pages[at].headings);
        let width: usize = pages[at].links.len();
        let mut targets: Vec<usize> = Vec::new();
        proof {
            next_page(pages@, at as int, |link: Link| true);
            next_page(pages@, at as int, |link: Link| link.kind == LinkKind::Markdown);
            next_page(pages@, at as int, |link: Link| link.kind == LinkKind::Wikilink);
            next_page(pages@, at as int, |link: Link| target(pages@, link) is Some);
            next_page(
                pages@,
                at as int,
                |link: Link| link.in_root && target(pages@, link) is None,
            );
            next_page(pages@, at as int, |link: Link| !link.in_root);
        }
        for k in 0..width
            invariant
                finds(pages@, *index),
                countable(pages@),
                at < pages.len(),
                width == pages@[at as int].links.len(),
                counts_sofar(pages@, at as int, k as int, links),
                increasing(targets@),
                targets.len() <= k,
                forall|to: usize| #[trigger]
                    targets@.contains(to) == (to != at && exists|j: int|
                        0 <= j < k && target(pages@, #[trigger] pages@[at as int].links@[j])
                            == Some(to as int)),
                forall|i: int| 0 <= i < targets.len() ==> (#[trigger] targets@[i]) < pages.len(),
        {
            links = follow(pages, index, at, k, links, &mut targets);
        }
        let ghost was = out@;
        let ghost list = targets@;
        out.push(targets);
        assert(out@.drop_last() =~= was);
        proof {
            tally_is_bounded(pages@[at as int].links@, |link: Link| true);
            over_a_part(pages@, |page: Page| tally(page.links@, |link: Link| true), at as int);
        }
        assert forall|i: int, to: usize| 0 <= i < at + 1 implies #[trigger] out@[i]@.contains(to)
            == leads(pages@, i, to as int) by {
            if i == at {
                assert(out@[i]@ == list);
                assert(list.contains(to) == (to != at && exists|j: int|
                    0 <= j < width && target(pages@, #[trigger] pages@[at as int].links@[j])
                        == Some(to as int)));
            } else {
                assert(out@[i] == was[i]);
            }
        }
        assert forall|i: int, k: int| 0 <= i < at + 1 && 0 <= k < out@[i].len() implies (
        #[trigger] out@[i]@[k]) < pages.len() by {
            if i < at {
                assert(out@[i] == was[i]);
            }
        }
    }
    assert(pages@.take(pages@.len() as int) =~= pages@);
    Survey { words, headings, links, out }
}

/// The pages that a walk starts from: those the caller named, or the first convention that the
/// wiki holds.
pub open spec fn starting(pages: Seq<Page>, entries: Seq<Seq<char>>) -> Option<Set<int>> {
    if entries.len() > 0 {
        Some(
            Set::new(
                |page: int|
                    exists|i: int|
                        0 <= i < entries.len() && page_at(pages, #[trigger] entries[i]) == Some(
                            page,
                        ),
            ),
        )
    } else {
        match page_at(pages, ENTRY_CONVENTIONS@[0]@) {
            Some(page) => Some(set![page]),
            None => match page_at(pages, ENTRY_CONVENTIONS@[1]@) {
                Some(page) => Some(set![page]),
                None => None,
            },
        }
    }
}

/// What is said of where a walk started.
pub open spec fn names_entry(
    pages: Seq<Page>,
    entries: Seq<Seq<char>>,
    entry: Option<Entry>,
) -> bool {
    if entries.len() > 0 {
        entry == Some(Entry::Given)
    } else if page_at(pages, ENTRY_CONVENTIONS@[0]@) is Some {
        entry matches Some(Entry::Convention(name)) && name@ == ENTRY_CONVENTIONS@[0]@
    } else if page_at(pages, ENTRY_CONVENTIONS@[1]@) is Some {
        entry matches Some(Entry::Convention(name)) && name@ == ENTRY_CONVENTIONS@[1]@
    } else {
        entry is None
    }
}

/// How far every page sits from the starting pages.
pub open spec fn is_depth(
    out: Seq<Vec<usize>>,
    starts: Option<Set<int>>,
    depth: Depth,
) -> bool {
    match starts {
        Some(starts) => levels::is_levels(
            out,
            starts,
            depth.histogram@,
            depth.unreachable as int,
        ),
        None => depth.histogram@.len() == 0 && depth.unreachable == out.len(),
    }
}

/// How far every page sits from the entry pages, breadth first: one hop count per page, every
/// entry page at zero, and a page no link chain from any of them reaches counts as unreachable.
pub fn depth(out: &Vec<Vec<usize>>, entry: Option<(Entry, Vec<usize>)>) -> (found: Depth)
    requires
        reach::links_inside(out@),
        entry matches Some((_, starts)) ==> forall|i: int|
            0 <= i < starts.len() ==> (#[trigger] starts@[i]) < out.len(),
    ensures
        found.entry == match entry {
            Some((entry, _)) => Some(entry),
            None => None,
        },
        is_depth(
            out@,
            match entry {
                Some((_, starts)) => Some(levels::page_set(starts@)),
                None => None,
            },
            found,
        ),
{
    match entry {
        Some((entry, starts)) => {
            let (histogram, unreachable) = levels(out, &starts);
            Depth { entry: Some(entry), histogram, unreachable }
        },
        None => Depth { entry: None, histogram: Vec::new(), unreachable: out.len() },
    }
}

/// What is measured of a wiki whose link graph is `out`.
pub open spec fn measures(
    pages: Seq<Page>,
    entries: Seq<Seq<char>>,
    out: Seq<Vec<usize>>,
    stats: GraphStats,
) -> bool {
    &&& is_adjacency(pages, out)
    &&& stats.pages == pages.len()
    &&& stats.words == over_pages(pages, |page: Page| text::word_count(page.text@))
    &&& stats.headings == over_pages(pages, |page: Page| headed(page.headings@))
    &&& counts_links(pages, stats.links)
    &&& stats.edges == edge_count(out)
    &&& exists|values: Seq<usize>| #[trigger]
        degrees::describes(values, stats.out_degree) && is_out_degrees(out, values)
    &&& exists|values: Seq<usize>| #[trigger]
        degrees::describes(values, stats.in_degree) && is_in_degrees(out, values)
            && stats.orphans == zeros(values)
    &&& names_entry(pages, entries, stats.depth.entry)
    &&& is_depth(out, starting(pages, entries), stats.depth)
    &&& scc::is_largest(out, stats.largest_scc as nat)
}

pub open spec fn is_out_degrees(out: Seq<Vec<usize>>, values: Seq<usize>) -> bool {
    values.len() == out.len() && forall|at: int|
        0 <= at < out.len() ==> #[trigger] values[at] == out[at].len()
}

pub open spec fn is_in_degrees(out: Seq<Vec<usize>>, values: Seq<usize>) -> bool {
    values.len() == out.len() && forall|at: int|
        0 <= at < out.len() ==> #[trigger] values[at] == incoming(out, at)
}

/// The first of the named pages that the wiki does not hold.
pub open spec fn is_first_missing(pages: Seq<Page>, entries: Seq<Seq<char>>, at: int) -> bool {
    &&& 0 <= at < entries.len()
    &&& page_at(pages, entries[at]) is None
    &&& forall|i: int| 0 <= i < at ==> page_at(pages, #[trigger] entries[i]) is Some
}

/// The named pages, by number; or the first that the wiki does not hold.
fn named(pages: &Vec<Page>, index: &Table<usize>, entries: &Vec<String>) -> (found: Result<
    Vec<usize>,
    usize,
>)
    requires
        finds(pages@, *index),
    ensures
        match found {
            Ok(starts) => {
                &&& forall|i: int| 0 <= i < starts.len() ==> (#[trigger] starts@[i]) < pages.len()
                &&& levels::page_set(starts@) == Set::new(
                    |page: int|
                        exists|i: int|
                            0 <= i < entries.len() && page_at(
                                pages@,
                                #[trigger] text::texts(entries@)[i],
                            ) == Some(page),
                )
                &&& forall|i: int|
                    0 <= i < entries.len() ==> page_at(pages@, #[trigger] text::texts(entries@)[i])
                        is Some
            },
            Err(at) => is_first_missing(pages@, text::texts(entries@), at as int),
        },
{
    let mut starts: Vec<usize> = Vec::new();
    let ghost all = text::texts(entries@);
    for at in 0..entries.len()
        invariant
            finds(pages@, *index),
            all == text::texts(entries@),
            starts.len() == at,
            forall|i: int|
                0 <= i < at ==> (#[trigger] starts@[i]) < pages.len() && page_at(pages@, all[i])
                    == Some(starts@[i] as int),
    {
        assert(all[at as int] == entries@[at as int]@);
        match find(pages, index, entries[at].as_str()) {
            Some(page) => starts.push(page),
            None => {
                assert forall|i: int| 0 <= i < at implies page_at(pages@, #[trigger] all[i])
                    is Some by {
                    assert(starts@[i] < pages.len());
                }
                return Err(at);
            },
        }
    }
    let ghost want = Set::new(
        |page: int|
            exists|i: int|
                0 <= i < entries.len() && page_at(pages@, #[trigger] text::texts(entries@)[i])
                    == Some(page),
    );
    assert forall|i: int| 0 <= i < entries.len() implies page_at(pages@, #[trigger] all[i])
        is Some by {
        assert(starts@[i] < pages.len());
    }
    assert(levels::page_set(starts@) =~= want) by {
        assert forall|page: int| levels::page_set(starts@).contains(page) implies want.contains(
            page,
        ) by {
            let i = choose|i: int| 0 <= i < starts.len() && #[trigger] starts@[i] == page;
            assert(page_at(pages@, all[i]) == Some(page));
        }
        assert forall|page: int| want.contains(page) implies levels::page_set(starts@).contains(
            page,
        ) by {
            let i = choose|i: int|
                0 <= i < entries.len() && page_at(pages@, #[trigger] all[i]) == Some(page);
            assert(starts@[i] == page);
        }
    }
    Ok(starts)
}

pub const NO_PAGES: &'static str = ": no markdown or text pages under it";

pub const NOT_A_PAGE: &'static str = ": not a page under ";

fn one(page: usize) -> (list: Vec<usize>)
    ensures
        list.len() == 1,
        list@[0] == page,
        levels::page_set(list@) == set![page as int],
{
    let mut list: Vec<usize> = Vec::new();
    list.push(page);
    assert(levels::page_set(list@) =~= set![page as int]) by {
        assert(list@[0] == page);
    }
    list
}

/// Measures the link graph of the pages under `root`.
///
/// The pages the caller named win over a convention, and one the wiki does not hold is a mistake
/// rather than a wiki nothing can reach.
pub fn collect(root: &str, pages: &Vec<Page>, entries: &Vec<String>) -> (found: Result<
    GraphStats,
    String,
>)
    requires
        countable(pages@),
    ensures
        found is Ok <==> pages.len() > 0 && forall|i: int|
            0 <= i < entries.len() ==> page_at(pages@, #[trigger] text::texts(entries@)[i]) is Some,
        match found {
            Ok(stats) => exists|out: Seq<Vec<usize>>| #[trigger]
                measures(pages@, text::texts(entries@), out, stats),
            Err(message) => if pages.len() == 0 {
                message@ == root@ + NO_PAGES@
            } else {
                exists|at: int|
                    is_first_missing(pages@, text::texts(entries@), at) && message@
                        == #[trigger] text::texts(entries@)[at] + NOT_A_PAGE@ + root@
            },
        },
{
    if pages.len() == 0 {
        let mut message: String = root.to_owned();
        message.append(NO_PAGES);
        return Err(message);
    }
    let ghost names = text::texts(entries@);
    let index: Table<usize> = index_of(pages);
    let found: Survey = survey(pages, &index);
    let out: Vec<Vec<usize>> = found.out;
    let entry: Option<(Entry, Vec<usize>)> = if entries.len() > 0 {
        match named(pages, &index, entries) {
            Ok(starts) => {
                assert(starting(pages@, names) == Some(levels::page_set(starts@)));
                Some((Entry::Given, starts))
            },
            Err(at) => {
                let mut message: String = entries[at].clone();
                message.append(NOT_A_PAGE);
                message.append(root);
                assert(names[at as int] == entries@[at as int]@);
                return Err(message);
            },
        }
    } else {
        match find(pages, &index, ENTRY_CONVENTIONS[0]) {
            Some(page) => Some((Entry::Convention(ENTRY_CONVENTIONS[0].to_owned()), one(page))),
            None => match find(pages, &index, ENTRY_CONVENTIONS[1]) {
                Some(page) => Some((Entry::Convention(ENTRY_CONVENTIONS[1].to_owned()), one(page))),
                None => None,
            },
        }
    };
    let incoming: Vec<usize> = in_degrees(&out);
    let mut outgoing: Vec<usize> = Vec::new();
    let mut edges: usize = 0;
    for at in 0..out.len()
        invariant
            edge_count(out@) <= usize::MAX,
            edges == edge_count(out@.take(at as int)),
            degrees::sum(outgoing@) == edge_count(out@.take(at as int)),
            outgoing.len() == at,
            forall|i: int| 0 <= i < at ==> #[trigger] outgoing@[i] == out@[i].len(),
    {
        assert(out@.take(at + 1).drop_last() =~= out@.take(at as int));
        proof {
            edges_of_a_part(out@, at + 1);
        }
        edges += out[at].len();
        let ghost was = outgoing@;
        outgoing.push(out[at].len());
        assert(outgoing@.drop_last() =~= was);
    }
    assert(out@.take(out@.len() as int) =~= out@);
    let mut orphans: usize = 0;
    for at in 0..incoming.len()
        invariant
            orphans == zeros(incoming@.take(at as int)),
            orphans <= at,
    {
        assert(incoming@.take(at + 1).drop_last() =~= incoming@.take(at as int));
        if incoming[at] == 0 {
            orphans += 1;
        }
    }
    assert(incoming@.take(incoming@.len() as int) =~= incoming@);
    proof {
        in_and_out_degrees_agree(out@, incoming@);
    }
    let out_degree: Degrees = degrees(&outgoing);
    let in_degree: Degrees = degrees(&incoming);
    let depth: Depth = depth(&out, entry);
    let largest: usize = largest_scc(&out);
    let stats = GraphStats {
        pages: pages.len(),
        words: found.words,
        headings: found.headings,
        links: found.links,
        edges,
        out_degree,
        in_degree,
        orphans,
        depth,
        largest_scc: largest,
    };
    assert(measures(pages@, names, out@, stats)) by {
        assert(degrees::describes(outgoing@, stats.out_degree) && is_out_degrees(
            out@,
            outgoing@,
        ));
        assert(degrees::describes(incoming@, stats.in_degree) && is_in_degrees(out@, incoming@));
    }
    Ok(stats)
}

/// How many of the numbers up to `n` a list holds, each as often.
spec fn times_below(list: Seq<usize>, n: nat) -> nat
    decreases n,
{
    if n == 0 {
        0
    } else {
        times_below(list, (n - 1) as nat) + times(list, n - 1)
    }
}

proof fn times_below_counts_all(list: Seq<usize>, n: nat)
    requires
        forall|i: int| 0 <= i < list.len() ==> #[trigger] list[i] < n,
    ensures
        times_below(list, n) == list.len(),
    decreases list.len(),
{
    if list.len() == 0 {
        times_below_none(list, n);
    } else {
        assert forall|i: int| 0 <= i < list.drop_last().len() implies #[trigger] list.drop_last()[i]
            < n by {
            assert(list[i] < n);
        }
        times_below_counts_all(list.drop_last(), n);
        times_below_one_more(list, n);
    }
}

proof fn times_below_none(list: Seq<usize>, n: nat)
    requires
        list.len() == 0,
    ensures
        times_below(list, n) == 0,
    decreases n,
{
    if n > 0 {
        times_below_none(list, (n - 1) as nat);
    }
}

proof fn times_below_one_more(list: Seq<usize>, n: nat)
    requires
        list.len() > 0,
    ensures
        times_below(list, n) == times_below(list.drop_last(), n) + if list.last() < n {
            1nat
        } else {
            0nat
        },
    decreases n,
{
    if n > 0 {
        times_below_one_more(list, (n - 1) as nat);
    }
}

/// The sum of the first `n` in-degrees.
spec fn incoming_below(out: Seq<Vec<usize>>, n: nat) -> nat
    decreases n,
{
    if n == 0 {
        0
    } else {
        incoming_below(out, (n - 1) as nat) + incoming(out, n - 1)
    }
}

proof fn incoming_below_splits(out: Seq<Vec<usize>>, n: nat)
    requires
        out.len() > 0,
    ensures
        incoming_below(out, n) == incoming_below(out.drop_last(), n) + times_below(
            out.last()@,
            n,
        ),
    decreases n,
{
    if n > 0 {
        incoming_below_splits(out, (n - 1) as nat);
    }
}

proof fn incoming_below_counts_all(out: Seq<Vec<usize>>, n: nat)
    requires
        forall|at: int, k: int|
            0 <= at < out.len() && 0 <= k < out[at].len() ==> (#[trigger] out[at]@[k]) < n,
    ensures
        incoming_below(out, n) == edge_count(out),
    decreases out.len(),
{
    if out.len() == 0 {
        incoming_below_none(out, n);
    } else {
        incoming_below_splits(out, n);
        assert forall|at: int, k: int|
            0 <= at < out.drop_last().len() && 0 <= k < out.drop_last()[at].len() implies (
        #[trigger] out.drop_last()[at]@[k]) < n by {
            assert(out[at]@[k] < n);
        }
        incoming_below_counts_all(out.drop_last(), n);
        assert forall|i: int| 0 <= i < out.last()@.len() implies #[trigger] out.last()@[i] < n by {
            assert(out[out.len() - 1]@[i] < n);
        }
        times_below_counts_all(out.last()@, n);
    }
}

proof fn incoming_below_none(out: Seq<Vec<usize>>, n: nat)
    requires
        out.len() == 0,
    ensures
        incoming_below(out, n) == 0,
    decreases n,
{
    if n > 0 {
        incoming_below_none(out, (n - 1) as nat);
    }
}

proof fn sum_is_incoming_below(out: Seq<Vec<usize>>, values: Seq<usize>, n: int)
    requires
        is_in_degrees(out, values),
        0 <= n <= values.len(),
    ensures
        degrees::sum(values.take(n)) == incoming_below(out, n as nat),
    decreases n,
{
    if n > 0 {
        assert(values.take(n).drop_last() =~= values.take(n - 1));
        assert(values.take(n).last() == values[n - 1]);
        sum_is_incoming_below(out, values, n - 1);
    }
}

/// The in-degrees and the out-degrees add up to the same number, the edges.
pub proof fn in_and_out_degrees_agree(out: Seq<Vec<usize>>, values: Seq<usize>)
    requires
        reach::links_inside(out),
        is_in_degrees(out, values),
    ensures
        degrees::sum(values) == edge_count(out),
{
    incoming_below_counts_all(out, out.len());
    sum_is_incoming_below(out, values, values.len() as int);
    assert(values.take(values.len() as int) =~= values);
}

/// The first `n` buckets that hold a page, as `label: pages`.
pub open spec fn bucket_texts(histogram: Seq<usize>, n: int) -> Seq<Seq<char>>
    decreases n,
{
    if n <= 0 {
        Seq::empty()
    } else if histogram[n - 1] > 0 {
        bucket_texts(histogram, n - 1).push(
            degrees::bucket_label(n - 1) + ": "@ + text::decimal(histogram[n - 1] as nat),
        )
    } else {
        bucket_texts(histogram, n - 1)
    }
}

/// The buckets that hold a page, in order, as `label: pages`.
pub fn histogram(degrees: &Degrees) -> (line: String)
    requires
        degrees.histogram.len() == degrees::BUCKETS,
    ensures
        line@ == text::joined(
            bucket_texts(degrees.histogram@, degrees::BUCKETS as int),
            ", "@,
        ),
{
    let mut list: Vec<String> = Vec::new();
    for at in 0..degrees::BUCKETS
        invariant
            degrees.histogram.len() == degrees::BUCKETS,
            text::texts(list@) == bucket_texts(degrees.histogram@, at as int),
    {
        if degrees.histogram[at] > 0 {
            let ghost was = text::texts(list@);
            let mut one: String = degrees::label(at).to_owned();
            one.append(": ");
            one.append(text::number(degrees.histogram[at] as u64).as_str());
            let ghost added = one@;
            list.push(one);
            assert(text::texts(list@) =~= was.push(added));
        }
    }
    text::join(&list, ", ")
}

/// The first `n` hop counts, as `hops: pages`.
pub open spec fn hop_texts(histogram: Seq<(usize, usize)>, n: int) -> Seq<Seq<char>>
    decreases n,
{
    if n <= 0 {
        Seq::empty()
    } else {
        hop_texts(histogram, n - 1).push(
            text::decimal(histogram[n - 1].0 as nat) + ": "@ + text::decimal(
                histogram[n - 1].1 as nat,
            ),
        )
    }
}

pub open spec fn hops_line(depth: Depth) -> Seq<char> {
    if depth.histogram@.len() == 0 {
        "no entry page"@
    } else {
        text::joined(hop_texts(depth.histogram@, depth.histogram@.len() as int), ", "@)
    }
}

/// Pages per hop count, in order, as `hops: pages`.
pub fn hops(depth: &Depth) -> (line: String)
    ensures
        line@ == hops_line(*depth),
{
    if depth.histogram.len() == 0 {
        return "no entry page".to_owned();
    }
    let mut list: Vec<String> = Vec::new();
    for at in 0..depth.histogram.len()
        invariant
            text::texts(list@) == hop_texts(depth.histogram@, at as int),
    {
        let ghost was = text::texts(list@);
        let (hops, pages): (usize, usize) = depth.histogram[at];
        let mut one: String = text::number(hops as u64);
        one.append(": ");
        one.append(text::number(pages as u64).as_str());
        let ghost added = one@;
        list.push(one);
        assert(text::texts(list@) =~= was.push(added));
    }
    text::join(&list, ", ")
}

/// The row of one degree distribution.
pub open spec fn spread_row(out: DocView, template: Seq<char>, degrees: Degrees) -> DocView {
    out.line(
        template,
        doc::none().push(doc::count(degrees.min as int)).push(
            doc::shown(degrees.median, Form::Fixed(1)),
        ).push(doc::shown(degrees.mean, Form::Fixed(1))).push(doc::count(degrees.max as int)),
    )
}

fn spread(out: &mut Doc, template: &str, degrees: &Degrees)
    ensures
        final(out)@ == spread_row(old(out)@, template@, *degrees),
{
    out.line(
        template,
        args().count(degrees.min).figure(doc::copy(&degrees.median), Form::Fixed(1)).figure(
            doc::copy(&degrees.mean),
            Form::Fixed(1),
        ).count(degrees.max),
    );
}

/// What the table says of the entry page: a convention by its name, which is a constant of this
/// library, and a page that the caller gave as given.
pub open spec fn entry_line(entry: Option<Entry>) -> Seq<char> {
    match entry {
        Some(Entry::Convention(convention)) => "the `"@ + convention@ + "` convention"@,
        Some(Entry::Given) => "given"@,
        None => "none: the root holds neither convention"@,
    }
}

/// The statistics as a markdown table: two columns, every cell a number or a word of this
/// library.
pub open spec fn table_rows(out: DocView, stats: GraphStats) -> DocView {
    let out = out.text("| | |\n| --- | --- |\n"@);
    let out = out.line("| Pages | {} |"@, doc::none().push(doc::count(stats.pages as int)));
    let out = out.line("| Words | {} |"@, doc::none().push(doc::count(stats.words as int)));
    let out = out.line("| Headings | {} |"@, doc::none().push(doc::count(stats.headings as int)));
    let out = out.line(
        "| Links | {} ({} markdown, {} wikilink) |"@,
        doc::none().push(doc::count(stats.links.total as int)).push(
            doc::count(stats.links.markdown as int),
        ).push(doc::count(stats.links.wikilink as int)),
    );
    let out = out.line(
        "| Link targets | {} inside the wiki, {} broken, {} outside it |"@,
        doc::none().push(doc::count(stats.links.resolved as int)).push(
            doc::count(stats.links.broken as int),
        ).push(doc::count(stats.links.outside as int)),
    );
    let out = out.line("| Edges | {} |"@, doc::none().push(doc::count(stats.edges as int)));
    let out = spread_row(
        out,
        "| Out-degree (min/median/mean/max) | {} / {} / {} / {} |"@,
        stats.out_degree,
    );
    let out = spread_row(
        out,
        "| In-degree (min/median/mean/max) | {} / {} / {} / {} |"@,
        stats.in_degree,
    );
    let out = out.line(
        "| Out-degree histogram | {} |"@,
        doc::none().push(
            doc::word(
                text::joined(
                    bucket_texts(stats.out_degree.histogram@, degrees::BUCKETS as int),
                    ", "@,
                ),
            ),
        ),
    );
    let out = out.line(
        "| In-degree histogram | {} |"@,
        doc::none().push(
            doc::word(
                text::joined(
                    bucket_texts(stats.in_degree.histogram@, degrees::BUCKETS as int),
                    ", "@,
                ),
            ),
        ),
    );
    let out = out.line("| Orphans | {} |"@, doc::none().push(doc::count(stats.orphans as int)));
    let out = out.line(
        "| Entry page | {} |"@,
        doc::none().push(doc::word(entry_line(stats.depth.entry))),
    );
    let out = out.line(
        "| Depth from the entry page | {} |"@,
        doc::none().push(doc::word(hops_line(stats.depth))),
    );
    let out = out.line(
        "| Unreachable from the entry page | {} |"@,
        doc::none().push(doc::count(stats.depth.unreachable as int)),
    );
    out.line(
        "| Largest strongly connected component | {} |"@,
        doc::none().push(doc::count(stats.largest_scc as int)),
    )
}

/// The statistics as a markdown table.
pub fn table(stats: &GraphStats) -> (out: Doc)
    requires
        stats.out_degree.histogram.len() == degrees::BUCKETS,
        stats.in_degree.histogram.len() == degrees::BUCKETS,
    ensures
        out@ == table_rows(DocView::empty(), *stats),
{
    let mut out = Doc::new();
    put_table(&mut out, stats);
    out
}

/// Writes the table at the end of a document.
pub fn put_table(out: &mut Doc, stats: &GraphStats)
    requires
        stats.out_degree.histogram.len() == degrees::BUCKETS,
        stats.in_degree.histogram.len() == degrees::BUCKETS,
    ensures
        final(out)@ == table_rows(old(out)@, *stats),
{
    out.text("| | |\n| --- | --- |\n");
    out.line("| Pages | {} |", args().count(stats.pages));
    out.line("| Words | {} |", args().count(stats.words));
    out.line("| Headings | {} |", args().count(stats.headings));
    out.line(
        "| Links | {} ({} markdown, {} wikilink) |",
        args().count(stats.links.total).count(stats.links.markdown).count(stats.links.wikilink),
    );
    out.line(
        "| Link targets | {} inside the wiki, {} broken, {} outside it |",
        args().count(stats.links.resolved).count(stats.links.broken).count(stats.links.outside),
    );
    out.line("| Edges | {} |", args().count(stats.edges));
    spread(
        out,
        "| Out-degree (min/median/mean/max) | {} / {} / {} / {} |",
        &stats.out_degree,
    );
    spread(
        out,
        "| In-degree (min/median/mean/max) | {} / {} / {} / {} |",
        &stats.in_degree,
    );
    let outgoing: String = histogram(&stats.out_degree);
    out.line("| Out-degree histogram | {} |", args().text(outgoing.as_str()));
    let incoming: String = histogram(&stats.in_degree);
    out.line("| In-degree histogram | {} |", args().text(incoming.as_str()));
    out.line("| Orphans | {} |", args().count(stats.orphans));
    let entry: String = match &stats.depth.entry {
        Some(Entry::Convention(convention)) => {
            let mut line: String = "the `".to_owned();
            line.append(convention.as_str());
            line.append("` convention");
            line
        },
        Some(Entry::Given) => "given".to_owned(),
        None => "none: the root holds neither convention".to_owned(),
    };
    out.line("| Entry page | {} |", args().text(entry.as_str()));
    let far: String = hops(&stats.depth);
    out.line("| Depth from the entry page | {} |", args().text(far.as_str()));
    out.line("| Unreachable from the entry page | {} |", args().count(stats.depth.unreachable));
    out.line("| Largest strongly connected component | {} |", args().count(stats.largest_scc));
}

} // verus!
