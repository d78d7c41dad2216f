//! How many links away pages are, breadth first.

use vstd::prelude::*;

use crate::graph::reach;

verus! {

/// The pages at most `hops` links away from a starting page.
pub open spec fn within(out: Seq<Vec<usize>>, starts: Set<int>, hops: nat) -> Set<int>
    decreases hops,
{
    if hops == 0 {
        starts
    } else {
        let nearer = within(out, starts, (hops - 1) as nat);
        nearer.union(
            Set::new(
                |target: int|
                    exists|page: int|
                        nearer.contains(page) && #[trigger] reach::links_to(out, page, target),
            ),
        )
    }
}

/// The pages exactly `hops` links away from the nearest starting page.
pub open spec fn at_hops(out: Seq<Vec<usize>>, starts: Set<int>, hops: nat) -> Set<int> {
    if hops == 0 {
        starts
    } else {
        within(out, starts, hops).difference(within(out, starts, (hops - 1) as nat))
    }
}

/// The pages of a list.
pub open spec fn page_set(list: Seq<usize>) -> Set<int> {
    Set::new(|page: int| exists|i: int| 0 <= i < list.len() && #[trigger] list[i] == page)
}

/// What `hops` links reach stays among the pages, and is finite.
proof fn within_the_pages(out: Seq<Vec<usize>>, starts: Set<int>, hops: nat)
    requires
        reach::links_inside(out),
        forall|page: int| starts.contains(page) ==> 0 <= page < out.len(),
    ensures
        forall|page: int| #[trigger]
            within(out, starts, hops).contains(page) ==> 0 <= page < out.len(),
        within(out, starts, hops).finite(),
        within(out, starts, hops).len() <= out.len(),
    decreases hops,
{
    if hops > 0 {
        within_the_pages(out, starts, (hops - 1) as nat);
    }
    let all = vstd::set_lib::set_int_range(0, out.len() as int);
    vstd::set_lib::lemma_int_range(0, out.len() as int);
    assert(within(out, starts, hops).subset_of(all));
    vstd::set_lib::lemma_set_subset_finite(all, within(out, starts, hops));
    vstd::set_lib::lemma_len_subset(within(out, starts, hops), all);
}

proof fn list_size(list: Seq<usize>)
    requires
        list.no_duplicates(),
    ensures
        page_set(list).finite(),
        page_set(list).len() == list.len(),
{
    let pages = list.map_values(|page: usize| page as int);
    assert(pages.no_duplicates());
    pages.unique_seq_to_set();
    assert(page_set(list) =~= pages.to_set()) by {
        assert forall|page: int| page_set(list).contains(page) implies pages.contains(page) by {
            let i = choose|i: int| 0 <= i < list.len() && #[trigger] list[i] == page;
            assert(pages[i] == page);
        }
        assert forall|page: int| pages.contains(page) implies page_set(list).contains(page) by {
            let i = choose|i: int| 0 <= i < pages.len() && pages[i] == page;
            assert(list[i] == page);
        }
    }
}

/// The pages per hop count from the starting pages, and how many pages no link chain from any of
/// them reaches.
pub open spec fn is_levels(
    out: Seq<Vec<usize>>,
    starts: Set<int>,
    histogram: Seq<(usize, usize)>,
    unreachable: int,
) -> bool {
    &&& forall|i: int|
        0 <= i < histogram.len() ==> (#[trigger] histogram[i]).0 == i && histogram[i].1 > 0
            && histogram[i].1 == at_hops(out, starts, i as nat).len()
    &&& at_hops(out, starts, histogram.len()) == Set::<int>::empty()
    &&& unreachable == out.len() - within(out, starts, histogram.len()).len()
}

/// Walks breadth first from the starting pages.
pub fn levels(out: &Vec<Vec<usize>>, starts: &Vec<usize>) -> (found: (Vec<(usize, usize)>, usize))
    requires
        reach::links_inside(out@),
        forall|i: int| 0 <= i < starts.len() ==> (#[trigger] starts@[i]) < out.len(),
    ensures
        is_levels(out@, page_set(starts@), found.0@, found.1 as int),
{
    let n: usize = out.len();
    let ghost from = page_set(starts@);
    let mut seen: Vec<bool> = Vec::new();
    for i in 0..n
        invariant
            seen.len() == i,
            forall|k: int| 0 <= k < i ==> !seen@[k],
    {
        seen.push(false);
    }
    let mut frontier: Vec<usize> = Vec::new();
    for i in 0..starts.len()
        invariant
            n == out.len(),
            seen.len() == n,
            forall|k: int| 0 <= k < starts.len() ==> (#[trigger] starts@[k]) < out.len(),
            frontier@.no_duplicates(),
            forall|k: int|
                0 <= k < frontier.len() ==> (#[trigger] frontier@[k]) < n && page_set(
                    starts@,
                ).contains(frontier@[k] as int),
            forall|page: int|
                0 <= page < n ==> #[trigger] seen@[page] == page_set(frontier@).contains(page),
            forall|k: int| 0 <= k < i ==> seen@[(#[trigger] starts@[k]) as int],
    {
        let page: usize = starts[i];
        if !seen[page] {
            let ghost was = frontier@;
            let ghost old_seen = seen@;
            assert(!page_set(was).contains(page as int));
            seen.set(page, true);
            frontier.push(page);
            assert(page_set(starts@).contains(page as int)) by {
                assert(starts@[i as int] == page);
            }
            proof {
                page_pushed(was, page);
            }
        }
    }
    assert(page_set(frontier@) =~= from) by {
        assert forall|page: int| from.contains(page) implies page_set(frontier@).contains(page) by {
            let k = choose|k: int| 0 <= k < starts.len() && #[trigger] starts@[k] == page;
            assert(seen@[starts@[k] as int]);
        }
        assert forall|page: int| page_set(frontier@).contains(page) implies from.contains(page) by {
            let k = choose|k: int| 0 <= k < frontier.len() && #[trigger] frontier@[k] == page;
            assert(from.contains(frontier@[k] as int));
        }
    }
    assert(forall|page: int| from.contains(page) ==> 0 <= page < out.len());
    let mut histogram: Vec<(usize, usize)> = Vec::new();
    let mut reached: usize = 0;
    let ghost mut hops: nat = 0;
    proof {
        within_the_pages(out@, from, 0);
        list_size(frontier@);
    }
    while frontier.len() > 0
        invariant
            n == out.len(),
            reach::links_inside(out@),
            forall|page: int| from.contains(page) ==> 0 <= page < out.len(),
            seen.len() == n,
            hops == histogram.len(),
            hops <= reached,
            frontier@.no_duplicates(),
            forall|k: int| 0 <= k < frontier.len() ==> (#[trigger] frontier@[k]) < n,
            page_set(frontier@) == at_hops(out@, from, hops),
            forall|page: int|
                0 <= page < n ==> #[trigger] seen@[page] == within(out@, from, hops).contains(page),
            reached + frontier.len() == within(out@, from, hops).len(),
            within(out@, from, hops).len() <= n,
            forall|i: int|
                0 <= i < histogram.len() ==> (#[trigger] histogram@[i]).0 == i && histogram@[i].1
                    > 0 && histogram@[i].1 == at_hops(out@, from, i as nat).len(),
        decreases n - reached,
    {
        proof {
            list_size(frontier@);
        }
        histogram.push((histogram.len(), frontier.len()));
        reached += frontier.len();
        let ghost near = within(out@, from, hops);
        let ghost far = within(out@, from, hops + 1);
        let mut next: Vec<usize> = Vec::new();
        for f in 0..frontier.len()
            invariant
                n == out.len(),
                reach::links_inside(out@),
                seen.len() == n,
                near == within(out@, from, hops),
                far == within(out@, from, hops + 1),
                forall|k: int| 0 <= k < frontier.len() ==> (#[trigger] frontier@[k]) < n,
                page_set(frontier@) == at_hops(out@, from, hops),
                next@.no_duplicates(),
                forall|k: int|
                    0 <= k < next.len() ==> (#[trigger] next@[k]) < n && !near.contains(
                        next@[k] as int,
                    ) && far.contains(next@[k] as int),
                forall|page: int|
                    0 <= page < n ==> #[trigger] seen@[page] == (near.contains(page) || page_set(
                        next@,
                    ).contains(page)),
                forall|g: int, k: int|
                    0 <= g < f && 0 <= k < out@[frontier@[g] as int].len()
                        ==> seen@[(#[trigger] out@[frontier@[g] as int]@[k]) as int],
        {
            let page: usize = frontier[f];
            assert(near.contains(page as int)) by {
                assert(page_set(frontier@).contains(frontier@[f as int] as int));
            }
            let width: usize = out[page].len();
            for k in 0..width
                invariant
                    width == out@[page as int].len(),
                    n == out.len(),
                    reach::links_inside(out@),
                    f < frontier.len(),
                    page == frontier@[f as int],
                    page < n,
                    near.contains(page as int),
                    seen.len() == n,
                    near == within(out@, from, hops),
                    far == within(out@, from, hops + 1),
                    next@.no_duplicates(),
                    forall|k: int|
                        0 <= k < next.len() ==> (#[trigger] next@[k]) < n && !near.contains(
                            next@[k] as int,
                        ) && far.contains(next@[k] as int),
                    forall|page: int|
                        0 <= page < n ==> #[trigger] seen@[page] == (near.contains(page)
                            || page_set(next@).contains(page)),
                    forall|g: int, j: int|
                        0 <= g < f && 0 <= j < out@[frontier@[g] as int].len()
                            ==> seen@[(#[trigger] out@[frontier@[g] as int]@[j]) as int],
                    forall|j: int| 0 <= j < k ==> seen@[(#[trigger] out@[page as int]@[j]) as int],
                    forall|g: int| 0 <= g < frontier.len() ==> (#[trigger] frontier@[g]) < n,
            {
                let target: usize = out[page][k];
                if !seen[target] {
                    let ghost was = next@;
                    let ghost old_seen = seen@;
                    assert(!near.contains(target as int));
                    assert(!page_set(was).contains(target as int));
                    seen.set(target, true);
                    next.push(target);
                    assert(far.contains(target as int)) by {
                        assert(reach::links_to(out@, page as int, target as int));
                    }
                    proof {
                        page_pushed(was, target);
                    }
                    assert forall|g: int, j: int|
                        0 <= g < f && 0 <= j < out@[frontier@[g] as int].len() implies seen@[(
                    #[trigger] out@[frontier@[g] as int]@[j]) as int] by {
                        assert(frontier@[g] < n);
                        assert(old_seen[out@[frontier@[g] as int]@[j] as int]);
                    }
                }
            }
        }
        assert(page_set(next@) =~= at_hops(out@, from, hops + 1)) by {
            assert forall|page: int| at_hops(out@, from, hops + 1).contains(page) implies page_set(
                next@,
            ).contains(page) by {
                assert(far.contains(page) && !near.contains(page));
                let source = choose|source: int|
                    near.contains(source) && #[trigger] reach::links_to(out@, source, page);
                within_the_pages(out@, from, hops);
                within_the_pages(out@, from, hops + 1);
                assert(page_set(frontier@).contains(source)) by {
                    if hops > 0 {
                        let nearer = within(out@, from, (hops - 1) as nat);
                        if nearer.contains(source) {
                            assert(near.contains(page));
                        }
                    }
                }
                let g = choose|g: int| 0 <= g < frontier.len() && #[trigger] frontier@[g] == source;
                let k = choose|k: int|
                    0 <= k < out@[source].len() && #[trigger] out@[source]@[k] == page;
                assert(seen@[out@[frontier@[g] as int]@[k] as int]);
            }
            assert forall|page: int| page_set(next@).contains(page) implies at_hops(
                out@,
                from,
                hops + 1,
            ).contains(page) by {
                let k = choose|k: int| 0 <= k < next.len() && #[trigger] next@[k] == page;
                assert(far.contains(next@[k] as int));
            }
        }
        proof {
            within_the_pages(out@, from, hops + 1);
            within_the_pages(out@, from, hops);
            list_size(next@);
            assert(far =~= near.union(at_hops(out@, from, hops + 1)));
            vstd::set_lib::lemma_set_disjoint_lens(near, at_hops(out@, from, hops + 1));
            assert forall|page: int| 0 <= page < n implies #[trigger] seen@[page] == far.contains(
                page,
            ) by {
                assert(page_set(next@).contains(page) == at_hops(out@, from, hops + 1).contains(
                    page,
                ));
            }
            hops = hops + 1;
        }
        frontier = next;
    }
    proof {
        assert(page_set(frontier@) =~= Set::<int>::empty());
    }
    (histogram, n - reached)
}

proof fn page_pushed(list: Seq<usize>, page: usize)
    requires
        list.no_duplicates(),
        !page_set(list).contains(page as int),
    ensures
        list.push(page).no_duplicates(),
        forall|other: int| #[trigger]
            page_set(list.push(page)).contains(other) == (page_set(list).contains(other) || other
                == page),
{
    let longer = list.push(page);
    assert forall|i: int, j: int|
        0 <= i < longer.len() && 0 <= j < longer.len() && i != j implies longer[i] != longer[j] by {
        if i == list.len() {
            assert(list[j] == longer[j]);
        } else if j == list.len() {
            assert(list[i] == longer[i]);
        }
    }
    assert forall|other: int| #[trigger]
        page_set(longer).contains(other) == (page_set(list).contains(other) || other == page) by {
        if page_set(list).contains(other) {
            let i = choose|i: int| 0 <= i < list.len() && #[trigger] list[i] == other;
            assert(longer[i] == other);
        }
        if other == page {
            assert(longer[list.len() as int] == other);
        }
        if page_set(longer).contains(other) {
            let i = choose|i: int| 0 <= i < longer.len() && #[trigger] longer[i] == other;
            if i < list.len() {
                assert(list[i] == other);
            }
        }
    }
}

/// Whether a link chain from a starting page leads to a page.
pub open spec fn is_reached(out: Seq<Vec<usize>>, starts: Set<int>, page: int) -> bool {
    exists|start: int| starts.contains(start) && #[trigger] reach::reaches(out, start, page)
}

proof fn within_is_reached(out: Seq<Vec<usize>>, starts: Set<int>, hops: nat, page: int)
    requires
        reach::links_inside(out),
        forall|start: int| starts.contains(start) ==> 0 <= start < out.len(),
        within(out, starts, hops).contains(page),
    ensures
        is_reached(out, starts, page),
    decreases hops,
{
    if hops == 0 {
        reach::reaches_itself(out, page);
    } else {
        let nearer = within(out, starts, (hops - 1) as nat);
        if nearer.contains(page) {
            within_is_reached(out, starts, (hops - 1) as nat, page);
        } else {
            let source = choose|source: int|
                nearer.contains(source) && #[trigger] reach::links_to(out, source, page);
            within_is_reached(out, starts, (hops - 1) as nat, source);
            within_the_pages(out, starts, hops);
            let start = choose|start: int|
                starts.contains(start) && #[trigger] reach::reaches(out, start, source);
            reach::reaches_by_link(out, source, page);
            reach::reaches_on(out, start, source, page);
        }
    }
}

/// Once no page is exactly `hops` links away, nothing lies further.
proof fn nothing_further(out: Seq<Vec<usize>>, starts: Set<int>, hops: nat)
    requires
        at_hops(out, starts, hops) == Set::<int>::empty(),
    ensures
        reach::is_closed(out, within(out, starts, hops)),
{
    if hops > 0 {
        let nearer = within(out, starts, (hops - 1) as nat);
        assert forall|page: int| within(out, starts, hops).contains(page) implies nearer.contains(
            page,
        ) by {
            if !nearer.contains(page) {
                assert(at_hops(out, starts, hops).contains(page));
            }
        }
        assert forall|page: int, target: int|
            within(out, starts, hops).contains(page) && #[trigger] reach::links_to(
                out,
                page,
                target,
            ) implies within(out, starts, hops).contains(target) by {
            assert(nearer.contains(page));
        }
    }
}

proof fn starts_are_within(out: Seq<Vec<usize>>, starts: Set<int>, hops: nat)
    ensures
        starts.subset_of(within(out, starts, hops)),
    decreases hops,
{
    if hops > 0 {
        starts_are_within(out, starts, (hops - 1) as nat);
    }
}

/// How many pages a histogram counts.
pub open spec fn counted(histogram: Seq<(usize, usize)>) -> int
    decreases histogram.len(),
{
    if histogram.len() == 0 {
        0
    } else {
        counted(histogram.drop_last()) + histogram.last().1
    }
}

proof fn counted_within(
    out: Seq<Vec<usize>>,
    starts: Set<int>,
    histogram: Seq<(usize, usize)>,
    hops: nat,
)
    requires
        reach::links_inside(out),
        forall|start: int| starts.contains(start) ==> 0 <= start < out.len(),
        hops < histogram.len(),
        forall|i: int|
            0 <= i < histogram.len() ==> (#[trigger] histogram[i]).1 == at_hops(
                out,
                starts,
                i as nat,
            ).len(),
    ensures
        counted(histogram.take(hops as int + 1)) == within(out, starts, hops).len(),
    decreases hops,
{
    let upto = histogram.take(hops as int + 1);
    assert(upto.last() == histogram[hops as int]);
    within_the_pages(out, starts, hops);
    if hops == 0 {
        assert(upto.drop_last() =~= Seq::<(usize, usize)>::empty());
        assert(counted(upto.drop_last()) == 0);
    } else {
        counted_within(out, starts, histogram, (hops - 1) as nat);
        within_the_pages(out, starts, (hops - 1) as nat);
        assert(upto.drop_last() =~= histogram.take(hops as int));
        let nearer = within(out, starts, (hops - 1) as nat);
        let here = at_hops(out, starts, hops);
        assert(within(out, starts, hops) =~= nearer.union(here));
        vstd::set_lib::lemma_set_disjoint_lens(nearer, here);
    }
}

/// Every page is counted once: at its distance from the nearest starting page, or as unreachable
/// when no link chain from any of them leads there.
pub proof fn every_page_is_counted_once(
    out: Seq<Vec<usize>>,
    starts: Set<int>,
    histogram: Seq<(usize, usize)>,
    unreachable: int,
)
    requires
        reach::links_inside(out),
        forall|start: int| starts.contains(start) ==> 0 <= start < out.len(),
        is_levels(out, starts, histogram, unreachable),
    ensures
        counted(histogram) + unreachable == out.len(),
        unreachable == Set::new(
            |page: int| 0 <= page < out.len() && !is_reached(out, starts, page),
        ).len(),
{
    let last = histogram.len();
    nothing_further(out, starts, last);
    let reached = within(out, starts, last);
    within_the_pages(out, starts, last);
    assert forall|page: int| #[trigger] reached.contains(page) == is_reached(out, starts, page) by {
        if reached.contains(page) {
            within_is_reached(out, starts, last, page);
        }
        if is_reached(out, starts, page) {
            let start = choose|start: int|
                starts.contains(start) && #[trigger] reach::reaches(out, start, page);
            starts_are_within(out, starts, last);
            reach::closed_keeps(out, reached, start, page);
        }
    }
    let all = vstd::set_lib::set_int_range(0, out.len() as int);
    vstd::set_lib::lemma_int_range(0, out.len() as int);
    let left = Set::new(|page: int| 0 <= page < out.len() && !is_reached(out, starts, page));
    assert(left =~= all.difference(reached));
    assert(all =~= reached.union(left));
    vstd::set_lib::lemma_set_subset_finite(all, left);
    vstd::set_lib::lemma_set_disjoint_lens(reached, left);
    if last > 0 {
        counted_within(out, starts, histogram, (last - 1) as nat);
        assert(histogram.take(last as int) =~= histogram);
        within_the_pages(out, starts, (last - 1) as nat);
        let nearer = within(out, starts, (last - 1) as nat);
        assert(reached =~= nearer) by {
            assert forall|page: int| reached.contains(page) implies nearer.contains(page) by {
                if !nearer.contains(page) {
                    assert(at_hops(out, starts, last).contains(page));
                }
            }
        }
    }
}

} // verus!
