//! Link chains between pages.

use vstd::prelude::*;

verus! {

/// Every link of an adjacency list names one of its pages.
pub open spec fn links_inside(out: Seq<Vec<usize>>) -> bool {
    forall|page: int, k: int|
        0 <= page < out.len() && 0 <= k < out[page].len() ==> (#[trigger] out[page]@[k]) < out.len()
}

/// Whether `page` links to `target`.
pub open spec fn links_to(out: Seq<Vec<usize>>, page: int, target: int) -> bool {
    0 <= page < out.len() && exists|k: int|
        0 <= k < out[page].len() && #[trigger] out[page]@[k] == target
}

/// A chain of pages, each linking to the next.
pub open spec fn is_chain(out: Seq<Vec<usize>>, chain: Seq<int>) -> bool {
    &&& chain.len() > 0
    &&& forall|i: int| 0 <= i < chain.len() ==> 0 <= #[trigger] chain[i] < out.len()
    &&& forall|i: int|
        0 <= i < chain.len() - 1 ==> links_to(out, #[trigger] chain[i], chain[i + 1])
}

/// Whether a chain of links, the empty one too, leads from one page to another.
pub open spec fn reaches(out: Seq<Vec<usize>>, from: int, to: int) -> bool {
    exists|chain: Seq<int>| #[trigger]
        is_chain(out, chain) && chain[0] == from && chain.last() == to
}

pub proof fn reaches_itself(out: Seq<Vec<usize>>, page: int)
    requires
        0 <= page < out.len(),
    ensures
        reaches(out, page, page),
{
    assert(is_chain(out, seq![page]));
}

pub proof fn reaches_by_link(out: Seq<Vec<usize>>, page: int, target: int)
    requires
        links_to(out, page, target),
        0 <= target < out.len(),
    ensures
        reaches(out, page, target),
{
    let chain = seq![page, target];
    assert(is_chain(out, chain));
    assert(chain.last() == target);
}

pub proof fn reaches_on(out: Seq<Vec<usize>>, a: int, b: int, c: int)
    requires
        reaches(out, a, b),
        reaches(out, b, c),
    ensures
        reaches(out, a, c),
{
    let first = choose|chain: Seq<int>| #[trigger]
        is_chain(out, chain) && chain[0] == a && chain.last() == b;
    let second = choose|chain: Seq<int>| #[trigger]
        is_chain(out, chain) && chain[0] == b && chain.last() == c;
    let whole = first + second.drop_first();
    assert forall|i: int| 0 <= i < whole.len() implies 0 <= #[trigger] whole[i] < out.len() by {
        if i >= first.len() {
            assert(whole[i] == second[i - first.len() + 1]);
        }
    }
    assert forall|i: int| 0 <= i < whole.len() - 1 implies links_to(
        out,
        #[trigger] whole[i],
        whole[i + 1],
    ) by {
        if i + 1 < first.len() {
            assert(links_to(out, first[i], first[i + 1]));
        } else {
            let j = i - first.len() + 1;
            assert(links_to(out, second[j], second[j + 1]));
        }
    }
    assert(is_chain(out, whole));
    assert(whole.last() == c);
}

/// A set of pages that no link leaves.
pub open spec fn is_closed(out: Seq<Vec<usize>>, pages: Set<int>) -> bool {
    forall|page: int, target: int|
        pages.contains(page) && #[trigger] links_to(out, page, target) ==> pages.contains(target)
}

/// What a page of a closed set reaches is in the set.
pub proof fn closed_keeps(out: Seq<Vec<usize>>, pages: Set<int>, from: int, to: int)
    requires
        is_closed(out, pages),
        pages.contains(from),
        reaches(out, from, to),
    ensures
        pages.contains(to),
{
    let chain = choose|chain: Seq<int>| #[trigger]
        is_chain(out, chain) && chain[0] == from && chain.last() == to;
    chain_stays(out, pages, chain, chain.len() - 1);
}

proof fn chain_stays(out: Seq<Vec<usize>>, pages: Set<int>, chain: Seq<int>, at: int)
    requires
        is_closed(out, pages),
        is_chain(out, chain),
        pages.contains(chain[0]),
        0 <= at < chain.len(),
    ensures
        pages.contains(chain[at]),
    decreases at,
{
    if at > 0 {
        chain_stays(out, pages, chain, at - 1);
        assert(links_to(out, chain[at - 1], chain[at - 1 + 1]));
    }
}

} // verus!
