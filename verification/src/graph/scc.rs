//! Strongly connected components.

use vstd::prelude::*;

use crate::graph::reach;

verus! {

/// The pages that reach `page` and that `page` reaches.
pub open spec fn component(out: Seq<Vec<usize>>, page: int) -> Set<int> {
    Set::new(
        |other: int|
            0 <= other < out.len() && reach::reaches(out, page, other) && reach::reaches(
                out,
                other,
                page,
            ),
    )
}

/// The size of the largest strongly connected component; zero for no pages.
pub open spec fn is_largest(out: Seq<Vec<usize>>, size: nat) -> bool {
    &&& forall|page: int|
        0 <= page < out.len() ==> (#[trigger] component(out, page)).len() <= size
    &&& out.len() == 0 ==> size == 0
    &&& out.len() > 0 ==> exists|page: int|
        0 <= page < out.len() && (#[trigger] component(out, page)).len() == size
}

const UNVISITED: usize = usize::MAX;

/// How many pages have no number yet.
spec fn unnumbered(index: Seq<usize>) -> nat
    decreases index.len(),
{
    if index.len() == 0 {
        0
    } else {
        unnumbered(index.drop_last()) + if index.last() == UNVISITED {
            1nat
        } else {
            0nat
        }
    }
}

proof fn numbering_one(index: Seq<usize>, page: int, number: usize)
    requires
        0 <= page < index.len(),
        index[page] == UNVISITED,
    ensures
        unnumbered(index) > 0,
        number != UNVISITED ==> unnumbered(index.update(page, number)) == unnumbered(index) - 1,
    decreases index.len(),
{
    let after = index.update(page, number);
    if page == index.len() - 1 {
        assert(after.drop_last() =~= index.drop_last());
    } else {
        assert(after.drop_last() =~= index.drop_last().update(page, number));
        numbering_one(index.drop_last(), page, number);
    }
}

proof fn none_numbered(index: Seq<usize>)
    requires
        forall|i: int| 0 <= i < index.len() ==> index[i] == UNVISITED,
    ensures
        unnumbered(index) == index.len(),
    decreases index.len(),
{
    if index.len() > 0 {
        none_numbered(index.drop_last());
    }
}

/// A depth-first walk under way: which pages have been numbered, how far back each is known to
/// reach, which of them wait for their component, and the pages whose links are being walked.
struct Walk {
    index: Vec<usize>,
    low: Vec<usize>,
    on_stack: Vec<bool>,
    waiting: Vec<usize>,
    frames: Vec<(usize, usize)>,
    next: usize,
    largest: usize,
}

impl Walk {
    spec fn on(self, page: int) -> bool {
        0 <= page < self.on_stack.len() && self.on_stack@[page]
    }

    spec fn seen(self, page: int) -> bool {
        0 <= page < self.index.len() && self.index@[page] != UNVISITED
    }

    spec fn num(self, page: int) -> int {
        self.index@[page] as int
    }

    spec fn frame(self, i: int) -> int {
        self.frames@[i].0 as int
    }

    /// The pages whose component is settled.
    spec fn done(self) -> Set<int> {
        Set::new(|page: int| self.seen(page) && !self.on(page))
    }

    /// The numbers, and the pages that wait, in the order of their numbers.
    spec fn numbered(self, out: Seq<Vec<usize>>) -> bool {
        &&& reach::links_inside(out)
        &&& self.index.len() == out.len()
        &&& self.low.len() == out.len()
        &&& self.on_stack.len() == out.len()
        &&& self.next + unnumbered(self.index@) == out.len()
        &&& forall|page: int| #[trigger] self.seen(page) ==> self.num(page) < self.next
        &&& forall|page: int| #[trigger] self.on(page) ==> self.seen(page)
        &&& forall|page: int| #[trigger]
            self.on(page) ==> exists|i: int|
                0 <= i < self.waiting.len() && #[trigger] self.waiting@[i] == page
        &&& forall|i: int|
            0 <= i < self.waiting.len() ==> self.on((#[trigger] self.waiting@[i]) as int)
        &&& forall|i: int, j: int|
            0 <= i < j < self.waiting.len() ==> self.num(#[trigger] self.waiting@[i] as int)
                < self.num(#[trigger] self.waiting@[j] as int)
    }

    /// The frames: pages that wait, each numbered after the one before it.
    spec fn framed(self, out: Seq<Vec<usize>>) -> bool {
        &&& forall|i: int|
            0 <= i < self.frames.len() ==> self.on(#[trigger] self.frame(i)) && self.frames@[i].1
                <= out[self.frame(i)].len()
        &&& forall|i: int, j: int|
            0 <= i < j < self.frames.len() ==> self.num(#[trigger] self.frame(i)) < self.num(
                #[trigger] self.frame(j),
            )
        &&& forall|page: int| #[trigger]
            self.on(page) ==> self.frames.len() > 0 && self.num(self.frame(0)) <= self.num(page)
    }

    /// Whether a page that waits was numbered under frame `i` and under no later one.
    spec fn under(self, i: int, page: int) -> bool {
        &&& 0 <= i < self.frames.len()
        &&& self.on(page)
        &&& self.num(self.frame(i)) <= self.num(page)
        &&& i + 1 < self.frames.len() ==> self.num(page) < self.num(self.frame(i + 1))
    }

    /// Each frame reaches what was numbered after it, and what is under it reaches the frame.
    spec fn connected(self, out: Seq<Vec<usize>>) -> bool {
        &&& forall|i: int, page: int|
            0 <= i < self.frames.len() && #[trigger] self.on(page) && self.num(
                #[trigger] self.frame(i),
            ) <= self.num(page) ==> reach::reaches(out, self.frame(i), page)
        &&& forall|i: int, page: int| #[trigger]
            self.under(i, page) ==> reach::reaches(out, page, self.frame(i))
    }

    /// A link's target that is settled, or no further back than `limit`.
    spec fn met(self, target: int, limit: int) -> bool {
        self.seen(target) && (self.on(target) ==> limit <= self.num(target))
    }

    /// How far back the walked links lead.
    spec fn bounded(self, out: Seq<Vec<usize>>) -> bool {
        &&& forall|i: int, page: int, k: int|
            #![trigger self.under(i, page), out[page]@[k]]
            self.under(i, page) && page != self.frame(i) && 0 <= k < out[page].len() ==> self.met(
                out[page]@[k] as int,
                self.low@[self.frame(i)] as int,
            )
        &&& forall|i: int, k: int|
            #![trigger self.frame(i), out[self.frame(i)]@[k]]
            0 <= i < self.frames.len() && 0 <= k < self.frames@[i].1 ==> self.met(
                out[self.frame(i)]@[k] as int,
                self.low@[self.frame(i)] as int,
            )
        &&& forall|i: int| 0 <= i < self.frames.len() ==> self.backed(out, #[trigger] self.frame(i))
    }

    /// What a page is known to reach furthest back is a page that waits.
    spec fn backed(self, out: Seq<Vec<usize>>, page: int) -> bool {
        &&& self.low@[page] <= self.index@[page]
        &&& exists|back: int| #[trigger]
            self.on(back) && self.num(back) == self.low@[page] && reach::reaches(out, page, back)
    }

    /// The settled pages: no link leaves them, and `largest` is the largest of their components.
    spec fn settled(self, out: Seq<Vec<usize>>) -> bool {
        &&& reach::is_closed(out, self.done())
        &&& forall|page: int|
            self.done().contains(page) ==> (#[trigger] component(out, page)).len() <= self.largest
        &&& self.largest == 0 || exists|page: int|
            self.done().contains(page) && (#[trigger] component(out, page)).len() == self.largest
    }

    spec fn sound(self, out: Seq<Vec<usize>>) -> bool {
        &&& self.numbered(out)
        &&& self.framed(out)
        &&& self.connected(out)
        &&& self.bounded(out)
        &&& self.settled(out)
    }

    /// The links still to walk in the frames, one more for each frame.
    spec fn work(frames: Seq<(usize, usize)>, out: Seq<Vec<usize>>) -> int
        decreases frames.len(),
    {
        if frames.len() == 0 {
            0
        } else {
            Walk::work(frames.drop_last(), out) + out[frames.last().0 as int].len()
                - frames.last().1 + 1
        }
    }

    proof fn work_is_natural(frames: Seq<(usize, usize)>, out: Seq<Vec<usize>>)
        requires
            forall|i: int|
                0 <= i < frames.len() ==> (#[trigger] frames[i]).1 <= out[frames[i].0 as int].len(),
        ensures
            Walk::work(frames, out) >= 0,
        decreases frames.len(),
    {
        if frames.len() > 0 {
            assert(frames.last() == frames[frames.len() - 1]);
            Walk::work_is_natural(frames.drop_last(), out);
        }
    }

    /// Every page that waits is under some frame.
    proof fn under_some(self, out: Seq<Vec<usize>>, page: int, from: int) -> (i: int)
        requires
            self.framed(out),
            self.on(page),
            0 <= from < self.frames.len(),
            self.num(self.frame(from)) <= self.num(page),
        ensures
            self.under(i, page),
        decreases self.frames.len() - from,
    {
        if from + 1 < self.frames.len() && self.num(self.frame(from + 1)) <= self.num(page) {
            self.under_some(out, page, from + 1)
        } else {
            from
        }
    }

    /// Numbers a page and walks its links next.
    fn enter(&mut self, out: &Vec<Vec<usize>>, page: usize)
        requires
            old(self).sound(out@),
            page < out.len(),
            !old(self).seen(page as int),
            old(self).frames.len() > 0 ==> reach::links_to(
                out@,
                old(self).frame(old(self).frames.len() - 1),
                page as int,
            ),
        ensures
            final(self).sound(out@),
            final(self).frames@ == old(self).frames@.push((page, 0usize)),
            unnumbered(final(self).index@) < unnumbered(old(self).index@),
            forall|other: int| old(self).seen(other) ==> final(self).seen(other),
            final(self).seen(page as int),
    {
        let ghost was = *self;
        proof {
            numbering_one(self.index@, page as int, self.next);
        }
        self.index.set(page, self.next);
        self.low.set(page, self.next);
        self.next = self.next + 1;
        self.on_stack.set(page, true);
        self.waiting.push(page);
        self.frames.push((page, 0));
        proof {
            was.entered(*self, out@, page as int);
        }
    }

    proof fn entered(self, now: Walk, out: Seq<Vec<usize>>, page: int)
        requires
            self.sound(out),
            0 <= page < out.len(),
            !self.seen(page),
            self.frames.len() > 0 ==> reach::links_to(
                out,
                self.frame(self.frames.len() - 1),
                page,
            ),
            now.index@ == self.index@.update(page, self.next),
            now.low@ == self.low@.update(page, self.next),
            now.next == self.next + 1,
            self.next < out.len(),
            now.next + unnumbered(now.index@) == out.len(),
            now.on_stack@ == self.on_stack@.update(page, true),
            now.waiting@ == self.waiting@.push(page as usize),
            now.frames@ == self.frames@.push((page as usize, 0usize)),
            now.largest == self.largest,
        ensures
            now.sound(out),
    {
        assert(forall|other: int| other != page ==> now.seen(other) == self.seen(other));
        assert(forall|other: int| other != page ==> now.on(other) == self.on(other));
        assert(now.on(page) && now.seen(page) && now.num(page) == self.next);
        assert(!self.on(page));
        let last = self.frames.len() as int;
        assert(forall|i: int| 0 <= i < last ==> now.frame(i) == self.frame(i));
        assert(now.frame(last) == page);
        assert forall|other: int| #[trigger] now.on(other) implies exists|i: int|
            0 <= i < now.waiting.len() && #[trigger] now.waiting@[i] == other by {
            if other == page {
                assert(now.waiting@[now.waiting.len() - 1] == page);
            } else {
                assert(self.on(other));
                let i = choose|i: int|
                    0 <= i < self.waiting.len() && #[trigger] self.waiting@[i] == other;
                assert(now.waiting@[i] == other);
            }
        }
        assert forall|i: int| 0 <= i < now.waiting.len() implies now.on(
            (#[trigger] now.waiting@[i]) as int,
        ) by {
            if i < self.waiting.len() {
                assert(self.on(self.waiting@[i] as int));
            }
        }
        assert forall|i: int, j: int| 0 <= i < j < now.waiting.len() implies now.num(
            #[trigger] now.waiting@[i] as int,
        ) < now.num(#[trigger] now.waiting@[j] as int) by {
            assert(self.on(self.waiting@[i] as int));
            assert(self.seen(self.waiting@[i] as int));
            if j < self.waiting.len() {
                assert(self.on(self.waiting@[j] as int));
            }
        }
        assert(now.numbered(out));
        assert forall|i: int| 0 <= i < now.frames.len() implies now.on(#[trigger] now.frame(i))
            && now.frames@[i].1 <= out[now.frame(i)].len() by {
            if i < last {
                assert(self.on(self.frame(i)));
            }
        }
        assert forall|i: int, j: int| 0 <= i < j < now.frames.len() implies now.num(
            #[trigger] now.frame(i),
        ) < now.num(#[trigger] now.frame(j)) by {
            assert(self.on(self.frame(i)));
            assert(self.seen(self.frame(i)));
            if j < last {
                assert(self.on(self.frame(j)));
            }
        }
        assert(now.framed(out));
        assert forall|i: int, other: int|
            0 <= i < now.frames.len() && #[trigger] now.on(other) && now.num(
                #[trigger] now.frame(i),
            ) <= now.num(other) implies reach::reaches(out, now.frame(i), other) by {
            if i == last {
                assert(now.num(other) <= self.next);
                if other != page {
                    assert(self.seen(other));
                }
                reach::reaches_itself(out, page);
            } else {
                assert(self.on(self.frame(i)));
                if other == page {
                    let top = self.frame(last - 1);
                    assert(self.on(top));
                    assert(reach::reaches(out, self.frame(i), top));
                    reach::reaches_by_link(out, top, page);
                    reach::reaches_on(out, self.frame(i), top, page);
                } else {
                    assert(self.on(other));
                }
            }
        }
        assert forall|i: int, other: int| #[trigger] now.under(i, other) implies reach::reaches(
            out,
            other,
            now.frame(i),
        ) by {
            if i == last {
                if other != page {
                    assert(self.seen(other));
                }
                reach::reaches_itself(out, page);
            } else {
                assert(self.on(self.frame(i)));
                assert(other != page) by {
                    if other == page {
                        assert(i + 1 < now.frames.len());
                        assert(now.seen(now.frame(i + 1)));
                    }
                }
                assert(self.under(i, other));
            }
        }
        assert(now.connected(out));
        assert forall|i: int, other: int, k: int|
            #![trigger now.under(i, other), out[other]@[k]]
            now.under(i, other) && other != now.frame(i) && 0 <= k < out[other].len() implies now.met(
            out[other]@[k] as int,
            now.low@[now.frame(i)] as int,
        ) by {
            if i == last {
                assert(self.seen(other));
            } else {
                assert(self.on(self.frame(i)));
                assert(other != page) by {
                    if other == page {
                        assert(now.seen(now.frame(i + 1)));
                    }
                }
                assert(self.under(i, other));
                assert(self.met(out[other]@[k] as int, self.low@[self.frame(i)] as int));
            }
        }
        assert forall|i: int, k: int|
            #![trigger now.frame(i), out[now.frame(i)]@[k]]
            0 <= i < now.frames.len() && 0 <= k < now.frames@[i].1 implies now.met(
            out[now.frame(i)]@[k] as int,
            now.low@[now.frame(i)] as int,
        ) by {
            assert(i < last);
            assert(self.on(self.frame(i)));
            assert(self.met(out[self.frame(i)]@[k] as int, self.low@[self.frame(i)] as int));
        }
        assert forall|i: int| 0 <= i < now.frames.len() implies now.backed(
            out,
            #[trigger] now.frame(i),
        ) by {
            if i == last {
                reach::reaches_itself(out, page);
                assert(now.on(page));
            } else {
                assert(self.on(self.frame(i)));
                assert(self.backed(out, self.frame(i)));
                let back = choose|back: int| #[trigger]
                    self.on(back) && self.num(back) == self.low@[self.frame(i)] && reach::reaches(
                        out,
                        self.frame(i),
                        back,
                    );
                assert(now.on(back));
            }
        }
        assert(now.bounded(out));
        assert(now.done() =~= self.done());
        assert(now.settled(out));
    }

    /// Walks one link of the last frame to a page already numbered.
    fn meet(&mut self, out: &Vec<Vec<usize>>)
        requires
            old(self).sound(out@),
            old(self).frames.len() > 0,
            ({
                let top = old(self).frames@.last();
                &&& top.1 < out@[top.0 as int].len()
                &&& old(self).seen(out@[top.0 as int]@[top.1 as int] as int)
            }),
        ensures
            final(self).sound(out@),
            final(self).index@ == old(self).index@,
            final(self).frames@ == old(self).frames@.update(
                old(self).frames.len() - 1,
                (old(self).frames@.last().0, (old(self).frames@.last().1 + 1) as usize),
            ),
    {
        let ghost was = *self;
        let at: usize = self.frames.len() - 1;
        assert(self.on(self.frame(at as int)));
        let (page, step): (usize, usize) = self.frames[at];
        let target: usize = out[page][step];
        self.frames.set(at, (page, step + 1));
        if self.on_stack[target] && self.index[target] < self.low[page] {
            self.low.set(page, self.index[target]);
        }
        proof {
            was.met_target(*self, out@);
        }
    }

    proof fn met_target(self, now: Walk, out: Seq<Vec<usize>>)
        requires
            self.sound(out),
            self.frames.len() > 0,
            ({
                let top = self.frames@.last();
                let target = out[top.0 as int]@[top.1 as int] as int;
                &&& top.1 < out[top.0 as int].len()
                &&& self.seen(target)
                &&& now.low@ == if self.on(target) && self.num(target) < self.low@[top.0 as int] {
                    self.low@.update(top.0 as int, self.index@[target])
                } else {
                    self.low@
                }
                &&& now.frames@ == self.frames@.update(
                    self.frames.len() - 1,
                    (top.0, (top.1 + 1) as usize),
                )
            }),
            now.index@ == self.index@,
            now.next == self.next,
            now.on_stack@ == self.on_stack@,
            now.waiting@ == self.waiting@,
            now.largest == self.largest,
        ensures
            now.sound(out),
    {
        let last = self.frames.len() - 1;
        let page = self.frame(last);
        let step = self.frames@[last].1 as int;
        let target = out[page]@[step] as int;
        assert(self.on(page));
        assert(forall|other: int| now.seen(other) == self.seen(other));
        assert(forall|other: int| now.on(other) == self.on(other));
        assert(forall|i: int| 0 <= i < self.frames.len() ==> now.frame(i) == self.frame(i));
        assert forall|page: int| #[trigger] now.on(page) implies exists|i: int|
            0 <= i < now.waiting.len() && #[trigger] now.waiting@[i] == page by {
            assert(self.on(page));
        }
        assert forall|i: int| 0 <= i < now.waiting.len() implies now.on(
            (#[trigger] now.waiting@[i]) as int,
        ) by {
            assert(self.on(self.waiting@[i] as int));
        }
        assert(now.numbered(out));
        assert forall|i: int| 0 <= i < now.frames.len() implies now.on(#[trigger] now.frame(i))
            && now.frames@[i].1 <= out[now.frame(i)].len() by {
            assert(self.on(self.frame(i)));
        }
        assert forall|i: int, j: int| 0 <= i < j < now.frames.len() implies now.num(
            #[trigger] now.frame(i),
        ) < now.num(#[trigger] now.frame(j)) by {
            assert(self.num(self.frame(i)) < self.num(self.frame(j)));
        }
        assert(now.framed(out));
        assert forall|i: int, other: int| now.under(i, other) == self.under(i, other) by {}
        assert(now.connected(out));
        assert forall|i: int, other: int, k: int|
            #![trigger now.under(i, other), out[other]@[k]]
            now.under(i, other) && other != now.frame(i) && 0 <= k < out[other].len() implies now.met(
            out[other]@[k] as int,
            now.low@[now.frame(i)] as int,
        ) by {
            assert(self.under(i, other));
            assert(self.met(out[other]@[k] as int, self.low@[self.frame(i)] as int));
            assert(now.low@[now.frame(i)] <= self.low@[self.frame(i)]);
        }
        assert forall|i: int, k: int|
            #![trigger now.frame(i), out[now.frame(i)]@[k]]
            0 <= i < now.frames.len() && 0 <= k < now.frames@[i].1 implies now.met(
            out[now.frame(i)]@[k] as int,
            now.low@[now.frame(i)] as int,
        ) by {
            assert(now.low@[now.frame(i)] <= self.low@[self.frame(i)]);
            if i == last && k == step {
                assert(now.met(target, now.low@[page] as int));
            } else {
                assert(self.met(out[self.frame(i)]@[k] as int, self.low@[self.frame(i)] as int));
            }
        }
        assert forall|i: int| 0 <= i < now.frames.len() implies now.backed(
            out,
            #[trigger] now.frame(i),
        ) by {
            assert(self.backed(out, self.frame(i)));
            if now.low@[now.frame(i)] == self.low@[self.frame(i)] {
                let back = choose|back: int| #[trigger]
                    self.on(back) && self.num(back) == self.low@[self.frame(i)] && reach::reaches(
                        out,
                        self.frame(i),
                        back,
                    );
                assert(now.on(back));
            } else {
                assert(self.frame(i) == page);
                assert(reach::links_to(out, page, target));
                reach::reaches_by_link(out, page, target);
                assert(now.on(target));
            }
        }
        assert(now.bounded(out));
        assert(now.done() =~= self.done());
        assert(now.settled(out));
    }

    /// The component of the last frame's page, once nothing walked from it leads further back:
    /// the pages that wait from `at` on, `at` being where the page waits.
    proof fn component_found(self, out: Seq<Vec<usize>>, at: int)
        requires
            self.sound(out),
            self.frames.len() > 0,
            self.frames@.last().1 == out[self.frames@.last().0 as int].len(),
            self.low@[self.frames@.last().0 as int] == self.index@[self.frames@.last().0 as int],
            0 <= at < self.waiting.len(),
            self.waiting@[at] == self.frames@.last().0,
        ensures
            forall|i: int|
                at <= i < self.waiting.len() ==> (#[trigger] component(
                    out,
                    self.waiting@[i] as int,
                )).len() == self.waiting.len() - at,
            reach::is_closed(
                out,
                Set::new(
                    |page: int|
                        self.seen(page) && (self.on(page) ==> self.num(self.waiting@[at] as int)
                            <= self.num(page)),
                ),
            ),
    {
        let last = self.frames.len() - 1;
        let page = self.frame(last);
        assert(self.on(page));
        let region = Set::new(
            |other: int|
                self.seen(other) && (self.on(other) ==> self.num(page) <= self.num(other)),
        );
        assert forall|other: int, target: int|
            region.contains(other) && #[trigger] reach::links_to(
                out,
                other,
                target,
            ) implies region.contains(target) by {
            let k = choose|k: int|
                0 <= k < out[other].len() && #[trigger] out[other]@[k] == target;
            if self.on(other) {
                assert(self.under(last, other));
                if other == page {
                    assert(self.met(out[self.frame(last)]@[k] as int, self.low@[page] as int));
                } else {
                    assert(self.met(out[other]@[k] as int, self.low@[page] as int));
                }
            } else {
                assert(self.done().contains(other));
                assert(self.done().contains(target));
            }
        }
        assert(reach::is_closed(out, region));
        let members = Seq::new(
            (self.waiting.len() - at) as nat,
            |i: int| self.waiting@[at + i] as int,
        );
        assert forall|i: int, j: int|
            0 <= i < members.len() && 0 <= j < members.len() && i != j implies members[i]
            != members[j] by {
            if i < j {
                assert(self.num(self.waiting@[at + i] as int) < self.num(
                    self.waiting@[at + j] as int,
                ));
            } else {
                assert(self.num(self.waiting@[at + j] as int) < self.num(
                    self.waiting@[at + i] as int,
                ));
            }
        }
        assert(members.no_duplicates());
        members.unique_seq_to_set();
        assert forall|i: int| 0 <= i < members.len() implies self.under(
            last,
            #[trigger] members[i],
        ) && reach::reaches(out, page, members[i]) && reach::reaches(out, members[i], page) by {
            assert(self.on(self.waiting@[at + i] as int));
            if i > 0 {
                assert(self.num(self.waiting@[at] as int) < self.num(self.waiting@[at + i] as int));
            }
            assert(self.num(self.frame(last)) <= self.num(members[i]));
        }
        assert forall|i: int| at <= i < self.waiting.len() implies (#[trigger] component(
            out,
            self.waiting@[i] as int,
        )) =~= members.to_set() by {
            let one = self.waiting@[i] as int;
            assert(members[i - at] == one);
            assert forall|other: int| component(out, one).contains(other) implies members.to_set()
                .contains(other) by {
                reach::reaches_on(out, page, one, other);
                reach::reaches_on(out, other, one, page);
                assert(region.contains(page));
                reach::closed_keeps(out, region, page, other);
                if !self.on(other) {
                    assert(self.done().contains(other));
                    reach::closed_keeps(out, self.done(), other, page);
                    assert(false);
                }
                let j = choose|j: int|
                    0 <= j < self.waiting.len() && #[trigger] self.waiting@[j] == other;
                if j < at {
                    assert(self.num(self.waiting@[j] as int) < self.num(self.waiting@[at] as int));
                }
                assert(members[j - at] == other);
            }
            assert forall|other: int| members.to_set().contains(other) implies component(
                out,
                one,
            ).contains(other) by {
                let j = choose|j: int| 0 <= j < members.len() && members[j] == other;
                assert(self.under(last, members[j]));
                reach::reaches_on(out, one, page, other);
                reach::reaches_on(out, other, page, one);
            }
        }
    }

    proof fn closed_component(self, now: Walk, out: Seq<Vec<usize>>, at: int)
        requires
            self.sound(out),
            self.frames.len() > 0,
            self.frames@.last().1 == out[self.frames@.last().0 as int].len(),
            self.low@[self.frames@.last().0 as int] == self.index@[self.frames@.last().0 as int],
            0 <= at < self.waiting.len(),
            self.waiting@[at] == self.frames@.last().0,
            now.index@ == self.index@,
            now.low@ == self.low@,
            now.next == self.next,
            now.on_stack.len() == self.on_stack.len(),
            forall|page: int| #[trigger] now.on(page) ==> self.on(page),
            forall|i: int|
                0 <= i < self.waiting.len() ==> now.on(#[trigger] self.waiting@[i] as int) == (i
                    < at),
            now.waiting@ == self.waiting@.take(at),
            now.frames@ == self.frames@.drop_last(),
            now.largest == if self.largest < self.waiting.len() - at {
                (self.waiting.len() - at) as usize
            } else {
                self.largest
            },
        ensures
            now.sound(out),
    {
        self.component_found(out, at);
        let last = self.frames.len() - 1;
        let page = self.frame(last);
        assert(self.on(page));
        assert(forall|other: int| now.seen(other) == self.seen(other));
        assert(forall|i: int| 0 <= i < last ==> now.frame(i) == self.frame(i));
        assert forall|other: int| #[trigger] now.on(other) == (self.on(other) && self.num(other)
            < self.num(page)) by {
            if self.on(other) {
                let i = choose|i: int|
                    0 <= i < self.waiting.len() && #[trigger] self.waiting@[i] == other;
                assert(self.waiting@[i] == other);
                if i < at {
                    assert(self.num(self.waiting@[i] as int) < self.num(self.waiting@[at] as int));
                }
                if i > at {
                    assert(self.num(self.waiting@[at] as int) < self.num(self.waiting@[i] as int));
                }
            }
        }
        assert forall|other: int| #[trigger] now.on(other) implies exists|i: int|
            0 <= i < now.waiting.len() && #[trigger] now.waiting@[i] == other by {
            assert(self.on(other));
            let i = choose|i: int|
                0 <= i < self.waiting.len() && #[trigger] self.waiting@[i] == other;
            assert(now.on(self.waiting@[i] as int) == (i < at));
            assert(now.waiting@[i] == other);
        }
        assert forall|i: int, j: int| 0 <= i < j < now.waiting.len() implies now.num(
            #[trigger] now.waiting@[i] as int,
        ) < now.num(#[trigger] now.waiting@[j] as int) by {
            assert(self.num(self.waiting@[i] as int) < self.num(self.waiting@[j] as int));
        }
        assert forall|i: int| 0 <= i < now.waiting.len() implies now.on(
            (#[trigger] now.waiting@[i]) as int,
        ) by {
            assert(now.on(self.waiting@[i] as int) == (i < at));
        }
        assert(now.numbered(out));
        assert forall|i: int| 0 <= i < now.frames.len() implies now.on(#[trigger] now.frame(i))
            && now.frames@[i].1 <= out[now.frame(i)].len() by {
            assert(self.on(self.frame(i)));
            assert(self.num(self.frame(i)) < self.num(self.frame(last)));
        }
        assert forall|i: int, j: int| 0 <= i < j < now.frames.len() implies now.num(
            #[trigger] now.frame(i),
        ) < now.num(#[trigger] now.frame(j)) by {
            assert(self.num(self.frame(i)) < self.num(self.frame(j)));
        }
        assert forall|other: int| #[trigger] now.on(other) implies now.frames.len() > 0 && now.num(
            now.frame(0),
        ) <= now.num(other) by {
            assert(self.on(other));
            if last == 0 {
                assert(self.num(self.frame(0)) <= self.num(other));
            }
        }
        assert(now.framed(out));
        assert forall|i: int, other: int| now.under(i, other) implies #[trigger] self.under(
            i,
            other,
        ) by {}
        assert forall|i: int, other: int| #[trigger] now.under(i, other) implies reach::reaches(
            out,
            other,
            now.frame(i),
        ) by {
            assert(self.under(i, other));
        }
        assert(now.connected(out));
        assert forall|i: int, other: int, k: int|
            #![trigger now.under(i, other), out[other]@[k]]
            now.under(i, other) && other != now.frame(i) && 0 <= k < out[other].len() implies now.met(
            out[other]@[k] as int,
            now.low@[now.frame(i)] as int,
        ) by {
            assert(self.under(i, other));
            assert(self.met(out[other]@[k] as int, self.low@[self.frame(i)] as int));
        }
        assert forall|i: int, k: int|
            #![trigger now.frame(i), out[now.frame(i)]@[k]]
            0 <= i < now.frames.len() && 0 <= k < now.frames@[i].1 implies now.met(
            out[now.frame(i)]@[k] as int,
            now.low@[now.frame(i)] as int,
        ) by {
            assert(self.met(out[self.frame(i)]@[k] as int, self.low@[self.frame(i)] as int));
        }
        assert forall|i: int| 0 <= i < now.frames.len() implies now.backed(
            out,
            #[trigger] now.frame(i),
        ) by {
            assert(self.backed(out, self.frame(i)));
            let back = choose|back: int| #[trigger]
                self.on(back) && self.num(back) == self.low@[self.frame(i)] && reach::reaches(
                    out,
                    self.frame(i),
                    back,
                );
            assert(self.num(self.frame(i)) < self.num(self.frame(last)));
            assert(now.on(back));
        }
        assert(now.bounded(out));
        assert(now.done() =~= Set::new(
            |other: int|
                self.seen(other) && (self.on(other) ==> self.num(self.waiting@[at] as int)
                    <= self.num(other)),
        ));
        assert forall|other: int| now.done().contains(other) implies (#[trigger] component(
            out,
            other,
        )).len() <= now.largest by {
            if self.on(other) {
                let i = choose|i: int|
                    0 <= i < self.waiting.len() && #[trigger] self.waiting@[i] == other;
                assert(now.on(self.waiting@[i] as int) == (i < at));
                assert(component(out, self.waiting@[i] as int).len() == self.waiting.len() - at);
            } else {
                assert(self.done().contains(other));
            }
        }
        if now.largest == self.largest {
            if self.largest != 0 {
                let other = choose|other: int|
                    self.done().contains(other) && (#[trigger] component(out, other)).len()
                        == self.largest;
                assert(now.done().contains(other) && component(out, other).len() == now.largest);
            }
        } else {
            assert(component(out, self.waiting@[at] as int).len() == self.waiting.len() - at);
            assert(now.on(self.waiting@[at] as int) == (at < at));
            assert(now.done().contains(page) && component(out, page).len() == now.largest);
        }
        assert(now.settled(out));
    }

    #[verifier::rlimit(60)]
    #[verifier::spinoff_prover]
    proof fn merged_component(self, now: Walk, out: Seq<Vec<usize>>)
        requires
            self.sound(out),
            self.frames.len() > 1,
            self.frames@.last().1 == out[self.frames@.last().0 as int].len(),
            self.low@[self.frames@.last().0 as int] < self.index@[self.frames@.last().0 as int],
            now.index@ == self.index@,
            now.next == self.next,
            now.on_stack@ == self.on_stack@,
            now.waiting@ == self.waiting@,
            now.frames@ == self.frames@.drop_last(),
            ({
                let page = self.frames@.last().0 as int;
                let parent = self.frames@[self.frames.len() - 2].0 as int;
                now.low@ == if self.low@[page] < self.low@[parent] {
                    self.low@.update(parent, self.low@[page])
                } else {
                    self.low@
                }
            }),
            now.largest == self.largest,
        ensures
            now.sound(out),
    {
        let last = self.frames.len() - 1;
        let page = self.frame(last);
        let parent = self.frame(last - 1);
        assert(self.on(page) && self.on(parent));
        assert(self.num(parent) < self.num(page));
        assert(forall|other: int| now.seen(other) == self.seen(other));
        assert(forall|other: int| now.on(other) == self.on(other));
        assert(forall|i: int| 0 <= i < last ==> now.frame(i) == self.frame(i));
        assert forall|page: int| #[trigger] now.on(page) implies exists|i: int|
            0 <= i < now.waiting.len() && #[trigger] now.waiting@[i] == page by {
            assert(self.on(page));
        }
        assert forall|i: int| 0 <= i < now.waiting.len() implies now.on(
            (#[trigger] now.waiting@[i]) as int,
        ) by {
            assert(self.on(self.waiting@[i] as int));
        }
        assert(now.numbered(out));
        assert forall|i: int| 0 <= i < now.frames.len() implies now.on(#[trigger] now.frame(i))
            && now.frames@[i].1 <= out[now.frame(i)].len() by {
            assert(self.on(self.frame(i)));
        }
        assert forall|i: int, j: int| 0 <= i < j < now.frames.len() implies now.num(
            #[trigger] now.frame(i),
        ) < now.num(#[trigger] now.frame(j)) by {
            assert(self.num(self.frame(i)) < self.num(self.frame(j)));
        }
        assert(now.framed(out));
        assert(self.backed(out, self.frame(last)));
        let back = choose|back: int| #[trigger]
            self.on(back) && self.num(back) == self.low@[page] && reach::reaches(out, page, back);
        assert(reach::reaches(out, page, parent)) by {
            let j = self.under_some(out, back, 0);
            assert(j < last);
            assert(reach::reaches(out, back, self.frame(j)));
            assert(self.num(self.frame(j)) <= self.num(self.frame(last - 1)));
            assert(reach::reaches(out, self.frame(j), parent));
            reach::reaches_on(out, page, back, self.frame(j));
            reach::reaches_on(out, page, self.frame(j), parent);
        }
        assert forall|i: int, other: int| #[trigger] now.under(i, other) implies self.under(
            i,
            other,
        ) || (i == last - 1 && self.under(last, other)) by {}
        assert forall|i: int, other: int| #[trigger] now.under(i, other) implies reach::reaches(
            out,
            other,
            now.frame(i),
        ) by {
            if !self.under(i, other) {
                assert(self.under(last, other));
                reach::reaches_on(out, other, page, parent);
            }
        }
        assert(now.connected(out));
        assert forall|i: int, other: int, k: int|
            #![trigger now.under(i, other), out[other]@[k]]
            now.under(i, other) && other != now.frame(i) && 0 <= k < out[other].len() implies now.met(
            out[other]@[k] as int,
            now.low@[now.frame(i)] as int,
        ) by {
            if self.under(i, other) {
                assert(self.met(out[other]@[k] as int, self.low@[self.frame(i)] as int));
            } else {
                assert(self.under(last, other));
                if other == page {
                    assert(self.met(out[self.frame(last)]@[k] as int, self.low@[page] as int));
                } else {
                    assert(self.met(out[other]@[k] as int, self.low@[page] as int));
                }
            }
        }
        assert forall|i: int, k: int|
            #![trigger now.frame(i), out[now.frame(i)]@[k]]
            0 <= i < now.frames.len() && 0 <= k < now.frames@[i].1 implies now.met(
            out[now.frame(i)]@[k] as int,
            now.low@[now.frame(i)] as int,
        ) by {
            assert(self.met(out[self.frame(i)]@[k] as int, self.low@[self.frame(i)] as int));
        }
        assert forall|i: int| 0 <= i < now.frames.len() implies now.backed(
            out,
            #[trigger] now.frame(i),
        ) by {
            assert(self.backed(out, self.frame(i)));
            if now.low@[now.frame(i)] == self.low@[self.frame(i)] {
                let one = choose|one: int| #[trigger]
                    self.on(one) && self.num(one) == self.low@[self.frame(i)] && reach::reaches(
                        out,
                        self.frame(i),
                        one,
                    );
                assert(now.on(one));
            } else {
                assert(self.frame(i) == parent);
                assert(reach::reaches(out, parent, page));
                reach::reaches_on(out, parent, page, back);
                assert(now.on(back));
            }
        }
        assert(now.bounded(out));
        assert(now.done() =~= self.done());
        assert(now.settled(out));
    }

    /// Takes off the pages that wait, down to `page`, and counts them.
    fn gather(&mut self, page: usize, Ghost(at): Ghost<int>) -> (size: usize)
        requires
            0 <= at < old(self).waiting.len(),
            old(self).waiting@[at] == page,
            forall|i: int|
                0 <= i < old(self).waiting.len() ==> (#[trigger] old(self).waiting@[i])
                    < old(self).on_stack.len(),
            old(self).waiting@.no_duplicates(),
            forall|i: int|
                0 <= i < old(self).waiting.len() ==> old(self).on(
                    #[trigger] old(self).waiting@[i] as int,
                ),
        ensures
            size == old(self).waiting.len() - at,
            final(self).waiting@ == old(self).waiting@.take(at),
            final(self).on_stack.len() == old(self).on_stack.len(),
            forall|page: int| #[trigger] final(self).on(page) ==> old(self).on(page),
            forall|i: int|
                0 <= i < old(self).waiting.len() ==> final(self).on(
                    #[trigger] old(self).waiting@[i] as int,
                ) == (i < at),
            final(self).index@ == old(self).index@,
            final(self).low@ == old(self).low@,
            final(self).frames@ == old(self).frames@,
            final(self).next == old(self).next,
            final(self).largest == old(self).largest,
    {
        let ghost was = *self;
        let mut size: usize = 0;
        while self.waiting[self.waiting.len() - 1] != page
            invariant
                0 <= at < self.waiting.len(),
                was.waiting@[at] == page,
                size == was.waiting.len() - self.waiting.len(),
                self.waiting@ == was.waiting@.take(self.waiting.len() as int),
                was.waiting@.no_duplicates(),
                self.on_stack.len() == was.on_stack.len(),
                forall|i: int|
                    0 <= i < was.waiting.len() ==> (#[trigger] was.waiting@[i])
                        < was.on_stack.len(),
                forall|page: int| #[trigger] self.on(page) ==> was.on(page),
                forall|i: int|
                    0 <= i < was.waiting.len() ==> self.on(#[trigger] was.waiting@[i] as int) == (i
                        < self.waiting.len()),
                self.index@ == was.index@,
                self.low@ == was.low@,
                self.frames@ == was.frames@,
                self.next == was.next,
                self.largest == was.largest,
            decreases self.waiting.len(),
        {
            let ghost before = *self;
            let last: usize = self.waiting.len() - 1;
            let member: usize = self.waiting[last];
            assert(was.waiting@[last as int] == member);
            self.waiting.truncate(last);
            self.on_stack.set(member, false);
            size += 1;
            assert(forall|page: int| #[trigger] self.on(page) ==> before.on(page));
            assert forall|i: int| 0 <= i < was.waiting.len() implies self.on(
                #[trigger] was.waiting@[i] as int,
            ) == (i < self.waiting.len()) by {
                assert(before.on(was.waiting@[i] as int) == (i < before.waiting.len()));
            }
        }
        let ghost before = *self;
        let last: usize = self.waiting.len() - 1;
        assert(was.waiting@[last as int] == page);
        assert(last == at);
        self.waiting.truncate(last);
        self.on_stack.set(page, false);
        assert(forall|page: int| #[trigger] self.on(page) ==> before.on(page));
        assert forall|i: int| 0 <= i < was.waiting.len() implies self.on(
            #[trigger] was.waiting@[i] as int,
        ) == (i < at) by {
            assert(before.on(was.waiting@[i] as int) == (i < before.waiting.len()));
        }
        size + 1
    }

    /// Leaves the last frame, all of its links walked: its page heads a component when nothing
    /// under it reaches further back than the page itself.
    fn leave(&mut self, out: &Vec<Vec<usize>>)
        requires
            old(self).sound(out@),
            old(self).frames.len() > 0,
            old(self).frames@.last().1 == out@[old(self).frames@.last().0 as int].len(),
        ensures
            final(self).sound(out@),
            final(self).index@ == old(self).index@,
            final(self).frames@ == old(self).frames@.drop_last(),
    {
        let ghost was = *self;
        let at: usize = self.frames.len() - 1;
        let page: usize = self.frames[at].0;
        assert(self.frame(at as int) == page);
        assert(self.on(page as int));
        assert(self.backed(out@, self.frame(at as int)));
        if self.low[page] == self.index[page] {
            let ghost place = choose|i: int|
                0 <= i < self.waiting.len() && #[trigger] self.waiting@[i] == page;
            assert(self.waiting@.no_duplicates()) by {
                assert forall|i: int, j: int|
                    0 <= i < self.waiting.len() && 0 <= j < self.waiting.len() && i
                        != j implies self.waiting@[i] != self.waiting@[j] by {
                    if i < j {
                        assert(self.num(self.waiting@[i] as int) < self.num(self.waiting@[j] as int));
                    } else {
                        assert(self.num(self.waiting@[j] as int) < self.num(self.waiting@[i] as int));
                    }
                }
            }
            assert forall|i: int| 0 <= i < self.waiting.len() implies (#[trigger] self.waiting@[i])
                < self.on_stack.len() by {
                assert(self.on(self.waiting@[i] as int));
            }
            let size: usize = self.gather(page, Ghost(place));
            let ghost gathered = *self;
            if self.largest < size {
                self.largest = size;
            }
            self.frames.truncate(at);
            proof {
                assert(self.frames@ =~= was.frames@.drop_last());
                assert forall|page: int| #[trigger] self.on(page) == gathered.on(page) by {}
                was.closed_component(*self, out@, place);
            }
        } else {
            proof {
                let back = choose|back: int| #[trigger]
                    self.on(back) && self.num(back) == self.low@[page as int] && reach::reaches(
                        out@,
                        page as int,
                        back,
                    );
                assert(self.num(self.frame(0)) <= self.num(back));
                assert(self.on(self.frame(0)));
            }
            let parent: usize = self.frames[at - 1].0;
            assert(self.on(self.frame(at - 1)));
            if self.low[page] < self.low[parent] {
                self.low.set(parent, self.low[page]);
            }
            self.frames.truncate(at);
            proof {
                assert(self.frames@ =~= was.frames@.drop_last());
                was.merged_component(*self, out@);
            }
        }
    }
}

/// The largest strongly connected component, in pages: Tarjan's algorithm with its own stack
/// rather than the call stack, so a long chain of pages is a deep component and not a crash.
pub fn largest_scc(out: &Vec<Vec<usize>>) -> (size: usize)
    requires
        reach::links_inside(out@),
    ensures
        is_largest(out@, size as nat),
{
    let n: usize = out.len();
    let mut index: Vec<usize> = Vec::new();
    let mut low: Vec<usize> = Vec::new();
    let mut on_stack: Vec<bool> = Vec::new();
    for i in 0..n
        invariant
            index.len() == i,
            low.len() == i,
            on_stack.len() == i,
            forall|k: int| 0 <= k < i ==> index@[k] == UNVISITED && !on_stack@[k],
    {
        index.push(UNVISITED);
        low.push(0);
        on_stack.push(false);
    }
    proof {
        none_numbered(index@);
    }
    let mut walk = Walk {
        index,
        low,
        on_stack,
        waiting: Vec::new(),
        frames: Vec::new(),
        next: 0,
        largest: 0,
    };
    assert(walk.sound(out@));
    for root in 0..n
        invariant
            n == out.len(),
            walk.sound(out@),
            walk.frames.len() == 0,
            forall|page: int| 0 <= page < root ==> walk.seen(page),
    {
        if walk.index[root] == UNVISITED {
            walk.enter(out, root);
            while walk.frames.len() > 0
                invariant
                    n == out.len(),
                    walk.sound(out@),
                    forall|page: int| 0 <= page <= root ==> walk.seen(page),
                decreases unnumbered(walk.index@), Walk::work(walk.frames@, out@),
            {
                let ghost was = walk;
                let at: usize = walk.frames.len() - 1;
                let (page, step): (usize, usize) = walk.frames[at];
                assert(walk.frame(at as int) == page);
                assert(walk.on(page as int));
                proof {
                    assert forall|i: int| 0 <= i < at implies (#[trigger] walk.frames@.drop_last()[i]).1
                        <= out@[walk.frames@.drop_last()[i].0 as int].len() by {
                        assert(walk.on(walk.frame(i)));
                    }
                    Walk::work_is_natural(walk.frames@.drop_last(), out@);
                }
                if step < out[page].len() {
                    let target: usize = out[page][step];
                    if walk.index[target] == UNVISITED {
                        assert(reach::links_to(out@, page as int, target as int));
                        walk.enter(out, target);
                    } else {
                        walk.meet(out);
                        assert(walk.frames@.drop_last() =~= was.frames@.drop_last());
                        assert(forall|page: int| was.seen(page) ==> walk.seen(page));
                    }
                } else {
                    walk.leave(out);
                    assert(forall|page: int| was.seen(page) ==> walk.seen(page));
                }
            }
        }
    }
    proof {
        assert forall|page: int| 0 <= page < out.len() implies walk.done().contains(page) by {
            assert(!walk.on(page));
        }
        if out.len() > 0 {
            if walk.largest == 0 {
                assert(walk.done().contains(0));
                reach::reaches_itself(out@, 0);
                assert(component(out@, 0).contains(0));
                assert(component(out@, 0).len() <= 0);
                component_is_finite(out@, 0);
                assert(component(out@, 0).len() != 0);
            }
        } else {
            if walk.largest != 0 {
                let page = choose|page: int|
                    walk.done().contains(page) && (#[trigger] component(out@, page)).len()
                        == walk.largest;
                assert(walk.seen(page));
            }
        }
    }
    walk.largest
}

proof fn component_is_finite(out: Seq<Vec<usize>>, page: int)
    ensures
        component(out, page).finite(),
{
    vstd::set_lib::lemma_int_range(0, out.len() as int);
    assert(component(out, page).subset_of(vstd::set_lib::set_int_range(0, out.len() as int)));
    vstd::set_lib::lemma_set_subset_finite(
        vstd::set_lib::set_int_range(0, out.len() as int),
        component(out, page),
    );
}

/// No set of pages that all reach each other is larger than the largest component.
pub proof fn no_larger_set_is_connected(out: Seq<Vec<usize>>, size: nat, pages: Set<int>)
    requires
        is_largest(out, size),
        forall|page: int| #[trigger] pages.contains(page) ==> 0 <= page < out.len(),
        forall|a: int, b: int| #[trigger]
            pages.contains(a) && #[trigger] pages.contains(b) ==> reach::reaches(out, a, b),
    ensures
        pages.finite(),
        pages.len() <= size,
{
    if exists|page: int| pages.contains(page) {
        let page = choose|page: int| pages.contains(page);
        component_is_finite(out, page);
        assert(pages.subset_of(component(out, page)));
        vstd::set_lib::lemma_len_subset(pages, component(out, page));
    } else {
        assert(pages =~= Set::<int>::empty());
    }
}

/// Only a wiki without pages has no component.
pub proof fn a_page_is_a_component(out: Seq<Vec<usize>>, size: nat)
    requires
        is_largest(out, size),
    ensures
        size == 0 <==> out.len() == 0,
{
    if out.len() > 0 {
        reach::reaches_itself(out, 0);
        component_is_finite(out, 0);
        assert(component(out, 0).contains(0));
        assert(component(out, 0).len() > 0);
    }
}

/// Pages under other numbers: `to` gives the new number of each, and `back` the old one.
pub open spec fn renumbers(to: Seq<int>, back: Seq<int>, n: nat) -> bool {
    &&& to.len() == n
    &&& back.len() == n
    &&& forall|i: int| 0 <= i < n ==> 0 <= #[trigger] to[i] < n && back[to[i]] == i
    &&& forall|i: int| 0 <= i < n ==> 0 <= #[trigger] back[i] < n && to[back[i]] == i
}

proof fn renumbered_reach(
    out: Seq<Vec<usize>>,
    other: Seq<Vec<usize>>,
    to: Seq<int>,
    back: Seq<int>,
    a: int,
    b: int,
)
    requires
        out.len() == other.len(),
        renumbers(to, back, out.len()),
        forall|a: int, b: int|
            0 <= a < out.len() && 0 <= b < out.len() && #[trigger] reach::links_to(out, a, b)
                ==> reach::links_to(other, to[a], to[b]),
        reach::reaches(out, a, b),
    ensures
        reach::reaches(other, to[a], to[b]),
{
    let chain = choose|chain: Seq<int>| #[trigger]
        reach::is_chain(out, chain) && chain[0] == a && chain.last() == b;
    let image = chain.map_values(|page: int| to[page]);
    assert forall|i: int| 0 <= i < image.len() implies 0 <= #[trigger] image[i] < other.len() by {
        assert(image[i] == to[chain[i]]);
    }
    assert forall|i: int| 0 <= i < image.len() - 1 implies reach::links_to(
        other,
        #[trigger] image[i],
        image[i + 1],
    ) by {
        assert(reach::links_to(out, chain[i], chain[i + 1]));
        assert(image[i] == to[chain[i]] && image[i + 1] == to[chain[i + 1]]);
    }
    assert(reach::is_chain(other, image));
    assert(image[0] == to[a] && image.last() == to[b]);
}

proof fn renumbered_component(
    out: Seq<Vec<usize>>,
    other: Seq<Vec<usize>>,
    to: Seq<int>,
    back: Seq<int>,
    page: int,
)
    requires
        0 <= page < out.len(),
        is_renumbered(out, other, to, back),
    ensures
        component(out, page).len() == component(other, to[page]).len(),
{
    let (mine, theirs) = (component(out, page), component(other, to[page]));
    let f = |page: int| to[page];
    component_is_finite(out, page);
    renumbered_back(out, other, to, back);
    assert(mine.map(f) =~= theirs) by {
        assert forall|x: int| mine.map(f).contains(x) == theirs.contains(x) by {
            if mine.map(f).contains(x) {
                let y = choose|y: int| mine.contains(y) && f(y) == x;
                renumbered_reach(out, other, to, back, page, y);
                renumbered_reach(out, other, to, back, y, page);
            }
            if theirs.contains(x) {
                let y = back[x];
                renumbered_reach(other, out, back, to, to[page], x);
                renumbered_reach(other, out, back, to, x, to[page]);
                assert(back[to[page]] == page);
                assert(mine.contains(y) && f(y) == x);
            }
        }
    }
    assert(vstd::relations::injective_on(f, mine)) by {
        assert forall|x: int, y: int|
            mine.contains(x) && mine.contains(y) && #[trigger] f(x) == #[trigger] f(y) implies x
            == y by {
            assert(back[to[x]] == x && back[to[y]] == y);
        }
    }
    vstd::set_lib::lemma_map_size(mine, theirs, f);
}

/// Links between the same pages under other numbers.
pub open spec fn is_renumbered(
    out: Seq<Vec<usize>>,
    other: Seq<Vec<usize>>,
    to: Seq<int>,
    back: Seq<int>,
) -> bool {
    &&& out.len() == other.len()
    &&& renumbers(to, back, out.len())
    &&& forall|a: int, b: int|
        0 <= a < out.len() && 0 <= b < out.len() ==> #[trigger] reach::links_to(out, a, b)
            == reach::links_to(other, to[a], to[b])
}

proof fn renumbered_back(
    out: Seq<Vec<usize>>,
    other: Seq<Vec<usize>>,
    to: Seq<int>,
    back: Seq<int>,
)
    requires
        is_renumbered(out, other, to, back),
    ensures
        is_renumbered(other, out, back, to),
{
    assert forall|a: int, b: int| 0 <= a < other.len() && 0 <= b < other.len() implies
        #[trigger] reach::links_to(other, a, b) == reach::links_to(out, back[a], back[b]) by {
        assert(to[back[a]] == a && to[back[b]] == b);
        assert(reach::links_to(out, back[a], back[b]) == reach::links_to(
            other,
            to[back[a]],
            to[back[b]],
        ));
    }
}

proof fn largest_renumbered(
    out: Seq<Vec<usize>>,
    other: Seq<Vec<usize>>,
    to: Seq<int>,
    back: Seq<int>,
    size: nat,
)
    requires
        is_renumbered(out, other, to, back),
        is_largest(out, size),
    ensures
        is_largest(other, size),
{
    assert forall|page: int| 0 <= page < other.len() implies (#[trigger] component(
        other,
        page,
    )).len() <= size by {
        renumbered_component(out, other, to, back, back[page]);
        assert(to[back[page]] == page);
        assert(component(out, back[page]).len() <= size);
    }
    if out.len() > 0 {
        let page = choose|page: int|
            0 <= page < out.len() && (#[trigger] component(out, page)).len() == size;
        renumbered_component(out, other, to, back, page);
        assert(component(other, to[page]).len() == size);
    }
}

/// The numbers of the pages say nothing: under others, the largest component is as large.
pub proof fn numbers_say_nothing(
    out: Seq<Vec<usize>>,
    other: Seq<Vec<usize>>,
    to: Seq<int>,
    back: Seq<int>,
    size: nat,
)
    requires
        is_renumbered(out, other, to, back),
    ensures
        is_largest(out, size) == is_largest(other, size),
{
    renumbered_back(out, other, to, back);
    if is_largest(out, size) {
        largest_renumbered(out, other, to, back, size);
    }
    if is_largest(other, size) {
        largest_renumbered(other, out, back, to, size);
    }
}

/// The same links, each the other way.
pub open spec fn is_reversed(out: Seq<Vec<usize>>, other: Seq<Vec<usize>>) -> bool {
    &&& out.len() == other.len()
    &&& forall|a: int, b: int|
        0 <= a < out.len() && 0 <= b < out.len() ==> #[trigger] reach::links_to(out, a, b)
            == reach::links_to(other, b, a)
}

proof fn reversed_reach(out: Seq<Vec<usize>>, other: Seq<Vec<usize>>, a: int, b: int)
    requires
        out.len() == other.len(),
        forall|a: int, b: int|
            0 <= a < out.len() && 0 <= b < out.len() && #[trigger] reach::links_to(out, a, b)
                ==> reach::links_to(other, b, a),
        reach::reaches(out, a, b),
    ensures
        reach::reaches(other, b, a),
{
    let chain = choose|chain: Seq<int>| #[trigger]
        reach::is_chain(out, chain) && chain[0] == a && chain.last() == b;
    let back = chain.reverse();
    let n = chain.len();
    assert forall|i: int| 0 <= i < back.len() implies 0 <= #[trigger] back[i] < other.len() by {
        assert(back[i] == chain[n - 1 - i]);
    }
    assert forall|i: int| 0 <= i < back.len() - 1 implies reach::links_to(
        other,
        #[trigger] back[i],
        back[i + 1],
    ) by {
        let k = n - 2 - i;
        assert(reach::links_to(out, chain[k], chain[k + 1]));
        assert(back[i] == chain[k + 1] && back[i + 1] == chain[k]);
    }
    assert(reach::is_chain(other, back));
    assert(back[0] == b && back.last() == a);
}

proof fn reversed_component(out: Seq<Vec<usize>>, other: Seq<Vec<usize>>, page: int)
    requires
        is_reversed(out, other),
    ensures
        component(out, page) == component(other, page),
{
    let (mine, theirs) = (component(out, page), component(other, page));
    assert forall|x: int| mine.contains(x) == theirs.contains(x) by {
        if mine.contains(x) {
            reversed_reach(out, other, page, x);
            reversed_reach(out, other, x, page);
        }
        if theirs.contains(x) {
            reversed_reach(other, out, page, x);
            reversed_reach(other, out, x, page);
        }
    }
    assert(mine =~= theirs);
}

/// The direction of the links says nothing: with each of them reversed, the largest component is as
/// large.
pub proof fn direction_says_nothing(out: Seq<Vec<usize>>, other: Seq<Vec<usize>>, size: nat)
    requires
        is_reversed(out, other),
    ensures
        is_largest(out, size) == is_largest(other, size),
{
    assert forall|page: int| #[trigger] component(out, page) == component(other, page) by {
        reversed_component(out, other, page);
    }
    if is_largest(out, size) {
        assert forall|page: int| 0 <= page < other.len() implies (#[trigger] component(
            other,
            page,
        )).len() <= size by {
            assert(component(out, page).len() <= size);
        }
        if out.len() > 0 {
            let page = choose|page: int|
                0 <= page < out.len() && (#[trigger] component(out, page)).len() == size;
            assert(component(other, page).len() == size);
        }
    }
    if is_largest(other, size) {
        assert forall|page: int| 0 <= page < out.len() implies (#[trigger] component(
            out,
            page,
        )).len() <= size by {
            assert(component(other, page).len() <= size);
        }
        if out.len() > 0 {
            let page = choose|page: int|
                0 <= page < other.len() && (#[trigger] component(other, page)).len() == size;
            assert(component(out, page).len() == size);
        }
    }
}

} // verus!
