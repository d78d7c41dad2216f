//! The lines of the walk's link tree: one for each root and one for each link that was judged, so
//! that every file the walk visited is printed, and none twice.

use vstd::prelude::*;

use crate::cli::ReadingList;
use crate::counting;
use crate::doc;
use crate::doc::DocView;
use crate::format::{By, FileView, LinkView, RootView};
use crate::sorting;
use crate::text;

verus! {

/// What a line of the tree stands for: a root, or a link that a file judged, each by its place.
pub enum Place {
    Root(int),
    Link(int, int),
}

/// A line of the tree, and how deep it is nested.
pub struct LineView {
    pub place: Place,
    pub depth: nat,
}

/// The file printed on a line: the root, or the file that hangs from the link.
pub open spec fn shown(files: Seq<FileView>, place: Place) -> Option<int> {
    match place {
        Place::Root(at) => Some(at),
        Place::Link(at, link) => super::child(files, files[at].links[link], at),
    }
}

/// A line as it is printed.
pub open spec fn line_of(files: Seq<FileView>, doc: DocView, line: LineView) -> DocView {
    match line.place {
        Place::Root(at) => super::head(doc, files[at], line.depth, By::Root),
        Place::Link(at, link) => match super::child(files, files[at].links[link], at) {
            Some(c) => super::head(
                doc,
                files[c],
                line.depth,
                By::Link(files[at].links[link].scent),
            ),
            None => super::leaf(doc, files[at].links[link], line.depth),
        },
    }
}

/// Lines as they are printed, one after the other.
pub open spec fn lines_of(files: Seq<FileView>, doc: DocView, lines: Seq<LineView>) -> DocView
    decreases lines.len(),
{
    if lines.len() == 0 {
        doc
    } else {
        line_of(files, lines_of(files, doc, lines.drop_last()), lines.last())
    }
}

/// A file's line, then those of the links it judged, with at most `fuel` files nested in each
/// other.
pub open spec fn node_lines(
    files: Seq<FileView>,
    place: Place,
    at: int,
    depth: nat,
    fuel: nat,
) -> Seq<LineView>
    decreases fuel, 0nat,
{
    if fuel == 0 {
        Seq::empty()
    } else {
        seq![LineView { place, depth }] + branch_lines(
            files,
            at,
            depth,
            files[at].links.len(),
            (fuel - 1) as nat,
        )
    }
}

/// The lines of the first `n` links of a file, and of what hangs from them.
pub open spec fn branch_lines(
    files: Seq<FileView>,
    at: int,
    depth: nat,
    n: nat,
    fuel: nat,
) -> Seq<LineView>
    decreases fuel, n,
{
    if n == 0 {
        Seq::empty()
    } else {
        let place = Place::Link(at, n - 1);
        branch_lines(files, at, depth, (n - 1) as nat, fuel) + match super::child(
            files,
            files[at].links[n - 1],
            at,
        ) {
            Some(c) => node_lines(files, place, c, depth + 1, fuel),
            None => seq![LineView { place, depth: depth + 1 }],
        }
    }
}

/// The lines under some roots.
pub open spec fn root_lines(
    files: Seq<FileView>,
    roots: Seq<RootView>,
    fuel: nat,
) -> Seq<LineView>
    decreases roots.len(),
{
    if roots.len() == 0 {
        Seq::empty()
    } else {
        root_lines(files, roots.drop_last(), fuel) + node_lines(
            files,
            Place::Root(roots.last().at),
            roots.last().at,
            0,
            fuel,
        )
    }
}

/// The lines of the tree below its heading.
pub open spec fn tree_lines(files: Seq<FileView>) -> Seq<LineView> {
    root_lines(files, super::roots(files), files.len())
}

proof fn lines_join(files: Seq<FileView>, doc: DocView, a: Seq<LineView>, b: Seq<LineView>)
    ensures
        lines_of(files, doc, a + b) == lines_of(files, lines_of(files, doc, a), b),
    decreases b.len(),
{
    if b.len() == 0 {
        assert(a + b =~= a);
    } else {
        assert((a + b).drop_last() =~= a + b.drop_last());
        lines_join(files, doc, a, b.drop_last());
    }
}

proof fn one_line(files: Seq<FileView>, doc: DocView, line: LineView)
    ensures
        lines_of(files, doc, seq![line]) == line_of(files, doc, line),
{
    let one = seq![line];
    assert(one.drop_last() =~= Seq::empty());
    assert(one.last() == line);
    assert(lines_of(files, doc, one.drop_last()) == doc);
}

/// Whether a line is the head line of a file that came to be printed so.
spec fn heads(files: Seq<FileView>, place: Place, at: int, by: By) -> bool {
    &&& shown(files, place) == Some(at)
    &&& by == match place {
        Place::Root(_) => By::Root,
        Place::Link(a, link) => By::Link(files[a].links[link].scent),
    }
}

proof fn a_node_is_its_lines(
    files: Seq<FileView>,
    doc: DocView,
    place: Place,
    at: int,
    depth: nat,
    by: By,
    fuel: nat,
)
    requires
        heads(files, place, at, by),
    ensures
        super::node(files, doc, at, depth, by, fuel) == lines_of(
            files,
            doc,
            node_lines(files, place, at, depth, fuel),
        ),
    decreases fuel, 0nat,
{
    if fuel > 0 {
        let first = LineView { place, depth };
        let n = files[at].links.len();
        let rest = branch_lines(files, at, depth, n, (fuel - 1) as nat);
        lines_join(files, doc, seq![first], rest);
        one_line(files, doc, first);
        branches_are_their_lines(
            files,
            line_of(files, doc, first),
            at,
            depth,
            n,
            (fuel - 1) as nat,
        );
    }
}

proof fn branches_are_their_lines(
    files: Seq<FileView>,
    doc: DocView,
    at: int,
    depth: nat,
    n: nat,
    fuel: nat,
)
    ensures
        super::branches(files, doc, at, depth, n, fuel) == lines_of(
            files,
            doc,
            branch_lines(files, at, depth, n, fuel),
        ),
    decreases fuel, n,
{
    if n > 0 {
        let place = Place::Link(at, n - 1);
        let link = files[at].links[n - 1];
        let before = branch_lines(files, at, depth, (n - 1) as nat, fuel);
        let printed = lines_of(files, doc, before);
        branches_are_their_lines(files, doc, at, depth, (n - 1) as nat, fuel);
        match super::child(files, link, at) {
            Some(c) => {
                lines_join(files, doc, before, node_lines(files, place, c, depth + 1, fuel));
                a_node_is_its_lines(
                    files,
                    printed,
                    place,
                    c,
                    depth + 1,
                    By::Link(link.scent),
                    fuel,
                );
            },
            None => {
                let line = LineView { place, depth: depth + 1 };
                lines_join(files, doc, before, seq![line]);
                one_line(files, printed, line);
            },
        }
    }
}

proof fn trees_are_their_lines(
    files: Seq<FileView>,
    doc: DocView,
    roots: Seq<RootView>,
    fuel: nat,
)
    ensures
        super::trees(files, doc, roots, fuel) == lines_of(
            files,
            doc,
            root_lines(files, roots, fuel),
        ),
    decreases roots.len(),
{
    if roots.len() > 0 {
        let at = roots.last().at;
        trees_are_their_lines(files, doc, roots.drop_last(), fuel);
        let before = root_lines(files, roots.drop_last(), fuel);
        lines_join(files, doc, before, node_lines(files, Place::Root(at), at, 0, fuel));
        a_node_is_its_lines(
            files,
            lines_of(files, doc, before),
            Place::Root(at),
            at,
            0,
            By::Root,
            fuel,
        );
    }
}

/// The file so many links above another.
pub open spec fn above(files: Seq<FileView>, at: int, n: nat) -> Option<int>
    decreases n,
{
    if n == 0 {
        Some(at)
    } else {
        match super::parent(files, at) {
            Some(p) => above(files, p, (n - 1) as nat),
            None => None,
        }
    }
}

/// Whether a file is another or is above it.
pub open spec fn under(files: Seq<FileView>, at: int, top: int) -> bool {
    exists|n: nat| #[trigger] above(files, at, n) == Some(top)
}

/// Whether no file reached itself, directly or through others.
pub open spec fn no_cycle(files: Seq<FileView>) -> bool {
    forall|at: int, n: nat|
        0 <= at < files.len() && n > 0 ==> #[trigger] above(files, at, n) != Some(at)
}

/// Where a file's path from the entry is longer than that of the file that reached it, no file
/// reached itself.
pub proof fn paths_that_grow_make_no_cycle(files: Seq<FileView>)
    requires
        forall|at: int|
            0 <= at < files.len() && super::parent(files, at) is Some ==> files[super::parent(
                files,
                at,
            )->0].via.len() < (#[trigger] files[at]).via.len(),
    ensures
        no_cycle(files),
{
    assert forall|at: int, n: nat| 0 <= at < files.len() && n > 0 implies #[trigger] above(
        files,
        at,
        n,
    ) != Some(at) by {
        if above(files, at, n) is Some {
            a_path_grows(files, at, n);
        }
    }
}

proof fn a_path_grows(files: Seq<FileView>, at: int, n: nat)
    requires
        forall|at: int|
            0 <= at < files.len() && super::parent(files, at) is Some ==> files[super::parent(
                files,
                at,
            )->0].via.len() < (#[trigger] files[at]).via.len(),
        0 <= at < files.len(),
        above(files, at, n) is Some,
    ensures
        files[above(files, at, n)->0].via.len() + n <= files[at].via.len(),
    decreases n,
{
    if n > 0 {
        a_parent_is_inside(files, at);
        assert(files[super::parent(files, at)->0].via.len() < files[at].via.len());
        a_path_grows(files, super::parent(files, at)->0, (n - 1) as nat);
    }
}

proof fn a_parent_is_inside(files: Seq<FileView>, at: int)
    requires
        super::parent(files, at) is Some,
    ensures
        0 <= super::parent(files, at)->0 < files.len(),
        super::follows(files[super::parent(files, at)->0], files[at].path),
{
    super::find_is_inside(files, files[at].via.last());
}

proof fn above_adds(files: Seq<FileView>, at: int, n: nat, m: nat)
    ensures
        above(files, at, n + m) == match above(files, at, n) {
            Some(top) => above(files, top, m),
            None => None,
        },
    decreases n,
{
    if n > 0 {
        match super::parent(files, at) {
            Some(p) => {
                above_adds(files, p, (n - 1) as nat, m);
                assert((n + m - 1) as nat == (n - 1) as nat + m);
            },
            None => {},
        }
    }
}

proof fn one_above(files: Seq<FileView>, at: int)
    ensures
        above(files, at, 1) == super::parent(files, at),
{
    match super::parent(files, at) {
        Some(p) => {
            assert(above(files, p, 0) == Some(p));
        },
        None => {},
    }
}

proof fn above_is_inside(files: Seq<FileView>, at: int, n: nat)
    requires
        0 <= at < files.len(),
        above(files, at, n) is Some,
    ensures
        0 <= above(files, at, n)->0 < files.len(),
    decreases n,
{
    if n > 0 {
        a_parent_is_inside(files, at);
        above_is_inside(files, super::parent(files, at)->0, (n - 1) as nat);
    }
}

/// A file hangs from a link of the file that reached it.
proof fn a_reached_file_hangs(files: Seq<FileView>, at: int) -> (link: int)
    requires
        super::distinct(files),
        0 <= at < files.len(),
        super::parent(files, at) is Some,
    ensures
        0 <= link < files[super::parent(files, at)->0].links.len(),
        super::child(
            files,
            files[super::parent(files, at)->0].links[link],
            super::parent(files, at)->0,
        ) == Some(at),
{
    a_parent_is_inside(files, at);
    let p = super::parent(files, at)->0;
    let link = choose|i: int|
        0 <= i < files[p].links.len() && (#[trigger] files[p].links[i]).followed
            && files[p].links[i].target == files[at].path;
    super::find_is_inside(files, files[at].path);
    let c = super::find(files, files[at].path)->0;
    if c < at {
        assert(files[c].path != files[at].path);
    }
    if at < c {
        assert(files[at].path != files[c].path);
    }
    link
}

/// Whether a file is below one of the first `n` links of another.
spec fn below(files: Seq<FileView>, at: int, n: int, f: int) -> bool {
    exists|j: int|
        0 <= j < n && hangs(files, #[trigger] files[at].links[j], at, f)
}

/// Whether a file is, or is below, the file that hangs from a link.
spec fn hangs(files: Seq<FileView>, link: LinkView, at: int, f: int) -> bool {
    super::child(files, link, at) is Some && under(files, f, super::child(files, link, at)->0)
}

/// What is under a file is the file, and what is below one of its links.
proof fn under_is_below(files: Seq<FileView>, at: int, f: int)
    requires
        super::distinct(files),
        0 <= at < files.len(),
        0 <= f < files.len(),
    ensures
        under(files, f, at) == (f == at || below(files, at, files[at].links.len() as int, f)),
{
    let len = files[at].links.len() as int;
    if f == at {
        assert(above(files, f, 0) == Some(at));
    }
    if below(files, at, len, f) {
        let j = choose|j: int| 0 <= j < len && hangs(files, #[trigger] files[at].links[j], at, f);
        let c = super::child(files, files[at].links[j], at)->0;
        super::a_child_is_reached(files, files[at].links[j], at);
        let n = choose|n: nat| #[trigger] above(files, f, n) == Some(c);
        above_adds(files, f, n, 1);
        one_above(files, c);
        assert(above(files, f, n + 1) == Some(at));
    }
    if under(files, f, at) && f != at {
        let n = choose|n: nat| #[trigger] above(files, f, n) == Some(at);
        assert(n > 0);
        above_adds(files, f, (n - 1) as nat, 1);
        let c = above(files, f, (n - 1) as nat)->0;
        above_is_inside(files, f, (n - 1) as nat);
        one_above(files, c);
        let j = a_reached_file_hangs(files, c);
        assert(hangs(files, files[at].links[j], at, f));
    }
}

/// No file is under two files that one file reached.
proof fn branches_are_apart(files: Seq<FileView>, at: int, a: int, b: int, f: int)
    requires
        no_cycle(files),
        0 <= at < files.len(),
        super::parent(files, a) == Some(at),
        super::parent(files, b) == Some(at),
        under(files, f, a),
        under(files, f, b),
    ensures
        a == b,
{
    let n = choose|n: nat| #[trigger] above(files, f, n) == Some(a);
    let m = choose|m: nat| #[trigger] above(files, f, m) == Some(b);
    no_higher_than(files, at, a, b, f, n, m);
    no_higher_than(files, at, b, a, f, m, n);
}

proof fn no_higher_than(
    files: Seq<FileView>,
    at: int,
    a: int,
    b: int,
    f: int,
    n: nat,
    m: nat,
)
    requires
        no_cycle(files),
        0 <= at < files.len(),
        super::parent(files, a) == Some(at),
        super::parent(files, b) == Some(at),
        above(files, f, n) == Some(a),
        above(files, f, m) == Some(b),
    ensures
        m <= n,
{
    if n < m {
        let k = (m - n - 1) as nat;
        above_adds(files, f, n, (m - n) as nat);
        assert(above(files, a, (m - n) as nat) == above(files, at, k));
        above_adds(files, at, k, 1);
        one_above(files, b);
        assert(above(files, at, k + 1) == Some(at));
    }
}

/// No file is under one it reached.
proof fn a_file_is_above_its_links(files: Seq<FileView>, at: int, c: int)
    requires
        no_cycle(files),
        0 <= at < files.len(),
        super::parent(files, c) == Some(at),
    ensures
        !under(files, at, c),
{
    if under(files, at, c) {
        let n = choose|n: nat| #[trigger] above(files, at, n) == Some(c);
        above_adds(files, at, n, 1);
        one_above(files, c);
        assert(above(files, at, n + 1) == Some(at));
    }
}

/// Every file is under a root.
proof fn a_file_has_a_root(files: Seq<FileView>, f: int) -> (root: int)
    requires
        no_cycle(files),
        0 <= f < files.len(),
    ensures
        0 <= root < files.len(),
        super::parent(files, root) is None,
        under(files, f, root),
{
    let len = files.len();
    if forall|n: nat| n <= len ==> #[trigger] above(files, f, n) is Some {
        let climb = Seq::new(len + 1, |n: int| above(files, f, n as nat)->0);
        assert(climb.no_duplicates()) by {
            assert forall|i: int, j: int| 0 <= i < climb.len() && 0 <= j < climb.len() && i
                != j implies climb[i] != climb[j] by {
                let low = if i < j {
                    i as nat
                } else {
                    j as nat
                };
                let high = if i < j {
                    j as nat
                } else {
                    i as nat
                };
                above_adds(files, f, low, (high - low) as nat);
                above_is_inside(files, f, low);
                assert(above(files, f, low) is Some && above(files, f, high) is Some);
            }
        }
        climb.unique_seq_to_set();
        let places = vstd::set_lib::set_int_range(0, len as int);
        vstd::set_lib::lemma_int_range(0, len as int);
        assert(climb.to_set().subset_of(places)) by {
            assert forall|at: int| climb.to_set().contains(at) implies places.contains(at) by {
                let k = choose|k: int| 0 <= k < climb.len() && climb[k] == at;
                assert(above(files, f, k as nat) is Some);
                above_is_inside(files, f, k as nat);
            }
        }
        vstd::set_lib::lemma_len_subset(climb.to_set(), places);
        f
    } else {
        let n = choose|n: nat| n <= len && #[trigger] above(files, f, n) is None;
        top_of(files, f, n)
    }
}

proof fn top_of(files: Seq<FileView>, f: int, n: nat) -> (root: int)
    requires
        0 <= f < files.len(),
        above(files, f, n) is None,
    ensures
        0 <= root < files.len(),
        super::parent(files, root) is None,
        under(files, f, root),
    decreases n,
{
    match super::parent(files, f) {
        None => {
            assert(above(files, f, 0) == Some(f));
            f
        },
        Some(p) => {
            a_parent_is_inside(files, f);
            let root = top_of(files, p, (n - 1) as nat);
            let m = choose|m: nat| #[trigger] above(files, p, m) == Some(root);
            assert(above(files, f, m + 1) == Some(root)) by {
                assert((m + 1 - 1) as nat == m);
            }
            root
        },
    }
}

/// No file is under two roots.
proof fn roots_are_apart(files: Seq<FileView>, f: int, a: int, b: int)
    requires
        super::parent(files, a) is None,
        super::parent(files, b) is None,
        under(files, f, a),
        under(files, f, b),
    ensures
        a == b,
{
    let n = choose|n: nat| #[trigger] above(files, f, n) == Some(a);
    let m = choose|m: nat| #[trigger] above(files, f, m) == Some(b);
    if n < m {
        above_adds(files, f, n, (m - n) as nat);
    } else if m < n {
        above_adds(files, f, m, (n - m) as nat);
    }
}

/// How many of the first `n` links of a file a test counts.
spec fn counted_links(test: spec_fn(Place) -> bool, at: int, n: nat) -> nat
    decreases n,
{
    if n == 0 {
        0
    } else {
        counted_links(test, at, (n - 1) as nat) + if test(Place::Link(at, n - 1)) {
            1nat
        } else {
            0nat
        }
    }
}

/// How many links of those among the first `n` files that are chosen a test counts.
spec fn counted_in(
    files: Seq<FileView>,
    test: spec_fn(Place) -> bool,
    chosen: spec_fn(int) -> bool,
    n: nat,
) -> nat
    decreases n,
{
    if n == 0 {
        0
    } else {
        let f = n - 1;
        counted_in(files, test, chosen, (n - 1) as nat) + if chosen(f) {
            counted_links(test, f, files[f].links.len())
        } else {
            0nat
        }
    }
}

/// What two choices that have nothing in common count is what both count.
proof fn choices_join(
    files: Seq<FileView>,
    test: spec_fn(Place) -> bool,
    a: spec_fn(int) -> bool,
    b: spec_fn(int) -> bool,
    both: spec_fn(int) -> bool,
    n: nat,
)
    requires
        forall|f: int| 0 <= f < n ==> #[trigger] both(f) == (a(f) || b(f)) && !(a(f) && b(f)),
    ensures
        counted_in(files, test, both, n) == counted_in(files, test, a, n) + counted_in(
            files,
            test,
            b,
            n,
        ),
    decreases n,
{
    if n > 0 {
        assert(both(n - 1) == (a(n - 1) || b(n - 1)));
        choices_join(files, test, a, b, both, (n - 1) as nat);
    }
}

proof fn nothing_chosen(
    files: Seq<FileView>,
    test: spec_fn(Place) -> bool,
    chosen: spec_fn(int) -> bool,
    n: nat,
)
    requires
        forall|f: int| 0 <= f < n ==> !#[trigger] chosen(f),
    ensures
        counted_in(files, test, chosen, n) == 0,
    decreases n,
{
    if n > 0 {
        assert(!chosen(n - 1));
        nothing_chosen(files, test, chosen, (n - 1) as nat);
    }
}

proof fn one_chosen(
    files: Seq<FileView>,
    test: spec_fn(Place) -> bool,
    at: int,
    n: nat,
)
    ensures
        counted_in(files, test, |f: int| f == at, n) == if 0 <= at < n {
            counted_links(test, at, files[at].links.len())
        } else {
            0nat
        },
    decreases n,
{
    if n > 0 {
        one_chosen(files, test, at, (n - 1) as nat);
    }
}

/// A test of a line by what it stands for.
spec fn by_place(test: spec_fn(Place) -> bool) -> spec_fn(LineView) -> bool {
    |line: LineView| test(line.place)
}

proof fn one_line_counts(test: spec_fn(Place) -> bool, line: LineView)
    ensures
        counting::how_many(seq![line], by_place(test)) == if test(line.place) {
            1nat
        } else {
            0nat
        },
{
    let one = seq![line];
    assert(one.drop_last() =~= Seq::empty());
    assert(one.last() == line);
    assert(counting::how_many(one.drop_last(), by_place(test)) == 0);
    assert(by_place(test)(line) == test(line.place));
}

/// The lines of a file are its own, and those of the links that the files under it judged.
proof fn a_node_counts(
    files: Seq<FileView>,
    test: spec_fn(Place) -> bool,
    chain: Seq<int>,
    place: Place,
    depth: nat,
    fuel: nat,
)
    requires
        super::distinct(files),
        super::follows_once(files),
        no_cycle(files),
        super::is_chain(files, chain),
        fuel + chain.len() > files.len(),
    ensures
        counting::how_many(
            node_lines(files, place, chain.last(), depth, fuel),
            by_place(test),
        ) == counted_in(files, test, |f: int| under(files, f, chain.last()), files.len()) + if test(
            place,
        ) {
            1nat
        } else {
            0nat
        },
    decreases fuel, 0nat,
{
    super::a_chain_is_short(files, chain);
    let at = chain.last();
    assert(chain[chain.len() - 1] == at);
    let n = files[at].links.len();
    let first = LineView { place, depth };
    let rest = branch_lines(files, at, depth, n, (fuel - 1) as nat);
    counting::how_many_joins(seq![first], rest, by_place(test));
    one_line_counts(test, first);
    branches_count(files, test, chain, depth, n, (fuel - 1) as nat);
    one_chosen(files, test, at, files.len());
    assert forall|f: int| 0 <= f < files.len() implies #[trigger] under(files, f, at) == (f == at
        || below(files, at, n as int, f)) && !(f == at && below(files, at, n as int, f)) by {
        under_is_below(files, at, f);
        if below(files, at, n as int, at) {
            let j = choose|j: int|
                0 <= j < n && hangs(files, #[trigger] files[at].links[j], at, at);
            super::a_child_is_reached(files, files[at].links[j], at);
            a_file_is_above_its_links(files, at, super::child(files, files[at].links[j], at)->0);
        }
    }
    choices_join(
        files,
        test,
        |f: int| f == at,
        |f: int| below(files, at, n as int, f),
        |f: int| under(files, f, at),
        files.len(),
    );
}

proof fn branches_count(
    files: Seq<FileView>,
    test: spec_fn(Place) -> bool,
    chain: Seq<int>,
    depth: nat,
    n: nat,
    fuel: nat,
)
    requires
        super::distinct(files),
        super::follows_once(files),
        no_cycle(files),
        super::is_chain(files, chain),
        fuel + 1 + chain.len() > files.len(),
        n <= files[chain.last()].links.len(),
    ensures
        counting::how_many(
            branch_lines(files, chain.last(), depth, n, fuel),
            by_place(test),
        ) == counted_links(test, chain.last(), n) + counted_in(
            files,
            test,
            |f: int| below(files, chain.last(), n as int, f),
            files.len(),
        ),
    decreases fuel, n,
{
    let at = chain.last();
    assert(chain[chain.len() - 1] == at);
    if n == 0 {
        nothing_chosen(files, test, |f: int| below(files, at, 0, f), files.len());
    } else {
        let m = (n - 1) as nat;
        let place = Place::Link(at, n - 1);
        let link = files[at].links[n - 1];
        let before = branch_lines(files, at, depth, m, fuel);
        branches_count(files, test, chain, depth, m, fuel);
        assert forall|f: int| 0 <= f < files.len() implies #[trigger] below(files, at, n as int, f)
            == (below(files, at, m as int, f) || hangs(files, link, at, f)) && !(below(
            files,
            at,
            m as int,
            f,
        ) && hangs(files, link, at, f)) by {
            a_link_is_apart(files, at, n - 1, f);
        }
        choices_join(
            files,
            test,
            |f: int| below(files, at, m as int, f),
            |f: int| hangs(files, link, at, f),
            |f: int| below(files, at, n as int, f),
            files.len(),
        );
        match super::child(files, link, at) {
            Some(c) => {
                super::a_child_is_reached(files, link, at);
                let longer = chain.push(c);
                assert(super::is_chain(files, longer)) by {
                    assert forall|k: int| 0 < k < longer.len() implies super::parent(
                        files,
                        #[trigger] longer[k],
                    ) == Some(longer[k - 1]) by {
                        if k < chain.len() {
                            assert(longer[k] == chain[k]);
                        }
                    }
                }
                assert(longer.last() == c);
                a_node_counts(files, test, longer, place, depth + 1, fuel);
                counting::how_many_joins(
                    before,
                    node_lines(files, place, c, depth + 1, fuel),
                    by_place(test),
                );
                same_choice(
                    files,
                    test,
                    |f: int| under(files, f, c),
                    |f: int| hangs(files, link, at, f),
                    files.len(),
                );
            },
            None => {
                let line = LineView { place, depth: depth + 1 };
                counting::how_many_joins(before, seq![line], by_place(test));
                one_line_counts(test, line);
                nothing_chosen(files, test, |f: int| hangs(files, link, at, f), files.len());
            },
        }
    }
}

proof fn same_choice(
    files: Seq<FileView>,
    test: spec_fn(Place) -> bool,
    a: spec_fn(int) -> bool,
    b: spec_fn(int) -> bool,
    n: nat,
)
    requires
        forall|f: int| 0 <= f < n ==> #[trigger] a(f) == b(f),
    ensures
        counted_in(files, test, a, n) == counted_in(files, test, b, n),
    decreases n,
{
    if n > 0 {
        assert(a(n - 1) == b(n - 1));
        same_choice(files, test, a, b, (n - 1) as nat);
    }
}

/// What hangs from a link is below none of the links before it.
proof fn a_link_is_apart(files: Seq<FileView>, at: int, i: int, f: int)
    requires
        super::distinct(files),
        super::follows_once(files),
        no_cycle(files),
        0 <= at < files.len(),
        0 <= i < files[at].links.len(),
    ensures
        below(files, at, i + 1, f) == (below(files, at, i, f) || hangs(
            files,
            files[at].links[i],
            at,
            f,
        )),
        !(below(files, at, i, f) && hangs(files, files[at].links[i], at, f)),
{
    let link = files[at].links[i];
    if below(files, at, i, f) {
        let j = choose|j: int| 0 <= j < i && hangs(files, #[trigger] files[at].links[j], at, f);
        let other = files[at].links[j];
        if hangs(files, link, at, f) {
            super::a_child_is_reached(files, link, at);
            super::a_child_is_reached(files, other, at);
            branches_are_apart(
                files,
                at,
                super::child(files, link, at)->0,
                super::child(files, other, at)->0,
                f,
            );
            assert(files[at].links[j].target != files[at].links[i].target);
        }
    }
}

/// How many links the files judged.
pub open spec fn judged(files: Seq<FileView>) -> int {
    counting::total(files, |file: FileView| file.links.len() as int)
}

/// Whether a file is under one of some roots.
spec fn under_one(files: Seq<FileView>, list: Seq<RootView>, f: int) -> bool {
    exists|k: int| 0 <= k < list.len() && under(files, f, (#[trigger] list[k]).at)
}

/// Whether roots of the tree stand in a list once each.
spec fn are_roots(files: Seq<FileView>, list: Seq<RootView>) -> bool {
    &&& forall|k: int|
        0 <= k < list.len() ==> 0 <= (#[trigger] list[k]).at < files.len() && super::parent(
            files,
            list[k].at,
        ) is None
    &&& forall|i: int, j: int|
        0 <= i < j < list.len() ==> (#[trigger] list[i]).at != (#[trigger] list[j]).at
}

proof fn roots_count(files: Seq<FileView>, test: spec_fn(Place) -> bool, list: Seq<RootView>)
    requires
        super::distinct(files),
        super::follows_once(files),
        no_cycle(files),
        are_roots(files, list),
    ensures
        counting::how_many(root_lines(files, list, files.len()), by_place(test))
            == counting::how_many(list, |root: RootView| test(Place::Root(root.at))) + counted_in(
            files,
            test,
            |f: int| under_one(files, list, f),
            files.len(),
        ),
    decreases list.len(),
{
    if list.len() == 0 {
        nothing_chosen(files, test, |f: int| under_one(files, list, f), files.len());
    } else {
        let shorter = list.drop_last();
        let last = list.len() - 1;
        let at = list.last().at;
        assert(list[last] == list.last());
        assert forall|i: int, j: int| 0 <= i < j < shorter.len() implies (#[trigger] shorter[i]).at
            != (#[trigger] shorter[j]).at by {
            assert(list[i].at != list[j].at);
        }
        roots_count(files, test, shorter);
        let place = Place::Root(at);
        let chain = seq![at];
        assert(super::is_chain(files, chain));
        a_node_counts(files, test, chain, place, 0, files.len());
        counting::how_many_joins(
            root_lines(files, shorter, files.len()),
            node_lines(files, place, at, 0, files.len()),
            by_place(test),
        );
        assert forall|f: int| 0 <= f < files.len() implies #[trigger] under_one(files, list, f) == (
        under_one(files, shorter, f) || under(files, f, at)) && !(under_one(files, shorter, f)
            && under(files, f, at)) by {
            if under_one(files, shorter, f) {
                let k = choose|k: int|
                    0 <= k < shorter.len() && under(files, f, (#[trigger] shorter[k]).at);
                assert(under(files, f, list[k].at));
                if under(files, f, at) {
                    roots_are_apart(files, f, list[k].at, at);
                    assert(list[k].at != list[last].at);
                }
            }
            if under(files, f, at) {
                assert(under(files, f, list[last].at));
            }
            if under_one(files, list, f) && !under(files, f, at) {
                let k = choose|k: int|
                    0 <= k < list.len() && under(files, f, (#[trigger] list[k]).at);
                assert(under(files, f, shorter[k].at));
            }
        }
        choices_join(
            files,
            test,
            |f: int| under_one(files, shorter, f),
            |f: int| under(files, f, at),
            |f: int| under_one(files, list, f),
            files.len(),
        );
    }
}

proof fn roots_are_one_each(files: Seq<FileView>, n: int)
    requires
        0 <= n <= files.len(),
    ensures
        super::roots_among(files, n).no_duplicates(),
        forall|at: int|
            0 <= at < n && super::parent(files, at) is None ==> super::roots_among(
                files,
                n,
            ).contains(#[trigger] root_at(files, at)),
        forall|k: int|
            0 <= k < super::roots_among(files, n).len() ==> {
                let root = #[trigger] super::roots_among(files, n)[k];
                0 <= root.at < n && super::parent(files, root.at) is None && root == root_at(
                    files,
                    root.at,
                )
            },
    decreases n,
{
    if n > 0 {
        let before = super::roots_among(files, n - 1);
        let all = super::roots_among(files, n);
        roots_are_one_each(files, n - 1);
        if super::parent(files, n - 1) is None {
            assert(all == before.push(root_at(files, n - 1)));
            assert(all[before.len() as int] == root_at(files, n - 1));
            assert forall|at: int| 0 <= at < n && super::parent(
                files,
                at,
            ) is None implies all.contains(#[trigger] root_at(files, at)) by {
                if at < n - 1 {
                    assert(before.contains(root_at(files, at)));
                    let k = choose|k: int|
                        0 <= k < before.len() && before[k] == root_at(files, at);
                    assert(all[k] == root_at(files, at));
                }
            }
        }
    }
}

/// A file as a root.
spec fn root_at(files: Seq<FileView>, at: int) -> RootView {
    RootView { path: files[at].path, at }
}

/// The roots of the tree are the files that no link reached, once each.
proof fn the_roots_are_all(files: Seq<FileView>)
    ensures
        are_roots(files, super::roots(files)),
        forall|at: int|
            0 <= at < files.len() && super::parent(files, at) is None ==> super::roots(
                files,
            ).contains(#[trigger] root_at(files, at)),
        forall|k: int|
            0 <= k < super::roots(files).len() ==> {
                let root = #[trigger] super::roots(files)[k];
                root == root_at(files, root.at)
            },
{
    let among = super::roots_among(files, files.len() as int);
    let lt = |a: RootView, b: RootView| text::before(a.path, b.path);
    let list = super::roots(files);
    roots_are_one_each(files, files.len() as int);
    sorting::sorted_holds_once(among, lt);
    assert forall|k: int| 0 <= k < list.len() implies {
        let root = #[trigger] list[k];
        0 <= root.at < files.len() && super::parent(files, root.at) is None && root == root_at(
            files,
            root.at,
        )
    } by {
        sorting::sorted_holds(among, lt, list[k]);
        assert(list.contains(list[k]));
        let m = choose|m: int| 0 <= m < among.len() && among[m] == list[k];
        assert(among[m] == list[k]);
    }
    assert forall|i: int, j: int| 0 <= i < j < list.len() implies (#[trigger] list[i]).at != (
    #[trigger] list[j]).at by {
        if list[i].at == list[j].at {
            assert(list[i] == list[j]);
        }
    }
    assert forall|at: int| 0 <= at < files.len() && super::parent(
        files,
        at,
    ) is None implies list.contains(#[trigger] root_at(files, at)) by {
        sorting::sorted_holds(among, lt, root_at(files, at));
    }
}

/// The lines of the tree are one for each root and one for each link that was judged.
proof fn the_tree_counts(files: Seq<FileView>, test: spec_fn(Place) -> bool)
    requires
        super::distinct(files),
        super::follows_once(files),
        no_cycle(files),
    ensures
        counting::how_many(tree_lines(files), by_place(test)) == counting::how_many(
            super::roots(files),
            |root: RootView| test(Place::Root(root.at)),
        ) + counted_in(files, test, |f: int| true, files.len()),
{
    let list = super::roots(files);
    the_roots_are_all(files);
    roots_count(files, test, list);
    assert forall|f: int| 0 <= f < files.len() implies #[trigger] under_one(files, list, f) by {
        let root = a_file_has_a_root(files, f);
        assert(list.contains(root_at(files, root)));
        let k = choose|k: int| 0 <= k < list.len() && list[k] == root_at(files, root);
        assert(under(files, f, list[k].at));
    }
    same_choice(
        files,
        test,
        |f: int| under_one(files, list, f),
        |f: int| true,
        files.len(),
    );
}

/// Where a test counts at most one link, so do the links of a file.
proof fn one_link_counts(test: spec_fn(Place) -> bool, at: int, n: nat, only: Place)
    requires
        forall|i: int|
            0 <= i < n ==> #[trigger] test(Place::Link(at, i)) == (only == Place::Link(at, i)),
    ensures
        counted_links(test, at, n) == if only is Link && only->Link_0 == at && 0 <= only->Link_1
            < n {
            1nat
        } else {
            0nat
        },
    decreases n,
{
    if n > 0 {
        assert(test(Place::Link(at, n - 1)) == (only == Place::Link(at, n - 1)));
        one_link_counts(test, at, (n - 1) as nat, only);
    }
}

/// Whether a link is one that a file judged.
pub open spec fn is_link(files: Seq<FileView>, at: int, link: int) -> bool {
    0 <= at < files.len() && 0 <= link < files[at].links.len()
}

proof fn one_link_counts_in_all(
    files: Seq<FileView>,
    test: spec_fn(Place) -> bool,
    n: nat,
    only: Place,
)
    requires
        n <= files.len(),
        only matches Place::Link(at, link) ==> is_link(files, at, link),
        forall|at: int, i: int|
            is_link(files, at, i) ==> #[trigger] test(Place::Link(at, i)) == (only == Place::Link(
                at,
                i,
            )),
    ensures
        counted_in(files, test, |f: int| true, n) == if only is Link && only->Link_0 < n {
            1nat
        } else {
            0nat
        },
    decreases n,
{
    if n > 0 {
        let f = n - 1;
        one_link_counts_in_all(files, test, (n - 1) as nat, only);
        assert forall|i: int| 0 <= i < files[f].links.len() implies #[trigger] test(
            Place::Link(f, i),
        ) == (only == Place::Link(f, i)) by {
            assert(is_link(files, f, i));
        }
        one_link_counts(test, f, files[f].links.len(), only);
    }
}

/// The tree prints its lines, one after the other.
pub proof fn a_tree_is_its_lines(files: Seq<FileView>, doc: DocView)
    ensures
        super::trees(files, doc, super::roots(files), files.len()) == lines_of(
            files,
            doc,
            tree_lines(files),
        ),
{
    trees_are_their_lines(files, doc, super::roots(files), files.len());
}

/// Every file that the walk visited is printed, on one line and no other: where no two files have
/// the same path, none follows two links to the same target, and none reached itself.
pub proof fn every_file_is_printed_once(files: Seq<FileView>, f: int)
    requires
        super::distinct(files),
        super::follows_once(files),
        no_cycle(files),
        0 <= f < files.len(),
    ensures
        counting::how_many(
            tree_lines(files),
            |line: LineView| shown(files, line.place) == Some(f),
        ) == 1,
{
    let test = |place: Place| shown(files, place) == Some(f);
    let on_roots = |root: RootView| test(Place::Root(root.at));
    let list = super::roots(files);
    the_tree_counts(files, test);
    the_roots_are_all(files);
    assert(by_place(test) =~= |line: LineView| shown(files, line.place) == Some(f));
    let only = if super::parent(files, f) is None {
        Place::Root(f)
    } else {
        Place::Link(super::parent(files, f)->0, a_reached_file_hangs(files, f))
    };
    if super::parent(files, f) is Some {
        a_parent_is_inside(files, f);
    }
    assert forall|at: int, i: int| is_link(files, at, i) implies #[trigger] test(
        Place::Link(at, i),
    ) == (only == Place::Link(at, i)) by {
        if test(Place::Link(at, i)) {
            super::a_child_is_reached(files, files[at].links[i], at);
            super::a_file_hangs_from_one_link(files, at, i, only->Link_0, only->Link_1);
        }
    }
    one_link_counts_in_all(files, test, files.len(), only);
    if super::parent(files, f) is None {
        assert(list.contains(root_at(files, f)));
        let k = choose|k: int| 0 <= k < list.len() && list[k] == root_at(files, f);
        assert forall|m: int| 0 <= m < list.len() implies on_roots(#[trigger] list[m]) == (m
            == k) by {
            if m < k {
                assert(list[m].at != list[k].at);
            }
            if k < m {
                assert(list[k].at != list[m].at);
            }
        }
        counting::how_many_is_one(list, on_roots, k);
    } else {
        counting::how_many_is_none(list, on_roots);
    }
}

/// Every link that was judged has a line, and no other.
pub proof fn every_link_is_printed_once(files: Seq<FileView>, at: int, link: int)
    requires
        super::distinct(files),
        super::follows_once(files),
        no_cycle(files),
        is_link(files, at, link),
    ensures
        counting::how_many(
            tree_lines(files),
            |line: LineView| line.place == Place::Link(at, link),
        ) == 1,
{
    let test = |place: Place| place == Place::Link(at, link);
    let on_roots = |root: RootView| test(Place::Root(root.at));
    the_tree_counts(files, test);
    assert(by_place(test) =~= |line: LineView| line.place == Place::Link(at, link));
    one_link_counts_in_all(files, test, files.len(), Place::Link(at, link));
    counting::how_many_is_none(super::roots(files), on_roots);
}

proof fn every_link_counts(test: spec_fn(Place) -> bool, at: int, n: nat)
    requires
        forall|place: Place| #[trigger] test(place),
    ensures
        counted_links(test, at, n) == n,
    decreases n,
{
    if n > 0 {
        every_link_counts(test, at, (n - 1) as nat);
    }
}

proof fn every_file_counts(files: Seq<FileView>, test: spec_fn(Place) -> bool, n: nat)
    requires
        n <= files.len(),
        forall|place: Place| #[trigger] test(place),
    ensures
        counted_in(files, test, |f: int| true, n) == judged(files.take(n as int)),
    decreases n,
{
    if n > 0 {
        every_file_counts(files, test, (n - 1) as nat);
        every_link_counts(test, n - 1, files[n - 1].links.len());
        counting::one_more(files, n - 1);
    }
}

/// Below its heading the tree has as many lines as there are roots and links that were judged.
pub proof fn a_line_for_each_root_and_link(files: Seq<FileView>)
    requires
        super::distinct(files),
        super::follows_once(files),
        no_cycle(files),
    ensures
        tree_lines(files).len() == super::roots(files).len() + judged(files),
{
    let test = |place: Place| true;
    the_tree_counts(files, test);
    counting::how_many_is_all(tree_lines(files), by_place(test));
    counting::how_many_is_all(super::roots(files), |root: RootView| test(Place::Root(root.at)));
    every_file_counts(files, test, files.len());
    counting::take_all(files);
}

/// Whether what a file's lines say holds no line end.
pub open spec fn is_plain(file: FileView) -> bool {
    &&& doc::unbroken(file.path)
    &&& forall|k: int| 0 <= k < file.via.len() ==> doc::unbroken(#[trigger] file.via[k])
    &&& forall|k: int|
        0 <= k < file.links.len() ==> doc::unbroken((#[trigger] file.links[k]).target)
}

proof fn a_number_is_unbroken(n: nat)
    ensures
        doc::unbroken(text::decimal(n)),
    decreases n,
{
    if n >= 10 {
        a_number_is_unbroken(n / 10);
        assert(text::digit(n % 10) as int == 48 + n % 10);
    } else {
        assert(text::digit(n) as int == 48 + n);
    }
}

proof fn a_count_is_unbroken(n: nat, noun: Seq<char>)
    requires
        doc::unbroken(noun),
    ensures
        doc::unbroken(super::counted(n, noun)),
{
    reveal_strlit(" ");
    reveal_strlit("s");
    a_number_is_unbroken(n);
}

proof fn joined_is_unbroken(list: Seq<Seq<char>>, between: Seq<char>)
    requires
        doc::unbroken(between),
        forall|k: int| 0 <= k < list.len() ==> doc::unbroken(#[trigger] list[k]),
    ensures
        doc::unbroken(text::joined(list, between)),
    decreases list.len(),
{
    if list.len() > 1 {
        let front = list.drop_last();
        assert forall|k: int| 0 <= k < front.len() implies doc::unbroken(#[trigger] front[k]) by {
            assert(front[k] == list[k]);
        }
        joined_is_unbroken(front, between);
        assert(doc::unbroken(list[list.len() - 1]));
    }
}

proof fn a_trail_is_unbroken(via: Seq<Seq<char>>)
    requires
        forall|k: int| 0 <= k < via.len() ==> doc::unbroken(#[trigger] via[k]),
    ensures
        doc::unbroken(super::trail(via)),
{
    let quoted = via.map_values(|path: Seq<char>| "`"@ + path + "`"@);
    reveal_strlit("`");
    reveal_strlit(" -> ");
    assert forall|k: int| 0 <= k < quoted.len() implies doc::unbroken(#[trigger] quoted[k]) by {
        assert(doc::unbroken(via[k]));
    }
    joined_is_unbroken(quoted, " -> "@);
}

proof fn an_indent_adds_no_ends(doc: DocView, depth: nat)
    ensures
        super::indented(doc, depth).line_ends() == doc.line_ends(),
    decreases depth,
{
    if depth > 0 {
        reveal_strlit("  ");
        an_indent_adds_no_ends(doc, (depth - 1) as nat);
        super::indented(doc, (depth - 1) as nat).a_text_adds_its_ends("  "@);
    }
}

/// A template with one number in it adds no line end where it holds none.
proof fn a_number_adds_no_ends(doc: DocView, template: Seq<char>, bits: u64)
    requires
        doc::unbroken(template),
    ensures
        doc.fill(template, doc::none().push(super::score(bits))).line_ends() == doc.line_ends(),
{
    doc.a_template_adds_its_ends(template, doc::none().push(super::score(bits)));
    doc.a_text_adds_its_ends(template);
}

proof fn a_scent_adds_no_ends(doc: DocView, bits: Option<u64>)
    ensures
        super::scent(doc, bits).line_ends() == doc.line_ends(),
{
    reveal_strlit("scent {}");
    reveal_strlit("scent unknown");
    match bits {
        Some(bits) => a_number_adds_no_ends(doc, "scent {}"@, bits),
        None => doc.a_text_adds_its_ends("scent unknown"@),
    }
}

proof fn a_reach_adds_no_ends(doc: DocView, file: FileView)
    requires
        is_plain(file),
        file.via.len() > 0,
    ensures
        super::reached(doc, file.relevance, file.scent, file.via).line_ends() == doc.line_ends(),
{
    reveal_strlit("relevance {}");
    reveal_strlit("; scent {}");
    reveal_strlit("; via {}");
    a_number_adds_no_ends(doc, "relevance {}"@, file.relevance);
    let doc = doc.fill("relevance {}"@, doc::none().push(super::score(file.relevance)));
    let scented = match file.scent {
        Some(scent) => doc.fill("; scent {}"@, doc::none().push(super::score(scent))),
        None => doc,
    };
    if file.scent is Some {
        a_number_adds_no_ends(doc, "; scent {}"@, file.scent->0);
    }
    a_trail_is_unbroken(file.via);
    scented.a_template_adds_its_ends(
        "; via {}"@,
        doc::none().push(doc::word(super::trail(file.via))),
    );
    scented.a_text_adds_its_ends("; via {}"@);
}

/// A file's own line is one line.
proof fn a_head_is_one_line(doc: DocView, file: FileView, depth: nat, by: By)
    requires
        is_plain(file),
    ensures
        super::head(doc, file, depth, by).line_ends() == doc.line_ends() + 1,
{
    reveal_strlit("  ");
    reveal_strlit("entry file; relevance {}");
    reveal_strlit("followed; ");
    reveal_strlit("; relevance {}");
    let indented = super::indented(doc, depth);
    an_indent_adds_no_ends(doc, depth);
    indented.a_text_adds_its_ends(file.path);
    indented.text(file.path).a_text_adds_its_ends("  "@);
    let named = indented.text(file.path).text("  "@);
    let whole = match by {
        By::Root => if file.via.len() > 0 {
            a_reach_adds_no_ends(named, file);
            super::reached(named, file.relevance, file.scent, file.via)
        } else {
            a_number_adds_no_ends(named, "entry file; relevance {}"@, file.relevance);
            named.fill(
                "entry file; relevance {}"@,
                doc::none().push(super::score(file.relevance)),
            )
        },
        By::Link(bits) => {
            named.a_text_adds_its_ends("followed; "@);
            let followed = named.text("followed; "@);
            a_scent_adds_no_ends(followed, bits);
            a_number_adds_no_ends(
                super::scent(followed, bits),
                "; relevance {}"@,
                file.relevance,
            );
            super::scent(followed, bits).fill(
                "; relevance {}"@,
                doc::none().push(super::score(file.relevance)),
            )
        },
    };
    a_line_end_ends_a_line(whole);
}

proof fn a_line_end_ends_a_line(doc: DocView)
    ensures
        doc.text("\n"@).line_ends() == doc.line_ends() + 1,
{
    reveal_strlit("\n");
    doc.a_text_adds_its_ends("\n"@);
    counting::how_many_is_one("\n"@, |c: char| c == '\n', 0);
}

/// The line of a link that no file hangs from is one line.
proof fn a_leaf_is_one_line(doc: DocView, link: LinkView, depth: nat)
    requires
        doc::unbroken(link.target),
    ensures
        super::leaf(doc, link, depth).line_ends() == doc.line_ends() + 1,
{
    reveal_strlit("  ");
    reveal_strlit("; ");
    reveal_strlit("followed");
    reveal_strlit("already reached");
    reveal_strlit("pruned");
    let indented = super::indented(doc, depth);
    an_indent_adds_no_ends(doc, depth);
    indented.a_text_adds_its_ends(link.target);
    let named = indented.text(link.target);
    named.a_text_adds_its_ends("  "@);
    named.text("  "@).a_text_adds_its_ends(super::mark(link));
    let marked = named.text("  "@).text(super::mark(link));
    marked.a_text_adds_its_ends("; "@);
    a_scent_adds_no_ends(marked.text("; "@), link.scent);
    a_line_end_ends_a_line(super::scent(marked.text("; "@), link.scent));
}

/// Whether a line stands for a file or a link that there is.
spec fn is_place(files: Seq<FileView>, place: Place) -> bool {
    match place {
        Place::Root(at) => 0 <= at < files.len(),
        Place::Link(at, link) => is_link(files, at, link),
    }
}

spec fn are_places(files: Seq<FileView>, lines: Seq<LineView>) -> bool {
    forall|k: int| 0 <= k < lines.len() ==> is_place(files, (#[trigger] lines[k]).place)
}

proof fn node_lines_are_places(
    files: Seq<FileView>,
    place: Place,
    at: int,
    depth: nat,
    fuel: nat,
)
    requires
        is_place(files, place),
        0 <= at < files.len(),
    ensures
        are_places(files, node_lines(files, place, at, depth, fuel)),
    decreases fuel, 0nat,
{
    if fuel > 0 {
        branch_lines_are_places(files, at, depth, files[at].links.len(), (fuel - 1) as nat);
    }
}

proof fn branch_lines_are_places(
    files: Seq<FileView>,
    at: int,
    depth: nat,
    n: nat,
    fuel: nat,
)
    requires
        0 <= at < files.len(),
        n <= files[at].links.len(),
    ensures
        are_places(files, branch_lines(files, at, depth, n, fuel)),
    decreases fuel, n,
{
    if n > 0 {
        branch_lines_are_places(files, at, depth, (n - 1) as nat, fuel);
        let link = files[at].links[n - 1];
        match super::child(files, link, at) {
            Some(c) => {
                super::find_is_inside(files, link.target);
                node_lines_are_places(files, Place::Link(at, n - 1), c, depth + 1, fuel);
            },
            None => {},
        }
    }
}

proof fn root_lines_are_places(files: Seq<FileView>, list: Seq<RootView>, fuel: nat)
    requires
        forall|k: int| 0 <= k < list.len() ==> 0 <= (#[trigger] list[k]).at < files.len(),
    ensures
        are_places(files, root_lines(files, list, fuel)),
    decreases list.len(),
{
    if list.len() > 0 {
        assert(list[list.len() - 1] == list.last());
        root_lines_are_places(files, list.drop_last(), fuel);
        node_lines_are_places(
            files,
            Place::Root(list.last().at),
            list.last().at,
            0,
            fuel,
        );
    }
}

proof fn lines_are_lines(files: Seq<FileView>, doc: DocView, lines: Seq<LineView>)
    requires
        are_places(files, lines),
        forall|k: int| 0 <= k < files.len() ==> is_plain(#[trigger] files[k]),
    ensures
        lines_of(files, doc, lines).line_ends() == doc.line_ends() + lines.len(),
    decreases lines.len(),
{
    if lines.len() > 0 {
        let before = lines_of(files, doc, lines.drop_last());
        let line = lines.last();
        assert(lines[lines.len() - 1] == line);
        lines_are_lines(files, doc, lines.drop_last());
        match line.place {
            Place::Root(at) => {
                a_head_is_one_line(before, files[at], line.depth, By::Root);
            },
            Place::Link(at, i) => {
                let link = files[at].links[i];
                assert(is_plain(files[at]));
                match super::child(files, link, at) {
                    Some(c) => {
                        super::find_is_inside(files, link.target);
                        a_head_is_one_line(before, files[c], line.depth, By::Link(link.scent));
                    },
                    None => {
                        a_leaf_is_one_line(before, link, line.depth);
                    },
                }
            },
        }
    }
}

/// The tree of a list has two lines of heading, one for each root, and one for each link that was
/// judged: where nothing that it prints holds a line end, no two files have the same path, none
/// follows two links to the same target, and none reached itself.
pub proof fn the_lines_of_a_tree(list: ReadingList)
    requires
        super::distinct(super::files_of(list)),
        super::follows_once(super::files_of(list)),
        no_cycle(super::files_of(list)),
        doc::unbroken(list.query@),
        doc::unbroken(list.mode@),
        forall|k: int|
            0 <= k < super::files_of(list).len() ==> is_plain(#[trigger] super::files_of(list)[k]),
    ensures
        super::tree_of(list).line_ends() == 2 + super::roots(super::files_of(list)).len() + judged(
            super::files_of(list),
        ),
{
    let files = super::files_of(list);
    let template = "{} ({}); {} visited, {}\n"@;
    let args = doc::none().push(doc::word(list.query@)) + super::run_args(list);
    let empty = DocView::empty();
    reveal_strlit("{} ({}); {} visited, {}\n");
    reveal_strlit("file");
    reveal_strlit("call");
    a_count_is_unbroken(list.visited as nat, "file"@);
    a_count_is_unbroken(list.calls as nat, "call"@);
    empty.a_template_adds_its_ends(template, args);
    counting::how_many_is_one(template, |c: char| c == '\n', template.len() - 1);
    let filled = empty.fill(template, args);
    filled.a_text_adds_its_ends(seq!['\n']);
    counting::how_many_is_one(seq!['\n'], |c: char| c == '\n', 0);
    let heading = empty.line(template, args);
    a_tree_is_its_lines(files, heading);
    the_roots_are_all(files);
    root_lines_are_places(files, super::roots(files), files.len());
    lines_are_lines(files, heading, tree_lines(files));
    a_line_for_each_root_and_link(files);
}

} // verus!
