//! Paths, by their components: `/` stands between them, one too many says nothing, and neither
//! does a `.` that is not the first.

use vstd::prelude::*;

use crate::counting;
use crate::sorting;
use crate::text;

verus! {

/// The components among the runs between slashes.
pub open spec fn kept(runs: Seq<Seq<char>>) -> Seq<Seq<char>>
    decreases runs.len(),
{
    if runs.len() == 0 {
        Seq::empty()
    } else {
        let front = kept(runs.drop_last());
        let run = runs.last();
        if run.len() > 0 && (run != seq!['.'] || runs.len() == 1) {
            front.push(run)
        } else {
            front
        }
    }
}

/// The components of a path; the root of an absolute one is its first.
pub open spec fn components(path: Seq<char>) -> Seq<Seq<char>> {
    let runs = kept(text::split(path, '/'));
    if path.len() > 0 && path[0] == '/' {
        seq![seq!['/']] + runs
    } else {
        runs
    }
}

/// The components of a path, in order.
pub fn parts(path: &str) -> (list: Vec<String>)
    ensures
        text::texts(list@) == components(path@),
{
    let runs: Vec<String> = text::split_on(path, '/');
    let mut list: Vec<String> = Vec::new();
    let all: Vec<char> = text::chars(path);
    let ghost root = if path@.len() > 0 && path@[0] == '/' {
        seq![seq!['/']]
    } else {
        Seq::<Seq<char>>::empty()
    };
    if all.len() > 0 && all[0] == '/' {
        let mut slash = String::new();
        slash.push('/');
        assert(slash@ =~= seq!['/']);
        list.push(slash);
        assert(text::texts(list@) =~= root);
    }
    assert(text::texts(list@) =~= root + kept(text::texts(runs@).take(0)));
    for i in 0..runs.len()
        invariant
            text::texts(list@) == root + kept(text::texts(runs@).take(i as int)),
    {
        let ghost next = text::texts(runs@).take(i + 1);
        assert(next.drop_last() =~= text::texts(runs@).take(i as int));
        assert(next.last() == runs@[i as int]@);
        let run: Vec<char> = text::chars(runs[i].as_str());
        let dot: bool = run.len() == 1 && run[0] == '.';
        assert(dot == (run@ == seq!['.'])) by {
            if dot {
                assert(run@ =~= seq!['.']);
            }
        }
        if run.len() > 0 && (!dot || i == 0) {
            let ghost was = text::texts(list@);
            list.push(runs[i].clone());
            assert(text::texts(list@) =~= was.push(runs@[i as int]@));
        }
        assert(text::texts(list@) =~= root + kept(next));
    }
    assert(text::texts(runs@).take(runs@.len() as int) =~= text::texts(runs@));
    assert(text::texts(list@) =~= components(path@));
    list
}

/// Whether two spellings name the same path.
pub open spec fn same_path(a: Seq<char>, b: Seq<char>) -> bool {
    components(a) == components(b)
}

pub fn is_same(a: &str, b: &str) -> (yes: bool)
    ensures
        yes == same_path(a@, b@),
{
    let a: Vec<String> = parts(a);
    let b: Vec<String> = parts(b);
    is_same_list(&a, &b)
}

/// Whether two lists hold the same texts in the same order.
pub fn is_same_list(a: &Vec<String>, b: &Vec<String>) -> (yes: bool)
    ensures
        yes == (text::texts(a@) == text::texts(b@)),
{
    if a.len() != b.len() {
        assert(text::texts(a@).len() != text::texts(b@).len());
        return false;
    }
    for i in 0..a.len()
        invariant
            a.len() == b.len(),
            forall|k: int| 0 <= k < i ==> (#[trigger] a@[k])@ == b@[k]@,
    {
        if !text::same(a[i].as_str(), b[i].as_str()) {
            assert(text::texts(a@)[i as int] != text::texts(b@)[i as int]);
            return false;
        }
    }
    assert(text::texts(a@) =~= text::texts(b@));
    true
}

/// What kind of component this is: the root, this directory, the one above, or a name.
pub open spec fn rank(part: Seq<char>) -> int {
    if part == seq!['/'] {
        0
    } else if part == seq!['.'] {
        1
    } else if part == seq!['.', '.'] {
        2
    } else {
        3
    }
}

/// The order of components: by kind, names as texts.
pub open spec fn part_before(a: Seq<char>, b: Seq<char>) -> bool {
    rank(a) < rank(b) || (rank(a) == 3 && rank(b) == 3 && text::before(a, b))
}

/// Whether `a` comes before `b` once their first `i` components are known to agree.
pub open spec fn before_from(a: Seq<Seq<char>>, b: Seq<Seq<char>>, i: int) -> bool
    decreases a.len() - i,
{
    if i >= b.len() {
        false
    } else if i >= a.len() {
        true
    } else if a[i] != b[i] {
        part_before(a[i], b[i])
    } else {
        before_from(a, b, i + 1)
    }
}

/// The order of paths: by the first component that differs, a directory before what it holds.
pub open spec fn path_before(a: Seq<char>, b: Seq<char>) -> bool {
    before_from(components(a), components(b), 0)
}

proof fn part_before_is_a_strict_total_order(a: Seq<char>, b: Seq<char>, c: Seq<char>)
    ensures
        !part_before(a, a),
        part_before(a, b) && part_before(b, c) ==> part_before(a, c),
        part_before(a, b) ==> !part_before(b, a),
        a == b || part_before(a, b) || part_before(b, a),
{
    text::before_is_a_strict_total_order(a, b, c);
}

proof fn before_from_irreflexive(a: Seq<Seq<char>>, i: int)
    ensures
        !before_from(a, a, i),
    decreases a.len() - i,
{
    if i < a.len() {
        before_from_irreflexive(a, i + 1);
    }
}

proof fn before_from_transitive(a: Seq<Seq<char>>, b: Seq<Seq<char>>, c: Seq<Seq<char>>, i: int)
    requires
        before_from(a, b, i),
        before_from(b, c, i),
    ensures
        before_from(a, c, i),
    decreases a.len() - i,
{
    if i < a.len() && i < b.len() && i < c.len() {
        part_before_is_a_strict_total_order(a[i], b[i], c[i]);
        if a[i] == b[i] && b[i] == c[i] {
            before_from_transitive(a, b, c, i + 1);
        }
    }
}

proof fn before_from_total(a: Seq<Seq<char>>, b: Seq<Seq<char>>, i: int)
    requires
        0 <= i,
        i <= a.len(),
        i <= b.len(),
        forall|j: int| 0 <= j < i ==> a[j] == b[j],
        !before_from(a, b, i),
        !before_from(b, a, i),
    ensures
        a == b,
    decreases a.len() - i,
{
    if i < a.len() && i < b.len() {
        part_before_is_a_strict_total_order(a[i], b[i], a[i]);
        assert(a[i] == b[i]);
        before_from_total(a, b, i + 1);
    } else {
        assert(a =~= b);
    }
}

/// The order of paths is a strict total order.
pub proof fn path_before_is_a_strict_total_order(a: Seq<char>, b: Seq<char>, c: Seq<char>)
    ensures
        !path_before(a, a),
        path_before(a, b) && path_before(b, c) ==> path_before(a, c),
        path_before(a, b) ==> !path_before(b, a),
        same_path(a, b) || path_before(a, b) || path_before(b, a),
{
    let (x, y, z) = (components(a), components(b), components(c));
    before_from_irreflexive(x, 0);
    if path_before(a, b) && path_before(b, c) {
        before_from_transitive(x, y, z, 0);
    }
    if path_before(a, b) && path_before(b, a) {
        before_from_transitive(x, y, x, 0);
    }
    if !path_before(a, b) && !path_before(b, a) {
        before_from_total(x, y, 0);
    }
}

pub fn rank_of(part: &str) -> (n: u8)
    ensures
        n == rank(part@),
{
    let all: Vec<char> = text::chars(part);
    assert(seq!['/'] =~= seq!['/']);
    if all.len() == 1 && all[0] == '/' {
        assert(all@ =~= seq!['/']);
        0
    } else if all.len() == 1 && all[0] == '.' {
        assert(all@ =~= seq!['.']);
        assert(all@[0] != '/');
        1
    } else if all.len() == 2 && all[0] == '.' && all[1] == '.' {
        assert(all@ =~= seq!['.', '.']);
        2
    } else {
        3
    }
}

/// Whether one path comes before another.
pub fn is_path_before(a: &str, b: &str) -> (yes: bool)
    ensures
        yes == path_before(a@, b@),
{
    let x: Vec<String> = parts(a);
    let y: Vec<String> = parts(b);
    let ghost xs = text::texts(x@);
    let ghost ys = text::texts(y@);
    let mut i: usize = 0;
    while i < x.len() && i < y.len() && text::same(x[i].as_str(), y[i].as_str())
        invariant
            i <= x.len(),
            i <= y.len(),
            xs == text::texts(x@),
            ys == text::texts(y@),
            path_before(a@, b@) == before_from(xs, ys, i as int),
        decreases x.len() - i,
    {
        assert(xs[i as int] == ys[i as int]);
        i += 1;
    }
    if i >= y.len() {
        false
    } else if i >= x.len() {
        true
    } else {
        assert(xs[i as int] == x@[i as int]@);
        assert(ys[i as int] == y@[i as int]@);
        let p: u8 = rank_of(x[i].as_str());
        let q: u8 = rank_of(y[i].as_str());
        p < q || (p == 3 && q == 3 && text::is_before(x[i].as_str(), y[i].as_str()))
    }
}

/// What is left of a path's components behind those of a directory that it is in.
pub open spec fn below(path: Seq<char>, dir: Seq<char>) -> Option<Seq<Seq<char>>> {
    let whole = components(path);
    let front = components(dir);
    if front.is_prefix_of(whole) {
        Some(whole.skip(front.len() as int))
    } else {
        None
    }
}

/// The path of components.
pub open spec fn path_of(parts: Seq<Seq<char>>) -> Seq<char> {
    text::joined(parts, seq!['/'])
}

/// A component that is a name, or the directory above.
pub open spec fn is_name(part: Seq<char>) -> bool {
    part.len() > 0 && !part.contains('/') && part != seq!['.']
}

pub open spec fn all_names(parts: Seq<Seq<char>>) -> bool {
    forall|i: int| 0 <= i < parts.len() ==> is_name(#[trigger] parts[i])
}

proof fn kept_joins(a: Seq<Seq<char>>, b: Seq<Seq<char>>)
    requires
        a.len() > 0,
        b.len() > 0 ==> b[0] != seq!['.'],
    ensures
        kept(a + b) == kept(a) + kept(b),
    decreases b.len(),
{
    if b.len() == 0 {
        assert(a + b =~= a);
        assert(kept(a) + kept(b) =~= kept(a));
    } else {
        let front = b.drop_last();
        assert((a + b).drop_last() =~= a + front);
        assert(front.len() > 0 ==> front[0] == b[0]);
        kept_joins(a, front);
        assert(kept(a + b) =~= kept(a) + kept(b));
    }
}

proof fn names_are_kept(parts: Seq<Seq<char>>)
    requires
        all_names(parts),
    ensures
        kept(parts) == parts,
    decreases parts.len(),
{
    if parts.len() > 0 {
        let front = parts.drop_last();
        assert forall|i: int| 0 <= i < front.len() implies is_name(#[trigger] front[i]) by {
            assert(front[i] == parts[i]);
        }
        names_are_kept(front);
        assert(is_name(parts[parts.len() - 1]));
        assert(front.push(parts.last()) =~= parts);
    } else {
        assert(kept(parts) =~= parts);
    }
}

proof fn path_is_split(parts: Seq<Seq<char>>)
    requires
        all_names(parts),
        parts.len() > 0,
    ensures
        text::split(path_of(parts), '/') == parts,
        path_of(parts).len() > 0,
        path_of(parts)[0] == parts[0][0],
    decreases parts.len(),
{
    let last = parts.last();
    assert(is_name(parts[parts.len() - 1]));
    text::runs_hold_no_separator(last, '/');
    if parts.len() == 1 {
        assert(parts =~= seq![last]);
    } else {
        let front = parts.drop_last();
        assert forall|i: int| 0 <= i < front.len() implies is_name(#[trigger] front[i]) by {
            assert(front[i] == parts[i]);
        }
        path_is_split(front);
        let before = path_of(front);
        assert(path_of(parts) =~= before.push('/') + last);
        text::split_joins(before, last, '/');
        assert(parts =~= front + seq![last]);
        assert(path_of(parts)[0] == before[0]);
    }
}

/// The path of names has them for components.
pub proof fn names_are_components(parts: Seq<Seq<char>>)
    requires
        all_names(parts),
    ensures
        components(path_of(parts)) == parts,
{
    names_are_kept(parts);
    if parts.len() == 0 {
        assert(path_of(parts) =~= Seq::<char>::empty());
        let runs = text::split(path_of(parts), '/');
        assert(runs.drop_last() =~= Seq::<Seq<char>>::empty());
        assert(kept(runs) =~= parts);
    } else {
        path_is_split(parts);
        assert(is_name(parts[0]));
        assert(parts[0][0] != '/') by {
            if parts[0][0] == '/' {
                assert(parts[0].contains('/'));
            }
        }
    }
}

proof fn kept_are_names(runs: Seq<Seq<char>>)
    requires
        forall|i: int| 0 <= i < runs.len() ==> !(#[trigger] runs[i]).contains('/'),
    ensures
        forall|i: int|
            0 <= i < kept(runs).len() ==> (#[trigger] kept(runs)[i]).len() > 0 && !kept(
                runs,
            )[i].contains('/') && (kept(runs)[i] == seq!['.'] ==> i == 0 && runs[0] == seq!['.']),
    decreases runs.len(),
{
    if runs.len() > 0 {
        let front = runs.drop_last();
        assert forall|i: int| 0 <= i < front.len() implies !(#[trigger] front[i]).contains('/') by {
            assert(front[i] == runs[i]);
        }
        kept_are_names(front);
        assert(!runs[runs.len() - 1].contains('/'));
        assert forall|i: int| 0 <= i < kept(runs).len() implies (#[trigger] kept(runs)[i]).len() > 0
            && !kept(runs)[i].contains('/') && (kept(runs)[i] == seq!['.'] ==> i == 0 && runs[0]
            == seq!['.']) by {
            if i < kept(front).len() {
                assert(kept(runs)[i] == kept(front)[i]);
                if kept(front)[i] == seq!['.'] {
                    assert(front.len() > 0 && front[0] == runs[0]);
                }
            }
        }
    }
}

proof fn absolute_runs(path: Seq<char>)
    requires
        path.len() > 0,
        path[0] == '/',
    ensures
        text::split(path, '/').len() > 0,
        text::split(path, '/')[0].len() == 0,
{
    let empty = Seq::<char>::empty();
    assert(path =~= empty.push('/') + path.skip(1));
    text::split_joins(empty, path.skip(1), '/');
    assert(text::split(empty, '/') =~= seq![empty]);
}

/// Behind its first, every component of a path is a name; the first is too, unless it is the root
/// or this directory. The root is the first component of an absolute path and of no other.
pub proof fn components_are_names(path: Seq<char>)
    ensures
        forall|i: int| 1 <= i < components(path).len() ==> is_name(#[trigger] components(path)[i]),
        path.len() > 0 && path[0] == '/' ==> components(path).len() > 0 && components(path)[0]
            == seq!['/'],
        !(path.len() > 0 && path[0] == '/') && components(path).len() > 0 ==> is_name(
            components(path)[0],
        ) || components(path)[0] == seq!['.'],
{
    let runs = text::split(path, '/');
    text::runs_hold_no_separator(path, '/');
    kept_are_names(runs);
    let all = components(path);
    if path.len() > 0 && path[0] == '/' {
        absolute_runs(path);
        assert forall|i: int| 1 <= i < all.len() implies is_name(#[trigger] all[i]) by {
            assert(all[i] == kept(runs)[i - 1]);
            assert(runs[0].len() == 0);
        }
    } else {
        assert forall|i: int| 1 <= i < all.len() implies is_name(#[trigger] all[i]) by {
            assert(all[i] == kept(runs)[i]);
        }
        if all.len() > 0 {
            assert(all[0] == kept(runs)[0]);
        }
    }
}

/// The components of a relative path under a directory are those of the directory and then its
/// own, where its first is not this directory.
pub proof fn components_join(dir: Seq<char>, path: Seq<char>)
    requires
        dir.len() > 0,
        path.len() > 0 ==> path[0] != '/',
        components(path).len() > 0 ==> components(path)[0] != seq!['.'],
    ensures
        components(joined_path(dir, path)) == components(dir) + components(path),
{
    let whole = joined_path(dir, path);
    let own = text::split(path, '/');
    text::split_is_never_empty(path, '/');
    assert(own[0] != seq!['.']) by {
        if own[0] == seq!['.'] {
            first_run_is_kept(own);
        }
    }
    let front = if dir.last() == '/' {
        dir.drop_last()
    } else {
        dir
    };
    assert(whole =~= front.push('/') + path);
    text::split_joins(front, path, '/');
    text::split_is_never_empty(front, '/');
    let runs = text::split(front, '/');
    kept_joins(runs, own);
    assert(kept(text::split(dir, '/')) == kept(runs)) by {
        if dir.last() == '/' {
            assert(text::split(dir, '/') == runs.push(Seq::empty()));
            assert(runs.push(Seq::empty()).drop_last() =~= runs);
        }
    }
    assert(whole[0] == dir[0]);
    assert(components(whole) =~= components(dir) + components(path));
}

proof fn first_run_is_kept(runs: Seq<Seq<char>>)
    requires
        runs.len() > 0,
        runs[0] == seq!['.'],
    ensures
        kept(runs).len() > 0,
        kept(runs)[0] == seq!['.'],
    decreases runs.len(),
{
    if runs.len() > 1 {
        first_run_is_kept(runs.drop_last());
    } else {
        assert(kept(runs.drop_last()) =~= Seq::<Seq<char>>::empty());
    }
}

/// A path relative to a directory that it is in.
pub fn strip(path: &str, dir: &str) -> (rest: Option<String>)
    ensures
        rest is Some == below(path@, dir@) is Some,
        rest matches Some(r) ==> r@ == path_of(below(path@, dir@)->0),
{
    let whole: Vec<String> = parts(path);
    let front: Vec<String> = parts(dir);
    if front.len() > whole.len() {
        assert(text::texts(front@).len() > text::texts(whole@).len());
        return None;
    }
    for i in 0..front.len()
        invariant
            front.len() <= whole.len(),
            text::texts(whole@) == components(path@),
            text::texts(front@) == components(dir@),
            forall|k: int| 0 <= k < i ==> (#[trigger] front@[k])@ == whole@[k]@,
    {
        if !text::same(front[i].as_str(), whole[i].as_str()) {
            assert(text::texts(front@)[i as int] != text::texts(whole@)[i as int]);
            assert(!text::texts(front@).is_prefix_of(text::texts(whole@))) by {
                if text::texts(front@).is_prefix_of(text::texts(whole@)) {
                    assert(text::texts(whole@).subrange(0, front@.len() as int)[i as int]
                        == text::texts(front@)[i as int]);
                }
            }
            return None;
        }
    }
    assert(text::texts(front@).is_prefix_of(text::texts(whole@))) by {
        assert(text::texts(front@) =~= text::texts(whole@).subrange(0, front@.len() as int));
    }
    let mut rest: Vec<String> = Vec::new();
    for i in front.len()..whole.len()
        invariant
            front.len() <= whole.len(),
            text::texts(rest@) == text::texts(whole@).subrange(front@.len() as int, i as int),
    {
        let ghost was = text::texts(rest@);
        rest.push(whole[i].clone());
        assert(text::texts(rest@) =~= was.push(whole@[i as int]@));
        assert(text::texts(rest@) =~= text::texts(whole@).subrange(front@.len() as int, i + 1));
    }
    assert(text::texts(whole@).subrange(front@.len() as int, whole@.len() as int)
        =~= text::texts(whole@).skip(front@.len() as int));
    let mut slash = String::new();
    slash.push('/');
    assert(slash@ =~= seq!['/']);
    Some(text::join(&rest, slash.as_str()))
}

/// A path under a directory: an absolute one is itself.
pub open spec fn joined_path(dir: Seq<char>, path: Seq<char>) -> Seq<char> {
    if dir.len() == 0 || (path.len() > 0 && path[0] == '/') {
        path
    } else if dir.last() == '/' {
        dir + path
    } else {
        dir + seq!['/'] + path
    }
}

pub fn join(dir: &str, path: &str) -> (whole: String)
    ensures
        whole@ == joined_path(dir@, path@),
{
    let d: Vec<char> = text::chars(dir);
    let p: Vec<char> = text::chars(path);
    if d.len() == 0 || (p.len() > 0 && p[0] == '/') {
        path.to_owned()
    } else {
        let mut whole: String = dir.to_owned();
        if d[d.len() - 1] != '/' {
            whole.push('/');
            assert(whole@ =~= dir@ + seq!['/']);
        }
        whole.append(path);
        whole
    }
}

/// One spelling for each path: its components with a slash between them.
pub open spec fn spelling(path: Seq<char>) -> Seq<char> {
    path_of(components(path))
}

pub fn spell(path: &str) -> (spelt: String)
    ensures
        spelt@ == spelling(path@),
{
    let all: Vec<String> = parts(path);
    let mut slash = String::new();
    slash.push('/');
    assert(slash@ =~= seq!['/']);
    text::join(&all, slash.as_str())
}

/// Paths in ascending order, none twice.
pub open spec fn ascending(list: Seq<Seq<char>>) -> bool {
    forall|i: int, j: int|
        0 <= i < j < list.len() ==> path_before(#[trigger] list[i], #[trigger] list[j])
}

/// Whether a list holds a path, in whatever spelling.
pub open spec fn holds(list: Seq<Seq<char>>, path: Seq<char>) -> bool {
    exists|i: int| 0 <= i < list.len() && same_path(#[trigger] list[i], path)
}

/// Whether a list of paths holds a path.
pub fn has(list: &Vec<String>, path: &str) -> (yes: bool)
    ensures
        yes == holds(text::texts(list@), path@),
{
    for i in 0..list.len()
        invariant
            forall|k: int| 0 <= k < i ==> !same_path(#[trigger] text::texts(list@)[k], path@),
    {
        if is_same(list[i].as_str(), path) {
            assert(same_path(text::texts(list@)[i as int], path@));
            return true;
        }
        assert(text::texts(list@)[i as int] == list@[i as int]@);
    }
    false
}

/// Puts a path into an ascending list, unless it is there already.
pub fn add(list: &mut Vec<String>, path: String)
    requires
        ascending(text::texts(old(list)@)),
    ensures
        ascending(text::texts(final(list)@)),
        forall|other: Seq<char>| #[trigger]
            holds(text::texts(final(list)@), other) == (holds(text::texts(old(list)@), other)
                || same_path(path@, other)),
        forall|i: int|
            0 <= i < final(list).len() ==> #[trigger] text::texts(final(list)@)[i] == path@
                || text::texts(old(list)@).contains(text::texts(final(list)@)[i]),
        final(list).len() <= old(list).len() + 1,
{
    let ghost was = text::texts(list@);
    let ghost item = path@;
    let mut at: usize = 0;
    while at < list.len() && is_path_before(list[at].as_str(), path.as_str())
        invariant
            at <= list.len(),
            was == text::texts(list@),
            item == path@,
            forall|i: int| 0 <= i < at ==> path_before(#[trigger] was[i], item),
        decreases list.len() - at,
    {
        at += 1;
    }
    if at < list.len() && is_same(list[at].as_str(), path.as_str()) {
        proof {
            assert(same_path(was[at as int], item));
            assert forall|i: int| 0 <= i < was.len() implies was.contains(#[trigger] was[i]) by {}
            assert forall|other: Seq<char>| #[trigger]
                holds(was, other) == (holds(was, other) || same_path(item, other)) by {
                if same_path(item, other) {
                    assert(same_path(was[at as int], other));
                }
            }
        }
        return;
    }
    list.insert(at, path);
    proof {
        let now = text::texts(list@);
        assert(now =~= was.insert(at as int, item));
        assert forall|i: int| at <= i < was.len() implies path_before(item, #[trigger] was[i]) by {
            path_before_is_a_strict_total_order(item, was[at as int], was[i]);
            if i > at {
                assert(path_before(was[at as int], was[i]));
            }
        }
        assert forall|i: int, j: int| 0 <= i < j < now.len() implies path_before(
            #[trigger] now[i],
            #[trigger] now[j],
        ) by {
            if j < at {
                assert(now[i] == was[i] && now[j] == was[j]);
            } else if j == at {
                assert(now[i] == was[i]);
            } else if i < at {
                assert(now[i] == was[i] && now[j] == was[j - 1]);
            } else if i == at {
                assert(now[j] == was[j - 1]);
            } else {
                assert(now[i] == was[i - 1] && now[j] == was[j - 1]);
            }
        }
        assert forall|other: Seq<char>| #[trigger]
            holds(now, other) == (holds(was, other) || same_path(item, other)) by {
            if holds(was, other) {
                let i = choose|i: int| 0 <= i < was.len() && same_path(#[trigger] was[i], other);
                if i < at {
                    assert(same_path(now[i], other));
                } else {
                    assert(same_path(now[i + 1], other));
                }
            }
            if same_path(item, other) {
                assert(same_path(now[at as int], other));
            }
            if holds(now, other) {
                let i = choose|i: int| 0 <= i < now.len() && same_path(#[trigger] now[i], other);
                if i < at {
                    assert(same_path(was[i], other));
                } else if i > at {
                    assert(same_path(was[i - 1], other));
                }
            }
        }
        assert forall|i: int| 0 <= i < now.len() implies #[trigger] now[i] == item || was.contains(
            now[i],
        ) by {
            if i < at {
                assert(now[i] == was[i]);
            } else if i > at {
                assert(now[i] == was[i - 1]);
            }
        }
    }
}

/// A path without the slashes and the `.` components at its end.
pub open spec fn trimmed_path(path: Seq<char>) -> Seq<char>
    decreases path.len(),
{
    if path.len() > 1 && path.last() == '/' {
        trimmed_path(path.drop_last())
    } else if path.len() > 1 && path.last() == '.' && path[path.len() - 2] == '/' {
        trimmed_path(path.drop_last())
    } else {
        path
    }
}

/// A path up to its last slash.
pub open spec fn up_to_slash(path: Seq<char>) -> Seq<char>
    decreases path.len(),
{
    if path.len() == 0 || path.last() == '/' {
        path
    } else {
        up_to_slash(path.drop_last())
    }
}

/// The directory a path is in: none for the root and for no path at all.
pub open spec fn parent(path: Seq<char>) -> Option<Seq<char>> {
    let whole = trimmed_path(path);
    if whole.len() == 0 || whole == seq!['/'] {
        None
    } else {
        Some(trimmed_path(up_to_slash(whole)))
    }
}

fn trimmed_to(path: &Vec<char>, n: usize) -> (to: usize)
    requires
        n <= path.len(),
    ensures
        to <= n,
        path@.take(to as int) == trimmed_path(path@.take(n as int)),
{
    let mut to: usize = n;
    while to > 1 && (path[to - 1] == '/' || (path[to - 1] == '.' && path[to - 2] == '/'))
        invariant
            to <= n <= path.len(),
            trimmed_path(path@.take(n as int)) == trimmed_path(path@.take(to as int)),
        decreases to,
    {
        assert(path@.take(to as int).drop_last() =~= path@.take(to - 1));
        to -= 1;
    }
    to
}

/// The directory a path is in.
pub fn parent_of(path: &str) -> (dir: Option<String>)
    ensures
        match dir {
            Some(dir) => parent(path@) == Some(dir@),
            None => parent(path@) is None,
        },
{
    let all: Vec<char> = text::chars(path);
    assert(all@.take(all@.len() as int) =~= path@);
    let whole: usize = trimmed_to(&all, all.len());
    let ghost trimmed = all@.take(whole as int);
    if whole == 0 || (whole == 1 && all[0] == '/') {
        assert(whole == 1 ==> trimmed =~= seq!['/']);
        return None;
    }
    assert(trimmed != seq!['/']) by {
        if trimmed == seq!['/'] {
            assert(trimmed[0] == '/');
        }
    }
    let mut at: usize = whole;
    while at > 0 && all[at - 1] != '/'
        invariant
            at <= whole <= all.len(),
            up_to_slash(all@.take(whole as int)) == up_to_slash(all@.take(at as int)),
        decreases at,
    {
        assert(all@.take(at as int).drop_last() =~= all@.take(at - 1));
        at -= 1;
    }
    let to: usize = trimmed_to(&all, at);
    let dir: String = text::string(&all, 0, to);
    assert(dir@ =~= all@.take(to as int));
    Some(dir)
}

/// The paths of a list, each once, as it is spelled first.
pub open spec fn once(list: Seq<Seq<char>>) -> Seq<Seq<char>>
    decreases list.len(),
{
    if list.len() == 0 {
        Seq::empty()
    } else if holds(once(list.drop_last()), list.last()) {
        once(list.drop_last())
    } else {
        once(list.drop_last()).push(list.last())
    }
}

/// The paths of a list, each once, in order.
pub open spec fn listed(list: Seq<Seq<char>>) -> Seq<Seq<char>> {
    sorting::sorted(once(list), |a: Seq<char>, b: Seq<char>| path_before(a, b))
}

fn comes_before(a: &String, b: &String) -> (yes: bool)
    ensures
        yes == path_before(a@, b@),
{
    is_path_before(a.as_str(), b.as_str())
}

pub fn list_paths(list: &Vec<String>) -> (paths: Vec<String>)
    ensures
        text::texts(paths@) == listed(text::texts(list@)),
{
    let ghost all = text::texts(list@);
    let mut found: Vec<String> = Vec::new();
    assert(text::texts(found@) =~= Seq::<Seq<char>>::empty());
    for i in 0..list.len()
        invariant
            all == text::texts(list@),
            text::texts(found@) == once(all.take(i as int)),
    {
        proof {
            counting::one_more(all, i as int);
            assert(all[i as int] == list@[i as int]@);
        }
        let held: bool = has(&found, list[i].as_str());
        if !held {
            let ghost was = text::texts(found@);
            found.push(list[i].clone());
            assert(text::texts(found@) =~= was.push(all[i as int]));
        }
    }
    proof {
        counting::take_all(all);
    }
    let ghost lt = |a: String, b: String| path_before(a@, b@);
    let ghost ltv = |a: Seq<char>, b: Seq<char>| path_before(a, b);
    proof {
        sorting::sorted_maps(found@, lt, |t: String| t@, ltv);
        assert(text::texts(found@) =~= found@.map_values(|t: String| t@));
    }
    let paths: Vec<String> = sorting::sort(found, comes_before, Ghost(lt));
    assert(text::texts(paths@) =~= paths@.map_values(|t: String| t@));
    paths
}

} // verus!
