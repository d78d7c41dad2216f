//! What is promised of reading lists, of stored answers and of the rules that leave pages out.

use vstd::prelude::*;

use crate::cache;
use crate::cache::{Asked, Entry, Scored};
use crate::json;
use crate::json::JsonView;
use crate::laws::basics;
use crate::paths;
use crate::reading;
use crate::reading::{Item, List, ListedView};
use crate::s1mignore;
use crate::s1mignore::Ignore;
use crate::text;

verus! {

/// Whether one of the files of a list has a path, however it is spelled.
spec fn names(list: Seq<ListedView>, path: Seq<char>) -> bool {
    exists|k: int|
        0 <= k < list.len() && paths::components((#[trigger] list[k]).path) == paths::components(
            path,
        )
}

proof fn names_are_held(list: Seq<ListedView>, path: Seq<char>)
    ensures
        paths::holds(reading::paths_of(list), path) == names(list, path),
{
    let all = reading::paths_of(list);
    if paths::holds(all, path) {
        let k = choose|k: int| 0 <= k < all.len() && paths::same_path(#[trigger] all[k], path);
        assert(paths::components(list[k].path) == paths::components(path));
    }
    if names(list, path) {
        let k = choose|k: int|
            0 <= k < list.len() && paths::components((#[trigger] list[k]).path)
                == paths::components(path);
        assert(paths::same_path(all[k], path));
    }
}

/// Whether a list names a path with one of the first results.
pub open spec fn is_named_by(
    list: Seq<ListedView>,
    at: Seq<int>,
    path: Seq<char>,
    i: int,
) -> bool {
    exists|k: int|
        0 <= k < at.len() && #[trigger] at[k] <= i && paths::components(path) == paths::components(
            list[k].path,
        )
}

/// A list names each file once, where it is named first and with the ranges it is named with there,
/// in the order of the results.
pub proof fn each_file_is_listed_once(items: Seq<Item>) -> (at: Seq<int>)
    ensures
        at.len() == reading::listed(items).len(),
        forall|k: int|
            0 <= k < at.len() ==> 0 <= #[trigger] at[k] < items.len() && items[at[k]].path is Some
                && items[at[k]].path->0@ == reading::listed(items)[k].path && items[at[k]].ranges@
                == reading::listed(items)[k].ranges,
        forall|j: int, k: int| 0 <= j < k < at.len() ==> #[trigger] at[j] < #[trigger] at[k],
        forall|j: int, k: int|
            0 <= j < k < at.len() ==> paths::components(
                (#[trigger] reading::listed(items)[j]).path,
            ) != paths::components((#[trigger] reading::listed(items)[k]).path),
        forall|i: int|
            0 <= i < items.len() && (#[trigger] items[i]).path is Some ==> is_named_by(
                reading::listed(items),
                at,
                items[i].path->0@,
                i,
            ),
    decreases items.len(),
{
    if items.len() == 0 {
        Seq::empty()
    } else {
        let n = items.len() - 1;
        let front = items.drop_last();
        let before = each_file_is_listed_once(front);
        let (some, all) = (reading::listed(front), reading::listed(items));
        let last = items.last();
        if last.path is Some {
            names_are_held(some, last.path->0@);
        }
        let taken = last.path is Some && !names(some, last.path->0@);
        let at = if taken {
            before.push(n)
        } else {
            before
        };
        assert(taken ==> all == some.push(
            ListedView { path: last.path->0@, ranges: last.ranges@ },
        ));
        assert(!taken ==> all == some);
        assert forall|k: int| 0 <= k < at.len() implies 0 <= #[trigger] at[k] < items.len()
            && items[at[k]].path is Some && items[at[k]].path->0@ == all[k].path
            && items[at[k]].ranges@ == all[k].ranges by {
            if k < before.len() {
                assert(at[k] == before[k]);
                assert(front[before[k]] == items[before[k]]);
            }
        }
        assert forall|j: int, k: int| 0 <= j < k < at.len() implies #[trigger] at[j]
            < #[trigger] at[k] by {
            assert(at[j] == before[j]);
            if k < before.len() {
                assert(at[k] == before[k]);
            }
        }
        assert forall|j: int, k: int| 0 <= j < k < at.len() implies paths::components(
            (#[trigger] all[j]).path,
        ) != paths::components((#[trigger] all[k]).path) by {
            assert(all[j] == some[j]);
            if k < before.len() {
                assert(all[k] == some[k]);
            }
        }
        assert forall|i: int|
            0 <= i < items.len() && (#[trigger] items[i]).path is Some implies is_named_by(
            all,
            at,
            items[i].path->0@,
            i,
        ) by {
            let path = items[i].path->0@;
            if i < n {
                assert(front[i] == items[i]);
                assert(is_named_by(some, before, path, i));
                let k = choose|k: int|
                    0 <= k < before.len() && #[trigger] before[k] <= i && paths::components(path)
                        == paths::components(some[k].path);
                assert(at[k] == before[k] && all[k] == some[k]);
            } else if taken {
                assert(at[before.len() as int] == n);
            } else {
                let k = choose|k: int|
                    0 <= k < some.len() && paths::components((#[trigger] some[k]).path)
                        == paths::components(path);
                assert(at[k] == before[k]);
                assert(0 <= before[k] < front.len());
            }
        }
        at
    }
}

/// What a list costs is the sum over its files of what is read of each: the characters of its
/// ranges, and nothing of a file that could not be read.
pub proof fn every_file_that_is_read_costs(
    list: Seq<ListedView>,
    sources: Seq<Option<String>>,
    one: ListedView,
    source: Option<String>,
)
    requires
        list.len() == sources.len(),
    ensures
        reading::costs(list.push(one), sources.push(source), list.len() as int + 1) == reading::costs(
            list,
            sources,
            list.len() as int,
        ) + match source {
            Some(source) => reading::chars_of(source@, one.ranges),
            None => 0,
        },
        reading::costs(Seq::empty(), Seq::empty(), 0) == 0,
{
    costs_of_the_first(list, sources, one, source, list.len() as int);
}

proof fn costs_of_the_first(
    list: Seq<ListedView>,
    sources: Seq<Option<String>>,
    one: ListedView,
    source: Option<String>,
    n: int,
)
    requires
        n <= list.len() == sources.len(),
    ensures
        reading::costs(list.push(one), sources.push(source), n) == reading::costs(list, sources, n),
    decreases n,
{
    if n > 0 {
        costs_of_the_first(list, sources, one, source, n - 1);
    }
}

/// Four characters are a token, and what is left of four is one more.
pub proof fn what_is_read_is_paid_by_the_token(chars: nat)
    ensures
        4 * reading::tokens_for(chars) >= chars,
        4 * reading::tokens_for(chars) < chars + 4,
{
}

/// The lines of a section are the pair that its `lines` holds: two whole numbers, the first of them
/// the first line.
pub open spec fn pair_at(section: Seq<char>, first: u64, last: u64) -> bool {
    json::json_at(section, "/lines"@) matches JsonView::List(lines) && lines.len() >= 2 && (
    json::json_at(lines[0], ""@) matches JsonView::Number(Some(a), _) && a == first) && (
    json::json_at(lines[1], ""@) matches JsonView::Number(Some(b), _) && b == last)
}

/// A list holds what was returned: a file for each result, with the path that the result has and
/// the lines of each of its sections that has lines, in order; how many files were visited and how
/// many answers were bought are as reported, and none where nothing is.
pub proof fn a_list_is_read_as_it_was_returned(
    doc: Seq<char>,
    results: Seq<Seq<char>>,
    list: List,
    i: int,
) -> (at: Seq<int>)
    requires
        reading::list_read(doc, results, list),
        0 <= i < results.len(),
    ensures
        list.items.len() == results.len(),
        match list.items@[i].path {
            Some(path) => json::json_at(results[i], "/path"@) == JsonView::Text(path@),
            None => !(json::json_at(results[i], "/path"@) is Text),
        },
        json::json_at(doc, "/visited"@) matches JsonView::Number(Some(n), _) ==> list.visited
            == n as usize,
        json::json_at(doc, "/visited"@) is Missing ==> list.visited == 0,
        json::json_at(doc, "/calls"@) matches JsonView::Number(Some(n), _) ==> list.calls == n,
        json::json_at(doc, "/calls"@) is Missing ==> list.calls == 0,
        !(json::json_at(results[i], "/sections"@) is List) ==> list.items@[i].ranges.len() == 0,
        json::json_at(results[i], "/sections"@) matches JsonView::List(sections) ==> {
            &&& at.len() == list.items@[i].ranges.len()
            &&& forall|k: int|
                0 <= k < at.len() ==> 0 <= #[trigger] at[k] < sections.len() && exists|
                    first: u64,
                    last: u64,
                | #[trigger]
                    pair_at(sections[at[k]], first, last) && list.items@[i].ranges@[k] == (
                        first as usize,
                        last as usize,
                    )
            &&& forall|j: int, k: int| 0 <= j < k < at.len() ==> #[trigger] at[j] < #[trigger] at[k]
            &&& forall|s: int, first: u64, last: u64|
                0 <= s < sections.len() && #[trigger] pair_at(sections[s], first, last)
                    ==> at.contains(s)
        },
{
    assert(reading::item_read(results[i], list.items@[i]));
    match json::json_at(results[i], "/sections"@) {
        JsonView::List(sections) => {
            let of = |section: Seq<char>| reading::range_read(section);
            ranges_are_gathered(sections);
            let at = basics::what_is_gathered_is_in_order(sections, of);
            assert forall|k: int| 0 <= k < at.len() implies 0 <= #[trigger] at[k] < sections.len()
                && exists|first: u64, last: u64| #[trigger]
                pair_at(sections[at[k]], first, last) && list.items@[i].ranges@[k] == (
                    first as usize,
                    last as usize,
                ) by {
                assert(of(sections[at[k]]) == Some(list.items@[i].ranges@[k]));
                let lines = json::json_at(sections[at[k]], "/lines"@)->List_0;
                let first = json::as_count(json::json_at(lines[0], ""@))->0;
                let last = json::as_count(json::json_at(lines[1], ""@))->0;
                assert(pair_at(sections[at[k]], first, last));
            }
            assert forall|s: int, first: u64, last: u64|
                0 <= s < sections.len() && #[trigger] pair_at(
                    sections[s],
                    first,
                    last,
                ) implies at.contains(s) by {
                assert(of(sections[s]) is Some);
            }
            at
        },
        _ => Seq::empty(),
    }
}

proof fn ranges_are_gathered(sections: Seq<Seq<char>>)
    ensures
        reading::ranges_read(sections) == basics::gathered(
            sections,
            |section: Seq<char>| reading::range_read(section),
        ),
    decreases sections.len(),
{
    if sections.len() > 0 {
        ranges_are_gathered(sections.drop_last());
    }
}

/// An answer is served again where it was stored in the format that is stored now, and in no other.
pub proof fn a_stored_answer_is_served<D>(
    store: Map<Seq<char>, Entry<D>>,
    asked: Asked<D>,
    again: Asked<D>,
)
    requires
        again.request == asked.request,
    ensures
        cache::judged(cache::storing(store, asked), again) is Reused,
        cache::judged(cache::storing(store, asked), again).answer() == cache::judged(
            store,
            asked,
        ).answer(),
        cache::judged(cache::storing(store, asked), again).cost() == cache::judged(
            store,
            asked,
        ).cost(),
        store.dom().len() == 0 && store.dom().finite() ==> cache::judged(store, asked) == (
        Scored::Called { judgment: asked.judgment, detail: asked.detail }),
{
    if store.dom().len() == 0 && store.dom().finite() {
        assert(store.dom() =~= Set::empty());
    }
}

/// Only entries of the third format are answers.
pub proof fn an_entry_is_used_in_its_format<D>(entry: Entry<D>)
    ensures
        cache::usable(Some(entry)) is Some == (entry.format == 3),
        cache::usable(Some(entry)) matches Some((judgment, detail)) ==> judgment == entry.judgment
            && detail == entry.detail,
        cache::usable(None::<Entry<D>>) is None,
{
}

/// Answers are stored where the caller says, else where caches are kept, else in the home
/// directory; a value that is blank says nothing.
pub proof fn the_cache_is_found_in_order(
    cache: Seq<char>,
    xdg: Seq<char>,
    home: Seq<char>,
    other: Option<Seq<char>>,
    more: Option<Seq<char>>,
    blank: Option<Seq<char>>,
    none: Option<Seq<char>>,
)
    requires
        !text::blank(cache),
        !text::blank(xdg),
        !text::blank(home),
        blank matches Some(value) ==> text::blank(value),
        none matches Some(value) ==> text::blank(value),
    ensures
        cache::cache_place(Some(cache), other, more) == Some(cache),
        cache::cache_place(blank, Some(xdg), more) == Some(paths::joined_path(xdg, "s1m"@)),
        cache::cache_place(blank, none, Some(home)) == Some(
            paths::joined_path(paths::joined_path(home, ".cache"@), "s1m"@),
        ),
        cache::cache_place(blank, none, blank) is None,
{
}

/// A comment and a line with nothing but whitespace are no patterns; another line is one, without
/// the whitespace that ends it, unless a backslash keeps a space there.
pub proof fn a_line_is_a_pattern(line: Seq<char>, whitespace: Seq<char>)
    requires
        line.len() > 0,
        !text::whitespace(line.last()),
        line[0] != '#',
        text::blank(whitespace),
    ensures
        whitespace.len() > 0 ==> line.last() != '\\' || whitespace.len() > 1 || whitespace[0] != ' '
            ==> s1mignore::glob_in(line + whitespace) == Some(line),
        s1mignore::glob_in(line) == Some(line),
        s1mignore::glob_in(line.push('\\').push(' ')) == Some(line.push('\\').push(' ')),
        s1mignore::glob_in(whitespace) is None,
        s1mignore::glob_in(seq!['#'] + line) is None,
{
    let whole = line + whitespace;
    trimmed_of(line, whitespace);
    trimmed_of(line, Seq::empty());
    assert(line + Seq::<char>::empty() =~= line);
    let mark = seq!['\\', ' '];
    if text::ends(whole, mark) {
        let n = whole.len() as int;
        assert(whole.subrange(n - 2, n)[0] == whole[n - 2]);
        assert(whole.subrange(n - 2, n)[1] == whole[n - 1]);
        if whitespace.len() > 1 {
            assert(text::whitespace(whitespace[whitespace.len() - 2]));
            assert(whole[n - 2] == whitespace[whitespace.len() - 2]);
        } else if whitespace.len() == 1 {
            assert(whole[n - 2] == line.last());
            assert(whole[n - 1] == whitespace[0]);
        }
    }
    if text::ends(line, mark) {
        let n = line.len() as int;
        assert(line.subrange(n - 2, n)[1] == line[n - 1]);
    }
    let kept = line.push('\\').push(' ');
    let n = kept.len() as int;
    assert(kept.subrange(n - 2, n) =~= mark);
    assert(kept[0] == line[0]);
    trimmed_of(Seq::empty(), whitespace);
    assert(Seq::<char>::empty() + whitespace =~= whitespace);
    if text::ends(whitespace, mark) {
        let n = whitespace.len() as int;
        assert(whitespace.subrange(n - 2, n)[0] == whitespace[n - 2]);
        assert(text::whitespace(whitespace[n - 2]));
    }
    if whitespace.len() > 0 {
        assert(text::whitespace(whitespace[0]));
    }
    assert((seq!['#'] + line)[0] == '#');
}

proof fn trimmed_of(line: Seq<char>, whitespace: Seq<char>)
    requires
        line.len() > 0 ==> !text::whitespace(line.last()),
        text::blank(whitespace),
    ensures
        text::trimmed_end(line + whitespace) == line,
    decreases whitespace.len(),
{
    let whole = line + whitespace;
    if whitespace.len() > 0 {
        let front = whitespace.drop_last();
        assert(text::whitespace(whitespace[whitespace.len() - 1]));
        assert forall|i: int| 0 <= i < front.len() implies text::whitespace(#[trigger] front[i]) by {
            assert(text::whitespace(whitespace[i]));
        }
        trimmed_of(line, front);
        assert(whole.drop_last() =~= line + front);
        assert(whole.last() == whitespace.last());
    } else {
        assert(whole =~= line);
    }
}

/// The patterns of a file are those of its lines, in order, those that can be read as patterns; and
/// each that cannot is told of with the number of its line.
pub proof fn patterns_are_those_of_the_lines(
    source: Seq<char>,
    lines: Seq<Seq<char>>,
    line: Seq<char>,
)
    ensures
        s1mignore::glob_in(line) is None ==> s1mignore::globs_in(lines.push(line))
            == s1mignore::globs_in(lines) && s1mignore::faults_in(source, lines.push(line))
            == s1mignore::faults_in(source, lines),
        s1mignore::glob_in(line) matches Some(glob) ==> match s1mignore::glob_fault(glob) {
            None => s1mignore::globs_in(lines.push(line)) == s1mignore::globs_in(lines).push(glob)
                && s1mignore::faults_in(source, lines.push(line)) == s1mignore::faults_in(
                source,
                lines,
            ),
            Some(why) => s1mignore::globs_in(lines.push(line)) == s1mignore::globs_in(lines)
                && s1mignore::faults_in(source, lines.push(line)) == s1mignore::faults_in(
                source,
                lines,
            ).push(source + ": line "@ + text::decimal(lines.len() + 1) + ": "@ + why),
        },
        s1mignore::globs_in(Seq::empty()).len() == 0,
        s1mignore::faults_in(source, Seq::empty()).len() == 0,
{
    assert(lines.push(line).drop_last() =~= lines);
}

/// Whether the patterns leave out what the first names of a path lead to: a directory, unless they
/// are all of them.
pub open spec fn left_out_at(ignore: Ignore, names: Seq<Seq<char>>, n: int) -> bool {
    s1mignore::git_ignores(
        s1mignore::without_dot(ignore.root()),
        ignore.globs(),
        paths::joined_path(ignore.root(), text::joined(names.take(n), seq!['/'])),
        n < names.len(),
    )
}

/// A path that goes down by names from the root is inside it, and is left out where a directory
/// above it is, or it is itself.
pub proof fn a_path_is_left_out_by_what_is_above_it(ignore: Ignore, names: Seq<Seq<char>>)
    requires
        ignore.root().len() > 0,
        ignore.globs().len() > 0,
        names.len() > 0,
        forall|i: int|
            0 <= i < names.len() ==> paths::is_name(#[trigger] names[i]) && names[i] != seq![
                '.',
                '.',
            ],
    ensures
        ignore.matches(text::joined(names, seq!['/'])) == exists|n: int|
            0 < n <= names.len() && #[trigger] left_out_at(ignore, names, n),
{
    let root = ignore.root();
    let path = paths::path_of(names);
    paths::names_are_components(names);
    assert(paths::is_name(names[0]));
    paths::components_are_names(path);
    assert(names[0] != seq!['/']) by {
        if names[0] == seq!['/'] {
            assert(seq!['/'][0] == '/');
            assert(names[0].contains('/'));
        }
    }
    paths::components_join(root, path);
    let front = paths::components(root);
    assert((front + names).skip(front.len() as int) =~= names);
    assert(front.is_prefix_of(front + names));
    assert forall|n: int| 0 <= n <= names.len() implies #[trigger] s1mignore::height(names.take(n))
        >= 0 by {
        height_of_names(names, n);
    }
    assert forall|i: int| 0 <= i < names.len() implies paths::rank(#[trigger] names[i]) != 0 by {
        if names[i] == seq!['/'] {
            assert(seq!['/'][0] == '/');
            assert(names[i].contains('/'));
        }
    }
    assert(s1mignore::is_inside(root, path));
    assert forall|n: int| 0 < n <= names.len() implies #[trigger] s1mignore::level(root, names, n)
        == paths::joined_path(root, text::joined(names.take(n), seq!['/'])) by {
        level_is_joined(root, names, n);
    }
    if ignore.matches(path) {
        let n = choose|n: int| 0 < n <= names.len() && #[trigger] ignore.leaves_out(path, n);
        assert(s1mignore::level(root, names, n) == paths::joined_path(
            root,
            text::joined(names.take(n), seq!['/']),
        ));
        assert(left_out_at(ignore, names, n));
    }
    if exists|n: int|
        0 < n <= names.len() && #[trigger] left_out_at(ignore, names, n) {
        let n = choose|n: int|
            0 < n <= names.len() && #[trigger] left_out_at(ignore, names, n);
        assert(s1mignore::level(root, names, n) == paths::joined_path(
            root,
            text::joined(names.take(n), seq!['/']),
        ));
        assert(ignore.leaves_out(path, n));
    }
}

proof fn height_of_names(names: Seq<Seq<char>>, n: int)
    requires
        0 <= n <= names.len(),
        forall|i: int|
            0 <= i < names.len() ==> paths::is_name(#[trigger] names[i]) && names[i] != seq![
                '.',
                '.',
            ],
    ensures
        s1mignore::height(names.take(n)) >= 0,
    decreases n,
{
    if n > 0 {
        height_of_names(names, n - 1);
        assert(names.take(n).drop_last() =~= names.take(n - 1));
        assert(names.take(n).last() == names[n - 1]);
    }
}

proof fn level_is_joined(root: Seq<char>, names: Seq<Seq<char>>, n: int)
    requires
        root.len() > 0,
        0 < n <= names.len(),
        forall|i: int| 0 <= i < names.len() ==> paths::is_name(#[trigger] names[i]),
    ensures
        s1mignore::level(root, names, n) == paths::joined_path(
            root,
            text::joined(names.take(n), seq!['/']),
        ),
    decreases n,
{
    let some = names.take(n);
    let one = names[n - 1];
    assert(paths::is_name(one));
    assert(one[0] != '/' && one.last() != '/') by {
        if one[0] == '/' || one.last() == '/' {
            assert(one.contains('/'));
        }
    }
    assert(paths::is_name(names[0]));
    assert(names[0][0] != '/') by {
        if names[0][0] == '/' {
            assert(names[0].contains('/'));
        }
    }
    if n == 1 {
        assert(s1mignore::level(root, names, 0) == root);
        assert(text::joined(some, seq!['/']) == one);
    } else {
        level_is_joined(root, names, n - 1);
        let before = text::joined(names.take(n - 1), seq!['/']);
        assert(some.drop_last() =~= names.take(n - 1));
        assert(text::joined(some, seq!['/']) == before + seq!['/'] + one);
        joined_names(names, n - 1);
        let whole = paths::joined_path(root, before);
        assert(whole.last() == before.last());
        assert(paths::joined_path(whole, one) =~= paths::joined_path(
            root,
            before + seq!['/'] + one,
        ));
    }
}

proof fn joined_names(names: Seq<Seq<char>>, n: int)
    requires
        0 < n <= names.len(),
        forall|i: int| 0 <= i < names.len() ==> paths::is_name(#[trigger] names[i]),
    ensures
        text::joined(names.take(n), seq!['/']).len() > 0,
        text::joined(names.take(n), seq!['/'])[0] == names[0][0],
        text::joined(names.take(n), seq!['/'])[0] != '/',
        text::joined(names.take(n), seq!['/']).last() != '/',
    decreases n,
{
    let some = names.take(n);
    let one = names[n - 1];
    assert(paths::is_name(one) && paths::is_name(names[0]));
    assert(one.last() != '/') by {
        if one.last() == '/' {
            assert(one.contains('/'));
        }
    }
    assert(names[0][0] != '/') by {
        if names[0][0] == '/' {
            assert(names[0].contains('/'));
        }
    }
    if n == 1 {
        assert(text::joined(some, seq!['/']) == one);
    } else {
        joined_names(names, n - 1);
        assert(some.drop_last() =~= names.take(n - 1));
    }
}

} // verus!
