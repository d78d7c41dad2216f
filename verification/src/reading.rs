//! What a walk returned, and what opening it would cost an agent.

use vstd::prelude::*;

use crate::counting;
use crate::json;
use crate::paths;
use crate::text;

verus! {

/// The characters a token is counted at: nothing here tokenises.
pub const CHARS_PER_TOKEN: usize = 4;

/// One walk, as its reading list reports it.
pub struct Reading {
    /// The files it returned, most relevant first.
    pub files: Vec<String>,
    /// Files it scored.
    pub visited: usize,
    /// Judgments it bought: zero when every answer was already stored.
    pub calls: u64,
    /// Characters in the returned ranges, counted once where they overlap.
    pub read_chars: usize,
    /// Those characters in tokens: what the agent reads if it opens what it was handed and nothing
    /// else.
    pub read_tokens: usize,
}

/// The lines of a text with their line feeds.
pub open spec fn whole_lines(s: Seq<char>) -> Seq<Seq<char>>
    decreases s.len(),
{
    if s.len() == 0 {
        Seq::empty()
    } else {
        let front = whole_lines(s.drop_last());
        if front.len() > 0 && front.last().last() != '\n' {
            front.drop_last().push(front.last().push(s.last()))
        } else {
            front.push(seq![s.last()])
        }
    }
}

/// Whether a line, counted from zero, is in some range: ranges count from one, and hold their last
/// line.
pub open spec fn covered(ranges: Seq<(usize, usize)>, at: int) -> bool {
    exists|k: int| 0 <= k < ranges.len() && in_range(#[trigger] ranges[k], at)
}

pub open spec fn in_range(range: (usize, usize), at: int) -> bool {
    range.0 - 1 <= at < range.1
}

/// The characters of the first `n` lines that some range holds.
pub open spec fn chars_covered(
    lines: Seq<Seq<char>>,
    ranges: Seq<(usize, usize)>,
    n: int,
) -> nat
    decreases n,
{
    if n <= 0 {
        0
    } else {
        chars_covered(lines, ranges, n - 1) + if covered(ranges, n - 1) {
            lines[n - 1].len()
        } else {
            0
        }
    }
}

/// The characters in a file's ranges, counted once where ranges overlap.
pub open spec fn chars_of(source: Seq<char>, ranges: Seq<(usize, usize)>) -> nat {
    let lines = whole_lines(source);
    chars_covered(lines, ranges, lines.len() as int)
}

/// How many characters lines hold.
spec fn size(lines: Seq<Seq<char>>) -> int {
    counting::total(lines, |line: Seq<char>| line.len() as int)
}

proof fn size_is_all(s: Seq<char>)
    ensures
        size(whole_lines(s)) == s.len(),
        forall|i: int|
            0 <= i < whole_lines(s).len() ==> (#[trigger] whole_lines(s)[i]).len() > 0,
    decreases s.len(),
{
    if s.len() > 0 {
        let front = whole_lines(s.drop_last());
        let now = whole_lines(s);
        size_is_all(s.drop_last());
        if front.len() > 0 && front.last().last() != '\n' {
            assert(now.drop_last() =~= front.drop_last());
            assert(now.last() == front.last().push(s.last()));
        } else {
            assert(now.drop_last() =~= front);
        }
        assert forall|i: int| 0 <= i < now.len() implies (#[trigger] now[i]).len() > 0 by {
            if i < front.len() {
                assert(front[i].len() > 0);
            }
        }
    }
}

proof fn covered_is_bounded(lines: Seq<Seq<char>>, ranges: Seq<(usize, usize)>, n: int)
    requires
        0 <= n <= lines.len(),
    ensures
        chars_covered(lines, ranges, n) <= size(lines.take(n)),
    decreases n,
{
    if n > 0 {
        counting::one_more(lines, n - 1);
        covered_is_bounded(lines, ranges, n - 1);
    }
}

/// What is read of a file is no more than the file.
pub proof fn no_more_than_the_file(source: Seq<char>, ranges: Seq<(usize, usize)>)
    ensures
        chars_of(source, ranges) <= source.len(),
{
    let lines = whole_lines(source);
    size_is_all(source);
    covered_is_bounded(lines, ranges, lines.len() as int);
    counting::take_all(lines);
}

proof fn same_cover(lines: Seq<Seq<char>>, a: Seq<(usize, usize)>, b: Seq<(usize, usize)>, n: int)
    requires
        forall|at: int| #[trigger] covered(a, at) == covered(b, at),
    ensures
        chars_covered(lines, a, n) == chars_covered(lines, b, n),
    decreases n,
{
    if n > 0 {
        same_cover(lines, a, b, n - 1);
        assert(covered(a, n - 1) == covered(b, n - 1));
    }
}

/// A range inside another costs nothing: each line is counted once, however many ranges hold it.
pub proof fn a_range_inside_another_costs_nothing(
    source: Seq<char>,
    ranges: Seq<(usize, usize)>,
    outer: int,
    inner: (usize, usize),
)
    requires
        0 <= outer < ranges.len(),
        ranges[outer].0 <= inner.0,
        inner.1 <= ranges[outer].1,
    ensures
        chars_of(source, ranges.push(inner)) == chars_of(source, ranges),
{
    let more = ranges.push(inner);
    assert forall|at: int| #[trigger] covered(ranges, at) == covered(more, at) by {
        if covered(ranges, at) {
            let k = choose|k: int| 0 <= k < ranges.len() && in_range(#[trigger] ranges[k], at);
            assert(in_range(more[k], at));
        }
        if covered(more, at) {
            let k = choose|k: int| 0 <= k < more.len() && in_range(#[trigger] more[k], at);
            if k == ranges.len() {
                assert(in_range(ranges[outer], at));
            } else {
                assert(in_range(ranges[k], at));
            }
        }
    }
    let lines = whole_lines(source);
    same_cover(lines, ranges, more, lines.len() as int);
}

pub fn is_covered(ranges: &Vec<(usize, usize)>, at: usize) -> (yes: bool)
    ensures
        yes == covered(ranges@, at as int),
{
    for k in 0..ranges.len()
        invariant
            forall|j: int| 0 <= j < k ==> !in_range(#[trigger] ranges@[j], at as int),
    {
        let (first, last): (usize, usize) = ranges[k];
        let start: usize = if first == 0 {
            0
        } else {
            first - 1
        };
        if start <= at && at < last {
            assert(in_range(ranges@[k as int], at as int));
            return true;
        }
    }
    false
}

/// The characters in one file's ranges, counted once where ranges overlap.
pub fn chars_in(source: &str, ranges: &Vec<(usize, usize)>) -> (n: usize)
    ensures
        n == chars_of(source@, ranges@),
        n <= source@.len(),
{
    let all: Vec<char> = text::chars(source);
    let mut n: usize = 0;
    let mut at: usize = 0;
    let mut line: usize = 0;
    let ghost lines = whole_lines(all@);
    proof {
        assert(all@.take(0) =~= Seq::<char>::empty());
    }
    for i in 0..all.len()
        invariant
            at <= i,
            line <= i,
            n <= i - line,
            ({
                let sofar = whole_lines(all@.take(i as int));
                let open = sofar.len() > 0 && sofar.last().last() != '\n';
                &&& line == if open {
                    sofar.last().len()
                } else {
                    0
                }
                &&& at == sofar.len() - if open {
                    1int
                } else {
                    0int
                }
                &&& n == chars_covered(sofar, ranges@, at as int)
            }),
    {
        let ghost sofar = whole_lines(all@.take(i as int));
        let ghost next = whole_lines(all@.take(i + 1));
        proof {
            counting::one_more(all@, i as int);
        }
        line += 1;
        if all[i] == '\n' {
            proof {
                assert(next.len() == at + 1);
                assert(next.last().last() == '\n');
                assert(next.last().len() == line);
                same_lines(sofar, next, ranges@, at as int);
            }
            if is_covered(ranges, at) {
                n += line;
            }
            at += 1;
            line = 0;
        } else {
            proof {
                assert(next.last().last() != '\n');
                same_lines(sofar, next, ranges@, at as int);
            }
        }
    }
    proof {
        counting::take_all(all@);
        no_more_than_the_file(source@, ranges@);
    }
    if line > 0 && is_covered(ranges, at) {
        n += line;
    }
    n
}

proof fn same_lines(
    a: Seq<Seq<char>>,
    b: Seq<Seq<char>>,
    ranges: Seq<(usize, usize)>,
    n: int,
)
    requires
        0 <= n <= a.len(),
        n <= b.len(),
        forall|i: int| 0 <= i < n ==> a[i] == b[i],
    ensures
        chars_covered(a, ranges, n) == chars_covered(b, ranges, n),
    decreases n,
{
    if n > 0 {
        same_lines(a, b, ranges, n - 1);
    }
}

/// A file that a reading list names, and the ranges it gives of it.
pub struct Listed {
    pub path: String,
    pub ranges: Vec<(usize, usize)>,
}

/// A result of a reading list, whose path may be missing.
pub struct Item {
    pub path: Option<String>,
    pub ranges: Vec<(usize, usize)>,
}

/// A reading list: what of it is read here.
pub struct List {
    pub items: Vec<Item>,
    pub visited: usize,
    pub calls: u64,
}

/// What a file that a list names says.
#[verifier::ext_equal]
pub struct ListedView {
    pub path: Seq<char>,
    pub ranges: Seq<(usize, usize)>,
}

impl View for Listed {
    type V = ListedView;

    open spec fn view(&self) -> ListedView {
        ListedView { path: self.path@, ranges: self.ranges@ }
    }
}

/// The files of a list.
pub open spec fn views(list: Seq<Listed>) -> Seq<ListedView> {
    list.map_values(|one: Listed| one@)
}

pub open spec fn paths_of(list: Seq<ListedView>) -> Seq<Seq<char>> {
    list.map_values(|one: ListedView| one.path)
}

/// The files that results name, each path where it first occurs.
pub open spec fn listed(items: Seq<Item>) -> Seq<ListedView>
    decreases items.len(),
{
    if items.len() == 0 {
        Seq::empty()
    } else {
        let front = listed(items.drop_last());
        match items.last().path {
            Some(path) => if paths::holds(paths_of(front), path@) {
                front
            } else {
                front.push(ListedView { path: path@, ranges: items.last().ranges@ })
            },
            None => front,
        }
    }
}

fn same_ranges(ranges: &Vec<(usize, usize)>) -> (same: Vec<(usize, usize)>)
    ensures
        same@ == ranges@,
{
    let mut same: Vec<(usize, usize)> = Vec::new();
    for i in 0..ranges.len()
        invariant
            same@ == ranges@.take(i as int),
    {
        same.push(ranges[i]);
    }
    proof {
        counting::take_all(ranges@);
    }
    same
}

/// The files that results name, each path where it first occurs.
pub fn files_listed(items: &Vec<Item>) -> (list: Vec<Listed>)
    ensures
        views(list@) == listed(items@),
{
    let mut list: Vec<Listed> = Vec::new();
    let mut names: Vec<String> = Vec::new();
    assert(views(list@) =~= Seq::<ListedView>::empty());
    for i in 0..items.len()
        invariant
            views(list@) == listed(items@.take(i as int)),
            text::texts(names@) == paths_of(views(list@)),
    {
        proof {
            counting::one_more(items@, i as int);
        }
        match &items[i].path {
            Some(path) => {
                if !paths::has(&names, path.as_str()) {
                    let ghost was = views(list@);
                    let ghost had = text::texts(names@);
                    let one = Listed { path: path.clone(), ranges: same_ranges(&items[i].ranges) };
                    let ghost added = one@;
                    list.push(one);
                    names.push(path.clone());
                    assert(views(list@) =~= was.push(added));
                    assert(text::texts(names@) =~= had.push(added.path));
                    assert(text::texts(names@) =~= paths_of(views(list@)));
                }
            },
            None => {},
        }
    }
    proof {
        counting::take_all(items@);
    }
    list
}

/// What is read of a file whose text is at hand; a file that cannot be read costs nothing.
pub open spec fn cost(one: ListedView, source: Option<String>) -> nat {
    match source {
        Some(source) => chars_of(source@, one.ranges),
        None => 0,
    }
}

/// What is read of the first `n` files.
pub open spec fn costs(list: Seq<ListedView>, sources: Seq<Option<String>>, n: int) -> nat
    decreases n,
{
    if n <= 0 {
        0
    } else {
        costs(list, sources, n - 1) + cost(list[n - 1], sources[n - 1])
    }
}

proof fn costs_grow(list: Seq<ListedView>, sources: Seq<Option<String>>, n: int, m: int)
    requires
        0 <= n <= m,
    ensures
        costs(list, sources, n) <= costs(list, sources, m),
    decreases m - n,
{
    if n < m {
        costs_grow(list, sources, n, m - 1);
    }
}

/// Whole tokens for characters, the last one begun.
pub open spec fn tokens_for(chars: nat) -> nat {
    (chars + CHARS_PER_TOKEN as nat - 1) as nat / CHARS_PER_TOKEN as nat
}

/// Counts what opening the ranges that a reading list returns would cost, given the text of each
/// file that it names, where that can be read.
///
/// A section's range contains its subsections', so overlapping ranges are the normal case and the
/// union is what a reader actually reads.
pub fn summarise(list: &List, sources: &Vec<Option<String>>) -> (reading: Reading)
    requires
        sources.len() == listed(list.items@).len(),
        costs(listed(list.items@), sources@, sources.len() as int) <= usize::MAX,
    ensures
        text::texts(reading.files@) == paths_of(listed(list.items@)),
        reading.visited == list.visited,
        reading.calls == list.calls,
        reading.read_chars == costs(listed(list.items@), sources@, sources.len() as int),
        reading.read_tokens == tokens_for(reading.read_chars as nat),
{
    let found: Vec<Listed> = files_listed(&list.items);
    let ghost names = listed(list.items@);
    let mut files: Vec<String> = Vec::new();
    let mut read_chars: usize = 0;
    assert(views(found@).len() == found.len());
    for i in 0..found.len()
        invariant
            views(found@) == names,
            found.len() == sources.len(),
            costs(names, sources@, sources.len() as int) <= usize::MAX,
            read_chars == costs(names, sources@, i as int),
            text::texts(files@) == paths_of(names).take(i as int),
    {
        proof {
            costs_grow(names, sources@, i + 1, sources.len() as int);
            assert(names[i as int] == found@[i as int]@);
        }
        match &sources[i] {
            Some(source) => {
                read_chars += chars_in(source.as_str(), &found[i].ranges);
            },
            None => {},
        }
        let ghost was = text::texts(files@);
        files.push(found[i].path.clone());
        assert(text::texts(files@) =~= was.push(names[i as int].path));
        assert(text::texts(files@) =~= paths_of(names).take(i + 1));
    }
    proof {
        counting::take_all(paths_of(names));
    }
    let whole: usize = read_chars / CHARS_PER_TOKEN;
    let read_tokens: usize = if read_chars % CHARS_PER_TOKEN == 0 {
        whole
    } else {
        whole + 1
    };
    Reading { files, visited: list.visited, calls: list.calls, read_chars, read_tokens }
}

/// The range that a section gives, where it gives one.
pub open spec fn range_read(section: Seq<char>) -> Option<(usize, usize)> {
    match json::as_list(json::json_at(section, "/lines"@)) {
        Some(lines) => if lines.len() < 2 {
            None
        } else {
            match (
                json::as_count(json::json_at(lines[0], ""@)),
                json::as_count(json::json_at(lines[1], ""@)),
            ) {
                (Some(first), Some(last)) => Some((first as usize, last as usize)),
                _ => None,
            }
        },
        None => None,
    }
}

fn read_range(section: &str) -> (range: Option<(usize, usize)>)
    ensures
        range == range_read(section@),
{
    match json::list_at(section, "/lines") {
        Some(lines) => {
            assert(text::texts(lines@).len() == lines.len());
            if lines.len() < 2 {
                None
            } else {
                assert(text::texts(lines@)[0] == lines@[0]@);
                assert(text::texts(lines@)[1] == lines@[1]@);
                match (
                    json::count_at(lines[0].as_str(), ""),
                    json::count_at(lines[1].as_str(), ""),
                ) {
                    (Some(first), Some(last)) => Some((first as usize, last as usize)),
                    _ => None,
                }
            }
        },
        None => None,
    }
}

/// The ranges that sections give.
pub open spec fn ranges_read(sections: Seq<Seq<char>>) -> Seq<(usize, usize)>
    decreases sections.len(),
{
    if sections.len() == 0 {
        Seq::empty()
    } else {
        match range_read(sections.last()) {
            Some(range) => ranges_read(sections.drop_last()).push(range),
            None => ranges_read(sections.drop_last()),
        }
    }
}

/// What a result says.
pub open spec fn item_read(doc: Seq<char>, item: Item) -> bool {
    &&& json::text_of(item.path) == json::as_text(json::json_at(doc, "/path"@))
    &&& item.ranges@ == match json::as_list(json::json_at(doc, "/sections"@)) {
        Some(sections) => ranges_read(sections),
        None => Seq::empty(),
    }
}

fn read_item(doc: &str) -> (item: Item)
    ensures
        item_read(doc@, item),
{
    let mut ranges: Vec<(usize, usize)> = Vec::new();
    match json::list_at(doc, "/sections") {
        Some(sections) => {
            let ghost all = text::texts(sections@);
            for i in 0..sections.len()
                invariant
                    all == text::texts(sections@),
                    ranges@ == ranges_read(all.take(i as int)),
            {
                proof {
                    counting::one_more(all, i as int);
                    assert(all[i as int] == sections@[i as int]@);
                }
                match read_range(sections[i].as_str()) {
                    Some(range) => ranges.push(range),
                    None => {},
                }
            }
            proof {
                counting::take_all(all);
            }
        },
        None => {},
    }
    Item { path: json::text_at(doc, "/path"), ranges }
}

pub const THE_LIST: &'static str = "s1m's reading list: ";

pub const NO_RESULTS: &'static str = "s1m's reading list: no results";

/// What a reading list says, and its results.
pub open spec fn list_read(doc: Seq<char>, results: Seq<Seq<char>>, list: List) -> bool {
    &&& list.items.len() == results.len()
    &&& forall|i: int|
        0 <= i < results.len() ==> item_read(results[i], #[trigger] list.items@[i])
    &&& list.visited == match json::as_count(json::json_at(doc, "/visited"@)) {
        Some(n) => n as usize,
        None => 0,
    }
    &&& list.calls == match json::as_count(json::json_at(doc, "/calls"@)) {
        Some(n) => n,
        None => 0,
    }
}

/// Reads a reading list. A text that is no JSON is an error, and so is one without results.
pub fn read_list(doc: &str) -> (found: Result<List, String>)
    ensures
        match json::why_invalid(json::json_at(doc@, ""@)) {
            Some(why) => found matches Err(message) && message@ == THE_LIST@ + why,
            None => match json::as_list(json::json_at(doc@, "/results"@)) {
                Some(results) => found matches Ok(list) && list_read(doc@, results, list),
                None => found matches Err(message) && message@ == NO_RESULTS@,
            },
        },
{
    match json::invalid(doc) {
        Some(why) => {
            let mut message: String = THE_LIST.to_owned();
            message.append(why.as_str());
            return Err(message);
        },
        None => {},
    }
    let results: Vec<String> = match json::list_at(doc, "/results") {
        Some(results) => results,
        None => {
            return Err(NO_RESULTS.to_owned());
        },
    };
    let mut items: Vec<Item> = Vec::new();
    for i in 0..results.len()
        invariant
            items.len() == i,
            forall|k: int| 0 <= k < i ==> item_read(results@[k]@, #[trigger] items@[k]),
    {
        items.push(read_item(results[i].as_str()));
    }
    let visited: usize = match json::count_at(doc, "/visited") {
        Some(n) => n as usize,
        None => 0,
    };
    let calls: u64 = match json::count_at(doc, "/calls") {
        Some(n) => n,
        None => 0,
    };
    let list = List { items, visited, calls };
    assert forall|i: int| 0 <= i < results.len() implies item_read(
        text::texts(results@)[i],
        #[trigger] list.items@[i],
    ) by {}
    Ok(list)
}

} // verus!
