//! What the score of a reading list promises: what was wanted and found is counted, and what there
//! is to read.

use vstd::prelude::*;

use crate::cli;
use crate::cli::{FailedFile, Failure, RankedLink, RankedSection, VisitedFile};
use crate::counting;
use crate::eval::corpus;
use crate::eval::corpus::{Corpus, Page};
use crate::eval::labels::{Query, Wanted};
use crate::eval::runs;
use crate::eval::runs::{Bill, Detail, JudgedView, Run, Score, Visit, VisitView};
use crate::gold;
use crate::laws::basics;
use crate::laws::degrees::fraction;
use crate::paths;
use crate::reading;
use crate::text;

verus! {

/// Whether a line is in a range, which holds its first line and its last.
pub open spec fn is_line_of(range: (usize, usize), line: int) -> bool {
    range.0 <= line <= range.1
}

/// A part is read just where some line is both in it and in a range; in particular it is where a
/// range holds all of it. Ranges and parts that are not empty.
pub proof fn a_part_is_read_where_a_line_of_it_is(ranges: Seq<(usize, usize)>, part: (usize, usize))
    requires
        part.0 <= part.1,
        forall|i: int| 0 <= i < ranges.len() ==> (#[trigger] ranges[i]).0 <= ranges[i].1,
    ensures
        runs::touch(ranges, part) == exists|i: int, line: int|
            0 <= i < ranges.len() && #[trigger] is_line_of(ranges[i], line) && is_line_of(
                part,
                line,
            ),
        forall|i: int|
            0 <= i < ranges.len() && (#[trigger] ranges[i]).0 <= part.0 && part.1 <= ranges[i].1
                ==> runs::touch(ranges, part),
        forall|i: int|
            0 <= i < ranges.len() && part.0 <= (#[trigger] ranges[i]).0 && ranges[i].1 <= part.1
                ==> runs::touch(ranges, part),
{
    if runs::touch(ranges, part) {
        let i = choose|i: int|
            0 <= i < ranges.len() && (#[trigger] ranges[i]).0 <= part.1 && part.0 <= ranges[i].1;
        let line = if ranges[i].0 >= part.0 {
            ranges[i].0 as int
        } else {
            part.0 as int
        };
        assert(is_line_of(ranges[i], line) && is_line_of(part, line));
    }
}

/// Whether a list gives something to read in a wanted part: a file of its page is returned, and a
/// line is both in the part and in a range of that file.
pub open spec fn gives(part: Wanted, returned: Seq<Visit>) -> bool {
    exists|v: int, i: int, line: int|
        0 <= v < returned.len() && paths::same_path(returned[v].path@, part.page@) && 0 <= i
            < returned[v].lines.len() && #[trigger] is_line_of(returned[v].lines@[i], line)
            && is_line_of(part.lines, line)
}

/// Whether no range of a list is empty.
pub open spec fn all_ranges_hold_lines(returned: Seq<Visit>) -> bool {
    forall|v: int, i: int|
        0 <= v < returned.len() && 0 <= i < returned[v].lines.len() ==> (
        #[trigger] returned[v].lines@[i]).0 <= returned[v].lines@[i].1
}

proof fn covered_is_given(part: Wanted, returned: Seq<Visit>)
    requires
        part.lines.0 <= part.lines.1,
        all_ranges_hold_lines(returned),
    ensures
        runs::is_covered(part, returned) == gives(part, returned),
{
    if runs::is_covered(part, returned) {
        let v = choose|v: int|
            0 <= v < returned.len() && paths::same_path((#[trigger] returned[v]).path@, part.page@)
                && runs::touch(returned[v].lines@, part.lines);
        a_part_is_read_where_a_line_of_it_is(returned[v].lines@, part.lines);
        let (i, line) = choose|i: int, line: int|
            0 <= i < returned[v].lines.len() && #[trigger] is_line_of(
                returned[v].lines@[i],
                line,
            ) && is_line_of(part.lines, line);
        assert(is_line_of(returned[v].lines@[i], line));
    }
    if gives(part, returned) {
        let (v, i, line) = choose|v: int, i: int, line: int|
            0 <= v < returned.len() && paths::same_path(returned[v].path@, part.page@) && 0 <= i
                < returned[v].lines.len() && #[trigger] is_line_of(returned[v].lines@[i], line)
                && is_line_of(part.lines, line);
        a_part_is_read_where_a_line_of_it_is(returned[v].lines@, part.lines);
        assert(runs::touch(returned[v].lines@, part.lines));
    }
}

proof fn parts_count(parts: Seq<Wanted>, returned: Seq<Visit>)
    requires
        all_ranges_hold_lines(returned),
        forall|k: int|
            0 <= k < parts.len() ==> (#[trigger] parts[k]).lines.0 <= parts[k].lines.1,
    ensures
        runs::covered_parts(parts, returned) == counting::how_many(
            parts,
            |part: Wanted| gives(part, returned),
        ),
    decreases parts.len(),
{
    if parts.len() > 0 {
        let front = parts.drop_last();
        assert forall|k: int| 0 <= k < front.len() implies (#[trigger] front[k]).lines.0
            <= front[k].lines.1 by {
            assert(front[k] == parts[k]);
        }
        parts_count(front, returned);
        assert(parts[parts.len() - 1] == parts.last());
        covered_is_given(parts.last(), returned);
    }
}

/// A score counts every wanted part that the list gives something to read in.
pub proof fn every_part_that_is_given_is_counted(
    corpus: Corpus,
    query: Query,
    returned: Seq<Visit>,
    walked: Seq<Visit>,
    score: Score,
)
    requires
        runs::is_score(corpus, query, returned, walked, score),
        all_ranges_hold_lines(returned),
        forall|k: int|
            0 <= k < query.wanted.len() ==> (#[trigger] query.wanted@[k]).lines.0
                <= query.wanted@[k].lines.1,
    ensures
        score.parts_found == counting::how_many(
            query.wanted@,
            |part: Wanted| gives(part, returned),
        ),
{
    parts_count(query.wanted@, returned);
}

/// A page returned whole gives every part of it.
pub proof fn a_whole_page_gives_every_part(part: Wanted, returned: Seq<Visit>, v: int, i: int)
    requires
        0 <= v < returned.len(),
        paths::same_path(returned[v].path@, part.page@),
        0 <= i < returned[v].lines.len(),
        returned[v].lines@[i].0 <= part.lines.0,
        part.lines.0 <= part.lines.1,
        part.lines.1 <= returned[v].lines@[i].1,
    ensures
        runs::is_covered(part, returned),
        gives(part, returned),
{
    assert(is_line_of(returned[v].lines@[i], part.lines.0 as int));
    assert(runs::touch(returned[v].lines@, part.lines));
}

/// Whether a query wants a page.
pub open spec fn wants(query: Query, page: Seq<char>) -> bool {
    exists|k: int|
        0 <= k < query.expected.len() && paths::same_path(
            (#[trigger] query.expected@[k]).page(),
            page,
        )
}

proof fn visits_count(visits: Seq<Visit>, query: Query)
    ensures
        runs::wanted_visits(visits, query.pages()) == counting::how_many(
            visits,
            |visit: Visit| wants(query, visit.path@),
        ),
    decreases visits.len(),
{
    if visits.len() > 0 {
        visits_count(visits.drop_last(), query);
        let path = visits.last().path@;
        let pages = query.pages();
        if paths::holds(pages, path) {
            let k = choose|k: int| 0 <= k < pages.len() && paths::same_path(#[trigger] pages[k], path);
            assert(pages[k] == query.expected@[k].page());
        }
        if wants(query, path) {
            let k = choose|k: int|
                0 <= k < query.expected.len() && paths::same_path(
                    (#[trigger] query.expected@[k]).page(),
                    path,
                );
            assert(paths::same_path(pages[k], path));
        }
    }
}

/// A score counts the files: those judged, those returned, those returned that the query wants and
/// those judged that it wants.
pub proof fn every_wanted_file_is_counted(
    corpus: Corpus,
    query: Query,
    returned: Seq<Visit>,
    walked: Seq<Visit>,
    score: Score,
)
    requires
        runs::is_score(corpus, query, returned, walked, score),
    ensures
        score.visited == returned.len() + walked.len(),
        score.returned == returned.len(),
        score.found == counting::how_many(returned, |visit: Visit| wants(query, visit.path@)),
        score.reached == counting::how_many(returned, |visit: Visit| wants(query, visit.path@))
            + counting::how_many(walked, |visit: Visit| wants(query, visit.path@)),
{
    visits_count(returned, query);
    visits_count(walked, query);
}

/// A score counts the pages that the query wants, each once: there is a list of them that holds no
/// path twice, in whatever spelling, and holds every page that is wanted.
pub proof fn every_wanted_page_is_counted_once(
    corpus: Corpus,
    query: Query,
    returned: Seq<Visit>,
    walked: Seq<Visit>,
    score: Score,
) -> (pages: Seq<Seq<char>>)
    requires
        runs::is_score(corpus, query, returned, walked, score),
    ensures
        score.gold == pages.len(),
        forall|i: int, j: int|
            0 <= i < j < pages.len() ==> !paths::same_path(
                #[trigger] pages[i],
                #[trigger] pages[j],
            ),
        forall|i: int| 0 <= i < pages.len() ==> wants(query, #[trigger] pages[i]),
        forall|page: Seq<char>|
            wants(query, page) ==> exists|i: int|
                0 <= i < pages.len() && paths::same_path(#[trigger] pages[i], page),
{
    let pages = choose|pages: Seq<Seq<char>>| #[trigger]
        gold::is_path_set(query.pages(), pages) && score.gold == pages.len();
    let list = query.pages();
    assert forall|i: int, j: int| 0 <= i < j < pages.len() implies !paths::same_path(
        #[trigger] pages[i],
        #[trigger] pages[j],
    ) by {
        assert(paths::path_before(pages[i], pages[j]));
        paths::path_before_is_a_strict_total_order(pages[i], pages[j], pages[i]);
        if paths::same_path(pages[i], pages[j]) {
            same_is_not_before(pages[i], pages[j]);
        }
    }
    assert forall|i: int| 0 <= i < pages.len() implies wants(query, #[trigger] pages[i]) by {
        assert(paths::same_path(pages[i], pages[i]));
        assert(paths::holds(pages, pages[i]));
        assert(paths::holds(list, pages[i]));
        let k = choose|k: int| 0 <= k < list.len() && paths::same_path(#[trigger] list[k], pages[i]);
        assert(list[k] == query.expected@[k].page());
    }
    assert forall|page: Seq<char>| wants(query, page) implies exists|i: int|
        0 <= i < pages.len() && paths::same_path(#[trigger] pages[i], page) by {
        let k = choose|k: int|
            0 <= k < query.expected.len() && paths::same_path(
                (#[trigger] query.expected@[k]).page(),
                page,
            );
        assert(paths::same_path(list[k], page));
        assert(paths::holds(list, page));
        assert(paths::holds(pages, page));
    }
    pages
}

proof fn same_is_not_before(a: Seq<char>, b: Seq<char>)
    requires
        paths::same_path(a, b),
    ensures
        !paths::path_before(a, b),
{
    paths::path_before_is_a_strict_total_order(a, a, a);
}

/// A number of tokens holds its characters, four to each, and is no more than it takes.
pub proof fn four_characters_are_a_token(chars: int)
    requires
        chars >= 0,
    ensures
        4 * corpus::tokens_of(chars) >= chars,
        4 * corpus::tokens_of(chars) < chars + 4,
{
}

/// The lines of a text with their line feeds make up the text, each ends in its only line feed, and
/// none but the last may lack it.
pub proof fn whole_lines_are_the_text(s: Seq<char>)
    ensures
        text::joined(reading::whole_lines(s), Seq::empty()) == s,
        forall|i: int|
            0 <= i < reading::whole_lines(s).len() ==> (#[trigger] reading::whole_lines(s)[i]).len()
                > 0,
        forall|i: int, j: int|
            0 <= i < reading::whole_lines(s).len() && 0 <= j < reading::whole_lines(s)[i].len() - 1
                ==> (#[trigger] reading::whole_lines(s)[i][j]) != '\n',
        forall|i: int|
            0 <= i < reading::whole_lines(s).len() - 1 ==> (
            #[trigger] reading::whole_lines(s)[i]).last() == '\n',
    decreases s.len(),
{
    let none = Seq::<char>::empty();
    if s.len() > 0 {
        let front = reading::whole_lines(s.drop_last());
        let now = reading::whole_lines(s);
        whole_lines_are_the_text(s.drop_last());
        if front.len() > 0 && front.last().last() != '\n' {
            let n = front.len() - 1;
            assert(front[n] == front.last());
            assert(now.drop_last() =~= front.drop_last());
            assert(now.last() == front.last().push(s.last()));
            assert forall|i: int| 0 <= i < now.len() implies (#[trigger] now[i]).len() > 0 by {
                if i < n {
                    assert(now[i] == front[i]);
                }
            }
            assert forall|i: int, j: int| 0 <= i < now.len() && 0 <= j < now[i].len()
                - 1 implies (#[trigger] now[i][j]) != '\n' by {
                if i < n {
                    assert(now[i] == front[i]);
                    assert(front[i][j] != '\n');
                } else if j < front[n].len() - 1 {
                    assert(front[n][j] != '\n');
                }
            }
            assert forall|i: int| 0 <= i < now.len() - 1 implies (#[trigger] now[i]).last()
                == '\n' by {
                assert(now[i] == front[i]);
            }
            if n > 0 {
                assert(text::joined(now, none) =~= text::joined(front, none).push(s.last()));
            } else {
                assert(text::joined(front, none) == front[0]);
            }
        } else {
            assert(now.drop_last() =~= front);
            assert(now.last() == seq![s.last()]);
            assert forall|i: int| 0 <= i < now.len() implies (#[trigger] now[i]).len() > 0 by {
                if i < front.len() {
                    assert(now[i] == front[i]);
                }
            }
            assert forall|i: int, j: int| 0 <= i < now.len() && 0 <= j < now[i].len()
                - 1 implies (#[trigger] now[i][j]) != '\n' by {
                if i < front.len() {
                    assert(now[i] == front[i]);
                    assert(front[i][j] != '\n');
                }
            }
            assert forall|i: int| 0 <= i < now.len() - 1 implies (#[trigger] now[i]).last()
                == '\n' by {
                assert(now[i] == front[i]);
                if i == front.len() - 1 {
                    assert(front[i] == front.last());
                }
            }
            if front.len() > 0 {
                assert(text::joined(now, none) =~= text::joined(front, none) + none + seq![
                    s.last(),
                ]);
            }
        }
        assert(text::joined(now, none) =~= s.drop_last().push(s.last()));
        assert(s.drop_last().push(s.last()) =~= s);
    } else {
        assert(text::joined(reading::whole_lines(s), none) =~= s);
    }
}

/// Whether a line of a file, counted from one, is in one of some ranges.
pub open spec fn is_returned(ranges: Seq<(usize, usize)>, line: int) -> bool {
    exists|k: int| 0 <= k < ranges.len() && #[trigger] is_line_of(ranges[k], line)
}

proof fn covered_is_returned(ranges: Seq<(usize, usize)>, at: int)
    ensures
        reading::covered(ranges, at) == is_returned(ranges, at + 1),
{
    if reading::covered(ranges, at) {
        let k = choose|k: int| 0 <= k < ranges.len() && reading::in_range(#[trigger] ranges[k], at);
        assert(is_line_of(ranges[k], at + 1));
    }
    if is_returned(ranges, at + 1) {
        let k = choose|k: int| 0 <= k < ranges.len() && #[trigger] is_line_of(ranges[k], at + 1);
        assert(reading::in_range(ranges[k], at));
    }
}

/// The numbers of lines, counted from one.
pub open spec fn line_numbers(n: nat) -> Seq<int> {
    Seq::new(n, |i: int| i + 1)
}

proof fn lines_add_up(lines: Seq<Seq<char>>, ranges: Seq<(usize, usize)>, n: nat)
    requires
        n <= lines.len(),
    ensures
        reading::chars_covered(lines, ranges, n as int) == counting::total(
            line_numbers(n),
            |line: int|
                if is_returned(ranges, line) {
                    lines[line - 1].len() as int
                } else {
                    0
                },
        ),
        corpus::lines_covered(ranges, n as int) == counting::how_many(
            line_numbers(n),
            |line: int| is_returned(ranges, line),
        ),
    decreases n,
{
    if n > 0 {
        let m = (n - 1) as nat;
        lines_add_up(lines, ranges, m);
        assert(line_numbers(n).drop_last() =~= line_numbers(m));
        assert(line_numbers(n).last() == n);
        covered_is_returned(ranges, m as int);
    }
}

/// What is read of a file is the lines that a range holds, each once, however many ranges hold it.
pub proof fn a_line_is_read_where_a_range_holds_it(source: Seq<char>, ranges: Seq<(usize, usize)>)
    ensures
        ({
            let lines = reading::whole_lines(source);
            &&& reading::chars_of(source, ranges) == counting::total(
                line_numbers(lines.len()),
                |line: int|
                    if is_returned(ranges, line) {
                        lines[line - 1].len() as int
                    } else {
                        0
                    },
            )
            &&& corpus::lines_covered(ranges, lines.len() as int) == counting::how_many(
                line_numbers(lines.len()),
                |line: int| is_returned(ranges, line),
            )
        }),
{
    let lines = reading::whole_lines(source);
    lines_add_up(lines, ranges, lines.len());
}

/// The page of a wiki at a path is one of that path, and the last; there is none just where no page
/// is of that path, in whatever spelling.
pub proof fn a_wiki_finds_a_page_at_its_path(pages: Seq<Page>, path: Seq<char>)
    ensures
        match corpus::find(pages, path) {
            Some(at) => 0 <= at < pages.len() && paths::same_path(pages[at].path@, path) && forall|
                k: int,
            |
                at < k < pages.len() ==> !paths::same_path((#[trigger] pages[k]).path@, path),
            None => forall|k: int|
                0 <= k < pages.len() ==> !paths::same_path((#[trigger] pages[k]).path@, path),
        },
    decreases pages.len(),
{
    if pages.len() > 0 && !paths::same_path(pages.last().path@, path) {
        let front = pages.drop_last();
        a_wiki_finds_a_page_at_its_path(front, path);
        assert(forall|k: int| 0 <= k < front.len() ==> front[k] == pages[k]);
        match corpus::find(front, path) {
            Some(at) => {
                assert forall|k: int| at < k < pages.len() implies !paths::same_path(
                    (#[trigger] pages[k]).path@,
                    path,
                ) by {
                    if k < front.len() {
                        assert(front[k] == pages[k]);
                    }
                }
            },
            None => {
                assert forall|k: int| 0 <= k < pages.len() implies !paths::same_path(
                    (#[trigger] pages[k]).path@,
                    path,
                ) by {
                    if k < front.len() {
                        assert(front[k] == pages[k]);
                    }
                }
            },
        }
    }
}

/// A score says what there is to read: the characters and lines of the returned ranges, and the
/// characters of the returned files, over the files of the wiki, the characters as tokens.
pub proof fn a_score_says_what_there_is_to_read(
    corpus: Corpus,
    query: Query,
    returned: Seq<Visit>,
    walked: Seq<Visit>,
    score: Score,
)
    requires
        runs::is_score(corpus, query, returned, walked, score),
    ensures
        ({
            let chars = counting::total(
                returned,
                |visit: Visit|
                    match corpus::find(corpus.pages@, visit.path@) {
                        Some(at) => reading::chars_of(
                            corpus.pages@[at].text@,
                            visit.lines@,
                        ) as int,
                        None => 0,
                    },
            );
            4 * score.read_tokens >= chars && 4 * score.read_tokens < chars + 4
        }),
        score.read_lines == counting::total(
            returned,
            |visit: Visit|
                match corpus::find(corpus.pages@, visit.path@) {
                    Some(at) => corpus::lines_covered(
                        visit.lines@,
                        reading::whole_lines(corpus.pages@[at].text@).len() as int,
                    ) as int,
                    None => 0,
                },
        ),
        ({
            let chars = counting::total(
                returned,
                |visit: Visit|
                    match corpus::find(corpus.pages@, visit.path@) {
                        Some(at) => corpus.pages@[at].text@.len() as int,
                        None => 0,
                    },
            );
            4 * score.whole_tokens >= chars && 4 * score.whole_tokens < chars + 4
        }),
{
    let read = |visit: Visit|
        match corpus::find(corpus.pages@, visit.path@) {
            Some(at) => reading::chars_of(corpus.pages@[at].text@, visit.lines@) as int,
            None => 0,
        };
    let lines = |visit: Visit|
        match corpus::find(corpus.pages@, visit.path@) {
            Some(at) => corpus::lines_covered(
                visit.lines@,
                reading::whole_lines(corpus.pages@[at].text@).len() as int,
            ) as int,
            None => 0,
        };
    let whole = |visit: Visit|
        match corpus::find(corpus.pages@, visit.path@) {
            Some(at) => corpus.pages@[at].text@.len() as int,
            None => 0,
        };
    sums_are_the_same(
        returned,
        |visit: Visit| corpus.read(visit.path@, visit.lines@).0 as int,
        read,
    );
    sums_are_the_same(
        returned,
        |visit: Visit| corpus.read(visit.path@, visit.lines@).1 as int,
        lines,
    );
    sums_are_the_same(returned, |visit: Visit| corpus.size(visit.path@) as int, whole);
    sums_are_not_negative(returned, read);
    sums_are_not_negative(returned, whole);
    four_characters_are_a_token(counting::total(returned, read));
    four_characters_are_a_token(counting::total(returned, whole));
}

proof fn sums_are_the_same<T>(list: Seq<T>, a: spec_fn(T) -> int, b: spec_fn(T) -> int)
    requires
        forall|item: T| #[trigger] a(item) == b(item),
    ensures
        counting::total(list, a) == counting::total(list, b),
    decreases list.len(),
{
    if list.len() > 0 {
        sums_are_the_same(list.drop_last(), a, b);
        assert(a(list.last()) == b(list.last()));
    }
}

proof fn sums_are_not_negative<T>(list: Seq<T>, of: spec_fn(T) -> int)
    requires
        forall|item: T| 0 <= #[trigger] of(item),
    ensures
        0 <= counting::total(list, of),
    decreases list.len(),
{
    if list.len() > 0 {
        sums_are_not_negative(list.drop_last(), of);
        assert(0 <= of(list.last()));
    }
}

/// A share is the part over the whole: of nothing it is nothing.
pub proof fn a_share_is_the_part_over_the_whole(part: nat, whole: nat)
    requires
        part <= u64::MAX,
        0 < whole <= u64::MAX,
    ensures
        fraction(runs::quotient(part, whole)) == Some((part as int, whole as int)),
        fraction(runs::part_of(part, whole)) == Some((part as int, whole as int)),
        fraction(runs::part_of(part, 0)) == Some((0int, 1int)),
{
}

/// What is missed is what is not reached.
pub proof fn what_is_missed_is_what_is_not_reached(gold: int, reached: int)
    ensures
        0 <= reached <= gold ==> runs::less(gold, reached) + reached == gold,
        gold <= reached ==> runs::less(gold, reached) == 0,
{
}

/// The mean time is what each answer took where all took the same, but for a remainder of less than
/// one for each.
pub proof fn the_mean_time_is_shared_out(latency: int, served: int)
    requires
        latency >= 0,
        served > 0,
    ensures
        runs::mean_time(latency, served) * served <= latency,
        latency < (runs::mean_time(latency, served) + 1) * served,
        runs::mean_time(latency, 0) == 0,
{
    assert((latency / served) * served <= latency && latency < (latency / served + 1) * served)
        by (nonlinear_arith)
        requires
            served > 0,
            latency >= 0,
    ;
}

/// One answer more adds its requests, its tokens and its time, and what is bought only where it is
/// bought now.
pub proof fn an_answer_adds_what_it_took(before: Bill, detail: Detail, bought: bool)
    ensures
        ({
            let after = before.plus(runs::bill_of(detail, bought));
            &&& after.served == before.served + 1
            &&& after.requests == before.requests + detail.requests
            &&& after.input_tokens == before.input_tokens + detail.input_tokens
            &&& after.latency == before.latency + detail.latency
            &&& bought ==> after.bought == before.bought + 1 && after.bought_tokens
                == before.bought_tokens + detail.input_tokens
            &&& !bought ==> after.bought == before.bought && after.bought_tokens
                == before.bought_tokens
        }),
{
}

/// Where the sections that clear a threshold stand among a file's.
proof fn cleared_places(sections: Seq<RankedSection>, threshold: u64) -> (at: Seq<int>)
    requires
        threshold <= 0x7ff0_0000_0000_0000,
        forall|i: int|
            0 <= i < sections.len() ==> (#[trigger] sections[i]).score <= 0x7ff0_0000_0000_0000,
    ensures
        at.len() == runs::lines_above(sections, threshold).len(),
        forall|k: int|
            0 <= k < at.len() ==> 0 <= #[trigger] at[k] < sections.len() && sections[at[k]].score
                >= threshold && runs::lines_above(sections, threshold)[k] == (
                sections[at[k]].first,
                sections[at[k]].last,
            ),
        forall|j: int, k: int| 0 <= j < k < at.len() ==> #[trigger] at[j] < #[trigger] at[k],
        forall|i: int|
            0 <= i < sections.len() && (#[trigger] sections[i]).score >= threshold ==> at.contains(
                i,
            ),
    decreases sections.len(),
{
    if sections.len() == 0 {
        Seq::empty()
    } else {
        let n = sections.len() - 1;
        let front = sections.drop_last();
        assert forall|i: int| 0 <= i < front.len() implies (#[trigger] front[i]).score
            <= 0x7ff0_0000_0000_0000 by {
            assert(front[i] == sections[i]);
        }
        let before = cleared_places(front, threshold);
        assert(sections[n] == sections.last());
        basics::ordinary_doubles_are_in_the_order_of_their_bits(sections.last().score, threshold);
        let at = if sections.last().score >= threshold {
            before.push(n)
        } else {
            before
        };
        assert forall|k: int| 0 <= k < before.len() implies 0 <= #[trigger] before[k] < n
            && sections[before[k]].score >= threshold && runs::lines_above(front, threshold)[k] == (
            sections[before[k]].first,
            sections[before[k]].last,
        ) by {
            assert(front[before[k]] == sections[before[k]]);
        }
        assert forall|i: int|
            0 <= i < sections.len() && (#[trigger] sections[i]).score
                >= threshold implies at.contains(i) by {
            if i < n {
                assert(front[i] == sections[i]);
                assert(before.contains(i));
                let k = choose|k: int| 0 <= k < before.len() && before[k] == i;
                assert(at[k] == i);
            } else {
                assert(at[before.len() as int] == i);
            }
        }
        at
    }
}

/// The lines that a returned file is read in are those of its sections that clear the threshold, in
/// the order of the file.
pub proof fn the_lines_to_read_are_of_the_sections_that_clear(
    sections: Seq<RankedSection>,
    threshold: u64,
) -> (at: Seq<int>)
    requires
        threshold <= 0x7ff0_0000_0000_0000,
        forall|i: int|
            0 <= i < sections.len() ==> (#[trigger] sections[i]).score <= 0x7ff0_0000_0000_0000,
    ensures
        at.len() == runs::lines_above(sections, threshold).len(),
        forall|k: int|
            0 <= k < at.len() ==> 0 <= #[trigger] at[k] < sections.len() && runs::lines_above(
                sections,
                threshold,
            )[k] == (sections[at[k]].first, sections[at[k]].last),
        forall|j: int, k: int| 0 <= j < k < at.len() ==> #[trigger] at[j] < #[trigger] at[k],
        forall|i: int| #[trigger]
            at.contains(i) == (0 <= i < sections.len() && sections[i].score >= threshold),
{
    let at = cleared_places(sections, threshold);
    assert forall|i: int| #[trigger] at.contains(i) implies 0 <= i < sections.len()
        && sections[i].score >= threshold by {
        let k = choose|k: int| 0 <= k < at.len() && at[k] == i;
        assert(0 <= at[k] < sections.len());
    }
    at
}

proof fn visit_places(files: Seq<VisitedFile>, threshold: u64, place: bool) -> (at: Seq<int>)
    ensures
        at.len() == runs::visits_of(files, threshold, place).len(),
        forall|k: int|
            0 <= k < at.len() ==> 0 <= #[trigger] at[k] < files.len() && cli::earns(
                files[at[k]],
                threshold,
            ) == place && runs::visits_of(files, threshold, place)[k] == runs::visit_of(
                files[at[k]],
                threshold,
                place,
            ),
        forall|j: int, k: int| 0 <= j < k < at.len() ==> #[trigger] at[j] < #[trigger] at[k],
        forall|i: int|
            0 <= i < files.len() && cli::earns(#[trigger] files[i], threshold) == place
                ==> at.contains(i),
    decreases files.len(),
{
    if files.len() == 0 {
        Seq::empty()
    } else {
        let n = files.len() - 1;
        let front = files.drop_last();
        let before = visit_places(front, threshold, place);
        let at = if cli::earns(files.last(), threshold) == place {
            before.push(n)
        } else {
            before
        };
        assert forall|k: int| 0 <= k < before.len() implies 0 <= #[trigger] before[k] < n
            && cli::earns(files[before[k]], threshold) == place && runs::visits_of(
            front,
            threshold,
            place,
        )[k] == runs::visit_of(files[before[k]], threshold, place) by {
            assert(front[before[k]] == files[before[k]]);
        }
        assert forall|i: int|
            0 <= i < files.len() && cli::earns(#[trigger] files[i], threshold)
                == place implies at.contains(i) by {
            if i < n {
                assert(front[i] == files[i]);
                assert(before.contains(i));
                let k = choose|k: int| 0 <= k < before.len() && before[k] == i;
                assert(at[k] == i);
            } else {
                assert(at[before.len() as int] == i);
            }
        }
        at
    }
}

/// A run keeps the walk: every file that earns a place is returned and every other is kept beside
/// them, in the order of the walk, each with its own path, relevance and scent; a returned file with
/// the lines of its sections that clear the threshold, another with none.
pub proof fn a_run_keeps_the_walk(
    corpus: Corpus,
    query: Query,
    threshold: u64,
    files: Seq<VisitedFile>,
    failed: Seq<FailedFile>,
    spent: runs::Spent,
    run: Run,
    place: bool,
) -> (at: Seq<int>)
    requires
        runs::is_run(corpus, query, threshold, files, failed, spent, run),
    ensures
        run.id@ == query.id@,
        run.spent == spent,
        ({
            let visits = if place {
                run.returned@
            } else {
                run.walked@
            };
            &&& at.len() == visits.len()
            &&& forall|j: int, k: int|
                0 <= j < k < at.len() ==> #[trigger] at[j] < #[trigger] at[k]
            &&& forall|i: int| #[trigger]
                at.contains(i) == (0 <= i < files.len() && cli::earns(files[i], threshold)
                    == place)
            &&& forall|k: int|
                0 <= k < visits.len() ==> {
                    let file = files[at[k]];
                    &&& (#[trigger] visits[k]).path@ == file.path@
                    &&& visits[k].relevance == Some(file.relevance)
                    &&& visits[k].scent == file.scent
                    &&& visits[k].lines@ == if place {
                        runs::lines_above(file.sections@, threshold)
                    } else {
                        Seq::empty()
                    }
                }
        }),
{
    let at = visit_places(files, threshold, place);
    let visits = if place {
        run.returned@
    } else {
        run.walked@
    };
    let views = runs::visit_views(visits);
    assert(views == runs::visits_of(files, threshold, place));
    assert(views.len() == visits.len());
    assert forall|i: int| #[trigger] at.contains(i) implies 0 <= i < files.len() && cli::earns(
        files[i],
        threshold,
    ) == place by {
        let k = choose|k: int| 0 <= k < at.len() && at[k] == i;
        assert(0 <= at[k] < files.len());
    }
    assert forall|k: int| 0 <= k < visits.len() implies {
        let file = files[at[k]];
        &&& (#[trigger] visits[k]).path@ == file.path@
        &&& visits[k].relevance == Some(file.relevance)
        &&& visits[k].scent == file.scent
        &&& visits[k].lines@ == if place {
            runs::lines_above(file.sections@, threshold)
        } else {
            Seq::empty()
        }
    } by {
        assert(views[k] == visits[k]@);
        assert(0 <= at[k] < files.len());
    }
    at
}

/// Every link that the model gave a scent is kept with it, whichever file it is of: one file more
/// adds its own, and a link more of a file one where it has a scent.
pub proof fn every_link_with_a_scent_is_kept(
    files: Seq<VisitedFile>,
    file: VisitedFile,
    links: Seq<RankedLink>,
    link: RankedLink,
)
    ensures
        runs::all_scented(files.push(file)) == runs::all_scented(files) + runs::scented(file.links@),
        runs::all_scented(Seq::empty()).len() == 0,
        runs::scented(Seq::empty()).len() == 0,
        link.scent is None ==> runs::scented(links.push(link)) == runs::scented(links),
        link.scent matches Some(scent) ==> runs::scented(links.push(link)) == runs::scented(
            links,
        ).push(
            (JudgedView { target: link.target@, scent, followed: link.followed }),
        ),
{
    assert(files.push(file).drop_last() =~= files);
    assert(links.push(link).drop_last() =~= links);
}

/// The pages that could not be read are named, in order.
pub proof fn every_page_that_could_not_be_read_is_named(failed: Seq<FailedFile>, one: FailedFile)
    ensures
        runs::unread(Seq::empty()).len() == 0,
        one.failure is Parse ==> runs::unread(failed.push(one)) == runs::unread(failed).push(
            one.path@,
        ),
        one.failure is Score ==> runs::unread(failed.push(one)) == runs::unread(failed),
{
    assert(failed.push(one).drop_last() =~= failed);
}

} // verus!
