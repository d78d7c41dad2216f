//! What the keyword ranker promises: every page that holds a keyword, the one that holds the most
//! first.

use vstd::prelude::*;

use crate::counting;
use crate::eval::keywords;
use crate::eval::keywords::{Candidate, HitView};
use crate::paths;
use crate::s1mignore::Ignore;
use crate::sorting;
use crate::text;

verus! {

/// Whether a word stands at a place of a text, whole: no letter or digit is before or behind it.
pub open spec fn is_word_at(s: Seq<char>, word: Seq<char>, at: int) -> bool {
    &&& 0 <= at
    &&& at + word.len() <= s.len()
    &&& s.subrange(at, at + word.len()) == word
    &&& at > 0 ==> !text::alphanumeric(s[at - 1])
    &&& at + word.len() < s.len() ==> !text::alphanumeric(s[at + word.len()])
}

/// How many places from one on have a word.
spec fn words_from(s: Seq<char>, word: Seq<char>, from: int) -> nat
    decreases s.len() - from,
{
    if from >= s.len() {
        0
    } else {
        words_from(s, word, from + 1) + if is_word_at(s, word, from) {
            1nat
        } else {
            0nat
        }
    }
}

proof fn no_words_between(s: Seq<char>, word: Seq<char>, from: int, to: int)
    requires
        from <= to,
        forall|p: int| from <= p < to ==> !#[trigger] is_word_at(s, word, p),
    ensures
        words_from(s, word, from) == words_from(s, word, to),
    decreases to - from,
{
    if from < to {
        if from < s.len() {
            assert(!is_word_at(s, word, from));
            no_words_between(s, word, from + 1, to);
        }
    }
}

proof fn occurrences_are_words(s: Seq<char>, word: Seq<char>, from: int)
    requires
        word.len() > 0,
        forall|i: int| 0 <= i < word.len() ==> text::alphanumeric(#[trigger] word[i]),
        0 <= from,
    ensures
        keywords::occurrences(s, word, from) == words_from(s, word, from),
    decreases s.len() - from,
{
    if from + word.len() > s.len() {
        assert forall|p: int| from <= p < s.len() implies !#[trigger] is_word_at(s, word, p) by {}
        if from < s.len() {
            no_words_between(s, word, from, s.len() as int);
        }
    } else if text::stands_at(s, word, from) {
        let end = from + word.len();
        assert forall|p: int| from + 1 <= p < end implies !#[trigger] is_word_at(s, word, p) by {
            let i = p - 1 - from;
            assert(s.subrange(from, end)[i] == word[i]);
            assert(text::alphanumeric(word[i]));
            assert(s[p - 1] == word[i]);
        }
        no_words_between(s, word, from + 1, end);
        occurrences_are_words(s, word, end);
    } else {
        occurrences_are_words(s, word, from + 1);
    }
}

proof fn words_are_places(s: Seq<char>, word: Seq<char>, from: int)
    requires
        0 <= from <= s.len(),
    ensures
        words_from(s, word, from) + counting::how_many(
            Seq::new(from as nat, |i: int| i),
            |p: int| is_word_at(s, word, p),
        ) == counting::how_many(
            Seq::new(s.len(), |i: int| i),
            |p: int| is_word_at(s, word, p),
        ),
    decreases s.len() - from,
{
    let test = |p: int| is_word_at(s, word, p);
    if from < s.len() {
        words_are_places(s, word, from + 1);
        let longer = Seq::new((from + 1) as nat, |i: int| i);
        assert(longer.drop_last() =~= Seq::new(from as nat, |i: int| i));
        assert(longer.last() == from);
    }
}

/// A keyword occurs as often as it stands in the text as a whole word: once for each place.
pub proof fn a_keyword_occurs_where_it_stands(s: Seq<char>, word: Seq<char>)
    requires
        word.len() > 0,
        forall|i: int| 0 <= i < word.len() ==> text::alphanumeric(#[trigger] word[i]),
    ensures
        keywords::occurrences(s, word, 0) == counting::how_many(
            Seq::new(s.len(), |i: int| i),
            |p: int| is_word_at(s, word, p),
        ),
{
    occurrences_are_words(s, word, 0);
    words_are_places(s, word, 0);
    assert(Seq::new(0nat, |i: int| i) =~= Seq::<int>::empty());
}

/// How many of some keywords a text holds.
pub open spec fn held(s: Seq<char>, terms: Seq<Seq<char>>) -> nat {
    counting::how_many(terms, |term: Seq<char>| keywords::occurrences(s, term, 0) > 0)
}

/// How often a text holds some keywords, all together.
pub open spec fn hits_in(s: Seq<char>, terms: Seq<Seq<char>>) -> int {
    counting::total(terms, |term: Seq<char>| keywords::occurrences(s, term, 0) as int)
}

proof fn keywords_add_up(s: Seq<char>, terms: Seq<Seq<char>>)
    ensures
        keywords::matched(s, terms) == held(s, terms),
        keywords::times(s, terms) == hits_in(s, terms),
    decreases terms.len(),
{
    if terms.len() > 0 {
        keywords_add_up(s, terms.drop_last());
    }
}

/// A page's text as the ranker reads it.
pub open spec fn page_text(page: Candidate) -> Seq<char> {
    match page.text {
        Some(source) => text::lowercase(source@),
        None => Seq::empty(),
    }
}

/// Whether a page is one that the ranker returns where it has room: no rule covers it, it can be
/// read, and it holds a keyword.
pub open spec fn is_hit(page: Candidate, terms: Seq<Seq<char>>, ignore: Ignore) -> bool {
    &&& !ignore.matches(page.path@)
    &&& page.text is Some
    &&& held(page_text(page), terms) > 0
}

proof fn hit_places(pages: Seq<Candidate>, terms: Seq<Seq<char>>, ignore: Ignore) -> (at: Seq<int>)
    ensures
        at.len() == keywords::hits(pages, terms, ignore).len(),
        forall|k: int|
            0 <= k < at.len() ==> 0 <= #[trigger] at[k] < pages.len() && keywords::hit(
                pages[at[k]],
                terms,
                ignore,
            ) == Some(keywords::hits(pages, terms, ignore)[k]),
        forall|j: int, k: int| 0 <= j < k < at.len() ==> #[trigger] at[j] < #[trigger] at[k],
        forall|i: int|
            0 <= i < pages.len() && keywords::hit(#[trigger] pages[i], terms, ignore) is Some
                ==> at.contains(i),
    decreases pages.len(),
{
    if pages.len() == 0 {
        Seq::empty()
    } else {
        let n = pages.len() - 1;
        let front = pages.drop_last();
        let before = hit_places(front, terms, ignore);
        let at = if keywords::hit(pages.last(), terms, ignore) is Some {
            before.push(n)
        } else {
            before
        };
        assert forall|k: int| 0 <= k < before.len() implies 0 <= #[trigger] before[k] < n
            && keywords::hit(pages[before[k]], terms, ignore) == Some(
            keywords::hits(front, terms, ignore)[k],
        ) by {
            assert(front[before[k]] == pages[before[k]]);
        }
        assert forall|i: int|
            0 <= i < pages.len() && keywords::hit(
                #[trigger] pages[i],
                terms,
                ignore,
            ) is Some implies at.contains(i) by {
            if i < n {
                assert(front[i] == pages[i]);
                assert(before.contains(i));
                let k = choose|k: int| 0 <= k < before.len() && before[k] == i;
                assert(at[k] == i);
            } else {
                assert(at[before.len() as int] == i);
            }
        }
        at
    }
}

proof fn hits_are_in_an_order(pages: Seq<Candidate>, terms: Seq<Seq<char>>, ignore: Ignore)
    ensures
        sorting::is_order(
            |a: int, b: int|
                keywords::hit_before(
                    keywords::hit(pages[a], terms, ignore)->0,
                    keywords::hit(pages[b], terms, ignore)->0,
                ),
        ),
{
    let hv = |i: int| keywords::hit(pages[i], terms, ignore)->0;
    let lt = |a: int, b: int|
        keywords::hit_before(
            keywords::hit(pages[a], terms, ignore)->0,
            keywords::hit(pages[b], terms, ignore)->0,
        );
    assert forall|a: int| !#[trigger] lt(a, a) by {
        let p = hv(a).path;
        paths::path_before_is_a_strict_total_order(p, p, p);
    }
    assert forall|a: int, b: int| #[trigger] lt(a, b) implies !lt(b, a) by {
        paths::path_before_is_a_strict_total_order(hv(a).path, hv(b).path, hv(a).path);
    }
    assert forall|a: int, b: int, c: int|
        #![trigger lt(a, b), lt(b, c)]
        !lt(a, b) && !lt(b, c) implies !lt(a, c) by {
        let (x, y, z) = (hv(a).path, hv(b).path, hv(c).path);
        paths::path_before_is_a_strict_total_order(x, z, y);
        paths::path_before_is_a_strict_total_order(y, x, z);
        paths::path_before_is_a_strict_total_order(z, y, x);
        paths::path_before_is_a_strict_total_order(x, y, z);
        paths::path_before_is_a_strict_total_order(y, z, x);
        paths::path_before_is_a_strict_total_order(z, x, y);
    }
}

/// The pages come back best first. All the pages that hold a keyword stand in one order: those that
/// hold more of the keywords before those that hold fewer, of two that hold as many the one with
/// more hits before the other, and of two alike the one whose path is first. What comes back is the
/// start of that order, so that none that is cut is better than one that is kept.
pub proof fn pages_come_back_best_first(
    pages: Seq<Candidate>,
    query: Seq<char>,
    count: nat,
    ignore: Ignore,
) -> (order: Seq<int>)
    ensures
        ({
            let terms = keywords::terms_of(query);
            let best = keywords::best_pages(pages, query, count, ignore);
            &&& order.no_duplicates()
            &&& forall|i: int| #[trigger]
                order.contains(i) == (0 <= i < pages.len() && is_hit(pages[i], terms, ignore))
            &&& forall|j: int, k: int|
                0 <= j < k < order.len() ==> {
                    let (a, b) = (pages[#[trigger] order[j]], pages[#[trigger] order[k]]);
                    let (x, y) = (page_text(a), page_text(b));
                    held(x, terms) > held(y, terms) || (held(x, terms) == held(y, terms) && (
                    hits_in(x, terms) > hits_in(y, terms) || (hits_in(x, terms) == hits_in(y, terms)
                        && !paths::path_before(b.path@, a.path@))))
                }
            &&& best.len() == if count <= order.len() {
                count
            } else {
                order.len()
            }
            &&& forall|k: int| 0 <= k < best.len() ==> #[trigger] best[k] == pages[order[k]].path@
        }),
{
    let terms = keywords::terms_of(query);
    let best = keywords::best_pages(pages, query, count, ignore);
    let places = hit_places(pages, terms, ignore);
    let hits = keywords::hits(pages, terms, ignore);
    let hv = |i: int| keywords::hit(pages[i], terms, ignore)->0;
    let lt = |a: int, b: int|
        keywords::hit_before(
            keywords::hit(pages[a], terms, ignore)->0,
            keywords::hit(pages[b], terms, ignore)->0,
        );
    let order = sorting::sorted(places, lt);
    assert(places.map_values(hv) =~= hits);
    sorting::sorted_maps(places, lt, hv, |a: HitView, b: HitView| keywords::hit_before(a, b));
    let ranked = keywords::ranked_hits(pages, terms, ignore);
    assert(order.map_values(hv) == ranked);
    assert(places.no_duplicates()) by {
        assert forall|a: int, b: int| 0 <= a < places.len() && 0 <= b < places.len() && a
            != b implies places[a] != places[b] by {
            if a < b {
                assert(places[a] < places[b]);
            } else {
                assert(places[b] < places[a]);
            }
        }
    }
    sorting::sorted_holds_once(places, lt);
    hits_are_in_an_order(pages, terms, ignore);
    sorting::sorted_is_in_order(places, lt);
    assert forall|i: int| #[trigger]
        order.contains(i) == (0 <= i < pages.len() && is_hit(pages[i], terms, ignore)) by {
        sorting::sorted_holds(places, lt, i);
        if 0 <= i < pages.len() {
            keywords_add_up(page_text(pages[i]), terms);
        }
        if places.contains(i) {
            let k = choose|k: int| 0 <= k < places.len() && places[k] == i;
            assert(0 <= places[k] < pages.len());
        }
    }
    assert forall|j: int, k: int| 0 <= j < k < order.len() implies {
        let (a, b) = (pages[#[trigger] order[j]], pages[#[trigger] order[k]]);
        let (x, y) = (page_text(a), page_text(b));
        held(x, terms) > held(y, terms) || (held(x, terms) == held(y, terms) && (hits_in(x, terms)
            > hits_in(y, terms) || (hits_in(x, terms) == hits_in(y, terms) && !paths::path_before(
            b.path@,
            a.path@,
        ))))
    } by {
        assert(!lt(order[k], order[j]));
        assert(order.contains(order[j]) && order.contains(order[k]));
        keywords_add_up(page_text(pages[order[j]]), terms);
        keywords_add_up(page_text(pages[order[k]]), terms);
    }
    if terms.len() == 0 {
        if order.len() > 0 {
            assert(order.contains(order[0]));
        }
    }
    assert forall|k: int| 0 <= k < best.len() implies #[trigger] best[k]
        == pages[order[k]].path@ by {
        assert(order.map_values(hv)[k] == hv(order[k]));
        assert(order.contains(order[k]));
        keywords_add_up(page_text(pages[order[k]]), terms);
    }
    order
}

/// More hits rank higher: where two pages hold as many of the keywords and one has more hits than
/// the other, the other does not come back before it, nor in its place.
pub proof fn more_hits_rank_higher(
    pages: Seq<Candidate>,
    query: Seq<char>,
    count: nat,
    ignore: Ignore,
    more: int,
    fewer: int,
)
    requires
        0 <= more < pages.len(),
        0 <= fewer < pages.len(),
        is_hit(pages[more], keywords::terms_of(query), ignore),
        is_hit(pages[fewer], keywords::terms_of(query), ignore),
        held(page_text(pages[more]), keywords::terms_of(query)) == held(
            page_text(pages[fewer]),
            keywords::terms_of(query),
        ),
        hits_in(page_text(pages[more]), keywords::terms_of(query)) > hits_in(
            page_text(pages[fewer]),
            keywords::terms_of(query),
        ),
        forall|i: int, j: int|
            0 <= i < j < pages.len() ==> (#[trigger] pages[i]).path@ != (
            #[trigger] pages[j]).path@,
    ensures
        forall|k: int|
            0 <= k < keywords::best_pages(pages, query, count, ignore).len()
                && #[trigger] keywords::best_pages(pages, query, count, ignore)[k]
                == pages[fewer].path@ ==> exists|j: int|
                0 <= j < k && #[trigger] keywords::best_pages(pages, query, count, ignore)[j]
                    == pages[more].path@,
{
    let order = pages_come_back_best_first(pages, query, count, ignore);
    let best = keywords::best_pages(pages, query, count, ignore);
    assert forall|k: int|
        0 <= k < best.len() && #[trigger] best[k] == pages[fewer].path@ implies exists|j: int|
        0 <= j < k && #[trigger] best[j] == pages[more].path@ by {
        assert(order.contains(order[k]));
        let at = order[k];
        if at < fewer {
            assert(pages[at].path@ != pages[fewer].path@);
        }
        if fewer < at {
            assert(pages[fewer].path@ != pages[at].path@);
        }
        assert(order.contains(more));
        let j = choose|j: int| 0 <= j < order.len() && order[j] == more;
        if k < j {
            assert(order[k] == fewer && order[j] == more);
        }
        assert(j < k);
        assert(best[j] == pages[order[j]].path@);
    }
}

/// Whether a part of a text is a word: letters and digits alone, and none before or behind it.
pub open spec fn is_word(s: Seq<char>, from: int, to: int) -> bool {
    &&& 0 <= from < to <= s.len()
    &&& forall|i: int| from <= i < to ==> text::alphanumeric(#[trigger] s[i])
    &&& from > 0 ==> !text::alphanumeric(s[from - 1])
    &&& to < s.len() ==> !text::alphanumeric(s[to])
}

proof fn the_last_word(s: Seq<char>)
    ensures
        0 <= keywords::word_start(s) <= s.len(),
        forall|i: int|
            keywords::word_start(s) <= i < s.len() ==> text::alphanumeric(#[trigger] s[i]),
        keywords::word_start(s) > 0 ==> !text::alphanumeric(s[keywords::word_start(s) - 1]),
    decreases s.len(),
{
    if s.len() > 0 && text::alphanumeric(s.last()) {
        let front = s.drop_last();
        the_last_word(front);
        assert forall|i: int| keywords::word_start(s) <= i < s.len() implies text::alphanumeric(
            #[trigger] s[i],
        ) by {
            if i < front.len() {
                assert(front[i] == s[i]);
            }
        }
        let k = keywords::word_start(s);
        if k > 0 {
            assert(front[k - 1] == s[k - 1]);
        }
    }
}

proof fn with_word_holds(terms: Seq<Seq<char>>, word: Seq<char>)
    requires
        terms.no_duplicates(),
    ensures
        keywords::with_word(terms, word).no_duplicates(),
        forall|term: Seq<char>| #[trigger]
            keywords::with_word(terms, word).contains(term) == (terms.contains(term) || (term
                == text::lowercase(word) && term.len() >= 3)),
{
    let lower = text::lowercase(word);
    let all = keywords::with_word(terms, word);
    if lower.len() >= 3 && !terms.contains(lower) {
        assert(all == terms.push(lower));
        assert forall|term: Seq<char>| #[trigger] all.contains(term) == (terms.contains(term) || (
        term == lower && term.len() >= 3)) by {
            if terms.contains(term) {
                let k = choose|k: int| 0 <= k < terms.len() && terms[k] == term;
                assert(all[k] == term);
            }
            if term == lower {
                assert(all[terms.len() as int] == term);
            }
        }
    }
}

proof fn ended_words(s: Seq<char>)
    ensures
        keywords::ended_terms(s).no_duplicates(),
        forall|term: Seq<char>| #[trigger]
            keywords::ended_terms(s).contains(term) ==> term.len() >= 3 && exists|
                from: int,
                to: int,
            |
                #[trigger] is_word(s, from, to) && to < s.len() && term == text::lowercase(
                    s.subrange(from, to),
                ),
        forall|from: int, to: int| #[trigger]
            is_word(s, from, to) && to < s.len() && text::lowercase(s.subrange(from, to)).len() >= 3
                ==> keywords::ended_terms(s).contains(text::lowercase(s.subrange(from, to))),
    decreases s.len(),
{
    if s.len() > 0 {
        let front = s.drop_last();
        let n = front.len() as int;
        ended_words(front);
        the_last_word(front);
        let was = keywords::ended_terms(front);
        let now = keywords::ended_terms(s);
        let start = keywords::word_start(front);
        let word = front.skip(start);
        assert(word =~= s.subrange(start, n));
        with_word_holds(was, word);
        assert forall|from: int, to: int| is_word(front, from, to) && to < n implies is_word(
            s,
            from,
            to,
        ) && front.subrange(from, to) == s.subrange(from, to) by {
            assert(front.subrange(from, to) =~= s.subrange(from, to));
            assert forall|i: int| from <= i < to implies text::alphanumeric(#[trigger] s[i]) by {
                assert(front[i] == s[i]);
            }
        }
        assert forall|term: Seq<char>| #[trigger] now.contains(term) implies term.len() >= 3
            && exists|from: int, to: int|
            #[trigger] is_word(s, from, to) && to < s.len() && term == text::lowercase(
                s.subrange(from, to),
            ) by {
            if was.contains(term) {
                let (from, to) = choose|from: int, to: int|
                    #[trigger] is_word(front, from, to) && to < front.len() && term
                        == text::lowercase(front.subrange(from, to));
                assert(is_word(s, from, to));
            } else {
                if start < n {
                    assert forall|i: int| start <= i < n implies text::alphanumeric(
                        #[trigger] s[i],
                    ) by {
                        assert(front[i] == s[i]);
                    }
                    if start > 0 {
                        assert(front[start - 1] == s[start - 1]);
                    }
                    assert(is_word(s, start, n));
                } else {
                    assert(word =~= Seq::<char>::empty());
                    empty_is_short(word);
                }
            }
        }
        assert forall|from: int, to: int| #[trigger]
            is_word(s, from, to) && to < s.len() && text::lowercase(s.subrange(from, to)).len()
                >= 3 implies now.contains(text::lowercase(s.subrange(from, to))) by {
            assert(front.subrange(from, to) =~= s.subrange(from, to));
            assert forall|i: int| from <= i < to implies text::alphanumeric(#[trigger] front[i]) by {
                assert(front[i] == s[i]);
            }
            if to < n {
                assert(front[to] == s[to]);
                if from > 0 {
                    assert(front[from - 1] == s[from - 1]);
                }
                assert(is_word(front, from, to));
                assert(was.contains(text::lowercase(front.subrange(from, to))));
            } else {
                assert(to == n);
                if start < from {
                    assert(text::alphanumeric(front[from - 1]));
                    assert(s[from - 1] == front[from - 1]);
                } else if from < start {
                    assert(!text::alphanumeric(front[start - 1]));
                }
                assert(!text::alphanumeric(s.last()));
            }
        }
    }
}

proof fn empty_is_short(word: Seq<char>)
    requires
        word.len() == 0,
    ensures
        text::lowercase(word).len() == 0,
{
}

/// The keywords of a query are its words of three characters and more, in small letters, each once.
pub proof fn the_keywords_are_the_words(query: Seq<char>)
    ensures
        keywords::terms_of(query).no_duplicates(),
        forall|term: Seq<char>| #[trigger]
            keywords::terms_of(query).contains(term) ==> term.len() >= 3 && exists|
                from: int,
                to: int,
            |
                #[trigger] is_word(query, from, to) && term == text::lowercase(
                    query.subrange(from, to),
                ),
        forall|from: int, to: int| #[trigger]
            is_word(query, from, to) && text::lowercase(query.subrange(from, to)).len() >= 3
                ==> keywords::terms_of(query).contains(text::lowercase(query.subrange(from, to))),
{
    let n = query.len() as int;
    ended_words(query);
    the_last_word(query);
    let was = keywords::ended_terms(query);
    let now = keywords::terms_of(query);
    let start = keywords::word_start(query);
    let word = query.skip(start);
    assert(word =~= query.subrange(start, n));
    with_word_holds(was, word);
    assert forall|term: Seq<char>| #[trigger] now.contains(term) implies term.len() >= 3 && exists|
        from: int,
        to: int,
    |
        #[trigger] is_word(query, from, to) && term == text::lowercase(
            query.subrange(from, to),
        ) by {
        if !was.contains(term) {
            if start < n {
                assert(is_word(query, start, n));
            } else {
                assert(word =~= Seq::<char>::empty());
                empty_is_short(word);
            }
        }
    }
    assert forall|from: int, to: int| #[trigger]
        is_word(query, from, to) && text::lowercase(query.subrange(from, to)).len()
            >= 3 implies now.contains(text::lowercase(query.subrange(from, to))) by {
        if to == n {
            if start < from {
                assert(text::alphanumeric(query[from - 1]));
            } else if from < start {
                assert(!text::alphanumeric(query[start - 1]));
            }
        } else {
            assert(was.contains(text::lowercase(query.subrange(from, to))));
        }
    }
}

} // verus!
