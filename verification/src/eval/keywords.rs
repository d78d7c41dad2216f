//! The keyword ranker: the query's terms counted in every page. No model and no index; it is the
//! control that the model has to beat.

use vstd::prelude::*;

use crate::counting;
use crate::paths;
use crate::s1mignore::Ignore;
use crate::sorting;
use crate::text;

verus! {

/// Shortest query word that counts as a keyword.
pub const MIN_TERM_LEN: usize = 3;

/// Keywords with one more word: lowercased, where it is long enough and not there yet.
pub open spec fn with_word(terms: Seq<Seq<char>>, word: Seq<char>) -> Seq<Seq<char>> {
    let lower = text::lowercase(word);
    if lower.len() < MIN_TERM_LEN || terms.contains(lower) {
        terms
    } else {
        terms.push(lower)
    }
}

/// Where the last run of letters and digits of a text starts.
pub open spec fn word_start(s: Seq<char>) -> int
    decreases s.len(),
{
    if s.len() == 0 || !text::alphanumeric(s.last()) {
        s.len() as int
    } else {
        word_start(s.drop_last())
    }
}

/// The keywords of the words of a text that are ended: each by a character that is neither a letter
/// nor a digit.
pub open spec fn ended_terms(s: Seq<char>) -> Seq<Seq<char>>
    decreases s.len(),
{
    if s.len() == 0 {
        Seq::empty()
    } else {
        let front = s.drop_last();
        if text::alphanumeric(s.last()) {
            ended_terms(front)
        } else {
            with_word(ended_terms(front), front.skip(word_start(front)))
        }
    }
}

/// The query's keywords.
pub open spec fn terms_of(query: Seq<char>) -> Seq<Seq<char>> {
    with_word(ended_terms(query), query.skip(word_start(query)))
}

proof fn word_start_is_inside(s: Seq<char>)
    ensures
        0 <= word_start(s) <= s.len(),
    decreases s.len(),
{
    if s.len() > 0 && text::alphanumeric(s.last()) {
        word_start_is_inside(s.drop_last());
    }
}

fn add_word(terms: &mut Vec<String>, word: &str)
    ensures
        text::texts(final(terms)@) == with_word(text::texts(old(terms)@), word@),
{
    let lower: String = word.to_lowercase();
    if text::length(lower.as_str()) < MIN_TERM_LEN {
        return ;
    }
    let ghost was = text::texts(terms@);
    for i in 0..terms.len()
        invariant
            was == text::texts(terms@),
            was == text::texts(old(terms)@),
            *terms == *old(terms),
            lower@ == text::lowercase(word@),
            forall|k: int| 0 <= k < i ==> #[trigger] was[k] != lower@,
    {
        assert(was[i as int] == terms@[i as int]@);
        if text::same(terms[i].as_str(), lower.as_str()) {
            assert(was.contains(lower@));
            return ;
        }
    }
    assert(was.len() == terms.len());
    let ghost added = lower@;
    terms.push(lower);
    assert(text::texts(terms@) =~= was.push(added));
}

/// The query's keywords: its words of at least three characters, lowercased, in the order they were
/// asked, each one once.
pub fn terms(query: &str) -> (terms: Vec<String>)
    ensures
        text::texts(terms@) == terms_of(query@),
{
    let all: Vec<char> = text::chars(query);
    let mut terms: Vec<String> = Vec::new();
    let mut start: usize = 0;
    assert(all@.take(0) =~= Seq::<char>::empty());
    assert(text::texts(terms@) =~= Seq::<Seq<char>>::empty());
    for i in 0..all.len()
        invariant
            start <= i,
            start == word_start(all@.take(i as int)),
            text::texts(terms@) == ended_terms(all@.take(i as int)),
    {
        let ghost front = all@.take(i as int);
        proof {
            counting::one_more(all@, i as int);
            word_start_is_inside(front);
        }
        if !all[i].is_alphanumeric() {
            let word: String = text::string(&all, start, i);
            assert(word@ =~= front.skip(start as int));
            add_word(&mut terms, word.as_str());
            start = i + 1;
        }
    }
    proof {
        counting::take_all(all@);
    }
    let word: String = text::string(&all, start, all.len());
    assert(word@ =~= query@.skip(start as int));
    add_word(&mut terms, word.as_str());
    terms
}

/// Two ASCII texts that differ in nothing but the case of their letters.
pub open spec fn same_but_case(a: Seq<char>, b: Seq<char>) -> bool {
    &&& text::all_ascii(a)
    &&& text::all_ascii(b)
    &&& text::lowered(a) == text::lowered(b)
}

proof fn lowered_is_small(s: Seq<char>)
    ensures
        text::lowered(s).len() == s.len(),
        forall|i: int|
            0 <= i < s.len() ==> #[trigger] text::lowered(s)[i] == text::small(s[i]),
    decreases s.len(),
{
    if s.len() > 0 {
        lowered_is_small(s.drop_last());
    }
}

/// The characters at one place of texts that differ in case alone.
proof fn same_places(a: Seq<char>, b: Seq<char>)
    requires
        same_but_case(a, b),
    ensures
        a.len() == b.len(),
        forall|i: int|
            #![trigger a[i]]
            #![trigger b[i]]
            0 <= i < a.len() ==> text::small(a[i]) == text::small(b[i]) && text::alphanumeric(a[i])
                == text::alphanumeric(b[i]),
{
    lowered_is_small(a);
    lowered_is_small(b);
    assert forall|i: int|
        #![trigger a[i]]
        #![trigger b[i]]
        0 <= i < a.len() implies text::small(a[i]) == text::small(b[i]) && text::alphanumeric(a[i])
        == text::alphanumeric(b[i]) by {
        assert(text::lowered(a)[i] == text::small(a[i]));
        assert(text::lowered(b)[i] == text::small(b[i]));
        assert(text::ascii(a[i]) && text::ascii(b[i]));
    }
}

/// Parts of texts that differ in case alone differ in case alone.
proof fn same_parts(a: Seq<char>, b: Seq<char>, from: int, to: int)
    requires
        same_but_case(a, b),
        0 <= from <= to <= a.len(),
    ensures
        a.len() == b.len(),
        same_but_case(a.subrange(from, to), b.subrange(from, to)),
{
    same_places(a, b);
    let (x, y) = (a.subrange(from, to), b.subrange(from, to));
    lowered_is_small(x);
    lowered_is_small(y);
    assert forall|i: int| 0 <= i < x.len() implies text::lowered(x)[i] == text::lowered(y)[i] by {
        assert(x[i] == a[from + i] && y[i] == b[from + i]);
    }
    assert(text::lowered(x) =~= text::lowered(y));
    assert forall|i: int| 0 <= i < x.len() implies text::ascii(#[trigger] x[i]) by {
        assert(x[i] == a[from + i]);
    }
    assert forall|i: int| 0 <= i < y.len() implies text::ascii(#[trigger] y[i]) by {
        assert(y[i] == b[from + i]);
    }
}

proof fn same_words(a: Seq<char>, b: Seq<char>)
    requires
        same_but_case(a, b),
    ensures
        word_start(a) == word_start(b),
        ended_terms(a) == ended_terms(b),
    decreases a.len(),
{
    same_places(a, b);
    if a.len() > 0 {
        let n = a.len() - 1;
        let (x, y) = (a.drop_last(), b.drop_last());
        same_parts(a, b, 0, n);
        assert(x =~= a.subrange(0, n) && y =~= b.subrange(0, n));
        same_words(x, y);
        assert(text::alphanumeric(a[n]) == text::alphanumeric(b[n]));
        word_start_is_inside(x);
        let k = word_start(x);
        same_parts(x, y, k, n);
        assert(x.skip(k) =~= x.subrange(k, n) && y.skip(k) =~= y.subrange(k, n));
    }
}

/// Case says nothing: a query of ASCII characters has the same keywords in capitals, in small
/// letters and in any mix of them.
pub proof fn case_says_nothing(a: Seq<char>, b: Seq<char>)
    requires
        same_but_case(a, b),
    ensures
        terms_of(a) == terms_of(b),
{
    same_words(a, b);
    word_start_is_inside(a);
    let k = word_start(a);
    same_parts(a, b, k, a.len() as int);
    assert(a.skip(k) =~= a.subrange(k, a.len() as int));
    assert(b.skip(k) =~= b.subrange(k, b.len() as int));
}

/// Whether a place in a text is between words: no letter or digit stands there.
pub open spec fn is_gap(s: Seq<char>, at: int) -> bool {
    !(0 <= at < s.len() && text::alphanumeric(s[at]))
}

/// How many whole-word occurrences of a term stand in a text from a place on, left to right and
/// none inside another: neither the character before one nor the one after it is a letter or a
/// digit.
pub open spec fn occurrences(s: Seq<char>, term: Seq<char>, from: int) -> nat
    decreases s.len() - from,
    when term.len() > 0
{
    if from < 0 || from + term.len() > s.len() {
        0
    } else if text::stands_at(s, term, from) {
        occurrences(s, term, from + term.len()) + if is_gap(s, from - 1) && is_gap(
            s,
            from + term.len(),
        ) {
            1nat
        } else {
            0nat
        }
    } else {
        occurrences(s, term, from + 1)
    }
}

/// How many whole-word occurrences of a term are in a text.
pub fn occurrences_in(text: &str, term: &str) -> (n: usize)
    requires
        term@.len() > 0,
    ensures
        n == occurrences(text@, term@, 0),
{
    let s: Vec<char> = text::chars(text);
    let t: Vec<char> = text::chars(term);
    let mut n: usize = 0;
    let mut at: usize = 0;
    while at < s.len() && t.len() <= s.len() - at
        invariant
            t@.len() > 0,
            at <= s.len(),
            n <= at,
            n + occurrences(s@, t@, at as int) == occurrences(s@, t@, 0),
        decreases s.len() - at,
    {
        if text::is_at(&s, &t, at) {
            let end: usize = at + t.len();
            let clear_before: bool = at == 0 || !s[at - 1].is_alphanumeric();
            let clear_after: bool = end == s.len() || !s[end].is_alphanumeric();
            if clear_before && clear_after {
                n += 1;
            }
            at = end;
        } else {
            at += 1;
        }
    }
    n
}

/// One page's score: how many of the query's terms it matches, and how many times those terms occur
/// in it.
pub struct Hit {
    pub path: String,
    pub terms_matched: usize,
    pub occurrences: u128,
}

/// What a hit says.
#[verifier::ext_equal]
pub struct HitView {
    pub path: Seq<char>,
    pub terms_matched: int,
    pub occurrences: int,
}

impl View for Hit {
    type V = HitView;

    open spec fn view(&self) -> HitView {
        HitView {
            path: self.path@,
            terms_matched: self.terms_matched as int,
            occurrences: self.occurrences as int,
        }
    }
}

/// How many of some terms a text holds.
pub open spec fn matched(s: Seq<char>, terms: Seq<Seq<char>>) -> int
    decreases terms.len(),
{
    if terms.len() == 0 {
        0
    } else {
        matched(s, terms.drop_last()) + if occurrences(s, terms.last(), 0) > 0 {
            1int
        } else {
            0int
        }
    }
}

/// How often a text holds some terms.
pub open spec fn times(s: Seq<char>, terms: Seq<Seq<char>>) -> int
    decreases terms.len(),
{
    if terms.len() == 0 {
        0
    } else {
        times(s, terms.drop_last()) + occurrences(s, terms.last(), 0)
    }
}

/// Whether a page ranks before another: by how many of the terms it matches, then by how many hits
/// it has, then by path.
pub open spec fn hit_before(a: HitView, b: HitView) -> bool {
    a.terms_matched > b.terms_matched || (a.terms_matched == b.terms_matched && (a.occurrences
        > b.occurrences || (a.occurrences == b.occurrences && paths::path_before(a.path, b.path))))
}

fn is_hit_before(a: &Hit, b: &Hit) -> (yes: bool)
    ensures
        yes == hit_before(a@, b@),
{
    a.terms_matched > b.terms_matched || (a.terms_matched == b.terms_matched && (a.occurrences
        > b.occurrences || (a.occurrences == b.occurrences && paths::is_path_before(
        a.path.as_str(),
        b.path.as_str(),
    ))))
}

/// A page that the ranker may read: its path, and its text where it can be read.
pub struct Candidate {
    pub path: String,
    pub text: Option<String>,
}

/// The hit a page is, where it is not ignored, can be read, and holds a term.
pub open spec fn hit(page: Candidate, terms: Seq<Seq<char>>, ignore: Ignore) -> Option<HitView> {
    if ignore.matches(page.path@) {
        None
    } else {
        match page.text {
            None => None,
            Some(source) => {
                let lower = text::lowercase(source@);
                if matched(lower, terms) > 0 {
                    Some(
                        HitView {
                            path: page.path@,
                            terms_matched: matched(lower, terms),
                            occurrences: times(lower, terms),
                        },
                    )
                } else {
                    None
                }
            },
        }
    }
}

/// The hits among pages.
pub open spec fn hits(
    pages: Seq<Candidate>,
    terms: Seq<Seq<char>>,
    ignore: Ignore,
) -> Seq<HitView>
    decreases pages.len(),
{
    if pages.len() == 0 {
        Seq::empty()
    } else {
        match hit(pages.last(), terms, ignore) {
            Some(found) => hits(pages.drop_last(), terms, ignore).push(found),
            None => hits(pages.drop_last(), terms, ignore),
        }
    }
}

/// The hits among pages, best first.
pub open spec fn ranked_hits(
    pages: Seq<Candidate>,
    terms: Seq<Seq<char>>,
    ignore: Ignore,
) -> Seq<HitView> {
    sorting::sorted(hits(pages, terms, ignore), |a: HitView, b: HitView| hit_before(a, b))
}

/// The best `count` pages for a query's keywords, best first.
pub open spec fn best_pages(
    pages: Seq<Candidate>,
    query: Seq<char>,
    count: nat,
    ignore: Ignore,
) -> Seq<Seq<char>> {
    let terms = terms_of(query);
    if count == 0 || terms.len() == 0 {
        Seq::empty()
    } else {
        let ranked = ranked_hits(pages, terms, ignore);
        let kept = if ranked.len() <= count {
            ranked
        } else {
            ranked.take(count as int)
        };
        kept.map_values(|hit: HitView| hit.path)
    }
}

proof fn terms_are_long(s: Seq<char>)
    ensures
        forall|i: int|
            0 <= i < ended_terms(s).len() ==> (#[trigger] ended_terms(s)[i]).len() >= MIN_TERM_LEN,
    decreases s.len(),
{
    if s.len() > 0 {
        let front = ended_terms(s.drop_last());
        let now = ended_terms(s);
        terms_are_long(s.drop_last());
        assert forall|i: int| 0 <= i < now.len() implies (#[trigger] now[i]).len()
            >= MIN_TERM_LEN by {
            if i < front.len() {
                assert(now[i] == front[i]);
            }
        }
    }
}

fn score(page: &Candidate, terms: &Vec<String>, ignore: &Ignore) -> (found: Option<Hit>)
    requires
        forall|i: int| 0 <= i < terms.len() ==> (#[trigger] terms@[i])@.len() > 0,
    ensures
        match found {
            Some(found) => hit(*page, text::texts(terms@), *ignore) == Some(found@),
            None => hit(*page, text::texts(terms@), *ignore) is None,
        },
{
    if ignore.matched(page.path.as_str()) {
        return None;
    }
    let source: &String = match &page.text {
        Some(source) => source,
        None => return None,
    };
    let lower: String = source.as_str().to_lowercase();
    let ghost all = text::texts(terms@);
    let mut terms_matched: usize = 0;
    let mut occurrences: u128 = 0;
    for i in 0..terms.len()
        invariant
            all == text::texts(terms@),
            forall|k: int| 0 <= k < terms.len() ==> (#[trigger] terms@[k])@.len() > 0,
            terms_matched <= i,
            terms_matched == matched(lower@, all.take(i as int)),
            occurrences == times(lower@, all.take(i as int)),
            occurrences <= i * u64::MAX,
    {
        proof {
            counting::one_more(all, i as int);
            assert(all[i as int] == terms@[i as int]@);
            counting::room(i as int);
        }
        let found: usize = occurrences_in(lower.as_str(), terms[i].as_str());
        if found > 0 {
            terms_matched += 1;
        }
        occurrences += found as u128;
    }
    proof {
        counting::take_all(all);
    }
    if terms_matched > 0 {
        Some(Hit { path: page.path.clone(), terms_matched, occurrences })
    } else {
        None
    }
}

pub open spec fn hit_views(hits: Seq<Hit>) -> Seq<HitView> {
    hits.map_values(|hit: Hit| hit@)
}

/// The best `count` pages for a query's keywords, best first. Only pages with a hit come back; a
/// page that the ignore file matches is no candidate.
pub fn best_hits(
    pages: &Vec<Candidate>,
    query: &str,
    count: usize,
    ignore: &Ignore,
) -> (best: Vec<String>)
    ensures
        text::texts(best@) == best_pages(pages@, query@, count as nat, *ignore),
{
    let terms: Vec<String> = terms(query);
    let mut best: Vec<String> = Vec::new();
    assert(text::texts(terms@).len() == terms.len());
    if count == 0 || terms.len() == 0 {
        assert(text::texts(best@) =~= Seq::<Seq<char>>::empty());
        return best;
    }
    let ghost all = text::texts(terms@);
    assert forall|i: int| 0 <= i < terms.len() implies (#[trigger] terms@[i])@.len() > 0 by {
        terms_are_long(query@);
        assert(all[i] == terms@[i]@);
    }
    let mut found: Vec<Hit> = Vec::new();
    assert(hit_views(found@) =~= Seq::<HitView>::empty());
    for i in 0..pages.len()
        invariant
            all == text::texts(terms@),
            forall|k: int| 0 <= k < terms.len() ==> (#[trigger] terms@[k])@.len() > 0,
            hit_views(found@) == hits(pages@.take(i as int), all, *ignore),
    {
        proof {
            counting::one_more(pages@, i as int);
        }
        let ghost was = hit_views(found@);
        match score(&pages[i], &terms, ignore) {
            Some(hit) => {
                let ghost added = hit@;
                found.push(hit);
                assert(hit_views(found@) =~= was.push(added));
            },
            None => {},
        }
    }
    proof {
        counting::take_all(pages@);
    }
    let ghost lt = |a: Hit, b: Hit| hit_before(a@, b@);
    proof {
        sorting::sorted_maps(
            found@,
            lt,
            |hit: Hit| hit@,
            |a: HitView, b: HitView| hit_before(a, b),
        );
    }
    let ranked: Vec<Hit> = sorting::sort(found, is_hit_before, Ghost(lt));
    let size: usize = if ranked.len() <= count {
        ranked.len()
    } else {
        count
    };
    for i in 0..size
        invariant
            size <= ranked.len(),
            best.len() == i,
            forall|k: int|
                0 <= k < i ==> (#[trigger] best@[k])@ == ranked@[k].path@,
    {
        best.push(ranked[i].path.clone());
    }
    assert(hit_views(ranked@) == ranked_hits(pages@, all, *ignore));
    assert(text::texts(best@) =~= best_pages(pages@, query@, count as nat, *ignore));
    best
}

/// The best `count` pages under a root for a query's keywords, spelled the way entry files are: the
/// root joined on.
pub fn keyword_hits(
    root: &str,
    pages: &Vec<Candidate>,
    query: &str,
    count: usize,
    ignore: &Ignore,
) -> (best: Vec<String>)
    ensures
        text::texts(best@) == best_pages(pages@, query@, count as nat, *ignore).map_values(
            |path: Seq<char>| paths::joined_path(root@, path),
        ),
{
    let hits: Vec<String> = best_hits(pages, query, count, ignore);
    let mut best: Vec<String> = Vec::new();
    for i in 0..hits.len()
        invariant
            best.len() == i,
            forall|k: int|
                0 <= k < i ==> (#[trigger] best@[k])@ == paths::joined_path(root@, hits@[k]@),
    {
        best.push(paths::join(root, hits[i].as_str()));
    }
    assert(text::texts(best@) =~= text::texts(hits@).map_values(
        |path: Seq<char>| paths::joined_path(root@, path),
    ));
    best
}

/// The ranking is an order, so the answer never depends on the order that a directory happened to
/// list its files in: no page stands behind one that it ranks before.
pub proof fn pages_are_ranked(pages: Seq<Candidate>, terms: Seq<Seq<char>>, ignore: Ignore)
    ensures
        forall|i: int, j: int|
            0 <= i < j < ranked_hits(pages, terms, ignore).len() ==> !hit_before(
                #[trigger] ranked_hits(pages, terms, ignore)[j],
                #[trigger] ranked_hits(pages, terms, ignore)[i],
            ),
{
    let lt = |a: HitView, b: HitView| hit_before(a, b);
    assert(sorting::is_order(lt)) by {
        assert forall|a: HitView| !#[trigger] lt(a, a) by {
            paths::path_before_is_a_strict_total_order(a.path, a.path, a.path);
        }
        assert forall|a: HitView, b: HitView| #[trigger] lt(a, b) implies !lt(b, a) by {
            paths::path_before_is_a_strict_total_order(a.path, b.path, a.path);
        }
        assert forall|a: HitView, b: HitView, c: HitView|
            #![trigger lt(a, b), lt(b, c)]
            !lt(a, b) && !lt(b, c) implies !lt(a, c) by {
            paths::path_before_is_a_strict_total_order(a.path, c.path, b.path);
            paths::path_before_is_a_strict_total_order(b.path, a.path, c.path);
            paths::path_before_is_a_strict_total_order(c.path, b.path, a.path);
            paths::path_before_is_a_strict_total_order(a.path, b.path, c.path);
            paths::path_before_is_a_strict_total_order(b.path, c.path, a.path);
            paths::path_before_is_a_strict_total_order(c.path, a.path, b.path);
        }
    }
    sorting::sorted_is_in_order(hits(pages, terms, ignore), lt);
    let list = ranked_hits(pages, terms, ignore);
    assert forall|i: int, j: int| 0 <= i < j < list.len() implies !hit_before(
        #[trigger] list[j],
        #[trigger] list[i],
    ) by {
        assert(!lt(list[j], list[i]));
    }
}

} // verus!
