//! The gold set: the queries, and what a person would want for each.

use vstd::prelude::*;

use crate::eval::corpus;
use crate::eval::corpus::Corpus;
use crate::gold;
use crate::paths;
use crate::text;

verus! {

/// One entry of a gold set's wanted pages: a page, or the part of a page that answers the query,
/// named by the heading whose section answers or by the lines that do.
pub enum Expected {
    Page(String),
    Part { path: String, heading: Option<String>, lines: Option<(usize, usize)> },
}

impl Expected {
    pub open spec fn page(self) -> Seq<char> {
        match self {
            Expected::Page(path) => path@,
            Expected::Part { path, heading, lines } => path@,
        }
    }

    /// The page this entry wants.
    pub fn path(&self) -> (path: &str)
        ensures
            path@ == self.page(),
    {
        match self {
            Expected::Page(path) => path.as_str(),
            Expected::Part { path, .. } => path.as_str(),
        }
    }

    /// The label as a report spells it: the page, and the part of it named.
    pub open spec fn spelt(self) -> Seq<char> {
        let quoted = "`"@ + self.page() + "`"@;
        match self {
            Expected::Part { path, heading: Some(heading), lines } => quoted + ": "@ + heading@,
            Expected::Part { path, heading: None, lines: Some((first, last)) } => quoted
                + ": lines "@ + text::decimal(first as nat) + "–"@ + text::decimal(last as nat),
            _ => quoted,
        }
    }

    pub fn label(&self) -> (label: String)
        ensures
            label@ == self.spelt(),
    {
        let mut label: String = "`".to_owned();
        label.append(self.path());
        label.append("`");
        match self {
            Expected::Part { heading: Some(heading), .. } => {
                label.append(": ");
                label.append(heading.as_str());
            },
            Expected::Part { heading: None, lines: Some((first, last)), .. } => {
                label.append(": lines ");
                label.append(text::number(*first as u64).as_str());
                label.append("–");
                label.append(text::number(*last as u64).as_str());
            },
            _ => {},
        }
        label
    }
}

/// One wanted page and the lines of it that answer the query: its whole body when the entry names
/// no part of it.
pub struct Wanted {
    pub page: String,
    pub lines: (usize, usize),
}

/// One labelled query.
pub struct Query {
    /// Unique in the set.
    pub id: String,
    pub query: String,
    /// What relevance means for it: `about`, `useful-for` or `answers`.
    pub mode: String,
    /// The entry file, relative to the wiki root.
    pub entry: String,
    /// The pages a person would want, most wanted first.
    pub expected: Vec<Expected>,
    /// Why those pages.
    pub note: Option<String>,
    /// Every wanted page with the lines that answer, read off the wiki.
    pub wanted: Vec<Wanted>,
}

/// The criterion that a query is judged by.
#[derive(PartialEq, Eq, Structural, Clone, Copy)]
pub enum Mode {
    About,
    UsefulFor,
    Answers,
}

/// The criterion that a name picks.
pub open spec fn mode_of(name: Seq<char>) -> Option<Mode> {
    if name == "about"@ {
        Some(Mode::About)
    } else if name == "useful-for"@ {
        Some(Mode::UsefulFor)
    } else if name == "answers"@ {
        Some(Mode::Answers)
    } else {
        None
    }
}

pub fn mode_named(name: &str) -> (mode: Option<Mode>)
    ensures
        mode == mode_of(name@),
{
    if text::same(name, "about") {
        Some(Mode::About)
    } else if text::same(name, "useful-for") {
        Some(Mode::UsefulFor)
    } else if text::same(name, "answers") {
        Some(Mode::Answers)
    } else {
        None
    }
}

/// What is said of an entry that names lines the page does not have.
pub open spec fn no_range(
    page: Seq<char>,
    lines: nat,
    first: nat,
    last: nat,
) -> Seq<char> {
    page + " has "@ + text::decimal(lines) + " lines, so "@ + text::decimal(first) + "–"@
        + text::decimal(last) + " is not a range in it"@
}

pub const BOTH: &'static str = " names a heading and lines; one or the other";

pub const NEITHER: &'static str = " names neither a heading nor lines";

/// Whether lines are those an entry wants of a page of the wiki, or what stands against it.
pub open spec fn is_part(
    corpus: Corpus,
    entry: Expected,
    lines: Result<(usize, usize), Seq<char>>,
) -> bool {
    let page = entry.page();
    match entry {
        Expected::Page(_) => lines == Ok::<(usize, usize), Seq<char>>(
            (1usize, corpus.line_count(page) as usize),
        ),
        Expected::Part { path, heading, lines: named } => match (heading, named) {
            (Some(heading), None) => corpus.is_section(page, heading@, lines),
            (None, Some((first, last))) => if first < 1 || first > last || last
                > corpus.line_count(page) {
                lines == Err::<(usize, usize), Seq<char>>(
                    no_range(page, corpus.line_count(page), first as nat, last as nat),
                )
            } else {
                lines == Ok::<(usize, usize), Seq<char>>((first, last))
            },
            (Some(_), Some(_)) => lines == Err::<(usize, usize), Seq<char>>(page + BOTH@),
            (None, None) => lines == Err::<(usize, usize), Seq<char>>(page + NEITHER@),
        },
    }
}

fn with_end(page: &str, end: &str) -> (message: String)
    ensures
        message@ == page@ + end@,
{
    let mut message: String = page.to_owned();
    message.append(end);
    message
}

/// Every line of a page the wiki holds.
pub fn whole_page(corpus: &Corpus, page: &str) -> (lines: (usize, usize))
    ensures
        lines == (1usize, corpus.line_count(page@) as usize),
        lines.1 == corpus.line_count(page@),
{
    (1, corpus.lines_of(page))
}

/// The lines a label names, checked against the page they are written in.
pub fn named_lines(
    corpus: &Corpus,
    page: &str,
    first: usize,
    last: usize,
) -> (lines: Result<(usize, usize), String>)
    ensures
        match lines {
            Ok(lines) => lines == (first, last) && 1 <= first <= last <= corpus.line_count(page@),
            Err(message) => !(1 <= first <= last <= corpus.line_count(page@)) && message@
                == no_range(page@, corpus.line_count(page@), first as nat, last as nat),
        },
{
    let lines: usize = corpus.lines_of(page);
    if first < 1 || first > last || last > lines {
        let mut message: String = page.to_owned();
        message.append(" has ");
        message.append(text::number(lines as u64).as_str());
        message.append(" lines, so ");
        message.append(text::number(first as u64).as_str());
        message.append("–");
        message.append(text::number(last as u64).as_str());
        message.append(" is not a range in it");
        return Err(message);
    }
    Ok((first, last))
}

fn part(corpus: &Corpus, entry: &Expected) -> (lines: Result<(usize, usize), String>)
    ensures
        is_part(*corpus, *entry, corpus::said(lines)),
{
    let page: &str = entry.path();
    match entry {
        Expected::Page(_) => Ok(whole_page(corpus, page)),
        Expected::Part { heading, lines, .. } => match (heading, lines) {
            (Some(heading), None) => corpus.section(page, heading.as_str()),
            (None, Some((first, last))) => named_lines(corpus, page, *first, *last),
            (Some(_), Some(_)) => Err(with_end(page, BOTH)),
            (None, None) => Err(with_end(page, NEITHER)),
        },
    }
}

/// What is said of a query: its id, and what stands against it.
pub open spec fn about(id: Seq<char>, message: Seq<char>) -> Seq<char> {
    id + ": "@ + message
}

fn say(id: &str, message: &str) -> (whole: String)
    ensures
        whole@ == about(id@, message@),
{
    let mut whole: String = id.to_owned();
    whole.append(": ");
    whole.append(message);
    whole
}

/// Whether wanted parts are the first of what entries want, resolved against the wiki.
pub open spec fn resolves(corpus: Corpus, expected: Seq<Expected>, wanted: Seq<Wanted>) -> bool {
    wanted.len() <= expected.len() && forall|i: int|
        0 <= i < wanted.len() ==> (#[trigger] wanted[i]).page@ == expected[i].page() && is_part(
            corpus,
            expected[i],
            Ok(wanted[i].lines),
        )
}

/// Whether an entry names something that the wiki has.
pub open spec fn can_be_read(corpus: Corpus, entry: Expected) -> bool {
    exists|lines: (usize, usize)| is_part(corpus, entry, Ok(lines))
}

/// Whether an entry is the first that names nothing in the wiki, and that is what is said of it.
pub open spec fn is_first_unresolved(
    corpus: Corpus,
    id: Seq<char>,
    expected: Seq<Expected>,
    at: int,
    message: Seq<char>,
) -> bool {
    &&& 0 <= at < expected.len()
    &&& exists|why: Seq<char>|
        #![trigger about(id, why)]
        message == about(id, why) && is_part(corpus, expected[at], Err(why))
    &&& forall|k: int| 0 <= k < at ==> can_be_read(corpus, #[trigger] expected[k])
}

/// Whether a message is what is said of the first of a query's entries that names nothing in the
/// wiki.
pub open spec fn unresolved(
    corpus: Corpus,
    id: Seq<char>,
    expected: Seq<Expected>,
    message: Seq<char>,
) -> bool {
    exists|at: int| #[trigger] is_first_unresolved(corpus, id, expected, at, message)
}

impl Query {
    pub open spec fn pages(self) -> Seq<Seq<char>> {
        self.expected@.map_values(|entry: Expected| entry.page())
    }

    /// The criterion this query is judged by.
    pub fn mode(&self) -> (mode: Result<Mode, String>)
        ensures
            match mode {
                Ok(mode) => mode_of(self.mode@) == Some(mode),
                Err(message) => mode_of(self.mode@) is None && message@ == about(
                    self.id@,
                    "no mode named "@ + text::debugged(self.mode@),
                ),
            },
    {
        match mode_named(self.mode.as_str()) {
            Some(mode) => Ok(mode),
            None => {
                let mut message: String = "no mode named ".to_owned();
                message.append(text::debug(self.mode.as_str()).as_str());
                Err(say(self.id.as_str(), message.as_str()))
            },
        }
    }

    /// The pages this query wants, however each entry named them, each once.
    pub fn expected(&self) -> (pages: Vec<String>)
        ensures
            gold::is_path_set(self.pages(), text::texts(pages@)),
    {
        let mut list: Vec<String> = Vec::new();
        for i in 0..self.expected.len()
            invariant
                list.len() == i,
                forall|k: int| 0 <= k < i ==> (#[trigger] list@[k])@ == self.expected@[k].page(),
        {
            list.push(self.expected[i].path().to_owned());
        }
        assert(text::texts(list@) =~= self.pages());
        gold::distinct_paths(&list)
    }

    /// Resolves the labels against the wiki: a page named on its own is wanted whole, a heading is
    /// the section it opens, and lines are read as written.
    pub fn resolve(&self, corpus: &Corpus) -> (read: Result<Vec<Wanted>, String>)
        ensures
            read matches Ok(wanted) ==> wanted.len() == self.expected.len() && resolves(
                *corpus,
                self.expected@,
                wanted@,
            ),
            read matches Err(message) ==> unresolved(
                *corpus,
                self.id@,
                self.expected@,
                message@,
            ),
    {
        let mut wanted: Vec<Wanted> = Vec::new();
        for i in 0..self.expected.len()
            invariant
                wanted.len() == i,
                resolves(*corpus, self.expected@, wanted@),
        {
            let entry: &Expected = &self.expected[i];
            match part(corpus, entry) {
                Ok(lines) => {
                    let page: String = entry.path().to_owned();
                    wanted.push(Wanted { page, lines });
                },
                Err(why) => {
                    let message: String = say(self.id.as_str(), why.as_str());
                    proof {
                        assert(is_part(*corpus, self.expected@[i as int], Err(why@)));
                        assert(message@ == about(self.id@, why@));
                        assert forall|k: int| 0 <= k < i implies can_be_read(
                            *corpus,
                            #[trigger] self.expected@[k],
                        ) by {
                            assert(is_part(
                                *corpus,
                                self.expected@[k],
                                Ok(wanted@[k].lines),
                            ));
                        }
                        assert(is_first_unresolved(
                            *corpus,
                            self.id@,
                            self.expected@,
                            i as int,
                            message@,
                        ));
                        assert(unresolved(*corpus, self.id@, self.expected@, message@));
                    }
                    return Err(message);
                },
            }
        }
        Ok(wanted)
    }
}

/// What stands against one of a query's wanted pages: the wiki does not hold it, or an entry before
/// it wants it too.
pub open spec fn page_fault(corpus: Corpus, query: Query, at: int) -> Option<Seq<char>> {
    let page = query.pages()[at];
    if !corpus.holds(page) {
        Some(about(query.id@, "expected page "@ + page + " is not under "@ + corpus.root@))
    } else if exists|k: int| 0 <= k < at && paths::same_path(#[trigger] query.pages()[k], page) {
        Some(about(query.id@, page + " is expected twice"@))
    } else {
        None
    }
}

/// What stands against the first `n` of a query's wanted pages.
pub open spec fn pages_fault(corpus: Corpus, query: Query, n: int) -> Option<Seq<char>>
    decreases n,
{
    if n <= 0 {
        None
    } else {
        match pages_fault(corpus, query, n - 1) {
            Some(message) => Some(message),
            None => page_fault(corpus, query, n - 1),
        }
    }
}

/// What stands against a query of a gold set.
pub open spec fn query_fault(corpus: Corpus, queries: Seq<Query>, at: int) -> Option<Seq<char>> {
    let query = queries[at];
    if text::blank(query.query@) {
        Some(about(query.id@, "the query is blank"@))
    } else if mode_of(query.mode@) is None {
        Some(about(query.id@, "no mode named "@ + text::debugged(query.mode@)))
    } else if exists|k: int| 0 <= k < at && (#[trigger] queries[k]).id@ == query.id@ {
        Some(about(query.id@, "two queries share this id"@))
    } else if !corpus.holds(query.entry@) {
        Some(
            about(
                query.id@,
                "entry "@ + query.entry@ + " is not a page under "@ + corpus.root@,
            ),
        )
    } else if query.expected.len() == 0 {
        Some(about(query.id@, "no expected pages"@))
    } else {
        pages_fault(corpus, query, query.expected.len() as int)
    }
}

/// What stands against the first `n` queries of a gold set.
pub open spec fn queries_fault(corpus: Corpus, queries: Seq<Query>, n: int) -> Option<Seq<char>>
    decreases n,
{
    if n <= 0 {
        None
    } else {
        match queries_fault(corpus, queries, n - 1) {
            Some(message) => Some(message),
            None => query_fault(corpus, queries, n - 1),
        }
    }
}

proof fn a_fault_stays(corpus: Corpus, queries: Seq<Query>, n: int, m: int)
    requires
        n <= m,
        queries_fault(corpus, queries, n) is Some,
    ensures
        queries_fault(corpus, queries, m) == queries_fault(corpus, queries, n),
    decreases m,
{
    if n < m {
        a_fault_stays(corpus, queries, n, m - 1);
    }
}

proof fn a_page_fault_stays(corpus: Corpus, query: Query, n: int, m: int)
    requires
        n <= m,
        pages_fault(corpus, query, n) is Some,
    ensures
        pages_fault(corpus, query, m) == pages_fault(corpus, query, n),
    decreases m,
{
    if n < m {
        a_page_fault_stays(corpus, query, n, m - 1);
    }
}

fn check_pages(corpus: &Corpus, query: &Query) -> (fault: Option<String>)
    ensures
        match fault {
            Some(message) => pages_fault(*corpus, *query, query.expected.len() as int) == Some(
                message@,
            ),
            None => pages_fault(*corpus, *query, query.expected.len() as int) is None,
        },
{
    for i in 0..query.expected.len()
        invariant
            pages_fault(*corpus, *query, i as int) is None,
    {
        let page: &str = query.expected[i].path();
        assert(query.pages()[i as int] == page@);
        if !corpus.has(page) {
            let mut message: String = "expected page ".to_owned();
            message.append(page);
            message.append(" is not under ");
            message.append(corpus.root.as_str());
            proof {
                a_page_fault_stays(*corpus, *query, i + 1, query.expected.len() as int);
            }
            return Some(say(query.id.as_str(), message.as_str()));
        }
        let mut twice: bool = false;
        for k in 0..i
            invariant
                i < query.expected.len(),
                page@ == query.pages()[i as int],
                twice == exists|j: int|
                    0 <= j < k && paths::same_path(#[trigger] query.pages()[j], page@),
        {
            assert(query.pages()[k as int] == query.expected@[k as int].page());
            if paths::is_same(query.expected[k].path(), page) {
                twice = true;
            }
        }
        if twice {
            let message: String = with_end(page, " is expected twice");
            proof {
                a_page_fault_stays(*corpus, *query, i + 1, query.expected.len() as int);
            }
            return Some(say(query.id.as_str(), message.as_str()));
        }
    }
    None
}

fn check_query(corpus: &Corpus, queries: &Vec<Query>, at: usize) -> (fault: Option<String>)
    requires
        at < queries.len(),
    ensures
        match fault {
            Some(message) => query_fault(*corpus, queries@, at as int) == Some(message@),
            None => query_fault(*corpus, queries@, at as int) is None,
        },
{
    let query: &Query = &queries[at];
    if text::is_blank(query.query.as_str()) {
        return Some(say(query.id.as_str(), "the query is blank"));
    }
    match query.mode() {
        Ok(_) => {},
        Err(message) => return Some(message),
    }
    for k in 0..at
        invariant
            at < queries.len(),
            *query == queries@[at as int],
            !text::blank(query.query@),
            mode_of(query.mode@) is Some,
            forall|j: int| 0 <= j < k ==> (#[trigger] queries@[j]).id@ != query.id@,
    {
        if text::same(queries[k].id.as_str(), query.id.as_str()) {
            assert(queries@[k as int].id@ == query.id@);
            return Some(say(query.id.as_str(), "two queries share this id"));
        }
    }
    if !corpus.has(query.entry.as_str()) {
        let mut message: String = "entry ".to_owned();
        message.append(query.entry.as_str());
        message.append(" is not a page under ");
        message.append(corpus.root.as_str());
        return Some(say(query.id.as_str(), message.as_str()));
    }
    if query.expected.len() == 0 {
        return Some(say(query.id.as_str(), "no expected pages"));
    }
    check_pages(corpus, query)
}

/// The gold set.
pub struct Gold {
    pub queries: Vec<Query>,
}

pub const NO_QUERIES: &'static str = ": no queries";

/// Whether a query is another, its labels read off the wiki.
pub open spec fn is_resolved(corpus: Corpus, from: Query, to: Query) -> bool {
    &&& to.id == from.id
    &&& to.query == from.query
    &&& to.mode == from.mode
    &&& to.entry == from.entry
    &&& to.expected == from.expected
    &&& to.note == from.note
    &&& to.wanted.len() == from.expected.len()
    &&& resolves(corpus, from.expected@, to.wanted@)
}

/// Whether every entry of a query names something that the wiki has.
pub open spec fn all_read(corpus: Corpus, query: Query) -> bool {
    forall|i: int|
        0 <= i < query.expected.len() ==> can_be_read(corpus, #[trigger] query.expected@[i])
}

/// Whether a query is the first whose labels name something that the wiki does not have.
pub open spec fn is_unresolved(
    corpus: Corpus,
    queries: Seq<Query>,
    q: int,
    message: Seq<char>,
) -> bool {
    &&& 0 <= q < queries.len()
    &&& unresolved(corpus, queries[q].id@, queries[q].expected@, message)
    &&& forall|k: int| 0 <= k < q ==> all_read(corpus, #[trigger] queries[k])
}

impl Gold {
    /// Checks a gold set against the wiki it will be measured on: a mistake in the set would
    /// otherwise show up as a page nothing recalled rather than as itself.
    pub fn load(file: &str, queries: Vec<Query>, corpus: &Corpus) -> (gold: Result<Gold, String>)
        ensures
            match gold {
                Ok(gold) => {
                    &&& queries.len() > 0
                    &&& queries_fault(*corpus, queries@, queries.len() as int) is None
                    &&& gold.queries.len() == queries.len()
                    &&& forall|i: int|
                        0 <= i < queries.len() ==> is_resolved(
                            *corpus,
                            queries@[i],
                            #[trigger] gold.queries@[i],
                        )
                },
                Err(message) => {
                    ||| queries.len() == 0 && message@ == file@ + NO_QUERIES@
                    ||| queries.len() > 0 && queries_fault(
                        *corpus,
                        queries@,
                        queries.len() as int,
                    ) == Some(message@)
                    ||| queries.len() > 0 && queries_fault(
                        *corpus,
                        queries@,
                        queries.len() as int,
                    ) is None && exists|q: int| #[trigger]
                        is_unresolved(*corpus, queries@, q, message@)
                },
            },
    {
        if queries.len() == 0 {
            return Err(with_end(file, NO_QUERIES));
        }
        let ghost all = queries@;
        for i in 0..queries.len()
            invariant
                all == queries@,
                queries.len() > 0,
                queries_fault(*corpus, all, i as int) is None,
        {
            match check_query(corpus, &queries, i) {
                Some(message) => {
                    proof {
                        a_fault_stays(*corpus, all, i + 1, queries.len() as int);
                    }
                    return Err(message);
                },
                None => {},
            }
        }
        let mut rest: Vec<Query> = queries;
        let mut read: Vec<Query> = Vec::new();
        assert(all.skip(0) =~= all);
        while rest.len() > 0
            invariant
                all == queries@,
                all.len() > 0,
                queries_fault(*corpus, all, all.len() as int) is None,
                read.len() + rest.len() == all.len(),
                rest@ == all.skip(read.len() as int),
                forall|i: int|
                    0 <= i < read.len() ==> is_resolved(*corpus, all[i], #[trigger] read@[i]),
            decreases rest.len(),
        {
            let query: Query = rest.remove(0);
            assert(query == all[read.len() as int]);
            assert(rest@ =~= all.skip(read.len() + 1));
            match query.resolve(corpus) {
                Ok(wanted) => {
                    read.push(
                        Query {
                            id: query.id,
                            query: query.query,
                            mode: query.mode,
                            entry: query.entry,
                            expected: query.expected,
                            note: query.note,
                            wanted,
                        },
                    );
                },
                Err(message) => {
                    proof {
                        assert forall|k: int| 0 <= k < read.len() implies all_read(
                            *corpus,
                            #[trigger] all[k],
                        ) by {
                            assert(is_resolved(*corpus, all[k], read@[k]));
                            assert forall|i: int| 0 <= i < all[k].expected.len() implies can_be_read(
                                *corpus,
                                #[trigger] all[k].expected@[i],
                            ) by {
                                assert(is_part(
                                    *corpus,
                                    all[k].expected@[i],
                                    Ok(read@[k].wanted@[i].lines),
                                ));
                            }
                        }
                        assert(is_unresolved(*corpus, all, read.len() as int, message@));
                    }
                    return Err(message);
                },
            }
        }
        Ok(Gold { queries: read })
    }
}

proof fn no_fault_before(corpus: Corpus, queries: Seq<Query>, n: int, at: int)
    requires
        0 <= at < n,
        queries_fault(corpus, queries, n) is None,
    ensures
        query_fault(corpus, queries, at) is None,
    decreases n,
{
    if at < n - 1 {
        no_fault_before(corpus, queries, n - 1, at);
    }
}

/// A gold set that is measured wants something of every query, from a page that the wiki holds, and
/// no two of its queries share an id.
pub proof fn a_measured_set_is_sound(corpus: Corpus, queries: Seq<Query>, a: int, b: int)
    requires
        queries_fault(corpus, queries, queries.len() as int) is None,
        0 <= a < b < queries.len(),
    ensures
        queries[a].id@ != queries[b].id@,
        queries[b].expected.len() > 0,
        corpus.holds(queries[b].entry@),
{
    no_fault_before(corpus, queries, queries.len() as int, b);
}

} // verus!
