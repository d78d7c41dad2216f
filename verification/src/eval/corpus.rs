//! The wiki, read once: which pages it holds and their text, which is what the reading numbers are
//! counted in.

use vstd::prelude::*;

use crate::counting;
use crate::paths;
use crate::reading;
use crate::text;

verus! {

/// A heading section of a page: its heading, none before the first, and its first and last line.
pub struct Heading {
    pub heading: Option<String>,
    pub lines: (usize, usize),
}

/// One page: its path relative to the root, its text, and its sections, or why they could not be
/// read.
pub struct Page {
    pub path: String,
    pub text: String,
    pub sections: Result<Vec<Heading>, String>,
}

/// The wiki: the root as the caller spelled it, and every page a walk can reach.
pub struct Corpus {
    pub root: String,
    pub pages: Vec<Page>,
}

/// The page with a path: the last one, where pages share it.
pub open spec fn find(pages: Seq<Page>, path: Seq<char>) -> Option<int>
    decreases pages.len(),
{
    if pages.len() == 0 {
        None
    } else if paths::same_path(pages.last().path@, path) {
        Some(pages.len() - 1)
    } else {
        find(pages.drop_last(), path)
    }
}

/// A list of pages with one more: it takes the place of the one with its path.
pub open spec fn with_page(pages: Seq<Page>, page: Page) -> Seq<Page> {
    match find(pages, page.path@) {
        Some(i) => pages.update(i, page),
        None => pages.push(page),
    }
}

/// Pages, each path once.
pub open spec fn held(pages: Seq<Page>) -> Seq<Page>
    decreases pages.len(),
{
    if pages.len() == 0 {
        Seq::empty()
    } else {
        with_page(held(pages.drop_last()), pages.last())
    }
}

pub proof fn find_is_inside(pages: Seq<Page>, path: Seq<char>)
    ensures
        find(pages, path) matches Some(i) ==> 0 <= i < pages.len() && paths::same_path(
            pages[i].path@,
            path,
        ),
    decreases pages.len(),
{
    if pages.len() > 0 {
        find_is_inside(pages.drop_last(), path);
    }
}

pub fn find_page(pages: &Vec<Page>, path: &str) -> (at: Option<usize>)
    ensures
        match at {
            Some(at) => find(pages@, path@) == Some(at as int) && at < pages.len(),
            None => find(pages@, path@) is None,
        },
{
    let mut n: usize = pages.len();
    assert(pages@.take(n as int) =~= pages@);
    while n > 0
        invariant
            n <= pages.len(),
            find(pages@, path@) == find(pages@.take(n as int), path@),
        decreases n,
    {
        n -= 1;
        proof {
            counting::one_more(pages@, n as int);
        }
        if paths::is_same(pages[n].path.as_str(), path) {
            return Some(n);
        }
    }
    None
}

/// The characters in the pages of a list.
pub open spec fn chars_in_all(pages: Seq<Page>) -> int {
    counting::total(pages, |page: Page| page.text@.len() as int)
}

/// What a page's ranges cover: the characters in them and the lines they span.
#[derive(PartialEq, Eq, Structural, Clone, Copy)]
pub struct Reading {
    pub chars: usize,
    pub lines: usize,
}

/// How many of the first `n` lines some range holds.
pub open spec fn lines_covered(ranges: Seq<(usize, usize)>, n: int) -> nat
    decreases n,
{
    if n <= 0 {
        0
    } else {
        lines_covered(ranges, n - 1) + if reading::covered(ranges, n - 1) {
            1nat
        } else {
            0nat
        }
    }
}

/// How many lines a text has, the last one even without a line feed.
fn count_lines(source: &str) -> (n: usize)
    ensures
        n == reading::whole_lines(source@).len(),
        n <= source@.len(),
{
    let all: Vec<char> = text::chars(source);
    let mut n: usize = 0;
    let mut open: bool = false;
    assert(all@.take(0) =~= Seq::<char>::empty());
    for i in 0..all.len()
        invariant
            n <= i,
            ({
                let sofar = reading::whole_lines(all@.take(i as int));
                &&& n == sofar.len()
                &&& open == (sofar.len() > 0 && sofar.last().last() != '\n')
            }),
    {
        proof {
            counting::one_more(all@, i as int);
        }
        if !open {
            n += 1;
        }
        open = all[i] != '\n';
    }
    proof {
        counting::take_all(all@);
    }
    n
}

fn count_covered(ranges: &Vec<(usize, usize)>, n: usize) -> (count: usize)
    ensures
        count == lines_covered(ranges@, n as int),
        count <= n,
{
    let mut count: usize = 0;
    for i in 0..n
        invariant
            count == lines_covered(ranges@, i as int),
            count <= i,
    {
        if reading::is_covered(ranges, i) {
            count += 1;
        }
    }
    count
}

/// How many characters are counted as a token.
pub const CHARS_PER_TOKEN: usize = 4;

/// The tokens characters are counted as: a part of one is one.
pub open spec fn tokens_of(chars: int) -> int {
    (chars + CHARS_PER_TOKEN - 1) / CHARS_PER_TOKEN as int
}

pub fn tokens(chars: u128) -> (n: u128)
    ensures
        n == tokens_of(chars as int),
{
    if chars % 4 == 0 {
        chars / 4
    } else {
        chars / 4 + 1
    }
}

pub const NO_PAGES: &'static str = ": no markdown or text pages under it";

impl Corpus {
    /// The text of a page, where the wiki holds it.
    pub open spec fn source(self, page: Seq<char>) -> Option<Seq<char>> {
        match find(self.pages@, page) {
            Some(i) => Some(self.pages@[i].text@),
            None => None,
        }
    }

    pub open spec fn holds(self, page: Seq<char>) -> bool {
        find(self.pages@, page) is Some
    }

    /// How many lines a page has; none of a page that is not there.
    pub open spec fn line_count(self, page: Seq<char>) -> nat {
        match self.source(page) {
            Some(source) => text::lines(source).len(),
            None => 0,
        }
    }

    /// How many characters a page has.
    pub open spec fn size(self, page: Seq<char>) -> nat {
        match self.source(page) {
            Some(source) => source.len(),
            None => 0,
        }
    }

    /// What a page's ranges cover, each line counted once.
    pub open spec fn read(self, page: Seq<char>, ranges: Seq<(usize, usize)>) -> (nat, nat) {
        match self.source(page) {
            Some(source) => (
                reading::chars_of(source, ranges),
                lines_covered(ranges, reading::whole_lines(source).len() as int),
            ),
            None => (0, 0),
        }
    }

    /// The wiki under a root.
    pub fn load(root: &str, pages: Vec<Page>) -> (corpus: Result<Corpus, String>)
        ensures
            match corpus {
                Ok(corpus) => pages.len() > 0 && corpus.root@ == root@ && corpus.pages@ == held(
                    pages@,
                ),
                Err(message) => pages.len() == 0 && message@ == root@ + NO_PAGES@,
            },
    {
        if pages.len() == 0 {
            let mut message: String = root.to_owned();
            message.append(NO_PAGES);
            return Err(message);
        }
        let ghost all = pages@;
        let mut rest: Vec<Page> = pages;
        let mut kept: Vec<Page> = Vec::new();
        let ghost mut done: int = 0;
        assert(all.skip(0) =~= all);
        while rest.len() > 0
            invariant
                0 <= done <= all.len(),
                rest@ == all.skip(done),
                kept@ == held(all.take(done)),
            decreases rest.len(),
        {
            let page: Page = rest.remove(0);
            proof {
                counting::one_more(all, done);
                assert(page == all[done]);
                assert(rest@ =~= all.skip(done + 1));
                done = done + 1;
            }
            match find_page(&kept, page.path.as_str()) {
                Some(at) => kept.set(at, page),
                None => kept.push(page),
            }
        }
        assert(all.take(done) =~= all);
        Ok(Corpus { root: root.to_owned(), pages: kept })
    }

    /// Whether this is a page the wiki holds.
    pub fn has(&self, page: &str) -> (yes: bool)
        ensures
            yes == self.holds(page@),
    {
        find_page(&self.pages, page).is_some()
    }

    /// What a page's ranges cover: the characters in them and the lines they span, each counted
    /// once.
    pub fn reading(&self, page: &str, ranges: &Vec<(usize, usize)>) -> (reading: Reading)
        ensures
            reading.chars == self.read(page@, ranges@).0,
            reading.lines == self.read(page@, ranges@).1,
    {
        match find_page(&self.pages, page) {
            Some(at) => {
                let source: &str = self.pages[at].text.as_str();
                Reading {
                    chars: reading::chars_in(source, ranges),
                    lines: count_covered(ranges, count_lines(source)),
                }
            },
            None => Reading { chars: 0, lines: 0 },
        }
    }

    /// How many lines one page has: a trailing line feed does not open a line of its own.
    pub fn lines_of(&self, page: &str) -> (n: usize)
        ensures
            n == self.line_count(page@),
    {
        match find_page(&self.pages, page) {
            Some(at) => {
                let lines: Vec<String> = text::lines_of(self.pages[at].text.as_str());
                assert(text::texts(lines@).len() == lines.len());
                lines.len()
            },
            None => 0,
        }
    }

    /// Every character in one page.
    pub fn chars_of(&self, page: &str) -> (n: usize)
        ensures
            n == self.size(page@),
    {
        match find_page(&self.pages, page) {
            Some(at) => text::length(self.pages[at].text.as_str()),
            None => 0,
        }
    }

    /// Every character in the wiki.
    pub fn chars(&self) -> (n: u128)
        ensures
            n == chars_in_all(self.pages@),
    {
        let ghost of = |page: Page| page.text@.len() as int;
        let mut n: u128 = 0;
        for i in 0..self.pages.len()
            invariant
                of == (|page: Page| page.text@.len() as int),
                n == counting::total(self.pages@.take(i as int), of),
                n <= i * u64::MAX,
        {
            proof {
                counting::one_more(self.pages@, i as int);
                counting::room(i as int);
            }
            let more: usize = text::length(self.pages[i].text.as_str());
            n += more as u128;
        }
        proof {
            counting::take_all(self.pages@);
        }
        n
    }
}

/// The heading of a section, where it has that one.
pub open spec fn is_headed(section: Heading, heading: Seq<char>) -> bool {
    match section.heading {
        Some(name) => name@ == heading,
        None => false,
    }
}

/// How many of some sections have a heading.
pub open spec fn times_headed(sections: Seq<Heading>, heading: Seq<char>) -> nat
    decreases sections.len(),
{
    if sections.len() == 0 {
        0
    } else {
        times_headed(sections.drop_last(), heading) + if is_headed(sections.last(), heading) {
            1nat
        } else {
            0nat
        }
    }
}

/// The lines of the section that alone has a heading, or what is said of a heading that no section
/// has or that two share.
pub open spec fn named_section(
    page: Seq<char>,
    sections: Seq<Heading>,
    heading: Seq<char>,
    lines: Result<(usize, usize), Seq<char>>,
) -> bool {
    match lines {
        Ok(lines) => times_headed(sections, heading) == 1 && exists|i: int|
            0 <= i < sections.len() && is_headed(#[trigger] sections[i], heading)
                && sections[i].lines == lines,
        Err(message) => (times_headed(sections, heading) == 0 && message == page
            + " has no heading named "@ + text::debugged(heading)) || (times_headed(
            sections,
            heading,
        ) > 1 && message == page + " has two headings named "@ + text::debugged(heading)
            + "; name lines instead"@),
    }
}

/// What a result says, its error as a text.
pub open spec fn said(
    lines: Result<(usize, usize), String>,
) -> Result<(usize, usize), Seq<char>> {
    match lines {
        Ok(lines) => Ok(lines),
        Err(message) => Err(message@),
    }
}

fn section_named(page: &str, sections: &Vec<Heading>, heading: &str) -> (lines: Result<
    (usize, usize),
    String,
>)
    ensures
        named_section(page@, sections@, heading@, said(lines)),
{
    let mut found: Option<(usize, usize)> = None;
    let mut times: usize = 0;
    for i in 0..sections.len()
        invariant
            times == times_headed(sections@.take(i as int), heading@),
            times <= i,
            match found {
                Some(lines) => times > 0 && exists|k: int|
                    0 <= k < i && is_headed(#[trigger] sections@[k], heading@)
                        && sections@[k].lines == lines,
                None => times == 0,
            },
    {
        proof {
            counting::one_more(sections@, i as int);
        }
        let headed: bool = match &sections[i].heading {
            Some(name) => text::same(name.as_str(), heading),
            None => false,
        };
        if headed {
            times += 1;
            assert(is_headed(sections@[i as int], heading@));
            if found.is_none() {
                found = Some(sections[i].lines);
            }
        }
    }
    proof {
        counting::take_all(sections@);
    }
    match found {
        Some(lines) => {
            if times > 1 {
                let mut message: String = page.to_owned();
                message.append(" has two headings named ");
                message.append(text::debug(heading).as_str());
                message.append("; name lines instead");
                Err(message)
            } else {
                Ok(lines)
            }
        },
        None => {
            let mut message: String = page.to_owned();
            message.append(" has no heading named ");
            message.append(text::debug(heading).as_str());
            Err(message)
        },
    }
}

impl Corpus {
    /// Whether lines are those of a page's section under a heading, or what stands against it: a
    /// heading no section has, or two sections share, is a label that names nothing rather than a
    /// range to guess at.
    pub open spec fn is_section(
        self,
        page: Seq<char>,
        heading: Seq<char>,
        lines: Result<(usize, usize), Seq<char>>,
    ) -> bool {
        match find(self.pages@, page) {
            Some(i) => match self.pages@[i].sections {
                Ok(sections) => named_section(page, sections@, heading, lines),
                Err(why) => lines == Err::<(usize, usize), Seq<char>>(page + ": "@ + why@),
            },
            None => lines == Err::<(usize, usize), Seq<char>>(page + ": no such page"@),
        }
    }

    /// The lines of a page's section under a heading.
    pub fn section(&self, page: &str, heading: &str) -> (lines: Result<(usize, usize), String>)
        ensures
            self.is_section(page@, heading@, said(lines)),
    {
        match find_page(&self.pages, page) {
            Some(at) => match &self.pages[at].sections {
                Ok(sections) => section_named(page, sections, heading),
                Err(why) => {
                    let mut message: String = page.to_owned();
                    message.append(": ");
                    message.append(why.as_str());
                    Err(message)
                },
            },
            None => {
                let mut message: String = page.to_owned();
                message.append(": no such page");
                Err(message)
            },
        }
    }
}

} // verus!
