//! One query end to end: what it starts from, and the reading list the caller reads.
//!
//! `results` holds the files that earn a place on their own: relevance at or above the threshold,
//! or a section at or above it. A hub is worth walking through and not worth reading, so the pages
//! the walk only passed through are reported under `walked` instead. Every path is spelled the way
//! the caller spelled its entry files.

use vstd::prelude::*;

use crate::cache::CachedScorer;
use crate::counting;
use crate::doubles;
use crate::json;
use crate::paths;
use crate::s1mignore;
use crate::s1mignore::Ignore;
use crate::sorting;
use crate::text;

verus! {

/// How a walk's links are admitted to the frontier.
#[derive(PartialEq, Eq, Structural, Clone, Copy)]
pub enum Admission {
    /// By their scent, against a threshold: the bits of a double.
    Threshold(u64),
    /// By the scorer's own verdict.
    Scorer,
}

/// One run's inputs.
pub struct Options {
    /// What the reading list should be useful for, in the asker's own words.
    pub query: String,
    /// Entry files, spelled the caller's way.
    pub entries: Vec<String>,
    /// The directory that bounds the walk; without one, the first entry file's directory.
    pub root: Option<String>,
    /// Most files the walk judges beyond the entry files.
    pub max_files: usize,
    /// Most link hops from an entry file.
    pub max_depth: usize,
    /// What the reading list cuts at: the bits of a double.
    pub threshold: u64,
    pub admission: Admission,
    /// Most paths the walk holds at one depth.
    pub beam: Option<usize>,
    /// Frontier files expanded per round.
    pub fanout: usize,
    /// The criterion the answers were judged against.
    pub mode: String,
    /// How the links were judged: `noul` or `choice`.
    pub scorer: String,
}

impl Options {
    /// The directory the walk is bounded by and every path is spelled against: none when there is
    /// no entry file, since a walk with nothing to start from is not a run.
    pub open spec fn base(self) -> Option<Seq<char>> {
        if self.entries.len() == 0 {
            None
        } else {
            match self.root {
                Some(root) => Some(root@),
                None => match paths::parent(self.entries@[0]@) {
                    Some(dir) if dir.len() > 0 => Some(dir),
                    _ => Some("."@),
                },
            }
        }
    }

    /// The directory the walk is bounded by.
    pub fn root(&self) -> (root: Option<String>)
        ensures
            json::text_of(root) == self.base(),
    {
        if self.entries.len() == 0 {
            return None;
        }
        match &self.root {
            Some(root) => Some(root.clone()),
            None => match paths::parent_of(self.entries[0].as_str()) {
                Some(dir) => if text::length(dir.as_str()) > 0 {
                    Some(dir)
                } else {
                    Some(".".to_owned())
                },
                None => Some(".".to_owned()),
            },
        }
    }
}

/// Why a run produced no reading list.
pub enum Error {
    /// No query, or no entry file to start from.
    MissingArguments,
    /// An entry file the caller named could not be read or parsed.
    Entry(String),
    /// The walk could not start.
    Walk(String),
    /// The scorer could not be built.
    Scorer(String),
    /// The root's `.s1mignore` could not be used.
    Ignore(String),
    /// An entry file the caller named is one the root's `.s1mignore` covers.
    Ignored { path: String, file: String },
    /// Nothing was judged: a file the walk reached could not be judged and no other page was.
    Judge { path: String, source: String },
}

pub const MISSING_ARGUMENTS: &'static str =
    "a query and at least one entry file are required; see --help";

impl Error {
    /// What is said of an error.
    pub open spec fn said(self) -> Seq<char> {
        match self {
            Error::MissingArguments => MISSING_ARGUMENTS@,
            Error::Entry(message) => message@,
            Error::Walk(message) => message@,
            Error::Scorer(message) => message@,
            Error::Ignore(message) => message@,
            Error::Ignored { path, file } => path@ + " is matched by "@ + file@
                + ": s1m never reads an ignored file"@,
            Error::Judge { path, source } => path@ + " could not be judged: "@ + source@,
        }
    }

    pub fn message(&self) -> (message: String)
        ensures
            message@ == self.said(),
    {
        match self {
            Error::MissingArguments => MISSING_ARGUMENTS.to_owned(),
            Error::Entry(message) => message.clone(),
            Error::Walk(message) => message.clone(),
            Error::Scorer(message) => message.clone(),
            Error::Ignore(message) => message.clone(),
            Error::Ignored { path, file } => {
                let mut message: String = path.clone();
                message.append(" is matched by ");
                message.append(file.as_str());
                message.append(": s1m never reads an ignored file");
                message
            },
            Error::Judge { path, source } => {
                let mut message: String = path.clone();
                message.append(" could not be judged: ");
                message.append(source.as_str());
                message
            },
        }
    }
}

/// The root a run is bounded by: none without a query or without an entry file.
pub fn start(options: &Options) -> (root: Result<String, Error>)
    ensures
        match root {
            Ok(root) => !text::blank(options.query@) && options.base() == Some(root@),
            Err(error) => (text::blank(options.query@) || options.base() is None)
                && error is MissingArguments,
        },
{
    if text::is_blank(options.query.as_str()) {
        return Err(Error::MissingArguments);
    }
    match options.root() {
        Some(root) => Ok(root),
        None => Err(Error::MissingArguments),
    }
}

/// Whether an entry file, by its path relative to the root, may be read.
pub fn check_entry(
    root: &str,
    ignore: &Ignore,
    entry: &str,
    relative: &str,
) -> (checked: Result<(), Error>)
    ensures
        match checked {
            Ok(_) => !ignore.matches(relative@),
            Err(error) => {
                &&& ignore.matches(relative@)
                &&& error is Ignored
                &&& error->Ignored_path@ == entry@
                &&& error->Ignored_file@ == paths::joined_path(root@, s1mignore::FILE@)
            },
        },
{
    if ignore.matched(relative) {
        Err(Error::Ignored { path: entry.to_owned(), file: paths::join(root, s1mignore::FILE) })
    } else {
        Ok(())
    }
}

/// An entry file as the walk names it: by its path below the root, or as it is spelled where it is
/// not below it.
pub open spec fn relative_to(root: Seq<char>, entry: Seq<char>) -> Seq<char> {
    match paths::below(entry, root) {
        Some(rest) => paths::path_of(rest),
        None => entry,
    }
}

pub fn relative_to_root(root: &str, entry: &str) -> (relative: String)
    ensures
        relative@ == relative_to(root@, entry@),
{
    match paths::strip(entry, root) {
        Some(rest) => rest,
        None => entry.to_owned(),
    }
}

/// What a run does next about its entry files.
pub enum Step {
    /// Reads and parses one of them, by its place.
    Parse(usize),
    /// Ends: one of them cannot be walked from.
    Refuse(Error),
    /// Starts the walk: every one of them can be walked from.
    Walk,
}

/// Whether an entry file is one the root's rules cover.
pub open spec fn is_covered(root: Seq<char>, ignore: Ignore, entry: Seq<char>) -> bool {
    ignore.matches(relative_to(root, entry))
}

/// Whether an entry file can be walked from: no rule covers it, and it was read and parsed.
pub open spec fn is_sound(
    root: Seq<char>,
    ignore: Ignore,
    entries: Seq<Seq<char>>,
    tried: Seq<Result<(), String>>,
    at: int,
) -> bool {
    !is_covered(root, ignore, entries[at]) && at < tried.len() && tried[at] is Ok
}

/// Whether an entry file is the first that is not known to be one the walk can start from.
pub open spec fn is_first_open(
    root: Seq<char>,
    ignore: Ignore,
    entries: Seq<Seq<char>>,
    tried: Seq<Result<(), String>>,
    at: int,
) -> bool {
    &&& 0 <= at < entries.len()
    &&& !is_sound(root, ignore, entries, tried, at)
    &&& forall|k: int| 0 <= k < at ==> #[trigger] is_sound(root, ignore, entries, tried, k)
}

/// Whether an error is what is said of an entry file that the walk cannot start from.
pub open spec fn is_refusal(
    root: Seq<char>,
    ignore: Ignore,
    entries: Seq<Seq<char>>,
    tried: Seq<Result<(), String>>,
    at: int,
    error: Error,
) -> bool {
    if is_covered(root, ignore, entries[at]) {
        &&& error is Ignored
        &&& error->Ignored_path@ == entries[at]
        &&& error->Ignored_file@ == paths::joined_path(root, s1mignore::FILE@)
    } else {
        at < tried.len() && tried[at] is Err && error == Error::Entry(tried[at]->Err_0)
    }
}

/// What comes next, given what reading and parsing the entry files has come to so far, one after
/// the other: the first of them that a rule covers or that did not parse ends the run, and one that
/// a rule covers is never read.
pub fn next_entry(
    root: &str,
    ignore: &Ignore,
    entries: &Vec<String>,
    tried: &Vec<Result<(), String>>,
) -> (step: Step)
    ensures
        match step {
            Step::Parse(at) => {
                &&& is_first_open(root@, *ignore, text::texts(entries@), tried@, at as int)
                &&& !is_covered(root@, *ignore, entries@[at as int]@)
                &&& at == tried.len()
            },
            Step::Refuse(error) => exists|at: int|
                {
                    &&& #[trigger] is_first_open(
                        root@,
                        *ignore,
                        text::texts(entries@),
                        tried@,
                        at,
                    )
                    &&& is_refusal(root@, *ignore, text::texts(entries@), tried@, at, error)
                },
            Step::Walk => forall|k: int|
                0 <= k < entries.len() ==> #[trigger] is_sound(
                    root@,
                    *ignore,
                    text::texts(entries@),
                    tried@,
                    k,
                ),
        },
{
    let ghost all = text::texts(entries@);
    for at in 0..entries.len()
        invariant
            all == text::texts(entries@),
            at <= tried.len(),
            forall|k: int|
                0 <= k < at ==> #[trigger] is_sound(root@, *ignore, all, tried@, k),
    {
        let entry: &String = &entries[at];
        assert(all[at as int] == entry@);
        let relative: String = relative_to_root(root, entry.as_str());
        match check_entry(root, ignore, entry.as_str(), relative.as_str()) {
            Ok(_) => {},
            Err(error) => {
                assert(is_first_open(root@, *ignore, all, tried@, at as int));
                return Step::Refuse(error);
            },
        }
        if at >= tried.len() {
            return Step::Parse(at);
        }
        match &tried[at] {
            Ok(_) => {},
            Err(message) => {
                let error: Error = Error::Entry(message.clone());
                assert(is_first_open(root@, *ignore, all, tried@, at as int));
                return Step::Refuse(error);
            },
        }
        assert(is_sound(root@, *ignore, all, tried@, at as int));
    }
    Step::Walk
}

/// What decides of a run is its first entry file that a rule covers or that does not parse, and
/// what comes of those after it says nothing: they are not read.
pub proof fn the_first_entry_decides(
    root: Seq<char>,
    ignore: Ignore,
    entries: Seq<Seq<char>>,
    tried: Seq<Result<(), String>>,
    more: Seq<Result<(), String>>,
    a: int,
    b: int,
)
    requires
        is_first_open(root, ignore, entries, tried, a),
        is_first_open(root, ignore, entries, tried + more, b),
        a < tried.len() || is_covered(root, ignore, entries[a]),
    ensures
        a == b,
        forall|error: Error|
            is_refusal(root, ignore, entries, tried, a, error) == #[trigger] is_refusal(
                root,
                ignore,
                entries,
                tried + more,
                b,
                error,
            ),
{
    let longer = tried + more;
    if a < b {
        assert(is_sound(root, ignore, entries, longer, a));
    }
    if b < a {
        assert(is_sound(root, ignore, entries, tried, b));
        assert(longer[b] == tried[b]);
    }
}

/// Why a walk queued nothing for a link.
#[derive(PartialEq, Eq, Structural, Clone, Copy)]
pub enum Reason {
    BelowThreshold,
    NotKept,
    Unjudged,
    OutsideRoot,
    TooDeep,
    AlreadyQueued,
    AlreadyReached,
}

/// One heading section of a file, as it was judged.
pub struct RankedSection {
    /// None for content before the first heading.
    pub heading: Option<String>,
    /// First and last line, inclusive, from 1.
    pub first: usize,
    pub last: usize,
    /// How useful the section is for the query: the bits of a double.
    pub score: u64,
}

/// One outgoing link of a file, as it was judged.
pub struct RankedLink {
    pub target: String,
    /// The scent the model gave it, none when it named no link to this target: the bits of a
    /// double.
    pub scent: Option<u64>,
    /// Whether this link queued its target.
    pub followed: bool,
    /// Why it did not.
    pub reason: Option<Reason>,
}

/// A file the walk visited; paths are relative to the root, numbers are the bits of doubles.
pub struct VisitedFile {
    pub path: String,
    pub relevance: u64,
    pub scent: Option<u64>,
    pub via: Vec<String>,
    pub sections: Vec<RankedSection>,
    pub links: Vec<RankedLink>,
}

/// Why a file the walk reached is not among those it judged.
pub enum Failure {
    /// It could not be read.
    Parse(String),
    /// It could not be judged.
    Score(String),
}

pub struct FailedFile {
    pub path: String,
    pub failure: Failure,
}

/// One file in the reading list.
pub struct RankedFile {
    pub path: String,
    /// How useful the file is for the query: the bits of a double.
    pub relevance: u64,
    /// The scent of the link that reached it; none for an entry file.
    pub scent: Option<u64>,
    /// The files on the best path to this one, in order and excluding it.
    pub via: Vec<String>,
    /// The sections that cleared the threshold, most useful first.
    pub sections: Vec<RankedSection>,
    pub links: Vec<RankedLink>,
}

/// One visited file that did not earn a place: the same without its sections.
pub struct WalkedFile {
    pub path: String,
    pub relevance: u64,
    pub scent: Option<u64>,
    pub via: Vec<String>,
    pub links: Vec<RankedLink>,
}

/// The reading list.
pub struct ReadingList {
    pub query: String,
    pub mode: String,
    pub scorer: String,
    /// Files judged.
    pub visited: usize,
    /// Answers bought.
    pub calls: u64,
    pub results: Vec<RankedFile>,
    pub walked: Vec<WalkedFile>,
}

impl ReadingList {
    /// The code the process exits with: zero where the list holds a file a link reached, which is
    /// one the caller could not have written itself.
    pub fn exit_code(&self) -> (code: i32)
        ensures
            code == if exists|i: int|
                0 <= i < self.results.len() && (#[trigger] self.results@[i]).via.len() > 0 {
                0i32
            } else {
                1i32
            },
    {
        for i in 0..self.results.len()
            invariant
                forall|k: int| 0 <= k < i ==> (#[trigger] self.results@[k]).via.len() == 0,
        {
            if self.results[i].via.len() > 0 {
                return 0;
            }
        }
        1
    }
}

/// A walk's path as the reading list spells it: the root joined back on, so the caller reads the
/// same paths it passed in.
pub open spec fn displayed(root: Seq<char>, path: Seq<char>) -> Seq<char> {
    if root == "."@ {
        path
    } else {
        paths::joined_path(root, path)
    }
}

pub fn display(root: &str, path: &str) -> (spelt: String)
    ensures
        spelt@ == displayed(root@, path@),
{
    if text::same(root, ".") {
        path.to_owned()
    } else {
        paths::join(root, path)
    }
}

/// Paths as the reading list spells them.
pub open spec fn all_displayed(root: Seq<char>, list: Seq<Seq<char>>) -> Seq<Seq<char>> {
    list.map_values(|path: Seq<char>| displayed(root, path))
}

fn display_all(root: &str, list: &Vec<String>) -> (spelt: Vec<String>)
    ensures
        text::texts(spelt@) == all_displayed(root@, text::texts(list@)),
{
    let mut spelt: Vec<String> = Vec::new();
    for i in 0..list.len()
        invariant
            spelt.len() == i,
            forall|k: int| 0 <= k < i ==> (#[trigger] spelt@[k])@ == displayed(root@, list@[k]@),
    {
        spelt.push(display(root, list[i].as_str()));
    }
    assert(text::texts(spelt@) =~= all_displayed(root@, text::texts(list@)));
    spelt
}

/// A text on one line.
pub open spec fn flattened(s: Seq<char>) -> Seq<char> {
    s.map_values(
        |c: char|
            if c == '\n' || c == '\r' {
                ' '
            } else {
                c
            },
    )
}

fn flatten(text: &str) -> (line: String)
    ensures
        line@ == flattened(text@),
{
    let all: Vec<char> = text::chars(text);
    let mut line = String::new();
    for i in 0..all.len()
        invariant
            all@ == text@,
            line@ == flattened(text@.take(i as int)),
    {
        let c: char = all[i];
        if c == '\n' || c == '\r' {
            line.push(' ');
        } else {
            line.push(c);
        }
        assert(line@ =~= flattened(text@.take(i + 1)));
    }
    assert(text@.take(all@.len() as int) =~= text@);
    line
}

/// What is said of a page the walk reached and dropped, on one line: the reason can come from
/// outside.
pub open spec fn skip_line(root: Seq<char>, path: Seq<char>, reason: Seq<char>) -> Seq<char> {
    "s1m: skipped "@ + displayed(root, path) + ": "@ + flattened(reason)
}

pub fn skipped(root: &str, path: &str, reason: &str) -> (line: String)
    ensures
        line@ == skip_line(root@, path@, reason@),
{
    let mut line: String = "s1m: skipped ".to_owned();
    line.append(display(root, path).as_str());
    line.append(": ");
    line.append(flatten(reason).as_str());
    line
}

/// Whether a section ranks before another: the more useful, and of two alike the earlier.
pub open spec fn section_before(a: RankedSection, b: RankedSection) -> bool {
    doubles::ranks_before(b.score, a.score) || (a.score == b.score && a.first < b.first)
}

fn is_section_before(a: &RankedSection, b: &RankedSection) -> (yes: bool)
    ensures
        yes == section_before(*a, *b),
{
    doubles::is_before(b.score, a.score) || (a.score == b.score && a.first < b.first)
}

/// The sections that clear a threshold, in order.
pub open spec fn clearing(sections: Seq<RankedSection>, threshold: u64) -> Seq<RankedSection>
    decreases sections.len(),
{
    if sections.len() == 0 {
        Seq::empty()
    } else if doubles::reaches(sections.last().score, threshold) {
        clearing(sections.drop_last(), threshold).push(sections.last())
    } else {
        clearing(sections.drop_last(), threshold)
    }
}

/// A file's sections as the reading list carries them: the ones that clear the threshold, most
/// useful first.
pub open spec fn ranked(sections: Seq<RankedSection>, threshold: u64) -> Seq<RankedSection> {
    sorting::sorted(
        clearing(sections, threshold),
        |a: RankedSection, b: RankedSection| section_before(a, b),
    )
}

pub fn ranked_sections(sections: Vec<RankedSection>, threshold: u64) -> (list: Vec<RankedSection>)
    ensures
        list@ == ranked(sections@, threshold),
{
    let ghost all = sections@;
    let mut rest: Vec<RankedSection> = sections;
    let mut kept: Vec<RankedSection> = Vec::new();
    let ghost mut done: int = 0;
    assert(all.skip(0) =~= all);
    while rest.len() > 0
        invariant
            0 <= done <= all.len(),
            rest@ == all.skip(done),
            kept@ == clearing(all.take(done), threshold),
        decreases rest.len(),
    {
        let section: RankedSection = rest.remove(0);
        proof {
            counting::one_more(all, done);
            assert(section == all[done]);
            assert(rest@ =~= all.skip(done + 1));
            done = done + 1;
        }
        if doubles::is_at_least(section.score, threshold) {
            kept.push(section);
        }
    }
    assert(all.take(done) =~= all);
    let ghost lt = |a: RankedSection, b: RankedSection| section_before(a, b);
    sorting::sort(kept, is_section_before, Ghost(lt))
}

/// The ranking of sections is an order, so the list never depends on the order that answers arrived
/// in: no section stands behind one that it ranks before.
pub proof fn sections_are_ranked(sections: Seq<RankedSection>, threshold: u64)
    ensures
        forall|i: int, j: int|
            0 <= i < j < ranked(sections, threshold).len() ==> !section_before(
                #[trigger] ranked(sections, threshold)[j],
                #[trigger] ranked(sections, threshold)[i],
            ),
{
    let lt = |a: RankedSection, b: RankedSection| section_before(a, b);
    assert(sorting::is_order(lt)) by {
        assert forall|a: RankedSection, b: RankedSection, c: RankedSection|
            #![trigger lt(a, b), lt(b, c)]
            !lt(a, b) && !lt(b, c) implies !lt(a, c) by {
            doubles::ranks_are_distinct(a.score, b.score);
            doubles::ranks_are_distinct(b.score, c.score);
            doubles::ranks_are_distinct(a.score, c.score);
        }
    }
    sorting::sorted_is_in_order(clearing(sections, threshold), lt);
    let list = ranked(sections, threshold);
    assert forall|i: int, j: int| 0 <= i < j < list.len() implies !section_before(
        #[trigger] list[j],
        #[trigger] list[i],
    ) by {
        assert(!lt(list[j], list[i]));
    }
}

/// Whether a file earns a place on its own: relevance at or above the threshold, or a section at or
/// above it.
pub open spec fn earns(file: VisitedFile, threshold: u64) -> bool {
    doubles::reaches(file.relevance, threshold) || exists|i: int|
        0 <= i < file.sections.len() && doubles::reaches(
            (#[trigger] file.sections@[i]).score,
            threshold,
        )
}

impl VisitedFile {
    pub fn earns_a_place(&self, threshold: u64) -> (yes: bool)
        ensures
            yes == earns(*self, threshold),
    {
        if doubles::is_at_least(self.relevance, threshold) {
            return true;
        }
        for i in 0..self.sections.len()
            invariant
                forall|k: int|
                    0 <= k < i ==> !doubles::reaches(
                        (#[trigger] self.sections@[k]).score,
                        threshold,
                    ),
        {
            if doubles::is_at_least(self.sections[i].score, threshold) {
                return true;
            }
        }
        false
    }
}

/// Whether links are those of a visited file, their targets spelled the caller's way.
pub open spec fn are_links(root: Seq<char>, from: Seq<RankedLink>, to: Seq<RankedLink>) -> bool {
    to.len() == from.len() && forall|i: int|
        0 <= i < to.len() ==> {
            &&& (#[trigger] to[i]).target@ == displayed(root, from[i].target@)
            &&& to[i].scent == from[i].scent
            &&& to[i].followed == from[i].followed
            &&& to[i].reason == from[i].reason
        }
}

fn display_links(root: &str, links: &Vec<RankedLink>) -> (spelt: Vec<RankedLink>)
    ensures
        are_links(root@, links@, spelt@),
{
    let mut spelt: Vec<RankedLink> = Vec::new();
    for i in 0..links.len()
        invariant
            spelt.len() == i,
            are_links(root@, links@.take(i as int), spelt@),
    {
        let link: &RankedLink = &links[i];
        spelt.push(
            RankedLink {
                target: display(root, link.target.as_str()),
                scent: link.scent,
                followed: link.followed,
                reason: link.reason,
            },
        );
        assert forall|k: int| 0 <= k < i + 1 implies {
            &&& (#[trigger] spelt@[k]).target@ == displayed(
                root@,
                links@.take(i + 1)[k].target@,
            )
            &&& spelt@[k].scent == links@.take(i + 1)[k].scent
            &&& spelt@[k].followed == links@.take(i + 1)[k].followed
            &&& spelt@[k].reason == links@.take(i + 1)[k].reason
        } by {
            if k < i {
                assert(links@.take(i as int)[k] == links@.take(i + 1)[k]);
            }
        }
    }
    assert(links@.take(links@.len() as int) =~= links@);
    spelt
}

/// Whether a result is a visited file as the reading list carries it.
pub open spec fn is_result(
    root: Seq<char>,
    threshold: u64,
    file: VisitedFile,
    result: RankedFile,
) -> bool {
    &&& result.path@ == displayed(root, file.path@)
    &&& result.relevance == file.relevance
    &&& result.scent == file.scent
    &&& text::texts(result.via@) == all_displayed(root, text::texts(file.via@))
    &&& result.sections@ == ranked(file.sections@, threshold)
    &&& are_links(root, file.links@, result.links@)
}

pub open spec fn is_walked(root: Seq<char>, file: VisitedFile, walked: WalkedFile) -> bool {
    &&& walked.path@ == displayed(root, file.path@)
    &&& walked.relevance == file.relevance
    &&& walked.scent == file.scent
    &&& text::texts(walked.via@) == all_displayed(root, text::texts(file.via@))
    &&& are_links(root, file.links@, walked.links@)
}

/// The files that earn a place, or those that do not, in order.
pub open spec fn placed(files: Seq<VisitedFile>, threshold: u64, place: bool) -> Seq<VisitedFile>
    decreases files.len(),
{
    if files.len() == 0 {
        Seq::empty()
    } else if earns(files.last(), threshold) == place {
        placed(files.drop_last(), threshold, place).push(files.last())
    } else {
        placed(files.drop_last(), threshold, place)
    }
}

/// Whether lists are what a walk visited, parted by what earns a place.
pub open spec fn parts_the_walk(
    root: Seq<char>,
    threshold: u64,
    files: Seq<VisitedFile>,
    results: Seq<RankedFile>,
    walked: Seq<WalkedFile>,
) -> bool {
    let earning = placed(files, threshold, true);
    let passing = placed(files, threshold, false);
    &&& results.len() == earning.len()
    &&& walked.len() == passing.len()
    &&& forall|i: int|
        0 <= i < results.len() ==> is_result(root, threshold, earning[i], #[trigger] results[i])
    &&& forall|i: int|
        0 <= i < walked.len() ==> is_walked(root, passing[i], #[trigger] walked[i])
}

/// Every file a walk visited is in the one list or in the other: among the results where it earns
/// a place, and among the files walked through where it does not.
pub proof fn a_visited_file_is_reported_once(files: Seq<VisitedFile>, threshold: u64)
    ensures
        placed(files, threshold, true).len() + placed(files, threshold, false).len()
            == files.len(),
        forall|file: VisitedFile| #[trigger]
            placed(files, threshold, true).contains(file) == (files.contains(file) && earns(
                file,
                threshold,
            )),
        forall|file: VisitedFile| #[trigger]
            placed(files, threshold, false).contains(file) == (files.contains(file) && !earns(
                file,
                threshold,
            )),
    decreases files.len(),
{
    if files.len() > 0 {
        let rest = files.drop_last();
        a_visited_file_is_reported_once(rest, threshold);
        counting::holds_one_more(files, rest.len() as int);
        assert(files.take(rest.len() as int) =~= rest);
        counting::take_all(files);
        assert forall|place: bool, file: VisitedFile| #[trigger]
            placed(files, threshold, place).contains(file) == (files.contains(file) && earns(
                file,
                threshold,
            ) == place) by {
            let before = placed(rest, threshold, place);
            assert(before.contains(file) == (rest.contains(file) && earns(file, threshold)
                == place));
            if earns(files.last(), threshold) == place {
                let all = before.push(files.last());
                assert(all.take(before.len() as int) =~= before);
                counting::holds_one_more(all, before.len() as int);
                counting::take_all(all);
            }
        }
    }
}

/// Each list is in the order of the walk: where a walk hands over its files most relevant first, or
/// in any other order, the results and the files walked through are in that order too.
pub proof fn the_lists_keep_the_order_of_the_walk(
    files: Seq<VisitedFile>,
    threshold: u64,
    place: bool,
    before: spec_fn(VisitedFile, VisitedFile) -> bool,
)
    requires
        forall|i: int, j: int|
            0 <= i < j < files.len() ==> !before(#[trigger] files[j], #[trigger] files[i]),
    ensures
        forall|i: int, j: int|
            0 <= i < j < placed(files, threshold, place).len() ==> !before(
                #[trigger] placed(files, threshold, place)[j],
                #[trigger] placed(files, threshold, place)[i],
            ),
    decreases files.len(),
{
    if files.len() > 0 {
        let rest = files.drop_last();
        the_lists_keep_the_order_of_the_walk(rest, threshold, place, before);
        a_visited_file_is_reported_once(rest, threshold);
        let list = placed(rest, threshold, place);
        assert forall|i: int| 0 <= i < list.len() implies !before(files.last(), #[trigger] list[i]) by {
            assert(list.contains(list[i]));
            assert(rest.contains(list[i]));
            let k = choose|k: int| 0 <= k < rest.len() && rest[k] == list[i];
            assert(files[k] == list[i]);
        }
    }
}

fn part_the_walk(root: &str, threshold: u64, files: Vec<VisitedFile>) -> (lists: (
    Vec<RankedFile>,
    Vec<WalkedFile>,
))
    ensures
        parts_the_walk(root@, threshold, files@, lists.0@, lists.1@),
{
    let ghost all = files@;
    let mut rest: Vec<VisitedFile> = files;
    let mut results: Vec<RankedFile> = Vec::new();
    let mut walked: Vec<WalkedFile> = Vec::new();
    let ghost mut done: int = 0;
    assert(all.skip(0) =~= all);
    while rest.len() > 0
        invariant
            0 <= done <= all.len(),
            rest@ == all.skip(done),
            parts_the_walk(root@, threshold, all.take(done), results@, walked@),
        decreases rest.len(),
    {
        let file: VisitedFile = rest.remove(0);
        let ghost before = all.take(done);
        proof {
            counting::one_more(all, done);
            assert(file == all[done]);
            assert(rest@ =~= all.skip(done + 1));
            done = done + 1;
        }
        let ghost (were_results, were_walked) = (results@, walked@);
        let earns: bool = file.earns_a_place(threshold);
        let path: String = display(root, file.path.as_str());
        let via: Vec<String> = display_all(root, &file.via);
        let links: Vec<RankedLink> = display_links(root, &file.links);
        if earns {
            results.push(
                RankedFile {
                    path,
                    relevance: file.relevance,
                    scent: file.scent,
                    via,
                    sections: ranked_sections(file.sections, threshold),
                    links,
                },
            );
            assert(placed(all.take(done), threshold, true) == placed(
                before,
                threshold,
                true,
            ).push(all[done - 1]));
            assert(placed(all.take(done), threshold, false) == placed(before, threshold, false));
            assert forall|i: int| 0 <= i < results.len() implies is_result(
                root@,
                threshold,
                placed(all.take(done), threshold, true)[i],
                #[trigger] results@[i],
            ) by {
                if i < were_results.len() {
                    assert(results@[i] == were_results[i]);
                }
            }
        } else {
            walked.push(
                WalkedFile { path, relevance: file.relevance, scent: file.scent, via, links },
            );
            assert(placed(all.take(done), threshold, false) == placed(
                before,
                threshold,
                false,
            ).push(all[done - 1]));
            assert(placed(all.take(done), threshold, true) == placed(before, threshold, true));
            assert forall|i: int| 0 <= i < walked.len() implies is_walked(
                root@,
                placed(all.take(done), threshold, false)[i],
                #[trigger] walked@[i],
            ) by {
                if i < were_walked.len() {
                    assert(walked@[i] == were_walked[i]);
                }
            }
        }
    }
    assert(all.take(done) =~= all);
    (results, walked)
}

/// What is said of the pages that could not be read, in order.
pub open spec fn unread(root: Seq<char>, failed: Seq<FailedFile>) -> Seq<Seq<char>>
    decreases failed.len(),
{
    if failed.len() == 0 {
        Seq::empty()
    } else {
        match failed.last().failure {
            Failure::Parse(why) => unread(root, failed.drop_last()).push(
                skip_line(root, failed.last().path@, why@),
            ),
            Failure::Score(_) => unread(root, failed.drop_last()),
        }
    }
}

pub const COULD_NOT: &'static str = "could not be judged: ";

/// What is said of the pages that could not be judged, in order.
pub open spec fn unjudged(root: Seq<char>, failed: Seq<FailedFile>) -> Seq<Seq<char>>
    decreases failed.len(),
{
    if failed.len() == 0 {
        Seq::empty()
    } else {
        match failed.last().failure {
            Failure::Score(why) => unjudged(root, failed.drop_last()).push(
                skip_line(root, failed.last().path@, COULD_NOT@ + why@),
            ),
            Failure::Parse(_) => unjudged(root, failed.drop_last()),
        }
    }
}

/// Whether a failure is the first of those that could not be judged.
pub open spec fn is_first_unjudged(failed: Seq<FailedFile>, at: int) -> bool {
    &&& 0 <= at < failed.len()
    &&& failed[at].failure is Score
    &&& forall|k: int| 0 <= k < at ==> (#[trigger] failed[k]).failure is Parse
}

fn count_lines(root: &str, failed: &Vec<FailedFile>, judged: bool) -> (lines: Vec<String>)
    ensures
        text::texts(lines@) == if judged {
            unjudged(root@, failed@)
        } else {
            unread(root@, failed@)
        },
{
    let mut lines: Vec<String> = Vec::new();
    assert(text::texts(lines@) =~= Seq::<Seq<char>>::empty());
    for i in 0..failed.len()
        invariant
            text::texts(lines@) == if judged {
                unjudged(root@, failed@.take(i as int))
            } else {
                unread(root@, failed@.take(i as int))
            },
    {
        proof {
            counting::one_more(failed@, i as int);
        }
        let ghost was = text::texts(lines@);
        let path: &str = failed[i].path.as_str();
        match &failed[i].failure {
            Failure::Parse(why) => if !judged {
                let line: String = skipped(root, path, why.as_str());
                let ghost said = line@;
                lines.push(line);
                assert(text::texts(lines@) =~= was.push(said));
            },
            Failure::Score(why) => if judged {
                let mut reason: String = COULD_NOT.to_owned();
                reason.append(why.as_str());
                let line: String = skipped(root, path, reason.as_str());
                let ghost said = line@;
                lines.push(line);
                assert(text::texts(lines@) =~= was.push(said));
            },
        }
    }
    proof {
        counting::take_all(failed@);
    }
    lines
}

/// What a walk comes to: the lines to tell of the pages it dropped, and the reading list.
pub struct Outcome {
    pub skipped: Vec<String>,
    pub list: Result<ReadingList, Error>,
}

/// Whether a reading list is what a walk came to.
pub open spec fn is_reading_list(
    options: Options,
    root: Seq<char>,
    judged: Seq<VisitedFile>,
    calls: u64,
    list: ReadingList,
) -> bool {
    &&& list.query@ == options.query@
    &&& list.mode@ == options.mode@
    &&& list.scorer@ == options.scorer@
    &&& list.visited == judged.len()
    &&& list.calls == calls
    &&& parts_the_walk(root, options.threshold, judged, list.results@, list.walked@)
}

/// What a walk comes to. One page that cannot be read or judged is a hole in the ranking, not the
/// end of the walk: it is told, and the reading list is what was judged. A run that judged nothing
/// at all is the exception: it has no list to print, so the failure is the run's error.
pub fn run(
    options: &Options,
    root: &str,
    judged: Vec<VisitedFile>,
    failed: &Vec<FailedFile>,
    calls: u64,
) -> (outcome: Outcome)
    ensures
        match outcome.list {
            Ok(list) => {
                &&& judged.len() > 0 || unjudged(root@, failed@).len() == 0
                &&& is_reading_list(*options, root@, judged@, calls, list)
                &&& text::texts(outcome.skipped@) == unread(root@, failed@) + unjudged(
                    root@,
                    failed@,
                )
            },
            Err(error) => {
                &&& judged.len() == 0
                &&& error is Judge
                &&& exists|at: int|
                    #[trigger] is_first_unjudged(failed@, at) && error->Judge_path@ == displayed(
                        root@,
                        failed@[at].path@,
                    ) && error->source == failed@[at].failure->Score_0
                &&& text::texts(outcome.skipped@) == unread(root@, failed@)
            },
        },
{
    let mut skipped: Vec<String> = count_lines(root, failed, false);
    if judged.len() == 0 {
        for i in 0..failed.len()
            invariant
                forall|k: int| 0 <= k < i ==> (#[trigger] failed@[k]).failure is Parse,
                unjudged(root@, failed@.take(i as int)).len() == 0,
                text::texts(skipped@) == unread(root@, failed@),
                judged.len() == 0,
        {
            proof {
                counting::one_more(failed@, i as int);
            }
            match &failed[i].failure {
                Failure::Score(why) => {
                    let path: String = display(root, failed[i].path.as_str());
                    let source: String = why.clone();
                    assert(is_first_unjudged(failed@, i as int));
                    return Outcome { skipped, list: Err(Error::Judge { path, source }) };
                },
                Failure::Parse(_) => {},
            }
        }
        proof {
            counting::take_all(failed@);
        }
    }
    let mut more: Vec<String> = count_lines(root, failed, true);
    let ghost (first, second) = (text::texts(skipped@), text::texts(more@));
    skipped.append(&mut more);
    assert(text::texts(skipped@) =~= first + second);
    let visited: usize = judged.len();
    let (results, walked) = part_the_walk(root, options.threshold, judged);
    Outcome {
        skipped,
        list: Ok(
            ReadingList {
                query: options.query.clone(),
                mode: options.mode.clone(),
                scorer: options.scorer.clone(),
                visited,
                calls,
                results,
                walked,
            },
        ),
    }
}

/// The model side of a run: what its answers cost.
pub trait Judge {
    /// Answers bought so far.
    spec fn bought(&self) -> u64;

    /// What the reading list reports as calls.
    fn calls(&self) -> (n: u64)
        ensures
            n == self.bought(),
    ;
}

impl Judge for CachedScorer {
    open spec fn bought(&self) -> u64 {
        self.misses()
    }

    fn calls(&self) -> (n: u64) {
        CachedScorer::calls(self)
    }
}

/// A scorer with no cache in front of it: every judgment is bought, so counting the answers that
/// come back is the same count that the cache keeps.
pub struct Uncached<S, T> {
    inner: S,
    calls: u64,
    trace: Option<T>,
}

impl<S, T> Uncached<S, T> {
    pub closed spec fn scorer(self) -> S {
        self.inner
    }

    pub closed spec fn answers(self) -> u64 {
        self.calls
    }

    pub closed spec fn traced(self) -> Option<T> {
        self.trace
    }

    /// Wraps a scorer, counting the answers it returns.
    pub fn new(inner: S) -> (judge: Self)
        ensures
            judge.scorer() == inner,
            judge.answers() == 0,
            judge.traced() is None,
    {
        Uncached { inner, calls: 0, trace: None }
    }

    /// Reports this run's requests and answers to a trace, when there is one.
    pub fn with_trace(self, trace: Option<T>) -> (judge: Self)
        ensures
            judge.scorer() == self.scorer(),
            judge.answers() == self.answers(),
            judge.traced() == trace,
    {
        Uncached { inner: self.inner, calls: self.calls, trace }
    }

    /// The scorer that is asked.
    pub fn inner(&self) -> (inner: &S)
        ensures
            *inner == self.scorer(),
    {
        &self.inner
    }

    pub fn trace(&self) -> (trace: &Option<T>)
        ensures
            *trace == self.traced(),
    {
        &self.trace
    }

    /// Counts an answer that came back.
    pub fn answered(&mut self)
        ensures
            final(self).scorer() == old(self).scorer(),
            final(self).traced() == old(self).traced(),
            final(self).answers() == old(self).answers().wrapping_add(1),
    {
        self.calls = self.calls.wrapping_add(1);
    }
}

impl<S, T> Judge for Uncached<S, T> {
    open spec fn bought(&self) -> u64 {
        self.answers()
    }

    fn calls(&self) -> (n: u64) {
        self.calls
    }
}

} // verus!
