use s1m::cli::{
    check_entry, display, next_entry, ranked_sections, relative_to_root, run, skipped, start,
    Admission, Error, FailedFile, Failure, Judge, Options, Outcome, RankedLink, RankedSection,
    ReadingList, Reason, Step, Uncached, VisitedFile,
};
use s1m::s1mignore::{Ignore, Source};

const ROOT: &str = "tests/fixtures/cli";
const ENTRY: &str = "tests/fixtures/cli/entry.md";
const BROKEN: &str = "tests/fixtures/cli/broken.md";
const HUB: &str = "tests/fixtures/cli/hub.md";
const NESTED: &str = "tests/fixtures/cli/nested.md";
const PREAMBLE: &str = "tests/fixtures/cli/preamble.md";

/// A page of the fixture: its sections and its links.
struct Page {
    name: &'static str,
    sections: Vec<(Option<&'static str>, usize, usize)>,
    links: Vec<&'static str>,
}

fn pages() -> Vec<Page> {
    vec![
        Page { name: "entry.md", sections: vec![(Some("Entry"), 1, 4)], links: vec!["next.md"] },
        Page { name: "next.md", sections: vec![(Some("Next"), 1, 3)], links: vec!["deep.md"] },
        Page { name: "deep.md", sections: vec![(Some("Deep"), 1, 3)], links: vec![] },
        Page {
            name: "broken.md",
            sections: vec![(Some("Broken"), 1, 5)],
            links: vec!["gone.md", "next.md"],
        },
        Page {
            name: "hub.md",
            sections: vec![(Some("Hub"), 1, 4)],
            links: vec!["deep.md", "preamble.md"],
        },
        Page {
            name: "preamble.md",
            sections: vec![(None, 1, 3), (Some("Preamble"), 4, 6)],
            links: vec![],
        },
        Page {
            name: "nested.md",
            sections: vec![
                (Some("Nested"), 1, 15),
                (Some("First"), 5, 12),
                (Some("Deeper"), 9, 12),
                (Some("Second"), 13, 15),
            ],
            links: vec![],
        },
    ]
}

/// A scorer with an answer the test sets: the relevance of a file, one scent for all of its links,
/// and one score per section.
struct Fake {
    relevance: fn(&str) -> f64,
    section: fn(Option<&str>, usize) -> f64,
    scent: f64,
    refuse: Option<&'static str>,
    keep: bool,
    buys: bool,
}

fn flat(_: Option<&str>, _: usize) -> f64 {
    0.9
}

impl Fake {
    fn uncached(relevance: fn(&str) -> f64, scent: f64) -> Fake {
        Fake { relevance, section: flat, scent, refuse: None, keep: true, buys: true }
    }

    fn cached(relevance: fn(&str) -> f64, scent: f64) -> Fake {
        Fake { buys: false, ..Fake::uncached(relevance, scent) }
    }

    fn refusing(relevance: fn(&str) -> f64, scent: f64, name: &'static str) -> Fake {
        Fake { refuse: Some(name), ..Fake::uncached(relevance, scent) }
    }
}

/// The entry file is the least relevant page, so a reading list in walk order is visible.
fn by_relevance(name: &str) -> f64 {
    match name {
        "entry.md" | "broken.md" => 0.3,
        _ => 0.9,
    }
}

fn options(entry: &str) -> Options {
    Options {
        query: "how do I cut a release".to_string(),
        entries: vec![entry.to_string()],
        root: None,
        max_files: 25,
        max_depth: 6,
        threshold: 0.6f64.to_bits(),
        admission: Admission::Threshold(0.6f64.to_bits()),
        beam: None,
        fanout: 8,
        mode: "useful-for".to_string(),
        scorer: "noul".to_string(),
    }
}

/// The whole of a run: the start, the walk over the fixture, and what it comes to.
fn run_whole(options: &Options, fake: &Fake) -> Outcome {
    let root = match start(options) {
        Ok(root) => root,
        Err(error) => return Outcome { skipped: Vec::new(), list: Err(error) },
    };
    let pages = pages();
    let mut judge: Uncached<(), ()> = Uncached::new(());
    let mut judged: Vec<VisitedFile> = Vec::new();
    let mut failed: Vec<FailedFile> = Vec::new();
    let mut reached: Vec<String> = Vec::new();
    let mut frontier: Vec<(String, Option<f64>, Vec<String>)> = Vec::new();
    for entry in &options.entries {
        let name = entry.rsplit('/').next().unwrap_or("").to_string();
        if !pages.iter().any(|page| page.name == name) {
            let message = format!("{entry}: no such file");
            return Outcome { skipped: Vec::new(), list: Err(Error::Entry(message)) };
        }
        reached.push(name.clone());
        frontier.push((name, None, Vec::new()));
    }
    while !frontier.is_empty() {
        let (name, scent, via) = frontier.remove(0);
        let Some(page) = pages.iter().find(|page| page.name == name) else {
            failed.push(FailedFile { path: name, failure: Failure::Parse("not there".to_string()) });
            continue;
        };
        if fake.refuse == Some(page.name) {
            failed.push(FailedFile {
                path: name,
                failure: Failure::Score("the API answered 500".to_string()),
            });
            continue;
        }
        if fake.buys {
            judge.answered();
        }
        let mut links = Vec::new();
        for target in &page.links {
            let admitted = match options.admission {
                Admission::Threshold(bits) => fake.scent >= f64::from_bits(bits),
                Admission::Scorer => fake.keep,
            };
            let fresh = !reached.iter().any(|path| path == target);
            if admitted && fresh {
                reached.push(target.to_string());
                let mut path = via.clone();
                path.push(page.name.to_string());
                frontier.push((target.to_string(), Some(fake.scent), path));
            }
            links.push(RankedLink {
                target: target.to_string(),
                scent: Some(fake.scent.to_bits()),
                followed: admitted && fresh,
                reason: match (admitted, fresh) {
                    (true, true) => None,
                    (true, false) => Some(Reason::AlreadyReached),
                    (false, _) => Some(Reason::BelowThreshold),
                },
            });
        }
        judged.push(VisitedFile {
            path: page.name.to_string(),
            relevance: (fake.relevance)(page.name).to_bits(),
            scent: scent.map(f64::to_bits),
            via,
            sections: page
                .sections
                .iter()
                .map(|(heading, first, last)| RankedSection {
                    heading: heading.map(str::to_string),
                    first: *first,
                    last: *last,
                    score: (fake.section)(*heading, *first).to_bits(),
                })
                .collect(),
            links,
        });
    }
    judged.sort_by(|a, b| {
        f64::from_bits(b.relevance)
            .total_cmp(&f64::from_bits(a.relevance))
            .then_with(|| a.path.cmp(&b.path))
    });
    run(options, &root, judged, &failed, judge.calls())
}

fn list_of(options: &Options, fake: &Fake) -> ReadingList {
    match run_whole(options, fake).list {
        Ok(list) => list,
        Err(error) => panic!("the fixture walks: {}", error.message()),
    }
}

fn run_with(entry: &str, fake: &Fake) -> ReadingList {
    list_of(&options(entry), fake)
}

fn paths(list: &ReadingList) -> Vec<&str> {
    list.results.iter().map(|file| file.path.as_str()).collect()
}

fn walked(list: &ReadingList) -> Vec<&str> {
    list.walked.iter().map(|file| file.path.as_str()).collect()
}

fn sections(list: &ReadingList, at: usize) -> Vec<(Option<&str>, [usize; 2], f64)> {
    list.results[at]
        .sections
        .iter()
        .map(|section| {
            (
                section.heading.as_deref(),
                [section.first, section.last],
                f64::from_bits(section.score),
            )
        })
        .collect()
}

fn links(links: &[RankedLink]) -> Vec<(&str, Option<f64>, bool)> {
    links
        .iter()
        .map(|link| (link.target.as_str(), link.scent.map(f64::from_bits), link.followed))
        .collect()
}

#[test]
fn a_run_following_the_scorers_verdict_says_which_judge_it_was() {
    let mut options = options(ENTRY);
    options.admission = Admission::Scorer;
    options.beam = Some(8);
    options.scorer = "choice".to_string();

    let list = list_of(&options, &Fake { keep: false, ..Fake::uncached(by_relevance, 0.9) });

    assert_eq!(list.scorer, "choice");
    assert_eq!(
        list.visited, 1,
        "the entry alone: the only link out of it was judged and not kept"
    );
    assert!(
        !list.results[0].links[0].followed,
        "a link at 0.9 is not followed when the scorer did not keep it"
    );
    assert_eq!(list.exit_code(), 1, "and it is a list the caller could write");
}

#[test]
fn the_reading_list_is_the_plan_shape_ranked_and_spelled_the_callers_way() {
    let list = run_with(ENTRY, &Fake::uncached(by_relevance, 0.9));

    assert_eq!(list.query, "how do I cut a release");
    assert_eq!(list.mode, "useful-for");
    assert_eq!(list.scorer, "noul");
    assert_eq!(list.visited, 3);
    assert_eq!(list.calls, 3);
    assert_eq!(list.results.len(), 3);

    let deep = &list.results[0];
    assert_eq!(deep.path, "tests/fixtures/cli/deep.md");
    assert_eq!(f64::from_bits(deep.relevance), 0.9);
    assert_eq!(deep.scent.map(f64::from_bits), Some(0.9));
    assert_eq!(
        deep.via,
        ["tests/fixtures/cli/entry.md", "tests/fixtures/cli/next.md"]
    );
    assert_eq!(sections(&list, 0), [(Some("Deep"), [1, 3], 0.9)]);
    assert!(deep.links.is_empty());

    let next = &list.results[1];
    assert_eq!(next.path, "tests/fixtures/cli/next.md");
    assert_eq!(f64::from_bits(next.relevance), 0.9);
    assert_eq!(next.scent.map(f64::from_bits), Some(0.9));
    assert_eq!(next.via, ["tests/fixtures/cli/entry.md"]);
    assert_eq!(sections(&list, 1), [(Some("Next"), [1, 3], 0.9)]);
    assert_eq!(
        links(&next.links),
        [("tests/fixtures/cli/deep.md", Some(0.9), true)]
    );

    let entry = &list.results[2];
    assert_eq!(entry.path, "tests/fixtures/cli/entry.md");
    assert_eq!(f64::from_bits(entry.relevance), 0.3);
    assert_eq!(entry.scent, None);
    assert!(entry.via.is_empty());
    assert_eq!(sections(&list, 2), [(Some("Entry"), [1, 4], 0.9)]);
    assert_eq!(
        links(&entry.links),
        [("tests/fixtures/cli/next.md", Some(0.9), true)]
    );

    assert!(list.walked.is_empty());
    assert_eq!(list.exit_code(), 0);
}

#[test]
fn a_file_earns_a_place_on_its_relevance_or_a_section_of_it() {
    fn relevance(name: &str) -> f64 {
        match name {
            "hub.md" => 0.2,
            "deep.md" => 0.8,
            _ => 0.3,
        }
    }
    fn section(heading: Option<&str>, _: usize) -> f64 {
        match heading {
            Some("Preamble") => 0.9,
            _ => 0.1,
        }
    }

    let list = run_with(HUB, &Fake { section, ..Fake::uncached(relevance, 0.9) });

    assert_eq!(list.visited, 3, "the walk visits the hub and both leaves");
    assert_eq!(
        paths(&list),
        ["tests/fixtures/cli/deep.md", "tests/fixtures/cli/preamble.md"],
        "0.8 on its own relevance, and 0.3 with one section at 0.9"
    );
    assert_eq!(
        walked(&list),
        [HUB],
        "a hub below the cutoff, with no section above it, is not something to read"
    );
    assert_eq!(list.exit_code(), 0, "the walk reached pages beyond the entry");

    let hub = &list.walked[0];
    assert_eq!(f64::from_bits(hub.relevance), 0.2);
    assert_eq!(hub.scent, None);
    assert!(hub.via.is_empty());
    assert_eq!(
        links(&hub.links),
        [
            ("tests/fixtures/cli/deep.md", Some(0.9), true),
            ("tests/fixtures/cli/preamble.md", Some(0.9), true),
        ]
    );
}

#[test]
fn sections_are_the_parsers_ranges_ranked_by_score() {
    fn by_first_line(_: Option<&str>, first: usize) -> f64 {
        first as f64 / 15.0
    }

    let list = run_with(
        NESTED,
        &Fake { section: by_first_line, ..Fake::uncached(by_relevance, 0.9) },
    );

    assert_eq!(list.results.len(), 1);
    assert_eq!(
        sections(&list, 0),
        [
            (Some("Second"), [13, 15], 13.0 / 15.0),
            (Some("Deeper"), [9, 12], 9.0 / 15.0),
        ],
        "most useful first, the parser's ranges, and nothing below the threshold"
    );
}

#[test]
fn the_preamble_is_reported_as_a_section_with_no_heading() {
    let list = run_with(PREAMBLE, &Fake::uncached(by_relevance, 0.9));

    assert_eq!(
        sections(&list, 0),
        [(None, [1, 3], 0.9), (Some("Preamble"), [4, 6], 0.9)],
        "the preamble and the heading, in the file's order on a tie"
    );
    assert_eq!(list.results[0].sections[0].heading, None);
}

#[test]
fn nothing_above_the_threshold_exits_1_with_the_entry_files() {
    let list = run_with(ENTRY, &Fake::uncached(by_relevance, 0.59));

    assert_eq!(list.exit_code(), 1);
    assert_eq!(list.visited, 1);
    assert_eq!(list.results.len(), 1);
    assert_eq!(list.results[0].path, ENTRY);
    assert_eq!(list.results[0].scent, None);
    assert_eq!(
        links(&list.results[0].links),
        [("tests/fixtures/cli/next.md", Some(0.59), false)]
    );
}

#[test]
fn calls_are_the_judges_count_not_the_files_visited() {
    let list = run_with(ENTRY, &Fake::cached(by_relevance, 0.9));

    assert_eq!(list.visited, 3);
    assert_eq!(list.calls, 0);
}

#[test]
fn a_reached_file_that_is_not_there_is_skipped_not_fatal() {
    let outcome = run_whole(&options(BROKEN), &Fake::uncached(by_relevance, 0.9));

    let list = match outcome.list {
        Ok(list) => list,
        Err(error) => panic!("a broken link does not end the walk: {}", error.message()),
    };
    assert_eq!(
        paths(&list),
        [
            "tests/fixtures/cli/deep.md",
            "tests/fixtures/cli/next.md",
            "tests/fixtures/cli/broken.md",
        ]
    );
    assert_eq!(
        outcome.skipped,
        ["s1m: skipped tests/fixtures/cli/gone.md: not there"]
    );
}

#[test]
fn an_entry_file_that_is_not_there_is_an_error() {
    let outcome = run_whole(
        &options("tests/fixtures/cli/gone.md"),
        &Fake::uncached(by_relevance, 0.9),
    );

    match outcome.list {
        Ok(_) => panic!("nothing to walk from"),
        Err(error) => {
            assert!(matches!(error, Error::Entry(_)), "{}", error.message());
            assert!(error.message().contains("gone.md"), "{}", error.message());
        }
    }
}

#[test]
fn a_failed_judgment_drops_its_page_and_the_walk_carries_on() {
    let list = run_with(ENTRY, &Fake::refusing(by_relevance, 0.9, "next.md"));

    assert_eq!(list.exit_code(), 1);
    assert_eq!(list.visited, 1);
    assert_eq!(list.results[0].path, ENTRY);
    assert_eq!(
        paths(&list),
        [ENTRY],
        "the page that failed is not in the list, and nothing reached past it"
    );
    assert_eq!(
        links(&list.results[0].links),
        [("tests/fixtures/cli/next.md", Some(0.9), true)],
        "the entry file's own judgment is untouched by the page it points at"
    );
}

#[test]
fn a_failed_judgment_on_a_reached_page_leaves_the_rest_of_the_walk() {
    let list = run_with(BROKEN, &Fake::refusing(by_relevance, 0.9, "deep.md"));

    assert_eq!(list.exit_code(), 0, "the walk reached beyond the entry");
    assert_eq!(
        paths(&list),
        ["tests/fixtures/cli/next.md", BROKEN],
        "every page that was judged is in the list"
    );
    assert_eq!(
        list.results[0].via,
        [BROKEN],
        "and the page that failed is not in the path that reached it"
    );
}

#[test]
fn an_entry_file_that_cannot_be_judged_with_nothing_else_is_an_error() {
    let outcome = run_whole(&options(ENTRY), &Fake::refusing(by_relevance, 0.9, "entry.md"));

    match outcome.list {
        Err(Error::Judge { path, source }) => {
            assert_eq!(path, "tests/fixtures/cli/entry.md");
            assert_eq!(source, "the API answered 500");
        }
        Err(other) => panic!("expected a failed judgment, got {}", other.message()),
        Ok(_) => panic!("there is no reading list"),
    }
    assert!(outcome.skipped.is_empty());
}

#[test]
fn a_run_without_a_query_or_an_entry_file_is_an_error() {
    let fake = Fake::uncached(by_relevance, 0.9);

    let mut no_entries = options(ENTRY);
    no_entries.entries.clear();
    assert!(matches!(
        run_whole(&no_entries, &fake).list,
        Err(Error::MissingArguments)
    ));

    let mut root_only = options(ENTRY);
    root_only.entries.clear();
    root_only.root = Some(ROOT.to_string());
    assert_eq!(root_only.root(), None, "a root without entries is no root");
    assert!(matches!(
        run_whole(&root_only, &fake).list,
        Err(Error::MissingArguments)
    ));

    let mut no_query = options(ENTRY);
    no_query.query = "   ".to_string();
    assert!(matches!(
        run_whole(&no_query, &fake).list,
        Err(Error::MissingArguments)
    ));
    assert_eq!(
        Error::MissingArguments.message(),
        "a query and at least one entry file are required; see --help"
    );
}

#[test]
fn paths_are_spelled_against_the_root() {
    let mut options = options("tests/fixtures/cli/entry.md");
    options.root = Some(ROOT.to_string());

    let list = list_of(&options, &Fake::uncached(by_relevance, 0.9));

    assert_eq!(
        paths(&list),
        [
            "tests/fixtures/cli/deep.md",
            "tests/fixtures/cli/next.md",
            "tests/fixtures/cli/entry.md",
        ]
    );
    assert_eq!(display(".", "a/b.md"), "a/b.md");
    assert_eq!(display("wiki", "a/b.md"), "wiki/a/b.md");
}

#[test]
fn an_entry_file_the_rules_cover_is_refused() {
    let ignore = match Ignore::at("wiki", Source::Content("private/\n".to_string())) {
        Ok(ignore) => ignore,
        Err(error) => panic!("the rules parse: {}", error.message),
    };

    assert!(check_entry("wiki", &ignore, "wiki/notes.md", "notes.md").is_ok());
    match check_entry("wiki", &ignore, "wiki/private/a.md", "private/a.md") {
        Ok(_) => panic!("the entry is ignored"),
        Err(error) => assert_eq!(
            error.message(),
            "wiki/private/a.md is matched by wiki/.s1mignore: s1m never reads an ignored file"
        ),
    }
}

/// What is said of the first entry file that cannot be walked from, and which files were read
/// before it.
fn refused(
    root: &str,
    ignore: &Ignore,
    entries: &[&str],
    parses: fn(&str) -> Result<(), String>,
) -> (Option<String>, Vec<String>) {
    let entries: Vec<String> = entries.iter().map(|entry| entry.to_string()).collect();
    let mut tried = Vec::new();
    let mut read = Vec::new();
    loop {
        match next_entry(root, ignore, &entries, &tried) {
            Step::Parse(at) => {
                assert_eq!(at, tried.len());
                let relative = relative_to_root(root, &entries[at]);
                tried.push(parses(&relative));
                read.push(relative);
            }
            Step::Refuse(error) => return (Some(error.message()), read),
            Step::Walk => return (None, read),
        }
    }
}

/// The first entry file that a rule covers or that does not parse ends the run, before the walk
/// spends anything, and nothing after it is read.
#[test]
fn the_first_entry_that_cannot_be_walked_from_decides() {
    let ignore = match Ignore::at("wiki", Source::Content("private/\n".to_string())) {
        Ok(ignore) => ignore,
        Err(error) => panic!("the rules parse: {}", error.message),
    };
    let parses = |path: &str| match path {
        "gone.md" => Err("wiki/gone.md: no such file".to_string()),
        _ => Ok(()),
    };

    let (error, read) = refused("wiki", &ignore, &["wiki/a.md", "b.md"], parses);
    assert_eq!(error, None);
    assert_eq!(read, ["a.md", "b.md"]);

    let entries = ["wiki/a.md", "wiki/gone.md", "wiki/private/b.md", "wiki/c.md"];
    let (error, read) = refused("wiki", &ignore, &entries, parses);
    assert_eq!(error.as_deref(), Some("wiki/gone.md: no such file"));
    assert_eq!(read, ["a.md", "gone.md"]);

    let entries = ["wiki/a.md", "wiki/private/b.md", "wiki/gone.md"];
    let (error, read) = refused("wiki", &ignore, &entries, parses);
    assert_eq!(
        error.as_deref(),
        Some("wiki/private/b.md is matched by wiki/.s1mignore: s1m never reads an ignored file")
    );
    assert_eq!(read, ["a.md"]);

    let (error, read) = refused("wiki", &ignore, &[], parses);
    assert_eq!(error, None);
    assert!(read.is_empty());
}

#[test]
fn a_line_about_a_page_is_one_line() {
    assert_eq!(
        skipped("wiki", "a.md", "one\ntwo\r\nthree"),
        "s1m: skipped wiki/a.md: one two  three"
    );
}

#[test]
fn sections_below_the_cut_are_left_out_and_ties_keep_their_order() {
    let section = |first: usize, score: f64| RankedSection {
        heading: None,
        first,
        last: first,
        score: score.to_bits(),
    };
    let list = ranked_sections(
        vec![section(1, 0.7), section(2, 0.5), section(3, 0.9), section(4, 0.7)],
        0.6f64.to_bits(),
    );
    assert_eq!(list.iter().map(|s| s.first).collect::<Vec<_>>(), [3, 1, 4]);
}

#[test]
fn every_visited_file_is_reported_once() {
    let list = run_with(HUB, &Fake::uncached(|_| 0.1, 0.9));
    assert_eq!(list.results.len() + list.walked.len(), list.visited);

    let low = Fake { section: |_, _| 0.1, ..Fake::uncached(|_| 0.1, 0.9) };
    let list = run_with(HUB, &low);
    assert_eq!(list.results.len(), 0);
    assert_eq!(list.walked.len(), 3);
}

#[test]
fn an_uncached_judge_counts_what_it_answers() {
    let mut judge: Uncached<u8, &str> = Uncached::new(7).with_trace(Some("trace"));
    assert_eq!(judge.calls(), 0);
    judge.answered();
    judge.answered();
    assert_eq!(judge.calls(), 2);
    assert_eq!(*judge.inner(), 7);
    assert_eq!(*judge.trace(), Some("trace"));
}
