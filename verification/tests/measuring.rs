use s1m::cli::{FailedFile, Failure, RankedLink, RankedSection, VisitedFile};
use s1m::doc::{Arg, Args, Doc, Figure, Form, Num};
use s1m::eval::corpus::{tokens, Corpus, Heading, Page};
use s1m::eval::experiments::SHIPS;
use s1m::eval::figures::{
    bin_label, bin_of, decide, delta_of, difference, millis_of, share_of, times_of, Link, BINS,
};
use s1m::eval::findings::{gather, Findings, Row, Scents, Tables};
use s1m::eval::keywords::{keyword_hits, occurrences_in, terms, Candidate};
use s1m::eval::labels::{mode_named, Expected, Gold, Mode, Query, Wanted};
use s1m::eval::measure::{
    add_runs, check_asked, paid, sorted_budgets, Asked, Cache, Stage, CONTEXTS, PREVIEWS,
};
use s1m::eval::runs::{covers, grep, run_of, score, Detail, Judged, Run, Score, Spent, Visit};
use s1m::run::price_of;
use s1m::s1mignore::{Ignore, Source};

/// What a number comes to.
fn value(num: &Num) -> f64 {
    match num {
        Num::Whole(n) => *n as f64,
        Num::Long(n) => *n as f64,
        Num::Double(bits) => f64::from_bits(*bits),
        Num::Plus(a, b) => value(a) + value(b),
        Num::Minus(a, b) => value(a) - value(b),
        Num::Times(a, b) => value(a) * value(b),
        Num::Over(a, b) => value(a) / value(b),
        Num::Root(a) => value(a).sqrt(),
        Num::Least(a, b) => value(a).min(value(b)),
        Num::Greatest(a, b) => value(a).max(value(b)),
    }
}

/// A figure as it is printed.
fn figure(figure: &Figure) -> String {
    let value = value(&figure.value);
    match figure.form {
        Form::Fixed(places) => format!("{value:.0$}", places as usize),
        Form::Signed(places) => format!("{value:+.0$}", places as usize),
        Form::Plain => format!("{value}"),
        Form::Measure => {
            if value != 0.0 && value.abs() < 0.01 {
                format!("{value:.6}")
            } else if value.abs() < 100.0 {
                format!("{value:.2}")
            } else {
                format!("{}", value.round() as i64)
            }
        }
    }
}

/// A document as it is printed.
fn printed(doc: &Doc) -> String {
    let mut out = String::new();
    for piece in &doc.pieces {
        out.push_str(&piece.text);
        out.push_str(&figure(&piece.figure));
    }
    out.push_str(&doc.tail);
    out
}

/// A wiki in memory: the corpus the reading numbers are counted in.
fn corpus(pages: &[(&str, &str)]) -> Corpus {
    let pages = pages
        .iter()
        .map(|(path, text)| Page {
            path: path.to_string(),
            text: text.to_string(),
            sections: Ok(Vec::new()),
        })
        .collect();
    match Corpus::load("wiki", pages) {
        Ok(corpus) => corpus,
        Err(error) => panic!("a wiki: {error}"),
    }
}

fn visit(path: &str, lines: &[(usize, usize)]) -> Visit {
    Visit {
        path: path.to_string(),
        relevance: Some(0.5f64.to_bits()),
        scent: None,
        lines: lines.to_vec(),
    }
}

fn detail(model: &str, tokens: u64, requests: u64, latency_ms: u64) -> Detail {
    Detail {
        model: model.to_string(),
        requests,
        input_tokens: tokens,
        latency: latency_ms * 1_000_000,
    }
}

fn query(id: &str, expected: &[&str]) -> Query {
    let parts: Vec<(&str, (usize, usize))> =
        expected.iter().map(|page| (*page, (1, usize::MAX))).collect();
    querying(id, &parts)
}

/// A query whose labels name the part of each page that answers.
fn querying(id: &str, parts: &[(&str, (usize, usize))]) -> Query {
    Query {
        id: id.to_string(),
        query: "a query".to_string(),
        mode: "useful-for".to_string(),
        entry: "index.md".to_string(),
        expected: parts
            .iter()
            .map(|(page, lines)| Expected::Part {
                path: page.to_string(),
                heading: None,
                lines: Some(*lines),
            })
            .collect(),
        note: None,
        wanted: parts
            .iter()
            .map(|(page, lines)| Wanted { page: page.to_string(), lines: *lines })
            .collect(),
    }
}

fn scored(corpus: &Corpus, query: &Query, returned: Vec<Visit>, walked: Vec<Visit>) -> Score {
    score(corpus, query, &returned, &walked).expect("a score")
}

#[test]
fn read_tokens_count_each_line_once_however_ranges_overlap() {
    // Four lines of four characters each, newline included, so a token is one line.
    let corpus = corpus(&[("a.md", "aaa\nbbb\nccc\nddd\n")]);
    let page = "a.md";
    let chars = |ranges: &[(usize, usize)]| {
        tokens(corpus.reading(page, &ranges.to_vec()).chars as u128)
    };
    let lines = |ranges: &[(usize, usize)]| corpus.reading(page, &ranges.to_vec()).lines;

    assert_eq!(chars(&[(1, 2)]), 2, "two lines");
    assert_eq!(chars(&[(1, 4), (2, 3)]), 4, "the nested range adds nothing");
    assert_eq!(chars(&[(1, 1), (3, 3)]), 2, "disjoint ranges add up");
    assert_eq!(chars(&[(9, 20)]), 0, "a range past the end reads nothing");
    assert_eq!(tokens(corpus.chars_of(page) as u128), 4, "the whole file");

    assert_eq!(lines(&[(1, 2)]), 2, "two lines");
    assert_eq!(
        lines(&[(1, 4), (2, 3)]),
        4,
        "the nested range is one reading of those lines"
    );
    assert_eq!(lines(&[(1, 1), (3, 3)]), 2, "disjoint ranges add up");
    assert_eq!(lines(&[(9, 20)]), 0, "a range past the end reads nothing");
    assert_eq!(corpus.lines_of(page), 4, "the whole file");
}

#[test]
fn read_tokens_count_characters_not_bytes() {
    let corpus = corpus(&[("a.md", "héllo wörld\n")]);
    assert_eq!(corpus.reading("a.md", &vec![(1, 1)]).chars, 12);
}

/// Recall is what the list found over what was wanted, precision what it found over what it
/// returned, and the read number is the ranges only.
#[test]
fn a_run_scores_against_its_labels() {
    let corpus = corpus(&[
        ("index.md", "index\n"),
        ("wanted.md", "one\ntwo\nthree\nfour\n"),
        ("also.md", "five\n"),
        ("noise.md", "six\n"),
    ]);
    let query = query("q", &["wanted.md", "also.md"]);
    let returned = vec![visit("wanted.md", &[(1, 2)])];
    let walked = vec![visit("noise.md", &[(1, 1)])];

    let score = scored(&corpus, &query, returned, walked);
    assert_eq!(score.gold, 2);
    assert_eq!(score.visited, 2, "both files were judged");
    assert_eq!(score.returned, 1);
    assert_eq!(score.found, 1);
    assert_eq!(score.reached, 1, "the walk reached a wanted page");
    assert_eq!(value(&score.recall()), 0.5);
    assert_eq!(value(&score.precision()), 1.0);
    assert_eq!(value(&score.precision_over_visited()), 0.5);
    assert_eq!(score.missed(), 1, "no walk reached also.md either");
    assert_eq!(
        score.read_tokens, 2,
        "wanted.md's first two lines, not the walked file"
    );
    assert_eq!(
        score.whole_tokens, 5,
        "wanted.md's 19 characters whole, not the walked file's four as well"
    );
}

#[test]
fn section_recall_counts_only_the_parts_the_ranges_cover() {
    let corpus = corpus(&[
        ("index.md", "index\n"),
        ("wanted.md", "one\ntwo\nthree\nfour\n"),
        ("whole.md", "five\nsix\n"),
    ]);
    let query = querying("q", &[("wanted.md", (2, 3)), ("whole.md", (1, 2))]);

    let score = scored(
        &corpus,
        &query,
        vec![visit("wanted.md", &[(1, 1)]), visit("whole.md", &[(1, 2)])],
        Vec::new(),
    );
    assert_eq!(score.found, 2, "both wanted pages are in the list");
    assert_eq!(score.parts_found, 1, "and one of them misses its part");
    assert_eq!(value(&score.recall()), 1.0);
    assert_eq!(value(&score.section_recall()), 0.5);
    assert_eq!(score.read_lines, 3, "one line, then the whole of whole.md");

    let score = scored(
        &corpus,
        &query,
        vec![visit("wanted.md", &[(3, 4)]), visit("whole.md", &[(2, 2)])],
        Vec::new(),
    );
    assert_eq!(score.parts_found, 2, "a range that overlaps is reading it");
    assert_eq!(value(&score.section_recall()), 1.0);

    // The page the list returned with nothing above the section threshold to read: recall counts
    // it, section recall does not.
    let score = scored(
        &corpus,
        &query,
        vec![visit("wanted.md", &[])],
        vec![visit("whole.md", &[(1, 2)])],
    );
    assert_eq!(score.found, 1);
    assert_eq!(score.parts_found, 0);
    assert_eq!(value(&score.section_recall()), 0.0);
    assert_eq!(score.read_lines, 0);
}

fn headed(heading: &str, first: usize, last: usize) -> Heading {
    Heading { heading: Some(heading.to_string()), lines: (first, last) }
}

fn labelled_query(expected: Vec<Expected>) -> Query {
    Query {
        id: "q".to_string(),
        query: "a query".to_string(),
        mode: "answers".to_string(),
        entry: "index.md".to_string(),
        expected,
        note: None,
        wanted: Vec::new(),
    }
}

fn part(path: &str, heading: Option<&str>, lines: Option<(usize, usize)>) -> Expected {
    Expected::Part {
        path: path.to_string(),
        heading: heading.map(str::to_string),
        lines,
    }
}

/// A gold entry may name the part of a page that answers, and the label is read against the wiki.
#[test]
fn a_gold_entry_may_name_the_part_of_the_page_that_answers() {
    let pages = vec![
        Page {
            path: "index.md".to_string(),
            text: "# Index\n".to_string(),
            sections: Ok(vec![headed("Index", 1, 1)]),
        },
        Page {
            path: "named.md".to_string(),
            text: "# Named\ntext\n\n## Section A\none\n\n### Nested\ntwo\n\n## Section B\nthree\n"
                .to_string(),
            sections: Ok(vec![
                headed("Named", 1, 11),
                headed("Section A", 4, 9),
                headed("Nested", 7, 9),
                headed("Section B", 10, 11),
            ]),
        },
        Page {
            path: "lines.md".to_string(),
            text: "one\ntwo\nthree\nfour\nfive\n".to_string(),
            sections: Ok(vec![Heading { heading: None, lines: (1, 5) }]),
        },
        Page {
            path: "twice.md".to_string(),
            text: "# Twice\n\n## Same\none\n\n## Same\ntwo\n".to_string(),
            sections: Ok(vec![headed("Twice", 1, 7), headed("Same", 3, 5), headed("Same", 6, 7)]),
        },
    ];
    let corpus = match Corpus::load("wiki", pages) {
        Ok(corpus) => corpus,
        Err(error) => panic!("a wiki: {error}"),
    };
    let index = || Expected::Page("index.md".to_string());

    let loaded = Gold::load(
        "gold.json",
        vec![labelled_query(vec![
            index(),
            part("named.md", Some("Section A"), None),
            part("lines.md", None, Some((2, 3))),
        ])],
        &corpus,
    );
    let Ok(loaded) = loaded else { panic!("a labelled set") };
    assert_eq!(
        loaded.queries[0]
            .wanted
            .iter()
            .map(|wanted| (wanted.page.as_str(), wanted.lines))
            .collect::<Vec<_>>(),
        [
            ("index.md", (1, 1)),
            // The section's own heading through its last line, which includes the subsection.
            ("named.md", (4, 9)),
            ("lines.md", (2, 3)),
        ],
        "a page named on its own is wanted whole, a heading is the section the parser gives the \
         walk, and lines are as written"
    );
    assert_eq!(
        loaded.queries[0].expected().len(),
        3,
        "every entry is still a page for file-level recall"
    );

    for (label, names, entry) in [
        (
            "a heading the page does not have",
            "q: named.md has no heading named \"Section Z\"",
            part("named.md", Some("Section Z"), None),
        ),
        (
            "a heading two sections share",
            "q: twice.md has two headings named \"Same\"; name lines instead",
            part("twice.md", Some("Same"), None),
        ),
        (
            "lines the page does not have",
            "q: lines.md has 5 lines, so 4–9 is not a range in it",
            part("lines.md", None, Some((4, 9))),
        ),
        (
            "lines that run backwards",
            "q: lines.md has 5 lines, so 3–2 is not a range in it",
            part("lines.md", None, Some((3, 2))),
        ),
        (
            "a heading and lines at once",
            "q: lines.md names a heading and lines; one or the other",
            part("lines.md", Some("Any"), Some((1, 2))),
        ),
        (
            "a part that names neither",
            "q: lines.md names neither a heading nor lines",
            part("lines.md", None, None),
        ),
    ] {
        match Gold::load("gold.json", vec![labelled_query(vec![index(), entry])], &corpus) {
            Ok(_) => panic!("{label}"),
            Err(error) => assert!(error.contains(names), "{label}: {error}"),
        }
    }
}

/// A gold set the wiki cannot answer is the set's mistake, and is named as one.
#[test]
fn a_gold_set_is_checked_against_the_wiki() {
    let corpus = corpus(&[("index.md", "index\n"), ("page.md", "page\n")]);
    let page = |path: &str| vec![Expected::Page(path.to_string())];

    match Gold::load("good.json", vec![labelled_query(page("page.md"))], &corpus) {
        Ok(gold) => assert_eq!(gold.queries.len(), 1),
        Err(error) => panic!("a good set: {error}"),
    }

    for (label, names, queries) in [
        (
            "an entry the wiki does not hold",
            "q: entry gone.md is not a page under wiki",
            vec![Query { entry: "gone.md".to_string(), ..labelled_query(page("page.md")) }],
        ),
        (
            "a page the wiki does not hold",
            "q: expected page gone.md is not under wiki",
            vec![labelled_query(page("gone.md"))],
        ),
        (
            "a mode no one implements",
            "q: no mode named \"vibes\"",
            vec![Query { mode: "vibes".to_string(), ..labelled_query(page("page.md")) }],
        ),
        (
            "no expected pages",
            "q: no expected pages",
            vec![labelled_query(Vec::new())],
        ),
        (
            "two queries under one id",
            "q: two queries share this id",
            vec![labelled_query(page("page.md")), labelled_query(page("page.md"))],
        ),
        ("no queries", "bad.json: no queries", Vec::new()),
    ] {
        match Gold::load("bad.json", queries, &corpus) {
            Ok(_) => panic!("{label}"),
            Err(error) => assert!(error.contains(names), "{label}: {error}"),
        }
    }
}

/// An answer read from the cache was not spent on now, and its tokens still count towards what the
/// configuration cost when it was bought.
#[test]
fn the_accounting_separates_what_was_served_from_what_was_spent() {
    let mut spent = Spent::none();
    assert!(spent.add(&detail("jev-1.13.0", 1_000, 1, 200), true));
    assert!(spent.add(&detail("jev-1.13.0", 3_000, 2, 400), false));

    assert_eq!(spent.served, 2);
    assert_eq!(spent.bought, 1, "one of the two was already on disk");
    assert_eq!(spent.requests, 3, "the second answer took two requests");
    assert_eq!(spent.input_tokens, 4_000, "both answers' tokens");
    assert_eq!(spent.bought_tokens, 1_000, "only the one that was paid for");
    assert_eq!(
        value(&spent.cost_usd()),
        value(&price_of(4_000)),
        "a configuration's cost is all of its answers, priced"
    );
    assert_eq!(
        value(&spent.spent_usd()),
        value(&price_of(1_000)),
        "what the run put on the wire"
    );
    assert_eq!(
        spent.mean_latency(),
        300_000_000,
        "one answer's latency, not the sum"
    );
    assert_eq!(spent.models.len(), 1);
}

#[test]
fn the_decision_splits_on_what_the_walk_did() {
    let links: Vec<Link> = [
        (0.90f64, true, true),
        (0.80, true, false),
        (0.70, false, true),
        (0.65, false, false),
        (0.20, false, false),
    ]
    .into_iter()
    .map(|(scent, followed, wanted)| Link { scent: scent.to_bits(), followed, wanted })
    .collect();

    let decision = decide(&links, 0.6f64.to_bits());
    assert_eq!(
        value(&decision.followed.rate()),
        0.5,
        "one of the two followed was wanted"
    );
    assert_eq!(
        value(&decision.passed.rate()),
        1.0 / 3.0,
        "one of the three passed was"
    );
    assert_eq!(decision.passed.judged, 3);
    assert_eq!(
        decision.cleared, 2,
        "0.70 and 0.65 clear the threshold and were still passed over"
    );
    assert_eq!(decision.followed.judged + decision.passed.judged, links.len());
}

fn shown(arg: Arg) -> String {
    let mut doc = Doc::new();
    doc.fill("{}", Args { list: vec![arg] });
    printed(&doc)
}

/// The differences the headline quotes are signed, and a reading of nothing is not a division by
/// zero.
#[test]
fn differences_carry_their_sign() {
    assert_eq!(shown(delta_of(139, 100)), "+39%");
    assert_eq!(shown(delta_of(74, 100)), "-26%");
    assert_eq!(shown(delta_of(1, 0)), "—");
    assert_eq!(shown(times_of(243_070, 35_245)), "6.9×");
    assert_eq!(shown(times_of(1, 0)), "—");
    assert_eq!(value(&share_of(1, 4)), 25.0);
    let signed = |a: f64, b: f64| {
        let value = difference(Num::Double(a.to_bits()), Num::Double(b.to_bits()));
        figure(&Figure { value, form: Form::Signed(2) })
    };
    assert_eq!(signed(0.56, 0.5), "+0.06");
    assert_eq!(signed(0.36, 0.5), "-0.14");
}

#[test]
fn scents_bin_over_the_whole_range() {
    assert_eq!(bin_of(0.0f64.to_bits()), 0);
    assert_eq!(bin_of(0.55f64.to_bits()), 5);
    assert_eq!(bin_of(0.6f64.to_bits()), 6);
    assert_eq!(bin_of(1.0f64.to_bits()), BINS - 1);
    assert_eq!(bin_label(0), "0.0–0.1");
    assert_eq!(bin_label(BINS - 1), "0.9–1.0");
}

/// Every scent that two decimals can write falls in the bin that its product with ten says.
#[test]
fn a_scent_falls_in_the_bin_of_its_tenths() {
    for hundredths in 0..=100u32 {
        let scent = f64::from(hundredths) / 100.0;
        assert_eq!(
            bin_of(scent.to_bits()),
            ((scent * 10.0) as usize).min(9),
            "{scent}"
        );
    }
}

// ------------------------------------------------------------------------- runs

#[test]
fn a_range_that_touches_a_part_covers_it() {
    assert!(covers(&vec![(1, 2), (5, 9)], (9, 12)));
    assert!(!covers(&vec![(1, 2), (5, 8)], (9, 12)));
    assert!(!covers(&Vec::new(), (1, 1)));
}

fn visited(path: &str, relevance: f64, sections: &[(usize, usize, f64)]) -> VisitedFile {
    VisitedFile {
        path: path.to_string(),
        relevance: relevance.to_bits(),
        scent: Some(0.7f64.to_bits()),
        via: vec!["index.md".to_string()],
        sections: sections
            .iter()
            .map(|(first, last, score)| RankedSection {
                heading: None,
                first: *first,
                last: *last,
                score: score.to_bits(),
            })
            .collect(),
        links: vec![
            RankedLink {
                target: "other.md".to_string(),
                scent: Some(0.4f64.to_bits()),
                followed: false,
                reason: None,
            },
            RankedLink {
                target: "unseen.md".to_string(),
                scent: None,
                followed: false,
                reason: None,
            },
        ],
    }
}

#[test]
fn a_walk_is_parted_into_what_earned_a_place_and_the_rest() {
    let corpus = corpus(&[("a.md", "one\ntwo\n"), ("b.md", "three\n")]);
    let query = query("q", &["a.md"]);
    let files = vec![
        visited("a.md", 0.9, &[(1, 1, 0.8), (2, 2, 0.1)]),
        visited("b.md", 0.2, &[(1, 1, 0.3)]),
    ];
    let gone = vec![FailedFile {
        path: "gone.md".to_string(),
        failure: Failure::Parse("not there".to_string()),
    }];
    let threshold = 0.6f64.to_bits();
    let run = match run_of(&corpus, &query, threshold, &files, &gone, Spent::none()) {
        Ok(run) => run,
        Err(error) => panic!("{error}"),
    };
    assert_eq!(run.returned.len(), 1);
    assert_eq!(run.returned[0].lines, [(1, 1)]);
    assert_eq!(run.walked.len(), 1);
    assert!(run.walked[0].lines.is_empty());
    // A link with no scent was not judged.
    assert_eq!(run.judged.len(), 2);
    assert_eq!(run.unreadable, ["gone.md"]);
    assert!(run.has_visited("b.md"));
    assert!(!run.has_visited("gone.md"));
    assert_eq!(run.score.read_tokens, 1);

    let unjudged = vec![FailedFile {
        path: "b.md".to_string(),
        failure: Failure::Score("the API answered 500".to_string()),
    }];
    match run_of(&corpus, &query, threshold, &files, &unjudged, Spent::none()) {
        Ok(_) => panic!("a judgment failed"),
        Err(error) => assert!(
            error.contains("q") && error.contains("b.md") && error.contains("500"),
            "{error}"
        ),
    }
}

fn candidate(path: &str, text: &str) -> Candidate {
    Candidate { path: path.to_string(), text: Some(text.to_string()) }
}

#[test]
fn the_keyword_ranker_takes_more_terms_before_more_occurrences() {
    assert_eq!(terms("How do I Release, v2?"), ["how", "release"]);
    assert_eq!(occurrences_in("a for, form for", "for"), 2);
    let pages = vec![
        candidate("many.md", "release release release"),
        candidate("both.md", "Cut a release; CUT"),
        candidate("none.md", "nothing"),
        Candidate { path: "unread.md".to_string(), text: None },
        candidate("private/a.md", "cut release"),
    ];
    let ignore = match Ignore::at("wiki", Source::Content("private/\n".to_string())) {
        Ok(ignore) => ignore,
        Err(error) => panic!("{}", error.message),
    };
    assert_eq!(
        keyword_hits("wiki", &pages, "cut release", 5, &ignore),
        ["wiki/both.md", "wiki/many.md"]
    );
    assert_eq!(keyword_hits("wiki", &pages, "cut release", 1, &ignore), ["wiki/both.md"]);

    let corpus = corpus(&[("many.md", "release release release"), ("both.md", "one\ntwo\n")]);
    let query = Query { query: "cut release".to_string(), ..query("q", &["both.md"]) };
    let run = match grep(&corpus, &query, 5, &pages, &ignore) {
        Ok(run) => run,
        Err(error) => panic!("{error}"),
    };
    assert_eq!(run.returned[0].lines, [(1, 2)], "a ranker reads its pages whole");
    assert_eq!(run.score.found, 1);
    assert_eq!(run.spent.served, 0);
}

// ---------------------------------------------------------------- what is measured

#[test]
fn a_mode_is_one_of_three() {
    assert!(mode_named("about") == Some(Mode::About));
    assert!(mode_named("useful-for") == Some(Mode::UsefulFor));
    assert!(mode_named("answers") == Some(Mode::Answers));
    assert!(mode_named("vibes").is_none());
}

#[test]
fn what_cannot_be_measured_is_refused() {
    let refused = |budgets: &[usize], threshold: f64| {
        match check_asked(&budgets.to_vec(), threshold.to_bits()) {
            Ok(_) => None,
            Err(message) => Some(printed(&message)),
        }
    };
    assert_eq!(refused(&[10, 25], 0.6), None);
    assert_eq!(refused(&[10], 0.0), None);
    assert_eq!(refused(&[10], 1.0), None);
    let budget = "--budgets wants at least one budget of one file or more";
    assert_eq!(refused(&[], 0.6).as_deref(), Some(budget));
    assert_eq!(refused(&[10, 0], 0.6).as_deref(), Some(budget));
    assert_eq!(
        refused(&[10], 1.5).as_deref(),
        Some("--threshold 1.5 is not between 0 and 1")
    );
    assert_eq!(
        refused(&[10], -0.5).as_deref(),
        Some("--threshold -0.5 is not between 0 and 1")
    );
    assert_eq!(
        refused(&[10], f64::NAN).as_deref(),
        Some("--threshold NaN is not between 0 and 1")
    );
    assert_eq!(sorted_budgets(&vec![25, 10, 25]), [10, 25]);
}

#[test]
fn what_ships_is_walked_once() {
    let asked = Asked {
        budgets: vec![10, 25],
        threshold: 0.6f64.to_bits(),
        relative: true,
        wordings: 2,
    };
    let passes = asked.passes();
    assert_eq!(passes.len(), 2 + 4 + 2 + 4 + 3 + 2);
    assert!(passes[0].stage == Stage::Budget(0) && passes[0].budget == 10);
    assert!(passes[1].stage == Stage::Budget(1) && passes[1].budget == 25);
    assert!(passes[2..].iter().all(|pass| pass.budget == 10));
    for (i, a) in passes.iter().enumerate() {
        for b in &passes[i + 1..] {
            assert!(a.stage != b.stage);
        }
    }
    let plain = Asked { relative: false, wordings: 0, ..asked };
    assert_eq!(plain.passes().len(), 2 + 4 + 2 + 4);
}

#[test]
fn a_cache_says_where_the_answers_came_from() {
    let dir = Some("eval/cache".to_string());
    let named = Cache::chosen(false, &dir);
    assert_eq!(named.label(), "`eval/cache`");
    assert_eq!(named.flag().as_deref(), Some("  --cache eval/cache \\"));
    assert_eq!(named.notice("key"), None);
    assert_eq!(
        named.notice(" ").as_deref(),
        Some(
            "TYPESAFE_API_KEY is not set: every judgment has to come from `eval/cache`, so a miss \
             fails the query"
        )
    );
    let off = Cache::chosen(true, &dir);
    assert_eq!(off.label(), "--no-cache: every judgment was bought");
    assert_eq!(off.flag().as_deref(), Some("  --no-cache \\"));
    assert!(off.notice("key").is_some());
    let usual = Cache::chosen(false, &None);
    assert_eq!(usual.flag(), None);
    assert_eq!(usual.label(), "`S1M_CACHE_DIR`, else the XDG cache directory");
}

// -------------------------------------------------------------------- the report

fn spent(tokens: u64, requests: u64) -> Spent {
    let mut spent = Spent::none();
    assert!(spent.add(&detail("jev-1.13.0", tokens, requests, 250), true));
    spent
}

/// A run of a query that wants two pages.
fn run(id: &str, found: usize, parts: usize, read: u64) -> Run {
    Run {
        id: id.to_string(),
        score: Score {
            gold: 2,
            visited: 3,
            returned: 2,
            found,
            parts_found: parts,
            reached: found,
            read_tokens: read,
            read_lines: read / 2,
            whole_tokens: 2 * read,
        },
        spent: spent(1_000, 2),
        returned: vec![Visit { scent: Some(0.8f64.to_bits()), ..visit("a.md", &[(1, 1)]) }],
        walked: vec![visit("index.md", &[])],
        judged: vec![
            Judged {
                target: "a.md".to_string(),
                scent: 0.8f64.to_bits(),
                followed: true,
            },
            Judged {
                target: "b.md".to_string(),
                scent: 0.7f64.to_bits(),
                followed: false,
            },
            Judged {
                target: "outside.md".to_string(),
                scent: 0.1f64.to_bits(),
                followed: false,
            },
        ],
        unreadable: vec!["z.md".to_string(), "gone.md".to_string()],
    }
}

fn both(found: usize, parts: usize, read: u64) -> Vec<Run> {
    vec![run("one", found, parts, read), run("two", 2, 2, read)]
}

fn findings(wordings: bool) -> Findings {
    let pages = [("index.md", "index\n"), ("a.md", "aaaa\n"), ("b.md", "bbbb\n")];
    let asked = Asked {
        budgets: vec![10, 25],
        threshold: 0.6f64.to_bits(),
        relative: wordings,
        wordings: if wordings { 1 } else { 0 },
    };
    let passes = asked.passes();
    let results: Vec<Vec<Run>> = (0..passes.len())
        .map(|at| if at < 2 { both(1, 1, 100) } else { both(2, 1, 50) })
        .collect();
    let mut total = Spent::none();
    for runs in &results {
        assert!(add_runs(&mut total, runs));
    }
    assert_eq!(total.requests, passes.len() as u64 * 4);
    let names = if wordings { vec!["section-legacy".to_string()] } else { Vec::new() };
    let greps = vec![both(2, 2, 400), both(2, 2, 400)];
    let tables: Tables = gather(&asked, results, greps, &names);
    assert_eq!(tables.budgets.len(), 2);
    assert_eq!(tables.sweep.len(), 4);
    assert_eq!(tables.previews[0].label, PREVIEWS[1]);
    assert_eq!(tables.contexts[3].label, CONTEXTS[4]);
    let label = |label: &str, bits: f64| Scents {
        label: label.to_string(),
        links: vec![("a.md".to_string(), bits.to_bits()), ("b.md".to_string(), 0.5f64.to_bits())],
    };
    Findings {
        wiki: "eval/wiki".to_string(),
        gold_path: "eval/gold.json".to_string(),
        corpus: corpus(&pages),
        gold: Gold {
            queries: vec![query("one", &["a.md", "b.md"]), query("two", &["a.md", "b.md"])],
        },
        threshold: 0.6f64.to_bits(),
        budgets: tables.budgets,
        sweep: tables.sweep,
        previews: tables.previews,
        contexts: tables.contexts,
        policies: tables.policies,
        wordings: tables.wordings,
        scents: vec![label(PREVIEWS[0], 0.8), label(PREVIEWS[1], 0.55), label(PREVIEWS[2], 0.7)],
        scents_of: Some(("one".to_string(), "index.md".to_string())),
        total,
        cache: "`eval/cache`".to_string(),
        cache_flag: Some("  --cache eval/cache \\".to_string()),
        keep_ceiling: 0.5f64.to_bits(),
    }
}

#[test]
fn the_report_says_what_was_measured_and_what_it_came_to() {
    let findings = findings(false);
    assert!(findings.is_sound());
    let report = printed(&findings.render(&Vec::new()));

    for said in [
        "# Evaluation: s1m on a real wiki\n\ns1m ranks a wiki's pages",
        "under `eval/wiki`: 2 queries, each with the pages a person would want, at `--max-files` 10 \
         and 25.\n",
        "| Corpus | 3 pages, 16 characters (4 tokens) |\n",
        "| Gold set | `eval/gold.json` — 2 queries |\n",
        "| Model | jev-1.13.0 |\n",
        "| Price | $0.042 per million input tokens, output free |\n",
        "| Walk | `--threshold` 0.6, `--max-depth` 6, 8 frontier files a round |\n",
        "| Cost | $0.000084 for the gold set at `--max-files 10`, $0.000084 at `--max-files 25`; ",
        // Recall 0.5 and 1 over two queries, three of four wanted pages, four files returned.
        "mean recall 0.75, mean precision 0.75 — 3 of the 4 wanted pages are in the list the agent \
         opens, over 4 files returned, 2.0 a query — against 0.50 over everything",
        "recall 1.00 against s1m's 0.75, at 800 tokens against 200 — 4.0× the reading for 0.25 more",
        "0.5: recall +0.25 and reading -50%; 0.6: recall +0.25 and reading -50%; ",
        "the links the walk followed reach a wanted page 1.00 of the time, the ones it passed over \
         1.00, and 2 links clear the threshold",
        "  --wiki eval/wiki \\\n  --gold eval/gold.json \\\n  --cache eval/cache \\\n  --out PATH\n",
        "| `one` | 2 | 3 | 2 | 1 | 0.50 | 1/2 | 0.50 | 0.50 | 0.33 | 100 | 50 | 200 | $0.000042 | 250 |\n",
        "| **mean** |  |  |  |  | **0.75** |  | **0.75** | **0.75** | **0.50** | **200** | **100** | \
         **400** | **$0.000084** | 250 |\n",
        "Links to files that are not there: `gone.md`, `z.md` — reached,",
        "| 10 | 0.75 | 0.75 | 200 | 1.00 | 1.00 | 800 |\n",
        "| whole corpus | 1.00 | 0.67 | 8 | | | |\n",
        "Wanted pages no walk reached at `--max-files 25`: 1 query/page pairs missed.\n",
        "| Query | Wanted but not reached |\n| --- | --- |\n| `one` | `b.md` |\n",
        "| 0.8–0.9 | 2 | 0.80 | 0.50 | 1.00 |\n",
        "2 arrivals: a link",
        "Every link the walk judged whose target is a page of this wiki (4; 2 more left the",
        "| 0.7–0.8 | 2 | 0 | — |\n",
        "| followed | 2 | 1.00 |\n| passed over | 2 | 1.00 |\n",
        "| Threshold | Recall | Section recall | Precision | Read (tok) | Lines | Cost |\n",
        "| previews on (default) | 0.75 | 0.75 | 200 | 2000 | $0.000084 | 250 |\n\
         | previews, no frontmatter | 1.00 | 1.00 | 100 | 2000 | $0.000084 | 250 |\n",
        "| Target | previews on (default) | previews, no frontmatter | previews off |\n",
        "| `a.md` | **0.80** | 0.55 | **0.70** |\n| `b.md` | 0.50 | 0.50 | 0.50 |\n",
        "`previews, no frontmatter` against the default, on this page: 1 of 2 links change whether \
         the walk would follow them, and the mean scent moves by 0.12.\n",
        "| Query | Gold | what ships (default) | no headings | no leads_to | one hop | before #46 |\n",
        "| `one` | 2 | 0.50 | 1.00 | 1.00 | 1.00 | 1.00 |\n| `two` | 2 | 1.00 |",
        "| **total** |  | **4** | **4** | **4** | **4** | **4** |\n",
        "It asks 1.0× the requests it asked before [#46].\n",
        "characters at 4, not what a tokeniser would charge.\n",
        "The answers came from `eval/cache`. That directory",
    ] {
        assert!(report.contains(said), "the report does not say {said}");
    }
    assert!(!report.contains("The relative judge: one Choice"), "{report}");
    assert!(!report.contains("section-legacy`, the queries"), "{report}");
}

#[test]
fn the_report_has_the_tables_that_were_asked_for() {
    let findings = findings(true);
    assert!(findings.is_sound());
    let rows = findings.wordings.as_ref().expect("the registers");
    let lost: Vec<u64> = findings
        .losses(rows)
        .iter()
        .map(|loss| value(loss).to_bits())
        .collect();
    assert_eq!(lost.len(), 2);
    let report = printed(&findings.render(&lost));

    for said in [
        "  --relative-judge \\\n  --wordings \\\n",
        "`max(0.02, min(3 / options, 0.5))`",
        "| noul: what ships | 0.75 | 0.75 | 0.50 | 200 | 400 | 4 | 2000 | $0.000084 | 4 | 2.00 |\n",
        "| Query | Gold | noul: what ships | choice | choice + previews | choice + previews, k=1 |\n",
        "`section-legacy` returns 0.75 of the wanted parts for 50 lines, and the default 0.75 for \
         100.\n",
        "| what ships (default) | 0.75 | 0.75 | 0.75 | 200 | 100 | 4 | 2000 | $0.000084 | 4 | 2.00 |\n",
        "| Query | Gold | Mode | what ships (default) | section-legacy |\n",
        "| `one` | 2 | `useful-for` | 0.50 | 1.00 |\n",
        "| `one` | 2 | `useful-for` | 0.50 | 0.50 | 50 | 25 |\n",
        "| **mean** |  |  | **0.75** | **0.75** | **100** | **50** |\n",
    ] {
        assert!(report.contains(said), "the report does not say {said}");
    }
    assert_eq!(SHIPS, "what ships (default)");
}

#[test]
fn a_table_that_misses_a_query_is_not_reported() {
    let mut short = findings(false);
    short.contexts[0] = Row { label: "x".to_string(), runs: Vec::new() };
    assert!(!short.is_sound());
}

#[test]
fn what_a_run_paid_is_told() {
    let mut spent = Spent::none();
    assert!(spent.add(&detail("jev", 1_000_000, 1, 1), true));
    assert!(spent.add(&detail("jev", 1_000_000, 1, 1), false));
    assert_eq!(
        printed(&paid(&spent)),
        "2 answers served, 1 bought now for $0.042000; every answer used cost $0.084000"
    );
    assert_eq!(millis_of(1_999_999), 1);
}

#[test]
fn recall_is_one_where_every_wanted_page_is_found() {
    let corpus = corpus(&[("index.md", "index\n"), ("a.md", "one\n"), ("b.md", "two\n")]);
    // A page wanted twice is one page.
    let query = query("q", &["a.md", "b.md", "a.md"]);
    let returned = vec![visit("a.md", &[(1, 1)]), visit("b.md", &[(1, 1)])];
    let score = scored(&corpus, &query, returned, vec![visit("index.md", &[])]);
    assert_eq!((score.found, score.reached, score.gold), (2, 2, 2));
    assert_eq!(value(&score.recall()), 1.0);
}

#[test]
fn case_says_nothing_about_the_terms() {
    let query = "How do we note the NOTES, note?";
    assert_eq!(terms(query), ["how", "note", "the", "notes"]);
    assert_eq!(terms(&query.to_uppercase()), terms(query));
    assert_eq!(terms(&query.to_lowercase()), terms(query));
}

#[test]
fn a_mean_is_over_every_answer_served() {
    let mut spent = Spent::none();
    assert_eq!(spent.mean_latency(), 0);
    spent.latency = 0x2_0000_0000;
    spent.served = 0x1_0000_0000;
    assert_eq!(spent.mean_latency(), 2);
}
