use s1m::cli::{RankedFile, RankedLink, RankedSection, ReadingList, Reason, WalkedFile};
use s1m::doc::{Doc, Figure, Form, Num};
use s1m::format::{queued, Format};

/// What a number comes to.
fn value(num: &Num) -> f64 {
    match num {
        Num::Whole(n) => *n as f64,
        Num::Long(n) => *n as f64,
        Num::Double(bits) => f64::from_bits(*bits),
        Num::Plus(a, b) => value(a) + value(b),
        Num::Minus(a, b) => value(a) - value(b),
        Num::Times(a, b) => value(a) * value(b),
        Num::Over(a, b) => value(a) / value(b),
        Num::Root(a) => value(a).sqrt(),
        Num::Least(a, b) => value(a).min(value(b)),
        Num::Greatest(a, b) => value(a).max(value(b)),
    }
}

/// A figure as it is printed.
fn figure(figure: &Figure) -> String {
    let value = value(&figure.value);
    match figure.form {
        Form::Fixed(places) => format!("{value:.0$}", places as usize),
        Form::Signed(places) => format!("{value:+.0$}", places as usize),
        Form::Plain => format!("{value}"),
        Form::Measure => {
            if value != 0.0 && value.abs() < 0.01 {
                format!("{value:.6}")
            } else if value.abs() < 100.0 {
                format!("{value:.2}")
            } else {
                format!("{}", value.round() as i64)
            }
        }
    }
}

/// A document as it is printed.
fn printed(doc: &Doc) -> String {
    let mut out = String::new();
    for piece in &doc.pieces {
        out.push_str(&piece.text);
        out.push_str(&figure(&piece.figure));
    }
    out.push_str(&doc.tail);
    out
}

fn list(results: Vec<RankedFile>) -> ReadingList {
    listing(results, Vec::new())
}

fn listing(results: Vec<RankedFile>, walked: Vec<WalkedFile>) -> ReadingList {
    let visited = results.len() + walked.len();
    ReadingList {
        query: "settlement timing".to_string(),
        mode: "useful-for".to_string(),
        scorer: "noul".to_string(),
        visited,
        calls: visited as u64,
        results,
        walked,
    }
}

fn walked(mut file: RankedFile) -> WalkedFile {
    file.sections = Vec::new();
    WalkedFile {
        path: file.path,
        relevance: file.relevance,
        scent: file.scent,
        via: file.via,
        links: file.links,
    }
}

fn entry(path: &str, relevance: f64) -> RankedFile {
    RankedFile {
        path: path.to_string(),
        relevance: relevance.to_bits(),
        scent: None,
        via: Vec::new(),
        sections: Vec::new(),
        links: Vec::new(),
    }
}

fn reached(path: &str, relevance: f64, scent: f64, reached_via: &[&str]) -> RankedFile {
    RankedFile {
        path: path.to_string(),
        relevance: relevance.to_bits(),
        scent: Some(scent.to_bits()),
        via: reached_via.iter().map(|path| path.to_string()).collect(),
        sections: Vec::new(),
        links: Vec::new(),
    }
}

fn sectioned(mut file: RankedFile, sections: &[(Option<&str>, [usize; 2], f64)]) -> RankedFile {
    file.sections = sections
        .iter()
        .map(|(heading, lines, score)| RankedSection {
            heading: heading.map(str::to_string),
            first: lines[0],
            last: lines[1],
            score: score.to_bits(),
        })
        .collect();
    file
}

fn linking(mut file: RankedFile, links: &[(&str, Option<f64>, Option<Reason>)]) -> RankedFile {
    file.links = links
        .iter()
        .map(|(target, scent, reason)| RankedLink {
            target: target.to_string(),
            scent: scent.map(f64::to_bits),
            followed: reason.is_none(),
            reason: *reason,
        })
        .collect();
    file
}

#[test]
fn md_carries_the_ranked_files_and_the_lines_to_read() {
    let list = list(vec![
        sectioned(
            reached(
                "wiki/payments/settlement.md",
                0.94,
                0.88,
                &["wiki/index.md"],
            ),
            &[(Some("Settlement"), [12, 26], 0.93), (None, [1, 6], 0.71)],
        ),
        sectioned(
            entry("wiki/index.md", 0.62),
            &[(Some("Home"), [5, 9], 0.68)],
        ),
    ]);

    assert_eq!(
        printed(&Format::Md.render(&list, "")),
        "\
# Reading list: settlement timing

Criterion: useful-for; 2 files visited, 2 calls

## 1. `wiki/payments/settlement.md`

relevance 0.94; scent 0.88; via `wiki/index.md`

- lines 12-26, score 0.93, Settlement
- lines 1-6, score 0.71, (preamble)

## 2. `wiki/index.md`

relevance 0.62; entry file

- lines 5-9, score 0.68, Home
"
    );
}

#[test]
fn md_says_when_no_section_cleared_the_threshold() {
    let list = list(vec![entry("wiki/index.md", 0.62)]);

    assert_eq!(
        printed(&Format::Md.render(&list, "")),
        "\
# Reading list: settlement timing

Criterion: useful-for; 1 file visited, 1 call

## 1. `wiki/index.md`

relevance 0.62; entry file

- nothing above --threshold
"
    );
}

#[test]
fn md_counts_read_as_a_sentence() {
    let list = list(vec![sectioned(entry("wiki/index.md", 0.42), &[])]);

    assert!(
        printed(&Format::Md.render(&list, ""))
            .contains("1 file visited, 1 call\n")
    );
}

#[test]
fn an_empty_list_prints_its_header_alone() {
    let empty = list(Vec::new());

    assert_eq!(
        printed(&Format::Md.render(&empty, "")),
        "\
# Reading list: settlement timing

Criterion: useful-for; 0 files visited, 0 calls
"
    );
    assert_eq!(
        printed(&Format::Tree.render(&empty, "")),
        "settlement timing (useful-for); 0 files visited, 0 calls\n\n"
    );
}

#[test]
fn md_leaves_out_a_file_that_earned_no_place() {
    let list = listing(
        vec![reached(
            "wiki/payments/settlement.md",
            0.94,
            0.88,
            &["wiki/index.md"],
        )],
        vec![walked(entry("wiki/index.md", 0.42))],
    );

    assert_eq!(
        printed(&Format::Md.render(&list, "")),
        "\
# Reading list: settlement timing

Criterion: useful-for; 2 files visited, 2 calls

## 1. `wiki/payments/settlement.md`

relevance 0.94; scent 0.88; via `wiki/index.md`

- nothing above --threshold
"
    );
}

#[test]
fn tree_prints_a_file_that_earned_no_place() {
    let list = listing(
        vec![reached(
            "wiki/payments/settlement.md",
            0.94,
            0.88,
            &["wiki/index.md"],
        )],
        vec![walked(linking(
            entry("wiki/index.md", 0.42),
            &[
                ("wiki/payments/settlement.md", Some(0.88), None),
                (
                    "wiki/notes/ledger.md",
                    Some(0.24),
                    Some(Reason::BelowThreshold),
                ),
            ],
        ))],
    );

    assert_eq!(
        printed(&Format::Tree.render(&list, "")),
        "\
settlement timing (useful-for); 2 files visited, 2 calls

wiki/index.md  entry file; relevance 0.42
  wiki/payments/settlement.md  followed; scent 0.88; relevance 0.94
  wiki/notes/ledger.md  pruned; scent 0.24
"
    );
}

#[test]
fn tree_nests_a_walked_file_under_the_result_that_reached_it() {
    let list = listing(
        vec![
            linking(
                reached("wiki/payments/README.md", 0.81, 0.86, &["wiki/index.md"]),
                &[("wiki/notes/ledger.md", Some(0.72), None)],
            ),
            reached(
                "wiki/payments/settlement.md",
                0.94,
                0.88,
                &["wiki/index.md"],
            ),
        ],
        vec![
            walked(linking(
                entry("wiki/index.md", 0.42),
                &[
                    ("wiki/payments/settlement.md", Some(0.88), None),
                    ("wiki/payments/README.md", Some(0.86), None),
                ],
            )),
            walked(reached(
                "wiki/notes/ledger.md",
                0.55,
                0.72,
                &["wiki/payments/README.md"],
            )),
        ],
    );

    assert_eq!(
        printed(&Format::Tree.render(&list, "")),
        "\
settlement timing (useful-for); 4 files visited, 4 calls

wiki/index.md  entry file; relevance 0.42
  wiki/payments/settlement.md  followed; scent 0.88; relevance 0.94
  wiki/payments/README.md  followed; scent 0.86; relevance 0.81
    wiki/notes/ledger.md  followed; scent 0.72; relevance 0.55
"
    );
}

#[test]
fn tree_nests_a_file_under_the_link_that_reached_it() {
    let list = list(vec![
        linking(
            entry("wiki/index.md", 0.62),
            &[
                ("wiki/payments/README.md", Some(0.88), None),
                (
                    "wiki/notes/ledger.md",
                    Some(0.31),
                    Some(Reason::BelowThreshold),
                ),
            ],
        ),
        sectioned(
            linking(
                reached("wiki/payments/README.md", 0.81, 0.88, &["wiki/index.md"]),
                &[("wiki/payments/settlement.md", Some(0.94), None)],
            ),
            &[(Some("Payments"), [1, 9], 0.85)],
        ),
        reached(
            "wiki/payments/settlement.md",
            0.94,
            0.94,
            &["wiki/index.md", "wiki/payments/README.md"],
        ),
    ]);

    assert_eq!(
        printed(&Format::Tree.render(&list, "")),
        "\
settlement timing (useful-for); 3 files visited, 3 calls

wiki/index.md  entry file; relevance 0.62
  wiki/payments/README.md  followed; scent 0.88; relevance 0.81
    wiki/payments/settlement.md  followed; scent 0.94; relevance 0.94
  wiki/notes/ledger.md  pruned; scent 0.31
"
    );
}

#[test]
fn tree_prints_a_link_with_no_scent_as_unknown_and_pruned() {
    let list = list(vec![linking(
        entry("wiki/index.md", 0.62),
        &[("wiki/notes/ledger.md", None, Some(Reason::Unjudged))],
    )]);

    assert_eq!(
        printed(&Format::Tree.render(&list, "")),
        "\
settlement timing (useful-for); 1 file visited, 1 call

wiki/index.md  entry file; relevance 0.62
  wiki/notes/ledger.md  pruned; scent unknown
"
    );
}

#[test]
fn tree_starts_from_every_file_no_link_reached() {
    let list = list(vec![
        linking(
            reached("wiki/notes/scratch.md", 0.44, 0.9, &["wiki/absent.md"]),
            &[(
                "wiki/notes/ledger.md",
                Some(0.31),
                Some(Reason::BelowThreshold),
            )],
        ),
        entry("wiki/index.md", 0.62),
        entry("wiki/payments/README.md", 0.81),
    ]);

    assert_eq!(
        printed(&Format::Tree.render(&list, "")),
        "\
settlement timing (useful-for); 3 files visited, 3 calls

wiki/index.md  entry file; relevance 0.62
wiki/notes/scratch.md  relevance 0.44; scent 0.90; via `wiki/absent.md`
  wiki/notes/ledger.md  pruned; scent 0.31
wiki/payments/README.md  entry file; relevance 0.81
"
    );
}

#[test]
fn tree_nests_a_file_once_under_the_link_that_reached_it() {
    let list = list(vec![
        linking(
            entry("wiki/index.md", 0.62),
            &[("wiki/payments/settlement.md", Some(0.55), None)],
        ),
        linking(
            entry("wiki/payments/README.md", 0.81),
            &[("wiki/payments/settlement.md", Some(0.94), None)],
        ),
        reached(
            "wiki/payments/settlement.md",
            0.94,
            0.94,
            &["wiki/payments/README.md"],
        ),
    ]);

    assert_eq!(
        printed(&Format::Tree.render(&list, "")),
        "\
settlement timing (useful-for); 3 files visited, 3 calls

wiki/index.md  entry file; relevance 0.62
  wiki/payments/settlement.md  followed; scent 0.55
wiki/payments/README.md  entry file; relevance 0.81
  wiki/payments/settlement.md  followed; scent 0.94; relevance 0.94
"
    );
}

#[test]
fn tree_lists_links_in_the_frontiers_order() {
    let list = list(vec![linking(
        entry("wiki/index.md", 0.62),
        &[
            (
                "wiki/notes/ledger.md",
                Some(0.31),
                Some(Reason::BelowThreshold),
            ),
            ("wiki/payments/README.md", Some(0.88), None),
            ("wiki/payments/cutoffs.md", Some(0.88), None),
            ("wiki/notes/scratch.md", None, Some(Reason::Unjudged)),
        ],
    )]);

    assert_eq!(
        printed(&Format::Tree.render(&list, "")),
        "\
settlement timing (useful-for); 1 file visited, 1 call

wiki/index.md  entry file; relevance 0.62
  wiki/payments/README.md  followed; scent 0.88
  wiki/payments/cutoffs.md  followed; scent 0.88
  wiki/notes/ledger.md  pruned; scent 0.31
  wiki/notes/scratch.md  pruned; scent unknown
"
    );
}

#[test]
fn tree_marks_a_link_to_a_file_the_walk_already_reached() {
    let list = list(vec![
        linking(
            entry("wiki/index.md", 0.62),
            &[
                ("wiki/payments/README.md", Some(0.88), None),
                (
                    "wiki/payments/settlement.md",
                    Some(0.71),
                    Some(Reason::AlreadyReached),
                ),
                (
                    "wiki/notes/scratch.md",
                    Some(0.68),
                    Some(Reason::AlreadyQueued),
                ),
                (
                    "wiki/notes/ledger.md",
                    Some(0.24),
                    Some(Reason::BelowThreshold),
                ),
                ("wiki/notes/reading.md", None, Some(Reason::Unjudged)),
            ],
        ),
        linking(
            reached("wiki/payments/README.md", 0.81, 0.88, &["wiki/index.md"]),
            &[("wiki/payments/settlement.md", Some(0.94), None)],
        ),
        reached(
            "wiki/payments/settlement.md",
            0.94,
            0.94,
            &["wiki/index.md", "wiki/payments/README.md"],
        ),
    ]);

    assert_eq!(
        printed(&Format::Tree.render(&list, "")),
        "\
settlement timing (useful-for); 3 files visited, 3 calls

wiki/index.md  entry file; relevance 0.62
  wiki/payments/README.md  followed; scent 0.88; relevance 0.81
    wiki/payments/settlement.md  followed; scent 0.94; relevance 0.94
  wiki/payments/settlement.md  already reached; scent 0.71
  wiki/notes/scratch.md  pruned; scent 0.68
  wiki/notes/ledger.md  pruned; scent 0.24
  wiki/notes/reading.md  pruned; scent unknown
"
    );
}

#[test]
fn json_keeps_the_models_own_numbers_and_ends_in_a_newline() {
    let list = list(vec![sectioned(
        entry("wiki/index.md", 0.783_333_333_333_333_3),
        &[(Some("Home"), [1, 9], 0.7)],
    )]);
    let mut fields = serde_json::Map::new();
    fields.insert("path".to_string(), serde_json::Value::from(list.results[0].path.as_str()));
    fields.insert(
        "relevance".to_string(),
        serde_json::Value::from(f64::from_bits(list.results[0].relevance)),
    );
    let text = match serde_json::to_string_pretty(&serde_json::Value::Object(fields)) {
        Ok(text) => text,
        Err(error) => panic!("{error}"),
    };

    let json = printed(&Format::Json.render(&list, &text));

    assert!(json.ends_with("}\n"), "{json}");
    assert!(json.contains("0.7833333333333333"), "{json}");
}

/// A file that two links lead to hangs from the one that reached it, and every file is printed.
#[test]
fn every_file_is_in_the_tree_once() {
    let list = list(vec![
        linking(
            entry("a.md", 0.5),
            &[("b.md", Some(0.9), None), ("c.md", Some(0.8), None)],
        ),
        linking(
            reached("b.md", 0.5, 0.9, &["a.md"]),
            &[("a.md", Some(0.9), None), ("c.md", Some(0.7), None)],
        ),
        reached("c.md", 0.4, 0.8, &["a.md"]),
    ]);
    assert_eq!(
        printed(&Format::Tree.render(&list, "")),
        "\
settlement timing (useful-for); 3 files visited, 3 calls

a.md  entry file; relevance 0.50
  b.md  followed; scent 0.90; relevance 0.50
    a.md  followed; scent 0.90
    c.md  followed; scent 0.70
  c.md  followed; scent 0.80; relevance 0.40
"
    );
}

/// The order that answers arrived in says nothing about the tree.
#[test]
fn links_in_another_order_print_the_same_tree() {
    let mut links = [
        ("wiki/b.md", Some(0.5), Some(Reason::BelowThreshold)),
        ("wiki/a.md", Some(0.5), Some(Reason::BelowThreshold)),
        ("wiki/d.md", None, Some(Reason::Unjudged)),
        ("wiki/c.md", Some(0.9), Some(Reason::TooDeep)),
    ];
    let tree = |links: &[(&str, Option<f64>, Option<Reason>)]| {
        let list = list(vec![linking(entry("wiki/index.md", 0.62), links)]);
        printed(&Format::Tree.render(&list, ""))
    };
    let first = tree(&links);
    links.reverse();
    assert_eq!(tree(&links), first);
    links.swap(1, 3);
    assert_eq!(tree(&links), first);
}

/// Two lines of heading, one for each root, and one for each link that was judged.
#[test]
fn a_tree_has_a_line_for_each_root_and_link() {
    let list = listing(
        vec![
            linking(
                entry("a.md", 0.5),
                &[
                    ("b.md", Some(0.9), None),
                    ("c.md", Some(0.8), None),
                    ("d.md", None, Some(Reason::Unjudged)),
                ],
            ),
            linking(
                reached("b.md", 0.5, 0.9, &["a.md"]),
                &[("e.md", Some(0.4), None), ("a.md", Some(0.9), Some(Reason::AlreadyReached))],
            ),
            reached("elsewhere.md", 0.5, 0.9, &["gone.md"]),
        ],
        vec![
            walked(reached("c.md", 0.4, 0.8, &["a.md"])),
            walked(reached("e.md", 0.4, 0.4, &["a.md", "b.md"])),
        ],
    );
    let tree = printed(&Format::Tree.render(&list, ""));
    assert_eq!(tree.lines().count(), 2 + 2 + 5, "{tree}");
    let relevance = |path: &str| {
        tree.lines()
            .filter(|line| line.trim_start().starts_with(path) && line.contains("relevance"))
            .count()
    };
    for path in ["a.md", "b.md", "c.md", "e.md", "elsewhere.md"] {
        assert_eq!(relevance(path), 1, "{path}\n{tree}");
    }
    assert_eq!(relevance("d.md"), 0, "{tree}");
}

/// The highest scent first, ties by path, and a link without a scent last.
#[test]
fn links_are_queued_by_scent() {
    let file = linking(
        entry("a.md", 0.5),
        &[
            ("z.md", None, Some(Reason::Unjudged)),
            ("d.md", Some(0.5), None),
            ("c.md", Some(0.5), None),
            ("b.md", Some(0.9), None),
        ],
    );
    let queue = queued(&file.links);
    let targets: Vec<&str> = queue.iter().map(|link| link.target.as_str()).collect();
    assert_eq!(targets, ["b.md", "c.md", "d.md", "z.md"]);
}
