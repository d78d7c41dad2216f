use s1m::doc::{Doc, Figure, Form, Num};
use s1m::graph::{collect, table, Entry, GraphStats, Link, LinkCounts, LinkKind, Page};
use s1m::graph::scc::largest_scc;

/// What a number comes to.
fn value(num: &Num) -> f64 {
    match num {
        Num::Whole(n) => *n as f64,
        Num::Long(n) => *n as f64,
        Num::Double(bits) => f64::from_bits(*bits),
        Num::Plus(a, b) => value(a) + value(b),
        Num::Minus(a, b) => value(a) - value(b),
        Num::Times(a, b) => value(a) * value(b),
        Num::Over(a, b) => value(a) / value(b),
        Num::Root(a) => value(a).sqrt(),
        Num::Least(a, b) => value(a).min(value(b)),
        Num::Greatest(a, b) => value(a).max(value(b)),
    }
}

/// A figure as it is printed.
fn figure(figure: &Figure) -> String {
    let value = value(&figure.value);
    match figure.form {
        Form::Fixed(places) => format!("{value:.0$}", places as usize),
        Form::Signed(places) => format!("{value:+.0$}", places as usize),
        Form::Plain => format!("{value}"),
        Form::Measure => {
            if value != 0.0 && value.abs() < 0.01 {
                format!("{value:.6}")
            } else if value.abs() < 100.0 {
                format!("{value:.2}")
            } else {
                format!("{}", value.round() as i64)
            }
        }
    }
}

/// A document as it is printed.
fn printed(doc: &Doc) -> String {
    let mut out = String::new();
    for piece in &doc.pieces {
        out.push_str(&piece.text);
        out.push_str(&figure(&piece.figure));
    }
    out.push_str(&doc.tail);
    out
}

/// A page as a parser reads it: its text, its headings, and its links as the root spells them.
fn page(path: &str, text: &str, headings: &[&str], links: &[(&str, LinkKind)]) -> Page {
    Page {
        path: path.to_string(),
        text: text.to_string(),
        headings: headings.iter().map(|heading| Some(heading.to_string())).collect(),
        links: links
            .iter()
            .map(|(target, kind)| Link {
                target: target.to_string(),
                kind: *kind,
                in_root: true,
            })
            .collect(),
    }
}

const MARKDOWN: LinkKind = LinkKind::Markdown;
const WIKILINK: LinkKind = LinkKind::Wikilink;

/// A wiki small enough to count by hand: five pages, six link instances, five distinct edges, one
/// two-page cycle and one page nothing links to.
fn tiny_wiki() -> Vec<Page> {
    vec![
        page("a.md", "# A\n\nBack to [index](index.md).\n", &["A"], &[("index.md", MARKDOWN)]),
        page("b.md", "# B\n\n## Sub\n\nNothing here.\n", &["B", "Sub"], &[]),
        page("c.md", "# C\n\nSee [b](b.md).\n", &["C"], &[("b.md", MARKDOWN)]),
        page("d.md", "# D\n", &["D"], &[]),
        page(
            "index.md",
            "# Index\n\nSee [a](a.md) and [b](b.md).\n\n## More\n\nSee [[c]] and [a again](a.md).\n",
            &["Index", "More"],
            &[
                ("a.md", MARKDOWN),
                ("b.md", MARKDOWN),
                ("c.md", WIKILINK),
                ("a.md", MARKDOWN),
            ],
        ),
    ]
}

fn collected(pages: &Vec<Page>, entries: &[&str]) -> Result<GraphStats, String> {
    collect("wiki", pages, &entries.iter().map(|page| page.to_string()).collect())
}

fn stats_of(pages: &Vec<Page>, entries: &[&str]) -> GraphStats {
    match collected(pages, entries) {
        Ok(stats) => stats,
        Err(error) => panic!("a wiki: {error}"),
    }
}

#[test]
fn counts_pages_words_headings_and_links() {
    let stats = stats_of(&tiny_wiki(), &[]);

    assert_eq!(stats.pages, 5);
    // Counted by hand: 13 + 5 + 6 + 4 + 2 tokens.
    assert_eq!(stats.words, 30);
    // `# Index`, `## More`, `# A`, `# B`, `## Sub`, `# C`, `# D`.
    assert_eq!(stats.headings, 7);
    assert!(
        stats.links
            == LinkCounts {
                total: 6,
                markdown: 5,
                wikilink: 1,
                resolved: 6,
                broken: 0,
                outside: 0,
            }
    );
    // `index.md` links to `a.md` twice, and an edge is a pair of pages.
    assert_eq!(stats.edges, 5);
}

#[test]
fn describes_both_degree_distributions_and_counts_orphans() {
    let stats = stats_of(&tiny_wiki(), &[]);

    // Out-degrees, by hand: index 3, a 1, b 0, c 1, d 0.
    assert_eq!(
        (
            stats.out_degree.min,
            value(&stats.out_degree.median),
            value(&stats.out_degree.mean),
            stats.out_degree.max
        ),
        (0, 1.0, 1.0, 3)
    );
    // The buckets are 0, 1, 2, 3-4 and on.
    assert_eq!(stats.out_degree.histogram[0], 2);
    assert_eq!(stats.out_degree.histogram[1], 2);
    assert_eq!(stats.out_degree.histogram[3], 1);

    // In-degrees, by hand: index 1, a 1, b 2, c 1, d 0.
    assert_eq!(
        (
            stats.in_degree.min,
            value(&stats.in_degree.median),
            value(&stats.in_degree.mean),
            stats.in_degree.max
        ),
        (0, 1.0, 1.0, 2)
    );

    // `d.md` is the page nothing links to.
    assert_eq!(stats.orphans, 1);
}

fn convention(stats: &GraphStats) -> Option<&str> {
    match &stats.depth.entry {
        Some(Entry::Convention(name)) => Some(name.as_str()),
        _ => None,
    }
}

#[test]
fn measures_depth_from_the_entry_page_and_the_largest_cycle() {
    let stats = stats_of(&tiny_wiki(), &[]);

    assert_eq!(convention(&stats), Some("index.md"));
    // The entry page, then `a`, `b` and `c` one hop away.
    assert_eq!(stats.depth.histogram, [(0, 1), (1, 3)]);
    // `d.md` is reachable from nothing.
    assert_eq!(stats.depth.unreachable, 1);
    // `index.md` and `a.md` link to each other; nothing else is in a cycle.
    assert_eq!(stats.largest_scc, 2);
}

#[test]
fn falls_back_to_the_readme_convention_and_reports_no_entry_page() {
    let wiki = vec![
        page("README.md", "# Readme\n\nSee [a](a.md).\n", &["Readme"], &[("a.md", MARKDOWN)]),
        page("a.md", "# A\n", &["A"], &[]),
    ];
    let stats = stats_of(&wiki, &[]);
    assert_eq!(convention(&stats), Some("README.md"));
    assert_eq!(stats.depth.unreachable, 0);

    let neither = vec![page("a.md", "# A\n", &["A"], &[])];
    let stats = stats_of(&neither, &[]);
    assert!(stats.depth.entry.is_none());
    // With no entry page nothing is reached, and the histogram is empty.
    assert_eq!(stats.depth.unreachable, 1);
    assert!(stats.depth.histogram.is_empty());
}

/// The table is numbers and fixed words: no page ever names itself in it.
#[test]
fn the_table_is_numbers_and_fixed_words() {
    let stats = stats_of(&tiny_wiki(), &[]);
    let table = printed(&table(&stats));

    assert!(table.contains("| Pages | 5 |"), "{table}");
    assert!(table.contains("| Words | 30 |"), "{table}");
    assert!(table.contains("| Headings | 7 |"), "{table}");
    assert!(table.contains("| Edges | 5 |"), "{table}");
    assert!(table.contains("| Orphans | 1 |"), "{table}");
    assert!(
        table.contains("| Largest strongly connected component | 2 |"),
        "{table}"
    );
    // Wikilinks against markdown links, the wiki's own link style.
    assert!(
        table.contains("| Links | 6 (5 markdown, 1 wikilink) |"),
        "{table}"
    );

    for page in ["a.md", "b.md", "c.md", "d.md", "tiny"] {
        assert!(
            !table.contains(page),
            "{page} is named in the table:\n{table}"
        );
    }
}

#[test]
fn an_entry_page_can_be_given_when_no_convention_is_there() {
    let wiki = vec![
        page("a.md", "# A\n", &["A"], &[]),
        page("b.md", "# B\n", &["B"], &[]),
        page("docs/start.md", "# Start\n\nSee [a](../a.md).\n", &["Start"], &[("a.md", MARKDOWN)]),
    ];

    // Without one, nothing is reachable: neither convention is there.
    let found = stats_of(&wiki, &[]);
    assert!(found.depth.entry.is_none());
    assert_eq!(found.depth.unreachable, 3);

    let given = stats_of(&wiki, &["docs/start.md"]);
    assert!(matches!(given.depth.entry, Some(Entry::Given)));
    assert_eq!(given.depth.histogram, [(0, 1), (1, 1)]);
    assert_eq!(given.depth.unreachable, 1);

    // The page it was given never reaches the table.
    let table = printed(&table(&given));
    assert!(table.contains("| Entry page | given |"), "{table}");
    assert!(!table.contains("docs/start.md"), "{table}");
    assert!(!table.contains("start"), "{table}");

    // A page the wiki does not hold is the caller's mistake.
    match collected(&wiki, &["docs/absent.md"]) {
        Ok(_) => panic!("no such page"),
        Err(error) => assert!(error.contains("not a page"), "{error}"),
    }
}

#[test]
fn depth_can_be_measured_from_a_set_of_entry_pages() {
    let wiki = vec![
        page("a.md", "# A\n", &["A"], &[]),
        page("b.md", "# B\n", &["B"], &[]),
        page("docs/start.md", "# Start\n\nSee [a](../a.md).\n", &["Start"], &[("a.md", MARKDOWN)]),
        page("ops/start.md", "# Ops\n", &["Ops"], &[]),
    ];

    let given = stats_of(&wiki, &["docs/start.md", "ops/start.md"]);
    assert!(matches!(given.depth.entry, Some(Entry::Given)));
    // Both given pages are at zero, `a.md` one hop from one of them.
    assert_eq!(given.depth.histogram, [(0, 2), (1, 1)]);
    assert_eq!(given.depth.unreachable, 1);

    // One page of the set that is not there is still the caller's mistake.
    assert!(collected(&wiki, &["docs/start.md", "gone.md"]).is_err());
}

#[test]
fn a_wiki_with_no_pages_is_an_error() {
    match collected(&Vec::new(), &[]) {
        Ok(_) => panic!("no pages"),
        Err(error) => assert_eq!(error, "wiki: no markdown or text pages under it"),
    }
}

#[test]
fn a_link_that_leads_nowhere_is_broken_and_one_that_leaves_is_outside() {
    let mut wiki = vec![page("a.md", "# A\n", &["A"], &[("gone.md", MARKDOWN), ("a.md", MARKDOWN)])];
    wiki[0].links.push(Link {
        target: "../b.md".to_string(),
        kind: LinkKind::Markdown,
        in_root: false,
    });
    let stats = stats_of(&wiki, &[]);
    assert_eq!(
        (stats.links.total, stats.links.resolved, stats.links.broken, stats.links.outside),
        (3, 1, 1, 1)
    );
    // A page's link to itself is no edge.
    assert_eq!(stats.edges, 0);
}

/// A longer cycle with a tail: the cycle is the largest component.
#[test]
fn the_largest_component_is_the_longest_cycle() {
    let wiki = vec![
        page("a.md", "", &[], &[("b.md", MARKDOWN)]),
        page("b.md", "", &[], &[("c.md", MARKDOWN)]),
        page("c.md", "", &[], &[("a.md", MARKDOWN), ("d.md", MARKDOWN)]),
        page("d.md", "", &[], &[("e.md", MARKDOWN)]),
        page("e.md", "", &[], &[("d.md", MARKDOWN)]),
    ];
    assert_eq!(stats_of(&wiki, &[]).largest_scc, 3);
}

/// Neither the direction of the links nor the numbers of the pages say anything about the largest
/// component.
#[test]
fn direction_and_numbers_say_nothing_about_the_largest_component() {
    let out = vec![vec![1], vec![2], vec![0, 3], vec![4], vec![3]];
    let back = vec![vec![2], vec![0], vec![1], vec![2, 4], vec![3]];
    let renumbered = vec![vec![1], vec![0], vec![3], vec![4, 1], vec![2]];
    assert_eq!(largest_scc(&out), 3);
    assert_eq!(largest_scc(&back), 3);
    assert_eq!(largest_scc(&renumbered), 3);
    assert_eq!(largest_scc(&Vec::new()), 0);
}
