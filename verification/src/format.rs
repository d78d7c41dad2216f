//! The shapes the reading list is printed in.
//!
//! `md` is what to read: the files that earned a place, the lines worth reading and the scores that
//! say why each one is there. `tree` is the walk's link tree: every file it visited with every link
//! it judged under it, each with the scent the model gave it and what the walk did about it. Both
//! are rendered from the reading list alone, with scores to two decimals.

use vstd::prelude::*;

use crate::cli::{RankedFile, RankedLink, RankedSection, ReadingList, Reason, WalkedFile};
use crate::counting;
use crate::doc;
use crate::doc::{Doc, DocView, Form, Num};
use crate::doubles;
use crate::sorting;
use crate::text;

pub mod lines;

verus! {

/// The shape the reading list is printed in.
#[derive(PartialEq, Eq, Structural, Clone, Copy)]
pub enum Format {
    /// What a caller parses.
    Json,
    /// A reading list to read or paste.
    Md,
    /// The walk's link tree.
    Tree,
}

/// One link as the tree carries it.
#[verifier::ext_equal]
pub struct LinkView {
    pub target: Seq<char>,
    pub scent: Option<u64>,
    pub followed: bool,
    pub reason: Option<Reason>,
}

impl View for RankedLink {
    type V = LinkView;

    open spec fn view(&self) -> LinkView {
        LinkView {
            target: self.target@,
            scent: self.scent,
            followed: self.followed,
            reason: self.reason,
        }
    }
}

/// One file as the reading views carry it, from either list, its links in the order the walk would
/// queue them.
struct File {
    path: String,
    relevance: u64,
    scent: Option<u64>,
    via: Vec<String>,
    links: Vec<RankedLink>,
}

/// What a file says.
#[verifier::ext_equal]
pub struct FileView {
    pub path: Seq<char>,
    pub relevance: u64,
    pub scent: Option<u64>,
    pub via: Seq<Seq<char>>,
    pub links: Seq<LinkView>,
}

impl View for File {
    type V = FileView;

    closed spec fn view(&self) -> FileView {
        FileView {
            path: self.path@,
            relevance: self.relevance,
            scent: self.scent,
            via: text::texts(self.via@),
            links: link_views(self.links@),
        }
    }
}

pub open spec fn link_views(links: Seq<RankedLink>) -> Seq<LinkView> {
    links.map_values(|link: RankedLink| link@)
}

/// Whether the frontier would take a link before another: highest scent first, ties broken by
/// path; a link the model named no scent for cannot be queued at all and comes last.
pub open spec fn queued_before(a: LinkView, b: LinkView) -> bool {
    match (a.scent, b.scent) {
        (Some(x), Some(y)) => doubles::ranks_before(y, x) || (x == y && text::before(
            a.target,
            b.target,
        )),
        (Some(_), None) => true,
        (None, Some(_)) => false,
        (None, None) => text::before(a.target, b.target),
    }
}

fn is_queued_before(a: &RankedLink, b: &RankedLink) -> (yes: bool)
    ensures
        yes == queued_before(a@, b@),
{
    match (a.scent, b.scent) {
        (Some(x), Some(y)) => doubles::is_before(y, x) || (x == y && text::is_before(
            a.target.as_str(),
            b.target.as_str(),
        )),
        (Some(_), None) => true,
        (None, Some(_)) => false,
        (None, None) => text::is_before(a.target.as_str(), b.target.as_str()),
    }
}

/// A file's judged links in the order the walk would queue them.
pub open spec fn queue(links: Seq<LinkView>) -> Seq<LinkView> {
    sorting::sorted(links, |a: LinkView, b: LinkView| queued_before(a, b))
}

/// A file's judged links as the walk would queue them: the highest scent first.
pub fn queued(links: &Vec<RankedLink>) -> (list: Vec<RankedLink>)
    ensures
        link_views(list@) == queue(link_views(links@)),
        link_views(list@).to_multiset() == link_views(links@).to_multiset(),
        forall|i: int, j: int|
            0 <= i < j < list.len() ==> !queued_before(
                (#[trigger] list@[j])@,
                (#[trigger] list@[i])@,
            ),
{
    let mut copies: Vec<RankedLink> = Vec::new();
    for i in 0..links.len()
        invariant
            copies.len() == i,
            forall|k: int| 0 <= k < i ==> (#[trigger] copies@[k])@ == links@[k]@,
    {
        let link: &RankedLink = &links[i];
        copies.push(
            RankedLink {
                target: link.target.clone(),
                scent: link.scent,
                followed: link.followed,
                reason: link.reason,
            },
        );
    }
    assert(link_views(copies@) =~= link_views(links@));
    let ghost lt = |a: RankedLink, b: RankedLink| queued_before(a@, b@);
    proof {
        sorting::sorted_maps(
            copies@,
            lt,
            |link: RankedLink| link@,
            |a: LinkView, b: LinkView| queued_before(a, b),
        );
    }
    let list: Vec<RankedLink> = sorting::sort(copies, is_queued_before, Ghost(lt));
    proof {
        queueing_is_an_order();
        sorting::sorted_is_in_order(
            link_views(links@),
            |a: LinkView, b: LinkView| queued_before(a, b),
        );
        links_are_queued_in_order(link_views(links@));
        assert forall|i: int, j: int| 0 <= i < j < list.len() implies !queued_before(
            (#[trigger] list@[j])@,
            (#[trigger] list@[i])@,
        ) by {
            assert(link_views(list@)[i] == list@[i]@ && link_views(list@)[j] == list@[j]@);
        }
    }
    list
}

proof fn queueing_is_an_order()
    ensures
        sorting::is_order(|a: LinkView, b: LinkView| queued_before(a, b)),
{
    let lt = |a: LinkView, b: LinkView| queued_before(a, b);
    assert forall|a: LinkView| !#[trigger] lt(a, a) by {
        text::before_is_a_strict_total_order(a.target, a.target, a.target);
    }
    assert forall|a: LinkView, b: LinkView| #[trigger] lt(a, b) implies !lt(b, a) by {
        text::before_is_a_strict_total_order(a.target, b.target, a.target);
    }
    assert forall|a: LinkView, b: LinkView, c: LinkView|
        #![trigger lt(a, b), lt(b, c)]
        !lt(a, b) && !lt(b, c) implies !lt(a, c) by {
        text::before_is_a_strict_total_order(a.target, b.target, c.target);
        text::before_is_a_strict_total_order(c.target, b.target, a.target);
        text::before_is_a_strict_total_order(b.target, c.target, a.target);
        text::before_is_a_strict_total_order(b.target, a.target, c.target);
        text::before_is_a_strict_total_order(a.target, c.target, b.target);
        if a.scent is Some && b.scent is Some && c.scent is Some {
            doubles::ranks_are_distinct(a.scent->0, b.scent->0);
            doubles::ranks_are_distinct(b.scent->0, c.scent->0);
            doubles::ranks_are_distinct(a.scent->0, c.scent->0);
        }
    }
}

/// The queue of a file is an order: no link stands behind one that the frontier would take after
/// it, whatever order the answers arrived in.
pub proof fn links_are_queued_in_order(links: Seq<LinkView>)
    ensures
        forall|i: int, j: int|
            0 <= i < j < queue(links).len() ==> !queued_before(
                #[trigger] queue(links)[j],
                #[trigger] queue(links)[i],
            ),
{
    let lt = |a: LinkView, b: LinkView| queued_before(a, b);
    queueing_is_an_order();
    sorting::sorted_is_in_order(links, lt);
    let list = queue(links);
    assert forall|i: int, j: int| 0 <= i < j < list.len() implies !queued_before(
        #[trigger] list[j],
        #[trigger] list[i],
    ) by {
        assert(!lt(list[j], list[i]));
    }
}

/// No two links have the same scent and the same target.
pub open spec fn told_apart(links: Seq<LinkView>) -> bool {
    forall|i: int, j: int|
        0 <= i < j < links.len() ==> (#[trigger] links[i]).scent != (#[trigger] links[j]).scent
            || links[i].target != links[j].target
}

/// The queue holds the links of the file and no others, and never depends on the order that answers
/// arrived in: the same links in another order give the same queue.
pub proof fn the_queue_is_one(a: Seq<LinkView>, b: Seq<LinkView>)
    requires
        told_apart(a),
        a.to_multiset() == b.to_multiset(),
    ensures
        queue(a) == queue(b),
        queue(a).to_multiset() == a.to_multiset(),
{
    let lt = |a: LinkView, b: LinkView| queued_before(a, b);
    queueing_is_an_order();
    sorting::sorted_is_in_order(a, lt);
    sorting::sorted_is_in_order(b, lt);
    let list = queue(a);
    assert forall|i: int, j: int|
        0 <= i < list.len() && 0 <= j < list.len() && list[i] != list[j] implies lt(
        #[trigger] list[i],
        #[trigger] list[j],
    ) || lt(list[j], list[i]) by {
        let (x, y) = (list[i], list[j]);
        sorting::sorted_holds(a, lt, x);
        sorting::sorted_holds(a, lt, y);
        assert(list.contains(x) && list.contains(y));
        let m = choose|m: int| 0 <= m < a.len() && a[m] == x;
        let n = choose|n: int| 0 <= n < a.len() && a[n] == y;
        assert(a[m].scent != a[n].scent || a[m].target != a[n].target);
        text::before_is_a_strict_total_order(x.target, y.target, x.target);
        if x.scent is Some && y.scent is Some {
            doubles::ranks_are_distinct(x.scent->0, y.scent->0);
        }
    }
    sorting::order_is_one_list(list, queue(b), lt);
}

pub open spec fn result_file(file: RankedFile) -> FileView {
    FileView {
        path: file.path@,
        relevance: file.relevance,
        scent: file.scent,
        via: text::texts(file.via@),
        links: queue(link_views(file.links@)),
    }
}

pub open spec fn walked_file(file: WalkedFile) -> FileView {
    FileView {
        path: file.path@,
        relevance: file.relevance,
        scent: file.scent,
        via: text::texts(file.via@),
        links: queue(link_views(file.links@)),
    }
}

/// Every file the walk visited: those that earned a place, then the rest.
pub open spec fn files_of(list: ReadingList) -> Seq<FileView> {
    list.results@.map_values(|file: RankedFile| result_file(file)) + list.walked@.map_values(
        |file: WalkedFile| walked_file(file),
    )
}

fn copy_texts(list: &Vec<String>) -> (same: Vec<String>)
    ensures
        text::texts(same@) == text::texts(list@),
{
    let mut same: Vec<String> = Vec::new();
    for i in 0..list.len()
        invariant
            same.len() == i,
            forall|k: int| 0 <= k < i ==> (#[trigger] same@[k])@ == list@[k]@,
    {
        same.push(list[i].clone());
    }
    assert(text::texts(same@) =~= text::texts(list@));
    same
}

spec fn file_views(files: Seq<File>) -> Seq<FileView> {
    files.map_values(|file: File| file@)
}

fn collect_files(list: &ReadingList) -> (files: Vec<File>)
    ensures
        file_views(files@) == files_of(*list),
{
    let mut files: Vec<File> = Vec::new();
    for i in 0..list.results.len()
        invariant
            files.len() == i,
            forall|k: int| 0 <= k < i ==> (#[trigger] files@[k])@ == result_file(list.results@[k]),
    {
        let file: &RankedFile = &list.results[i];
        files.push(
            File {
                path: file.path.clone(),
                relevance: file.relevance,
                scent: file.scent,
                via: copy_texts(&file.via),
                links: queued(&file.links),
            },
        );
    }
    let ghost n = list.results.len() as int;
    for i in 0..list.walked.len()
        invariant
            n == list.results.len(),
            files.len() == n + i,
            forall|k: int| 0 <= k < n ==> (#[trigger] files@[k])@ == result_file(list.results@[k]),
            forall|k: int|
                n <= k < n + i ==> (#[trigger] files@[k])@ == walked_file(list.walked@[k - n]),
    {
        let file: &WalkedFile = &list.walked[i];
        files.push(
            File {
                path: file.path.clone(),
                relevance: file.relevance,
                scent: file.scent,
                via: copy_texts(&file.via),
                links: queued(&file.links),
            },
        );
    }
    assert(file_views(files@) =~= files_of(*list));
    files
}

/// `1 file` and `2 files`, so a header reads as a sentence.
pub open spec fn counted(n: nat, noun: Seq<char>) -> Seq<char> {
    if n == 1 {
        text::decimal(n) + " "@ + noun
    } else {
        text::decimal(n) + " "@ + noun + "s"@
    }
}

fn count(n: u64, noun: &str) -> (text: String)
    ensures
        text@ == counted(n as nat, noun@),
{
    let mut text: String = text::number(n);
    text.append(" ");
    text.append(noun);
    if n != 1 {
        text.append("s");
    }
    text
}

/// A score as the reading views print it.
pub open spec fn score(bits: u64) -> doc::ArgView {
    doc::shown(Num::Double(bits), Form::Fixed(2))
}

/// The paths that led to a file, each quoted.
pub open spec fn trail(via: Seq<Seq<char>>) -> Seq<char> {
    text::joined(via.map_values(|path: Seq<char>| "`"@ + path + "`"@), " -> "@)
}

fn trail_of(via: &Vec<String>) -> (text: String)
    ensures
        text@ == trail(text::texts(via@)),
{
    let mut quoted: Vec<String> = Vec::new();
    for i in 0..via.len()
        invariant
            quoted.len() == i,
            forall|k: int| 0 <= k < i ==> (#[trigger] quoted@[k])@ == "`"@ + via@[k]@ + "`"@,
    {
        let mut path: String = "`".to_owned();
        path.append(via[i].as_str());
        path.append("`");
        quoted.push(path);
    }
    assert(text::texts(quoted@) =~= text::texts(via@).map_values(
        |path: Seq<char>| "`"@ + path + "`"@,
    ));
    text::join(&quoted, " -> ")
}

/// What put a file in the reading list: the relevance the model gave it, and the link path that
/// reached it, or that it was an entry file the caller named.
pub open spec fn reached(
    doc: DocView,
    relevance: u64,
    scent: Option<u64>,
    via: Seq<Seq<char>>,
) -> DocView {
    let doc = doc.fill("relevance {}"@, doc::none().push(score(relevance)));
    if via.len() == 0 {
        doc.text("; entry file"@)
    } else {
        let doc = match scent {
            Some(scent) => doc.fill("; scent {}"@, doc::none().push(score(scent))),
            None => doc,
        };
        doc.fill("; via {}"@, doc::none().push(doc::word(trail(via))))
    }
}

fn put_reached(doc: &mut Doc, relevance: u64, scent: Option<u64>, via: &Vec<String>)
    ensures
        final(doc)@ == reached(old(doc)@, relevance, scent, text::texts(via@)),
{
    assert(text::texts(via@).len() == via.len());
    doc.fill("relevance {}", doc::args().figure(Num::Double(relevance), Form::Fixed(2)));
    if via.len() == 0 {
        doc.text("; entry file");
    } else {
        match scent {
            Some(scent) => doc.fill(
                "; scent {}",
                doc::args().figure(Num::Double(scent), Form::Fixed(2)),
            ),
            None => {},
        }
        doc.fill("; via {}", doc::args().text(trail_of(via).as_str()));
    }
}

/// One section as a caller reads it: the lines to read, the score it was judged at and the heading
/// to look for.
pub open spec fn section_line(doc: DocView, section: RankedSection) -> DocView {
    doc.line(
        "- lines {}-{}, score {}, {}"@,
        doc::none().push(doc::count(section.first as int)).push(
            doc::count(section.last as int),
        ).push(score(section.score)).push(
            doc::word(
                match section.heading {
                    Some(heading) => heading@,
                    None => "(preamble)"@,
                },
            ),
        ),
    )
}

/// The first `n` sections of a file, a line each.
pub open spec fn section_lines(doc: DocView, sections: Seq<RankedSection>) -> DocView
    decreases sections.len(),
{
    if sections.len() == 0 {
        doc
    } else {
        section_line(section_lines(doc, sections.drop_last()), sections.last())
    }
}

fn put_sections(doc: &mut Doc, sections: &Vec<RankedSection>)
    ensures
        final(doc)@ == section_lines(old(doc)@, sections@),
{
    let ghost start = doc@;
    for i in 0..sections.len()
        invariant
            doc@ == section_lines(start, sections@.take(i as int)),
    {
        proof {
            counting::one_more(sections@, i as int);
        }
        let section: &RankedSection = &sections[i];
        let heading: &str = match &section.heading {
            Some(heading) => heading.as_str(),
            None => "(preamble)",
        };
        doc.line(
            "- lines {}-{}, score {}, {}",
            doc::args().count(section.first).count(section.last).figure(
                Num::Double(section.score),
                Form::Fixed(2),
            ).text(heading),
        );
    }
    proof {
        counting::take_all(sections@);
    }
}

/// One file of the reading list as markdown, by its rank.
pub open spec fn md_file(doc: DocView, rank: int, file: RankedFile) -> DocView {
    let doc = doc.text("\n"@).line(
        "## {}. `{}`"@,
        doc::none().push(doc::count(rank)).push(doc::word(file.path@)),
    ).text("\n"@);
    let doc = reached(doc, file.relevance, file.scent, text::texts(file.via@)).text("\n"@).text(
        "\n"@,
    );
    let doc = if file.sections.len() == 0 {
        doc.text("- nothing above --threshold\n"@)
    } else {
        doc
    };
    section_lines(doc, file.sections@)
}

pub open spec fn md_files(doc: DocView, files: Seq<RankedFile>) -> DocView
    decreases files.len(),
{
    if files.len() == 0 {
        doc
    } else {
        md_file(md_files(doc, files.drop_last()), files.len() as int, files.last())
    }
}

/// What a run cost, as a sentence.
pub open spec fn run_args(list: ReadingList) -> Seq<doc::ArgView> {
    doc::none().push(doc::word(list.mode@)).push(
        doc::word(counted(list.visited as nat, "file"@)),
    ).push(doc::word(counted(list.calls as nat, "call"@)))
}

/// The reading list as markdown: the files to read, most relevant first, each with the lines worth
/// reading inside it. A file the walk visited without earning a place is not in it.
pub open spec fn md_of(list: ReadingList) -> DocView {
    md_files(
        DocView::empty().line(
            "# Reading list: {}"@,
            doc::none().push(doc::word(list.query@)),
        ).text("\n"@).line("Criterion: {}; {} visited, {}"@, run_args(list)),
        list.results@,
    )
}

fn md(list: &ReadingList) -> (doc: Doc)
    ensures
        doc@ == md_of(*list),
{
    let mut doc: Doc = Doc::new();
    doc.line("# Reading list: {}", doc::args().text(list.query.as_str()));
    doc.text("\n");
    doc.line(
        "Criterion: {}; {} visited, {}",
        doc::args().text(list.mode.as_str()).text(
            count(list.visited as u64, "file").as_str(),
        ).text(count(list.calls, "call").as_str()),
    );
    let ghost start = doc@;
    for i in 0..list.results.len()
        invariant
            doc@ == md_files(start, list.results@.take(i as int)),
    {
        proof {
            counting::one_more(list.results@, i as int);
            assert(list.results@.take(i + 1).len() == i + 1);
        }
        let file: &RankedFile = &list.results[i];
        doc.text("\n");
        doc.line("## {}. `{}`", doc::args().count(i + 1).text(file.path.as_str()));
        doc.text("\n");
        put_reached(&mut doc, file.relevance, file.scent, &file.via);
        doc.text("\n");
        doc.text("\n");
        if file.sections.len() == 0 {
            doc.text("- nothing above --threshold\n");
        }
        put_sections(&mut doc, &file.sections);
    }
    proof {
        counting::take_all(list.results@);
    }
    doc
}

/// The last file of a list with a path.
pub open spec fn find(files: Seq<FileView>, path: Seq<char>) -> Option<int>
    decreases files.len(),
{
    if files.len() == 0 {
        None
    } else if files.last().path == path {
        Some(files.len() - 1)
    } else {
        find(files.drop_last(), path)
    }
}

/// Whether a file followed a link to a path.
pub open spec fn follows(file: FileView, path: Seq<char>) -> bool {
    exists|i: int|
        0 <= i < file.links.len() && (#[trigger] file.links[i]).followed && file.links[i].target
            == path
}

/// The file that a file's path says reached it, when that file was visited and judges a followed
/// link to it. A file with no such parent is a root of the tree.
pub open spec fn parent(files: Seq<FileView>, at: int) -> Option<int> {
    if files[at].via.len() == 0 {
        None
    } else {
        match find(files, files[at].via.last()) {
            Some(p) if follows(files[p], files[at].path) => Some(p),
            _ => None,
        }
    }
}

/// The visited file a followed link stands for, when this file is the one that reached it.
pub open spec fn child(files: Seq<FileView>, link: LinkView, at: int) -> Option<int> {
    if !link.followed {
        None
    } else {
        match find(files, link.target) {
            Some(c) => match parent(files, c) {
                Some(p) if files[p].path == files[at].path => Some(c),
                _ => None,
            },
            None => None,
        }
    }
}

/// What the tree says the walk did with a link.
pub open spec fn mark(link: LinkView) -> Seq<char> {
    if link.followed {
        "followed"@
    } else if link.reason == Some(Reason::AlreadyReached) {
        "already reached"@
    } else {
        "pruned"@
    }
}

/// A link's scent as the tree prints it.
pub open spec fn scent(doc: DocView, scent: Option<u64>) -> DocView {
    match scent {
        Some(bits) => doc.fill("scent {}"@, doc::none().push(score(bits))),
        None => doc.text("scent unknown"@),
    }
}

pub open spec fn indented(doc: DocView, depth: nat) -> DocView
    decreases depth,
{
    if depth == 0 {
        doc
    } else {
        indented(doc, (depth - 1) as nat).text("  "@)
    }
}

/// How a file came to be printed where it is: as a root, or under the link that reached it.
#[derive(PartialEq, Eq, Structural, Clone, Copy)]
pub enum By {
    Root,
    Link(Option<u64>),
}

/// A file's own line: an entry file the caller named, a root that a link reached from elsewhere, or
/// the link that reached it.
pub open spec fn head(doc: DocView, file: FileView, depth: nat, by: By) -> DocView {
    let doc = indented(doc, depth).text(file.path).text("  "@);
    let doc = match by {
        By::Root => if file.via.len() > 0 {
            reached(doc, file.relevance, file.scent, file.via)
        } else {
            doc.fill("entry file; relevance {}"@, doc::none().push(score(file.relevance)))
        },
        By::Link(bits) => scent(doc.text("followed; "@), bits).fill(
            "; relevance {}"@,
            doc::none().push(score(file.relevance)),
        ),
    };
    doc.text("\n"@)
}

/// The line of a link that no file hangs from.
pub open spec fn leaf(doc: DocView, link: LinkView, depth: nat) -> DocView {
    let doc = indented(doc, depth).text(link.target).text("  "@).text(mark(link)).text("; "@);
    scent(doc, link.scent).text("\n"@)
}

/// A file's line, then the links it judged: a link this file followed to a target it reached nests
/// that target's own subtree beneath it. At most `fuel` files are nested in each other.
pub open spec fn node(
    files: Seq<FileView>,
    doc: DocView,
    at: int,
    depth: nat,
    by: By,
    fuel: nat,
) -> DocView
    decreases fuel, 0nat,
{
    if fuel == 0 {
        doc
    } else {
        branches(
            files,
            head(doc, files[at], depth, by),
            at,
            depth,
            files[at].links.len(),
            (fuel - 1) as nat,
        )
    }
}

/// The first `n` links of a file.
pub open spec fn branches(
    files: Seq<FileView>,
    doc: DocView,
    at: int,
    depth: nat,
    n: nat,
    fuel: nat,
) -> DocView
    decreases fuel, n,
{
    if n == 0 {
        doc
    } else {
        let before = branches(files, doc, at, depth, (n - 1) as nat, fuel);
        let link = files[at].links[n - 1];
        match child(files, link, at) {
            Some(c) => node(files, before, c, depth + 1, By::Link(link.scent), fuel),
            None => leaf(before, link, depth + 1),
        }
    }
}

/// A root of the tree: its path and its place in the list.
#[verifier::ext_equal]
pub struct RootView {
    pub path: Seq<char>,
    pub at: int,
}

struct Root {
    path: String,
    at: usize,
}

impl View for Root {
    type V = RootView;

    closed spec fn view(&self) -> RootView {
        RootView { path: self.path@, at: self.at as int }
    }
}

/// The files among the first `n` that no link reached.
pub open spec fn roots_among(files: Seq<FileView>, n: int) -> Seq<RootView>
    decreases n,
{
    if n <= 0 {
        Seq::empty()
    } else if parent(files, n - 1) is None {
        roots_among(files, n - 1).push(RootView { path: files[n - 1].path, at: n - 1 })
    } else {
        roots_among(files, n - 1)
    }
}

/// The roots of the tree, by path.
pub open spec fn roots(files: Seq<FileView>) -> Seq<RootView> {
    sorting::sorted(
        roots_among(files, files.len() as int),
        |a: RootView, b: RootView| text::before(a.path, b.path),
    )
}

pub open spec fn trees(
    files: Seq<FileView>,
    doc: DocView,
    roots: Seq<RootView>,
    fuel: nat,
) -> DocView
    decreases roots.len(),
{
    if roots.len() == 0 {
        doc
    } else {
        node(
            files,
            trees(files, doc, roots.drop_last(), fuel),
            roots.last().at,
            0,
            By::Root,
            fuel,
        )
    }
}

/// The walk's link tree: every file it visited, and under it every link it judged, with that link's
/// scent and what the walk did about it. Files are nested no deeper than there are files.
pub open spec fn tree_of(list: ReadingList) -> DocView {
    let files = files_of(list);
    trees(
        files,
        DocView::empty().line(
            "{} ({}); {} visited, {}\n"@,
            doc::none().push(doc::word(list.query@)) + run_args(list),
        ),
        roots(files),
        files.len(),
    )
}

proof fn find_is_inside(files: Seq<FileView>, path: Seq<char>)
    ensures
        find(files, path) matches Some(i) ==> 0 <= i < files.len() && files[i].path == path,
        find(files, path) is None ==> forall|i: int|
            0 <= i < files.len() ==> (#[trigger] files[i]).path != path,
    decreases files.len(),
{
    if files.len() > 0 {
        find_is_inside(files.drop_last(), path);
        if find(files, path) is None {
            assert forall|i: int| 0 <= i < files.len() implies (#[trigger] files[i]).path
                != path by {
                if i < files.len() - 1 {
                    assert(files.drop_last()[i] == files[i]);
                }
            }
        }
    }
}

fn find_file(files: &Vec<File>, path: &str) -> (at: Option<usize>)
    ensures
        match at {
            Some(at) => find(file_views(files@), path@) == Some(at as int) && at < files.len(),
            None => find(file_views(files@), path@) is None,
        },
{
    let ghost all = file_views(files@);
    let mut n: usize = files.len();
    assert(all.take(n as int) =~= all);
    while n > 0
        invariant
            n <= files.len(),
            all == file_views(files@),
            find(all, path@) == find(all.take(n as int), path@),
        decreases n,
    {
        n -= 1;
        proof {
            counting::one_more(all, n as int);
            assert(all[n as int] == files@[n as int]@);
        }
        if text::same(files[n].path.as_str(), path) {
            return Some(n);
        }
    }
    None
}

fn follows_to(file: &File, path: &str) -> (yes: bool)
    ensures
        yes == follows(file@, path@),
{
    let ghost links = file@.links;
    for i in 0..file.links.len()
        invariant
            links == file@.links,
            links == link_views(file.links@),
            forall|k: int|
                0 <= k < i ==> !((#[trigger] links[k]).followed && links[k].target == path@),
    {
        assert(links[i as int] == file.links@[i as int]@);
        if file.links[i].followed && text::same(file.links[i].target.as_str(), path) {
            return true;
        }
    }
    false
}

fn parent_of(files: &Vec<File>, at: usize) -> (found: Option<usize>)
    requires
        at < files.len(),
    ensures
        match found {
            Some(p) => parent(file_views(files@), at as int) == Some(p as int) && p < files.len(),
            None => parent(file_views(files@), at as int) is None,
        },
{
    let ghost all = file_views(files@);
    let file: &File = &files[at];
    assert(all[at as int] == file@);
    let n: usize = file.via.len();
    assert(file@.via.len() == n);
    if n == 0 {
        return None;
    }
    assert(file@.via.last() == file.via@[n - 1]@);
    match find_file(files, file.via[n - 1].as_str()) {
        Some(p) => {
            assert(all[p as int] == files@[p as int]@);
            if follows_to(&files[p], file.path.as_str()) {
                Some(p)
            } else {
                None
            }
        },
        None => None,
    }
}

fn child_of(files: &Vec<File>, link: &RankedLink, at: usize) -> (found: Option<usize>)
    requires
        at < files.len(),
    ensures
        match found {
            Some(c) => child(file_views(files@), link@, at as int) == Some(c as int) && c
                < files.len(),
            None => child(file_views(files@), link@, at as int) is None,
        },
{
    let ghost all = file_views(files@);
    if !link.followed {
        return None;
    }
    match find_file(files, link.target.as_str()) {
        Some(c) => match parent_of(files, c) {
            Some(p) => {
                assert(all[p as int] == files@[p as int]@);
                assert(all[at as int] == files@[at as int]@);
                if text::same(files[p].path.as_str(), files[at].path.as_str()) {
                    Some(c)
                } else {
                    None
                }
            },
            None => None,
        },
        None => None,
    }
}

fn put_scent(doc: &mut Doc, bits: Option<u64>)
    ensures
        final(doc)@ == scent(old(doc)@, bits),
{
    match bits {
        Some(bits) => doc.fill("scent {}", doc::args().figure(Num::Double(bits), Form::Fixed(2))),
        None => doc.text("scent unknown"),
    }
}

fn indent(doc: &mut Doc, depth: usize)
    ensures
        final(doc)@ == indented(old(doc)@, depth as nat),
{
    let ghost start = doc@;
    for i in 0..depth
        invariant
            doc@ == indented(start, i as nat),
    {
        doc.text("  ");
    }
}

fn put_head(doc: &mut Doc, file: &File, depth: usize, by: By)
    ensures
        final(doc)@ == head(old(doc)@, file@, depth as nat, by),
{
    indent(doc, depth);
    doc.text(file.path.as_str());
    doc.text("  ");
    assert(file@.via.len() == file.via.len());
    match by {
        By::Root => {
            if file.via.len() > 0 {
                put_reached(doc, file.relevance, file.scent, &file.via);
            } else {
                doc.fill(
                    "entry file; relevance {}",
                    doc::args().figure(Num::Double(file.relevance), Form::Fixed(2)),
                );
            }
        },
        By::Link(bits) => {
            doc.text("followed; ");
            put_scent(doc, bits);
            doc.fill(
                "; relevance {}",
                doc::args().figure(Num::Double(file.relevance), Form::Fixed(2)),
            );
        },
    }
    doc.text("\n");
}

fn put_leaf(doc: &mut Doc, link: &RankedLink, depth: usize)
    ensures
        final(doc)@ == leaf(old(doc)@, link@, depth as nat),
{
    indent(doc, depth);
    doc.text(link.target.as_str());
    doc.text("  ");
    if link.followed {
        doc.text("followed");
    } else {
        match link.reason {
            Some(Reason::AlreadyReached) => doc.text("already reached"),
            _ => doc.text("pruned"),
        }
    }
    doc.text("; ");
    put_scent(doc, link.scent);
    doc.text("\n");
}

fn put_node(doc: &mut Doc, files: &Vec<File>, at: usize, depth: usize, by: By, fuel: usize)
    requires
        at < files.len(),
        depth + fuel <= files.len(),
    ensures
        final(doc)@ == node(
            file_views(files@),
            old(doc)@,
            at as int,
            depth as nat,
            by,
            fuel as nat,
        ),
    decreases fuel,
{
    if fuel == 0 {
        return ;
    }
    let ghost all = file_views(files@);
    let file: &File = &files[at];
    assert(all[at as int] == file@);
    put_head(doc, file, depth, by);
    let ghost start = doc@;
    for i in 0..file.links.len()
        invariant
            at < files.len(),
            fuel > 0,
            depth + fuel <= files.len(),
            all == file_views(files@),
            all[at as int] == file@,
            file@.links == link_views(file.links@),
            doc@ == branches(
                all,
                start,
                at as int,
                depth as nat,
                i as nat,
                (fuel - 1) as nat,
            ),
    {
        let link: &RankedLink = &file.links[i];
        assert(all[at as int].links[i as int] == link@);
        match child_of(files, link, at) {
            Some(c) => put_node(doc, files, c, depth + 1, By::Link(link.scent), fuel - 1),
            None => put_leaf(doc, link, depth + 1),
        }
    }
    assert(all[at as int].links.len() == file.links.len());
}

fn root_is_before(a: &Root, b: &Root) -> (yes: bool)
    ensures
        yes == text::before(a@.path, b@.path),
{
    text::is_before(a.path.as_str(), b.path.as_str())
}

spec fn root_views(list: Seq<Root>) -> Seq<RootView> {
    list.map_values(|root: Root| root@)
}

fn roots_of(files: &Vec<File>) -> (list: Vec<Root>)
    ensures
        root_views(list@) == roots(file_views(files@)),
        forall|k: int| 0 <= k < list.len() ==> (#[trigger] list@[k]).at < files.len(),
{
    let ghost all = file_views(files@);
    let mut list: Vec<Root> = Vec::new();
    assert(root_views(list@) =~= Seq::<RootView>::empty());
    for i in 0..files.len()
        invariant
            all == file_views(files@),
            root_views(list@) == roots_among(all, i as int),
            forall|k: int| 0 <= k < list.len() ==> (#[trigger] list@[k]).at < files.len(),
    {
        if parent_of(files, i).is_none() {
            let ghost was = root_views(list@);
            assert(all[i as int] == files@[i as int]@);
            let root = Root { path: files[i].path.clone(), at: i };
            let ghost added = root@;
            list.push(root);
            assert(root_views(list@) =~= was.push(added));
        }
    }
    let ghost lt = |a: Root, b: Root| text::before(a@.path, b@.path);
    let ghost unsorted = list@;
    proof {
        sorting::sorted_maps(
            list@,
            lt,
            |root: Root| root@,
            |a: RootView, b: RootView| text::before(a.path, b.path),
        );
    }
    let whole: Vec<Root> = sorting::sort(list, root_is_before, Ghost(lt));
    assert forall|k: int| 0 <= k < whole.len() implies (#[trigger] whole@[k]).at < files.len() by {
        sorting::sorted_holds(unsorted, lt, whole@[k]);
        assert(whole@.contains(whole@[k]));
    }
    whole
}

fn tree(list: &ReadingList) -> (doc: Doc)
    ensures
        doc@ == tree_of(*list),
{
    let files: Vec<File> = collect_files(list);
    let ghost all = file_views(files@);
    assert(all.len() == files.len());
    let mut doc: Doc = Doc::new();
    let args = doc::args().text(list.query.as_str()).text(list.mode.as_str()).text(
        count(list.visited as u64, "file").as_str(),
    ).text(count(list.calls, "call").as_str());
    assert(args@ =~= doc::none().push(doc::word(list.query@)) + run_args(*list));
    doc.line("{} ({}); {} visited, {}\n", args);
    let ghost start = doc@;
    let roots: Vec<Root> = roots_of(&files);
    let ghost all_roots = root_views(roots@);
    for i in 0..roots.len()
        invariant
            all == file_views(files@),
            all.len() == files.len(),
            all_roots == root_views(roots@),
            forall|k: int| 0 <= k < roots.len() ==> (#[trigger] roots@[k]).at < files.len(),
            doc@ == trees(all, start, all_roots.take(i as int), all.len()),
    {
        proof {
            counting::one_more(all_roots, i as int);
            assert(all_roots[i as int] == roots@[i as int]@);
        }
        put_node(&mut doc, &files, roots[i].at, 0, By::Root, files.len());
    }
    proof {
        counting::take_all(all_roots);
    }
    doc
}

impl Format {
    /// A list as this format prints it, given the list as JSON: what goes to the caller.
    pub fn render(&self, list: &ReadingList, json: &str) -> (doc: Doc)
        ensures
            doc@ == match *self {
                Format::Json => DocView::empty().text(json@).text("\n"@),
                Format::Md => md_of(*list),
                Format::Tree => tree_of(*list),
            },
    {
        match *self {
            Format::Json => {
                let mut doc: Doc = Doc::new();
                doc.text(json);
                doc.text("\n");
                doc
            },
            Format::Md => md(list),
            Format::Tree => tree(list),
        }
    }
}

/// Whether no two files have the same path.
pub open spec fn distinct(files: Seq<FileView>) -> bool {
    forall|i: int, j: int|
        0 <= i < j < files.len() ==> (#[trigger] files[i]).path != (#[trigger] files[j]).path
}

/// Whether no file follows two links to the same target.
pub open spec fn follows_once(files: Seq<FileView>) -> bool {
    forall|a: int, i: int, j: int|
        #![trigger files[a].links[i], files[a].links[j]]
        0 <= a < files.len() && 0 <= i < j < files[a].links.len() && files[a].links[i].followed
            && files[a].links[j].followed ==> files[a].links[i].target
            != files[a].links[j].target
}

proof fn a_child_is_reached(files: Seq<FileView>, link: LinkView, at: int)
    requires
        distinct(files),
        0 <= at < files.len(),
        child(files, link, at) is Some,
    ensures
        0 <= child(files, link, at)->0 < files.len(),
        files[child(files, link, at)->0].path == link.target,
        parent(files, child(files, link, at)->0) == Some(at),
{
    let c = child(files, link, at)->0;
    find_is_inside(files, link.target);
    find_is_inside(files, files[c].via.last());
    let p = parent(files, c)->0;
    if p < at {
        assert(files[p].path != files[at].path);
    }
    if at < p {
        assert(files[at].path != files[p].path);
    }
}

/// A file is printed once, under the link that reached it: no two links of a walk stand for the
/// same file, and a root hangs from none.
pub proof fn a_file_hangs_from_one_link(
    files: Seq<FileView>,
    a: int,
    i: int,
    b: int,
    j: int,
)
    requires
        distinct(files),
        follows_once(files),
        0 <= a < files.len(),
        0 <= i < files[a].links.len(),
        0 <= b < files.len(),
        0 <= j < files[b].links.len(),
        child(files, files[a].links[i], a) is Some,
        child(files, files[a].links[i], a) == child(files, files[b].links[j], b),
    ensures
        a == b,
        i == j,
        parent(files, child(files, files[a].links[i], a)->0) is Some,
{
    a_child_is_reached(files, files[a].links[i], a);
    a_child_is_reached(files, files[b].links[j], b);
    if i < j {
        assert(files[a].links[i].target != files[a].links[j].target);
    }
    if j < i {
        assert(files[a].links[j].target != files[a].links[i].target);
    }
}

/// Whether files follow each other down from a root, each reached by the one before.
spec fn is_chain(files: Seq<FileView>, chain: Seq<int>) -> bool {
    &&& chain.len() > 0
    &&& forall|k: int| 0 <= k < chain.len() ==> 0 <= #[trigger] chain[k] < files.len()
    &&& parent(files, chain[0]) is None
    &&& forall|k: int|
        0 < k < chain.len() ==> parent(files, #[trigger] chain[k]) == Some(chain[k - 1])
}

proof fn a_chain_never_returns(files: Seq<FileView>, chain: Seq<int>, i: int, j: int)
    requires
        is_chain(files, chain),
        0 <= i < j < chain.len(),
    ensures
        chain[i] != chain[j],
    decreases i,
{
    if chain[i] == chain[j] {
        assert(parent(files, chain[j]) == Some(chain[j - 1]));
        if i > 0 {
            assert(parent(files, chain[i]) == Some(chain[i - 1]));
            a_chain_never_returns(files, chain, i - 1, j - 1);
        }
    }
}

proof fn a_chain_is_short(files: Seq<FileView>, chain: Seq<int>)
    requires
        is_chain(files, chain),
    ensures
        chain.len() <= files.len(),
{
    assert(chain.no_duplicates()) by {
        assert forall|i: int, j: int| 0 <= i < chain.len() && 0 <= j < chain.len() && i != j implies
            chain[i] != chain[j] by {
            if i < j {
                a_chain_never_returns(files, chain, i, j);
            } else {
                a_chain_never_returns(files, chain, j, i);
            }
        }
    }
    chain.unique_seq_to_set();
    let places = vstd::set_lib::set_int_range(0, files.len() as int);
    vstd::set_lib::lemma_int_range(0, files.len() as int);
    assert(chain.to_set().subset_of(places)) by {
        assert forall|at: int| chain.to_set().contains(at) implies places.contains(at) by {
            let k = choose|k: int| 0 <= k < chain.len() && chain[k] == at;
            assert(0 <= chain[k] < files.len());
        }
    }
    vstd::set_lib::lemma_len_subset(chain.to_set(), places);
}

proof fn a_node_needs_no_more(
    files: Seq<FileView>,
    doc: DocView,
    chain: Seq<int>,
    depth: nat,
    by: By,
    fuel: nat,
    more: nat,
)
    requires
        distinct(files),
        is_chain(files, chain),
        fuel + chain.len() > files.len(),
    ensures
        node(files, doc, chain.last(), depth, by, fuel) == node(
            files,
            doc,
            chain.last(),
            depth,
            by,
            fuel + more,
        ),
    decreases fuel, 0nat,
{
    a_chain_is_short(files, chain);
    let at = chain.last();
    branches_need_no_more(
        files,
        head(doc, files[at], depth, by),
        chain,
        depth,
        files[at].links.len(),
        (fuel - 1) as nat,
        more,
    );
    assert((fuel + more - 1) as nat == (fuel - 1) as nat + more);
}

proof fn branches_need_no_more(
    files: Seq<FileView>,
    doc: DocView,
    chain: Seq<int>,
    depth: nat,
    n: nat,
    fuel: nat,
    more: nat,
)
    requires
        distinct(files),
        is_chain(files, chain),
        fuel + 1 + chain.len() > files.len(),
    ensures
        branches(files, doc, chain.last(), depth, n, fuel) == branches(
            files,
            doc,
            chain.last(),
            depth,
            n,
            fuel + more,
        ),
    decreases fuel, n,
{
    if n > 0 {
        let at = chain.last();
        branches_need_no_more(files, doc, chain, depth, (n - 1) as nat, fuel, more);
        let before = branches(files, doc, at, depth, (n - 1) as nat, fuel);
        let link = files[at].links[n - 1];
        match child(files, link, at) {
            Some(c) => {
                assert(chain[chain.len() - 1] == at);
                a_child_is_reached(files, link, at);
                let longer = chain.push(c);
                assert(is_chain(files, longer)) by {
                    assert forall|k: int| 0 < k < longer.len() implies parent(
                        files,
                        #[trigger] longer[k],
                    ) == Some(longer[k - 1]) by {
                        if k < chain.len() {
                            assert(longer[k] == chain[k]);
                        }
                    }
                }
                assert(longer.last() == c);
                a_node_needs_no_more(
                    files,
                    before,
                    longer,
                    depth + 1,
                    By::Link(link.scent),
                    fuel,
                    more,
                );
            },
            None => {},
        }
    }
}

proof fn roots_are_inside(files: Seq<FileView>, n: int, k: int)
    requires
        0 <= n <= files.len(),
        0 <= k < roots_among(files, n).len(),
    ensures
        0 <= roots_among(files, n)[k].at < n,
        parent(files, roots_among(files, n)[k].at) is None,
    decreases n,
{
    if n > 0 && k < roots_among(files, n - 1).len() {
        roots_are_inside(files, n - 1, k);
    }
}

/// The tree is the whole walk: where no two files have the same path, files could be nested as deep
/// as one likes and nothing more would be printed.
pub proof fn the_tree_is_whole(files: Seq<FileView>, doc: DocView, more: nat)
    requires
        distinct(files),
    ensures
        trees(files, doc, roots(files), files.len()) == trees(
            files,
            doc,
            roots(files),
            files.len() + more,
        ),
{
    let among = roots_among(files, files.len() as int);
    let lt = |a: RootView, b: RootView| text::before(a.path, b.path);
    assert forall|k: int| 0 <= k < roots(files).len() implies {
        &&& 0 <= (#[trigger] roots(files)[k]).at < files.len()
        &&& parent(files, roots(files)[k].at) is None
    } by {
        sorting::sorted_holds(among, lt, roots(files)[k]);
        assert(roots(files).contains(roots(files)[k]));
        let m = choose|m: int| 0 <= m < among.len() && among[m] == roots(files)[k];
        roots_are_inside(files, files.len() as int, m);
    }
    trees_need_no_more(files, doc, roots(files), more);
}

proof fn trees_need_no_more(files: Seq<FileView>, doc: DocView, list: Seq<RootView>, more: nat)
    requires
        distinct(files),
        forall|k: int|
            0 <= k < list.len() ==> 0 <= (#[trigger] list[k]).at < files.len() && parent(
                files,
                list[k].at,
            ) is None,
    ensures
        trees(files, doc, list, files.len()) == trees(files, doc, list, files.len() + more),
    decreases list.len(),
{
    if list.len() > 0 {
        trees_need_no_more(files, doc, list.drop_last(), more);
        assert(list[list.len() - 1] == list.last());
        let chain = seq![list.last().at];
        assert(is_chain(files, chain));
        a_node_needs_no_more(
            files,
            trees(files, doc, list.drop_last(), files.len()),
            chain,
            0,
            By::Root,
            files.len(),
            more,
        );
    }
}

} // verus!
