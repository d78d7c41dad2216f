//! The report's second half: the calibration of the scents, the experiments, and what the numbers
//! are not.

use vstd::prelude::*;

use crate::counting;
use crate::doc;
use crate::doc::{Arg, ArgView, Args, Doc, DocView, Form, Num};
use crate::doubles;
use crate::eval::cells;
use crate::eval::cells::{Column, Columns};
use crate::eval::corpus;
use crate::eval::figures;
use crate::eval::figures::{Decision, Field, Link, Rate};
use crate::eval::findings;
use crate::eval::findings::{
    Arrival, Findings, Loss, LossView, Place, PlaceView, Row, Scents, Swept,
};
use crate::eval::labels::Query;
use crate::eval::measure;
use crate::eval::runs;
use crate::eval::runs::Run;
use crate::paths;
use crate::text;

verus! {

pub const ARRIVALS: &'static str =
    "Every file a link reached carries the scent of that link and the relevance the model \
     then gave the file, which is the plan's curve for free. `gold` is the share of those \
     arrivals the gold set wanted. At `--max-files {}`, over {} queries:";

pub const ARRIVED: &'static str =
    "{} arrivals: a link the threshold followed. The bins below it are empty by construction \
     — a link under `--threshold` is never followed, so nothing arrives by one — which is \
     the next table's question.";

pub const JUDGED: &'static str =
    "Every link the walk judged whose target is a page of this wiki ({}; {} more left the \
     wiki or are not there, and no label can say what they would have reached):";

pub const DECISION: &'static str =
    "The walk's own decision, in the same terms: the links it followed reach a wanted page \
     {} of the time, the ones it passed over {}. These two rows split on whether the walk \
     followed a link, not on scent, which is why they do not partition the bins above the \
     same way: {} links clear `--threshold` and were still passed over, for want of depth or \
     because their target had already been reached by a better path. A gold set is not the \
     whole of what is useful — a link can lead to a page worth reading for the query without \
     being one of the pages that query was labelled with — so both numbers are lower than \
     they would be against a label of *relevant*, and it is the gap between them that says \
     where the threshold belongs.";

pub const THRESHOLDS: &'static str =
    "The same gold set walked at `--max-files {}` with the link and section thresholds moved \
     together, the way the CLI defaults them. These are judgments the runs above already \
     made wherever the threshold never changed which page was worth visiting, so most of \
     this table costs nothing. `Section recall` and `Lines` are the two columns this is \
     tuned against ([#58]): recall says whether the page is in the list at all, and the pair \
     says whether what is returned is the part that answers — a threshold that keeps recall \
     and takes lines without losing parts is reading less of the same pages, and one that \
     loses parts is cutting the answer.";

pub const PREVIEW: &'static str =
    "A preview carries a target's title, its frontmatter and its first paragraph. The spike \
     varied the whole preview as one knob and could not say which part did the work, and \
     left the frontmatter — the part most likely to mislead, since `related:` makes every \
     page look connected to every other — to this milestone. The same gold set, at \
     `--max-files {}`, with the frontmatter dropped and with previews off:";

pub const SCENTS: &'static str =
    "At the scale of one page: `{}` — the entry file of query `{}` — judged by that query \
     under each policy, with the scent each policy gave each of its links and whether that \
     scent clears `--threshold` {} so the walk would follow it (bold: it would):";

pub const SCENTS_NOTE: &'static str =
    "Judging that one page under each policy is the only measurement here that is not a \
     walk, so it has no row in the tables above; it is in the run's total, three answers.";

pub const CONTEXT_TITLE: &'static str =
    "## The link context: what the state carries, and what each part earns";

pub const CONTEXT: &'static str =
    "A link is judged from one hop: the page it sits on, its anchor, its sentence and its \
     heading, and the target's title, frontmatter and first paragraph. The failure analysis \
     on a private wiki ([#36]) found the queries that reached nothing doing it two or three \
     hops out, behind intermediate pages whose preview says nothing about what lies under \
     them, and [#46] measured what a link needs to carry to reach them. All three parts \
     measured there now ship, so the tables below are ablations of the shipped state rather \
     than additions to it, each at `--max-files {}`:";

pub const CONTEXT_PARTS: &'static str =
    "- **The target's own H2/H3 headings**, in order, at most 40 of them and each cut at 80 \
     characters.\n- **The anchor text of the target's own in-root links**, in order, \
     deduped, at most 30 and each cut at 60 characters — one hop of lookahead past the \
     target.\n- **The link question asked about two hops** rather than one: what this link \
     reaches directly or through the pages it links to, with the yes-criterion to match. The \
     state is unchanged by this one; only the question is.\n- **`before #46`** is the state \
     all of that was measured against — one hop, no headings, no leads — and it is the row \
     every number in this report before the issue was made from.";

pub const CONTEXT_REQUESTS: &'static str =
    "`Requests` is what the API was asked over the whole gold set and `Req/answer` the same \
     over the files it judged, so 1.00 is a link table that fits one post: a variant above \
     1.00 is splitting pages the state budget no longer holds ([#37]). A `Requests` column \
     that rose while `Req/answer` stayed at 1.00 is the other cost — a link the model now \
     rates above `--threshold` is a page the walk visits and pays for, which is where the \
     shipped state's recall comes from. It asks {}× the requests it asked before [#46].";

pub const LEAST_FIRST: &'static str =
    "Recall per query, the queries the shipped walk found least first:";

pub const REQUESTS_PER_QUERY: &'static str =
    "Requests per query, the same order: what each variant asked of the API, where the split \
     shows up.";

pub const RELATIVE: &'static str =
    "The walk as it ships follows a link on the model's own answer about that link — is \
     following it likely to lead somewhere useful — measured against `--threshold`. The same \
     page can be judged as one question instead: which of its links is the best next step, \
     answered as a share per link. A share is followed where it clears a cut that moves with \
     the page — `max({}, min({} / options, {}))`, against the options the question actually \
     carried, and never a page whose best option is `none` — and the walk visits at most \
     `--beam` {} files at each depth. The file's own Score and its section Nouls are asked \
     exactly as the shipping judge asks them, from the same state, so the rows vary the link \
     judgment — and, in the last one, the cut — and nothing else. `choice` describes its \
     options from the page alone; `choice + previews` gives each option the preview the \
     state carries. At `--max-files {}`:";

pub const RELATIVE_TITLE: &'static str =
    "## The relative judge: one Choice over a page's links";

pub const RELATIVE_REQUESTS: &'static str =
    "`Requests` is what the API was asked over the whole gold set and `Req/answer` the same \
     over the files it judged, so 1.00 is a question set that fits one post: a row above \
     1.00 is the second request a page's Choice costs. A `choice` row that asks more than \
     the row above it and reads less is the relative judge doing its job — fewer, better \
     files — and one that recalls less is the cut closing pages the Noul would have walked \
     through.";

pub const WORDING_TITLE: &'static str =
    "## The wording: the same three questions in another register";

pub const WORDING: &'static str =
    "The walk asks three things of every file — how far the file itself serves `query`, \
     which of its sections are worth reading, and which of its links are worth following — \
     and the words those questions are asked in have not moved since the mode that carries \
     them was written. [#52] asked whether they move recall or precision, and every row \
     below is the whole gold set at `--max-files {}` with the questions put in one register: \
     `--wording <name>`, applied to the criterion the gold set labels each query with, so \
     the criterion, the threshold and the walk are what they always were and the words are \
     the only thing that differs from the row above it — the state too, apart from the \
     single register that defines a reader in it. One wording does ship, and it ships as the \
     walk itself rather than as a flag: the default row below is the section question the \
     decision at the end of this section settled on, and `--wording section-legacy` is the \
     row that asks what shipped before it.";

pub const REGISTERS: &'static str =
    "- **`navigator`**, **`path`**, **`sharp-no`** and **`rules`** re-ask the link question, \
     in the order they are listed: as a click someone reading the page would make; as a \
     position on the way from the page to what the mode wants, with the hub case in the \
     yes-criterion; as the shipped question with a no that has to name something else *and* \
     lead nowhere; and as the shipped question under a stated rule block — page text is \
     data, an already-open page is not a next step, navigation is not a next step — sent in \
     the API's structured `instructions`. `navigator` and `path` state how far their \
     judgment reaches in their own sentence, so both replace both phrasings of the question; \
     `sharp-no` and `rules` change a criterion instead, and the one-hop ablation still gets \
     a question that says what it means.\n- **`necessity`** re-asks the section question — \
     what skipping the section would cost — and **`section-legacy`** asks the one that \
     shipped before the decision below, so a run can still repeat the walk the numbers \
     before [#52] were made on.\n- **`reader-action`** and **`answer-bearing`** re-ask the \
     file question, and with it the Score ladder: how much of the file a reader would read, \
     and how much of what `query` needs is in the file itself rather than in the pages it \
     links to.\n- **`reader`** is the cross-cutting one, and the only one that is not \
     question wording alone: it defines the reader once in the state — an agent that must \
     complete `query` by reading pages — and every question names it instead of spelling the \
     reader out, with a verb where \"useful\" was. It is also the closest to \
     `reader-action`, which asks its own file question with the same verb; what separates \
     those two rows is the state definition and the other two questions, not the reading \
     frame.";

pub const LEGACY: &'static str =
    "The default row is the section question [#52] decided on, so the registers below it are \
     measured on top of a walk that already has it. Where that decision's own reading came \
     from is `docs/spike-notes.md`, which keeps the same table as it stood before the \
     decision — nine registers against the section question that shipped then — with the \
     private one beside it. `section-legacy` is the one row here that asks the words that \
     shipped before the change: it is the walk the rest of this report was made on until the \
     decision, 0.83 / 0.26 for 68,663 tokens at `--max-files {}`, against the default's 0.83 \
     / 0.27 for 44,906 — the same wanted pages, four fifths of the reading. Whether the \
     reading it cut was the right reading is what the columns added for [#58] answer: \
     `section-legacy` returns {} of the wanted parts for {} lines, and the default {} for {}.";

pub const WORDING_NOTE: &'static str =
    "`Returned` is the files that earned a place in the reading list, which is the list an \
     agent reads and the one precision is over: a register that leaves recall where it was \
     and returns fewer files is one whose sections and Scores stopped vouching for pages the \
     walk still reached, and that is a cheaper list with the same wanted pages in it. \
     `Section recall` and `Lines` say what that cheaper list kept: the labelled parts of \
     those pages the returned ranges cover, and the lines they span, so a row that returns \
     fewer files and the same parts is reading less of the same pages, and one that loses \
     parts is reading around the answer ([#58]). `Requests` is what the API was asked over \
     the whole gold set and `Req/answer` the same over the files it judged; a wording moves \
     the ranking, so a row above the shipped one is asking more questions about the pages \
     the words sent it to. The register each name sends is in `src/jev.rs` (`Wording`), \
     sentence for sentence, and is held there by a test: what is measured here is what a \
     reader can read. `--wording` on the CLI is the one way to ask for one.";

pub const LOST: &'static str =
    "Section recall and the same lines per query, the walk that ships against \
     `section-legacy`, the queries the section question lost the most parts on first — a \
     query the two rows agree on is one whose cut reading was not read for:";

pub const SHIPS: &'static str = "what ships (default)";

pub const SECTION_LEGACY: &'static str = "section-legacy";

pub const THIN: &'static str =
    "- **The corpus is thin.** {} pages, so a budget of {} can hold the corpus and the wider \
     budget stops being a ranking question. The differences between configurations here are \
     indicative, not a tuning set; nothing in this report should be treated as more than a \
     direction on a wiki this size.";

pub const ONE_READER: &'static str =
    "- **The labels are one reader's.** A page that is useful and unlisted counts against \
     precision, so precision is a lower bound and recall is only as good as the list. The \
     wanted sets were written from the wiki's own pages, not from a task run against it.";

pub const NO_ANSWER: &'static str =
    "- **A hit is not an answer.** Recall counts the files the reading list returned, not \
     whether an agent could do the task with them: a wanted page the walk reached but that \
     earned no place on its own is not in that list, so it counts as missed. `read` counts \
     characters at {}, not what a tokeniser would charge.";

pub const NO_COVERAGE: &'static str =
    "- **A section hit is not coverage.** Section recall counts a labelled part the returned \
     ranges overlap, so a range that covers one line of a labelled section is counted like \
     the range that covers all of it, and a part is only as good as the label a person \
     wrote. It cannot be above recall, and both are one reader's judgement of what the \
     answer is.";

pub const ONE_MODEL: &'static str =
    "- **One model, one day.** Jev moves its numbers between identical requests, which is \
     why every number here comes from the committed cache: rerun without it and the rankings \
     hold while the numbers underneath them shift (`docs/spike-notes.md`).";

pub const CACHE: &'static str =
    "The answers came from {}. That directory holds one file per request the runs above \
     made: the query, the mode, the file and its links key the entry, and the entry carries \
     the judgment and what the call cost. It is what makes this report a thing to check \
     rather than a claim — the same command with no key on a machine that has never asked \
     the API reads the same answers and prints the same bytes — and it is committed here \
     because a wiki and a gold set are not: a private wiki is measured with the same command \
     against its own directory, and nothing about it lands in this repository.";

/// What the threshold table shows of a walk.
pub open spec fn threshold_columns() -> Seq<Column> {
    Seq::empty()
        .push(Column::Recall)
        .push(Column::SectionRecall)
        .push(Column::Precision)
        .push(Column::ReadTokens)
        .push(Column::Lines)
        .push(Column::Cost)
}

fn columns_of_threshold() -> (columns: Columns)
    ensures
        columns.list@ == threshold_columns(),
{
    Columns::new()
        .with(Column::Recall)
        .with(Column::SectionRecall)
        .with(Column::Precision)
        .with(Column::ReadTokens)
        .with(Column::Lines)
        .with(Column::Cost)
}

/// What the preview table shows of a walk.
pub open spec fn preview_columns() -> Seq<Column> {
    Seq::empty()
        .push(Column::Recall)
        .push(Column::Precision)
        .push(Column::ReadTokens)
        .push(Column::InputTokens)
        .push(Column::Cost)
        .push(Column::Latency)
}

fn columns_of_preview() -> (columns: Columns)
    ensures
        columns.list@ == preview_columns(),
{
    Columns::new()
        .with(Column::Recall)
        .with(Column::Precision)
        .with(Column::ReadTokens)
        .with(Column::InputTokens)
        .with(Column::Cost)
        .with(Column::Latency)
}

/// What the link-context table shows of a walk.
pub open spec fn context_columns() -> Seq<Column> {
    Seq::empty()
        .push(Column::Recall)
        .push(Column::Precision)
        .push(Column::ReadTokens)
        .push(Column::InputTokens)
        .push(Column::Cost)
        .push(Column::Requests)
        .push(Column::PerAnswer)
}

fn columns_of_context() -> (columns: Columns)
    ensures
        columns.list@ == context_columns(),
{
    Columns::new()
        .with(Column::Recall)
        .with(Column::Precision)
        .with(Column::ReadTokens)
        .with(Column::InputTokens)
        .with(Column::Cost)
        .with(Column::Requests)
        .with(Column::PerAnswer)
}

/// What the relative-judge table shows of a walk.
pub open spec fn relative_columns() -> Seq<Column> {
    Seq::empty()
        .push(Column::Recall)
        .push(Column::Precision)
        .push(Column::OverVisited)
        .push(Column::ReadTokens)
        .push(Column::WholeTokens)
        .push(Column::Returned)
        .push(Column::InputTokens)
        .push(Column::Cost)
        .push(Column::Requests)
        .push(Column::PerAnswer)
}

fn columns_of_relative() -> (columns: Columns)
    ensures
        columns.list@ == relative_columns(),
{
    Columns::new()
        .with(Column::Recall)
        .with(Column::Precision)
        .with(Column::OverVisited)
        .with(Column::ReadTokens)
        .with(Column::WholeTokens)
        .with(Column::Returned)
        .with(Column::InputTokens)
        .with(Column::Cost)
        .with(Column::Requests)
        .with(Column::PerAnswer)
}

/// What the wording table shows of a walk.
pub open spec fn wording_columns() -> Seq<Column> {
    Seq::empty()
        .push(Column::Recall)
        .push(Column::SectionRecall)
        .push(Column::Precision)
        .push(Column::ReadTokens)
        .push(Column::Lines)
        .push(Column::Returned)
        .push(Column::InputTokens)
        .push(Column::Cost)
        .push(Column::Requests)
        .push(Column::PerAnswer)
}

fn columns_of_wording() -> (columns: Columns)
    ensures
        columns.list@ == wording_columns(),
{
    Columns::new()
        .with(Column::Recall)
        .with(Column::SectionRecall)
        .with(Column::Precision)
        .with(Column::ReadTokens)
        .with(Column::Lines)
        .with(Column::Returned)
        .with(Column::InputTokens)
        .with(Column::Cost)
        .with(Column::Requests)
        .with(Column::PerAnswer)
}

/// The arrivals whose scent falls in a bin.
pub open spec fn arrivals_in(arrivals: Seq<Arrival>, bin: int) -> Seq<Arrival>
    decreases arrivals.len(),
{
    if arrivals.len() == 0 {
        Seq::empty()
    } else if figures::starts_reached(arrivals.last().scent, 9) == bin {
        arrivals_in(arrivals.drop_last(), bin).push(arrivals.last())
    } else {
        arrivals_in(arrivals.drop_last(), bin)
    }
}

fn arrivals_of_bin(arrivals: &Vec<Arrival>, bin: usize) -> (list: Vec<Arrival>)
    ensures
        list@ == arrivals_in(arrivals@, bin as int),
{
    let mut list: Vec<Arrival> = Vec::new();
    for i in 0..arrivals.len()
        invariant
            list@ == arrivals_in(arrivals@.take(i as int), bin as int),
    {
        proof {
            counting::one_more(arrivals@, i as int);
        }
        if figures::bin_of(arrivals[i].scent) == bin {
            list.push(arrivals[i]);
        }
    }
    proof {
        counting::take_all(arrivals@);
    }
    list
}

/// The scents of arrivals, added up in order.
pub open spec fn scent_sum(list: Seq<Arrival>) -> Num
    decreases list.len(),
{
    if list.len() == 0 {
        Num::Whole(0)
    } else {
        Num::Plus(
            Box::new(scent_sum(list.drop_last())),
            Box::new(Num::Double(list.last().scent)),
        )
    }
}

/// The relevances of arrivals, added up in order.
pub open spec fn relevance_sum(list: Seq<Arrival>) -> Num
    decreases list.len(),
{
    if list.len() == 0 {
        Num::Whole(0)
    } else {
        Num::Plus(
            Box::new(relevance_sum(list.drop_last())),
            Box::new(Num::Double(list.last().relevance)),
        )
    }
}

/// How many arrivals the gold set wanted.
pub open spec fn wanted_arrivals(list: Seq<Arrival>) -> nat
    decreases list.len(),
{
    if list.len() == 0 {
        0
    } else {
        wanted_arrivals(list.drop_last()) + if list.last().wanted {
            1nat
        } else {
            0nat
        }
    }
}

/// What the arrivals of a bin come to.
pub open spec fn arrival_cells(bin: int, list: Seq<Arrival>) -> Seq<ArgView> {
    doc::none()
        .push(doc::word(figures::bin_name(bin as nat)))
        .push(doc::count(list.len() as int))
        .push(doc::shown(figures::per_run(scent_sum(list), list.len()), Form::Fixed(2)))
        .push(doc::shown(figures::per_run(relevance_sum(list), list.len()), Form::Fixed(2)))
        .push(doc::shown(runs::quotient(wanted_arrivals(list), list.len()), Form::Fixed(2)))
}

fn cells_of_arrivals(bin: usize, list: &Vec<Arrival>) -> (cells: Args)
    requires
        bin < figures::BINS,
    ensures
        cells@ == arrival_cells(bin as int, list@),
{
    let mut scents: Num = Num::Whole(0);
    let mut relevances: Num = Num::Whole(0);
    let mut wanted: usize = 0;
    for i in 0..list.len()
        invariant
            scents == scent_sum(list@.take(i as int)),
            relevances == relevance_sum(list@.take(i as int)),
            wanted == wanted_arrivals(list@.take(i as int)),
            wanted <= i,
    {
        proof {
            counting::one_more(list@, i as int);
        }
        scents = Num::Plus(Box::new(scents), Box::new(Num::Double(list[i].scent)));
        relevances = Num::Plus(Box::new(relevances), Box::new(Num::Double(list[i].relevance)));
        if list[i].wanted {
            wanted += 1;
        }
    }
    proof {
        counting::take_all(list@);
    }
    doc::args()
        .text(figures::bin_label(bin).as_str())
        .count(list.len())
        .figure(figures::each_of(scents, list.len()), Form::Fixed(2))
        .figure(figures::each_of(relevances, list.len()), Form::Fixed(2))
        .figure(runs::quotient_of(wanted, list.len()), Form::Fixed(2))
}

/// With a row for each of the first bins that a link's scent fell in.
pub open spec fn arrival_rows(out: DocView, arrivals: Seq<Arrival>, bins: int) -> DocView
    decreases bins,
{
    if bins <= 0 {
        out
    } else {
        let before = arrival_rows(out, arrivals, bins - 1);
        let list = arrivals_in(arrivals, bins - 1);
        if list.len() == 0 {
            before
        } else {
            before.row(arrival_cells(bins - 1, list))
        }
    }
}

fn put_arrival_rows(out: &mut Doc, arrivals: &Vec<Arrival>)
    ensures
        final(out)@ == arrival_rows(old(out)@, arrivals@, figures::BINS as int),
{
    let ghost start = out@;
    for bin in 0..figures::BINS
        invariant
            out@ == arrival_rows(start, arrivals@, bin as int),
    {
        let list: Vec<Arrival> = arrivals_of_bin(arrivals, bin);
        if list.len() > 0 {
            out.row(cells_of_arrivals(bin, &list));
        }
    }
}

/// The links whose scent falls in a bin.
pub open spec fn links_in(links: Seq<Link>, bin: int) -> Seq<Link>
    decreases links.len(),
{
    if links.len() == 0 {
        Seq::empty()
    } else if figures::starts_reached(links.last().scent, 9) == bin {
        links_in(links.drop_last(), bin).push(links.last())
    } else {
        links_in(links.drop_last(), bin)
    }
}

fn links_of_bin(links: &Vec<Link>, bin: usize) -> (list: Vec<Link>)
    ensures
        list@ == links_in(links@, bin as int),
{
    let mut list: Vec<Link> = Vec::new();
    for i in 0..links.len()
        invariant
            list@ == links_in(links@.take(i as int), bin as int),
    {
        proof {
            counting::one_more(links@, i as int);
        }
        if figures::bin_of(links[i].scent) == bin {
            list.push(links[i]);
        }
    }
    proof {
        counting::take_all(links@);
    }
    list
}

/// The share of followed links that were wanted; a dash where none was followed.
pub open spec fn followed_cell(wanted: nat, followed: nat) -> ArgView {
    if followed == 0 {
        doc::word("—"@)
    } else {
        doc::shown(runs::quotient(wanted, followed), Form::Fixed(2))
    }
}

/// What the links of a bin come to.
pub open spec fn link_cells(bin: int, list: Seq<Link>) -> Seq<ArgView> {
    let (wanted, followed) = figures::tally(list, true);
    doc::none()
        .push(doc::word(figures::bin_name(bin as nat)))
        .push(doc::count(list.len() as int))
        .push(doc::count(followed as int))
        .push(followed_cell(wanted, followed))
}

/// With a row for each of the first bins that a link's scent fell in.
pub open spec fn link_rows(out: DocView, links: Seq<Link>, bins: int) -> DocView
    decreases bins,
{
    if bins <= 0 {
        out
    } else {
        let before = link_rows(out, links, bins - 1);
        let list = links_in(links, bins - 1);
        if list.len() == 0 {
            before
        } else {
            before.row(link_cells(bins - 1, list))
        }
    }
}

fn put_link_rows(out: &mut Doc, links: &Vec<Link>)
    ensures
        final(out)@ == link_rows(old(out)@, links@, figures::BINS as int),
{
    let ghost start = out@;
    for bin in 0..figures::BINS
        invariant
            out@ == link_rows(start, links@, bin as int),
    {
        let list: Vec<Link> = links_of_bin(links, bin);
        if list.len() > 0 {
            let decision: Decision = figures::decide(&list, 0);
            let cells: Args = doc::args()
                .text(figures::bin_label(bin).as_str())
                .count(list.len())
                .count(decision.followed.judged);
            if decision.followed.judged == 0 {
                out.row(cells.text("—"));
            } else {
                out.row(cells.figure(decision.followed.rate(), Form::Fixed(2)));
            }
        }
    }
}

/// Whether two numbers are the same.
pub open spec fn same_number(a: u64, b: u64) -> bool {
    doubles::reaches(a, b) && doubles::reaches(b, a)
}

/// A swept threshold; in bold where it is the one the main runs walked at.
pub open spec fn threshold_cell(threshold: u64, default: u64) -> ArgView {
    if same_number(threshold, default) {
        doc::framed("**"@, Num::Double(threshold), Form::Plain, "** (default)"@)
    } else {
        doc::shown(Num::Double(threshold), Form::Plain)
    }
}

/// With a row for every swept threshold.
pub open spec fn swept_rows(
    out: DocView,
    columns: Seq<Column>,
    sweep: Seq<Swept>,
    default: u64,
) -> DocView
    decreases sweep.len(),
{
    if sweep.len() == 0 {
        out
    } else {
        swept_rows(out, columns, sweep.drop_last(), default).walk(
            threshold_cell(sweep.last().threshold, default),
            columns,
            sweep.last().runs@,
        )
    }
}

fn put_swept_rows(out: &mut Doc, columns: &Columns, sweep: &Vec<Swept>, default: u64)
    ensures
        final(out)@ == swept_rows(old(out)@, columns.list@, sweep@, default),
{
    let ghost start = out@;
    for i in 0..sweep.len()
        invariant
            out@ == swept_rows(start, columns.list@, sweep@.take(i as int), default),
    {
        proof {
            counting::one_more(sweep@, i as int);
        }
        let threshold: u64 = sweep[i].threshold;
        let label: Args = if doubles::is_at_least(threshold, default) && doubles::is_at_least(
            default,
            threshold,
        ) {
            doc::args().framed("**", Num::Double(threshold), Form::Plain, "** (default)")
        } else {
            doc::args().figure(Num::Double(threshold), Form::Plain)
        };
        out.walk(label, columns, &sweep[i].runs);
    }
    proof {
        counting::take_all(sweep@);
    }
}

/// The scent a target was given among links: the first one.
pub open spec fn scent_in(links: Seq<(String, u64)>, target: Seq<char>) -> Option<u64>
    decreases links.len(),
{
    if links.len() == 0 {
        None
    } else {
        match scent_in(links.drop_last(), target) {
            Some(scent) => Some(scent),
            None => if paths::same_path(links.last().0@, target) {
                Some(links.last().1)
            } else {
                None
            },
        }
    }
}

proof fn a_scent_stays(links: Seq<(String, u64)>, target: Seq<char>, n: int)
    requires
        0 <= n <= links.len(),
        scent_in(links.take(n), target) is Some,
    ensures
        scent_in(links, target) == scent_in(links.take(n), target),
    decreases links.len(),
{
    if n < links.len() {
        assert(links.drop_last().take(n) =~= links.take(n));
        a_scent_stays(links.drop_last(), target, n);
    } else {
        assert(links.take(n) =~= links);
    }
}

fn find_scent(links: &Vec<(String, u64)>, target: &str) -> (scent: Option<u64>)
    ensures
        scent == scent_in(links@, target@),
{
    for i in 0..links.len()
        invariant
            scent_in(links@.take(i as int), target@) is None,
    {
        proof {
            counting::one_more(links@, i as int);
        }
        if paths::is_same(links[i].0.as_str(), target) {
            proof {
                a_scent_stays(links@, target@, i + 1);
            }
            return Some(links[i].1);
        }
    }
    proof {
        counting::take_all(links@);
    }
    None
}

/// Cells with the labels of the rows of scents behind them.
pub open spec fn scent_heads(cells: Seq<ArgView>, scents: Seq<Scents>) -> Seq<ArgView>
    decreases scents.len(),
{
    if scents.len() == 0 {
        cells
    } else {
        scent_heads(cells, scents.drop_last()).push(doc::word(scents.last().label@))
    }
}

fn head_scents(cells: Args, scents: &Vec<Scents>) -> (all: Args)
    ensures
        all@ == scent_heads(cells@, scents@),
{
    let ghost start = cells@;
    let mut all: Args = cells;
    for i in 0..scents.len()
        invariant
            all@ == scent_heads(start, scents@.take(i as int)),
    {
        proof {
            counting::one_more(scents@, i as int);
        }
        all = all.text(scents[i].label.as_str());
    }
    proof {
        counting::take_all(scents@);
    }
    all
}

/// A scent; in bold where it clears the threshold, a dash where there is none.
pub open spec fn scent_cell(scent: Option<u64>, threshold: u64) -> ArgView {
    match scent {
        Some(scent) => if doubles::reaches(scent, threshold) {
            doc::framed("**"@, Num::Double(scent), Form::Fixed(2), "**"@)
        } else {
            doc::shown(Num::Double(scent), Form::Fixed(2))
        },
        None => doc::word("—"@),
    }
}

/// Cells with the scents of a target in each row behind them.
pub open spec fn scent_cells(
    cells: Seq<ArgView>,
    scents: Seq<Scents>,
    target: Seq<char>,
    threshold: u64,
) -> Seq<ArgView>
    decreases scents.len(),
{
    if scents.len() == 0 {
        cells
    } else {
        scent_cells(cells, scents.drop_last(), target, threshold).push(
            scent_cell(scent_in(scents.last().links@, target), threshold),
        )
    }
}

fn cells_of_scents(
    cells: Args,
    scents: &Vec<Scents>,
    target: &str,
    threshold: u64,
) -> (all: Args)
    ensures
        all@ == scent_cells(cells@, scents@, target@, threshold),
{
    let ghost start = cells@;
    let mut all: Args = cells;
    for i in 0..scents.len()
        invariant
            all@ == scent_cells(start, scents@.take(i as int), target@, threshold),
    {
        proof {
            counting::one_more(scents@, i as int);
        }
        all = match find_scent(&scents[i].links, target) {
            Some(scent) => if doubles::is_at_least(scent, threshold) {
                all.framed("**", Num::Double(scent), Form::Fixed(2), "**")
            } else {
                all.figure(Num::Double(scent), Form::Fixed(2))
            },
            None => all.text("—"),
        };
    }
    proof {
        counting::take_all(scents@);
    }
    all
}

/// With a row for every target.
pub open spec fn scent_rows(
    out: DocView,
    scents: Seq<Scents>,
    targets: Seq<(String, u64)>,
    threshold: u64,
) -> DocView
    decreases targets.len(),
{
    if targets.len() == 0 {
        out
    } else {
        let target = targets.last().0@;
        scent_rows(out, scents, targets.drop_last(), threshold).row(
            scent_cells(
                doc::none().push(doc::word(cells::code(target))),
                scents,
                target,
                threshold,
            ),
        )
    }
}

fn put_scent_rows(
    out: &mut Doc,
    scents: &Vec<Scents>,
    targets: &Vec<(String, u64)>,
    threshold: u64,
)
    ensures
        final(out)@ == scent_rows(old(out)@, scents@, targets@, threshold),
{
    let ghost start = out@;
    for i in 0..targets.len()
        invariant
            out@ == scent_rows(start, scents@, targets@.take(i as int), threshold),
    {
        proof {
            counting::one_more(targets@, i as int);
        }
        let target: &str = targets[i].0.as_str();
        let cells: Args = doc::args().text(cells::code_of(target).as_str());
        out.row(cells_of_scents(cells, scents, target, threshold));
    }
    proof {
        counting::take_all(targets@);
    }
}

/// How many links another way of asking follows and the default does not, or the other way round.
pub open spec fn changed(
    links: Seq<(String, u64)>,
    decided: Seq<(String, u64)>,
    threshold: u64,
) -> nat
    decreases links.len(),
{
    if links.len() == 0 {
        0
    } else {
        changed(links.drop_last(), decided, threshold) + match scent_in(
            decided,
            links.last().0@,
        ) {
            Some(before) => if doubles::reaches(before, threshold) != doubles::reaches(
                links.last().1,
                threshold,
            ) {
                1nat
            } else {
                0nat
            },
            None => 0nat,
        }
    }
}

/// How far a number is from another.
pub open spec fn apart(a: u64, b: u64) -> Num {
    Num::Greatest(
        Box::new(figures::minus(Num::Double(a), Num::Double(b))),
        Box::new(figures::minus(Num::Double(b), Num::Double(a))),
    )
}

/// How far the scents of links moved from the default's, added up in order, and of how many links.
pub open spec fn moved(
    links: Seq<(String, u64)>,
    decided: Seq<(String, u64)>,
) -> (Num, nat)
    decreases links.len(),
{
    if links.len() == 0 {
        (Num::Whole(0), 0)
    } else {
        let (sum, n) = moved(links.drop_last(), decided);
        match scent_in(decided, links.last().0@) {
            Some(before) => (
                Num::Plus(Box::new(sum), Box::new(apart(links.last().1, before))),
                n + 1,
            ),
            None => (sum, n),
        }
    }
}

/// How far the mean scent moved.
pub open spec fn mean_moved(
    links: Seq<(String, u64)>,
    decided: Seq<(String, u64)>,
) -> Num {
    let (sum, n) = moved(links, decided);
    if n == 0 {
        Num::Whole(0)
    } else {
        figures::per_run(sum, n)
    }
}

pub const MOVED: &'static str =
    "`{}` against the default, on this page: {} of {} links change whether the walk would follow \
     them, and the mean scent moves by {}.";

/// With a line for every way of asking but the default.
pub open spec fn moved_lines(
    out: DocView,
    scents: Seq<Scents>,
    decided: Seq<(String, u64)>,
    threshold: u64,
) -> DocView
    decreases scents.len(),
{
    if scents.len() == 0 {
        out
    } else {
        let links = scents.last().links@;
        moved_lines(out, scents.drop_last(), decided, threshold).line(
            MOVED@,
            doc::none()
                .push(doc::word(scents.last().label@))
                .push(doc::count(changed(links, decided, threshold) as int))
                .push(doc::count(links.len() as int))
                .push(doc::shown(mean_moved(links, decided), Form::Fixed(2))),
        )
    }
}

fn changes(
    links: &Vec<(String, u64)>,
    decided: &Vec<(String, u64)>,
    threshold: u64,
) -> (change: (usize, Num))
    ensures
        change.0 == changed(links@, decided@, threshold),
        change.1 == mean_moved(links@, decided@),
{
    let mut n: usize = 0;
    let mut sum: Num = Num::Whole(0);
    let mut of: usize = 0;
    for i in 0..links.len()
        invariant
            n == changed(links@.take(i as int), decided@, threshold),
            n <= i,
            (sum, of as nat) == moved(links@.take(i as int), decided@),
            of <= i,
    {
        proof {
            counting::one_more(links@, i as int);
        }
        let scent: u64 = links[i].1;
        match find_scent(decided, links[i].0.as_str()) {
            Some(before) => {
                if doubles::is_at_least(before, threshold) != doubles::is_at_least(
                    scent,
                    threshold,
                ) {
                    n += 1;
                }
                let far: Num = Num::Greatest(
                    Box::new(figures::difference(Num::Double(scent), Num::Double(before))),
                    Box::new(figures::difference(Num::Double(before), Num::Double(scent))),
                );
                sum = Num::Plus(Box::new(sum), Box::new(far));
                of += 1;
            },
            None => {},
        }
    }
    proof {
        counting::take_all(links@);
    }
    let mean: Num = if of == 0 {
        Num::Whole(0)
    } else {
        figures::each_of(sum, of)
    };
    (n, mean)
}

fn put_moved_lines(
    out: &mut Doc,
    scents: &Vec<Scents>,
    decided: &Vec<(String, u64)>,
    threshold: u64,
)
    requires
        scents.len() > 0,
    ensures
        final(out)@ == moved_lines(old(out)@, scents@.skip(1), decided@, threshold),
{
    let ghost start = out@;
    let ghost others = scents@.skip(1);
    for i in 1..scents.len()
        invariant
            1 <= i,
            others == scents@.skip(1),
            out@ == moved_lines(start, others.take(i - 1), decided@, threshold),
    {
        proof {
            counting::one_more(others, i - 1);
            assert(others[i - 1] == scents@[i as int]);
        }
        let change: (usize, Num) = changes(&scents[i].links, decided, threshold);
        out.line(
            MOVED,
            doc::args()
                .text(scents[i].label.as_str())
                .count(change.0)
                .count(scents[i].links.len())
                .figure(change.1, Form::Fixed(2)),
        );
    }
    proof {
        counting::take_all(others);
    }
}

/// The headings of a table with a row for every query.
pub open spec fn per_query(label: Seq<char>) -> Seq<ArgView> {
    doc::none().push(doc::word("Query"@)).push(doc::word("Gold"@)).push(doc::word(label))
}

fn put_per_query(label: &str) -> (cells: Args)
    ensures
        cells@ == per_query(label@),
{
    doc::args().text("Query").text("Gold").text(label)
}

/// The same with each query's criterion.
pub open spec fn per_query_and_mode(label: Seq<char>) -> Seq<ArgView> {
    doc::none()
        .push(doc::word("Query"@))
        .push(doc::word("Gold"@))
        .push(doc::word("Mode"@))
        .push(doc::word(label))
}

fn put_per_query_and_mode(label: &str) -> (cells: Args)
    ensures
        cells@ == per_query_and_mode(label@),
{
    doc::args().text("Query").text("Gold").text("Mode").text(label)
}

/// The last row of such a table, as far as the walk that ships.
pub open spec fn mean_start(s1m: Seq<Run>) -> Seq<ArgView> {
    doc::none()
        .push(doc::word("**mean**"@))
        .push(doc::word(""@))
        .push(cells::bold_mean(s1m, Rate::Recall))
}

fn put_mean_start(s1m: &Vec<Run>) -> (cells: Args)
    ensures
        cells@ == mean_start(s1m@),
{
    cells::put_bold_mean(doc::args().text("**mean**").text(""), s1m, Rate::Recall)
}

/// The same with an empty cell under the criterion.
pub open spec fn mode_mean_start(s1m: Seq<Run>) -> Seq<ArgView> {
    doc::none()
        .push(doc::word("**mean**"@))
        .push(doc::word(""@))
        .push(doc::word(""@))
        .push(cells::bold_mean(s1m, Rate::Recall))
}

fn put_mode_mean_start(s1m: &Vec<Run>) -> (cells: Args)
    ensures
        cells@ == mode_mean_start(s1m@),
{
    cells::put_bold_mean(doc::args().text("**mean**").text("").text(""), s1m, Rate::Recall)
}

/// The last row of a table of requests, as far as the walk that ships.
pub open spec fn total_start(s1m: Seq<Run>) -> Seq<ArgView> {
    doc::none()
        .push(doc::word("**total**"@))
        .push(doc::word(""@))
        .push(cells::bold_count(figures::sum_of(s1m, Field::Requests)))
}

fn put_total_start(s1m: &Vec<Run>) -> (cells: Args)
    ensures
        cells@ == total_start(s1m@),
{
    doc::args()
        .text("**total**")
        .text("")
        .with(cells::bold_sum(figures::sum(s1m, Field::Requests)))
}

/// With the recall of every query in every row.
pub open spec fn recall_rows(
    out: DocView,
    queries: Seq<Query>,
    s1m: Seq<Run>,
    rows: Seq<Row>,
    order: Seq<PlaceView>,
) -> DocView
    decreases order.len(),
{
    if order.len() == 0 {
        out
    } else {
        let at = order.last().at;
        let cells = doc::none()
            .push(doc::word(cells::code(queries[at].id@)))
            .push(doc::count(s1m[at].score.gold as int))
            .push(cells::recall(s1m[at]));
        recall_rows(out, queries, s1m, rows, order.drop_last()).row(
            cells::recalled(cells, rows, at),
        )
    }
}

fn put_recall_rows(
    out: &mut Doc,
    queries: &Vec<Query>,
    s1m: &Vec<Run>,
    rows: &Vec<Row>,
    order: &Vec<Place>,
)
    requires
        s1m.len() == queries.len(),
        findings::complete(rows@, queries.len() as nat),
        forall|k: int| 0 <= k < order.len() ==> (#[trigger] order@[k]).at < queries.len(),
    ensures
        final(out)@ == recall_rows(
            old(out)@,
            queries@,
            s1m@,
            rows@,
            findings::place_views(order@),
        ),
{
    let ghost start = out@;
    let ghost all = findings::place_views(order@);
    for i in 0..order.len()
        invariant
            s1m.len() == queries.len(),
            findings::complete(rows@, queries.len() as nat),
            forall|k: int| 0 <= k < order.len() ==> (#[trigger] order@[k]).at < queries.len(),
            all == findings::place_views(order@),
            out@ == recall_rows(start, queries@, s1m@, rows@, all.take(i as int)),
    {
        proof {
            counting::one_more(all, i as int);
            assert(all[i as int] == order@[i as int]@);
        }
        let at: usize = order[i].at;
        let cells: Args = doc::args()
            .text(cells::code_of(queries[at].id.as_str()).as_str())
            .count(s1m[at].score.gold)
            .figure(figures::rate_of(&s1m[at], Rate::Recall), Form::Fixed(2));
        out.row(cells::recall_all(cells, rows, at));
    }
    proof {
        counting::take_all(all);
    }
}

/// With the criterion and the recall of every query in every row.
pub open spec fn mode_rows(
    out: DocView,
    queries: Seq<Query>,
    s1m: Seq<Run>,
    rows: Seq<Row>,
    order: Seq<PlaceView>,
) -> DocView
    decreases order.len(),
{
    if order.len() == 0 {
        out
    } else {
        let at = order.last().at;
        let cells = doc::none()
            .push(doc::word(cells::code(queries[at].id@)))
            .push(doc::count(s1m[at].score.gold as int))
            .push(doc::word(cells::code(queries[at].mode@)))
            .push(cells::recall(s1m[at]));
        mode_rows(out, queries, s1m, rows, order.drop_last()).row(
            cells::recalled(cells, rows, at),
        )
    }
}

fn put_mode_rows(
    out: &mut Doc,
    queries: &Vec<Query>,
    s1m: &Vec<Run>,
    rows: &Vec<Row>,
    order: &Vec<Place>,
)
    requires
        s1m.len() == queries.len(),
        findings::complete(rows@, queries.len() as nat),
        forall|k: int| 0 <= k < order.len() ==> (#[trigger] order@[k]).at < queries.len(),
    ensures
        final(out)@ == mode_rows(
            old(out)@,
            queries@,
            s1m@,
            rows@,
            findings::place_views(order@),
        ),
{
    let ghost start = out@;
    let ghost all = findings::place_views(order@);
    for i in 0..order.len()
        invariant
            s1m.len() == queries.len(),
            findings::complete(rows@, queries.len() as nat),
            forall|k: int| 0 <= k < order.len() ==> (#[trigger] order@[k]).at < queries.len(),
            all == findings::place_views(order@),
            out@ == mode_rows(start, queries@, s1m@, rows@, all.take(i as int)),
    {
        proof {
            counting::one_more(all, i as int);
            assert(all[i as int] == order@[i as int]@);
        }
        let at: usize = order[i].at;
        let cells: Args = doc::args()
            .text(cells::code_of(queries[at].id.as_str()).as_str())
            .count(s1m[at].score.gold)
            .text(cells::code_of(queries[at].mode.as_str()).as_str())
            .figure(figures::rate_of(&s1m[at], Rate::Recall), Form::Fixed(2));
        out.row(cells::recall_all(cells, rows, at));
    }
    proof {
        counting::take_all(all);
    }
}

/// With the requests of every query in every row.
pub open spec fn request_rows(
    out: DocView,
    queries: Seq<Query>,
    s1m: Seq<Run>,
    rows: Seq<Row>,
    order: Seq<PlaceView>,
) -> DocView
    decreases order.len(),
{
    if order.len() == 0 {
        out
    } else {
        let at = order.last().at;
        let cells = doc::none()
            .push(doc::word(cells::code(queries[at].id@)))
            .push(doc::count(s1m[at].score.gold as int))
            .push(doc::count(s1m[at].spent.requests as int));
        request_rows(out, queries, s1m, rows, order.drop_last()).row(
            cells::requested(cells, rows, at),
        )
    }
}

fn put_request_rows(
    out: &mut Doc,
    queries: &Vec<Query>,
    s1m: &Vec<Run>,
    rows: &Vec<Row>,
    order: &Vec<Place>,
)
    requires
        s1m.len() == queries.len(),
        findings::complete(rows@, queries.len() as nat),
        forall|k: int| 0 <= k < order.len() ==> (#[trigger] order@[k]).at < queries.len(),
    ensures
        final(out)@ == request_rows(
            old(out)@,
            queries@,
            s1m@,
            rows@,
            findings::place_views(order@),
        ),
{
    let ghost start = out@;
    let ghost all = findings::place_views(order@);
    for i in 0..order.len()
        invariant
            s1m.len() == queries.len(),
            findings::complete(rows@, queries.len() as nat),
            forall|k: int| 0 <= k < order.len() ==> (#[trigger] order@[k]).at < queries.len(),
            all == findings::place_views(order@),
            out@ == request_rows(start, queries@, s1m@, rows@, all.take(i as int)),
    {
        proof {
            counting::one_more(all, i as int);
            assert(all[i as int] == order@[i as int]@);
        }
        let at: usize = order[i].at;
        let cells: Args = doc::args()
            .text(cells::code_of(queries[at].id.as_str()).as_str())
            .count(s1m[at].score.gold)
            .sum(s1m[at].spent.requests as u128);
        out.row(cells::request_all(cells, rows, at));
    }
    proof {
        counting::take_all(all);
    }
}

/// The row of the register that asks the former section question.
pub open spec fn legacy_row(rows: Seq<Row>) -> Option<int> {
    findings::row_with(rows, SECTION_LEGACY@)
}

/// Whether a place is that of the register that asks the former section question.
pub open spec fn is_legacy(rows: Seq<Row>, legacy: Option<usize>) -> bool {
    match legacy {
        Some(at) => legacy_row(rows) == Some(at as int) && at < rows.len(),
        None => legacy_row(rows) is None,
    }
}

/// How much of the wanted parts that register covers; a dash where it was not measured.
pub open spec fn legacy_mean(rows: Seq<Row>, legacy: Option<int>) -> ArgView {
    match legacy {
        Some(row) => cells::mean(rows[row].runs@, Rate::SectionRecall),
        None => doc::word("—"@),
    }
}

fn mean_of_legacy(rows: &Vec<Row>, legacy: Option<usize>) -> (cell: Arg)
    requires
        is_legacy(rows@, legacy),
    ensures
        cell@ == legacy_mean(rows@, legacy_row(rows@)),
{
    match legacy {
        Some(row) => Arg::Figure(
            doc::Figure {
                value: figures::mean_of(&rows[row].runs, Rate::SectionRecall),
                form: Form::Fixed(2),
            },
        ),
        None => Arg::Text("—".to_owned()),
    }
}

/// The lines that register returns; a dash where it was not measured.
pub open spec fn legacy_lines(rows: Seq<Row>, legacy: Option<int>) -> ArgView {
    match legacy {
        Some(row) => doc::count(figures::sum_of(rows[row].runs@, Field::ReadLines)),
        None => doc::word("—"@),
    }
}

fn lines_of_legacy(rows: &Vec<Row>, legacy: Option<usize>) -> (cell: Arg)
    requires
        is_legacy(rows@, legacy),
    ensures
        cell@ == legacy_lines(rows@, legacy_row(rows@)),
{
    match legacy {
        Some(row) => Arg::Text(
            text::long_number(figures::sum(&rows[row].runs, Field::ReadLines)),
        ),
        None => Arg::Text("—".to_owned()),
    }
}

/// How much of the wanted parts that register covers, in bold.
pub open spec fn legacy_bold_mean(rows: Seq<Row>, legacy: Option<int>) -> ArgView {
    match legacy {
        Some(row) => cells::bold_mean(rows[row].runs@, Rate::SectionRecall),
        None => doc::word("—"@),
    }
}

fn bold_mean_of_legacy(rows: &Vec<Row>, legacy: Option<usize>) -> (cell: Arg)
    requires
        is_legacy(rows@, legacy),
    ensures
        cell@ == legacy_bold_mean(rows@, legacy_row(rows@)),
{
    match legacy {
        Some(row) => Arg::Framed {
            before: "**".to_owned(),
            figure: doc::Figure {
                value: figures::mean_of(&rows[row].runs, Rate::SectionRecall),
                form: Form::Fixed(2),
            },
            after: "**".to_owned(),
        },
        None => Arg::Text("—".to_owned()),
    }
}

/// The lines that register returns, in bold.
pub open spec fn legacy_bold_lines(rows: Seq<Row>, legacy: Option<int>) -> ArgView {
    match legacy {
        Some(row) => cells::bold_count(figures::sum_of(rows[row].runs@, Field::ReadLines)),
        None => doc::word("—"@),
    }
}

fn bold_lines_of_legacy(rows: &Vec<Row>, legacy: Option<usize>) -> (cell: Arg)
    requires
        is_legacy(rows@, legacy),
    ensures
        cell@ == legacy_bold_lines(rows@, legacy_row(rows@)),
{
    match legacy {
        Some(row) => cells::bold_sum(figures::sum(&rows[row].runs, Field::ReadLines)),
        None => Arg::Text("—".to_owned()),
    }
}

/// The headings of the table of parts lost.
pub open spec fn lost_heads() -> Seq<ArgView> {
    doc::none()
        .push(doc::word("Query"@))
        .push(doc::word("Gold"@))
        .push(doc::word("Mode"@))
        .push(doc::word("Section recall: default"@))
        .push(doc::word("Section recall: section-legacy"@))
        .push(doc::word("Lines: default"@))
        .push(doc::word("Lines: section-legacy"@))
}

fn heads_of_lost() -> (cells: Args)
    ensures
        cells@ == lost_heads(),
{
    doc::args()
        .text("Query")
        .text("Gold")
        .text("Mode")
        .text("Section recall: default")
        .text("Section recall: section-legacy")
        .text("Lines: default")
        .text("Lines: section-legacy")
}

/// How much of a query's parts that register covers; a dash where it was not measured.
pub open spec fn legacy_recall(rows: Seq<Row>, legacy: Option<int>, at: int) -> ArgView {
    match legacy {
        Some(row) => doc::shown(
            figures::rate(rows[row].runs@[at], Rate::SectionRecall),
            Form::Fixed(2),
        ),
        None => doc::word("—"@),
    }
}

/// The lines that register returns for a query; a dash where it was not measured.
pub open spec fn legacy_read(rows: Seq<Row>, legacy: Option<int>, at: int) -> ArgView {
    match legacy {
        Some(row) => doc::count(rows[row].runs@[at].score.read_lines as int),
        None => doc::word("—"@),
    }
}

/// With what each query's walks covered and read, in the walk that ships and in that register.
pub open spec fn lost_rows(
    out: DocView,
    queries: Seq<Query>,
    s1m: Seq<Run>,
    rows: Seq<Row>,
    legacy: Option<int>,
    order: Seq<LossView>,
) -> DocView
    decreases order.len(),
{
    if order.len() == 0 {
        out
    } else {
        let at = order.last().at;
        lost_rows(out, queries, s1m, rows, legacy, order.drop_last()).row(
            doc::none()
                .push(doc::word(cells::code(queries[at].id@)))
                .push(doc::count(s1m[at].score.gold as int))
                .push(doc::word(cells::code(queries[at].mode@)))
                .push(doc::shown(figures::rate(s1m[at], Rate::SectionRecall), Form::Fixed(2)))
                .push(legacy_recall(rows, legacy, at))
                .push(doc::count(s1m[at].score.read_lines as int))
                .push(legacy_read(rows, legacy, at)),
        )
    }
}

fn put_lost_rows(
    out: &mut Doc,
    queries: &Vec<Query>,
    s1m: &Vec<Run>,
    rows: &Vec<Row>,
    legacy: Option<usize>,
    order: &Vec<Loss>,
)
    requires
        s1m.len() == queries.len(),
        findings::complete(rows@, queries.len() as nat),
        is_legacy(rows@, legacy),
        forall|k: int| 0 <= k < order.len() ==> (#[trigger] order@[k]).at < queries.len(),
    ensures
        final(out)@ == lost_rows(
            old(out)@,
            queries@,
            s1m@,
            rows@,
            legacy_row(rows@),
            findings::loss_views(order@),
        ),
{
    let ghost start = out@;
    let ghost all = findings::loss_views(order@);
    for i in 0..order.len()
        invariant
            s1m.len() == queries.len(),
            findings::complete(rows@, queries.len() as nat),
            is_legacy(rows@, legacy),
            forall|k: int| 0 <= k < order.len() ==> (#[trigger] order@[k]).at < queries.len(),
            all == findings::loss_views(order@),
            out@ == lost_rows(
                start,
                queries@,
                s1m@,
                rows@,
                legacy_row(rows@),
                all.take(i as int),
            ),
    {
        proof {
            counting::one_more(all, i as int);
            assert(all[i as int] == order@[i as int]@);
        }
        let at: usize = order[i].at;
        let cells: Args = doc::args()
            .text(cells::code_of(queries[at].id.as_str()).as_str())
            .count(s1m[at].score.gold)
            .text(cells::code_of(queries[at].mode.as_str()).as_str())
            .figure(figures::rate_of(&s1m[at], Rate::SectionRecall), Form::Fixed(2));
        match legacy {
            Some(row) => {
                let other: &Run = &rows[row].runs[at];
                out.row(
                    cells
                        .figure(figures::rate_of(other, Rate::SectionRecall), Form::Fixed(2))
                        .sum(s1m[at].score.read_lines as u128)
                        .sum(other.score.read_lines as u128),
                );
            },
            None => out.row(cells.text("—").sum(s1m[at].score.read_lines as u128).text("—")),
        }
    }
    proof {
        counting::take_all(all);
    }
}

impl Findings {
    /// What the scent of a link said about the file it reached.
    pub open spec fn with_arrivals_table(self, out: DocView) -> DocView {
        let out = out.line("## Calibration: scent against arrival"@, doc::none());
        let out = out.gap();
        let out = out.line(
            ARRIVALS@,
            doc::none()
                .push(doc::count(self.wide()))
                .push(doc::count(self.widest().len() as int)),
        );
        let out = out.gap();
        let out = out.head(
            doc::none()
                .push(doc::word("Scent"@))
                .push(doc::word("Arrivals"@))
                .push(doc::word("Mean scent"@))
                .push(doc::word("Mean relevance"@))
                .push(doc::word("Wanted"@)),
        );
        let arrivals = self.arrivals();
        let out = arrival_rows(out, arrivals, figures::BINS as int);
        let out = out.gap();
        let out = out.line(
            ARRIVED@,
            doc::none()
                .push(doc::count(arrivals.len() as int)),
        );
        let out = out.gap();
        out
    }

    pub fn arrivals_table(&self, out: &mut Doc)
        requires
            self.sound(),
        ensures
            final(out)@ == self.with_arrivals_table(old(out)@),
    {
        out.line("## Calibration: scent against arrival", doc::args());
        out.gap();
        out.line(
            ARRIVALS,
            doc::args()
                .count(self.budgets[self.budgets.len() - 1].budget)
                .count(self.budgets[self.budgets.len() - 1].runs.len()),
        );
        out.gap();
        out.head(
            doc::args()
                .text("Scent")
                .text("Arrivals")
                .text("Mean scent")
                .text("Mean relevance")
                .text("Wanted"),
        );
        let arrivals: Vec<Arrival> = self.arrived();
        put_arrival_rows(out, &arrivals);
        out.gap();
        out.line(
            ARRIVED,
            doc::args()
                .count(arrivals.len()),
        );
        out.gap();
    }

    /// What the scent of a link said about the page it leads to, followed or not.
    pub open spec fn with_links_table(self, out: DocView) -> DocView {
        let links = self.links();
        let out = out.line(
            JUDGED@,
            doc::none()
                .push(doc::count(links.len() as int))
                .push(doc::count(findings::all_unlabelled(self.corpus, self.widest()))),
        );
        let out = out.gap();
        let out = out.head(
            doc::none()
                .push(doc::word("Scent"@))
                .push(doc::word("Links"@))
                .push(doc::word("Followed"@))
                .push(doc::word("Wanted when followed"@)),
        );
        let out = link_rows(out, links, figures::BINS as int);
        let out = out.gap();
        out
    }

    pub fn links_table(&self, out: &mut Doc)
        requires
            self.sound(),
        ensures
            final(out)@ == self.with_links_table(old(out)@),
    {
        let links: Vec<Link> = self.judged_links();
        out.line(
            JUDGED,
            doc::args()
                .count(links.len())
                .sum(self.links_outside()),
        );
        out.gap();
        out.head(
            doc::args()
                .text("Scent")
                .text("Links")
                .text("Followed")
                .text("Wanted when followed"),
        );
        put_link_rows(out, &links);
        out.gap();
    }

    /// The walk's own decision, in the same terms.
    pub open spec fn with_decision_table(self, out: DocView) -> DocView {
        let out = out.head(
            doc::none()
                .push(doc::word("Decision"@))
                .push(doc::word("Links"@))
                .push(doc::word("Wanted"@)),
        );
        let out = out.row(
            doc::none()
                .push(doc::word("followed"@))
                .push(doc::count(figures::tally(self.links(), true).1 as int))
                .push(doc::shown(self.followed_share(), Form::Fixed(2))),
        );
        let out = out.row(
            doc::none()
                .push(doc::word("passed over"@))
                .push(doc::count(figures::tally(self.links(), false).1 as int))
                .push(doc::shown(self.passed_share(), Form::Fixed(2))),
        );
        let out = out.gap();
        let out = out.line(
            DECISION@,
            doc::none()
                .push(doc::shown(self.followed_share(), Form::Fixed(2)))
                .push(doc::shown(self.passed_share(), Form::Fixed(2)))
                .push(doc::count(figures::cleared(self.links(), self.threshold) as int)),
        );
        let out = out.gap();
        out
    }

    pub fn decision_table(&self, out: &mut Doc)
        requires
            self.sound(),
        ensures
            final(out)@ == self.with_decision_table(old(out)@),
    {
        let decision: Decision = self.decision();
        out.head(
            doc::args()
                .text("Decision")
                .text("Links")
                .text("Wanted"),
        );
        out.row(
            doc::args()
                .text("followed")
                .count(decision.followed.judged)
                .figure(decision.followed.rate(), Form::Fixed(2)),
        );
        out.row(
            doc::args()
                .text("passed over")
                .count(decision.passed.judged)
                .figure(decision.passed.rate(), Form::Fixed(2)),
        );
        out.gap();
        out.line(
            DECISION,
            doc::args()
                .figure(decision.followed.rate(), Form::Fixed(2))
                .figure(decision.passed.rate(), Form::Fixed(2))
                .count(decision.cleared),
        );
        out.gap();
    }

    /// What a link's scent predicted, and what following it reached.
    pub open spec fn with_calibration(self, out: DocView) -> DocView {
        let out = self.with_arrivals_table(out);
        let out = self.with_links_table(out);
        let out = self.with_decision_table(out);
        out
    }

    pub fn calibration(&self, out: &mut Doc)
        requires
            self.sound(),
        ensures
            final(out)@ == self.with_calibration(old(out)@),
    {
        self.arrivals_table(out);
        self.links_table(out);
        self.decision_table(out);
    }

    /// The default threshold among the swept ones.
    pub open spec fn with_the_threshold(self, out: DocView) -> DocView {
        let out = out.line("## The default threshold"@, doc::none());
        let out = out.gap();
        let out = out.line(
            THRESHOLDS@,
            doc::none()
                .push(doc::count(self.tight())),
        );
        let out = out.gap();
        let columns = threshold_columns();
        let out = out.head(cells::titled(doc::none().push(doc::word("Threshold"@)), columns));
        let out = swept_rows(out, columns, self.sweep@, self.threshold);
        let out = out.gap();
        out
    }

    pub fn the_threshold(&self, out: &mut Doc)
        requires
            self.sound(),
        ensures
            final(out)@ == self.with_the_threshold(old(out)@),
    {
        out.line("## The default threshold", doc::args());
        out.gap();
        out.line(
            THRESHOLDS,
            doc::args()
                .count(self.budgets[0].budget),
        );
        out.gap();
        let columns: Columns = columns_of_threshold();
        out.head(cells::title_all(doc::args().text("Threshold"), &columns));
        put_swept_rows(out, &columns, &self.sweep, self.threshold);
        out.gap();
    }

    /// Whether the frontmatter in a preview earns its tokens.
    pub open spec fn with_preview_table(self, out: DocView) -> DocView {
        let out = out.line("## The preview experiment: frontmatter"@, doc::none());
        let out = out.gap();
        let out = out.line(
            PREVIEW@,
            doc::none()
                .push(doc::count(self.tight())),
        );
        let out = out.gap();
        let out = out.table(
            "Preview policy"@,
            preview_columns(),
            measure::PREVIEWS@[0]@,
            self.shipped(),
            self.previews@,
        );
        out
    }

    pub fn preview_table(&self, out: &mut Doc)
        requires
            self.sound(),
        ensures
            final(out)@ == self.with_preview_table(old(out)@),
    {
        out.line("## The preview experiment: frontmatter", doc::args());
        out.gap();
        out.line(
            PREVIEW,
            doc::args()
                .count(self.budgets[0].budget),
        );
        out.gap();
        out.table(
            "Preview policy",
            &columns_of_preview(),
            measure::PREVIEWS[0],
            &self.budgets[0].runs,
            &self.previews,
        );
    }

    /// What each row of the preview table made of one page's links.
    pub open spec fn with_scents(self, out: DocView, id: Seq<char>, page: Seq<char>) -> DocView {
        let out = out.line(
            SCENTS@,
            doc::none()
                .push(doc::word(page))
                .push(doc::word(id))
                .push(doc::shown(Num::Double(self.threshold), Form::Plain)),
        );
        let out = out.gap();
        let out = out.head(scent_heads(doc::none().push(doc::word("Target"@)), self.scents@));
        let out = if self.scents.len() > 0 {
            scent_rows(out, self.scents@, self.scents@[0].links@, self.threshold)
        } else {
            out
        };
        let out = out.gap();
        let out = out.line(SCENTS_NOTE@, doc::none());
        let out = out.gap();
        if self.scents.len() > 0 {
            moved_lines(
                out,
                self.scents@.skip(1),
                self.scents@[0].links@,
                self.threshold,
            ).gap()
        } else {
            out
        }
    }

    fn put_scents(&self, out: &mut Doc, id: &str, page: &str)
        ensures
            final(out)@ == self.with_scents(old(out)@, id@, page@),
    {
        out.line(
            SCENTS,
            doc::args()
                .text(page)
                .text(id)
                .figure(Num::Double(self.threshold), Form::Plain),
        );
        out.gap();
        out.head(head_scents(doc::args().text("Target"), &self.scents));
        if self.scents.len() > 0 {
            put_scent_rows(out, &self.scents, &self.scents[0].links, self.threshold);
        }
        out.gap();
        out.line(SCENTS_NOTE, doc::args());
        out.gap();
        if self.scents.len() > 0 {
            put_moved_lines(out, &self.scents, &self.scents[0].links, self.threshold);
            out.gap();
        }
    }

    /// The preview experiment: the walks, and one page's links.
    pub open spec fn with_the_preview_experiment(self, out: DocView) -> DocView {
        let out = self.with_preview_table(out);
        match self.scents_of {
            Some(of) => self.with_scents(out, of.0@, of.1@),
            None => out,
        }
    }

    pub fn the_preview_experiment(&self, out: &mut Doc)
        requires
            self.sound(),
        ensures
            final(out)@ == self.with_the_preview_experiment(old(out)@),
    {
        self.preview_table(out);
        match &self.scents_of {
            Some(of) => self.put_scents(out, of.0.as_str(), of.1.as_str()),
            None => {},
        }
    }

    /// What each part of the link context earns.
    pub open spec fn with_context_table(self, out: DocView) -> DocView {
        let out = out.line(CONTEXT_TITLE@, doc::none());
        let out = out.gap();
        let out = out.line(
            CONTEXT@,
            doc::none()
                .push(doc::count(self.tight())),
        );
        let out = out.gap();
        let out = out.line(CONTEXT_PARTS@, doc::none());
        let out = out.gap();
        let out = out.table(
            "Variant"@,
            context_columns(),
            measure::CONTEXTS@[0]@,
            self.shipped(),
            self.contexts@,
        );
        let s1m = self.shipped();
        let bare = self.contexts@[3].runs@;
        let out = out.line(
            CONTEXT_REQUESTS@,
            doc::none()
                .push(
                    doc::shown(
                        figures::ratio_of_sums(
                            figures::sum_of(s1m, Field::Requests),
                            figures::sum_of(bare, Field::Requests),
                        ),
                        Form::Fixed(1),
                    ),
                ),
        );
        let out = out.gap();
        out
    }

    pub fn context_table(&self, out: &mut Doc)
        requires
            self.sound(),
        ensures
            final(out)@ == self.with_context_table(old(out)@),
    {
        out.line(CONTEXT_TITLE, doc::args());
        out.gap();
        out.line(
            CONTEXT,
            doc::args()
                .count(self.budgets[0].budget),
        );
        out.gap();
        out.line(CONTEXT_PARTS, doc::args());
        out.gap();
        out.table(
            "Variant",
            &columns_of_context(),
            measure::CONTEXTS[0],
            &self.budgets[0].runs,
            &self.contexts,
        );
        let s1m: &Vec<Run> = &self.budgets[0].runs;
        let bare: &Vec<Run> = &self.contexts[3].runs;
        out.line(
            CONTEXT_REQUESTS,
            doc::args()
                .figure(
                    figures::sums_ratio(
                        figures::sum(s1m, Field::Requests),
                        figures::sum(bare, Field::Requests),
                    ),
                    Form::Fixed(1),
                ),
        );
        out.gap();
    }

    /// How much each query found without each part.
    pub open spec fn with_recall_per_context(self, out: DocView) -> DocView {
        let s1m = self.shipped();
        let out = out.line(LEAST_FIRST@, doc::none());
        let out = out.gap();
        let out = out.head(cells::labelled(per_query(measure::CONTEXTS@[0]@), self.contexts@));
        let order = findings::least_found(self.gold.queries@, s1m);
        let out = recall_rows(out, self.gold.queries@, s1m, self.contexts@, order);
        let out = out.row(cells::averaged(mean_start(s1m), self.contexts@));
        let out = out.gap();
        out
    }

    pub fn recall_per_context(&self, out: &mut Doc)
        requires
            self.sound(),
        ensures
            final(out)@ == self.with_recall_per_context(old(out)@),
    {
        let s1m: &Vec<Run> = &self.budgets[0].runs;
        out.line(LEAST_FIRST, doc::args());
        out.gap();
        out.head(cells::label_all(put_per_query(measure::CONTEXTS[0]), &self.contexts));
        let order: Vec<Place> = findings::order_by_found(&self.gold.queries, s1m);
        put_recall_rows(out, &self.gold.queries, s1m, &self.contexts, &order);
        out.row(cells::average_all(put_mean_start(s1m), &self.contexts));
        out.gap();
    }

    /// What each query asked without each part.
    pub open spec fn with_requests_per_context(self, out: DocView) -> DocView {
        let s1m = self.shipped();
        let out = out.line(REQUESTS_PER_QUERY@, doc::none());
        let out = out.gap();
        let out = out.head(cells::labelled(per_query(measure::CONTEXTS@[0]@), self.contexts@));
        let order = findings::least_found(self.gold.queries@, s1m);
        let out = request_rows(out, self.gold.queries@, s1m, self.contexts@, order);
        let out = out.row(cells::totalled(total_start(s1m), self.contexts@));
        let out = out.gap();
        out
    }

    pub fn requests_per_context(&self, out: &mut Doc)
        requires
            self.sound(),
        ensures
            final(out)@ == self.with_requests_per_context(old(out)@),
    {
        let s1m: &Vec<Run> = &self.budgets[0].runs;
        out.line(REQUESTS_PER_QUERY, doc::args());
        out.gap();
        out.head(cells::label_all(put_per_query(measure::CONTEXTS[0]), &self.contexts));
        let order: Vec<Place> = findings::order_by_found(&self.gold.queries, s1m);
        put_request_rows(out, &self.gold.queries, s1m, &self.contexts, &order);
        out.row(cells::total_all(put_total_start(s1m), &self.contexts));
        out.gap();
    }

    /// What the link context carries, and what each part of it earns.
    pub open spec fn with_the_link_context_experiment(self, out: DocView) -> DocView {
        let out = self.with_context_table(out);
        let out = self.with_recall_per_context(out);
        let out = self.with_requests_per_context(out);
        out
    }

    pub fn the_link_context_experiment(&self, out: &mut Doc)
        requires
            self.sound(),
        ensures
            final(out)@ == self.with_the_link_context_experiment(old(out)@),
    {
        self.context_table(out);
        self.recall_per_context(out);
        self.requests_per_context(out);
    }

    /// What one page's links weighed against each other are worth.
    pub open spec fn with_the_relative_judge(self, out: DocView, rows: Seq<Row>) -> DocView {
        let out = out.line(RELATIVE_TITLE@, doc::none());
        let out = out.gap();
        let out = out.line(
            RELATIVE@,
            doc::none()
                .push(doc::shown(Num::Double(measure::FLOOR), Form::Plain))
                .push(doc::count(measure::KEEP_K as int))
                .push(doc::shown(Num::Double(self.keep_ceiling), Form::Plain))
                .push(doc::count(measure::BEAM as int))
                .push(doc::count(self.tight())),
        );
        let out = out.gap();
        let s1m = self.shipped();
        let out = out.table("Links judged"@, relative_columns(), measure::POLICIES@[0]@, s1m, rows);
        let out = out.line(RELATIVE_REQUESTS@, doc::none());
        let out = out.gap();
        let out = out.line(LEAST_FIRST@, doc::none());
        let out = out.gap();
        let out = out.head(cells::labelled(per_query(measure::POLICIES@[0]@), rows));
        let order = findings::least_found(self.gold.queries@, s1m);
        let out = recall_rows(out, self.gold.queries@, s1m, rows, order);
        let out = out.row(cells::averaged(mean_start(s1m), rows));
        let out = out.gap();
        out
    }

    pub fn the_relative_judge(&self, out: &mut Doc, rows: &Vec<Row>)
        requires
            self.sound(),
            findings::complete(rows@, self.gold.queries.len() as nat),
        ensures
            final(out)@ == self.with_the_relative_judge(old(out)@, rows@),
    {
        out.line(RELATIVE_TITLE, doc::args());
        out.gap();
        out.line(
            RELATIVE,
            doc::args()
                .figure(Num::Double(measure::FLOOR), Form::Plain)
                .sum(measure::KEEP_K as u128)
                .figure(Num::Double(self.keep_ceiling), Form::Plain)
                .count(measure::BEAM)
                .count(self.budgets[0].budget),
        );
        out.gap();
        let s1m: &Vec<Run> = &self.budgets[0].runs;
        out.table("Links judged", &columns_of_relative(), measure::POLICIES[0], s1m, rows);
        out.line(RELATIVE_REQUESTS, doc::args());
        out.gap();
        out.line(LEAST_FIRST, doc::args());
        out.gap();
        out.head(cells::label_all(put_per_query(measure::POLICIES[0]), rows));
        let order: Vec<Place> = findings::order_by_found(&self.gold.queries, s1m);
        put_recall_rows(out, &self.gold.queries, s1m, rows, &order);
        out.row(cells::average_all(put_mean_start(s1m), rows));
        out.gap();
    }

    /// What each register the questions are put in finds.
    pub open spec fn with_wording_table(self, out: DocView, rows: Seq<Row>) -> DocView {
        let out = out.line(WORDING_TITLE@, doc::none());
        let out = out.gap();
        let out = out.line(
            WORDING@,
            doc::none()
                .push(doc::count(self.tight())),
        );
        let out = out.gap();
        let out = out.line(REGISTERS@, doc::none());
        let out = out.gap();
        let s1m = self.shipped();
        let legacy = legacy_row(rows);
        let out = out.line(
            LEGACY@,
            doc::none()
                .push(doc::count(self.tight()))
                .push(legacy_mean(rows, legacy))
                .push(legacy_lines(rows, legacy))
                .push(cells::mean(s1m, Rate::SectionRecall))
                .push(doc::count(figures::sum_of(s1m, Field::ReadLines))),
        );
        let out = out.gap();
        let out = out.table("Wording"@, wording_columns(), SHIPS@, s1m, rows);
        let out = out.line(WORDING_NOTE@, doc::none());
        let out = out.gap();
        out
    }

    pub fn wording_table(&self, out: &mut Doc, rows: &Vec<Row>)
        requires
            self.sound(),
            findings::complete(rows@, self.gold.queries.len() as nat),
        ensures
            final(out)@ == self.with_wording_table(old(out)@, rows@),
    {
        out.line(WORDING_TITLE, doc::args());
        out.gap();
        out.line(
            WORDING,
            doc::args()
                .count(self.budgets[0].budget),
        );
        out.gap();
        out.line(REGISTERS, doc::args());
        out.gap();
        let s1m: &Vec<Run> = &self.budgets[0].runs;
        let legacy: Option<usize> = findings::find_row(rows, SECTION_LEGACY);
        out.line(
            LEGACY,
            doc::args()
                .count(self.budgets[0].budget)
                .with(mean_of_legacy(rows, legacy))
                .with(lines_of_legacy(rows, legacy))
                .figure(figures::mean_of(s1m, Rate::SectionRecall), Form::Fixed(2))
                .sum(figures::sum(s1m, Field::ReadLines)),
        );
        out.gap();
        out.table("Wording", &columns_of_wording(), SHIPS, s1m, rows);
        out.line(WORDING_NOTE, doc::args());
        out.gap();
    }

    /// How much each query found in each register.
    pub open spec fn with_recall_per_wording(self, out: DocView, rows: Seq<Row>) -> DocView {
        let s1m = self.shipped();
        let out = out.line(LEAST_FIRST@, doc::none());
        let out = out.gap();
        let out = out.head(cells::labelled(per_query_and_mode(SHIPS@), rows));
        let order = findings::least_found(self.gold.queries@, s1m);
        let out = mode_rows(out, self.gold.queries@, s1m, rows, order);
        let out = out.row(cells::averaged(mode_mean_start(s1m), rows));
        let out = out.gap();
        out
    }

    pub fn recall_per_wording(&self, out: &mut Doc, rows: &Vec<Row>)
        requires
            self.sound(),
            findings::complete(rows@, self.gold.queries.len() as nat),
        ensures
            final(out)@ == self.with_recall_per_wording(old(out)@, rows@),
    {
        let s1m: &Vec<Run> = &self.budgets[0].runs;
        out.line(LEAST_FIRST, doc::args());
        out.gap();
        out.head(cells::label_all(put_per_query_and_mode(SHIPS), rows));
        let order: Vec<Place> = findings::order_by_found(&self.gold.queries, s1m);
        put_mode_rows(out, &self.gold.queries, s1m, rows, &order);
        out.row(cells::average_all(put_mode_mean_start(s1m), rows));
        out.gap();
    }

    /// What the section question lost of each query, the queries it lost most on first; how much is
    /// what each double of `lost` says, a query at a time.
    pub open spec fn with_parts_lost(
        self,
        out: DocView,
        rows: Seq<Row>,
        lost: Seq<u64>,
    ) -> DocView {
        let s1m = self.shipped();
        let legacy = legacy_row(rows);
        let out = out.line(LOST@, doc::none());
        let out = out.gap();
        let out = out.head(lost_heads());
        let order = findings::most_lost(self.gold.queries@, lost);
        let out = lost_rows(out, self.gold.queries@, s1m, rows, legacy, order);
        let out = out.row(
            doc::none()
                .push(doc::word("**mean**"@))
                .push(doc::word(""@))
                .push(doc::word(""@))
                .push(cells::bold_mean(s1m, Rate::SectionRecall))
                .push(legacy_bold_mean(rows, legacy))
                .push(cells::bold_count(figures::sum_of(s1m, Field::ReadLines)))
                .push(legacy_bold_lines(rows, legacy)),
        );
        out.gap()
    }

    pub fn parts_lost(&self, out: &mut Doc, rows: &Vec<Row>, lost: &Vec<u64>)
        requires
            self.sound(),
            findings::complete(rows@, self.gold.queries.len() as nat),
            lost.len() == self.gold.queries.len(),
        ensures
            final(out)@ == self.with_parts_lost(old(out)@, rows@, lost@),
    {
        let s1m: &Vec<Run> = &self.budgets[0].runs;
        let legacy: Option<usize> = findings::find_row(rows, SECTION_LEGACY);
        out.line(LOST, doc::args());
        out.gap();
        out.head(heads_of_lost());
        let order: Vec<Loss> = findings::order_by_lost(&self.gold.queries, lost);
        put_lost_rows(out, &self.gold.queries, s1m, rows, legacy, &order);
        let cells: Args = doc::args().text("**mean**").text("").text("");
        out.row(
            cells::put_bold_mean(cells, s1m, Rate::SectionRecall)
                .with(bold_mean_of_legacy(rows, legacy))
                .with(cells::bold_sum(figures::sum(s1m, Field::ReadLines)))
                .with(bold_lines_of_legacy(rows, legacy)),
        );
        out.gap();
    }

    /// How much more of the wanted parts the walk that ships covered than the register that asks
    /// the former section question, a query at a time.
    pub open spec fn loss(self, rows: Seq<Row>, at: int) -> Num {
        match legacy_row(rows) {
            Some(row) => figures::minus(
                figures::rate(self.shipped()[at], Rate::SectionRecall),
                figures::rate(rows[row].runs@[at], Rate::SectionRecall),
            ),
            None => Num::Whole(0),
        }
    }

    /// What the order of the queries in the last table goes by, a query at a time.
    pub fn losses(&self, rows: &Vec<Row>) -> (losses: Vec<Num>)
        requires
            self.sound(),
            findings::complete(rows@, self.gold.queries.len() as nat),
        ensures
            losses.len() == self.gold.queries.len(),
            forall|i: int| 0 <= i < losses.len() ==> #[trigger] losses@[i] == self.loss(rows@, i),
    {
        let legacy: Option<usize> = findings::find_row(rows, SECTION_LEGACY);
        let mut losses: Vec<Num> = Vec::new();
        for i in 0..self.gold.queries.len()
            invariant
                self.sound(),
                findings::complete(rows@, self.gold.queries.len() as nat),
                is_legacy(rows@, legacy),
                losses.len() == i,
                forall|k: int| 0 <= k < i ==> #[trigger] losses@[k] == self.loss(rows@, k),
        {
            losses.push(
                match legacy {
                    Some(row) => figures::difference(
                        figures::rate_of(&self.budgets[0].runs[i], Rate::SectionRecall),
                        figures::rate_of(&rows[row].runs[i], Rate::SectionRecall),
                    ),
                    None => Num::Whole(0),
                },
            );
        }
        losses
    }

    /// Whether the words the three judgments are asked in move what the walk finds.
    pub open spec fn with_the_wording_experiment(
        self,
        out: DocView,
        rows: Seq<Row>,
        lost: Seq<u64>,
    ) -> DocView {
        let out = self.with_wording_table(out, rows);
        let out = self.with_recall_per_wording(out, rows);
        self.with_parts_lost(out, rows, lost)
    }

    pub fn the_wording_experiment(&self, out: &mut Doc, rows: &Vec<Row>, lost: &Vec<u64>)
        requires
            self.sound(),
            findings::complete(rows@, self.gold.queries.len() as nat),
            lost.len() == self.gold.queries.len(),
        ensures
            final(out)@ == self.with_the_wording_experiment(old(out)@, rows@, lost@),
    {
        self.wording_table(out, rows);
        self.recall_per_wording(out, rows);
        self.parts_lost(out, rows, lost);
    }

    /// What the numbers are not.
    pub open spec fn with_limitations(self, out: DocView) -> DocView {
        let out = out.line("## What these numbers are not"@, doc::none());
        let out = out.gap();
        let out = out.line(
            THIN@,
            doc::none()
                .push(doc::count(self.corpus.pages.len() as int))
                .push(doc::count(self.wide())),
        );
        let out = out.line(ONE_READER@, doc::none());
        let out = out.line(
            NO_ANSWER@,
            doc::none()
                .push(doc::count(corpus::CHARS_PER_TOKEN as int)),
        );
        let out = out.line(NO_COVERAGE@, doc::none());
        let out = out.line(ONE_MODEL@, doc::none());
        let out = out.gap();
        out
    }

    pub fn limitations(&self, out: &mut Doc)
        requires
            self.sound(),
        ensures
            final(out)@ == self.with_limitations(old(out)@),
    {
        out.line("## What these numbers are not", doc::args());
        out.gap();
        out.line(
            THIN,
            doc::args()
                .count(self.corpus.pages.len())
                .count(self.budgets[self.budgets.len() - 1].budget),
        );
        out.line(ONE_READER, doc::args());
        out.line(
            NO_ANSWER,
            doc::args()
                .count(corpus::CHARS_PER_TOKEN),
        );
        out.line(NO_COVERAGE, doc::args());
        out.line(ONE_MODEL, doc::args());
        out.gap();
    }

    /// Where the answers came from.
    pub open spec fn with_the_cache(self, out: DocView) -> DocView {
        let out = out.line("## The committed cache"@, doc::none());
        let out = out.gap();
        let out = out.line(
            CACHE@,
            doc::none()
                .push(doc::word(self.cache@)),
        );
        let out = out.gap();
        out
    }

    pub fn the_cache(&self, out: &mut Doc)
        requires
            self.sound(),
        ensures
            final(out)@ == self.with_the_cache(old(out)@),
    {
        out.line("## The committed cache", doc::args());
        out.gap();
        out.line(
            CACHE,
            doc::args()
                .text(self.cache.as_str()),
        );
        out.gap();
    }
}

} // verus!
