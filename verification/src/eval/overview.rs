//! The report's first half: what was measured, what the reading list returned at each budget, and
//! the controls.

use vstd::prelude::*;

use crate::counting;
use crate::doc;
use crate::doc::{Doc, DocView, Form, Num};
use crate::eval::cells;
use crate::eval::corpus;
use crate::eval::figures;
use crate::eval::figures::{Decision, Field, Rate};
use crate::eval::findings;
use crate::eval::findings::{Budget, Findings, Swept};
use crate::eval::labels::{Expected, Query};
use crate::eval::measure;
use crate::eval::runs;
use crate::eval::runs::Run;
use crate::paths;
use crate::run;
use crate::text;

verus! {

pub const TITLE: &'static str = "# Evaluation: s1m on a real wiki";

pub const ABOUT: &'static str =
    "s1m ranks a wiki's pages for a query by walking its links, so an agent reads the ranges \
     it returns instead of opening files until it finds them. This is what that is worth on \
     the wiki vendored under `{}`: {} queries, each with the pages a person would want, at \
     `--max-files` {}.";

pub const CORPUS_ROW: &'static str = "| Corpus | {} pages, {} characters ({} tokens) |";

pub const GOLD_ROW: &'static str = "| Gold set | `{}` — {} queries |";

pub const MODEL_ROW: &'static str = "| Model | {} |";

pub const PRICE_ROW: &'static str =
    "| Price | ${} per million input tokens, output free |";

pub const WALK_ROW: &'static str =
    "| Walk | `--threshold` {}, `--max-depth` {}, {} frontier files a round |";

pub const ANSWERS_ROW: &'static str = "| Answers | {} |";

pub const REQUESTS_ROW: &'static str =
    "| Requests | {} behind those answers; more than one per answer means a file whose \
     sections and links did not fit one post |";

pub const COST_ROW: &'static str = "| Cost | {} for the gold set at ";

pub const COST_ROW_END: &'static str =
    "; every answer this report used, at the list price above, {} |";

pub const ONE_BUDGET: &'static str = "`--max-files {}`";

pub const TWO_BUDGETS: &'static str = "`--max-files {}`, {} at `--max-files {}`";

pub const RECALL: &'static str =
    "- **Recall and precision at `--max-files {}`**: mean recall {}, mean precision {} — {} \
     of the {} wanted pages are in the list the agent opens, over {} files returned, {} a \
     query — against {} over everything the walk visited: {} files judged, {} of them earned \
     a place, and the rest are what the JSON reports as `walked`. ";

pub const BUDGET_UNKNOWN: &'static str =
    "One budget was measured, so nothing here says whether a wider one would return more.";

pub const BUDGET_FREE: &'static str =
    "The budget is not what binds: the walk runs out of links above `--threshold` first, and \
     `--max-files {}` visits {} files for the same mean recall ({}), {} of which earn a \
     place, so everything below is a statement about the link graph and the threshold, not \
     about the budget.";

pub const SECTIONS: &'static str =
    "- **Section recall**: {} — {} of the {} wanted parts the gold set labels are covered by \
     the ranges the list returns, against {} of the {} wanted pages in the list at all, for \
     {} lines returned. A part is the heading or line range an entry names, and an entry \
     that names none is wanted whole, so its part is its page; where the two numbers differ, \
     the list returned a page with nothing to read in it, or ranges that miss the part the \
     label points at.";

pub const KEYWORDS: &'static str =
    "- **The keyword ranker finds more and reads far more**: recall {} against s1m's {}, at \
     {} tokens against {} — {} the reading for {} more of the wanted pages. On a wiki whose \
     pages share their vocabulary with the queries, grep is the stronger recaller and s1m \
     the cheaper reader.";

pub const READING: &'static str =
    "- **What an agent reads**: {} tokens for the returned ranges, against {} for the same \
     files whole and {} for every page on every query. Reading the returned files whole \
     costs {}% of the corpus's text; the section scores take {}% off that, and the ranking \
     {}% off reading everything.";

pub const COSTS: &'static str =
    "- **What it costs**: {} for the gold set at `--max-files {}` — {} a query, at {} an \
     answer";

pub const COSTS_WIDE: &'static str = ", {} at `--max-files {}`";

pub const COSTS_END: &'static str =
    "; every answer this report used, at the price above, {}. The figures are the input \
     tokens the answers spent, priced at the list rate in the header: the cache fixes the \
     tokens, and a rate change re-prices every row, so a rerun reproduces them only while \
     that constant stands.";

pub const THRESHOLD: &'static str =
    "- **Where `--threshold` sits**: this report walked at {}. Against that walk, the swept \
     thresholds move recall and reading by: ";

pub const THRESHOLD_END: &'static str =
    ". The calibration says the same from the other side — the links the walk followed reach \
     a wanted page {} of the time, the ones it passed over {}, and {} links clear the \
     threshold and are still not followed.";

pub const FRONTMATTER: &'static str =
    "- **The frontmatter earns its tokens**: dropping it from the preview costs {} of recall \
     ({} → {}) for {} of the input tokens, and dropping previews altogether costs {}. It is \
     the larger half of what a preview buys, and `related:` is why — on the hub page it is \
     what lifts the links to `dogfooding.md` and `node-version-and-types.md` over the \
     threshold. [#10]'s worry that the frontmatter misleads is the wrong way round on this \
     wiki.";

pub const REPRODUCE: &'static str =
    "This report goes to stdout without `--out`, and `--out PATH` writes it to a file \
     instead. Every judgment is cached on the request that produced it, and the cache stores \
     the tokens each call spent beside its answer, so the cache committed under that \
     directory reproduces this report byte for byte with no `TYPESAFE_API_KEY` at all. The \
     cost columns are those stored tokens at the list rate in the header — the cache fixes \
     the tokens, not the rate — and `--no-cache` with a key buys every judgment again. \
     `--wiki` and `--gold` are the only thing a private wiki needs, and nothing about either \
     is committed here. `--relative-judge` is what adds the relative judge's rows below and \
     `--wordings` the wording table's, and both are this report's own asks: a run without \
     either flag prints the report without that table, and the cache answers the rest either \
     way.";

pub const GOLD: &'static str =
    "{} queries, written by reading the wiki: for each, the pages a person with that task \
     would want open. `mode` is the criterion the query is judged by, `entry` the page a \
     caller would start from. Labels are the queries' own — a page that is useful but \
     unlisted costs precision, and no label says a page is useless — so precision is a lower \
     bound. An entry that names a heading or lines is a page whose answer lives in part of \
     it ([#58]), and those are the parts **Section recall** below is counted over: a page \
     named on its own is wanted whole, so its part is its page.";

pub const AT_A_BUDGET: &'static str =
    "`--max-files` is the number of files the walk may judge beyond the entry files, which \
     are always visited, and the walk judges that many before the reading list is asked \
     anything. `Visited` counts the files it judged; `Returned` is the list the agent opens \
     — the ones that earn a place on their own, relevance at or above `--threshold` {} or a \
     section at or above it, most relevant first — and the rest, the entry files, hubs and \
     near-misses, are what the JSON reports as `walked`. Recall is the wanted pages in that \
     list over all of the query's wanted pages, and precision is the wanted pages in it over \
     the files in it; precision (visited) is the same over everything the walk judged, which \
     is the number this harness reported while the list was everything the walk had visited, \
     so the two side by side are what the cutoff bought and cost. `Sections` is how many of \
     those wanted pages the list also gave something to read in — the returned ranges \
     overlapping the part of the page the gold entry names, its whole page where it names \
     none — over one part a wanted page, and `Section recall` that count over `Gold`. It is \
     never above recall: a part cannot be returned without its page. At `--max-files {}`: {} \
     files visited and {} returned, mean precision {} against {} over everything visited. \
     `read` is what the agent opens — the returned ranges only — and `whole` is those same \
     files read entire; `Lines` is the same reading in line numbers, counted once where \
     ranges overlap.";

pub const UNREADABLE: &'static str =
    "Links to files that are not there: {} — reached, named, never scored, and not counted \
     as misses.";

pub const GREP: &'static str =
    "The keyword baseline is the harness's own keyword ranker, asked for the same number of \
     hits and read whole: it is what a caller with grep and no model gets. Reading the \
     corpus is the floor no ranking can beat on tokens, counted the way the rows above are — \
     over every query, so reading all {} pages once per query.";

pub const UNRANKED: &'static str =
    "Reading every page for every query finds every wanted page and reads {} tokens for the \
     gold set, {} s1m's returned ranges. The precision column is the wanted pages over the \
     {} pages there are, averaged over the queries: that is what an unranked reader reads.";

pub const MISSED: &'static str =
    "Wanted pages no walk reached at `--max-files {}`: {} query/page pairs missed.";

pub const CUT_OFF: &'static str =
    "The cutoff costs {} of the {} wanted pages a walk did reach: those are in the JSON's \
     `walked`, not in the list the agent reads, because reaching a page is not returning it.";

/// The budgets, written out.
pub open spec fn budget_names(budgets: Seq<Budget>) -> Seq<Seq<char>> {
    budgets.map_values(|budget: Budget| text::decimal(budget.budget as nat))
}

fn names_of_budgets(budgets: &Vec<Budget>) -> (names: Vec<String>)
    ensures
        text::texts(names@) == budget_names(budgets@),
{
    let mut names: Vec<String> = Vec::new();
    for i in 0..budgets.len()
        invariant
            names.len() == i,
            forall|k: int|
                0 <= k < i ==> (#[trigger] names@[k])@ == text::decimal(
                    budgets@[k].budget as nat,
                ),
    {
        names.push(text::number(budgets[i].budget as u64));
    }
    assert(text::texts(names@) =~= budget_names(budgets@));
    names
}

/// How much the swept thresholds move recall and reading, one after the other.
pub open spec fn swept(out: DocView, sweep: Seq<Swept>, shipped: Seq<Run>) -> DocView
    decreases sweep.len(),
{
    if sweep.len() == 0 {
        out
    } else {
        let before = swept(out, sweep.drop_last(), shipped);
        let begun = if sweep.len() > 1 {
            before.text("; "@)
        } else {
            before
        };
        let runs = sweep.last().runs@;
        begun.fill(
            "{}: recall {} and reading {}"@,
            doc::none()
                .push(doc::shown(Num::Double(sweep.last().threshold), Form::Plain))
                .push(
                    doc::shown(
                        figures::minus(
                            figures::mean(runs, Rate::Recall),
                            figures::mean(shipped, Rate::Recall),
                        ),
                        Form::Signed(2),
                    ),
                )
                .push(
                    figures::delta(
                        figures::sum_of(runs, Field::ReadTokens),
                        figures::sum_of(shipped, Field::ReadTokens),
                    ),
                ),
        )
    }
}

fn put_swept(out: &mut Doc, sweep: &Vec<Swept>, shipped: &Vec<Run>)
    ensures
        final(out)@ == swept(old(out)@, sweep@, shipped@),
{
    let ghost start = out@;
    for i in 0..sweep.len()
        invariant
            out@ == swept(start, sweep@.take(i as int), shipped@),
    {
        proof {
            counting::one_more(sweep@, i as int);
        }
        if i > 0 {
            out.text("; ");
        }
        let runs: &Vec<Run> = &sweep[i].runs;
        out.fill(
            "{}: recall {} and reading {}",
            doc::args()
                .figure(Num::Double(sweep[i].threshold), Form::Plain)
                .figure(
                    figures::difference(
                        figures::mean_of(runs, Rate::Recall),
                        figures::mean_of(shipped, Rate::Recall),
                    ),
                    Form::Signed(2),
                )
                .with(
                    figures::delta_of(
                        figures::sum(runs, Field::ReadTokens),
                        figures::sum(shipped, Field::ReadTokens),
                    ),
                ),
        );
    }
    proof {
        counting::take_all(sweep@);
    }
}

/// With the flag that puts a rerun at the same answers, where there is one.
pub open spec fn with_flag(out: DocView, flag: Option<String>) -> DocView {
    match flag {
        Some(flag) => out.line("{}"@, doc::none().push(doc::word(flag@))),
        None => out,
    }
}

fn put_flag(out: &mut Doc, flag: &Option<String>)
    ensures
        final(out)@ == with_flag(old(out)@, *flag),
{
    match flag {
        Some(flag) => out.line("{}", doc::args().text(flag.as_str())),
        None => {},
    }
}

/// What a query wants, as the gold set spells it.
pub open spec fn wanted_labels(expected: Seq<Expected>) -> Seq<Seq<char>> {
    expected.map_values(|entry: Expected| entry.spelt())
}

fn labels_of(expected: &Vec<Expected>) -> (labels: Vec<String>)
    ensures
        text::texts(labels@) == wanted_labels(expected@),
{
    let mut labels: Vec<String> = Vec::new();
    for i in 0..expected.len()
        invariant
            labels.len() == i,
            forall|k: int| 0 <= k < i ==> (#[trigger] labels@[k])@ == expected@[k].spelt(),
    {
        labels.push(expected[i].label());
    }
    assert(text::texts(labels@) =~= wanted_labels(expected@));
    labels
}

/// Why a query wants what it wants; nothing where it does not say.
pub open spec fn reason(note: Option<String>) -> Seq<char> {
    match note {
        Some(note) => note@,
        None => ""@,
    }
}

/// With a row for every query.
pub open spec fn labelled_queries(out: DocView, queries: Seq<Query>) -> DocView
    decreases queries.len(),
{
    if queries.len() == 0 {
        out
    } else {
        let query = queries.last();
        labelled_queries(out, queries.drop_last()).row(
            doc::none()
                .push(doc::word(cells::bold(query.query@)))
                .push(doc::word(cells::code(query.mode@)))
                .push(doc::word(cells::code(query.entry@)))
                .push(doc::word(text::joined(wanted_labels(query.expected@), ", "@)))
                .push(doc::word(reason(query.note))),
        )
    }
}

fn put_queries(out: &mut Doc, queries: &Vec<Query>)
    ensures
        final(out)@ == labelled_queries(old(out)@, queries@),
{
    let ghost start = out@;
    for i in 0..queries.len()
        invariant
            out@ == labelled_queries(start, queries@.take(i as int)),
    {
        proof {
            counting::one_more(queries@, i as int);
        }
        let query: &Query = &queries[i];
        let why: &str = match &query.note {
            Some(note) => note.as_str(),
            None => "",
        };
        out.row(
            doc::args()
                .text(cells::bold_of(query.query.as_str()).as_str())
                .text(cells::code_of(query.mode.as_str()).as_str())
                .text(cells::code_of(query.entry.as_str()).as_str())
                .text(text::join(&labels_of(&query.expected), ", ").as_str())
                .text(why),
        );
    }
    proof {
        counting::take_all(queries@);
    }
}

/// The parts a run's ranges cover, of those that are wanted.
pub open spec fn parts(run: Run) -> Seq<char> {
    text::decimal(run.score.parts_found as nat) + "/"@ + text::decimal(run.score.gold as nat)
}

fn parts_of(run: &Run) -> (cell: String)
    ensures
        cell@ == parts(*run),
{
    let mut cell: String = text::number(run.score.parts_found as u64);
    cell.append("/");
    cell.append(text::number(run.score.gold as u64).as_str());
    cell
}

/// With a row for every run at a budget.
pub open spec fn run_rows(out: DocView, list: Seq<Run>) -> DocView
    decreases list.len(),
{
    if list.len() == 0 {
        out
    } else {
        run_rows(out, list.drop_last()).row(run_cells(list.last()))
    }
}

/// What one run at a budget found, read and cost.
pub open spec fn run_cells(run: Run) -> Seq<doc::ArgView> {
    doc::none()
        .push(doc::word(cells::code(run.id@)))
        .push(doc::count(run.score.gold as int))
        .push(doc::count(run.score.visited as int))
        .push(doc::count(run.score.returned as int))
        .push(doc::count(run.score.found as int))
        .push(doc::shown(figures::rate(run, Rate::Recall), Form::Fixed(2)))
        .push(doc::word(parts(run)))
        .push(doc::shown(figures::rate(run, Rate::SectionRecall), Form::Fixed(2)))
        .push(doc::shown(figures::rate(run, Rate::Precision), Form::Fixed(2)))
        .push(doc::shown(figures::rate(run, Rate::OverVisited), Form::Fixed(2)))
        .push(doc::count(run.score.read_tokens as int))
        .push(doc::count(run.score.read_lines as int))
        .push(doc::count(run.score.whole_tokens as int))
        .push(doc::framed("$"@, figures::rate(run, Rate::Cost), Form::Fixed(6), ""@))
        .push(
            doc::count(
                figures::millis(
                    runs::mean_time(run.spent.latency as int, run.spent.served as int),
                ),
            ),
        )
}

fn cells_of_run(run: &Run) -> (cells: doc::Args)
    ensures
        cells@ == run_cells(*run),
{
    doc::args()
        .text(cells::code_of(run.id.as_str()).as_str())
        .count(run.score.gold)
        .count(run.score.visited)
        .count(run.score.returned)
        .count(run.score.found)
        .figure(figures::rate_of(run, Rate::Recall), Form::Fixed(2))
        .text(parts_of(run).as_str())
        .figure(figures::rate_of(run, Rate::SectionRecall), Form::Fixed(2))
        .figure(figures::rate_of(run, Rate::Precision), Form::Fixed(2))
        .figure(figures::rate_of(run, Rate::OverVisited), Form::Fixed(2))
        .sum(run.score.read_tokens as u128)
        .sum(run.score.read_lines as u128)
        .sum(run.score.whole_tokens as u128)
        .framed("$", figures::rate_of(run, Rate::Cost), Form::Fixed(6), "")
        .sum(figures::millis_of(run.spent.mean_latency()))
}

/// The means and sums under the runs at a budget.
pub open spec fn mean_cells(list: Seq<Run>) -> Seq<doc::ArgView> {
    doc::none()
        .push(doc::word("**mean**"@))
        .push(doc::word(""@))
        .push(doc::word(""@))
        .push(doc::word(""@))
        .push(doc::word(""@))
        .push(cells::bold_mean(list, Rate::Recall))
        .push(doc::word(""@))
        .push(cells::bold_mean(list, Rate::SectionRecall))
        .push(cells::bold_mean(list, Rate::Precision))
        .push(cells::bold_mean(list, Rate::OverVisited))
        .push(cells::bold_count(figures::sum_of(list, Field::ReadTokens)))
        .push(cells::bold_count(figures::sum_of(list, Field::ReadLines)))
        .push(cells::bold_count(figures::sum_of(list, Field::WholeTokens)))
        .push(doc::framed("**$"@, figures::total(list, Rate::Cost), Form::Fixed(6), "**"@))
        .push(doc::count(figures::millis(figures::mean_run_latency(list))))
}

fn cells_of_means(list: &Vec<Run>) -> (cells: doc::Args)
    ensures
        cells@ == mean_cells(list@),
{
    let cells: doc::Args = doc::args().text("**mean**").text("").text("").text("").text("");
    let cells: doc::Args = cells::put_bold_mean(cells, list, Rate::Recall).text("");
    let cells: doc::Args = cells::put_bold_mean(cells, list, Rate::SectionRecall);
    let cells: doc::Args = cells::put_bold_mean(cells, list, Rate::Precision);
    let cells: doc::Args = cells::put_bold_mean(cells, list, Rate::OverVisited);
    cells
        .with(cells::bold_sum(figures::sum(list, Field::ReadTokens)))
        .with(cells::bold_sum(figures::sum(list, Field::ReadLines)))
        .with(cells::bold_sum(figures::sum(list, Field::WholeTokens)))
        .framed("**$", figures::total_of(list, Rate::Cost), Form::Fixed(6), "**")
        .sum(figures::millis_of(figures::latency_of(list)))
}

/// The headings over the runs at a budget.
pub open spec fn budget_heads() -> Seq<doc::ArgView> {
    doc::none()
        .push(doc::word("Query"@))
        .push(doc::word("Gold"@))
        .push(doc::word("Visited"@))
        .push(doc::word("Returned"@))
        .push(doc::word("Found"@))
        .push(doc::word("Recall"@))
        .push(doc::word("Sections"@))
        .push(doc::word("Section recall"@))
        .push(doc::word("Precision"@))
        .push(doc::word("Precision (visited)"@))
        .push(doc::word("Read (tok)"@))
        .push(doc::word("Lines"@))
        .push(doc::word("Whole (tok)"@))
        .push(doc::word("Cost"@))
        .push(doc::word("ms/answer"@))
}

fn heads_of_budget() -> (cells: doc::Args)
    ensures
        cells@ == budget_heads(),
{
    doc::args()
        .text("Query")
        .text("Gold")
        .text("Visited")
        .text("Returned")
        .text("Found")
        .text("Recall")
        .text("Sections")
        .text("Section recall")
        .text("Precision")
        .text("Precision (visited)")
        .text("Read (tok)")
        .text("Lines")
        .text("Whole (tok)")
        .text("Cost")
        .text("ms/answer")
}

/// With the table of one budget.
pub open spec fn budget_table(out: DocView, budget: Budget) -> DocView {
    let out = out.line(
        "### `--max-files {}`"@,
        doc::none().push(doc::count(budget.budget as int)),
    );
    let out = out.gap().head(budget_heads());
    run_rows(out, budget.runs@).row(mean_cells(budget.runs@)).gap()
}

fn put_budget(out: &mut Doc, budget: &Budget)
    ensures
        final(out)@ == budget_table(old(out)@, *budget),
{
    out.line("### `--max-files {}`", doc::args().count(budget.budget));
    out.gap();
    out.head(heads_of_budget());
    let ghost start = out@;
    let list: &Vec<Run> = &budget.runs;
    for i in 0..list.len()
        invariant
            out@ == run_rows(start, list@.take(i as int)),
    {
        proof {
            counting::one_more(list@, i as int);
        }
        out.row(cells_of_run(&list[i]));
    }
    proof {
        counting::take_all(list@);
    }
    out.row(cells_of_means(list));
    out.gap();
}

/// With the table of every budget.
pub open spec fn budget_tables(out: DocView, budgets: Seq<Budget>) -> DocView
    decreases budgets.len(),
{
    if budgets.len() == 0 {
        out
    } else {
        budget_table(budget_tables(out, budgets.drop_last()), budgets.last())
    }
}

fn put_budgets(out: &mut Doc, budgets: &Vec<Budget>)
    ensures
        final(out)@ == budget_tables(old(out)@, budgets@),
{
    let ghost start = out@;
    for i in 0..budgets.len()
        invariant
            out@ == budget_tables(start, budgets@.take(i as int)),
    {
        proof {
            counting::one_more(budgets@, i as int);
        }
        put_budget(out, &budgets[i]);
    }
    proof {
        counting::take_all(budgets@);
    }
}

/// The files runs reached and could not read, in order.
pub open spec fn unread(list: Seq<Run>) -> Seq<Seq<char>>
    decreases list.len(),
{
    if list.len() == 0 {
        Seq::empty()
    } else {
        unread(list.drop_last()) + text::texts(list.last().unreadable@)
    }
}

/// The files the runs at any budget reached and could not read, in order.
pub open spec fn all_unread(budgets: Seq<Budget>) -> Seq<Seq<char>>
    decreases budgets.len(),
{
    if budgets.len() == 0 {
        Seq::empty()
    } else {
        all_unread(budgets.drop_last()) + unread(budgets.last().runs@)
    }
}

fn add_texts(list: &mut Vec<String>, more: &Vec<String>)
    ensures
        text::texts(final(list)@) == text::texts(old(list)@) + text::texts(more@),
{
    let ghost was = text::texts(list@);
    let ghost all = text::texts(more@);
    assert(was + all.take(0) =~= was);
    for i in 0..more.len()
        invariant
            all == text::texts(more@),
            text::texts(list@) == was + all.take(i as int),
    {
        let ghost had = text::texts(list@);
        list.push(more[i].clone());
        proof {
            counting::one_more(all, i as int);
            assert(all[i as int] == more@[i as int]@);
            assert(text::texts(list@) =~= had.push(all[i as int]));
            assert(text::texts(list@) =~= was + all.take(i + 1));
        }
    }
    proof {
        counting::take_all(all);
    }
}

fn add_unread(files: &mut Vec<String>, list: &Vec<Run>)
    ensures
        text::texts(final(files)@) == text::texts(old(files)@) + unread(list@),
{
    let ghost was = text::texts(files@);
    assert(was + unread(list@.take(0)) =~= was);
    for i in 0..list.len()
        invariant
            text::texts(files@) == was + unread(list@.take(i as int)),
    {
        proof {
            counting::one_more(list@, i as int);
        }
        add_texts(files, &list[i].unreadable);
        assert(text::texts(files@) =~= was + unread(list@.take(i + 1)));
    }
    proof {
        counting::take_all(list@);
    }
}

fn unread_files(budgets: &Vec<Budget>) -> (files: Vec<String>)
    ensures
        text::texts(files@) == all_unread(budgets@),
{
    let mut files: Vec<String> = Vec::new();
    assert(text::texts(files@) =~= Seq::<Seq<char>>::empty());
    for i in 0..budgets.len()
        invariant
            text::texts(files@) == all_unread(budgets@.take(i as int)),
    {
        proof {
            counting::one_more(budgets@, i as int);
        }
        add_unread(&mut files, &budgets[i].runs);
    }
    proof {
        counting::take_all(budgets@);
    }
    files
}

/// Texts as code.
pub open spec fn coded(list: Seq<Seq<char>>) -> Seq<Seq<char>> {
    list.map_values(|t: Seq<char>| cells::code(t))
}

fn code_all(list: &Vec<String>) -> (coded_list: Vec<String>)
    ensures
        text::texts(coded_list@) == coded(text::texts(list@)),
{
    let mut coded_list: Vec<String> = Vec::new();
    for i in 0..list.len()
        invariant
            coded_list.len() == i,
            forall|k: int| 0 <= k < i ==> (#[trigger] coded_list@[k])@ == cells::code(list@[k]@),
    {
        coded_list.push(cells::code_of(list[i].as_str()));
    }
    assert(text::texts(coded_list@) =~= coded(text::texts(list@)));
    coded_list
}

/// With a row for every budget: what the walk found and read, and what the keyword ranker did.
pub open spec fn grep_rows(out: DocView, budgets: Seq<Budget>) -> DocView
    decreases budgets.len(),
{
    if budgets.len() == 0 {
        out
    } else {
        let budget = budgets.last();
        grep_rows(out, budgets.drop_last()).row(
            doc::none()
                .push(doc::count(budget.budget as int))
                .push(cells::mean(budget.runs@, Rate::Recall))
                .push(cells::mean(budget.runs@, Rate::Precision))
                .push(doc::count(figures::sum_of(budget.runs@, Field::ReadTokens)))
                .push(cells::mean(budget.grep@, Rate::Recall))
                .push(cells::mean(budget.grep@, Rate::Precision))
                .push(doc::count(figures::sum_of(budget.grep@, Field::ReadTokens))),
        )
    }
}

fn put_grep_rows(out: &mut Doc, budgets: &Vec<Budget>)
    ensures
        final(out)@ == grep_rows(old(out)@, budgets@),
{
    let ghost start = out@;
    for i in 0..budgets.len()
        invariant
            out@ == grep_rows(start, budgets@.take(i as int)),
    {
        proof {
            counting::one_more(budgets@, i as int);
        }
        let list: &Vec<Run> = &budgets[i].runs;
        let grep: &Vec<Run> = &budgets[i].grep;
        out.row(
            doc::args()
                .count(budgets[i].budget)
                .figure(figures::mean_of(list, Rate::Recall), Form::Fixed(2))
                .figure(figures::mean_of(list, Rate::Precision), Form::Fixed(2))
                .sum(figures::sum(list, Field::ReadTokens))
                .figure(figures::mean_of(grep, Rate::Recall), Form::Fixed(2))
                .figure(figures::mean_of(grep, Rate::Precision), Form::Fixed(2))
                .sum(figures::sum(grep, Field::ReadTokens)),
        );
    }
    proof {
        counting::take_all(budgets@);
    }
}

/// The shares of a corpus that queries' gold sets ask for, added up in order.
pub open spec fn gold_shares(queries: Seq<Query>, pages: nat) -> Num
    decreases queries.len(),
{
    if queries.len() == 0 {
        Num::Whole(0)
    } else {
        Num::Plus(
            Box::new(gold_shares(queries.drop_last(), pages)),
            Box::new(runs::quotient(queries.last().expected.len() as nat, pages)),
        )
    }
}

/// The mean share of a corpus that one query's gold set asks for: what precision a reader who
/// opened everything would get.
pub open spec fn mean_gold_over(queries: Seq<Query>, pages: nat) -> Num {
    if queries.len() == 0 || pages == 0 {
        Num::Whole(0)
    } else {
        figures::per_run(gold_shares(queries, pages), queries.len())
    }
}

pub fn gold_over(queries: &Vec<Query>, pages: usize) -> (value: Num)
    ensures
        value == mean_gold_over(queries@, pages as nat),
{
    if queries.len() == 0 || pages == 0 {
        return Num::Whole(0);
    }
    let mut value: Num = Num::Whole(0);
    for i in 0..queries.len()
        invariant
            value == gold_shares(queries@.take(i as int), pages as nat),
    {
        proof {
            counting::one_more(queries@, i as int);
        }
        value = Num::Plus(
            Box::new(value),
            Box::new(runs::quotient_of(queries[i].expected.len(), pages)),
        );
    }
    proof {
        counting::take_all(queries@);
    }
    figures::each_of(value, queries.len())
}

/// The pages of a list that a run did not reach.
pub open spec fn not_reached(run: Run, pages: Seq<Seq<char>>) -> Seq<Seq<char>>
    decreases pages.len(),
{
    if pages.len() == 0 {
        Seq::empty()
    } else if run.reaches(pages.last()) {
        not_reached(run, pages.drop_last())
    } else {
        not_reached(run, pages.drop_last()).push(pages.last())
    }
}

fn pages_not_reached(run: &Run, pages: &Vec<String>) -> (missing: Vec<String>)
    ensures
        text::texts(missing@) == not_reached(*run, text::texts(pages@)),
{
    let ghost all = text::texts(pages@);
    let mut missing: Vec<String> = Vec::new();
    assert(text::texts(missing@) =~= Seq::<Seq<char>>::empty());
    for i in 0..pages.len()
        invariant
            all == text::texts(pages@),
            text::texts(missing@) == not_reached(*run, all.take(i as int)),
    {
        proof {
            counting::one_more(all, i as int);
            assert(all[i as int] == pages@[i as int]@);
        }
        if !run.has_visited(pages[i].as_str()) {
            let ghost was = text::texts(missing@);
            missing.push(pages[i].clone());
            assert(text::texts(missing@) =~= was.push(all[i as int]));
        }
    }
    proof {
        counting::take_all(all);
    }
    missing
}

/// With a row for every run that missed a page of a query of the gold set.
pub open spec fn missed_rows(out: DocView, queries: Seq<Query>, list: Seq<Run>) -> DocView
    decreases list.len(),
{
    if list.len() == 0 {
        out
    } else {
        let run = list.last();
        let before = missed_rows(out, queries, list.drop_last());
        match findings::query_with(queries, run.id@) {
            Some(query) => if figures::field(run, Field::Missed) > 0 {
                let pages = not_reached(run, paths::listed(query.pages()));
                before.row(
                    doc::none()
                        .push(doc::word(cells::code(run.id@)))
                        .push(doc::word(text::joined(coded(pages), ", "@))),
                )
            } else {
                before
            },
            None => before,
        }
    }
}

fn pages_of(query: &Query) -> (pages: Vec<String>)
    ensures
        text::texts(pages@) == query.pages(),
{
    let mut pages: Vec<String> = Vec::new();
    for i in 0..query.expected.len()
        invariant
            pages.len() == i,
            forall|k: int| 0 <= k < i ==> (#[trigger] pages@[k])@ == query.expected@[k].page(),
    {
        pages.push(query.expected[i].path().to_owned());
    }
    assert(text::texts(pages@) =~= query.pages());
    pages
}

fn put_missed_rows(out: &mut Doc, queries: &Vec<Query>, list: &Vec<Run>)
    ensures
        final(out)@ == missed_rows(old(out)@, queries@, list@),
{
    let ghost start = out@;
    for i in 0..list.len()
        invariant
            out@ == missed_rows(start, queries@, list@.take(i as int)),
    {
        proof {
            counting::one_more(list@, i as int);
        }
        let run: &Run = &list[i];
        if figures::field_of(run, Field::Missed) > 0 {
            match findings::find_query(queries, run.id.as_str()) {
                Some(query) => {
                    let wanted: Vec<String> = paths::list_paths(&pages_of(query));
                    let pages: Vec<String> = pages_not_reached(run, &wanted);
                    out.row(
                        doc::args()
                            .text(cells::code_of(run.id.as_str()).as_str())
                            .text(text::join(&code_all(&pages), ", ").as_str()),
                    );
                },
                None => {},
            }
        }
    }
    proof {
        counting::take_all(list@);
    }
}

impl Findings {
    /// What was measured.
    pub open spec fn with_opening(self, out: DocView) -> DocView {
        let out = out.line(TITLE@, doc::none());
        let out = out.gap();
        let budgets = text::joined(budget_names(self.budgets@), " and "@);
        let out = out.line(
            ABOUT@,
            doc::none()
                .push(doc::word(self.wiki@))
                .push(doc::count(self.gold.queries.len() as int))
                .push(doc::word(budgets)),
        );
        let out = out.gap();
        let out = out.line("| | |"@, doc::none());
        let out = out.line("| --- | --- |"@, doc::none());
        let out = out.line(
            CORPUS_ROW@,
            doc::none()
                .push(doc::count(self.corpus.pages.len() as int))
                .push(doc::count(corpus::chars_in_all(self.corpus.pages@)))
                .push(doc::count(self.corpus_tokens())),
        );
        let out = out.line(
            GOLD_ROW@,
            doc::none()
                .push(doc::word(self.gold_path@))
                .push(doc::count(self.gold.queries.len() as int)),
        );
        let models = text::joined(text::texts(self.total.models@), ", "@);
        let out = out.line(
            MODEL_ROW@,
            doc::none()
                .push(doc::word(models)),
        );
        let out = out.line(
            PRICE_ROW@,
            doc::none()
                .push(doc::shown(Num::Double(run::PRICE_PER_MTOK), Form::Fixed(3))),
        );
        let out = out.line(
            WALK_ROW@,
            doc::none()
                .push(doc::shown(Num::Double(self.threshold), Form::Plain))
                .push(doc::count(measure::MAX_DEPTH as int))
                .push(doc::count(measure::FANOUT as int)),
        );
        let out = out.line(
            ANSWERS_ROW@,
            doc::none()
                .push(doc::word(self.cache@)),
        );
        let out = out.line(
            REQUESTS_ROW@,
            doc::none()
                .push(doc::count(self.total.requests as int)),
        );
        out
    }

    pub fn opening(&self, out: &mut Doc)
        requires
            self.sound(),
        ensures
            final(out)@ == self.with_opening(old(out)@),
    {
        out.line(TITLE, doc::args());
        out.gap();
        let budgets: String = text::join(&names_of_budgets(&self.budgets), " and ");
        out.line(
            ABOUT,
            doc::args()
                .text(self.wiki.as_str())
                .count(self.gold.queries.len())
                .text(budgets.as_str()),
        );
        out.gap();
        out.line("| | |", doc::args());
        out.line("| --- | --- |", doc::args());
        out.line(
            CORPUS_ROW,
            doc::args()
                .count(self.corpus.pages.len())
                .sum(self.corpus.chars())
                .sum(self.whole_corpus()),
        );
        out.line(
            GOLD_ROW,
            doc::args()
                .text(self.gold_path.as_str())
                .count(self.gold.queries.len()),
        );
        let models: String = text::join(&self.total.models, ", ");
        out.line(
            MODEL_ROW,
            doc::args()
                .text(models.as_str()),
        );
        out.line(
            PRICE_ROW,
            doc::args()
                .figure(Num::Double(run::PRICE_PER_MTOK), Form::Fixed(3)),
        );
        out.line(
            WALK_ROW,
            doc::args()
                .figure(Num::Double(self.threshold), Form::Plain)
                .count(measure::MAX_DEPTH)
                .count(measure::FANOUT),
        );
        out.line(
            ANSWERS_ROW,
            doc::args()
                .text(self.cache.as_str()),
        );
        out.line(
            REQUESTS_ROW,
            doc::args()
                .sum(self.total.requests as u128),
        );
    }

    /// What the measurement cost.
    pub open spec fn with_price_row(self, out: DocView) -> DocView {
        let s1m = self.shipped();
        let wider = self.widest();
        let tight = self.tight();
        let wide = self.wide();
        let out = out.fill(
            COST_ROW@,
            doc::none()
                .push(cells::cost(s1m)),
        );
        let out = if tight == wide {
            let out = out.fill(
                ONE_BUDGET@,
                doc::none()
                    .push(doc::count(tight)),
            );
            out
        } else {
            let out = out.fill(
                TWO_BUDGETS@,
                doc::none()
                    .push(doc::count(tight))
                    .push(cells::cost(wider))
                    .push(doc::count(wide)),
            );
            out
        };
        let out = out.line(
            COST_ROW_END@,
            doc::none()
                .push(doc::framed("$"@, run::price(self.total.input_tokens), Form::Fixed(6), ""@)),
        );
        let out = out.gap();
        let out = out.line("## Headline"@, doc::none());
        let out = out.gap();
        out
    }

    pub fn price_row(&self, out: &mut Doc)
        requires
            self.sound(),
        ensures
            final(out)@ == self.with_price_row(old(out)@),
    {
        let s1m: &Vec<Run> = &self.budgets[0].runs;
        let wider: &Vec<Run> = &self.budgets[self.budgets.len() - 1].runs;
        let tight: usize = self.budgets[0].budget;
        let wide: usize = self.budgets[self.budgets.len() - 1].budget;
        out.fill(
            COST_ROW,
            doc::args()
                .framed("$", figures::total_of(s1m, Rate::Cost), Form::Fixed(6), ""),
        );
        if tight == wide {
            out.fill(
                ONE_BUDGET,
                doc::args()
                    .count(tight),
            );
        } else {
            out.fill(
                TWO_BUDGETS,
                doc::args()
                    .count(tight)
                    .framed("$", figures::total_of(wider, Rate::Cost), Form::Fixed(6), "")
                    .count(wide),
            );
        }
        out.line(
            COST_ROW_END,
            doc::args()
                .framed("$", self.total.cost_usd(), Form::Fixed(6), ""),
        );
        out.gap();
        out.line("## Headline", doc::args());
        out.gap();
    }

    /// How much of what was wanted is in the list.
    pub open spec fn with_recall_and_precision(self, out: DocView) -> DocView {
        let s1m = self.shipped();
        let wider = self.widest();
        let tight = self.tight();
        let wide = self.wide();
        let out = out.fill(
            RECALL@,
            doc::none()
                .push(doc::count(tight))
                .push(cells::mean(s1m, Rate::Recall))
                .push(cells::mean(s1m, Rate::Precision))
                .push(doc::count(figures::sum_of(s1m, Field::Found)))
                .push(doc::count(figures::sum_of(s1m, Field::Gold)))
                .push(doc::count(figures::sum_of(s1m, Field::Returned)))
                .push(
                    doc::shown(
                        figures::per_run(
                            figures::long(figures::sum_of(s1m, Field::Returned)),
                            s1m.len(),
                        ),
                        Form::Fixed(1),
                    ),
                )
                .push(cells::mean(s1m, Rate::OverVisited))
                .push(doc::count(figures::sum_of(s1m, Field::Visited)))
                .push(doc::count(figures::sum_of(s1m, Field::Returned))),
        );
        let out = if tight == wide {
            let out = out.line(BUDGET_UNKNOWN@, doc::none());
            out
        } else {
            let out = out.line(
                BUDGET_FREE@,
                doc::none()
                    .push(doc::count(wide))
                    .push(doc::count(figures::sum_of(wider, Field::Visited)))
                    .push(cells::mean(wider, Rate::Recall))
                    .push(doc::count(figures::sum_of(wider, Field::Returned))),
            );
            out
        };
        out
    }

    pub fn recall_and_precision(&self, out: &mut Doc)
        requires
            self.sound(),
        ensures
            final(out)@ == self.with_recall_and_precision(old(out)@),
    {
        let s1m: &Vec<Run> = &self.budgets[0].runs;
        let wider: &Vec<Run> = &self.budgets[self.budgets.len() - 1].runs;
        let tight: usize = self.budgets[0].budget;
        let wide: usize = self.budgets[self.budgets.len() - 1].budget;
        out.fill(
            RECALL,
            doc::args()
                .count(tight)
                .figure(figures::mean_of(s1m, Rate::Recall), Form::Fixed(2))
                .figure(figures::mean_of(s1m, Rate::Precision), Form::Fixed(2))
                .sum(figures::sum(s1m, Field::Found))
                .sum(figures::sum(s1m, Field::Gold))
                .sum(figures::sum(s1m, Field::Returned))
                .figure(
                    figures::each_of(Num::Long(figures::sum(s1m, Field::Returned)), s1m.len()),
                    Form::Fixed(1),
                )
                .figure(figures::mean_of(s1m, Rate::OverVisited), Form::Fixed(2))
                .sum(figures::sum(s1m, Field::Visited))
                .sum(figures::sum(s1m, Field::Returned)),
        );
        if tight == wide {
            out.line(BUDGET_UNKNOWN, doc::args());
        } else {
            out.line(
                BUDGET_FREE,
                doc::args()
                    .count(wide)
                    .sum(figures::sum(wider, Field::Visited))
                    .figure(figures::mean_of(wider, Rate::Recall), Form::Fixed(2))
                    .sum(figures::sum(wider, Field::Returned)),
            );
        }
    }

    /// How much of the wanted parts the ranges cover, and what the keyword ranker finds.
    pub open spec fn with_sections_and_keywords(self, out: DocView) -> DocView {
        let s1m = self.shipped();
        let greedy = self.budgets@[0].grep@;
        let out = out.line(
            SECTIONS@,
            doc::none()
                .push(cells::mean(s1m, Rate::SectionRecall))
                .push(doc::count(figures::sum_of(s1m, Field::Parts)))
                .push(doc::count(figures::sum_of(s1m, Field::Gold)))
                .push(cells::mean(s1m, Rate::Recall))
                .push(doc::count(figures::sum_of(s1m, Field::Found)))
                .push(doc::count(figures::sum_of(s1m, Field::ReadLines))),
        );
        let out = out.line(
            KEYWORDS@,
            doc::none()
                .push(cells::mean(greedy, Rate::Recall))
                .push(cells::mean(s1m, Rate::Recall))
                .push(doc::count(figures::sum_of(greedy, Field::ReadTokens)))
                .push(doc::count(figures::sum_of(s1m, Field::ReadTokens)))
                .push(
                    figures::times(
                        figures::sum_of(greedy, Field::ReadTokens),
                        figures::sum_of(s1m, Field::ReadTokens),
                    ),
                )
                .push(
                    doc::shown(
                        figures::minus(
                            figures::mean(greedy, Rate::Recall),
                            figures::mean(s1m, Rate::Recall),
                        ),
                        Form::Fixed(2),
                    ),
                ),
        );
        out
    }

    pub fn sections_and_keywords(&self, out: &mut Doc)
        requires
            self.sound(),
        ensures
            final(out)@ == self.with_sections_and_keywords(old(out)@),
    {
        let s1m: &Vec<Run> = &self.budgets[0].runs;
        let greedy: &Vec<Run> = &self.budgets[0].grep;
        out.line(
            SECTIONS,
            doc::args()
                .figure(figures::mean_of(s1m, Rate::SectionRecall), Form::Fixed(2))
                .sum(figures::sum(s1m, Field::Parts))
                .sum(figures::sum(s1m, Field::Gold))
                .figure(figures::mean_of(s1m, Rate::Recall), Form::Fixed(2))
                .sum(figures::sum(s1m, Field::Found))
                .sum(figures::sum(s1m, Field::ReadLines)),
        );
        out.line(
            KEYWORDS,
            doc::args()
                .figure(figures::mean_of(greedy, Rate::Recall), Form::Fixed(2))
                .figure(figures::mean_of(s1m, Rate::Recall), Form::Fixed(2))
                .sum(figures::sum(greedy, Field::ReadTokens))
                .sum(figures::sum(s1m, Field::ReadTokens))
                .with(
                    figures::times_of(
                        figures::sum(greedy, Field::ReadTokens),
                        figures::sum(s1m, Field::ReadTokens),
                    ),
                )
                .figure(
                    figures::difference(
                        figures::mean_of(greedy, Rate::Recall),
                        figures::mean_of(s1m, Rate::Recall),
                    ),
                    Form::Fixed(2),
                ),
        );
    }

    /// What an agent reads.
    pub open spec fn with_reading(self, out: DocView) -> DocView {
        let s1m = self.shipped();
        let read = figures::sum_of(s1m, Field::ReadTokens);
        let whole = figures::sum_of(s1m, Field::WholeTokens);
        let everything = self.unranked_tokens();
        let out = out.line(
            READING@,
            doc::none()
                .push(doc::count(read))
                .push(doc::count(whole))
                .push(doc::count(everything))
                .push(doc::shown(figures::share(whole, everything), Form::Fixed(0)))
                .push(doc::shown(figures::share(runs::less(whole, read), whole), Form::Fixed(0)))
                .push(
                    doc::shown(
                        figures::share(runs::less(everything, read), everything),
                        Form::Fixed(0),
                    ),
                ),
        );
        out
    }

    pub fn reading(&self, out: &mut Doc)
        requires
            self.sound(),
        ensures
            final(out)@ == self.with_reading(old(out)@),
    {
        let s1m: &Vec<Run> = &self.budgets[0].runs;
        let read: u128 = figures::sum(s1m, Field::ReadTokens);
        let whole: u128 = figures::sum(s1m, Field::WholeTokens);
        let everything: u128 = self.unranked();
        out.line(
            READING,
            doc::args()
                .sum(read)
                .sum(whole)
                .sum(everything)
                .figure(figures::share_of(whole, everything), Form::Fixed(0))
                .figure(figures::share_of(figures::less_of(whole, read), whole), Form::Fixed(0))
                .figure(
                    figures::share_of(figures::less_of(everything, read), everything),
                    Form::Fixed(0),
                ),
        );
    }

    /// What it costs.
    pub open spec fn with_costs(self, out: DocView) -> DocView {
        let s1m = self.shipped();
        let wider = self.widest();
        let tight = self.tight();
        let wide = self.wide();
        let out = out.fill(
            COSTS@,
            doc::none()
                .push(cells::cost(s1m))
                .push(doc::count(tight))
                .push(
                    doc::framed(
                        "$"@,
                        figures::per_run(figures::total(s1m, Rate::Cost), s1m.len()),
                        Form::Fixed(6),
                        ""@,
                    ),
                )
                .push(
                    doc::framed(
                        ""@,
                        figures::seconds(figures::mean_run_latency(s1m)),
                        Form::Fixed(2),
                        " s"@,
                    ),
                ),
        );
        let out = if tight == wide {
            out
        } else {
            let out = out.fill(
                COSTS_WIDE@,
                doc::none()
                    .push(cells::cost(wider))
                    .push(doc::count(wide)),
            );
            out
        };
        let out = out.line(
            COSTS_END@,
            doc::none()
                .push(doc::framed("$"@, run::price(self.total.input_tokens), Form::Fixed(6), ""@)),
        );
        out
    }

    pub fn costs(&self, out: &mut Doc)
        requires
            self.sound(),
        ensures
            final(out)@ == self.with_costs(old(out)@),
    {
        let s1m: &Vec<Run> = &self.budgets[0].runs;
        let wider: &Vec<Run> = &self.budgets[self.budgets.len() - 1].runs;
        let tight: usize = self.budgets[0].budget;
        let wide: usize = self.budgets[self.budgets.len() - 1].budget;
        out.fill(
            COSTS,
            doc::args()
                .framed("$", figures::total_of(s1m, Rate::Cost), Form::Fixed(6), "")
                .count(tight)
                .framed(
                    "$",
                    figures::each_of(figures::total_of(s1m, Rate::Cost), s1m.len()),
                    Form::Fixed(6),
                    "",
                )
                .framed("", figures::seconds_of(figures::latency_of(s1m)), Form::Fixed(2), " s"),
        );
        if tight == wide {
        } else {
            out.fill(
                COSTS_WIDE,
                doc::args()
                    .framed("$", figures::total_of(wider, Rate::Cost), Form::Fixed(6), "")
                    .count(wide),
            );
        }
        out.line(
            COSTS_END,
            doc::args()
                .framed("$", self.total.cost_usd(), Form::Fixed(6), ""),
        );
    }

    /// What other thresholds would have found.
    pub open spec fn with_where_the_threshold_sits(self, out: DocView) -> DocView {
        let out = out.fill(
            THRESHOLD@,
            doc::none()
                .push(doc::shown(Num::Double(self.threshold), Form::Plain)),
        );
        let out = swept(out, self.sweep@, self.shipped());
        let out = out.line(
            THRESHOLD_END@,
            doc::none()
                .push(doc::shown(self.followed_share(), Form::Fixed(2)))
                .push(doc::shown(self.passed_share(), Form::Fixed(2)))
                .push(doc::count(figures::cleared(self.links(), self.threshold) as int)),
        );
        out
    }

    pub fn where_the_threshold_sits(&self, out: &mut Doc)
        requires
            self.sound(),
        ensures
            final(out)@ == self.with_where_the_threshold_sits(old(out)@),
    {
        out.fill(
            THRESHOLD,
            doc::args()
                .figure(Num::Double(self.threshold), Form::Plain),
        );
        put_swept(out, &self.sweep, &self.budgets[0].runs);
        let decision: Decision = self.decision();
        out.line(
            THRESHOLD_END,
            doc::args()
                .figure(decision.followed.rate(), Form::Fixed(2))
                .figure(decision.passed.rate(), Form::Fixed(2))
                .count(decision.cleared),
        );
    }

    /// What the frontmatter of a preview earns.
    pub open spec fn with_frontmatter(self, out: DocView) -> DocView {
        let s1m = self.shipped();
        let bare = self.previews@[0].runs@;
        let off = self.previews@[1].runs@;
        let out = out.line(
            FRONTMATTER@,
            doc::none()
                .push(
                    doc::shown(
                        figures::minus(
                            figures::mean(s1m, Rate::Recall),
                            figures::mean(bare, Rate::Recall),
                        ),
                        Form::Fixed(2),
                    ),
                )
                .push(cells::mean(s1m, Rate::Recall))
                .push(cells::mean(bare, Rate::Recall))
                .push(
                    figures::delta(
                        figures::sum_of(bare, Field::InputTokens),
                        figures::sum_of(s1m, Field::InputTokens),
                    ),
                )
                .push(
                    doc::shown(
                        figures::minus(
                            figures::mean(s1m, Rate::Recall),
                            figures::mean(off, Rate::Recall),
                        ),
                        Form::Fixed(2),
                    ),
                ),
        );
        let out = out.gap();
        out
    }

    pub fn frontmatter(&self, out: &mut Doc)
        requires
            self.sound(),
        ensures
            final(out)@ == self.with_frontmatter(old(out)@),
    {
        let s1m: &Vec<Run> = &self.budgets[0].runs;
        let bare: &Vec<Run> = &self.previews[0].runs;
        let off: &Vec<Run> = &self.previews[1].runs;
        out.line(
            FRONTMATTER,
            doc::args()
                .figure(
                    figures::difference(
                        figures::mean_of(s1m, Rate::Recall),
                        figures::mean_of(bare, Rate::Recall),
                    ),
                    Form::Fixed(2),
                )
                .figure(figures::mean_of(s1m, Rate::Recall), Form::Fixed(2))
                .figure(figures::mean_of(bare, Rate::Recall), Form::Fixed(2))
                .with(
                    figures::delta_of(
                        figures::sum(bare, Field::InputTokens),
                        figures::sum(s1m, Field::InputTokens),
                    ),
                )
                .figure(
                    figures::difference(
                        figures::mean_of(s1m, Rate::Recall),
                        figures::mean_of(off, Rate::Recall),
                    ),
                    Form::Fixed(2),
                ),
        );
        out.gap();
    }

    /// The first screen: what was measured, and the numbers that decide anything.
    pub open spec fn with_headline(self, out: DocView) -> DocView {
        let out = self.with_opening(out);
        let out = self.with_price_row(out);
        let out = self.with_recall_and_precision(out);
        let out = self.with_sections_and_keywords(out);
        let out = self.with_reading(out);
        let out = self.with_costs(out);
        let out = self.with_where_the_threshold_sits(out);
        let out = self.with_frontmatter(out);
        out
    }

    pub fn headline(&self, out: &mut Doc)
        requires
            self.sound(),
        ensures
            final(out)@ == self.with_headline(old(out)@),
    {
        self.opening(out);
        self.price_row(out);
        self.recall_and_precision(out);
        self.sections_and_keywords(out);
        self.reading(out);
        self.costs(out);
        self.where_the_threshold_sits(out);
        self.frontmatter(out);
    }

    /// The command that makes the same report.
    pub open spec fn with_how_to_reproduce(self, out: DocView) -> DocView {
        let out = out.line("## How to reproduce"@, doc::none());
        let out = out.gap();
        let out = out.line("```bash"@, doc::none());
        let out = out.line("cargo run --release --bin eval -- \\"@, doc::none());
        let out = out.line(
            "  --wiki {} \\"@,
            doc::none()
                .push(doc::word(self.wiki@)),
        );
        let out = out.line(
            "  --gold {} \\"@,
            doc::none()
                .push(doc::word(self.gold_path@)),
        );
        let out = with_flag(out, self.cache_flag);
        let out = if self.policies is Some {
            let out = out.line("  --relative-judge \\"@, doc::none());
            out
        } else {
            out
        };
        let out = if self.wordings is Some {
            let out = out.line("  --wordings \\"@, doc::none());
            out
        } else {
            out
        };
        let out = out.line("  --out PATH"@, doc::none());
        let out = out.line("```"@, doc::none());
        let out = out.gap();
        let out = out.line(REPRODUCE@, doc::none());
        let out = out.gap();
        out
    }

    pub fn how_to_reproduce(&self, out: &mut Doc)
        requires
            self.sound(),
        ensures
            final(out)@ == self.with_how_to_reproduce(old(out)@),
    {
        out.line("## How to reproduce", doc::args());
        out.gap();
        out.line("```bash", doc::args());
        out.line("cargo run --release --bin eval -- \\", doc::args());
        out.line(
            "  --wiki {} \\",
            doc::args()
                .text(self.wiki.as_str()),
        );
        out.line(
            "  --gold {} \\",
            doc::args()
                .text(self.gold_path.as_str()),
        );
        put_flag(out, &self.cache_flag);
        if self.policies.is_some() {
            out.line("  --relative-judge \\", doc::args());
        }
        if self.wordings.is_some() {
            out.line("  --wordings \\", doc::args());
        }
        out.line("  --out PATH", doc::args());
        out.line("```", doc::args());
        out.gap();
        out.line(REPRODUCE, doc::args());
        out.gap();
    }

    /// The queries and what they want.
    pub open spec fn with_the_gold_set(self, out: DocView) -> DocView {
        let out = out.line("## The gold set"@, doc::none());
        let out = out.gap();
        let out = out.line(
            GOLD@,
            doc::none()
                .push(doc::count(self.gold.queries.len() as int)),
        );
        let out = out.gap();
        let out = out.line("<details><summary>The queries</summary>"@, doc::none());
        let out = out.gap();
        let out = out.head(
            doc::none()
                .push(doc::word("Query"@))
                .push(doc::word("Mode"@))
                .push(doc::word("Entry"@))
                .push(doc::word("Wanted"@))
                .push(doc::word("Why"@)),
        );
        let out = labelled_queries(out, self.gold.queries@);
        let out = out.gap();
        let out = out.line("</details>"@, doc::none());
        let out = out.gap();
        out
    }

    pub fn the_gold_set(&self, out: &mut Doc)
        requires
            self.sound(),
        ensures
            final(out)@ == self.with_the_gold_set(old(out)@),
    {
        out.line("## The gold set", doc::args());
        out.gap();
        out.line(
            GOLD,
            doc::args()
                .count(self.gold.queries.len()),
        );
        out.gap();
        out.line("<details><summary>The queries</summary>", doc::args());
        out.gap();
        out.head(
            doc::args()
                .text("Query")
                .text("Mode")
                .text("Entry")
                .text("Wanted")
                .text("Why"),
        );
        put_queries(out, &self.gold.queries);
        out.gap();
        out.line("</details>", doc::args());
        out.gap();
    }

    /// What the reading list returned, at each budget.
    pub open spec fn with_at_a_budget(self, out: DocView) -> DocView {
        let out = out.line("## Results at a fixed file budget"@, doc::none());
        let out = out.gap();
        let s1m = self.shipped();
        let tight = self.tight();
        let out = out.line(
            AT_A_BUDGET@,
            doc::none()
                .push(doc::shown(Num::Double(self.threshold), Form::Plain))
                .push(doc::count(tight))
                .push(doc::count(figures::sum_of(s1m, Field::Visited)))
                .push(doc::count(figures::sum_of(s1m, Field::Returned)))
                .push(cells::mean(s1m, Rate::Precision))
                .push(cells::mean(s1m, Rate::OverVisited)),
        );
        let out = out.gap();
        let out = budget_tables(out, self.budgets@);
        let missing = paths::listed(all_unread(self.budgets@));
        let out = if missing.len() > 0 {
            let names = text::joined(coded(missing), ", "@);
            let out = out.line(
                UNREADABLE@,
                doc::none()
                    .push(doc::word(names)),
            );
            let out = out.gap();
            out
        } else {
            out
        };
        out
    }

    pub fn at_a_budget(&self, out: &mut Doc)
        requires
            self.sound(),
        ensures
            final(out)@ == self.with_at_a_budget(old(out)@),
    {
        out.line("## Results at a fixed file budget", doc::args());
        out.gap();
        let s1m: &Vec<Run> = &self.budgets[0].runs;
        let tight: usize = self.budgets[0].budget;
        out.line(
            AT_A_BUDGET,
            doc::args()
                .figure(Num::Double(self.threshold), Form::Plain)
                .count(tight)
                .sum(figures::sum(s1m, Field::Visited))
                .sum(figures::sum(s1m, Field::Returned))
                .figure(figures::mean_of(s1m, Rate::Precision), Form::Fixed(2))
                .figure(figures::mean_of(s1m, Rate::OverVisited), Form::Fixed(2)),
        );
        out.gap();
        put_budgets(out, &self.budgets);
        let missing: Vec<String> = paths::list_paths(&unread_files(&self.budgets));
        if missing.len() > 0 {
            let names: String = text::join(&code_all(&missing), ", ");
            out.line(
                UNREADABLE,
                doc::args()
                    .text(names.as_str()),
            );
            out.gap();
        }
    }

    /// The two controls: the keyword ranker, and reading everything.
    pub open spec fn with_against_grep(self, out: DocView) -> DocView {
        let out = out.line("## Against grep, and against reading the corpus"@, doc::none());
        let out = out.gap();
        let out = out.line(
            GREP@,
            doc::none()
                .push(doc::count(self.corpus.pages.len() as int)),
        );
        let out = out.gap();
        let out = out.head(
            doc::none()
                .push(doc::word("Budget"@))
                .push(doc::word("s1m recall"@))
                .push(doc::word("s1m precision"@))
                .push(doc::word("s1m read (tok)"@))
                .push(doc::word("grep recall"@))
                .push(doc::word("grep precision"@))
                .push(doc::word("grep read (tok)"@)),
        );
        let out = grep_rows(out, self.budgets@);
        let out = out.line(
            "| whole corpus | 1.00 | {} | {} | | | |"@,
            doc::none()
                .push(
                    doc::shown(
                        mean_gold_over(self.gold.queries@, self.corpus.pages.len() as nat),
                        Form::Fixed(2),
                    ),
                )
                .push(doc::count(self.unranked_tokens())),
        );
        let out = out.gap();
        let s1m = self.shipped();
        let out = out.line(
            UNRANKED@,
            doc::none()
                .push(doc::count(self.unranked_tokens()))
                .push(
                    figures::times(self.unranked_tokens(), figures::sum_of(s1m, Field::ReadTokens)),
                )
                .push(doc::count(self.corpus.pages.len() as int)),
        );
        let out = out.gap();
        out
    }

    pub fn against_grep(&self, out: &mut Doc)
        requires
            self.sound(),
        ensures
            final(out)@ == self.with_against_grep(old(out)@),
    {
        out.line("## Against grep, and against reading the corpus", doc::args());
        out.gap();
        out.line(
            GREP,
            doc::args()
                .count(self.corpus.pages.len()),
        );
        out.gap();
        out.head(
            doc::args()
                .text("Budget")
                .text("s1m recall")
                .text("s1m precision")
                .text("s1m read (tok)")
                .text("grep recall")
                .text("grep precision")
                .text("grep read (tok)"),
        );
        put_grep_rows(out, &self.budgets);
        out.line(
            "| whole corpus | 1.00 | {} | {} | | | |",
            doc::args()
                .figure(gold_over(&self.gold.queries, self.corpus.pages.len()), Form::Fixed(2))
                .sum(self.unranked()),
        );
        out.gap();
        let s1m: &Vec<Run> = &self.budgets[0].runs;
        out.line(
            UNRANKED,
            doc::args()
                .sum(self.unranked())
                .with(figures::times_of(self.unranked(), figures::sum(s1m, Field::ReadTokens)))
                .count(self.corpus.pages.len()),
        );
        out.gap();
    }

    /// The wanted pages no walk reached, and what the cutoff costs.
    pub open spec fn with_never_reached(self, out: DocView) -> DocView {
        let out = out.line("## The pages no walk reached"@, doc::none());
        let out = out.gap();
        let wider = self.widest();
        let wide = self.wide();
        let missed = figures::sum_of(wider, Field::Missed);
        let cut_off = figures::sum_of(wider, Field::CutOff);
        let out = out.line(
            MISSED@,
            doc::none()
                .push(doc::count(wide))
                .push(doc::count(missed)),
        );
        let out = if cut_off > 0 {
            let out = out.line(
                CUT_OFF@,
                doc::none()
                    .push(doc::count(cut_off))
                    .push(doc::count(figures::sum_of(wider, Field::Reached))),
            );
            out
        } else {
            out
        };
        let out = out.gap();
        let out = if missed > 0 {
            let out = out.head(
                doc::none()
                    .push(doc::word("Query"@))
                    .push(doc::word("Wanted but not reached"@)),
            );
            let out = missed_rows(out, self.gold.queries@, wider);
            let out = out.gap();
            out
        } else {
            out
        };
        out
    }

    pub fn never_reached(&self, out: &mut Doc)
        requires
            self.sound(),
        ensures
            final(out)@ == self.with_never_reached(old(out)@),
    {
        out.line("## The pages no walk reached", doc::args());
        out.gap();
        let wider: &Vec<Run> = &self.budgets[self.budgets.len() - 1].runs;
        let wide: usize = self.budgets[self.budgets.len() - 1].budget;
        let missed: u128 = figures::sum(wider, Field::Missed);
        let cut_off: u128 = figures::sum(wider, Field::CutOff);
        out.line(
            MISSED,
            doc::args()
                .count(wide)
                .sum(missed),
        );
        if cut_off > 0 {
            out.line(
                CUT_OFF,
                doc::args()
                    .sum(cut_off)
                    .sum(figures::sum(wider, Field::Reached)),
            );
        }
        out.gap();
        if missed > 0 {
            out.head(
                doc::args()
                    .text("Query")
                    .text("Wanted but not reached"),
            );
            put_missed_rows(out, &self.gold.queries, wider);
            out.gap();
        }
    }
}

} // verus!
