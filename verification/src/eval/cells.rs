//! The cells and columns that a report's tables are made of.

use vstd::prelude::*;

use crate::counting;
use crate::doc;
use crate::doc::{Arg, ArgView, Args, Doc, DocView, Form};
use crate::eval::figures;
use crate::eval::figures::{Field, Rate};
use crate::eval::findings::Row;
use crate::eval::runs::Run;
use crate::text;

verus! {

/// A text as code.
pub open spec fn code(t: Seq<char>) -> Seq<char> {
    "`"@ + t + "`"@
}

pub fn code_of(t: &str) -> (cell: String)
    ensures
        cell@ == code(t@),
{
    let mut cell: String = "`".to_owned();
    cell.append(t);
    cell.append("`");
    cell
}

/// A text in bold.
pub open spec fn bold(t: Seq<char>) -> Seq<char> {
    "**"@ + t + "**"@
}

pub fn bold_of(t: &str) -> (cell: String)
    ensures
        cell@ == bold(t@),
{
    let mut cell: String = "**".to_owned();
    cell.append(t);
    cell.append("**");
    cell
}

/// A whole number in bold.
pub open spec fn bold_count(n: int) -> ArgView {
    doc::word(bold(text::decimal(n as nat)))
}

pub fn bold_sum(n: u128) -> (cell: Arg)
    ensures
        cell@ == bold_count(n as int),
{
    Arg::Text(bold_of(text::long_number(n).as_str()))
}

/// The rule under as many headings.
pub open spec fn rules(n: nat) -> Seq<ArgView>
    decreases n,
{
    if n == 0 {
        doc::none()
    } else {
        rules((n - 1) as nat).push(doc::word("---"@))
    }
}

impl DocView {
    /// With a table's headings and its rule written at the end.
    pub open spec fn head(self, cells: Seq<ArgView>) -> DocView {
        self.row(cells).row(rules(cells.len()))
    }

    /// With an empty line written at the end.
    pub open spec fn gap(self) -> DocView {
        self.text("\n"@)
    }
}

impl Doc {
    /// Writes a table's headings and its rule at the end.
    pub fn head(&mut self, cells: Args)
        ensures
            final(self)@ == old(self)@.head(cells@),
    {
        let n: usize = cells.list.len();
        assert(cells@.len() == n);
        let mut rule: Args = doc::args();
        for i in 0..n
            invariant
                rule@ == rules(i as nat),
        {
            rule = rule.text("---");
        }
        self.row(cells);
        self.row(rule);
    }

    /// Writes an empty line at the end.
    pub fn gap(&mut self)
        ensures
            final(self)@ == old(self)@.gap(),
    {
        self.text("\n");
    }
}

/// What a column of a table of walks holds.
#[derive(PartialEq, Eq, Structural, Clone, Copy)]
pub enum Column {
    Recall,
    SectionRecall,
    Precision,
    OverVisited,
    ReadTokens,
    Lines,
    WholeTokens,
    Returned,
    InputTokens,
    Cost,
    Requests,
    PerAnswer,
    Latency,
}

impl Column {
    pub open spec fn heading(self) -> Seq<char> {
        match self {
            Column::Recall => "Recall"@,
            Column::SectionRecall => "Section recall"@,
            Column::Precision => "Precision"@,
            Column::OverVisited => "Precision (visited)"@,
            Column::ReadTokens => "Read (tok)"@,
            Column::Lines => "Lines"@,
            Column::WholeTokens => "Whole (tok)"@,
            Column::Returned => "Returned"@,
            Column::InputTokens => "Input (tok)"@,
            Column::Cost => "Cost"@,
            Column::Requests => "Requests"@,
            Column::PerAnswer => "Req/answer"@,
            Column::Latency => "ms/answer"@,
        }
    }

    pub fn title(&self) -> (title: &'static str)
        ensures
            title@ == self.heading(),
    {
        match self {
            Column::Recall => "Recall",
            Column::SectionRecall => "Section recall",
            Column::Precision => "Precision",
            Column::OverVisited => "Precision (visited)",
            Column::ReadTokens => "Read (tok)",
            Column::Lines => "Lines",
            Column::WholeTokens => "Whole (tok)",
            Column::Returned => "Returned",
            Column::InputTokens => "Input (tok)",
            Column::Cost => "Cost",
            Column::Requests => "Requests",
            Column::PerAnswer => "Req/answer",
            Column::Latency => "ms/answer",
        }
    }

    /// The mean of a ratio over the runs of a walk, a sum over them, or what they cost.
    pub open spec fn shows(self, runs: Seq<Run>) -> ArgView {
        match self {
            Column::Recall => mean(runs, Rate::Recall),
            Column::SectionRecall => mean(runs, Rate::SectionRecall),
            Column::Precision => mean(runs, Rate::Precision),
            Column::OverVisited => mean(runs, Rate::OverVisited),
            Column::ReadTokens => doc::count(figures::sum_of(runs, Field::ReadTokens)),
            Column::Lines => doc::count(figures::sum_of(runs, Field::ReadLines)),
            Column::WholeTokens => doc::count(figures::sum_of(runs, Field::WholeTokens)),
            Column::Returned => doc::count(figures::sum_of(runs, Field::Returned)),
            Column::InputTokens => doc::count(figures::sum_of(runs, Field::InputTokens)),
            Column::Cost => cost(runs),
            Column::Requests => doc::count(figures::sum_of(runs, Field::Requests)),
            Column::PerAnswer => doc::shown(figures::requests_per_answer(runs), Form::Fixed(2)),
            Column::Latency => doc::count(figures::millis(figures::mean_run_latency(runs))),
        }
    }

    /// The cells with this column's behind them.
    fn put(&self, cells: Args, runs: &Vec<Run>) -> (more: Args)
        ensures
            more@ == cells@.push(self.shows(runs@)),
    {
        match self {
            Column::Recall => cells.figure(figures::mean_of(runs, Rate::Recall), Form::Fixed(2)),
            Column::SectionRecall => cells.figure(
                figures::mean_of(runs, Rate::SectionRecall),
                Form::Fixed(2),
            ),
            Column::Precision => cells.figure(
                figures::mean_of(runs, Rate::Precision),
                Form::Fixed(2),
            ),
            Column::OverVisited => cells.figure(
                figures::mean_of(runs, Rate::OverVisited),
                Form::Fixed(2),
            ),
            Column::ReadTokens => cells.sum(figures::sum(runs, Field::ReadTokens)),
            Column::Lines => cells.sum(figures::sum(runs, Field::ReadLines)),
            Column::WholeTokens => cells.sum(figures::sum(runs, Field::WholeTokens)),
            Column::Returned => cells.sum(figures::sum(runs, Field::Returned)),
            Column::InputTokens => cells.sum(figures::sum(runs, Field::InputTokens)),
            Column::Cost => cells.framed(
                "$",
                figures::total_of(runs, Rate::Cost),
                Form::Fixed(6),
                "",
            ),
            Column::Requests => cells.sum(figures::sum(runs, Field::Requests)),
            Column::PerAnswer => cells.figure(figures::requests_each(runs), Form::Fixed(2)),
            Column::Latency => cells.sum(figures::millis_of(figures::latency_of(runs))),
        }
    }
}

/// The mean of a ratio over runs, as a report shows it.
pub open spec fn mean(runs: Seq<Run>, which: Rate) -> ArgView {
    doc::shown(figures::mean(runs, which), Form::Fixed(2))
}

/// What runs cost, as a report shows it.
pub open spec fn cost(runs: Seq<Run>) -> ArgView {
    doc::framed("$"@, figures::total(runs, Rate::Cost), Form::Fixed(6), ""@)
}

/// Columns in order.
pub struct Columns {
    pub list: Vec<Column>,
}

impl Columns {
    pub fn new() -> (columns: Columns)
        ensures
            columns.list@ == Seq::<Column>::empty(),
    {
        Columns { list: Vec::new() }
    }

    /// With one column more.
    pub fn with(self, column: Column) -> (columns: Columns)
        ensures
            columns.list@ == self.list@.push(column),
    {
        let mut list: Vec<Column> = self.list;
        list.push(column);
        Columns { list }
    }
}

/// Cells with the headings of columns behind them.
pub open spec fn titled(cells: Seq<ArgView>, columns: Seq<Column>) -> Seq<ArgView>
    decreases columns.len(),
{
    if columns.len() == 0 {
        cells
    } else {
        titled(cells, columns.drop_last()).push(doc::word(columns.last().heading()))
    }
}

/// Cells with what columns show of runs behind them.
pub open spec fn filled(
    cells: Seq<ArgView>,
    columns: Seq<Column>,
    runs: Seq<Run>,
) -> Seq<ArgView>
    decreases columns.len(),
{
    if columns.len() == 0 {
        cells
    } else {
        filled(cells, columns.drop_last(), runs).push(columns.last().shows(runs))
    }
}

pub fn title_all(cells: Args, columns: &Columns) -> (all: Args)
    ensures
        all@ == titled(cells@, columns.list@),
{
    let ghost start = cells@;
    let mut all: Args = cells;
    for i in 0..columns.list.len()
        invariant
            all@ == titled(start, columns.list@.take(i as int)),
    {
        proof {
            counting::one_more(columns.list@, i as int);
        }
        all = all.text(columns.list[i].title());
    }
    proof {
        counting::take_all(columns.list@);
    }
    all
}

pub fn fill_all(cells: Args, columns: &Columns, runs: &Vec<Run>) -> (all: Args)
    ensures
        all@ == filled(cells@, columns.list@, runs@),
{
    let ghost start = cells@;
    let mut all: Args = cells;
    for i in 0..columns.list.len()
        invariant
            all@ == filled(start, columns.list@.take(i as int), runs@),
    {
        proof {
            counting::one_more(columns.list@, i as int);
        }
        all = columns.list[i].put(all, runs);
    }
    proof {
        counting::take_all(columns.list@);
    }
    all
}

impl DocView {
    /// With a row of a table of walks written at the end.
    pub open spec fn walk(
        self,
        label: ArgView,
        columns: Seq<Column>,
        runs: Seq<Run>,
    ) -> DocView {
        self.row(filled(doc::none().push(label), columns, runs))
    }

    /// With the rows of a table of walks written at the end.
    pub open spec fn walks(self, columns: Seq<Column>, rows: Seq<Row>) -> DocView
        decreases rows.len(),
    {
        if rows.len() == 0 {
            self
        } else {
            self.walks(columns, rows.drop_last()).walk(
                doc::word(rows.last().label@),
                columns,
                rows.last().runs@,
            )
        }
    }

    /// With a table written at the end: what ships, then every other way of asking.
    pub open spec fn table(
        self,
        corner: Seq<char>,
        columns: Seq<Column>,
        label: Seq<char>,
        shipped: Seq<Run>,
        rows: Seq<Row>,
    ) -> DocView {
        self.head(titled(doc::none().push(doc::word(corner)), columns)).walk(
            doc::word(label),
            columns,
            shipped,
        ).walks(columns, rows).gap()
    }
}

impl Doc {
    /// Writes a row of a table of walks at the end.
    pub fn walk(&mut self, label: Args, columns: &Columns, runs: &Vec<Run>)
        requires
            label@.len() == 1,
        ensures
            final(self)@ == old(self)@.walk(label@[0], columns.list@, runs@),
    {
        assert(label@ =~= doc::none().push(label@[0]));
        self.row(fill_all(label, columns, runs));
    }

    /// Writes a table at the end: what ships, then every other way of asking.
    pub fn table(
        &mut self,
        corner: &str,
        columns: &Columns,
        label: &str,
        shipped: &Vec<Run>,
        rows: &Vec<Row>,
    )
        ensures
            final(self)@ == old(self)@.table(corner@, columns.list@, label@, shipped@, rows@),
    {
        self.head(title_all(doc::args().text(corner), columns));
        self.walk(doc::args().text(label), columns, shipped);
        let ghost start = self@;
        for i in 0..rows.len()
            invariant
                self@ == start.walks(columns.list@, rows@.take(i as int)),
        {
            proof {
                counting::one_more(rows@, i as int);
            }
            self.walk(doc::args().text(rows[i].label.as_str()), columns, &rows[i].runs);
        }
        proof {
            counting::take_all(rows@);
        }
        self.gap();
    }
}

/// Cells with the labels of rows behind them.
pub open spec fn labelled(cells: Seq<ArgView>, rows: Seq<Row>) -> Seq<ArgView>
    decreases rows.len(),
{
    if rows.len() == 0 {
        cells
    } else {
        labelled(cells, rows.drop_last()).push(doc::word(rows.last().label@))
    }
}

pub fn label_all(cells: Args, rows: &Vec<Row>) -> (all: Args)
    ensures
        all@ == labelled(cells@, rows@),
{
    let ghost start = cells@;
    let mut all: Args = cells;
    for i in 0..rows.len()
        invariant
            all@ == labelled(start, rows@.take(i as int)),
    {
        proof {
            counting::one_more(rows@, i as int);
        }
        all = all.text(rows[i].label.as_str());
    }
    proof {
        counting::take_all(rows@);
    }
    all
}

/// The recall of a run, as a report shows it.
pub open spec fn recall(run: Run) -> ArgView {
    doc::shown(figures::rate(run, Rate::Recall), Form::Fixed(2))
}

/// Cells with the recall of one query in each row behind them.
pub open spec fn recalled(cells: Seq<ArgView>, rows: Seq<Row>, at: int) -> Seq<ArgView>
    decreases rows.len(),
{
    if rows.len() == 0 {
        cells
    } else {
        recalled(cells, rows.drop_last(), at).push(recall(rows.last().runs@[at]))
    }
}

pub fn recall_all(cells: Args, rows: &Vec<Row>, at: usize) -> (all: Args)
    requires
        forall|i: int| 0 <= i < rows.len() ==> at < (#[trigger] rows@[i]).runs.len(),
    ensures
        all@ == recalled(cells@, rows@, at as int),
{
    let ghost start = cells@;
    let mut all: Args = cells;
    for i in 0..rows.len()
        invariant
            forall|i: int| 0 <= i < rows.len() ==> at < (#[trigger] rows@[i]).runs.len(),
            all@ == recalled(start, rows@.take(i as int), at as int),
    {
        proof {
            counting::one_more(rows@, i as int);
        }
        all = all.figure(figures::rate_of(&rows[i].runs[at], Rate::Recall), Form::Fixed(2));
    }
    proof {
        counting::take_all(rows@);
    }
    all
}

/// Cells with the requests of one query in each row behind them.
pub open spec fn requested(cells: Seq<ArgView>, rows: Seq<Row>, at: int) -> Seq<ArgView>
    decreases rows.len(),
{
    if rows.len() == 0 {
        cells
    } else {
        requested(cells, rows.drop_last(), at).push(
            doc::count(rows.last().runs@[at].spent.requests as int),
        )
    }
}

pub fn request_all(cells: Args, rows: &Vec<Row>, at: usize) -> (all: Args)
    requires
        forall|i: int| 0 <= i < rows.len() ==> at < (#[trigger] rows@[i]).runs.len(),
    ensures
        all@ == requested(cells@, rows@, at as int),
{
    let ghost start = cells@;
    let mut all: Args = cells;
    for i in 0..rows.len()
        invariant
            forall|i: int| 0 <= i < rows.len() ==> at < (#[trigger] rows@[i]).runs.len(),
            all@ == requested(start, rows@.take(i as int), at as int),
    {
        proof {
            counting::one_more(rows@, i as int);
        }
        all = all.sum(rows[i].runs[at].spent.requests as u128);
    }
    proof {
        counting::take_all(rows@);
    }
    all
}

/// The mean of a ratio over runs, in bold.
pub open spec fn bold_mean(runs: Seq<Run>, which: Rate) -> ArgView {
    doc::framed("**"@, figures::mean(runs, which), Form::Fixed(2), "**"@)
}

pub fn put_bold_mean(cells: Args, runs: &Vec<Run>, which: Rate) -> (more: Args)
    ensures
        more@ == cells@.push(bold_mean(runs@, which)),
{
    cells.framed("**", figures::mean_of(runs, which), Form::Fixed(2), "**")
}

/// Cells with the mean recall of each row behind them.
pub open spec fn averaged(cells: Seq<ArgView>, rows: Seq<Row>) -> Seq<ArgView>
    decreases rows.len(),
{
    if rows.len() == 0 {
        cells
    } else {
        averaged(cells, rows.drop_last()).push(bold_mean(rows.last().runs@, Rate::Recall))
    }
}

pub fn average_all(cells: Args, rows: &Vec<Row>) -> (all: Args)
    ensures
        all@ == averaged(cells@, rows@),
{
    let ghost start = cells@;
    let mut all: Args = cells;
    for i in 0..rows.len()
        invariant
            all@ == averaged(start, rows@.take(i as int)),
    {
        proof {
            counting::one_more(rows@, i as int);
        }
        all = put_bold_mean(all, &rows[i].runs, Rate::Recall);
    }
    proof {
        counting::take_all(rows@);
    }
    all
}

/// Cells with the requests of each row behind them.
pub open spec fn totalled(cells: Seq<ArgView>, rows: Seq<Row>) -> Seq<ArgView>
    decreases rows.len(),
{
    if rows.len() == 0 {
        cells
    } else {
        totalled(cells, rows.drop_last()).push(
            bold_count(figures::sum_of(rows.last().runs@, Field::Requests)),
        )
    }
}

pub fn total_all(cells: Args, rows: &Vec<Row>) -> (all: Args)
    ensures
        all@ == totalled(cells@, rows@),
{
    let ghost start = cells@;
    let mut all: Args = cells;
    for i in 0..rows.len()
        invariant
            all@ == totalled(start, rows@.take(i as int)),
    {
        proof {
            counting::one_more(rows@, i as int);
        }
        all = all.with(bold_sum(figures::sum(&rows[i].runs, Field::Requests)));
    }
    proof {
        counting::take_all(rows@);
    }
    all
}

} // verus!
