//! What is promised of the tables of an evaluation: which cell stands where.

use vstd::prelude::*;

use crate::doc;
use crate::doc::{ArgView, Form};
use crate::eval::cells;
use crate::eval::cells::Column;
use crate::eval::figures;
use crate::eval::figures::{Field, Rate};
use crate::eval::findings::Row;
use crate::eval::runs::Run;
use crate::text;

verus! {

/// A row of a table has a cell for each column, in the order of the columns, behind the cells that
/// it starts with; and so has the row of the titles.
pub proof fn a_column_has_its_cell(
    first: Seq<ArgView>,
    columns: Seq<Column>,
    runs: Seq<Run>,
    k: int,
)
    requires
        0 <= k < columns.len(),
    ensures
        cells::filled(first, columns, runs).len() == first.len() + columns.len(),
        cells::filled(first, columns, runs).take(first.len() as int) == first,
        cells::filled(first, columns, runs)[first.len() + k] == columns[k].shows(runs),
        cells::titled(first, columns).len() == first.len() + columns.len(),
        cells::titled(first, columns)[first.len() + k] == ArgView::Text(columns[k].heading()),
    decreases columns.len(),
{
    let front = columns.drop_last();
    let (a, b) = (cells::filled(first, front, runs), cells::titled(first, front));
    if k < front.len() {
        a_column_has_its_cell(first, front, runs, k);
        assert(front[k] == columns[k]);
    } else if front.len() > 0 {
        a_column_has_its_cell(first, front, runs, 0);
    } else {
        assert(a == first && b == first);
    }
    assert(a.take(first.len() as int) =~= first);
    assert(cells::filled(first, columns, runs).take(first.len() as int) =~= first);
}

/// A column shows what its title names.
pub proof fn a_column_shows_what_it_names(runs: Seq<Run>)
    ensures
        Column::Recall.shows(runs) == doc::shown(
            figures::mean(runs, Rate::Recall),
            Form::Fixed(2),
        ) && Column::Recall.heading() == "Recall"@,
        Column::SectionRecall.shows(runs) == doc::shown(
            figures::mean(runs, Rate::SectionRecall),
            Form::Fixed(2),
        ) && Column::SectionRecall.heading() == "Section recall"@,
        Column::Precision.shows(runs) == doc::shown(
            figures::mean(runs, Rate::Precision),
            Form::Fixed(2),
        ) && Column::Precision.heading() == "Precision"@,
        Column::OverVisited.shows(runs) == doc::shown(
            figures::mean(runs, Rate::OverVisited),
            Form::Fixed(2),
        ) && Column::OverVisited.heading() == "Precision (visited)"@,
        Column::ReadTokens.shows(runs) == doc::count(figures::sum_of(runs, Field::ReadTokens))
            && Column::ReadTokens.heading() == "Read (tok)"@,
        Column::Lines.shows(runs) == doc::count(figures::sum_of(runs, Field::ReadLines))
            && Column::Lines.heading() == "Lines"@,
        Column::WholeTokens.shows(runs) == doc::count(figures::sum_of(runs, Field::WholeTokens))
            && Column::WholeTokens.heading() == "Whole (tok)"@,
        Column::Returned.shows(runs) == doc::count(figures::sum_of(runs, Field::Returned))
            && Column::Returned.heading() == "Returned"@,
        Column::InputTokens.shows(runs) == doc::count(figures::sum_of(runs, Field::InputTokens))
            && Column::InputTokens.heading() == "Input (tok)"@,
        Column::Requests.shows(runs) == doc::count(figures::sum_of(runs, Field::Requests))
            && Column::Requests.heading() == "Requests"@,
        Column::Cost.shows(runs) matches ArgView::Framed { before, figure, after } && before == "$"@
            && after == ""@ && figure.value == figures::total(runs, Rate::Cost),
{
}

/// A row over the tables of an evaluation has a cell for each of them, in their order.
pub proof fn every_row_has_its_cell(first: Seq<ArgView>, rows: Seq<Row>, one: Row, at: int)
    ensures
        cells::labelled(first, rows.push(one)) == cells::labelled(first, rows).push(
            ArgView::Text(one.label@),
        ),
        cells::recalled(first, rows.push(one), at) == cells::recalled(first, rows, at).push(
            doc::shown(figures::rate(one.runs@[at], Rate::Recall), Form::Fixed(2)),
        ),
        cells::requested(first, rows.push(one), at) == cells::requested(first, rows, at).push(
            ArgView::Text(text::decimal(one.runs@[at].spent.requests as nat)),
        ),
        cells::averaged(first, rows.push(one)) == cells::averaged(first, rows).push(
            doc::framed("**"@, figures::mean(one.runs@, Rate::Recall), Form::Fixed(2), "**"@),
        ),
        cells::totalled(first, rows.push(one)) == cells::totalled(first, rows).push(
            ArgView::Text(
                "**"@ + text::decimal(figures::sum_of(one.runs@, Field::Requests) as nat) + "**"@,
            ),
        ),
        cells::labelled(first, Seq::empty()) == first,
        cells::recalled(first, Seq::empty(), at) == first,
        cells::requested(first, Seq::empty(), at) == first,
        cells::averaged(first, Seq::empty()) == first,
        cells::totalled(first, Seq::empty()) == first,
{
    assert(rows.push(one).drop_last() =~= rows);
}

} // verus!
