//! What is promised of a document: where what is written into it stands.

use vstd::prelude::*;

use crate::doc::{ArgView, DocView, Figure};
use crate::text;

verus! {

/// The text of a document, where its figures are written in some way.
pub open spec fn written(doc: DocView, way: spec_fn(Figure) -> Seq<char>) -> Seq<char>
    decreases doc.pieces.len(),
{
    if doc.pieces.len() == 0 {
        doc.tail
    } else {
        written(
            DocView { pieces: doc.pieces.drop_last(), tail: doc.pieces.last().text },
            way,
        ) + way(doc.pieces.last().figure) + doc.tail
    }
}

/// The text of an argument, where its figure is written in some way.
pub open spec fn said(arg: ArgView, way: spec_fn(Figure) -> Seq<char>) -> Seq<char> {
    match arg {
        ArgView::Text(text) => text,
        ArgView::Figure(figure) => way(figure),
        ArgView::Framed { before, figure, after } => before + way(figure) + after,
    }
}

/// What is written into a document stands at its end, behind everything that was written before.
pub proof fn what_is_written_comes_last(
    doc: DocView,
    more: Seq<char>,
    figure: Figure,
    arg: ArgView,
    way: spec_fn(Figure) -> Seq<char>,
)
    ensures
        written(doc.text(more), way) == written(doc, way) + more,
        written(doc.figure(figure), way) == written(doc, way) + way(figure),
        written(doc.arg(arg), way) == written(doc, way) + said(arg, way),
        written(DocView::empty(), way).len() == 0,
{
    a_text_comes_last(doc, more, way);
    a_figure_comes_last(doc, figure, way);
    match arg {
        ArgView::Text(text) => {
            a_text_comes_last(doc, text, way);
        },
        ArgView::Figure(figure) => {
            a_figure_comes_last(doc, figure, way);
        },
        ArgView::Framed { before, figure, after } => {
            a_text_comes_last(doc, before, way);
            a_figure_comes_last(doc.text(before), figure, way);
            a_text_comes_last(doc.text(before).figure(figure), after, way);
            assert(written(doc, way) + before + way(figure) + after =~= written(doc, way) + (before
                + way(figure) + after));
        },
    }
}

proof fn a_text_comes_last(doc: DocView, more: Seq<char>, way: spec_fn(Figure) -> Seq<char>)
    ensures
        written(doc.text(more), way) == written(doc, way) + more,
{
    if doc.pieces.len() > 0 {
        let front = written(
            DocView { pieces: doc.pieces.drop_last(), tail: doc.pieces.last().text },
            way,
        ) + way(doc.pieces.last().figure);
        assert(front + (doc.tail + more) =~= front + doc.tail + more);
    }
}

proof fn a_figure_comes_last(doc: DocView, figure: Figure, way: spec_fn(Figure) -> Seq<char>)
    ensures
        written(doc.figure(figure), way) == written(doc, way) + way(figure),
{
    let longer = doc.figure(figure);
    assert(longer.pieces.drop_last() =~= doc.pieces);
    assert(DocView { pieces: doc.pieces, tail: doc.tail } == doc);
    assert(written(doc, way) + way(figure) + Seq::<char>::empty() =~= written(doc, way) + way(
        figure,
    ));
}

/// The cells of a row, each between blanks and with a bar behind it.
pub open spec fn between_bars(
    cells: Seq<ArgView>,
    way: spec_fn(Figure) -> Seq<char>,
) -> Seq<char>
    decreases cells.len(),
{
    if cells.len() == 0 {
        Seq::empty()
    } else {
        between_bars(cells.drop_last(), way) + (seq![' '] + said(cells.last(), way) + seq![' ', '|'])
    }
}

/// A row is one line: a bar, and then each cell between blanks with a bar behind it.
pub proof fn a_row_is_a_line_of_its_cells(
    doc: DocView,
    cells: Seq<ArgView>,
    way: spec_fn(Figure) -> Seq<char>,
)
    ensures
        written(doc.row(cells), way) == written(doc, way) + seq!['|'] + between_bars(cells, way)
            + seq!['\n'],
{
    a_text_comes_last(doc, seq!['|'], way);
    cells_come_last(doc.text(seq!['|']), cells, way);
    a_text_comes_last(doc.text(seq!['|']).cells(cells), seq!['\n'], way);
}

proof fn cells_come_last(doc: DocView, cells: Seq<ArgView>, way: spec_fn(Figure) -> Seq<char>)
    ensures
        written(doc.cells(cells), way) == written(doc, way) + between_bars(cells, way),
    decreases cells.len(),
{
    if cells.len() == 0 {
        assert(written(doc, way) + Seq::<char>::empty() =~= written(doc, way));
    } else {
        let front = cells.drop_last();
        cells_come_last(doc, front, way);
        let before = doc.cells(front);
        a_text_comes_last(before, seq![' '], way);
        what_is_written_comes_last(
            before.text(seq![' ']),
            Seq::empty(),
            arbitrary(),
            cells.last(),
            way,
        );
        a_text_comes_last(before.text(seq![' ']).arg(cells.last()), seq![' ', '|'], way);
        assert(written(doc, way) + between_bars(front, way) + seq![' '] + said(cells.last(), way)
            + seq![' ', '|'] =~= written(doc, way) + between_bars(cells, way));
    }
}

/// A template is filled in order: the first braces by the first argument, and what follows them by
/// the others; what stands before them is written as it is, and so is a template without braces.
pub proof fn a_template_is_filled_in_order(
    doc: DocView,
    before: Seq<char>,
    after: Seq<char>,
    args: Seq<ArgView>,
)
    requires
        args.len() > 0,
        forall|k: int|
            0 <= k < before.len() ==> !text::stands_at(before + seq!['{', '}'] + after, seq!['{', '}'], k),
    ensures
        doc.fill(before + seq!['{', '}'] + after, args) == doc.text(before).arg(args[0]).fill(
            after,
            args.skip(1),
        ),
    decreases before.len(),
{
    let braces = seq!['{', '}'];
    let whole = before + braces + after;
    if before.len() == 0 {
        assert(whole.skip(2) =~= after);
        assert(doc.text(before) =~= doc);
        assert(whole[0] == braces[0] && whole[1] == braces[1]);
    } else {
        let rest = before.skip(1);
        assert(!text::stands_at(whole, braces, 0));
        if whole[0] == '{' && whole[1] == '}' {
            assert(whole.subrange(0, 2) =~= braces);
        }
        assert(whole.skip(1) =~= rest + braces + after);
        assert forall|k: int| 0 <= k < rest.len() implies !text::stands_at(
            rest + braces + after,
            braces,
            k,
        ) by {
            assert(!text::stands_at(whole, braces, k + 1));
            if text::stands_at(rest + braces + after, braces, k) {
                assert(whole.subrange(k + 1, k + 3) =~= (rest + braces + after).subrange(k, k + 2));
            }
        }
        let one = doc.text(seq![whole[0]]);
        a_template_is_filled_in_order(one, rest, after, args);
        assert(seq![whole[0]] + rest =~= before);
        assert(doc.tail + seq![whole[0]] + rest =~= doc.tail + before);
        assert(one.text(rest) =~= doc.text(before));
    }
}

/// A template with no braces in it is written as it is, and so is one with no arguments left.
pub proof fn a_plain_template_is_a_text(doc: DocView, template: Seq<char>, args: Seq<ArgView>)
    requires
        args.len() == 0 || !text::holds(template, seq!['{', '}']),
    ensures
        doc.fill(template, args) == doc.text(template),
    decreases template.len(),
{
    let braces = seq!['{', '}'];
    if template.len() == 0 {
        assert(doc.text(template) =~= doc);
    } else {
        let rest = template.skip(1);
        if args.len() > 0 {
            assert(!text::stands_at(template, braces, 0));
            if template.len() >= 2 && template[0] == '{' && template[1] == '}' {
                assert(template.subrange(0, 2) =~= braces);
            }
            if text::holds(rest, braces) {
                let at = choose|at: int| text::stands_at(rest, braces, at);
                assert(template.subrange(at + 1, at + 3) =~= rest.subrange(at, at + 2));
                assert(text::stands_at(template, braces, at + 1));
            }
        }
        let one = doc.text(seq![template[0]]);
        a_plain_template_is_a_text(one, rest, args);
        assert(doc.tail + seq![template[0]] + rest =~= doc.tail + template);
        assert(one.text(rest) =~= doc.text(template));
    }
}

/// The template that braces make of the texts between them.
pub open spec fn template_of(pieces: Seq<Seq<char>>) -> Seq<char>
    decreases pieces.len(),
{
    if pieces.len() == 0 {
        Seq::empty()
    } else if pieces.len() == 1 {
        pieces[0]
    } else {
        pieces[0] + (seq!['{', '}'] + template_of(pieces.skip(1)))
    }
}

/// The texts of a template with arguments between them.
pub open spec fn with_between(
    pieces: Seq<Seq<char>>,
    args: Seq<ArgView>,
    way: spec_fn(Figure) -> Seq<char>,
) -> Seq<char>
    decreases pieces.len(),
{
    if pieces.len() == 0 {
        Seq::empty()
    } else if pieces.len() == 1 {
        pieces[0]
    } else {
        pieces[0] + (said(args[0], way) + with_between(pieces.skip(1), args.skip(1), way))
    }
}

/// A template is written as its texts with the arguments between them.
pub proof fn arguments_stand_between_the_texts(
    doc: DocView,
    pieces: Seq<Seq<char>>,
    args: Seq<ArgView>,
    way: spec_fn(Figure) -> Seq<char>,
)
    requires
        pieces.len() == args.len() + 1,
        forall|i: int| 0 <= i < pieces.len() ==> !(#[trigger] pieces[i]).contains('{'),
    ensures
        written(doc.fill(template_of(pieces), args), way) == written(doc, way) + with_between(
            pieces,
            args,
            way,
        ),
    decreases pieces.len(),
{
    let before = pieces[0];
    if pieces.len() == 1 {
        a_plain_template_is_a_text(doc, before, args);
        a_text_comes_last(doc, before, way);
    } else {
        let (rest, others) = (pieces.skip(1), args.skip(1));
        let braces = seq!['{', '}'];
        let after = template_of(rest);
        let whole = before + braces + after;
        assert(template_of(pieces) =~= whole);
        assert forall|k: int| 0 <= k < before.len() implies !text::stands_at(whole, braces, k) by {
            assert(whole[k] == before[k]);
            assert(before[k] != '{') by {
                if before[k] == '{' {
                    assert(pieces[0].contains('{'));
                }
            }
            if text::stands_at(whole, braces, k) {
                assert(whole.subrange(k, k + 2)[0] == whole[k]);
            }
        }
        a_template_is_filled_in_order(doc, before, after, args);
        let next = doc.text(before).arg(args[0]);
        assert forall|i: int| 0 <= i < rest.len() implies !(#[trigger] rest[i]).contains('{') by {
            assert(rest[i] == pieces[i + 1]);
        }
        arguments_stand_between_the_texts(next, rest, others, way);
        a_text_comes_last(doc, before, way);
        what_is_written_comes_last(
            doc.text(before),
            Seq::empty(),
            arbitrary(),
            args[0],
            way,
        );
        let (one, more) = (said(args[0], way), with_between(rest, others, way));
        assert(written(doc, way) + before + one + more =~= written(doc, way) + (before + (one
            + more)));
    }
}

} // verus!
