//! Documents: text with figures in it.
//!
//! A figure is a formula on whole numbers and on measured doubles, and how it is written. What the
//! formula comes to is floating point, and is worked out where the document is printed.

use vstd::prelude::*;

use crate::counting;
use crate::text;

verus! {

/// A number: whole, measured (a double, by its bits), or worked out from others in double
/// arithmetic, one operation at a time.
pub enum Num {
    Whole(u64),
    /// A sum, which may be more than a word holds.
    Long(u128),
    Double(u64),
    Plus(Box<Num>, Box<Num>),
    Minus(Box<Num>, Box<Num>),
    Times(Box<Num>, Box<Num>),
    Over(Box<Num>, Box<Num>),
    /// The square root.
    Root(Box<Num>),
    /// The lesser of two.
    Least(Box<Num>, Box<Num>),
    /// The greater of two.
    Greatest(Box<Num>, Box<Num>),
}

/// The same number once more.
pub fn copy(value: &Num) -> (same: Num)
    ensures
        same == *value,
    decreases value,
{
    match value {
        Num::Whole(n) => Num::Whole(*n),
        Num::Long(n) => Num::Long(*n),
        Num::Double(bits) => Num::Double(*bits),
        Num::Plus(a, b) => Num::Plus(Box::new(copy(&**a)), Box::new(copy(&**b))),
        Num::Minus(a, b) => Num::Minus(Box::new(copy(&**a)), Box::new(copy(&**b))),
        Num::Times(a, b) => Num::Times(Box::new(copy(&**a)), Box::new(copy(&**b))),
        Num::Over(a, b) => Num::Over(Box::new(copy(&**a)), Box::new(copy(&**b))),
        Num::Root(a) => Num::Root(Box::new(copy(&**a))),
        Num::Least(a, b) => Num::Least(Box::new(copy(&**a)), Box::new(copy(&**b))),
        Num::Greatest(a, b) => Num::Greatest(Box::new(copy(&**a)), Box::new(copy(&**b))),
    }
}

/// How a number is written.
#[derive(PartialEq, Eq, Structural, Clone, Copy)]
pub enum Form {
    /// With that many decimals.
    Fixed(u8),
    /// With that many decimals, the sign always there.
    Signed(u8),
    /// With as few decimals as tell it apart from every other number.
    Plain,
    /// At the precision it means something: a number under a hundredth to six places, one under a
    /// hundred to two, any other whole.
    Measure,
}

/// A number in a document.
pub struct Figure {
    pub value: Num,
    pub form: Form,
}

/// A figure and the text before it.
pub struct Piece {
    pub text: String,
    pub figure: Figure,
}

/// A document under way: its figures, each with the text before it, and the text after the last.
pub struct Doc {
    pub pieces: Vec<Piece>,
    pub tail: String,
}

/// What stands for a figure and the text before it in a document's view.
#[verifier::ext_equal]
pub struct PieceView {
    pub text: Seq<char>,
    pub figure: Figure,
}

/// What a document says.
#[verifier::ext_equal]
pub struct DocView {
    pub pieces: Seq<PieceView>,
    pub tail: Seq<char>,
}

impl View for Piece {
    type V = PieceView;

    open spec fn view(&self) -> PieceView {
        PieceView { text: self.text@, figure: self.figure }
    }
}

impl View for Doc {
    type V = DocView;

    open spec fn view(&self) -> DocView {
        DocView { pieces: self.pieces@.map_values(|p: Piece| p@), tail: self.tail@ }
    }
}

/// What a `{}` in a template stands for.
pub enum Arg {
    Text(String),
    Figure(Figure),
    /// A figure between two texts.
    Framed { before: String, figure: Figure, after: String },
}

/// What an argument is in a document's view.
pub enum ArgView {
    Text(Seq<char>),
    Figure(Figure),
    Framed { before: Seq<char>, figure: Figure, after: Seq<char> },
}

impl View for Arg {
    type V = ArgView;

    open spec fn view(&self) -> ArgView {
        match self {
            Arg::Text(text) => ArgView::Text(text@),
            Arg::Figure(figure) => ArgView::Figure(*figure),
            Arg::Framed { before, figure, after } => ArgView::Framed {
                before: before@,
                figure: *figure,
                after: after@,
            },
        }
    }
}

impl DocView {
    pub open spec fn empty() -> DocView {
        DocView { pieces: Seq::empty(), tail: Seq::empty() }
    }

    /// With a text written at the end.
    pub open spec fn text(self, text: Seq<char>) -> DocView {
        DocView { pieces: self.pieces, tail: self.tail + text }
    }

    /// With a figure written at the end.
    pub open spec fn figure(self, figure: Figure) -> DocView {
        DocView {
            pieces: self.pieces.push(PieceView { text: self.tail, figure }),
            tail: Seq::empty(),
        }
    }

    pub open spec fn arg(self, arg: ArgView) -> DocView {
        match arg {
            ArgView::Text(text) => self.text(text),
            ArgView::Figure(figure) => self.figure(figure),
            ArgView::Framed { before, figure, after } => self.text(before).figure(figure).text(
                after,
            ),
        }
    }

    /// With cells written at the end, one after the other, each between blanks and a bar behind it.
    pub open spec fn cells(self, cells: Seq<ArgView>) -> DocView
        decreases cells.len(),
    {
        if cells.len() == 0 {
            self
        } else {
            self.cells(cells.drop_last()).text(seq![' ']).arg(cells.last()).text(seq![' ', '|'])
        }
    }

    /// With a table row written at the end.
    pub open spec fn row(self, cells: Seq<ArgView>) -> DocView {
        self.text(seq!['|']).cells(cells).text(seq!['\n'])
    }

    /// With a template written at the end, each `{}` in it replaced by the next argument; one too
    /// many stays as it is.
    pub open spec fn fill(self, template: Seq<char>, args: Seq<ArgView>) -> DocView
        decreases template.len(),
    {
        if template.len() == 0 {
            self
        } else if template.len() >= 2 && template[0] == '{' && template[1] == '}' && args.len()
            > 0 {
            self.arg(args[0]).fill(template.skip(2), args.skip(1))
        } else {
            self.text(seq![template[0]]).fill(template.skip(1), args)
        }
    }

    /// With a template and a line end written at the end.
    pub open spec fn line(self, template: Seq<char>, args: Seq<ArgView>) -> DocView {
        self.fill(template, args).text(seq!['\n'])
    }
}

/// Whether a text holds no line end.
pub open spec fn unbroken(text: Seq<char>) -> bool {
    forall|i: int| 0 <= i < text.len() ==> #[trigger] text[i] != '\n'
}

/// How many line ends a text holds.
pub open spec fn ends(text: Seq<char>) -> nat {
    counting::how_many(text, |c: char| c == '\n')
}

impl ArgView {
    /// Whether an argument holds no line end.
    pub open spec fn unbroken(self) -> bool {
        match self {
            ArgView::Text(text) => unbroken(text),
            ArgView::Figure(_) => true,
            ArgView::Framed { before, figure: _, after } => unbroken(before) && unbroken(after),
        }
    }
}

impl DocView {
    /// How many line ends a document holds; a figure holds none.
    pub open spec fn line_ends(self) -> int {
        counting::total(self.pieces, |piece: PieceView| ends(piece.text) as int) + ends(self.tail)
    }

    pub proof fn a_text_adds_its_ends(self, text: Seq<char>)
        ensures
            self.text(text).line_ends() == self.line_ends() + ends(text),
            unbroken(text) ==> ends(text) == 0,
    {
        let test = |c: char| c == '\n';
        counting::how_many_joins(self.tail, text, test);
        if unbroken(text) {
            counting::how_many_is_none(text, test);
        }
    }

    pub proof fn a_figure_adds_no_ends(self, figure: Figure)
        ensures
            self.figure(figure).line_ends() == self.line_ends(),
    {
        let longer = self.figure(figure).pieces;
        assert(longer.drop_last() =~= self.pieces);
        assert(longer.last().text == self.tail);
    }

    proof fn an_argument_adds_no_ends(self, arg: ArgView)
        requires
            arg.unbroken(),
        ensures
            self.arg(arg).line_ends() == self.line_ends(),
    {
        match arg {
            ArgView::Text(text) => {
                self.a_text_adds_its_ends(text);
            },
            ArgView::Figure(figure) => {
                self.a_figure_adds_no_ends(figure);
            },
            ArgView::Framed { before, figure, after } => {
                self.a_text_adds_its_ends(before);
                self.text(before).a_figure_adds_no_ends(figure);
                self.text(before).figure(figure).a_text_adds_its_ends(after);
            },
        }
    }

    /// A template adds the line ends it holds, where its arguments hold none.
    pub proof fn a_template_adds_its_ends(self, template: Seq<char>, args: Seq<ArgView>)
        requires
            forall|k: int| 0 <= k < args.len() ==> (#[trigger] args[k]).unbroken(),
        ensures
            self.fill(template, args).line_ends() == self.line_ends() + ends(template),
        decreases template.len(),
    {
        let test = |c: char| c == '\n';
        if template.len() == 0 {
        } else if template.len() >= 2 && template[0] == '{' && template[1] == '}' && args.len()
            > 0 {
            let first = template.take(2);
            self.an_argument_adds_no_ends(args[0]);
            assert forall|k: int| 0 <= k < args.skip(1).len() implies (#[trigger] args.skip(
                1,
            )[k]).unbroken() by {
                assert(args.skip(1)[k] == args[k + 1]);
            }
            self.arg(args[0]).a_template_adds_its_ends(template.skip(2), args.skip(1));
            counting::how_many_is_none(first, test);
            counting::how_many_joins(first, template.skip(2), test);
            assert(first + template.skip(2) =~= template);
        } else {
            let first = seq![template[0]];
            self.a_text_adds_its_ends(first);
            self.text(first).a_template_adds_its_ends(template.skip(1), args);
            counting::how_many_joins(first, template.skip(1), test);
            assert(first + template.skip(1) =~= template);
        }
    }
}

/// The arguments of a template, in order.
pub struct Args {
    pub list: Vec<Arg>,
}

impl View for Args {
    type V = Seq<ArgView>;

    open spec fn view(&self) -> Seq<ArgView> {
        self.list@.map_values(|a: Arg| a@)
    }
}

/// No arguments.
pub open spec fn none() -> Seq<ArgView> {
    Seq::empty()
}

/// A text as an argument.
pub open spec fn word(text: Seq<char>) -> ArgView {
    ArgView::Text(text)
}

/// A whole number as an argument.
pub open spec fn count(n: int) -> ArgView {
    ArgView::Text(text::decimal(n as nat))
}

/// A number in a form as an argument.
pub open spec fn shown(value: Num, form: Form) -> ArgView {
    ArgView::Figure(Figure { value, form })
}

/// A number in a form between two texts as an argument.
pub open spec fn framed(
    before: Seq<char>,
    value: Num,
    form: Form,
    after: Seq<char>,
) -> ArgView {
    ArgView::Framed { before, figure: Figure { value, form }, after }
}

/// No arguments yet.
pub fn args() -> (args: Args)
    ensures
        args@ == none(),
{
    let args = Args { list: Vec::new() };
    assert(args@ =~= Seq::<ArgView>::empty());
    args
}

impl Args {
    /// With one argument more.
    pub fn with(self, arg: Arg) -> (args: Args)
        ensures
            args@ == self@.push(arg@),
    {
        let mut list = self.list;
        list.push(arg);
        let args = Args { list };
        assert(args@ =~= self@.push(arg@));
        args
    }

    pub fn text(self, text: &str) -> (args: Args)
        ensures
            args@ == self@.push(word(text@)),
    {
        self.with(Arg::Text(text.to_owned()))
    }

    pub fn count(self, n: usize) -> (args: Args)
        ensures
            args@ == self@.push(count(n as int)),
    {
        self.with(Arg::Text(text::number(n as u64)))
    }

    pub fn sum(self, n: u128) -> (args: Args)
        ensures
            args@ == self@.push(count(n as int)),
    {
        self.with(Arg::Text(text::long_number(n)))
    }

    pub fn framed(self, before: &str, value: Num, form: Form, after: &str) -> (args: Args)
        ensures
            args@ == self@.push(framed(before@, value, form, after@)),
    {
        self.with(
            Arg::Framed {
                before: before.to_owned(),
                figure: Figure { value, form },
                after: after.to_owned(),
            },
        )
    }

    pub fn figure(self, value: Num, form: Form) -> (args: Args)
        ensures
            args@ == self@.push(shown(value, form)),
    {
        self.with(Arg::Figure(Figure { value, form }))
    }
}

impl Doc {
    pub fn new() -> (doc: Doc)
        ensures
            doc@ == DocView::empty(),
    {
        let doc = Doc { pieces: Vec::new(), tail: String::new() };
        assert(doc@ =~= DocView::empty());
        doc
    }

    /// Writes a text at the end.
    pub fn text(&mut self, text: &str)
        ensures
            final(self)@ == old(self)@.text(text@),
    {
        self.tail.append(text);
    }

    fn put(&mut self, c: char)
        ensures
            final(self)@ == old(self)@.text(seq![c]),
    {
        let ghost was = self.tail@;
        self.tail.push(c);
        assert(self.tail@ =~= was + seq![c]);
    }

    /// Writes a figure at the end.
    pub fn figure(&mut self, figure: Figure)
        ensures
            final(self)@ == old(self)@.figure(figure),
    {
        let ghost was = self@;
        let text = self.tail.clone();
        self.pieces.push(Piece { text, figure });
        self.tail = String::new();
        assert(self@ =~= was.figure(figure));
    }

    fn arg(&mut self, arg: Arg)
        ensures
            final(self)@ == old(self)@.arg(arg@),
    {
        match arg {
            Arg::Text(text) => self.text(text.as_str()),
            Arg::Figure(figure) => self.figure(figure),
            Arg::Framed { before, figure, after } => {
                self.text(before.as_str());
                self.figure(figure);
                self.text(after.as_str());
            },
        }
    }

    /// Writes a table row at the end.
    pub fn row(&mut self, cells: Args)
        ensures
            final(self)@ == old(self)@.row(cells@),
    {
        let ghost all = cells@;
        let mut left: Vec<Arg> = cells.list;
        self.put('|');
        let ghost start = self@;
        let ghost mut done: int = 0;
        assert(all.take(0) =~= Seq::<ArgView>::empty());
        while left.len() > 0
            invariant
                0 <= done <= all.len(),
                left@.map_values(|a: Arg| a@) == all.skip(done),
                self@ == start.cells(all.take(done)),
            decreases left.len(),
        {
            let ghost had = left@.map_values(|a: Arg| a@);
            let cell: Arg = left.remove(0);
            proof {
                assert(had[0] == cell@);
                assert(left@.map_values(|a: Arg| a@) =~= had.skip(1));
                assert(all.skip(done + 1) =~= all.skip(done).skip(1));
                counting::one_more(all, done);
                done = done + 1;
            }
            self.put(' ');
            self.arg(cell);
            self.put(' ');
            self.put('|');
            assert(self@ =~= start.cells(all.take(done)));
        }
        assert(left@.map_values(|a: Arg| a@).len() == 0);
        assert(all.take(done) =~= all);
        self.put('\n');
    }

    /// Writes a filled template at the end.
    pub fn fill(&mut self, template: &str, args: Args)
        ensures
            final(self)@ == old(self)@.fill(template@, args@),
    {
        let list: Vec<char> = text::chars(template);
        let ghost whole = self@.fill(template@, args@);
        let mut left: Args = args;
        let mut i: usize = 0;
        assert(list@.skip(0) =~= list@);
        while i < list.len()
            invariant
                i <= list.len(),
                whole == self@.fill(list@.skip(i as int), left@),
            decreases list.len() - i,
        {
            let ghost rest = list@.skip(i as int);
            if left.list.len() > 0 && list.len() - i >= 2 && list[i] == '{' && list[i + 1] == '}' {
                let ghost had = left@;
                let arg = left.list.remove(0);
                assert(left@ =~= had.skip(1));
                assert(had[0] == arg@);
                self.arg(arg);
                assert(rest.skip(2) =~= list@.skip(i + 2));
                i += 2;
            } else {
                assert(left@.len() == left.list.len());
                self.put(list[i]);
                assert(rest.skip(1) =~= list@.skip(i + 1));
                i += 1;
            }
        }
        assert(list@.skip(i as int) =~= Seq::<char>::empty());
    }

    /// Writes a filled template and a line end at the end.
    pub fn line(&mut self, template: &str, args: Args)
        ensures
            final(self)@ == old(self)@.line(template@, args@),
    {
        self.fill(template, args);
        self.put('\n');
    }
}

} // verus!
