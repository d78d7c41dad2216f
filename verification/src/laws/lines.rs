//! What is promised of the lines of a printed walk: what stands on each, and in which order.

use vstd::prelude::*;

use crate::cli::{RankedFile, RankedSection};
use crate::doc;
use crate::doc::{DocView, Figure, Form, Num};
use crate::laws::documents;
use crate::laws::documents::written;
use crate::text;

verus! {

/// How a score is written, where figures are written in some way.
pub open spec fn score_of(bits: u64, way: spec_fn(Figure) -> Seq<char>) -> Seq<char> {
    way(Figure { value: Num::Double(bits), form: Form::Fixed(2) })
}

proof fn one_hole(doc: DocView, a: Seq<char>, b: Seq<char>, arg: doc::ArgView, way: spec_fn(
    Figure,
) -> Seq<char>)
    requires
        !a.contains('{'),
        !b.contains('{'),
    ensures
        written(doc.fill(a + seq!['{', '}'] + b, doc::none().push(arg)), way) == written(doc, way)
            + a + documents::said(arg, way) + b,
{
    let pieces = seq![a, b];
    let args = doc::none().push(arg);
    assert forall|i: int| 0 <= i < pieces.len() implies !(#[trigger] pieces[i]).contains('{') by {
        assert(i == 0 || i == 1);
    }
    documents::arguments_stand_between_the_texts(doc, pieces, args, way);
    let rest = pieces.skip(1);
    assert(rest =~= seq![b]);
    assert(documents::template_of(rest) == b);
    assert(documents::template_of(pieces) =~= a + seq!['{', '}'] + b);
    assert(documents::with_between(rest, args.skip(1), way) == b);
    assert(args[0] == arg);
    let said = documents::said(arg, way);
    assert(written(doc, way) + (a + (said + b)) =~= written(doc, way) + a + said + b);
}

/// A section is told on a line of its own: its first line and its last, its score and its heading,
/// and that it is the preamble where it has none.
pub proof fn a_section_is_told_on_its_line(
    doc: DocView,
    section: RankedSection,
    way: spec_fn(Figure) -> Seq<char>,
)
    ensures
        written(crate::format::section_line(doc, section), way) == written(doc, way) + (
        "- lines "@ + (text::decimal(section.first as nat) + ("-"@ + (text::decimal(
            section.last as nat,
        ) + (", score "@ + (score_of(section.score, way) + (", "@ + (if section.heading is Some {
            section.heading->0@
        } else {
            "(preamble)"@
        } + ""@)))))))) + seq!['\n'],
{
    let template = "- lines {}-{}, score {}, {}"@;
    let (a, b, c, d, e) = ("- lines "@, "-"@, ", score "@, ", "@, ""@);
    reveal_strlit("- lines {}-{}, score {}, {}");
    reveal_strlit("- lines ");
    reveal_strlit("-");
    reveal_strlit(", score ");
    reveal_strlit(", ");
    reveal_strlit("");
    let heading = if section.heading is Some {
        section.heading->0@
    } else {
        "(preamble)"@
    };
    let args = doc::none().push(doc::count(section.first as int)).push(
        doc::count(section.last as int),
    ).push(crate::format::score(section.score)).push(doc::word(heading));
    let pieces = seq![a, b, c, d, e];
    assert forall|i: int| 0 <= i < pieces.len() implies !(#[trigger] pieces[i]).contains('{') by {
        assert(i == 0 || i == 1 || i == 2 || i == 3 || i == 4);
        assert(!a.contains('{'));
        assert(!b.contains('{'));
        assert(!c.contains('{'));
        assert(!d.contains('{'));
        assert(!e.contains('{'));
    }
    let (p1, p2, p3, p4) = (pieces.skip(1), pieces.skip(2), pieces.skip(3), pieces.skip(4));
    assert(p1.skip(1) =~= p2 && p2.skip(1) =~= p3 && p3.skip(1) =~= p4);
    let braces = seq!['{', '}'];
    assert(documents::template_of(p4) == e);
    assert(documents::template_of(p3) == d + (braces + e));
    assert(documents::template_of(p2) == c + (braces + (d + (braces + e))));
    assert(documents::template_of(p1) == b + (braces + (c + (braces + (d + (braces + e))))));
    assert(documents::template_of(pieces) =~= template);
    documents::arguments_stand_between_the_texts(doc, pieces, args, way);
    let (q1, q2, q3, q4) = (args.skip(1), args.skip(2), args.skip(3), args.skip(4));
    assert(q1.skip(1) =~= q2 && q2.skip(1) =~= q3 && q3.skip(1) =~= q4);
    assert(documents::with_between(p4, q4, way) == e);
    assert(documents::with_between(p3, q3, way) == d + (heading + e));
    assert(documents::with_between(p2, q2, way) == c + (score_of(section.score, way) + (d + (heading
        + e))));
    let (first, last) = (text::decimal(section.first as nat), text::decimal(section.last as nat));
    let score = score_of(section.score, way);
    assert(q1[0] == args[1] && documents::said(q1[0], way) == last);
    assert(args[0] == doc::count(section.first as int));
    assert(documents::said(args[0], way) == first);
    assert(documents::with_between(p1, q1, way) == b + (last + (c + (score + (d + (heading + e))))));
    assert(documents::with_between(pieces, args, way) == a + (first + (b + (last + (c + (score + (d
        + (heading + e))))))));
    assert(crate::format::section_line(doc, section) == doc.line(template, args)) by {
        match section.heading {
            Some(heading) => {},
            None => {},
        }
    }
    documents::what_is_written_comes_last(
        doc.fill(template, args),
        seq!['\n'],
        arbitrary(),
        arbitrary(),
        way,
    );
}

/// What led to a file is told behind its relevance: the scent of the link where it has one, and the
/// files on the way; an entry file is told as such.
pub proof fn the_way_to_a_file_is_told(
    doc: DocView,
    relevance: u64,
    scent: Option<u64>,
    passed: Seq<Seq<char>>,
    way: spec_fn(Figure) -> Seq<char>,
)
    ensures
        passed.len() == 0 ==> written(crate::format::reached(doc, relevance, scent, passed), way)
            == written(doc, way) + "relevance "@ + score_of(relevance, way) + ""@
            + "; entry file"@,
        passed.len() > 0 && scent is None ==> written(
            crate::format::reached(doc, relevance, scent, passed),
            way,
        ) == written(doc, way) + "relevance "@ + score_of(relevance, way) + ""@ + "; via "@
            + crate::format::trail(passed) + ""@,
        passed.len() > 0 ==> (scent matches Some(bits) ==> written(
            crate::format::reached(doc, relevance, scent, passed),
            way,
        ) == written(doc, way) + "relevance "@ + score_of(relevance, way) + ""@ + "; scent "@
            + score_of(bits, way) + ""@ + "; via "@ + crate::format::trail(passed) + ""@),
{
    let braces = seq!['{', '}'];
    assert("relevance {}"@ =~= "relevance "@ + braces + ""@ && !"relevance "@.contains('{')
        && !""@.contains('{')) by {
        reveal_strlit("relevance {}");
        reveal_strlit("relevance ");
        reveal_strlit("");
    }
    assert("; scent {}"@ =~= "; scent "@ + braces + ""@ && !"; scent "@.contains('{')) by {
        reveal_strlit("; scent {}");
        reveal_strlit("; scent ");
        reveal_strlit("");
    }
    assert("; via {}"@ =~= "; via "@ + braces + ""@ && !"; via "@.contains('{')) by {
        reveal_strlit("; via {}");
        reveal_strlit("; via ");
        reveal_strlit("");
    }
    let score = crate::format::score(relevance);
    one_hole(doc, "relevance "@, ""@, score, way);
    let first = doc.fill("relevance {}"@, doc::none().push(score));
    if passed.len() == 0 {
        documents::what_is_written_comes_last(
            first,
            "; entry file"@,
            arbitrary(),
            arbitrary(),
            way,
        );
    } else {
        let trail = doc::word(crate::format::trail(passed));
        match scent {
            Some(bits) => {
                let more = crate::format::score(bits);
                one_hole(first, "; scent "@, ""@, more, way);
                let second = first.fill("; scent {}"@, doc::none().push(more));
                one_hole(second, "; via "@, ""@, trail, way);
            },
            None => {
                one_hole(first, "; via "@, ""@, trail, way);
            },
        }
    }
}

/// The way to a file is told file by file, each in quotes, an arrow between one and the next.
pub proof fn a_way_is_told_file_by_file(passed: Seq<Seq<char>>, path: Seq<char>)
    ensures
        passed.len() > 0 ==> crate::format::trail(passed.push(path)) == crate::format::trail(passed)
            + " -> "@ + ("`"@ + path + "`"@),
        crate::format::trail(seq![path]) == "`"@ + path + "`"@,
{
    let of = |path: Seq<char>| "`"@ + path + "`"@;
    assert(passed.push(path).map_values(of).drop_last() =~= passed.map_values(of));
    assert(passed.push(path).map_values(of).last() == of(path));
    assert(seq![path].map_values(of) =~= seq![of(path)]);
}

/// The files of a list are told one after the other, each under its rank, counted from one, and its
/// path; and so are the sections of a file.
pub proof fn files_are_told_by_rank(
    doc: DocView,
    files: Seq<RankedFile>,
    file: RankedFile,
    sections: Seq<RankedSection>,
    section: RankedSection,
)
    ensures
        crate::format::md_files(doc, files.push(file)) == crate::format::md_file(
            crate::format::md_files(doc, files),
            files.len() as int + 1,
            file,
        ),
        crate::format::md_files(doc, Seq::empty()) == doc,
        crate::format::section_lines(doc, sections.push(section)) == crate::format::section_line(
            crate::format::section_lines(doc, sections),
            section,
        ),
        crate::format::section_lines(doc, Seq::empty()) == doc,
{
    assert(files.push(file).drop_last() =~= files);
    assert(sections.push(section).drop_last() =~= sections);
}

/// The heading of a file is its rank and its path, and the way to it stands under it; a file with
/// no section that clears the threshold is told as such.
pub proof fn a_file_is_told_under_its_heading(
    doc: DocView,
    rank: nat,
    file: RankedFile,
    way: spec_fn(Figure) -> Seq<char>,
) -> (headed: DocView)
    ensures
        written(headed, way) == written(doc, way) + "\n"@ + "## "@ + text::decimal(rank) + ". `"@
            + file.path@ + "`"@ + seq!['\n'] + "\n"@,
        crate::format::md_file(doc, rank as int, file) == {
            let told = crate::format::reached(
                headed,
                file.relevance,
                file.scent,
                text::texts(file.via@),
            ).text("\n"@).text("\n"@);
            crate::format::section_lines(
                if file.sections.len() == 0 {
                    told.text("- nothing above --threshold\n"@)
                } else {
                    told
                },
                file.sections@,
            )
        },
{
    let (a, b, c) = ("## "@, ". `"@, "`"@);
    let template = "## {}. `{}`"@;
    reveal_strlit("## {}. `{}`");
    reveal_strlit("## ");
    reveal_strlit(". `");
    reveal_strlit("`");
    let start = doc.text("\n"@);
    let args = doc::none().push(doc::count(rank as int)).push(doc::word(file.path@));
    let pieces = seq![a, b, c];
    assert forall|i: int| 0 <= i < pieces.len() implies !(#[trigger] pieces[i]).contains('{') by {
        assert(i == 0 || i == 1 || i == 2);
        assert(!a.contains('{') && !b.contains('{') && !c.contains('{'));
    }
    let (p1, p2) = (pieces.skip(1), pieces.skip(2));
    assert(p1.skip(1) =~= p2);
    let braces = seq!['{', '}'];
    assert(documents::template_of(p2) == c);
    assert(documents::template_of(p1) == b + (braces + c));
    assert(documents::template_of(pieces) =~= template);
    documents::arguments_stand_between_the_texts(start, pieces, args, way);
    let (q1, q2) = (args.skip(1), args.skip(2));
    assert(q1.skip(1) =~= q2);
    assert(q1[0] == args[1] && args[0] == doc::count(rank as int));
    assert(documents::with_between(p2, q2, way) == c);
    assert(documents::with_between(p1, q1, way) == b + (file.path@ + c));
    let number = text::decimal(rank);
    assert(documents::with_between(pieces, args, way) == a + (number + (b + (file.path@ + c))));
    documents::what_is_written_comes_last(doc, "\n"@, arbitrary(), arbitrary(), way);
    let filled = start.fill(template, args);
    documents::what_is_written_comes_last(filled, seq!['\n'], arbitrary(), arbitrary(), way);
    let line = start.line(template, args);
    documents::what_is_written_comes_last(line, "\n"@, arbitrary(), arbitrary(), way);
    let before = written(start, way);
    assert(before + (a + (number + (b + (file.path@ + c)))) =~= before + a + number + b + file.path@
        + c);
    line.text("\n"@)
}

} // verus!
