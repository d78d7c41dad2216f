//! What is promised of a report: what it prints, and what it refuses to print.

use vstd::prelude::*;

use crate::aggregate::{Condition, Group};
use crate::counting;
use crate::doc::{DocView, Figure, Form};
use crate::laws::documents;
use crate::laws::documents::written;
use crate::ordered::Table;
use crate::report;
use crate::text;

verus! {

/// A label is printed where it names no path and no file, is no longer than sixty-four characters
/// and has no more than four words; else it is not.
pub proof fn only_a_label_is_printed(label: Seq<char>)
    ensures
        report::label_fault(label) is None == (!text::holds(label, "/"@) && !text::holds(
            label,
            "\\"@,
        ) && !text::holds(text::lowered(label), ".md"@) && !text::holds(
            text::lowered(label),
            ".txt"@,
        ) && !text::holds(text::lowered(label), ".markdown"@) && label.len() <= 64
            && text::word_count(label) <= 4),
        report::is_label(label) == (report::label_fault(label) is None),
{
}

/// A prompt is printed where it is a template, with both placeholders in it, and names no path and
/// no file.
pub proof fn only_a_template_is_printed(prompt: Seq<char>, first: Seq<char>, second: Seq<char>)
    ensures
        report::prompt_fault(prompt, first, second) is None == (text::holds(prompt, first)
            && text::holds(prompt, second) && !text::holds(prompt, "/"@) && !text::holds(
            text::lowered(prompt),
            ".md"@,
        ) && !text::holds(text::lowered(prompt), ".txt"@) && !text::holds(
            text::lowered(prompt),
            ".markdown"@,
        )),
{
}

/// A revision is a hash behind what names its kind: of six to sixty-four digits to the base of
/// sixteen.
pub proof fn a_revision_is_a_hash(hex: Seq<char>)
    requires
        forall|i: int|
            0 <= i < hex.len() ==> '0' <= #[trigger] hex[i] <= '9' || 'a' <= hex[i] <= 'f',
    ensures
        report::revision_fault("sha256:"@ + hex) is None == (6 <= hex.len() <= 64),
        report::revision_fault("git:"@ + hex) is None == (6 <= hex.len() <= 64),
        report::revision_fault(hex) is Some,
{
    reveal_strlit("sha256:");
    reveal_strlit("git:");
    let (a, b) = ("sha256:"@ + hex, "git:"@ + hex);
    assert(a.subrange(0, 7) =~= "sha256:"@);
    assert(a.skip(7) =~= hex);
    assert(b.subrange(0, 4) =~= "git:"@);
    assert(b.skip(4) =~= hex);
    assert(report::all_hex(hex)) by {
        assert forall|i: int| 0 <= i < hex.len() implies report::is_hex(#[trigger] hex[i]) by {
            assert('0' <= hex[i] <= '9' || 'a' <= hex[i] <= 'f');
        }
    }
    assert(a[0] == 's' && b[0] == 'g');
    if text::stands_at(a, "git:"@, 0) {
        assert(a.subrange(0, 4)[0] == a[0]);
    }
    if text::stands_at(b, "sha256:"@, 0) {
        assert(b.subrange(0, 7)[0] == b[0]);
    }
    if text::stands_at(hex, "git:"@, 0) {
        assert(hex.subrange(0, 4)[0] == hex[0]);
    }
    if text::stands_at(hex, "sha256:"@, 0) {
        assert(hex.subrange(0, 7)[0] == hex[0]);
    }
}

/// A report has a column for each metric that is shown, in the order of the metrics, and for no
/// other.
pub proof fn a_metric_that_is_shown_has_a_column(shown: spec_fn(Seq<char>) -> bool, n: int)
    requires
        0 <= n,
    ensures
        forall|k: int|
            0 <= k < report::columns(shown, n).len() ==> 0 <= #[trigger] report::columns(
                shown,
                n,
            )[k] < n && shown(report::METRICS@[report::columns(shown, n)[k]]@),
        forall|j: int, k: int|
            0 <= j < k < report::columns(shown, n).len() ==> #[trigger] report::columns(shown, n)[j]
                < #[trigger] report::columns(shown, n)[k],
        forall|at: int|
            0 <= at < n && shown((#[trigger] report::METRICS@[at])@) ==> report::columns(
                shown,
                n,
            ).contains(at),
    decreases n,
{
    if n > 0 {
        a_metric_that_is_shown_has_a_column(shown, n - 1);
        let (before, after) = (report::columns(shown, n - 1), report::columns(shown, n));
        assert forall|k: int| 0 <= k < after.len() implies 0 <= #[trigger] after[k] < n && shown(
            report::METRICS@[after[k]]@,
        ) by {
            if k < before.len() {
                assert(after[k] == before[k]);
            }
        }
        assert forall|j: int, k: int| 0 <= j < k < after.len() implies #[trigger] after[j]
            < #[trigger] after[k] by {
            assert(after[j] == before[j]);
            if k < before.len() {
                assert(after[k] == before[k]);
            }
        }
        assert forall|at: int|
            0 <= at < n && shown((#[trigger] report::METRICS@[at])@) implies after.contains(at) by {
            if at < n - 1 {
                assert(before.contains(at));
                let k = choose|k: int| 0 <= k < before.len() && before[k] == at;
                assert(after[k] == at);
            } else {
                assert(after[before.len() as int] == at);
            }
        }
    }
}

/// A cell shows the mean of a metric, its spread where there is one, and how many runs it is of
/// where some that worked do not carry it; a dash stands for a metric that was not measured.
pub proof fn a_cell_shows_the_mean_and_the_spread(
    out: DocView,
    group: Group,
    metric: Seq<char>,
    way: spec_fn(Figure) -> Seq<char>,
)
    requires
        metric != "jev_input_tokens"@,
    ensures
        !group.metrics.names().contains(metric) ==> written(
            report::metric_cell(out, group, metric),
            way,
        ) == written(out, way) + "—"@,
        group.metrics.names().contains(metric) ==> {
            let stat = group.metrics.at(metric);
            written(report::metric_cell(out, group, metric), way) == written(out, way) + way(
                Figure { value: stat.mean, form: Form::Measure },
            ) + match stat.sd {
                Some(sd) => " ± "@ + way(Figure { value: sd, form: Form::Measure }),
                None => Seq::empty(),
            } + if stat.n == group.runs - group.failed {
                Seq::empty()
            } else {
                " (n="@ + text::decimal(stat.n as nat) + ")"@
            }
        },
{
    let empty = Seq::<char>::empty();
    if !group.metrics.names().contains(metric) {
        documents::what_is_written_comes_last(out, "—"@, arbitrary(), arbitrary(), way);
    } else {
        let stat = group.metrics.at(metric);
        let figure = Figure { value: stat.mean, form: Form::Measure };
        let mean = out.figure(figure);
        documents::what_is_written_comes_last(out, empty, figure, arbitrary(), way);
        let spread = match stat.sd {
            Some(sd) => mean.text(" ± "@).figure(Figure { value: sd, form: Form::Measure }),
            None => mean,
        };
        let behind = match stat.sd {
            Some(sd) => " ± "@ + way(Figure { value: sd, form: Form::Measure }),
            None => empty,
        };
        assert(written(spread, way) =~= written(mean, way) + behind) by {
            match stat.sd {
                Some(sd) => {
                    let more = Figure { value: sd, form: Form::Measure };
                    documents::what_is_written_comes_last(mean, " ± "@, more, arbitrary(), way);
                    documents::what_is_written_comes_last(
                        mean.text(" ± "@),
                        empty,
                        more,
                        arbitrary(),
                        way,
                    );
                },
                None => {},
            }
        }
        if stat.n != group.runs - group.failed {
            let n = crate::doc::count(stat.n as int);
            let args = crate::doc::none().push(n);
            told_of_how_many(spread, args, way);
            assert(args[0] == n);
        }
    }
}

proof fn told_of_how_many(
    doc: DocView,
    args: Seq<crate::doc::ArgView>,
    way: spec_fn(Figure) -> Seq<char>,
)
    requires
        args.len() == 1,
    ensures
        written(doc.fill(" (n={})"@, args), way) == written(doc, way) + (" (n="@ + documents::said(
            args[0],
            way,
        ) + ")"@),
{
    reveal_strlit(" (n={})");
    reveal_strlit(" (n=");
    reveal_strlit(")");
    let braces = seq!['{', '}'];
    let whole = " (n={})"@;
    assert(whole =~= " (n="@ + braces + ")"@);
    assert forall|k: int| 0 <= k < 4 implies !text::stands_at(whole, braces, k) by {
        assert(whole.subrange(k, k + 2)[0] == whole[k]);
        assert(braces[0] == '{');
        assert(k == 0 || k == 1 || k == 2 || k == 3);
    }
    documents::a_template_is_filled_in_order(doc, " (n="@, ")"@, args);
    let rest = args.skip(1);
    assert(rest.len() == 0);
    let filled = doc.text(" (n="@).arg(args[0]);
    documents::a_plain_template_is_a_text(filled, ")"@, rest);
    documents::what_is_written_comes_last(doc, " (n="@, arbitrary(), args[0], way);
    documents::what_is_written_comes_last(
        doc.text(" (n="@),
        Seq::empty(),
        arbitrary(),
        args[0],
        way,
    );
    documents::what_is_written_comes_last(filled, ")"@, arbitrary(), arbitrary(), way);
    assert(written(doc, way) + " (n="@ + documents::said(args[0], way) + ")"@ =~= written(doc, way)
        + (" (n="@ + documents::said(args[0], way) + ")"@));
}

/// The runs of a group are told with how many of them failed and how many could not be parsed,
/// where some did.
pub proof fn failures_are_told_beside_the_runs(group: Group)
    ensures
        group.failed == 0 && report::unparsed_of(group) == 0 ==> report::runs_text(group)
            == text::decimal(group.runs as nat),
        group.failed > 0 && report::unparsed_of(group) == 0 ==> report::runs_text(group)
            == text::decimal(group.runs as nat) + " ("@ + text::decimal(group.failed as nat)
            + " failed"@ + ")"@,
        group.failed == 0 && report::unparsed_of(group) > 0 ==> report::runs_text(group)
            == text::decimal(group.runs as nat) + " ("@ + text::decimal(report::unparsed_of(group))
            + " unparsed"@ + ")"@,
        group.failed > 0 && report::unparsed_of(group) > 0 ==> report::runs_text(group)
            == text::decimal(group.runs as nat) + " ("@ + text::decimal(group.failed as nat)
            + " failed"@ + ", "@ + text::decimal(report::unparsed_of(group)) + " unparsed"@ + ")"@,
{
    let runs = text::decimal(group.runs as nat) + " ("@;
    let failed = text::decimal(group.failed as nat);
    let unread = text::decimal(report::unparsed_of(group));
    assert(runs + (failed + " failed"@) =~= runs + failed + " failed"@);
    assert(runs + (unread + " unparsed"@) =~= runs + unread + " unparsed"@);
    let both = runs + failed + " failed"@ + ", "@;
    assert(runs + (failed + " failed"@) + ", "@ =~= both);
    assert(both + (unread + " unparsed"@) =~= both + unread + " unparsed"@);
}

/// What was measured is the sum of the runs of every condition.
pub proof fn the_runs_of_every_condition_are_measured(conditions: Table<Condition>)
    ensures
        report::all_runs(conditions) == counting::total(
            conditions.column(),
            |condition: Condition| condition.overall.runs as int,
        ),
{
    let of = |condition: Condition| condition.overall.runs as int;
    runs_so_far(conditions, of, conditions.column().len() as int);
    assert(conditions.column().take(conditions.column().len() as int) =~= conditions.column());
}

proof fn runs_so_far(conditions: Table<Condition>, of: spec_fn(Condition) -> int, n: int)
    requires
        0 <= n <= conditions.column().len(),
        forall|condition: Condition| #[trigger] of(condition) == condition.overall.runs,
    ensures
        report::total_runs(conditions, n) == counting::total(conditions.column().take(n), of),
    decreases n,
{
    let some = conditions.column().take(n);
    if n > 0 {
        runs_so_far(conditions, of, n - 1);
        assert(some.drop_last() =~= conditions.column().take(n - 1));
        assert(some.last() == conditions.column()[n - 1]);
        assert(of(some.last()) == some.last().overall.runs);
    }
}

/// A quoted text is its lines, each behind a mark.
pub proof fn every_line_is_quoted(lines: Seq<Seq<char>>, line: Seq<char>)
    ensures
        report::quoted(lines.push(line)) == report::quoted(lines) + "> "@ + line + "\n"@,
        report::quoted(Seq::empty()).len() == 0,
{
    assert(lines.push(line).drop_last() =~= lines);
}

} // verus!
