//! What the summary of an agent's stream promises: every token that was billed, every tool that was
//! used, every file that was opened.

use vstd::prelude::*;

use crate::counting;
use crate::explore;
use crate::explore::{Block, Part, StreamRow, StreamSummary, TaskView, TranscriptRow, TranscriptSummary, Usage};
use crate::json;
use crate::json::JsonView;
use crate::laws::basics;
use crate::paths;
use crate::text;

verus! {

/// The whole number at a place of a JSON text; nothing where there is none.
pub open spec fn number_at(doc: Seq<char>, pointer: Seq<char>) -> int {
    match json::json_at(doc, pointer) {
        JsonView::Number(Some(n), _) => n as int,
        _ => 0,
    }
}

/// Whether a text stands at a place of a JSON text.
pub open spec fn says(doc: Seq<char>, pointer: Seq<char>, word: Seq<char>) -> bool {
    json::json_at(doc, pointer) == JsonView::Text(word)
}

/// A line that ends a turn of the parent.
pub open spec fn is_result_line(line: Seq<char>) -> bool {
    says(line, "/type"@, "result"@)
}

/// A message of the parent's own: no tool call is over it.
pub open spec fn is_own_line(line: Seq<char>) -> bool {
    says(line, "/type"@, "assistant"@) && (json::json_at(line, "/parent_tool_use_id"@) is Missing
        || json::json_at(line, "/parent_tool_use_id"@) is Null)
}

/// The last line that ends a turn.
pub open spec fn is_last_result_line(lines: Seq<Seq<char>>, at: int) -> bool {
    &&& 0 <= at < lines.len()
    &&& is_result_line(lines[at])
    &&& forall|k: int| at < k < lines.len() ==> !is_result_line(#[trigger] lines[k])
}

/// The blocks of a message.
pub open spec fn content(line: Seq<char>) -> Seq<Seq<char>> {
    match json::json_at(line, "/message/content"@) {
        JsonView::List(items) => items,
        _ => Seq::empty(),
    }
}

proof fn a_row_says_what_its_line_says(line: Seq<char>, row: StreamRow)
    requires
        explore::row_read(line, row),
    ensures
        explore::is_result(row) == is_result_line(line),
        explore::is_parents(row) == is_own_line(line),
        explore::said(row.kind, "system"@) == says(line, "/type"@, "system"@),
{
}

proof fn the_last_result(lines: Seq<Seq<char>>, rows: Seq<StreamRow>, at: int)
    requires
        explore::rows_read(lines, rows),
        is_last_result_line(lines, at),
    ensures
        explore::last_result(rows) == Some(rows[at]),
    decreases rows.len(),
{
    let n = rows.len() - 1;
    a_row_says_what_its_line_says(lines[n], rows[n]);
    if at < n {
        assert(!is_result_line(lines[n]));
        let (front, before) = (lines.drop_last(), rows.drop_last());
        assert(explore::rows_read(front, before)) by {
            assert forall|i: int| 0 <= i < front.len() implies explore::row_read(
                front[i],
                #[trigger] before[i],
            ) by {
                assert(explore::row_read(lines[i], rows[i]));
            }
        }
        assert forall|k: int| at < k < front.len() implies !is_result_line(#[trigger] front[k]) by {
            assert(front[k] == lines[k]);
        }
        the_last_result(front, before, at);
    } else {
        a_row_says_what_its_line_says(lines[at], rows[at]);
    }
}

/// The last result says what the run answered, whether it failed, and what it cost.
pub proof fn the_last_result_answers(
    lines: Seq<Seq<char>>,
    rows: Seq<StreamRow>,
    wiki: Seq<char>,
    summary: StreamSummary,
    at: int,
)
    requires
        explore::rows_read(lines, rows),
        explore::summarises(rows, wiki, summary),
        is_last_result_line(lines, at),
    ensures
        summary.answer@ == match json::json_at(lines[at], "/result"@) {
            JsonView::Text(answer) => answer,
            _ => Seq::empty(),
        },
        summary.is_error == (json::json_at(lines[at], "/is_error"@) == JsonView::Bool(true)),
        summary.cost_usd == match json::json_at(lines[at], "/total_cost_usd"@) {
            JsonView::Number(_, Some(bits)) => bits,
            _ => 0,
        },
{
    the_last_result(lines, rows, at);
    assert(explore::row_read(lines[at], rows[at]));
}

proof fn models_add_up(values: Seq<Seq<char>>, models: Seq<Usage>)
    requires
        models.len() == values.len(),
        forall|i: int| 0 <= i < values.len() ==> #[trigger] models[i] == explore::model_totals(values[i]),
    ensures
        explore::billed(models, Part::Input) == counting::total(
            values,
            |one: Seq<char>| number_at(one, "/inputTokens"@),
        ),
        explore::billed(models, Part::Output) == counting::total(
            values,
            |one: Seq<char>| number_at(one, "/outputTokens"@),
        ),
        explore::billed(models, Part::CacheRead) == counting::total(
            values,
            |one: Seq<char>| number_at(one, "/cacheReadInputTokens"@),
        ),
        explore::billed(models, Part::CacheCreate) == counting::total(
            values,
            |one: Seq<char>| number_at(one, "/cacheCreationInputTokens"@),
        ),
    decreases values.len(),
{
    if values.len() > 0 {
        let (front, before) = (values.drop_last(), models.drop_last());
        assert forall|i: int| 0 <= i < front.len() implies #[trigger] before[i]
            == explore::model_totals(front[i]) by {
            assert(models[i] == explore::model_totals(values[i]));
        }
        models_add_up(front, before);
        assert(models[models.len() - 1] == explore::model_totals(values[values.len() - 1]));
    }
}

/// A run is billed for every model that answered: where the last result names what each model took,
/// the session's tokens of each kind are the sum over all of them, and nothing where it names none.
pub proof fn a_session_is_billed_for_every_model(
    lines: Seq<Seq<char>>,
    rows: Seq<StreamRow>,
    wiki: Seq<char>,
    summary: StreamSummary,
    at: int,
)
    requires
        explore::rows_read(lines, rows),
        explore::summarises(rows, wiki, summary),
        is_last_result_line(lines, at),
    ensures
        json::json_at(lines[at], "/modelUsage"@) matches JsonView::Object(values) ==> {
            &&& summary.session_total.input == counting::total(
                values,
                |one: Seq<char>| number_at(one, "/inputTokens"@),
            )
            &&& summary.session_total.output == counting::total(
                values,
                |one: Seq<char>| number_at(one, "/outputTokens"@),
            )
            &&& summary.session_total.cache_read == counting::total(
                values,
                |one: Seq<char>| number_at(one, "/cacheReadInputTokens"@),
            )
            &&& summary.session_total.cache_create == counting::total(
                values,
                |one: Seq<char>| number_at(one, "/cacheCreationInputTokens"@),
            )
        },
        !(json::json_at(lines[at], "/modelUsage"@) is Object) ==> summary.session_total == (Usage {
            input: 0,
            output: 0,
            cache_read: 0,
            cache_create: 0,
        }),
{
    the_last_result(lines, rows, at);
    let row = rows[at];
    assert(explore::row_read(lines[at], row));
    let total = summary.session_total;
    assert(explore::part(total, Part::Input) == explore::billed(row.models@, Part::Input));
    assert(explore::part(total, Part::Output) == explore::billed(row.models@, Part::Output));
    assert(explore::part(total, Part::CacheRead) == explore::billed(row.models@, Part::CacheRead));
    assert(explore::part(total, Part::CacheCreate) == explore::billed(
        row.models@,
        Part::CacheCreate,
    ));
    match json::json_at(lines[at], "/modelUsage"@) {
        JsonView::Object(values) => {
            models_add_up(values, row.models@);
        },
        _ => {},
    }
}

/// One model more raises the session by what it took: of two runs that end in the same result but
/// for a model that one of them names besides, that one is billed for it on top.
pub proof fn one_model_more_raises_the_session(
    a: (Seq<Seq<char>>, Seq<StreamRow>, StreamSummary, int),
    b: (Seq<Seq<char>>, Seq<StreamRow>, StreamSummary, int),
    wiki: Seq<char>,
    models: Seq<Seq<char>>,
    one: Seq<char>,
)
    requires
        explore::rows_read(a.0, a.1),
        explore::rows_read(b.0, b.1),
        explore::summarises(a.1, wiki, a.2),
        explore::summarises(b.1, wiki, b.2),
        is_last_result_line(a.0, a.3),
        is_last_result_line(b.0, b.3),
        json::json_at(a.0[a.3], "/modelUsage"@) == JsonView::Object(models),
        json::json_at(b.0[b.3], "/modelUsage"@) == JsonView::Object(models.push(one)),
    ensures
        b.2.session_total.input == a.2.session_total.input + number_at(one, "/inputTokens"@),
        b.2.session_total.output == a.2.session_total.output + number_at(one, "/outputTokens"@),
        b.2.session_total.cache_read == a.2.session_total.cache_read + number_at(one, "/cacheReadInputTokens"@),
        b.2.session_total.cache_create == a.2.session_total.cache_create + number_at(one, "/cacheCreationInputTokens"@),
{
    a_session_is_billed_for_every_model(a.0, a.1, wiki, a.2, a.3);
    a_session_is_billed_for_every_model(b.0, b.1, wiki, b.2, b.3);
    basics::a_sum_grows_by_what_is_added(
        models,
        one,
        |one: Seq<char>| number_at(one, "/inputTokens"@),
    );
    basics::a_sum_grows_by_what_is_added(
        models,
        one,
        |one: Seq<char>| number_at(one, "/outputTokens"@),
    );
    basics::a_sum_grows_by_what_is_added(
        models,
        one,
        |one: Seq<char>| number_at(one, "/cacheReadInputTokens"@),
    );
    basics::a_sum_grows_by_what_is_added(
        models,
        one,
        |one: Seq<char>| number_at(one, "/cacheCreationInputTokens"@),
    );
}

proof fn a_usage_is_read(doc: Seq<char>)
    ensures
        explore::part(explore::message_usage(doc, "/usage"@), Part::Input) == number_at(
            doc,
            "/usage/input_tokens"@,
        ),
        explore::part(explore::message_usage(doc, "/message/usage"@), Part::Input) == number_at(
            doc,
            "/message/usage/input_tokens"@,
        ),
        explore::part(explore::message_usage(doc, "/usage"@), Part::Output) == number_at(
            doc,
            "/usage/output_tokens"@,
        ),
        explore::part(explore::message_usage(doc, "/message/usage"@), Part::Output) == number_at(
            doc,
            "/message/usage/output_tokens"@,
        ),
        explore::part(explore::message_usage(doc, "/usage"@), Part::CacheRead) == number_at(
            doc,
            "/usage/cache_read_input_tokens"@,
        ),
        explore::part(explore::message_usage(doc, "/message/usage"@), Part::CacheRead) == number_at(
            doc,
            "/message/usage/cache_read_input_tokens"@,
        ),
        explore::part(explore::message_usage(doc, "/usage"@), Part::CacheCreate) == number_at(
            doc,
            "/usage/cache_creation_input_tokens"@,
        ),
        explore::part(explore::message_usage(doc, "/message/usage"@), Part::CacheCreate) == number_at(
            doc,
            "/message/usage/cache_creation_input_tokens"@,
        ),
{
    reveal_strlit("/usage");
    reveal_strlit("/message/usage");
    reveal_strlit("/input_tokens");
    reveal_strlit("/usage/input_tokens");
    reveal_strlit("/message/usage/input_tokens");
    assert("/usage"@ + "/input_tokens"@ =~= "/usage/input_tokens"@);
    assert("/message/usage"@ + "/input_tokens"@ =~= "/message/usage/input_tokens"@);
    reveal_strlit("/output_tokens");
    reveal_strlit("/usage/output_tokens");
    reveal_strlit("/message/usage/output_tokens");
    assert("/usage"@ + "/output_tokens"@ =~= "/usage/output_tokens"@);
    assert("/message/usage"@ + "/output_tokens"@ =~= "/message/usage/output_tokens"@);
    reveal_strlit("/cache_read_input_tokens");
    reveal_strlit("/usage/cache_read_input_tokens");
    reveal_strlit("/message/usage/cache_read_input_tokens");
    assert("/usage"@ + "/cache_read_input_tokens"@ =~= "/usage/cache_read_input_tokens"@);
    assert("/message/usage"@ + "/cache_read_input_tokens"@ =~= "/message/usage/cache_read_input_tokens"@);
    reveal_strlit("/cache_creation_input_tokens");
    reveal_strlit("/usage/cache_creation_input_tokens");
    reveal_strlit("/message/usage/cache_creation_input_tokens");
    assert("/usage"@ + "/cache_creation_input_tokens"@ =~= "/usage/cache_creation_input_tokens"@);
    assert("/message/usage"@ + "/cache_creation_input_tokens"@ =~= "/message/usage/cache_creation_input_tokens"@);
}

/// What a line bills the parent for, of one kind of token.
pub open spec fn billed_to_parent(line: Seq<char>, pointer: Seq<char>) -> int {
    if is_result_line(line) {
        number_at(line, pointer)
    } else {
        0
    }
}

proof fn turns_add_up(lines: Seq<Seq<char>>, rows: Seq<StreamRow>)
    requires
        explore::rows_read(lines, rows),
    ensures
        explore::billed(explore::turns(rows), Part::Input) == counting::total(
            lines,
            |line: Seq<char>| billed_to_parent(line, "/usage/input_tokens"@),
        ),
        explore::billed(explore::turns(rows), Part::Output) == counting::total(
            lines,
            |line: Seq<char>| billed_to_parent(line, "/usage/output_tokens"@),
        ),
        explore::billed(explore::turns(rows), Part::CacheRead) == counting::total(
            lines,
            |line: Seq<char>| billed_to_parent(line, "/usage/cache_read_input_tokens"@),
        ),
        explore::billed(explore::turns(rows), Part::CacheCreate) == counting::total(
            lines,
            |line: Seq<char>| billed_to_parent(line, "/usage/cache_creation_input_tokens"@),
        ),
    decreases lines.len(),
{
    if lines.len() > 0 {
        let (front, before) = (lines.drop_last(), rows.drop_last());
        let n = lines.len() - 1;
        assert forall|i: int| 0 <= i < front.len() implies explore::row_read(
            front[i],
            #[trigger] before[i],
        ) by {
            assert(explore::row_read(lines[i], rows[i]));
        }
        turns_add_up(front, before);
        assert(explore::row_read(lines[n], rows[n]));
        a_row_says_what_its_line_says(lines[n], rows[n]);
        a_usage_is_read(lines[n]);
        let was = explore::turns(before);
        assert(was.push(rows[n].usage).drop_last() =~= was);
    }
}

/// The parent is billed for every turn: its tokens of each kind are the sum over all the results of
/// the stream.
pub proof fn the_parent_is_billed_for_every_turn(
    lines: Seq<Seq<char>>,
    rows: Seq<StreamRow>,
    wiki: Seq<char>,
    summary: StreamSummary,
)
    requires
        explore::rows_read(lines, rows),
        explore::summarises(rows, wiki, summary),
    ensures
        summary.parent_total.input == counting::total(
            lines,
            |line: Seq<char>| billed_to_parent(line, "/usage/input_tokens"@),
        ),
        summary.parent_total.output == counting::total(
            lines,
            |line: Seq<char>| billed_to_parent(line, "/usage/output_tokens"@),
        ),
        summary.parent_total.cache_read == counting::total(
            lines,
            |line: Seq<char>| billed_to_parent(line, "/usage/cache_read_input_tokens"@),
        ),
        summary.parent_total.cache_create == counting::total(
            lines,
            |line: Seq<char>| billed_to_parent(line, "/usage/cache_creation_input_tokens"@),
        ),
{
    turns_add_up(lines, rows);
    let total = summary.parent_total;
    let turns = explore::turns(rows);
    assert(explore::part(total, Part::Input) == explore::billed(turns, Part::Input));
    assert(explore::part(total, Part::Output) == explore::billed(turns, Part::Output));
    assert(explore::part(total, Part::CacheRead) == explore::billed(turns, Part::CacheRead));
    assert(explore::part(total, Part::CacheCreate) == explore::billed(turns, Part::CacheCreate));
}

/// The session is the first that a line names, and the model the first that a message of the
/// parent's own does.
pub proof fn the_first_line_names_the_session(
    lines: Seq<Seq<char>>,
    rows: Seq<StreamRow>,
    wiki: Seq<char>,
    summary: StreamSummary,
    at: int,
)
    requires
        explore::rows_read(lines, rows),
        explore::summarises(rows, wiki, summary),
        0 <= at < lines.len(),
    ensures
        json::json_at(lines[at], "/session_id"@) matches JsonView::Text(id) ==> (forall|k: int|
            0 <= k < at ==> !(json::json_at(#[trigger] lines[k], "/session_id"@) is Text))
            ==> summary.session_id is Some && summary.session_id->0@ == id,
        (forall|k: int|
            0 <= k < lines.len() ==> !(json::json_at(#[trigger] lines[k], "/session_id"@) is Text))
            ==> summary.session_id is None,
        is_own_line(lines[at]) ==> (json::json_at(lines[at], "/message/model"@) matches
            JsonView::Text(model) ==> (forall|k: int|
            0 <= k < at ==> !(is_own_line(#[trigger] lines[k]) && json::json_at(
                lines[k],
                "/message/model"@,
            ) is Text)) ==> summary.model is Some && summary.model->0@ == model),
        (forall|k: int|
            0 <= k < lines.len() ==> !(is_own_line(#[trigger] lines[k]) && json::json_at(
                lines[k],
                "/message/model"@,
            ) is Text)) ==> summary.model is None,
{
    let session = |row: StreamRow| json::text_of(row.session_id);
    let model = |row: StreamRow|
        if explore::is_parents(row) {
            json::text_of(row.model)
        } else {
            None
        };
    assert forall|k: int| 0 <= k < lines.len() implies explore::row_read(
        #[trigger] lines[k],
        rows[k],
    ) && explore::is_parents(rows[k]) == is_own_line(lines[k]) by {
        assert(explore::row_read(lines[k], rows[k]));
        a_row_says_what_its_line_says(lines[k], rows[k]);
    }
    if forall|k: int|
        0 <= k < at ==> !(json::json_at(#[trigger] lines[k], "/session_id"@) is Text) {
        assert forall|k: int| 0 <= k < at implies session(#[trigger] rows[k]) is None by {
            assert(!(json::json_at(lines[k], "/session_id"@) is Text));
        }
        basics::the_first_that_has_it_gives_it(rows, session, at);
    }
    if forall|k: int|
        0 <= k < lines.len() ==> !(json::json_at(#[trigger] lines[k], "/session_id"@) is Text) {
        assert forall|k: int| 0 <= k < rows.len() implies session(#[trigger] rows[k]) is None by {
            assert(!(json::json_at(lines[k], "/session_id"@) is Text));
        }
        basics::the_first_that_has_it_gives_it(rows, session, at);
    }
    if forall|k: int|
        0 <= k < at ==> !(is_own_line(#[trigger] lines[k]) && json::json_at(
            lines[k],
            "/message/model"@,
        ) is Text) {
        assert forall|k: int| 0 <= k < at implies model(#[trigger] rows[k]) is None by {
            assert(!(is_own_line(lines[k]) && json::json_at(lines[k], "/message/model"@) is Text));
        }
        basics::the_first_that_has_it_gives_it(rows, model, at);
    }
    if forall|k: int|
        0 <= k < lines.len() ==> !(is_own_line(#[trigger] lines[k]) && json::json_at(
            lines[k],
            "/message/model"@,
        ) is Text) {
        assert forall|k: int| 0 <= k < rows.len() implies model(#[trigger] rows[k]) is None by {
            assert(!(is_own_line(lines[k]) && json::json_at(lines[k], "/message/model"@) is Text));
        }
        basics::the_first_that_has_it_gives_it(rows, model, at);
    }
}

/// How many blocks of a message use a tool.
pub open spec fn uses_in(items: Seq<Seq<char>>) -> nat {
    counting::how_many(items, |item: Seq<char>| says(item, "/type"@, "tool_use"@))
}

/// How many blocks of a message use a tool of a name.
pub open spec fn uses_of(items: Seq<Seq<char>>, name: Seq<char>) -> nat {
    counting::how_many(
        items,
        |item: Seq<char>| says(item, "/type"@, "tool_use"@) && says(item, "/name"@, name),
    )
}

proof fn blocks_count(items: Seq<Seq<char>>, blocks: Seq<Block>, name: Seq<char>)
    requires
        blocks.len() == items.len(),
        forall|i: int|
            0 <= i < items.len() ==> explore::block_read(items[i], #[trigger] blocks[i]),
    ensures
        counting::how_many(blocks, |block: Block| explore::is_tool_use(block)) == uses_in(items),
        explore::tool_count(blocks, name) == uses_of(items, name),
    decreases items.len(),
{
    if items.len() > 0 {
        let n = items.len() - 1;
        let (front, before) = (items.drop_last(), blocks.drop_last());
        assert forall|i: int| 0 <= i < front.len() implies explore::block_read(
            front[i],
            #[trigger] before[i],
        ) by {
            assert(explore::block_read(items[i], blocks[i]));
        }
        blocks_count(front, before, name);
        assert(explore::block_read(items[n], blocks[n]));
    }
}

proof fn own_blocks_count(lines: Seq<Seq<char>>, rows: Seq<StreamRow>, name: Seq<char>)
    requires
        explore::rows_read(lines, rows),
    ensures
        counting::how_many(
            explore::parent_blocks(rows),
            |block: Block| explore::is_tool_use(block),
        ) == counting::total(
            lines,
            |line: Seq<char>|
                if is_own_line(line) {
                    uses_in(content(line)) as int
                } else {
                    0
                },
        ),
        explore::tool_count(explore::parent_blocks(rows), name) == counting::total(
            lines,
            |line: Seq<char>|
                if is_own_line(line) {
                    uses_of(content(line), name) as int
                } else {
                    0
                },
        ),
    decreases lines.len(),
{
    if lines.len() > 0 {
        let n = lines.len() - 1;
        let (front, before) = (lines.drop_last(), rows.drop_last());
        assert forall|i: int| 0 <= i < front.len() implies explore::row_read(
            front[i],
            #[trigger] before[i],
        ) by {
            assert(explore::row_read(lines[i], rows[i]));
        }
        own_blocks_count(front, before, name);
        assert(explore::row_read(lines[n], rows[n]));
        a_row_says_what_its_line_says(lines[n], rows[n]);
        let was = explore::parent_blocks(before);
        let new = rows[n].blocks@;
        counting::how_many_joins(was, new, |block: Block| explore::is_tool_use(block));
        counting::how_many_joins(
            was,
            new,
            |block: Block| explore::is_tool_use(block) && explore::said(block.name, name),
        );
        blocks_count(content(lines[n]), new, name);
    }
}

/// Every tool that the parent used itself is counted, and by its name; what a subagent used is not.
pub proof fn every_tool_of_the_parents_is_counted(
    lines: Seq<Seq<char>>,
    rows: Seq<StreamRow>,
    wiki: Seq<char>,
    summary: StreamSummary,
    name: Seq<char>,
)
    requires
        explore::rows_read(lines, rows),
        explore::summarises(rows, wiki, summary),
    ensures
        summary.parent_tool_uses == counting::total(
            lines,
            |line: Seq<char>|
                if is_own_line(line) {
                    uses_in(content(line)) as int
                } else {
                    0
                },
        ),
        ({
            let uses = counting::total(
                lines,
                |line: Seq<char>|
                    if is_own_line(line) {
                        uses_of(content(line), name) as int
                    } else {
                        0
                    },
            );
            &&& summary.parent_tools.names().contains(name) == (uses > 0)
            &&& uses > 0 ==> summary.parent_tools.at(name) == uses
        }),
{
    own_blocks_count(lines, rows, name);
}

/// Whether a block of a message opens a file.
pub open spec fn opens_file(item: Seq<char>, wiki: Seq<char>, file: Seq<char>) -> bool {
    &&& says(item, "/type"@, "tool_use"@)
    &&& says(item, "/name"@, "Read"@)
    &&& json::json_at(item, "/input/file_path"@) matches JsonView::Text(path)
        && paths::same_path(explore::relative_path(path, wiki), file)
}

proof fn own_blocks_open(
    lines: Seq<Seq<char>>,
    rows: Seq<StreamRow>,
    wiki: Seq<char>,
    file: Seq<char>,
)
    requires
        explore::rows_read(lines, rows),
    ensures
        explore::opened(explore::parent_blocks(rows), wiki, file) == exists|k: int, i: int|
            0 <= k < lines.len() && is_own_line(lines[k]) && 0 <= i < content(lines[k]).len()
                && opens_file(#[trigger] content(lines[k])[i], wiki, file),
    decreases lines.len(),
{
    if lines.len() > 0 {
        let n = lines.len() - 1;
        let (front, before) = (lines.drop_last(), rows.drop_last());
        assert forall|i: int| 0 <= i < front.len() implies explore::row_read(
            front[i],
            #[trigger] before[i],
        ) by {
            assert(explore::row_read(lines[i], rows[i]));
        }
        own_blocks_open(front, before, wiki, file);
        assert(explore::row_read(lines[n], rows[n]));
        a_row_says_what_its_line_says(lines[n], rows[n]);
        let was = explore::parent_blocks(before);
        let now = explore::parent_blocks(rows);
        let new = rows[n].blocks@;
        let found = exists|k: int, i: int|
            0 <= k < lines.len() && is_own_line(lines[k]) && 0 <= i < content(lines[k]).len()
                && opens_file(#[trigger] content(lines[k])[i], wiki, file);
        if explore::opened(was, wiki, file) {
            let b = choose|b: int|
                0 <= b < was.len() && ((#[trigger] was[b]).path matches Some(path)
                    && explore::opens(was[b], wiki, explore::relative_path(path@, wiki))
                    && paths::same_path(explore::relative_path(path@, wiki), file));
            assert(now[b] == was[b]);
            let (k, i) = choose|k: int, i: int|
                0 <= k < front.len() && is_own_line(front[k]) && 0 <= i < content(front[k]).len()
                    && opens_file(#[trigger] content(front[k])[i], wiki, file);
            assert(opens_file(content(lines[k])[i], wiki, file));
        }
        if found {
            let (k, i) = choose|k: int, i: int|
                0 <= k < lines.len() && is_own_line(lines[k]) && 0 <= i < content(lines[k]).len()
                    && opens_file(#[trigger] content(lines[k])[i], wiki, file);
            if k < n {
                assert(opens_file(content(front[k])[i], wiki, file));
            } else {
                let block = new[i];
                assert(explore::block_read(content(lines[n])[i], block));
                assert(now[was.len() + i] == block);
                assert(block.path is Some);
            }
        }
        if explore::opened(now, wiki, file) {
            let b = choose|b: int|
                0 <= b < now.len() && ((#[trigger] now[b]).path matches Some(path)
                    && explore::opens(now[b], wiki, explore::relative_path(path@, wiki))
                    && paths::same_path(explore::relative_path(path@, wiki), file));
            if b < was.len() {
                assert(was[b] == now[b]);
                assert(explore::opened(was, wiki, file));
            } else {
                let i = b - was.len();
                assert(now[b] == new[i]);
                assert(explore::block_read(content(lines[n])[i], new[i]));
                assert(opens_file(content(lines[n])[i], wiki, file));
            }
        }
    }
}

/// The files that the parent opened itself are those that a message of its own reads, in the wiki's
/// spelling, in the order of their paths and none twice.
pub proof fn every_file_the_parent_opened_is_listed(
    lines: Seq<Seq<char>>,
    rows: Seq<StreamRow>,
    wiki: Seq<char>,
    summary: StreamSummary,
    file: Seq<char>,
)
    requires
        explore::rows_read(lines, rows),
        explore::summarises(rows, wiki, summary),
    ensures
        (exists|f: int|
            0 <= f < summary.parent_files_read.len() && paths::same_path(
                (#[trigger] summary.parent_files_read@[f])@,
                file,
            )) == exists|k: int, i: int|
            0 <= k < lines.len() && is_own_line(lines[k]) && 0 <= i < content(lines[k]).len()
                && opens_file(#[trigger] content(lines[k])[i], wiki, file),
        forall|a: int, b: int|
            0 <= a < b < summary.parent_files_read.len() ==> paths::path_before(
                (#[trigger] summary.parent_files_read@[a])@,
                (#[trigger] summary.parent_files_read@[b])@,
            ),
{
    own_blocks_open(lines, rows, wiki, file);
    let list = text::texts(summary.parent_files_read@);
    assert(paths::holds(list, file) == explore::opened(explore::parent_blocks(rows), wiki, file));
    if paths::holds(list, file) {
        let f = choose|f: int| 0 <= f < list.len() && paths::same_path(#[trigger] list[f], file);
        assert(paths::same_path(summary.parent_files_read@[f]@, file));
    }
    if exists|f: int|
        0 <= f < summary.parent_files_read.len() && paths::same_path(
            (#[trigger] summary.parent_files_read@[f])@,
            file,
        ) {
        let f = choose|f: int|
            0 <= f < summary.parent_files_read.len() && paths::same_path(
                (#[trigger] summary.parent_files_read@[f])@,
                file,
            );
        assert(paths::same_path(list[f], file));
    }
    assert forall|a: int, b: int| 0 <= a < b < summary.parent_files_read.len() implies
        paths::path_before(
        (#[trigger] summary.parent_files_read@[a])@,
        (#[trigger] summary.parent_files_read@[b])@,
    ) by {
        assert(paths::path_before(list[a], list[b]));
    }
}

/// The text at a place of a JSON text; empty where there is none.
pub open spec fn text_or_empty(doc: Seq<char>, pointer: Seq<char>) -> Seq<char> {
    match json::json_at(doc, pointer) {
        JsonView::Text(text) => text,
        _ => Seq::empty(),
    }
}

/// A line that says a subagent was spawned.
pub open spec fn starts_task(line: Seq<char>) -> bool {
    says(line, "/type"@, "system"@) && says(line, "/subtype"@, "task_started"@)
}

/// A line that says what became of a subagent.
pub open spec fn ends_task(line: Seq<char>) -> bool {
    says(line, "/type"@, "system"@) && says(line, "/subtype"@, "task_notification"@)
}

proof fn task_at_is_the_first(tasks: Seq<TaskView>, id: Seq<char>)
    ensures
        ({
            let at = explore::task_at(tasks, id);
            &&& 0 <= at <= tasks.len()
            &&& at < tasks.len() ==> tasks[at].agent_id == id
            &&& forall|k: int| 0 <= k < at ==> (#[trigger] tasks[k]).agent_id != id
        }),
    decreases tasks.len(),
{
    if tasks.len() > 0 {
        let front = tasks.drop_last();
        task_at_is_the_first(front, id);
        assert forall|k: int| 0 <= k < explore::task_at(tasks, id) implies (
        #[trigger] tasks[k]).agent_id != id by {
            if k < front.len() {
                assert(front[k] == tasks[k]);
            }
        }
    }
}

/// One line more: a subagent that is spawned is the last task, with nothing known of its end; what
/// is said of one's end is kept with the first task of that id and no other; and any other line
/// leaves the tasks as they are.
pub proof fn a_task_starts_and_ends_by_its_lines(rows: Seq<StreamRow>, line: Seq<char>, row: StreamRow)
    requires
        explore::row_read(line, row),
    ensures
        ({
            let was = explore::tasks_of(rows);
            let now = explore::tasks_of(rows.push(row));
            &&& starts_task(line) ==> now.len() == was.len() + 1 && now.last().agent_id
                == text_or_empty(line, "/task_id"@) && now.last().kind == text_or_empty(
                line,
                "/subagent_type"@,
            ) && now.last().status is None && now.last().duration_ms is None
                && now.last().tool_uses is None && now.drop_last() == was
            &&& !starts_task(line) ==> now.len() == was.len()
            &&& !starts_task(line) && !ends_task(line) ==> now == was
            &&& !starts_task(line) ==> forall|k: int|
                0 <= k < was.len() ==> (#[trigger] now[k]).agent_id == was[k].agent_id
                    && now[k].kind == was[k].kind
            &&& ends_task(line) ==> forall|k: int|
                0 <= k < was.len() ==> if (#[trigger] was[k]).agent_id == text_or_empty(
                    line,
                    "/task_id"@,
                ) && (forall|j: int|
                    0 <= j < k ==> (#[trigger] was[j]).agent_id != was[k].agent_id) {
                    &&& now[k].status == match json::json_at(line, "/status"@) {
                        JsonView::Text(status) => Some(status),
                        _ => None,
                    }
                    &&& now[k].duration_ms == match json::json_at(line, "/usage/duration_ms"@) {
                        JsonView::Number(n, _) => n,
                        _ => None,
                    }
                    &&& now[k].tool_uses == match json::json_at(line, "/usage/tool_uses"@) {
                        JsonView::Number(n, _) => n,
                        _ => None,
                    }
                } else {
                    now[k] == was[k]
                }
        }),
        explore::tasks_of(Seq::empty()).len() == 0,
{
    let was = explore::tasks_of(rows);
    let now = explore::tasks_of(rows.push(row));
    assert(rows.push(row).drop_last() =~= rows);
    reveal_strlit("task_started");
    reveal_strlit("task_notification");
    assert("task_started"@.len() != "task_notification"@.len());
    if starts_task(line) {
        assert(now.drop_last() =~= was);
    }
    if ends_task(line) {
        let id = text_or_empty(line, "/task_id"@);
        task_at_is_the_first(was, id);
        let at = explore::task_at(was, id);
        assert forall|k: int|
            0 <= k < was.len() && k != at && was[k].agent_id == id implies exists|j: int|
            0 <= j < k && (#[trigger] was[j]).agent_id == was[k].agent_id by {
            assert(at < k);
            assert(was[at].agent_id == id);
        }
    }
}

/// The tasks of a summary are those that its lines say, field by field.
pub proof fn a_summary_names_its_tasks(
    rows: Seq<StreamRow>,
    wiki: Seq<char>,
    summary: StreamSummary,
    k: int,
)
    requires
        explore::summarises(rows, wiki, summary),
        0 <= k < summary.tasks.len(),
    ensures
        summary.tasks.len() == explore::tasks_of(rows).len(),
        ({
            let (task, said) = (summary.tasks@[k], explore::tasks_of(rows)[k]);
            &&& task.agent_id@ == said.agent_id
            &&& task.kind@ == said.kind
            &&& match task.status {
                Some(status) => said.status == Some(status@),
                None => said.status is None,
            }
            &&& task.duration_ms == said.duration_ms
            &&& task.tool_uses == said.tool_uses
        }),
{
    let views = explore::task_views(summary.tasks@);
    assert(views.len() == summary.tasks.len());
    assert(views[k] == summary.tasks@[k]@);
}

/// A piece of a message of the subagent's.
pub open spec fn is_piece_line(line: Seq<char>, id: Seq<char>) -> bool {
    says(line, "/type"@, "assistant"@) && says(line, "/message/id"@, id)
}

proof fn a_piece_is_read(line: Seq<char>, row: TranscriptRow, id: Seq<char>)
    requires
        explore::transcript_row_read(line, row),
    ensures
        explore::is_piece_of(row, id) == is_piece_line(line, id),
        explore::is_piece(row) == (says(line, "/type"@, "assistant"@) && json::json_at(
            line,
            "/message/id"@,
        ) is Text),
        row.usage.input == number_at(line, "/message/usage/input_tokens"@),
        row.usage.output == number_at(line, "/message/usage/output_tokens"@),
        row.usage.cache_read == number_at(line, "/message/usage/cache_read_input_tokens"@),
        row.usage.cache_create == number_at(line, "/message/usage/cache_creation_input_tokens"@),
{
    a_usage_is_read(line);
    assert(explore::part(row.usage, Part::Input) == row.usage.input);
    assert(explore::part(row.usage, Part::Output) == row.usage.output);
    assert(explore::part(row.usage, Part::CacheRead) == row.usage.cache_read);
    assert(explore::part(row.usage, Part::CacheCreate) == row.usage.cache_create);
}

/// A subagent is billed once for each of its messages: the summary counts the messages, each of a
/// line of its own id, and adds up what each is billed for, which is what the line says that has
/// the most output of those that are pieces of it.
pub proof fn a_message_is_billed_once(
    lines: Seq<Seq<char>>,
    rows: Seq<TranscriptRow>,
    wiki: Seq<char>,
    summary: TranscriptSummary,
) -> (billed: (Seq<Seq<char>>, Seq<int>))
    requires
        explore::transcript_read(lines, rows),
        explore::transcribes(rows, wiki, summary),
    ensures
        summary.turns == billed.0.len(),
        billed.1.len() == billed.0.len(),
        billed.0.no_duplicates(),
        forall|k: int, id: Seq<char>|
            0 <= k < lines.len() && #[trigger] is_piece_line(lines[k], id) ==> billed.0.contains(id),
        forall|m: int|
            0 <= m < billed.0.len() ==> 0 <= #[trigger] billed.1[m] < lines.len() && is_piece_line(
                lines[billed.1[m]],
                billed.0[m],
            ),
        forall|m: int, k: int|
            0 <= m < billed.0.len() && 0 <= k < lines.len() && #[trigger] is_piece_line(
                lines[k],
                #[trigger] billed.0[m],
            ) ==> number_at(lines[k], "/message/usage/output_tokens"@) <= number_at(
                lines[billed.1[m]],
                "/message/usage/output_tokens"@,
            ),
        summary.usage.input == counting::total(
            billed.1,
            |at: int| number_at(lines[at], "/message/usage/input_tokens"@),
        ),
        summary.usage.output == counting::total(
            billed.1,
            |at: int| number_at(lines[at], "/message/usage/output_tokens"@),
        ),
        summary.usage.cache_read == counting::total(
            billed.1,
            |at: int| number_at(lines[at], "/message/usage/cache_read_input_tokens"@),
        ),
        summary.usage.cache_create == counting::total(
            billed.1,
            |at: int| number_at(lines[at], "/message/usage/cache_creation_input_tokens"@),
        ),
{
    explore::each_message_is_billed_once_for_its_largest_piece(rows);
    let turns = explore::messages(rows);
    let ids = turns.ids;
    let places = Seq::new(
        ids.len(),
        |m: int|
            choose|i: int|
                0 <= i < rows.len() && explore::is_piece_of(rows[i], ids[m])
                    && #[trigger] rows[i].usage == turns.bills[m],
    );
    assert forall|m: int| 0 <= m < ids.len() implies 0 <= #[trigger] places[m] < rows.len()
        && explore::is_piece_of(rows[places[m]], ids[m]) && rows[places[m]].usage
        == turns.bills[m] by {
        assert(exists|i: int|
            0 <= i < rows.len() && explore::is_piece_of(rows[i], ids[m])
                && #[trigger] rows[i].usage == turns.bills[m]);
    }
    assert forall|k: int, id: Seq<char>|
        0 <= k < lines.len() && #[trigger] is_piece_line(lines[k], id) implies ids.contains(id) by {
        assert(explore::transcript_row_read(lines[k], rows[k]));
        a_piece_is_read(lines[k], rows[k], id);
        assert(explore::is_piece_of(rows[k], id));
    }
    assert forall|m: int| 0 <= m < ids.len() implies 0 <= #[trigger] places[m] < lines.len()
        && is_piece_line(lines[places[m]], ids[m]) by {
        assert(explore::transcript_row_read(lines[places[m]], rows[places[m]]));
        a_piece_is_read(lines[places[m]], rows[places[m]], ids[m]);
    }
    assert forall|m: int, k: int|
        0 <= m < ids.len() && 0 <= k < lines.len() && #[trigger] is_piece_line(
            lines[k],
            #[trigger] ids[m],
        ) implies number_at(lines[k], "/message/usage/output_tokens"@) <= number_at(
        lines[places[m]],
        "/message/usage/output_tokens"@,
    ) by {
        assert(explore::transcript_row_read(lines[k], rows[k]));
        a_piece_is_read(lines[k], rows[k], ids[m]);
        let at = places[m];
        assert(0 <= at < rows.len());
        assert(explore::transcript_row_read(lines[at], rows[at]));
        a_piece_is_read(lines[at], rows[at], ids[m]);
        assert(rows[k].usage.output <= turns.bills[m].output);
    }
    pieces_add_up(lines, rows, turns.bills, places);
    let usage = summary.usage;
    assert(explore::part(usage, Part::Input) == explore::billed(turns.bills, Part::Input));
    assert(explore::part(usage, Part::Output) == explore::billed(turns.bills, Part::Output));
    assert(explore::part(usage, Part::CacheRead) == explore::billed(turns.bills, Part::CacheRead));
    assert(explore::part(usage, Part::CacheCreate) == explore::billed(turns.bills, Part::CacheCreate));
    (ids, places)
}

proof fn pieces_add_up(
    lines: Seq<Seq<char>>,
    rows: Seq<TranscriptRow>,
    bills: Seq<Usage>,
    places: Seq<int>,
)
    requires
        explore::transcript_read(lines, rows),
        bills.len() == places.len(),
        forall|m: int|
            0 <= m < places.len() ==> 0 <= #[trigger] places[m] < rows.len()
                && rows[places[m]].usage == bills[m],
    ensures
        explore::billed(bills, Part::Input) == counting::total(
            places,
            |at: int| number_at(lines[at], "/message/usage/input_tokens"@),
        ),
        explore::billed(bills, Part::Output) == counting::total(
            places,
            |at: int| number_at(lines[at], "/message/usage/output_tokens"@),
        ),
        explore::billed(bills, Part::CacheRead) == counting::total(
            places,
            |at: int| number_at(lines[at], "/message/usage/cache_read_input_tokens"@),
        ),
        explore::billed(bills, Part::CacheCreate) == counting::total(
            places,
            |at: int| number_at(lines[at], "/message/usage/cache_creation_input_tokens"@),
        ),
    decreases places.len(),
{
    if places.len() > 0 {
        let n = places.len() - 1;
        let (front, before) = (places.drop_last(), bills.drop_last());
        assert forall|m: int| 0 <= m < front.len() implies 0 <= #[trigger] front[m] < rows.len()
            && rows[front[m]].usage == before[m] by {
            assert(front[m] == places[m]);
        }
        pieces_add_up(lines, rows, before, front);
        let at = places[n];
        assert(0 <= at < rows.len() && rows[at].usage == bills[n]);
        assert(explore::transcript_row_read(lines[at], rows[at]));
        a_piece_is_read(lines[at], rows[at], Seq::empty());
    }
}

proof fn piece_blocks_count(lines: Seq<Seq<char>>, rows: Seq<TranscriptRow>)
    requires
        explore::transcript_read(lines, rows),
    ensures
        counting::how_many(
            explore::piece_blocks(rows),
            |block: Block| explore::is_tool_use(block),
        ) == counting::total(
            lines,
            |line: Seq<char>|
                if says(line, "/type"@, "assistant"@) && json::json_at(
                    line,
                    "/message/id"@,
                ) is Text {
                    uses_in(content(line)) as int
                } else {
                    0
                },
        ),
    decreases lines.len(),
{
    if lines.len() > 0 {
        let n = lines.len() - 1;
        let (front, before) = (lines.drop_last(), rows.drop_last());
        assert forall|i: int| 0 <= i < front.len() implies explore::transcript_row_read(
            front[i],
            #[trigger] before[i],
        ) by {
            assert(explore::transcript_row_read(lines[i], rows[i]));
        }
        piece_blocks_count(front, before);
        assert(explore::transcript_row_read(lines[n], rows[n]));
        a_piece_is_read(lines[n], rows[n], Seq::empty());
        let new = rows[n].blocks@;
        counting::how_many_joins(
            explore::piece_blocks(before),
            new,
            |block: Block| explore::is_tool_use(block),
        );
        blocks_count(content(lines[n]), new, Seq::empty());
    }
}

/// Every tool that a subagent used is counted.
pub proof fn every_tool_of_a_subagents_is_counted(
    lines: Seq<Seq<char>>,
    rows: Seq<TranscriptRow>,
    wiki: Seq<char>,
    summary: TranscriptSummary,
)
    requires
        explore::transcript_read(lines, rows),
        explore::transcribes(rows, wiki, summary),
    ensures
        summary.tool_uses == counting::total(
            lines,
            |line: Seq<char>|
                if says(line, "/type"@, "assistant"@) && json::json_at(
                    line,
                    "/message/id"@,
                ) is Text {
                    uses_in(content(line)) as int
                } else {
                    0
                },
        ),
{
    piece_blocks_count(lines, rows);
}

proof fn piece_blocks_open(
    lines: Seq<Seq<char>>,
    rows: Seq<TranscriptRow>,
    wiki: Seq<char>,
    file: Seq<char>,
)
    requires
        explore::transcript_read(lines, rows),
    ensures
        explore::opened(explore::piece_blocks(rows), wiki, file) == exists|k: int, i: int|
            0 <= k < lines.len() && explore::is_piece(rows[k]) && 0 <= i < content(lines[k]).len()
                && opens_file(#[trigger] content(lines[k])[i], wiki, file),
    decreases lines.len(),
{
    if lines.len() > 0 {
        let n = lines.len() - 1;
        let (front, before) = (lines.drop_last(), rows.drop_last());
        assert forall|i: int| 0 <= i < front.len() implies explore::transcript_row_read(
            front[i],
            #[trigger] before[i],
        ) by {
            assert(explore::transcript_row_read(lines[i], rows[i]));
        }
        piece_blocks_open(front, before, wiki, file);
        assert(explore::transcript_row_read(lines[n], rows[n]));
        let was = explore::piece_blocks(before);
        let now = explore::piece_blocks(rows);
        let new = rows[n].blocks@;
        let found = exists|k: int, i: int|
            0 <= k < lines.len() && explore::is_piece(rows[k]) && 0 <= i < content(lines[k]).len()
                && opens_file(#[trigger] content(lines[k])[i], wiki, file);
        if explore::opened(was, wiki, file) {
            let b = choose|b: int|
                0 <= b < was.len() && ((#[trigger] was[b]).path matches Some(path)
                    && explore::opens(was[b], wiki, explore::relative_path(path@, wiki))
                    && paths::same_path(explore::relative_path(path@, wiki), file));
            assert(now[b] == was[b]);
            let (k, i) = choose|k: int, i: int|
                0 <= k < front.len() && explore::is_piece(before[k]) && 0 <= i < content(
                    front[k],
                ).len() && opens_file(#[trigger] content(front[k])[i], wiki, file);
            assert(opens_file(content(lines[k])[i], wiki, file));
            assert(explore::is_piece(rows[k]));
        }
        if found {
            let (k, i) = choose|k: int, i: int|
                0 <= k < lines.len() && explore::is_piece(rows[k]) && 0 <= i < content(
                    lines[k],
                ).len() && opens_file(#[trigger] content(lines[k])[i], wiki, file);
            if k < n {
                assert(opens_file(content(front[k])[i], wiki, file));
                assert(explore::is_piece(before[k]));
            } else {
                let block = new[i];
                assert(explore::block_read(content(lines[n])[i], block));
                assert(now[was.len() + i] == block);
                assert(block.path is Some);
            }
        }
        if explore::opened(now, wiki, file) {
            let b = choose|b: int|
                0 <= b < now.len() && ((#[trigger] now[b]).path matches Some(path)
                    && explore::opens(now[b], wiki, explore::relative_path(path@, wiki))
                    && paths::same_path(explore::relative_path(path@, wiki), file));
            if b < was.len() {
                assert(was[b] == now[b]);
                assert(explore::opened(was, wiki, file));
            } else {
                let i = b - was.len();
                assert(now[b] == new[i]);
                assert(explore::block_read(content(lines[n])[i], new[i]));
                assert(opens_file(content(lines[n])[i], wiki, file));
            }
        }
    }
}

/// The files of a subagent's summary are those that a message of its transcript reads, in the order
/// of their paths and none twice.
pub proof fn every_file_a_subagent_opened_is_listed(
    lines: Seq<Seq<char>>,
    rows: Seq<TranscriptRow>,
    wiki: Seq<char>,
    summary: TranscriptSummary,
    file: Seq<char>,
)
    requires
        explore::transcript_read(lines, rows),
        explore::transcribes(rows, wiki, summary),
    ensures
        (exists|f: int|
            0 <= f < summary.files_read.len() && paths::same_path(
                (#[trigger] summary.files_read@[f])@,
                file,
            )) == exists|k: int, i: int|
            0 <= k < lines.len() && says(lines[k], "/type"@, "assistant"@) && json::json_at(
                lines[k],
                "/message/id"@,
            ) is Text && 0 <= i < content(lines[k]).len() && opens_file(
                #[trigger] content(lines[k])[i],
                wiki,
                file,
            ),
        forall|a: int, b: int|
            0 <= a < b < summary.files_read.len() ==> paths::path_before(
                (#[trigger] summary.files_read@[a])@,
                (#[trigger] summary.files_read@[b])@,
            ),
{
    piece_blocks_open(lines, rows, wiki, file);
    assert forall|k: int| 0 <= k < lines.len() implies explore::is_piece(#[trigger] rows[k]) == (
    says(lines[k], "/type"@, "assistant"@) && json::json_at(lines[k], "/message/id"@) is Text) by {
        assert(explore::transcript_row_read(lines[k], rows[k]));
        a_piece_is_read(lines[k], rows[k], Seq::empty());
    }
    let list = text::texts(summary.files_read@);
    assert(paths::holds(list, file) == explore::opened(explore::piece_blocks(rows), wiki, file));
    if paths::holds(list, file) {
        let f = choose|f: int| 0 <= f < list.len() && paths::same_path(#[trigger] list[f], file);
        assert(paths::same_path(summary.files_read@[f]@, file));
    }
    if exists|f: int|
        0 <= f < summary.files_read.len() && paths::same_path(
            (#[trigger] summary.files_read@[f])@,
            file,
        ) {
        let f = choose|f: int|
            0 <= f < summary.files_read.len() && paths::same_path(
                (#[trigger] summary.files_read@[f])@,
                file,
            );
        assert(paths::same_path(list[f], file));
    }
    if exists|k: int, i: int|
        0 <= k < lines.len() && says(lines[k], "/type"@, "assistant"@) && json::json_at(
            lines[k],
            "/message/id"@,
        ) is Text && 0 <= i < content(lines[k]).len() && opens_file(
            #[trigger] content(lines[k])[i],
            wiki,
            file,
        ) {
        let (k, i) = choose|k: int, i: int|
            0 <= k < lines.len() && says(lines[k], "/type"@, "assistant"@) && json::json_at(
                lines[k],
                "/message/id"@,
            ) is Text && 0 <= i < content(lines[k]).len() && opens_file(
                #[trigger] content(lines[k])[i],
                wiki,
                file,
            );
        assert(explore::is_piece(rows[k]));
    }
    assert forall|a: int, b: int| 0 <= a < b < summary.files_read.len() implies paths::path_before(
        (#[trigger] summary.files_read@[a])@,
        (#[trigger] summary.files_read@[b])@,
    ) by {
        assert(paths::path_before(list[a], list[b]));
    }
}

} // verus!
