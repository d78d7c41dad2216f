//! What the metrics of a run promise: each name is of the number that it names.

use vstd::prelude::*;

use crate::counting;
use crate::doc::Num;
use crate::explore::{StreamSummary, TranscriptSummary};
use crate::gold;
use crate::gold::Query;
use crate::json;
use crate::laws::statistics::worth;
use crate::ordered::Table;
use crate::paths;
use crate::reading::Reading;
use crate::run;
use crate::run::AgentRun;
use crate::text;

verus! {

proof fn entry_is_the_last(list: Seq<(Seq<char>, Num)>, name: Seq<char>, value: Num)
    ensures
        run::entry(list.push((name, value)), name) == Some(value),
{
}

proof fn entry_is_before(
    list: Seq<(Seq<char>, Num)>,
    other: Seq<char>,
    value: Num,
    name: Seq<char>,
)
    requires
        other != name,
    ensures
        run::entry(list.push((other, value)), name) == run::entry(list, name),
{
    assert(list.push((other, value)).drop_last() =~= list);
}

/// How many of some pages are among others, in whatever spelling.
pub open spec fn among(wanted: Seq<Seq<char>>, returned: Seq<Seq<char>>) -> nat {
    counting::how_many(
        wanted,
        |page: Seq<char>| has_path(returned, page),
    )
}

proof fn found_is_among(wanted: Seq<Seq<char>>, returned: Seq<Seq<char>>)
    ensures
        run::found(wanted, returned) == among(wanted, returned),
    decreases wanted.len(),
{
    if wanted.len() > 0 {
        found_is_among(wanted.drop_last(), returned);
    }
}

/// Whether a list has a path, in whatever spelling.
pub open spec fn has_path(list: Seq<Seq<char>>, path: Seq<char>) -> bool {
    exists|i: int| 0 <= i < list.len() && paths::same_path(#[trigger] list[i], path)
}

/// Whether a list has the paths of another, none twice.
pub open spec fn lists_once(list: Seq<Seq<char>>, set: Seq<Seq<char>>) -> bool {
    &&& forall|i: int, j: int|
        0 <= i < j < set.len() ==> !paths::same_path(#[trigger] set[i], #[trigger] set[j])
    &&& forall|path: Seq<char>| #[trigger] has_path(set, path) == has_path(list, path)
}

/// The paths of a list once each are no path twice, and every path of the list.
pub proof fn a_path_set_lists_each_path_once(list: Seq<Seq<char>>, set: Seq<Seq<char>>)
    requires
        gold::is_path_set(list, set),
    ensures
        lists_once(list, set),
        forall|i: int, j: int|
            0 <= i < j < set.len() ==> paths::path_before(#[trigger] set[i], #[trigger] set[j]),
{
    assert forall|i: int, j: int| 0 <= i < j < set.len() implies !paths::same_path(
        #[trigger] set[i],
        #[trigger] set[j],
    ) by {
        assert(paths::path_before(set[i], set[j]));
        paths::path_before_is_a_strict_total_order(set[i], set[i], set[i]);
    }
    assert forall|path: Seq<char>| #[trigger] has_path(set, path) == has_path(list, path) by {
        assert(paths::holds(set, path) == paths::holds(list, path));
    }
}

/// A share is the part over the whole, and nothing of nothing.
pub proof fn a_share_is_of_the_whole(part: nat, whole: nat, of: spec_fn(u64) -> int)
    requires
        part <= u64::MAX,
        whole <= u64::MAX,
    ensures
        whole > 0 ==> (worth(run::share(part, whole), of) matches Some((p, q)) && q > 0 && p * whole
            == q * part),
        whole == 0 ==> worth(run::share(part, whole), of) == Some((0int, 1int)),
{
    reveal_with_fuel(worth, 2);
    if whole > 0 {
        assert(worth(run::share(part, whole), of) == Some((part as int * 1, 1 * whole as int)));
        assert(part as int * 1 * whole == 1 * whole * part) by (nonlinear_arith);
    }
}

/// A million input tokens cost the price of a million, and none cost nothing.
pub proof fn tokens_are_priced_by_the_million(tokens: u64, of: spec_fn(u64) -> int)
    ensures
        worth(run::price(tokens), of) matches Some((part, whole)) && whole > 0 && part * 1_000_000
            == whole * (tokens * of(0x3fa5_8106_24dd_2f1b)),
{
    reveal_with_fuel(worth, 3);
    let price = of(0x3fa5_8106_24dd_2f1b);
    assert(worth(run::price(tokens), of) == Some(
        (tokens * 1 * price, 1 * 1_000_000int * 1),
    ));
    assert(tokens * 1 * price * 1_000_000 == 1_000_000int * (tokens * price)) by (nonlinear_arith);
}

/// The agent's share of what a run cost is as its tokens are to the session's.
pub proof fn a_share_of_the_cost_is_as_the_tokens(run: AgentRun, of: spec_fn(u64) -> int)
    requires
        run::is_billable(run),
        run.session.sum() > 0,
    ensures
        worth(run::cost_share(run), of) matches Some((part, whole)) && whole > 0 && part * (
        run.session.input + run.session.output + run.session.cache_read + run.session.cache_create)
            == whole * (of(run.cost_usd) * (run.agent.input + run.agent.output
            + run.agent.cache_read + run.agent.cache_create)),
{
    reveal_with_fuel(worth, 3);
    let (a, s, c) = (run.agent.sum(), run.session.sum(), of(run.cost_usd));
    assert(worth(run::cost_share(run), of) == Some((c * (a * 1), 1 * (1 * s))));
    assert(c * (a * 1) * s == 1 * (1 * s) * (c * a)) by (nonlinear_arith);
}

proof fn names_are_spelt()
    ensures
        ""@ + "agent_cost_share_usd"@ == "agent_cost_share_usd"@,
        ""@ + "agent_read_tokens"@ == "agent_read_tokens"@,
        ""@ + "agent_tool_uses"@ == "agent_tool_uses"@,
        ""@ + "agent_turns"@ == "agent_turns"@,
        ""@ + "agent_wall_ms"@ == "agent_wall_ms"@,
        ""@ + "cost_usd"@ == "cost_usd"@,
        ""@ + "files_opened"@ == "files_opened"@,
        ""@ + "files_relied"@ == "files_relied"@,
        ""@ + "files_visited"@ == "files_visited"@,
        ""@ + "found"@ == "found"@,
        ""@ + "jev_calls"@ == "jev_calls"@,
        ""@ + "jev_cost_usd"@ == "jev_cost_usd"@,
        ""@ + "jev_input_tokens"@ == "jev_input_tokens"@,
        ""@ + "jev_output_tokens"@ == "jev_output_tokens"@,
        ""@ + "parent_tool_uses"@ == "parent_tool_uses"@,
        ""@ + "parent_total_tokens"@ == "parent_total_tokens"@,
        ""@ + "precision"@ == "precision"@,
        ""@ + "recall"@ == "recall"@,
        ""@ + "relied_parsed"@ == "relied_parsed"@,
        ""@ + "session_total_tokens"@ == "session_total_tokens"@,
        ""@ + "wall_ms"@ == "wall_ms"@,
        "agent_"@ + "cache_create_tokens"@ == "agent_cache_create_tokens"@,
        "agent_"@ + "cache_read_tokens"@ == "agent_cache_read_tokens"@,
        "agent_"@ + "input_tokens"@ == "agent_input_tokens"@,
        "agent_"@ + "output_tokens"@ == "agent_output_tokens"@,
        "agent_"@ + "read_tokens"@ == "agent_read_tokens"@,
        "agent_"@ + "total_tokens"@ == "agent_total_tokens"@,
        "read_"@ + "found"@ == "read_found"@,
        "read_"@ + "precision"@ == "read_precision"@,
        "read_"@ + "recall"@ == "read_recall"@,
{
    assert(""@ + "agent_cost_share_usd"@ == "agent_cost_share_usd"@) by {
        reveal_strlit("");
        reveal_strlit("agent_cost_share_usd");
        reveal_strlit("agent_cost_share_usd");
        assert(""@ + "agent_cost_share_usd"@ =~= "agent_cost_share_usd"@);
    }
    assert(""@ + "agent_read_tokens"@ == "agent_read_tokens"@) by {
        reveal_strlit("");
        reveal_strlit("agent_read_tokens");
        reveal_strlit("agent_read_tokens");
        assert(""@ + "agent_read_tokens"@ =~= "agent_read_tokens"@);
    }
    assert(""@ + "agent_tool_uses"@ == "agent_tool_uses"@) by {
        reveal_strlit("");
        reveal_strlit("agent_tool_uses");
        reveal_strlit("agent_tool_uses");
        assert(""@ + "agent_tool_uses"@ =~= "agent_tool_uses"@);
    }
    assert(""@ + "agent_turns"@ == "agent_turns"@) by {
        reveal_strlit("");
        reveal_strlit("agent_turns");
        reveal_strlit("agent_turns");
        assert(""@ + "agent_turns"@ =~= "agent_turns"@);
    }
    assert(""@ + "agent_wall_ms"@ == "agent_wall_ms"@) by {
        reveal_strlit("");
        reveal_strlit("agent_wall_ms");
        reveal_strlit("agent_wall_ms");
        assert(""@ + "agent_wall_ms"@ =~= "agent_wall_ms"@);
    }
    assert(""@ + "cost_usd"@ == "cost_usd"@) by {
        reveal_strlit("");
        reveal_strlit("cost_usd");
        reveal_strlit("cost_usd");
        assert(""@ + "cost_usd"@ =~= "cost_usd"@);
    }
    assert(""@ + "files_opened"@ == "files_opened"@) by {
        reveal_strlit("");
        reveal_strlit("files_opened");
        reveal_strlit("files_opened");
        assert(""@ + "files_opened"@ =~= "files_opened"@);
    }
    assert(""@ + "files_relied"@ == "files_relied"@) by {
        reveal_strlit("");
        reveal_strlit("files_relied");
        reveal_strlit("files_relied");
        assert(""@ + "files_relied"@ =~= "files_relied"@);
    }
    assert(""@ + "files_visited"@ == "files_visited"@) by {
        reveal_strlit("");
        reveal_strlit("files_visited");
        reveal_strlit("files_visited");
        assert(""@ + "files_visited"@ =~= "files_visited"@);
    }
    assert(""@ + "found"@ == "found"@) by {
        reveal_strlit("");
        reveal_strlit("found");
        reveal_strlit("found");
        assert(""@ + "found"@ =~= "found"@);
    }
    assert(""@ + "jev_calls"@ == "jev_calls"@) by {
        reveal_strlit("");
        reveal_strlit("jev_calls");
        reveal_strlit("jev_calls");
        assert(""@ + "jev_calls"@ =~= "jev_calls"@);
    }
    assert(""@ + "jev_cost_usd"@ == "jev_cost_usd"@) by {
        reveal_strlit("");
        reveal_strlit("jev_cost_usd");
        reveal_strlit("jev_cost_usd");
        assert(""@ + "jev_cost_usd"@ =~= "jev_cost_usd"@);
    }
    assert(""@ + "jev_input_tokens"@ == "jev_input_tokens"@) by {
        reveal_strlit("");
        reveal_strlit("jev_input_tokens");
        reveal_strlit("jev_input_tokens");
        assert(""@ + "jev_input_tokens"@ =~= "jev_input_tokens"@);
    }
    assert(""@ + "jev_output_tokens"@ == "jev_output_tokens"@) by {
        reveal_strlit("");
        reveal_strlit("jev_output_tokens");
        reveal_strlit("jev_output_tokens");
        assert(""@ + "jev_output_tokens"@ =~= "jev_output_tokens"@);
    }
    assert(""@ + "parent_tool_uses"@ == "parent_tool_uses"@) by {
        reveal_strlit("");
        reveal_strlit("parent_tool_uses");
        reveal_strlit("parent_tool_uses");
        assert(""@ + "parent_tool_uses"@ =~= "parent_tool_uses"@);
    }
    assert(""@ + "parent_total_tokens"@ == "parent_total_tokens"@) by {
        reveal_strlit("");
        reveal_strlit("parent_total_tokens");
        reveal_strlit("parent_total_tokens");
        assert(""@ + "parent_total_tokens"@ =~= "parent_total_tokens"@);
    }
    assert(""@ + "precision"@ == "precision"@) by {
        reveal_strlit("");
        reveal_strlit("precision");
        reveal_strlit("precision");
        assert(""@ + "precision"@ =~= "precision"@);
    }
    assert(""@ + "recall"@ == "recall"@) by {
        reveal_strlit("");
        reveal_strlit("recall");
        reveal_strlit("recall");
        assert(""@ + "recall"@ =~= "recall"@);
    }
    assert(""@ + "relied_parsed"@ == "relied_parsed"@) by {
        reveal_strlit("");
        reveal_strlit("relied_parsed");
        reveal_strlit("relied_parsed");
        assert(""@ + "relied_parsed"@ =~= "relied_parsed"@);
    }
    assert(""@ + "session_total_tokens"@ == "session_total_tokens"@) by {
        reveal_strlit("");
        reveal_strlit("session_total_tokens");
        reveal_strlit("session_total_tokens");
        assert(""@ + "session_total_tokens"@ =~= "session_total_tokens"@);
    }
    assert(""@ + "wall_ms"@ == "wall_ms"@) by {
        reveal_strlit("");
        reveal_strlit("wall_ms");
        reveal_strlit("wall_ms");
        assert(""@ + "wall_ms"@ =~= "wall_ms"@);
    }
    assert("agent_"@ + "cache_create_tokens"@ == "agent_cache_create_tokens"@) by {
        reveal_strlit("agent_");
        reveal_strlit("cache_create_tokens");
        reveal_strlit("agent_cache_create_tokens");
        assert("agent_"@ + "cache_create_tokens"@ =~= "agent_cache_create_tokens"@);
    }
    assert("agent_"@ + "cache_read_tokens"@ == "agent_cache_read_tokens"@) by {
        reveal_strlit("agent_");
        reveal_strlit("cache_read_tokens");
        reveal_strlit("agent_cache_read_tokens");
        assert("agent_"@ + "cache_read_tokens"@ =~= "agent_cache_read_tokens"@);
    }
    assert("agent_"@ + "input_tokens"@ == "agent_input_tokens"@) by {
        reveal_strlit("agent_");
        reveal_strlit("input_tokens");
        reveal_strlit("agent_input_tokens");
        assert("agent_"@ + "input_tokens"@ =~= "agent_input_tokens"@);
    }
    assert("agent_"@ + "output_tokens"@ == "agent_output_tokens"@) by {
        reveal_strlit("agent_");
        reveal_strlit("output_tokens");
        reveal_strlit("agent_output_tokens");
        assert("agent_"@ + "output_tokens"@ =~= "agent_output_tokens"@);
    }
    assert("agent_"@ + "read_tokens"@ == "agent_read_tokens"@) by {
        reveal_strlit("agent_");
        reveal_strlit("read_tokens");
        reveal_strlit("agent_read_tokens");
        assert("agent_"@ + "read_tokens"@ =~= "agent_read_tokens"@);
    }
    assert("agent_"@ + "total_tokens"@ == "agent_total_tokens"@) by {
        reveal_strlit("agent_");
        reveal_strlit("total_tokens");
        reveal_strlit("agent_total_tokens");
        assert("agent_"@ + "total_tokens"@ =~= "agent_total_tokens"@);
    }
    assert("read_"@ + "found"@ == "read_found"@) by {
        reveal_strlit("read_");
        reveal_strlit("found");
        reveal_strlit("read_found");
        assert("read_"@ + "found"@ =~= "read_found"@);
    }
    assert("read_"@ + "precision"@ == "read_precision"@) by {
        reveal_strlit("read_");
        reveal_strlit("precision");
        reveal_strlit("read_precision");
        assert("read_"@ + "precision"@ =~= "read_precision"@);
    }
    assert("read_"@ + "recall"@ == "read_recall"@) by {
        reveal_strlit("read_");
        reveal_strlit("recall");
        reveal_strlit("read_recall");
        assert("read_"@ + "recall"@ =~= "read_recall"@);
    }
}

proof fn names_are_told_apart()
    ensures
        "agent_cache_create_tokens"@ != "agent_cache_read_tokens"@,
        "agent_cache_create_tokens"@ != "agent_cost_share_usd"@,
        "agent_cache_create_tokens"@ != "agent_input_tokens"@,
        "agent_cache_create_tokens"@ != "agent_output_tokens"@,
        "agent_cache_create_tokens"@ != "agent_read_tokens"@,
        "agent_cache_create_tokens"@ != "agent_tool_uses"@,
        "agent_cache_create_tokens"@ != "agent_total_tokens"@,
        "agent_cache_create_tokens"@ != "agent_turns"@,
        "agent_cache_create_tokens"@ != "agent_wall_ms"@,
        "agent_cache_create_tokens"@ != "cost_usd"@,
        "agent_cache_create_tokens"@ != "files_opened"@,
        "agent_cache_create_tokens"@ != "files_relied"@,
        "agent_cache_create_tokens"@ != "files_visited"@,
        "agent_cache_create_tokens"@ != "found"@,
        "agent_cache_create_tokens"@ != "jev_calls"@,
        "agent_cache_create_tokens"@ != "jev_cost_usd"@,
        "agent_cache_create_tokens"@ != "jev_input_tokens"@,
        "agent_cache_create_tokens"@ != "jev_output_tokens"@,
        "agent_cache_create_tokens"@ != "parent_tool_uses"@,
        "agent_cache_create_tokens"@ != "parent_total_tokens"@,
        "agent_cache_create_tokens"@ != "precision"@,
        "agent_cache_create_tokens"@ != "read_found"@,
        "agent_cache_create_tokens"@ != "read_precision"@,
        "agent_cache_create_tokens"@ != "read_recall"@,
        "agent_cache_create_tokens"@ != "recall"@,
        "agent_cache_create_tokens"@ != "relied_parsed"@,
        "agent_cache_create_tokens"@ != "session_total_tokens"@,
        "agent_cache_create_tokens"@ != "wall_ms"@,
        "agent_cache_read_tokens"@ != "agent_cost_share_usd"@,
        "agent_cache_read_tokens"@ != "agent_input_tokens"@,
        "agent_cache_read_tokens"@ != "agent_output_tokens"@,
        "agent_cache_read_tokens"@ != "agent_read_tokens"@,
        "agent_cache_read_tokens"@ != "agent_tool_uses"@,
        "agent_cache_read_tokens"@ != "agent_total_tokens"@,
        "agent_cache_read_tokens"@ != "agent_turns"@,
        "agent_cache_read_tokens"@ != "agent_wall_ms"@,
        "agent_cache_read_tokens"@ != "cost_usd"@,
        "agent_cache_read_tokens"@ != "files_opened"@,
        "agent_cache_read_tokens"@ != "files_relied"@,
        "agent_cache_read_tokens"@ != "files_visited"@,
        "agent_cache_read_tokens"@ != "found"@,
        "agent_cache_read_tokens"@ != "jev_calls"@,
        "agent_cache_read_tokens"@ != "jev_cost_usd"@,
        "agent_cache_read_tokens"@ != "jev_input_tokens"@,
        "agent_cache_read_tokens"@ != "jev_output_tokens"@,
        "agent_cache_read_tokens"@ != "parent_tool_uses"@,
        "agent_cache_read_tokens"@ != "parent_total_tokens"@,
        "agent_cache_read_tokens"@ != "precision"@,
        "agent_cache_read_tokens"@ != "read_found"@,
        "agent_cache_read_tokens"@ != "read_precision"@,
        "agent_cache_read_tokens"@ != "read_recall"@,
        "agent_cache_read_tokens"@ != "recall"@,
        "agent_cache_read_tokens"@ != "relied_parsed"@,
        "agent_cache_read_tokens"@ != "session_total_tokens"@,
        "agent_cache_read_tokens"@ != "wall_ms"@,
        "agent_cost_share_usd"@ != "agent_input_tokens"@,
        "agent_cost_share_usd"@ != "agent_output_tokens"@,
        "agent_cost_share_usd"@ != "agent_read_tokens"@,
        "agent_cost_share_usd"@ != "agent_tool_uses"@,
        "agent_cost_share_usd"@ != "agent_total_tokens"@,
        "agent_cost_share_usd"@ != "agent_turns"@,
        "agent_cost_share_usd"@ != "agent_wall_ms"@,
        "agent_cost_share_usd"@ != "cost_usd"@,
        "agent_cost_share_usd"@ != "files_opened"@,
        "agent_cost_share_usd"@ != "files_relied"@,
        "agent_cost_share_usd"@ != "files_visited"@,
        "agent_cost_share_usd"@ != "found"@,
        "agent_cost_share_usd"@ != "jev_calls"@,
        "agent_cost_share_usd"@ != "jev_cost_usd"@,
        "agent_cost_share_usd"@ != "jev_input_tokens"@,
        "agent_cost_share_usd"@ != "jev_output_tokens"@,
        "agent_cost_share_usd"@ != "parent_tool_uses"@,
        "agent_cost_share_usd"@ != "parent_total_tokens"@,
        "agent_cost_share_usd"@ != "precision"@,
        "agent_cost_share_usd"@ != "read_found"@,
        "agent_cost_share_usd"@ != "read_precision"@,
        "agent_cost_share_usd"@ != "read_recall"@,
        "agent_cost_share_usd"@ != "recall"@,
        "agent_cost_share_usd"@ != "relied_parsed"@,
        "agent_cost_share_usd"@ != "session_total_tokens"@,
        "agent_cost_share_usd"@ != "wall_ms"@,
        "agent_input_tokens"@ != "agent_output_tokens"@,
        "agent_input_tokens"@ != "agent_read_tokens"@,
        "agent_input_tokens"@ != "agent_tool_uses"@,
        "agent_input_tokens"@ != "agent_total_tokens"@,
        "agent_input_tokens"@ != "agent_turns"@,
        "agent_input_tokens"@ != "agent_wall_ms"@,
        "agent_input_tokens"@ != "cost_usd"@,
        "agent_input_tokens"@ != "files_opened"@,
        "agent_input_tokens"@ != "files_relied"@,
        "agent_input_tokens"@ != "files_visited"@,
        "agent_input_tokens"@ != "found"@,
        "agent_input_tokens"@ != "jev_calls"@,
        "agent_input_tokens"@ != "jev_cost_usd"@,
        "agent_input_tokens"@ != "jev_input_tokens"@,
        "agent_input_tokens"@ != "jev_output_tokens"@,
        "agent_input_tokens"@ != "parent_tool_uses"@,
        "agent_input_tokens"@ != "parent_total_tokens"@,
        "agent_input_tokens"@ != "precision"@,
        "agent_input_tokens"@ != "read_found"@,
        "agent_input_tokens"@ != "read_precision"@,
        "agent_input_tokens"@ != "read_recall"@,
        "agent_input_tokens"@ != "recall"@,
        "agent_input_tokens"@ != "relied_parsed"@,
        "agent_input_tokens"@ != "session_total_tokens"@,
        "agent_input_tokens"@ != "wall_ms"@,
        "agent_output_tokens"@ != "agent_read_tokens"@,
        "agent_output_tokens"@ != "agent_tool_uses"@,
        "agent_output_tokens"@ != "agent_total_tokens"@,
        "agent_output_tokens"@ != "agent_turns"@,
        "agent_output_tokens"@ != "agent_wall_ms"@,
        "agent_output_tokens"@ != "cost_usd"@,
        "agent_output_tokens"@ != "files_opened"@,
        "agent_output_tokens"@ != "files_relied"@,
        "agent_output_tokens"@ != "files_visited"@,
        "agent_output_tokens"@ != "found"@,
        "agent_output_tokens"@ != "jev_calls"@,
        "agent_output_tokens"@ != "jev_cost_usd"@,
        "agent_output_tokens"@ != "jev_input_tokens"@,
        "agent_output_tokens"@ != "jev_output_tokens"@,
        "agent_output_tokens"@ != "parent_tool_uses"@,
        "agent_output_tokens"@ != "parent_total_tokens"@,
        "agent_output_tokens"@ != "precision"@,
        "agent_output_tokens"@ != "read_found"@,
        "agent_output_tokens"@ != "read_precision"@,
        "agent_output_tokens"@ != "read_recall"@,
        "agent_output_tokens"@ != "recall"@,
        "agent_output_tokens"@ != "relied_parsed"@,
        "agent_output_tokens"@ != "session_total_tokens"@,
        "agent_output_tokens"@ != "wall_ms"@,
        "agent_read_tokens"@ != "agent_tool_uses"@,
        "agent_read_tokens"@ != "agent_total_tokens"@,
        "agent_read_tokens"@ != "agent_turns"@,
        "agent_read_tokens"@ != "agent_wall_ms"@,
        "agent_read_tokens"@ != "cost_usd"@,
        "agent_read_tokens"@ != "files_opened"@,
        "agent_read_tokens"@ != "files_relied"@,
        "agent_read_tokens"@ != "files_visited"@,
        "agent_read_tokens"@ != "found"@,
        "agent_read_tokens"@ != "jev_calls"@,
        "agent_read_tokens"@ != "jev_cost_usd"@,
        "agent_read_tokens"@ != "jev_input_tokens"@,
        "agent_read_tokens"@ != "jev_output_tokens"@,
        "agent_read_tokens"@ != "parent_tool_uses"@,
        "agent_read_tokens"@ != "parent_total_tokens"@,
        "agent_read_tokens"@ != "precision"@,
        "agent_read_tokens"@ != "read_found"@,
        "agent_read_tokens"@ != "read_precision"@,
        "agent_read_tokens"@ != "read_recall"@,
        "agent_read_tokens"@ != "recall"@,
        "agent_read_tokens"@ != "relied_parsed"@,
        "agent_read_tokens"@ != "session_total_tokens"@,
        "agent_read_tokens"@ != "wall_ms"@,
        "agent_tool_uses"@ != "agent_total_tokens"@,
        "agent_tool_uses"@ != "agent_turns"@,
        "agent_tool_uses"@ != "agent_wall_ms"@,
        "agent_tool_uses"@ != "cost_usd"@,
        "agent_tool_uses"@ != "files_opened"@,
        "agent_tool_uses"@ != "files_relied"@,
        "agent_tool_uses"@ != "files_visited"@,
        "agent_tool_uses"@ != "found"@,
        "agent_tool_uses"@ != "jev_calls"@,
        "agent_tool_uses"@ != "jev_cost_usd"@,
        "agent_tool_uses"@ != "jev_input_tokens"@,
        "agent_tool_uses"@ != "jev_output_tokens"@,
        "agent_tool_uses"@ != "parent_tool_uses"@,
        "agent_tool_uses"@ != "parent_total_tokens"@,
        "agent_tool_uses"@ != "precision"@,
        "agent_tool_uses"@ != "read_found"@,
        "agent_tool_uses"@ != "read_precision"@,
        "agent_tool_uses"@ != "read_recall"@,
        "agent_tool_uses"@ != "recall"@,
        "agent_tool_uses"@ != "relied_parsed"@,
        "agent_tool_uses"@ != "session_total_tokens"@,
        "agent_tool_uses"@ != "wall_ms"@,
        "agent_total_tokens"@ != "agent_turns"@,
        "agent_total_tokens"@ != "agent_wall_ms"@,
        "agent_total_tokens"@ != "cost_usd"@,
        "agent_total_tokens"@ != "files_opened"@,
        "agent_total_tokens"@ != "files_relied"@,
        "agent_total_tokens"@ != "files_visited"@,
        "agent_total_tokens"@ != "found"@,
        "agent_total_tokens"@ != "jev_calls"@,
        "agent_total_tokens"@ != "jev_cost_usd"@,
        "agent_total_tokens"@ != "jev_input_tokens"@,
        "agent_total_tokens"@ != "jev_output_tokens"@,
        "agent_total_tokens"@ != "parent_tool_uses"@,
        "agent_total_tokens"@ != "parent_total_tokens"@,
        "agent_total_tokens"@ != "precision"@,
        "agent_total_tokens"@ != "read_found"@,
        "agent_total_tokens"@ != "read_precision"@,
        "agent_total_tokens"@ != "read_recall"@,
        "agent_total_tokens"@ != "recall"@,
        "agent_total_tokens"@ != "relied_parsed"@,
        "agent_total_tokens"@ != "session_total_tokens"@,
        "agent_total_tokens"@ != "wall_ms"@,
        "agent_turns"@ != "agent_wall_ms"@,
        "agent_turns"@ != "cost_usd"@,
        "agent_turns"@ != "files_opened"@,
        "agent_turns"@ != "files_relied"@,
        "agent_turns"@ != "files_visited"@,
        "agent_turns"@ != "found"@,
        "agent_turns"@ != "jev_calls"@,
        "agent_turns"@ != "jev_cost_usd"@,
        "agent_turns"@ != "jev_input_tokens"@,
        "agent_turns"@ != "jev_output_tokens"@,
        "agent_turns"@ != "parent_tool_uses"@,
        "agent_turns"@ != "parent_total_tokens"@,
        "agent_turns"@ != "precision"@,
        "agent_turns"@ != "read_found"@,
        "agent_turns"@ != "read_precision"@,
        "agent_turns"@ != "read_recall"@,
        "agent_turns"@ != "recall"@,
        "agent_turns"@ != "relied_parsed"@,
        "agent_turns"@ != "session_total_tokens"@,
        "agent_turns"@ != "wall_ms"@,
        "agent_wall_ms"@ != "cost_usd"@,
        "agent_wall_ms"@ != "files_opened"@,
        "agent_wall_ms"@ != "files_relied"@,
        "agent_wall_ms"@ != "files_visited"@,
        "agent_wall_ms"@ != "found"@,
        "agent_wall_ms"@ != "jev_calls"@,
        "agent_wall_ms"@ != "jev_cost_usd"@,
        "agent_wall_ms"@ != "jev_input_tokens"@,
        "agent_wall_ms"@ != "jev_output_tokens"@,
        "agent_wall_ms"@ != "parent_tool_uses"@,
        "agent_wall_ms"@ != "parent_total_tokens"@,
        "agent_wall_ms"@ != "precision"@,
        "agent_wall_ms"@ != "read_found"@,
        "agent_wall_ms"@ != "read_precision"@,
        "agent_wall_ms"@ != "read_recall"@,
        "agent_wall_ms"@ != "recall"@,
        "agent_wall_ms"@ != "relied_parsed"@,
        "agent_wall_ms"@ != "session_total_tokens"@,
        "agent_wall_ms"@ != "wall_ms"@,
        "cost_usd"@ != "files_opened"@,
        "cost_usd"@ != "files_relied"@,
        "cost_usd"@ != "files_visited"@,
        "cost_usd"@ != "found"@,
        "cost_usd"@ != "jev_calls"@,
        "cost_usd"@ != "jev_cost_usd"@,
        "cost_usd"@ != "jev_input_tokens"@,
        "cost_usd"@ != "jev_output_tokens"@,
        "cost_usd"@ != "parent_tool_uses"@,
        "cost_usd"@ != "parent_total_tokens"@,
        "cost_usd"@ != "precision"@,
        "cost_usd"@ != "read_found"@,
        "cost_usd"@ != "read_precision"@,
        "cost_usd"@ != "read_recall"@,
        "cost_usd"@ != "recall"@,
        "cost_usd"@ != "relied_parsed"@,
        "cost_usd"@ != "session_total_tokens"@,
        "cost_usd"@ != "wall_ms"@,
        "files_opened"@ != "files_relied"@,
        "files_opened"@ != "files_visited"@,
        "files_opened"@ != "found"@,
        "files_opened"@ != "jev_calls"@,
        "files_opened"@ != "jev_cost_usd"@,
        "files_opened"@ != "jev_input_tokens"@,
        "files_opened"@ != "jev_output_tokens"@,
        "files_opened"@ != "parent_tool_uses"@,
        "files_opened"@ != "parent_total_tokens"@,
        "files_opened"@ != "precision"@,
        "files_opened"@ != "read_found"@,
        "files_opened"@ != "read_precision"@,
        "files_opened"@ != "read_recall"@,
        "files_opened"@ != "recall"@,
        "files_opened"@ != "relied_parsed"@,
        "files_opened"@ != "session_total_tokens"@,
        "files_opened"@ != "wall_ms"@,
        "files_relied"@ != "files_visited"@,
        "files_relied"@ != "found"@,
        "files_relied"@ != "jev_calls"@,
        "files_relied"@ != "jev_cost_usd"@,
        "files_relied"@ != "jev_input_tokens"@,
        "files_relied"@ != "jev_output_tokens"@,
        "files_relied"@ != "parent_tool_uses"@,
        "files_relied"@ != "parent_total_tokens"@,
        "files_relied"@ != "precision"@,
        "files_relied"@ != "read_found"@,
        "files_relied"@ != "read_precision"@,
        "files_relied"@ != "read_recall"@,
        "files_relied"@ != "recall"@,
        "files_relied"@ != "relied_parsed"@,
        "files_relied"@ != "session_total_tokens"@,
        "files_relied"@ != "wall_ms"@,
        "files_visited"@ != "found"@,
        "files_visited"@ != "jev_calls"@,
        "files_visited"@ != "jev_cost_usd"@,
        "files_visited"@ != "jev_input_tokens"@,
        "files_visited"@ != "jev_output_tokens"@,
        "files_visited"@ != "parent_tool_uses"@,
        "files_visited"@ != "parent_total_tokens"@,
        "files_visited"@ != "precision"@,
        "files_visited"@ != "read_found"@,
        "files_visited"@ != "read_precision"@,
        "files_visited"@ != "read_recall"@,
        "files_visited"@ != "recall"@,
        "files_visited"@ != "relied_parsed"@,
        "files_visited"@ != "session_total_tokens"@,
        "files_visited"@ != "wall_ms"@,
        "found"@ != "jev_calls"@,
        "found"@ != "jev_cost_usd"@,
        "found"@ != "jev_input_tokens"@,
        "found"@ != "jev_output_tokens"@,
        "found"@ != "parent_tool_uses"@,
        "found"@ != "parent_total_tokens"@,
        "found"@ != "precision"@,
        "found"@ != "read_found"@,
        "found"@ != "read_precision"@,
        "found"@ != "read_recall"@,
        "found"@ != "recall"@,
        "found"@ != "relied_parsed"@,
        "found"@ != "session_total_tokens"@,
        "found"@ != "wall_ms"@,
        "jev_calls"@ != "jev_cost_usd"@,
        "jev_calls"@ != "jev_input_tokens"@,
        "jev_calls"@ != "jev_output_tokens"@,
        "jev_calls"@ != "parent_tool_uses"@,
        "jev_calls"@ != "parent_total_tokens"@,
        "jev_calls"@ != "precision"@,
        "jev_calls"@ != "read_found"@,
        "jev_calls"@ != "read_precision"@,
        "jev_calls"@ != "read_recall"@,
        "jev_calls"@ != "recall"@,
        "jev_calls"@ != "relied_parsed"@,
        "jev_calls"@ != "session_total_tokens"@,
        "jev_calls"@ != "wall_ms"@,
        "jev_cost_usd"@ != "jev_input_tokens"@,
        "jev_cost_usd"@ != "jev_output_tokens"@,
        "jev_cost_usd"@ != "parent_tool_uses"@,
        "jev_cost_usd"@ != "parent_total_tokens"@,
        "jev_cost_usd"@ != "precision"@,
        "jev_cost_usd"@ != "read_found"@,
        "jev_cost_usd"@ != "read_precision"@,
        "jev_cost_usd"@ != "read_recall"@,
        "jev_cost_usd"@ != "recall"@,
        "jev_cost_usd"@ != "relied_parsed"@,
        "jev_cost_usd"@ != "session_total_tokens"@,
        "jev_cost_usd"@ != "wall_ms"@,
        "jev_input_tokens"@ != "jev_output_tokens"@,
        "jev_input_tokens"@ != "parent_tool_uses"@,
        "jev_input_tokens"@ != "parent_total_tokens"@,
        "jev_input_tokens"@ != "precision"@,
        "jev_input_tokens"@ != "read_found"@,
        "jev_input_tokens"@ != "read_precision"@,
        "jev_input_tokens"@ != "read_recall"@,
        "jev_input_tokens"@ != "recall"@,
        "jev_input_tokens"@ != "relied_parsed"@,
        "jev_input_tokens"@ != "session_total_tokens"@,
        "jev_input_tokens"@ != "wall_ms"@,
        "jev_output_tokens"@ != "parent_tool_uses"@,
        "jev_output_tokens"@ != "parent_total_tokens"@,
        "jev_output_tokens"@ != "precision"@,
        "jev_output_tokens"@ != "read_found"@,
        "jev_output_tokens"@ != "read_precision"@,
        "jev_output_tokens"@ != "read_recall"@,
        "jev_output_tokens"@ != "recall"@,
        "jev_output_tokens"@ != "relied_parsed"@,
        "jev_output_tokens"@ != "session_total_tokens"@,
        "jev_output_tokens"@ != "wall_ms"@,
        "parent_tool_uses"@ != "parent_total_tokens"@,
        "parent_tool_uses"@ != "precision"@,
        "parent_tool_uses"@ != "read_found"@,
        "parent_tool_uses"@ != "read_precision"@,
        "parent_tool_uses"@ != "read_recall"@,
        "parent_tool_uses"@ != "recall"@,
        "parent_tool_uses"@ != "relied_parsed"@,
        "parent_tool_uses"@ != "session_total_tokens"@,
        "parent_tool_uses"@ != "wall_ms"@,
        "parent_total_tokens"@ != "precision"@,
        "parent_total_tokens"@ != "read_found"@,
        "parent_total_tokens"@ != "read_precision"@,
        "parent_total_tokens"@ != "read_recall"@,
        "parent_total_tokens"@ != "recall"@,
        "parent_total_tokens"@ != "relied_parsed"@,
        "parent_total_tokens"@ != "session_total_tokens"@,
        "parent_total_tokens"@ != "wall_ms"@,
        "precision"@ != "read_found"@,
        "precision"@ != "read_precision"@,
        "precision"@ != "read_recall"@,
        "precision"@ != "recall"@,
        "precision"@ != "relied_parsed"@,
        "precision"@ != "session_total_tokens"@,
        "precision"@ != "wall_ms"@,
        "read_found"@ != "read_precision"@,
        "read_found"@ != "read_recall"@,
        "read_found"@ != "recall"@,
        "read_found"@ != "relied_parsed"@,
        "read_found"@ != "session_total_tokens"@,
        "read_found"@ != "wall_ms"@,
        "read_precision"@ != "read_recall"@,
        "read_precision"@ != "recall"@,
        "read_precision"@ != "relied_parsed"@,
        "read_precision"@ != "session_total_tokens"@,
        "read_precision"@ != "wall_ms"@,
        "read_recall"@ != "recall"@,
        "read_recall"@ != "relied_parsed"@,
        "read_recall"@ != "session_total_tokens"@,
        "read_recall"@ != "wall_ms"@,
        "recall"@ != "relied_parsed"@,
        "recall"@ != "session_total_tokens"@,
        "recall"@ != "wall_ms"@,
        "relied_parsed"@ != "session_total_tokens"@,
        "relied_parsed"@ != "wall_ms"@,
        "session_total_tokens"@ != "wall_ms"@,
{
    assert("agent_cache_create_tokens"@.len() == 25) by {
        reveal_strlit("agent_cache_create_tokens");
    }
    assert("agent_cache_read_tokens"@.len() == 23) by {
        reveal_strlit("agent_cache_read_tokens");
    }
    assert("agent_cost_share_usd"@.len() == 20 && "agent_cost_share_usd"@[0] == 'a') by {
        reveal_strlit("agent_cost_share_usd");
    }
    assert("agent_input_tokens"@.len() == 18 && "agent_input_tokens"@[6] == 'i') by {
        reveal_strlit("agent_input_tokens");
    }
    assert("agent_output_tokens"@.len() == 19 && "agent_output_tokens"@[0] == 'a') by {
        reveal_strlit("agent_output_tokens");
    }
    assert("agent_read_tokens"@.len() == 17 && "agent_read_tokens"@[0] == 'a') by {
        reveal_strlit("agent_read_tokens");
    }
    assert("agent_tool_uses"@.len() == 15) by {
        reveal_strlit("agent_tool_uses");
    }
    assert("agent_total_tokens"@.len() == 18 && "agent_total_tokens"@[6] == 't') by {
        reveal_strlit("agent_total_tokens");
    }
    assert("agent_turns"@.len() == 11 && "agent_turns"@[0] == 'a') by {
        reveal_strlit("agent_turns");
    }
    assert("agent_wall_ms"@.len() == 13 && "agent_wall_ms"@[0] == 'a') by {
        reveal_strlit("agent_wall_ms");
    }
    assert("cost_usd"@.len() == 8) by {
        reveal_strlit("cost_usd");
    }
    assert("files_opened"@.len() == 12 && "files_opened"@[0] == 'f' && "files_opened"@[6] == 'o') by {
        reveal_strlit("files_opened");
    }
    assert("files_relied"@.len() == 12 && "files_relied"@[0] == 'f' && "files_relied"@[6] == 'r') by {
        reveal_strlit("files_relied");
    }
    assert("files_visited"@.len() == 13 && "files_visited"@[0] == 'f') by {
        reveal_strlit("files_visited");
    }
    assert("found"@.len() == 5) by {
        reveal_strlit("found");
    }
    assert("jev_calls"@.len() == 9 && "jev_calls"@[0] == 'j') by {
        reveal_strlit("jev_calls");
    }
    assert("jev_cost_usd"@.len() == 12 && "jev_cost_usd"@[0] == 'j') by {
        reveal_strlit("jev_cost_usd");
    }
    assert("jev_input_tokens"@.len() == 16 && "jev_input_tokens"@[0] == 'j') by {
        reveal_strlit("jev_input_tokens");
    }
    assert("jev_output_tokens"@.len() == 17 && "jev_output_tokens"@[0] == 'j') by {
        reveal_strlit("jev_output_tokens");
    }
    assert("parent_tool_uses"@.len() == 16 && "parent_tool_uses"@[0] == 'p') by {
        reveal_strlit("parent_tool_uses");
    }
    assert("parent_total_tokens"@.len() == 19 && "parent_total_tokens"@[0] == 'p') by {
        reveal_strlit("parent_total_tokens");
    }
    assert("precision"@.len() == 9 && "precision"@[0] == 'p') by {
        reveal_strlit("precision");
    }
    assert("read_found"@.len() == 10) by {
        reveal_strlit("read_found");
    }
    assert("read_precision"@.len() == 14) by {
        reveal_strlit("read_precision");
    }
    assert("read_recall"@.len() == 11 && "read_recall"@[0] == 'r') by {
        reveal_strlit("read_recall");
    }
    assert("recall"@.len() == 6) by {
        reveal_strlit("recall");
    }
    assert("relied_parsed"@.len() == 13 && "relied_parsed"@[0] == 'r') by {
        reveal_strlit("relied_parsed");
    }
    assert("session_total_tokens"@.len() == 20 && "session_total_tokens"@[0] == 's') by {
        reveal_strlit("session_total_tokens");
    }
    assert("wall_ms"@.len() == 7) by {
        reveal_strlit("wall_ms");
    }
}

proof fn explore_entries(
    run: AgentRun,
    wanted: Seq<Seq<char>>,
    relied: Seq<Seq<char>>,
    read: Seq<Seq<char>>,
    list: Seq<(Seq<char>, Num)>,
)
    requires
        list == explore_start(run, wanted, relied, read),
    ensures
        ({
            let hits = run::found(wanted, relied);
            let read_hits = run::found(wanted, read);
            &&& run::entry(list, "recall"@) == Some(run::share(hits, wanted.len()))
            &&& run::entry(list, "precision"@) == Some(run::share(hits, relied.len()))
            &&& run::entry(list, "found"@) == Some(Num::Whole(hits as u64))
            &&& run::entry(list, "read_recall"@) == Some(run::share(read_hits, wanted.len()))
            &&& run::entry(list, "read_precision"@) == Some(run::share(read_hits, read.len()))
            &&& run::entry(list, "read_found"@) == Some(Num::Whole(read_hits as u64))
            &&& run::entry(list, "relied_parsed"@) == Some(Num::Whole(run::parsed(run)))
            &&& run::entry(list, "files_relied"@) == Some(Num::Whole(relied.len() as u64))
            &&& run::entry(list, "files_opened"@) == Some(Num::Whole(read.len() as u64))
            &&& run::entry(list, "wall_ms"@) == Some(Num::Whole(run.wall_ms))
            &&& run::entry(list, "cost_usd"@) == Some(Num::Double(run.cost_usd))
            &&& run::entry(list, "session_total_tokens"@) == Some(Num::Whole(run.session.sum() as u64))
            &&& run::entry(list, "parent_total_tokens"@) == Some(Num::Whole(run.parent.sum() as u64))
            &&& run::entry(list, "parent_tool_uses"@) == Some(Num::Whole(run.parent_tool_uses as u64))
            &&& run::entry(list, "agent_total_tokens"@) == Some(Num::Whole(run.agent.sum() as u64))
            &&& run::entry(list, "agent_read_tokens"@) == Some(Num::Whole((run.agent.sum() - run.agent.output) as u64))
            &&& run::entry(list, "agent_input_tokens"@) == Some(Num::Whole(run.agent.input))
            &&& run::entry(list, "agent_output_tokens"@) == Some(Num::Whole(run.agent.output))
            &&& run::entry(list, "agent_cache_read_tokens"@) == Some(Num::Whole(run.agent.cache_read))
            &&& run::entry(list, "agent_cache_create_tokens"@) == Some(Num::Whole(run.agent.cache_create))
            &&& run::entry(list, "agent_turns"@) == Some(Num::Whole(run.turns as u64))
            &&& run::entry(list, "agent_tool_uses"@) == Some(Num::Whole(run.tool_uses as u64))
        }),
{
    names_are_told_apart();
    names_are_spelt();
    let hits = run::found(wanted, relied);
    let read_hits = run::found(wanted, read);
    let l0 = Seq::<(Seq<char>, Num)>::empty();
    let l1 = l0.push(("recall"@, run::share(hits, wanted.len())));
    let l2 = l1.push(("precision"@, run::share(hits, relied.len())));
    let l3 = l2.push(("found"@, Num::Whole(hits as u64)));
    let l4 = l3.push(("read_recall"@, run::share(read_hits, wanted.len())));
    let l5 = l4.push(("read_precision"@, run::share(read_hits, read.len())));
    let l6 = l5.push(("read_found"@, Num::Whole(read_hits as u64)));
    let l7 = l6.push(("relied_parsed"@, Num::Whole(run::parsed(run))));
    let l8 = l7.push(("files_relied"@, Num::Whole(relied.len() as u64)));
    let l9 = l8.push(("files_opened"@, Num::Whole(read.len() as u64)));
    let l10 = l9.push(("wall_ms"@, Num::Whole(run.wall_ms)));
    let l11 = l10.push(("cost_usd"@, Num::Double(run.cost_usd)));
    let l12 = l11.push(("session_total_tokens"@, Num::Whole(run.session.sum() as u64)));
    let l13 = l12.push(("parent_total_tokens"@, Num::Whole(run.parent.sum() as u64)));
    let l14 = l13.push(("parent_tool_uses"@, Num::Whole(run.parent_tool_uses as u64)));
    let l15 = l14.push(("agent_total_tokens"@, Num::Whole(run.agent.sum() as u64)));
    let l16 = l15.push(("agent_read_tokens"@, Num::Whole((run.agent.sum() - run.agent.output) as u64)));
    let l17 = l16.push(("agent_input_tokens"@, Num::Whole(run.agent.input)));
    let l18 = l17.push(("agent_output_tokens"@, Num::Whole(run.agent.output)));
    let l19 = l18.push(("agent_cache_read_tokens"@, Num::Whole(run.agent.cache_read)));
    let l20 = l19.push(("agent_cache_create_tokens"@, Num::Whole(run.agent.cache_create)));
    let l21 = l20.push(("agent_turns"@, Num::Whole(run.turns as u64)));
    let l22 = l21.push(("agent_tool_uses"@, Num::Whole(run.tool_uses as u64)));
    assert(list == l22);
    entry_is_the_last(l0, "recall"@, run::share(hits, wanted.len()));
    entry_is_before(l1, "precision"@, run::share(hits, relied.len()), "recall"@);
    entry_is_before(l2, "found"@, Num::Whole(hits as u64), "recall"@);
    entry_is_before(l3, "read_recall"@, run::share(read_hits, wanted.len()), "recall"@);
    entry_is_before(l4, "read_precision"@, run::share(read_hits, read.len()), "recall"@);
    entry_is_before(l5, "read_found"@, Num::Whole(read_hits as u64), "recall"@);
    entry_is_before(l6, "relied_parsed"@, Num::Whole(run::parsed(run)), "recall"@);
    entry_is_before(l7, "files_relied"@, Num::Whole(relied.len() as u64), "recall"@);
    entry_is_before(l8, "files_opened"@, Num::Whole(read.len() as u64), "recall"@);
    entry_is_before(l9, "wall_ms"@, Num::Whole(run.wall_ms), "recall"@);
    entry_is_before(l10, "cost_usd"@, Num::Double(run.cost_usd), "recall"@);
    entry_is_before(l11, "session_total_tokens"@, Num::Whole(run.session.sum() as u64), "recall"@);
    entry_is_before(l12, "parent_total_tokens"@, Num::Whole(run.parent.sum() as u64), "recall"@);
    entry_is_before(l13, "parent_tool_uses"@, Num::Whole(run.parent_tool_uses as u64), "recall"@);
    entry_is_before(l14, "agent_total_tokens"@, Num::Whole(run.agent.sum() as u64), "recall"@);
    entry_is_before(l15, "agent_read_tokens"@, Num::Whole((run.agent.sum() - run.agent.output) as u64), "recall"@);
    entry_is_before(l16, "agent_input_tokens"@, Num::Whole(run.agent.input), "recall"@);
    entry_is_before(l17, "agent_output_tokens"@, Num::Whole(run.agent.output), "recall"@);
    entry_is_before(l18, "agent_cache_read_tokens"@, Num::Whole(run.agent.cache_read), "recall"@);
    entry_is_before(l19, "agent_cache_create_tokens"@, Num::Whole(run.agent.cache_create), "recall"@);
    entry_is_before(l20, "agent_turns"@, Num::Whole(run.turns as u64), "recall"@);
    entry_is_before(l21, "agent_tool_uses"@, Num::Whole(run.tool_uses as u64), "recall"@);
    entry_is_the_last(l1, "precision"@, run::share(hits, relied.len()));
    entry_is_before(l2, "found"@, Num::Whole(hits as u64), "precision"@);
    entry_is_before(l3, "read_recall"@, run::share(read_hits, wanted.len()), "precision"@);
    entry_is_before(l4, "read_precision"@, run::share(read_hits, read.len()), "precision"@);
    entry_is_before(l5, "read_found"@, Num::Whole(read_hits as u64), "precision"@);
    entry_is_before(l6, "relied_parsed"@, Num::Whole(run::parsed(run)), "precision"@);
    entry_is_before(l7, "files_relied"@, Num::Whole(relied.len() as u64), "precision"@);
    entry_is_before(l8, "files_opened"@, Num::Whole(read.len() as u64), "precision"@);
    entry_is_before(l9, "wall_ms"@, Num::Whole(run.wall_ms), "precision"@);
    entry_is_before(l10, "cost_usd"@, Num::Double(run.cost_usd), "precision"@);
    entry_is_before(l11, "session_total_tokens"@, Num::Whole(run.session.sum() as u64), "precision"@);
    entry_is_before(l12, "parent_total_tokens"@, Num::Whole(run.parent.sum() as u64), "precision"@);
    entry_is_before(l13, "parent_tool_uses"@, Num::Whole(run.parent_tool_uses as u64), "precision"@);
    entry_is_before(l14, "agent_total_tokens"@, Num::Whole(run.agent.sum() as u64), "precision"@);
    entry_is_before(l15, "agent_read_tokens"@, Num::Whole((run.agent.sum() - run.agent.output) as u64), "precision"@);
    entry_is_before(l16, "agent_input_tokens"@, Num::Whole(run.agent.input), "precision"@);
    entry_is_before(l17, "agent_output_tokens"@, Num::Whole(run.agent.output), "precision"@);
    entry_is_before(l18, "agent_cache_read_tokens"@, Num::Whole(run.agent.cache_read), "precision"@);
    entry_is_before(l19, "agent_cache_create_tokens"@, Num::Whole(run.agent.cache_create), "precision"@);
    entry_is_before(l20, "agent_turns"@, Num::Whole(run.turns as u64), "precision"@);
    entry_is_before(l21, "agent_tool_uses"@, Num::Whole(run.tool_uses as u64), "precision"@);
    entry_is_the_last(l2, "found"@, Num::Whole(hits as u64));
    entry_is_before(l3, "read_recall"@, run::share(read_hits, wanted.len()), "found"@);
    entry_is_before(l4, "read_precision"@, run::share(read_hits, read.len()), "found"@);
    entry_is_before(l5, "read_found"@, Num::Whole(read_hits as u64), "found"@);
    entry_is_before(l6, "relied_parsed"@, Num::Whole(run::parsed(run)), "found"@);
    entry_is_before(l7, "files_relied"@, Num::Whole(relied.len() as u64), "found"@);
    entry_is_before(l8, "files_opened"@, Num::Whole(read.len() as u64), "found"@);
    entry_is_before(l9, "wall_ms"@, Num::Whole(run.wall_ms), "found"@);
    entry_is_before(l10, "cost_usd"@, Num::Double(run.cost_usd), "found"@);
    entry_is_before(l11, "session_total_tokens"@, Num::Whole(run.session.sum() as u64), "found"@);
    entry_is_before(l12, "parent_total_tokens"@, Num::Whole(run.parent.sum() as u64), "found"@);
    entry_is_before(l13, "parent_tool_uses"@, Num::Whole(run.parent_tool_uses as u64), "found"@);
    entry_is_before(l14, "agent_total_tokens"@, Num::Whole(run.agent.sum() as u64), "found"@);
    entry_is_before(l15, "agent_read_tokens"@, Num::Whole((run.agent.sum() - run.agent.output) as u64), "found"@);
    entry_is_before(l16, "agent_input_tokens"@, Num::Whole(run.agent.input), "found"@);
    entry_is_before(l17, "agent_output_tokens"@, Num::Whole(run.agent.output), "found"@);
    entry_is_before(l18, "agent_cache_read_tokens"@, Num::Whole(run.agent.cache_read), "found"@);
    entry_is_before(l19, "agent_cache_create_tokens"@, Num::Whole(run.agent.cache_create), "found"@);
    entry_is_before(l20, "agent_turns"@, Num::Whole(run.turns as u64), "found"@);
    entry_is_before(l21, "agent_tool_uses"@, Num::Whole(run.tool_uses as u64), "found"@);
    entry_is_the_last(l3, "read_recall"@, run::share(read_hits, wanted.len()));
    entry_is_before(l4, "read_precision"@, run::share(read_hits, read.len()), "read_recall"@);
    entry_is_before(l5, "read_found"@, Num::Whole(read_hits as u64), "read_recall"@);
    entry_is_before(l6, "relied_parsed"@, Num::Whole(run::parsed(run)), "read_recall"@);
    entry_is_before(l7, "files_relied"@, Num::Whole(relied.len() as u64), "read_recall"@);
    entry_is_before(l8, "files_opened"@, Num::Whole(read.len() as u64), "read_recall"@);
    entry_is_before(l9, "wall_ms"@, Num::Whole(run.wall_ms), "read_recall"@);
    entry_is_before(l10, "cost_usd"@, Num::Double(run.cost_usd), "read_recall"@);
    entry_is_before(l11, "session_total_tokens"@, Num::Whole(run.session.sum() as u64), "read_recall"@);
    entry_is_before(l12, "parent_total_tokens"@, Num::Whole(run.parent.sum() as u64), "read_recall"@);
    entry_is_before(l13, "parent_tool_uses"@, Num::Whole(run.parent_tool_uses as u64), "read_recall"@);
    entry_is_before(l14, "agent_total_tokens"@, Num::Whole(run.agent.sum() as u64), "read_recall"@);
    entry_is_before(l15, "agent_read_tokens"@, Num::Whole((run.agent.sum() - run.agent.output) as u64), "read_recall"@);
    entry_is_before(l16, "agent_input_tokens"@, Num::Whole(run.agent.input), "read_recall"@);
    entry_is_before(l17, "agent_output_tokens"@, Num::Whole(run.agent.output), "read_recall"@);
    entry_is_before(l18, "agent_cache_read_tokens"@, Num::Whole(run.agent.cache_read), "read_recall"@);
    entry_is_before(l19, "agent_cache_create_tokens"@, Num::Whole(run.agent.cache_create), "read_recall"@);
    entry_is_before(l20, "agent_turns"@, Num::Whole(run.turns as u64), "read_recall"@);
    entry_is_before(l21, "agent_tool_uses"@, Num::Whole(run.tool_uses as u64), "read_recall"@);
    entry_is_the_last(l4, "read_precision"@, run::share(read_hits, read.len()));
    entry_is_before(l5, "read_found"@, Num::Whole(read_hits as u64), "read_precision"@);
    entry_is_before(l6, "relied_parsed"@, Num::Whole(run::parsed(run)), "read_precision"@);
    entry_is_before(l7, "files_relied"@, Num::Whole(relied.len() as u64), "read_precision"@);
    entry_is_before(l8, "files_opened"@, Num::Whole(read.len() as u64), "read_precision"@);
    entry_is_before(l9, "wall_ms"@, Num::Whole(run.wall_ms), "read_precision"@);
    entry_is_before(l10, "cost_usd"@, Num::Double(run.cost_usd), "read_precision"@);
    entry_is_before(l11, "session_total_tokens"@, Num::Whole(run.session.sum() as u64), "read_precision"@);
    entry_is_before(l12, "parent_total_tokens"@, Num::Whole(run.parent.sum() as u64), "read_precision"@);
    entry_is_before(l13, "parent_tool_uses"@, Num::Whole(run.parent_tool_uses as u64), "read_precision"@);
    entry_is_before(l14, "agent_total_tokens"@, Num::Whole(run.agent.sum() as u64), "read_precision"@);
    entry_is_before(l15, "agent_read_tokens"@, Num::Whole((run.agent.sum() - run.agent.output) as u64), "read_precision"@);
    entry_is_before(l16, "agent_input_tokens"@, Num::Whole(run.agent.input), "read_precision"@);
    entry_is_before(l17, "agent_output_tokens"@, Num::Whole(run.agent.output), "read_precision"@);
    entry_is_before(l18, "agent_cache_read_tokens"@, Num::Whole(run.agent.cache_read), "read_precision"@);
    entry_is_before(l19, "agent_cache_create_tokens"@, Num::Whole(run.agent.cache_create), "read_precision"@);
    entry_is_before(l20, "agent_turns"@, Num::Whole(run.turns as u64), "read_precision"@);
    entry_is_before(l21, "agent_tool_uses"@, Num::Whole(run.tool_uses as u64), "read_precision"@);
    entry_is_the_last(l5, "read_found"@, Num::Whole(read_hits as u64));
    entry_is_before(l6, "relied_parsed"@, Num::Whole(run::parsed(run)), "read_found"@);
    entry_is_before(l7, "files_relied"@, Num::Whole(relied.len() as u64), "read_found"@);
    entry_is_before(l8, "files_opened"@, Num::Whole(read.len() as u64), "read_found"@);
    entry_is_before(l9, "wall_ms"@, Num::Whole(run.wall_ms), "read_found"@);
    entry_is_before(l10, "cost_usd"@, Num::Double(run.cost_usd), "read_found"@);
    entry_is_before(l11, "session_total_tokens"@, Num::Whole(run.session.sum() as u64), "read_found"@);
    entry_is_before(l12, "parent_total_tokens"@, Num::Whole(run.parent.sum() as u64), "read_found"@);
    entry_is_before(l13, "parent_tool_uses"@, Num::Whole(run.parent_tool_uses as u64), "read_found"@);
    entry_is_before(l14, "agent_total_tokens"@, Num::Whole(run.agent.sum() as u64), "read_found"@);
    entry_is_before(l15, "agent_read_tokens"@, Num::Whole((run.agent.sum() - run.agent.output) as u64), "read_found"@);
    entry_is_before(l16, "agent_input_tokens"@, Num::Whole(run.agent.input), "read_found"@);
    entry_is_before(l17, "agent_output_tokens"@, Num::Whole(run.agent.output), "read_found"@);
    entry_is_before(l18, "agent_cache_read_tokens"@, Num::Whole(run.agent.cache_read), "read_found"@);
    entry_is_before(l19, "agent_cache_create_tokens"@, Num::Whole(run.agent.cache_create), "read_found"@);
    entry_is_before(l20, "agent_turns"@, Num::Whole(run.turns as u64), "read_found"@);
    entry_is_before(l21, "agent_tool_uses"@, Num::Whole(run.tool_uses as u64), "read_found"@);
    entry_is_the_last(l6, "relied_parsed"@, Num::Whole(run::parsed(run)));
    entry_is_before(l7, "files_relied"@, Num::Whole(relied.len() as u64), "relied_parsed"@);
    entry_is_before(l8, "files_opened"@, Num::Whole(read.len() as u64), "relied_parsed"@);
    entry_is_before(l9, "wall_ms"@, Num::Whole(run.wall_ms), "relied_parsed"@);
    entry_is_before(l10, "cost_usd"@, Num::Double(run.cost_usd), "relied_parsed"@);
    entry_is_before(l11, "session_total_tokens"@, Num::Whole(run.session.sum() as u64), "relied_parsed"@);
    entry_is_before(l12, "parent_total_tokens"@, Num::Whole(run.parent.sum() as u64), "relied_parsed"@);
    entry_is_before(l13, "parent_tool_uses"@, Num::Whole(run.parent_tool_uses as u64), "relied_parsed"@);
    entry_is_before(l14, "agent_total_tokens"@, Num::Whole(run.agent.sum() as u64), "relied_parsed"@);
    entry_is_before(l15, "agent_read_tokens"@, Num::Whole((run.agent.sum() - run.agent.output) as u64), "relied_parsed"@);
    entry_is_before(l16, "agent_input_tokens"@, Num::Whole(run.agent.input), "relied_parsed"@);
    entry_is_before(l17, "agent_output_tokens"@, Num::Whole(run.agent.output), "relied_parsed"@);
    entry_is_before(l18, "agent_cache_read_tokens"@, Num::Whole(run.agent.cache_read), "relied_parsed"@);
    entry_is_before(l19, "agent_cache_create_tokens"@, Num::Whole(run.agent.cache_create), "relied_parsed"@);
    entry_is_before(l20, "agent_turns"@, Num::Whole(run.turns as u64), "relied_parsed"@);
    entry_is_before(l21, "agent_tool_uses"@, Num::Whole(run.tool_uses as u64), "relied_parsed"@);
    entry_is_the_last(l7, "files_relied"@, Num::Whole(relied.len() as u64));
    entry_is_before(l8, "files_opened"@, Num::Whole(read.len() as u64), "files_relied"@);
    entry_is_before(l9, "wall_ms"@, Num::Whole(run.wall_ms), "files_relied"@);
    entry_is_before(l10, "cost_usd"@, Num::Double(run.cost_usd), "files_relied"@);
    entry_is_before(l11, "session_total_tokens"@, Num::Whole(run.session.sum() as u64), "files_relied"@);
    entry_is_before(l12, "parent_total_tokens"@, Num::Whole(run.parent.sum() as u64), "files_relied"@);
    entry_is_before(l13, "parent_tool_uses"@, Num::Whole(run.parent_tool_uses as u64), "files_relied"@);
    entry_is_before(l14, "agent_total_tokens"@, Num::Whole(run.agent.sum() as u64), "files_relied"@);
    entry_is_before(l15, "agent_read_tokens"@, Num::Whole((run.agent.sum() - run.agent.output) as u64), "files_relied"@);
    entry_is_before(l16, "agent_input_tokens"@, Num::Whole(run.agent.input), "files_relied"@);
    entry_is_before(l17, "agent_output_tokens"@, Num::Whole(run.agent.output), "files_relied"@);
    entry_is_before(l18, "agent_cache_read_tokens"@, Num::Whole(run.agent.cache_read), "files_relied"@);
    entry_is_before(l19, "agent_cache_create_tokens"@, Num::Whole(run.agent.cache_create), "files_relied"@);
    entry_is_before(l20, "agent_turns"@, Num::Whole(run.turns as u64), "files_relied"@);
    entry_is_before(l21, "agent_tool_uses"@, Num::Whole(run.tool_uses as u64), "files_relied"@);
    entry_is_the_last(l8, "files_opened"@, Num::Whole(read.len() as u64));
    entry_is_before(l9, "wall_ms"@, Num::Whole(run.wall_ms), "files_opened"@);
    entry_is_before(l10, "cost_usd"@, Num::Double(run.cost_usd), "files_opened"@);
    entry_is_before(l11, "session_total_tokens"@, Num::Whole(run.session.sum() as u64), "files_opened"@);
    entry_is_before(l12, "parent_total_tokens"@, Num::Whole(run.parent.sum() as u64), "files_opened"@);
    entry_is_before(l13, "parent_tool_uses"@, Num::Whole(run.parent_tool_uses as u64), "files_opened"@);
    entry_is_before(l14, "agent_total_tokens"@, Num::Whole(run.agent.sum() as u64), "files_opened"@);
    entry_is_before(l15, "agent_read_tokens"@, Num::Whole((run.agent.sum() - run.agent.output) as u64), "files_opened"@);
    entry_is_before(l16, "agent_input_tokens"@, Num::Whole(run.agent.input), "files_opened"@);
    entry_is_before(l17, "agent_output_tokens"@, Num::Whole(run.agent.output), "files_opened"@);
    entry_is_before(l18, "agent_cache_read_tokens"@, Num::Whole(run.agent.cache_read), "files_opened"@);
    entry_is_before(l19, "agent_cache_create_tokens"@, Num::Whole(run.agent.cache_create), "files_opened"@);
    entry_is_before(l20, "agent_turns"@, Num::Whole(run.turns as u64), "files_opened"@);
    entry_is_before(l21, "agent_tool_uses"@, Num::Whole(run.tool_uses as u64), "files_opened"@);
    entry_is_the_last(l9, "wall_ms"@, Num::Whole(run.wall_ms));
    entry_is_before(l10, "cost_usd"@, Num::Double(run.cost_usd), "wall_ms"@);
    entry_is_before(l11, "session_total_tokens"@, Num::Whole(run.session.sum() as u64), "wall_ms"@);
    entry_is_before(l12, "parent_total_tokens"@, Num::Whole(run.parent.sum() as u64), "wall_ms"@);
    entry_is_before(l13, "parent_tool_uses"@, Num::Whole(run.parent_tool_uses as u64), "wall_ms"@);
    entry_is_before(l14, "agent_total_tokens"@, Num::Whole(run.agent.sum() as u64), "wall_ms"@);
    entry_is_before(l15, "agent_read_tokens"@, Num::Whole((run.agent.sum() - run.agent.output) as u64), "wall_ms"@);
    entry_is_before(l16, "agent_input_tokens"@, Num::Whole(run.agent.input), "wall_ms"@);
    entry_is_before(l17, "agent_output_tokens"@, Num::Whole(run.agent.output), "wall_ms"@);
    entry_is_before(l18, "agent_cache_read_tokens"@, Num::Whole(run.agent.cache_read), "wall_ms"@);
    entry_is_before(l19, "agent_cache_create_tokens"@, Num::Whole(run.agent.cache_create), "wall_ms"@);
    entry_is_before(l20, "agent_turns"@, Num::Whole(run.turns as u64), "wall_ms"@);
    entry_is_before(l21, "agent_tool_uses"@, Num::Whole(run.tool_uses as u64), "wall_ms"@);
    entry_is_the_last(l10, "cost_usd"@, Num::Double(run.cost_usd));
    entry_is_before(l11, "session_total_tokens"@, Num::Whole(run.session.sum() as u64), "cost_usd"@);
    entry_is_before(l12, "parent_total_tokens"@, Num::Whole(run.parent.sum() as u64), "cost_usd"@);
    entry_is_before(l13, "parent_tool_uses"@, Num::Whole(run.parent_tool_uses as u64), "cost_usd"@);
    entry_is_before(l14, "agent_total_tokens"@, Num::Whole(run.agent.sum() as u64), "cost_usd"@);
    entry_is_before(l15, "agent_read_tokens"@, Num::Whole((run.agent.sum() - run.agent.output) as u64), "cost_usd"@);
    entry_is_before(l16, "agent_input_tokens"@, Num::Whole(run.agent.input), "cost_usd"@);
    entry_is_before(l17, "agent_output_tokens"@, Num::Whole(run.agent.output), "cost_usd"@);
    entry_is_before(l18, "agent_cache_read_tokens"@, Num::Whole(run.agent.cache_read), "cost_usd"@);
    entry_is_before(l19, "agent_cache_create_tokens"@, Num::Whole(run.agent.cache_create), "cost_usd"@);
    entry_is_before(l20, "agent_turns"@, Num::Whole(run.turns as u64), "cost_usd"@);
    entry_is_before(l21, "agent_tool_uses"@, Num::Whole(run.tool_uses as u64), "cost_usd"@);
    entry_is_the_last(l11, "session_total_tokens"@, Num::Whole(run.session.sum() as u64));
    entry_is_before(l12, "parent_total_tokens"@, Num::Whole(run.parent.sum() as u64), "session_total_tokens"@);
    entry_is_before(l13, "parent_tool_uses"@, Num::Whole(run.parent_tool_uses as u64), "session_total_tokens"@);
    entry_is_before(l14, "agent_total_tokens"@, Num::Whole(run.agent.sum() as u64), "session_total_tokens"@);
    entry_is_before(l15, "agent_read_tokens"@, Num::Whole((run.agent.sum() - run.agent.output) as u64), "session_total_tokens"@);
    entry_is_before(l16, "agent_input_tokens"@, Num::Whole(run.agent.input), "session_total_tokens"@);
    entry_is_before(l17, "agent_output_tokens"@, Num::Whole(run.agent.output), "session_total_tokens"@);
    entry_is_before(l18, "agent_cache_read_tokens"@, Num::Whole(run.agent.cache_read), "session_total_tokens"@);
    entry_is_before(l19, "agent_cache_create_tokens"@, Num::Whole(run.agent.cache_create), "session_total_tokens"@);
    entry_is_before(l20, "agent_turns"@, Num::Whole(run.turns as u64), "session_total_tokens"@);
    entry_is_before(l21, "agent_tool_uses"@, Num::Whole(run.tool_uses as u64), "session_total_tokens"@);
    entry_is_the_last(l12, "parent_total_tokens"@, Num::Whole(run.parent.sum() as u64));
    entry_is_before(l13, "parent_tool_uses"@, Num::Whole(run.parent_tool_uses as u64), "parent_total_tokens"@);
    entry_is_before(l14, "agent_total_tokens"@, Num::Whole(run.agent.sum() as u64), "parent_total_tokens"@);
    entry_is_before(l15, "agent_read_tokens"@, Num::Whole((run.agent.sum() - run.agent.output) as u64), "parent_total_tokens"@);
    entry_is_before(l16, "agent_input_tokens"@, Num::Whole(run.agent.input), "parent_total_tokens"@);
    entry_is_before(l17, "agent_output_tokens"@, Num::Whole(run.agent.output), "parent_total_tokens"@);
    entry_is_before(l18, "agent_cache_read_tokens"@, Num::Whole(run.agent.cache_read), "parent_total_tokens"@);
    entry_is_before(l19, "agent_cache_create_tokens"@, Num::Whole(run.agent.cache_create), "parent_total_tokens"@);
    entry_is_before(l20, "agent_turns"@, Num::Whole(run.turns as u64), "parent_total_tokens"@);
    entry_is_before(l21, "agent_tool_uses"@, Num::Whole(run.tool_uses as u64), "parent_total_tokens"@);
    entry_is_the_last(l13, "parent_tool_uses"@, Num::Whole(run.parent_tool_uses as u64));
    entry_is_before(l14, "agent_total_tokens"@, Num::Whole(run.agent.sum() as u64), "parent_tool_uses"@);
    entry_is_before(l15, "agent_read_tokens"@, Num::Whole((run.agent.sum() - run.agent.output) as u64), "parent_tool_uses"@);
    entry_is_before(l16, "agent_input_tokens"@, Num::Whole(run.agent.input), "parent_tool_uses"@);
    entry_is_before(l17, "agent_output_tokens"@, Num::Whole(run.agent.output), "parent_tool_uses"@);
    entry_is_before(l18, "agent_cache_read_tokens"@, Num::Whole(run.agent.cache_read), "parent_tool_uses"@);
    entry_is_before(l19, "agent_cache_create_tokens"@, Num::Whole(run.agent.cache_create), "parent_tool_uses"@);
    entry_is_before(l20, "agent_turns"@, Num::Whole(run.turns as u64), "parent_tool_uses"@);
    entry_is_before(l21, "agent_tool_uses"@, Num::Whole(run.tool_uses as u64), "parent_tool_uses"@);
    entry_is_the_last(l14, "agent_total_tokens"@, Num::Whole(run.agent.sum() as u64));
    entry_is_before(l15, "agent_read_tokens"@, Num::Whole((run.agent.sum() - run.agent.output) as u64), "agent_total_tokens"@);
    entry_is_before(l16, "agent_input_tokens"@, Num::Whole(run.agent.input), "agent_total_tokens"@);
    entry_is_before(l17, "agent_output_tokens"@, Num::Whole(run.agent.output), "agent_total_tokens"@);
    entry_is_before(l18, "agent_cache_read_tokens"@, Num::Whole(run.agent.cache_read), "agent_total_tokens"@);
    entry_is_before(l19, "agent_cache_create_tokens"@, Num::Whole(run.agent.cache_create), "agent_total_tokens"@);
    entry_is_before(l20, "agent_turns"@, Num::Whole(run.turns as u64), "agent_total_tokens"@);
    entry_is_before(l21, "agent_tool_uses"@, Num::Whole(run.tool_uses as u64), "agent_total_tokens"@);
    entry_is_the_last(l15, "agent_read_tokens"@, Num::Whole((run.agent.sum() - run.agent.output) as u64));
    entry_is_before(l16, "agent_input_tokens"@, Num::Whole(run.agent.input), "agent_read_tokens"@);
    entry_is_before(l17, "agent_output_tokens"@, Num::Whole(run.agent.output), "agent_read_tokens"@);
    entry_is_before(l18, "agent_cache_read_tokens"@, Num::Whole(run.agent.cache_read), "agent_read_tokens"@);
    entry_is_before(l19, "agent_cache_create_tokens"@, Num::Whole(run.agent.cache_create), "agent_read_tokens"@);
    entry_is_before(l20, "agent_turns"@, Num::Whole(run.turns as u64), "agent_read_tokens"@);
    entry_is_before(l21, "agent_tool_uses"@, Num::Whole(run.tool_uses as u64), "agent_read_tokens"@);
    entry_is_the_last(l16, "agent_input_tokens"@, Num::Whole(run.agent.input));
    entry_is_before(l17, "agent_output_tokens"@, Num::Whole(run.agent.output), "agent_input_tokens"@);
    entry_is_before(l18, "agent_cache_read_tokens"@, Num::Whole(run.agent.cache_read), "agent_input_tokens"@);
    entry_is_before(l19, "agent_cache_create_tokens"@, Num::Whole(run.agent.cache_create), "agent_input_tokens"@);
    entry_is_before(l20, "agent_turns"@, Num::Whole(run.turns as u64), "agent_input_tokens"@);
    entry_is_before(l21, "agent_tool_uses"@, Num::Whole(run.tool_uses as u64), "agent_input_tokens"@);
    entry_is_the_last(l17, "agent_output_tokens"@, Num::Whole(run.agent.output));
    entry_is_before(l18, "agent_cache_read_tokens"@, Num::Whole(run.agent.cache_read), "agent_output_tokens"@);
    entry_is_before(l19, "agent_cache_create_tokens"@, Num::Whole(run.agent.cache_create), "agent_output_tokens"@);
    entry_is_before(l20, "agent_turns"@, Num::Whole(run.turns as u64), "agent_output_tokens"@);
    entry_is_before(l21, "agent_tool_uses"@, Num::Whole(run.tool_uses as u64), "agent_output_tokens"@);
    entry_is_the_last(l18, "agent_cache_read_tokens"@, Num::Whole(run.agent.cache_read));
    entry_is_before(l19, "agent_cache_create_tokens"@, Num::Whole(run.agent.cache_create), "agent_cache_read_tokens"@);
    entry_is_before(l20, "agent_turns"@, Num::Whole(run.turns as u64), "agent_cache_read_tokens"@);
    entry_is_before(l21, "agent_tool_uses"@, Num::Whole(run.tool_uses as u64), "agent_cache_read_tokens"@);
    entry_is_the_last(l19, "agent_cache_create_tokens"@, Num::Whole(run.agent.cache_create));
    entry_is_before(l20, "agent_turns"@, Num::Whole(run.turns as u64), "agent_cache_create_tokens"@);
    entry_is_before(l21, "agent_tool_uses"@, Num::Whole(run.tool_uses as u64), "agent_cache_create_tokens"@);
    entry_is_the_last(l20, "agent_turns"@, Num::Whole(run.turns as u64));
    entry_is_before(l21, "agent_tool_uses"@, Num::Whole(run.tool_uses as u64), "agent_turns"@);
    entry_is_the_last(l21, "agent_tool_uses"@, Num::Whole(run.tool_uses as u64));
}

/// The metrics that every run of an agent that explores has.
spec fn explore_start(
    run: AgentRun,
    wanted: Seq<Seq<char>>,
    relied: Seq<Seq<char>>,
    read: Seq<Seq<char>>,
) -> Seq<(Seq<char>, Num)> {
    let list = run::with_files(run, wanted, relied, read);
    let list = list.push((""@ + "session_total_tokens"@, Num::Whole(run.session.sum() as u64)));
    let list = list.push((""@ + "parent_total_tokens"@, Num::Whole(run.parent.sum() as u64)));
    let list = list.push((""@ + "parent_tool_uses"@, Num::Whole(run.parent_tool_uses as u64)));
    let list = run::with_tokens(list, "agent_"@, run.agent);
    let list = list.push((""@ + "agent_turns"@, Num::Whole(run.turns as u64)));
    list.push((""@ + "agent_tool_uses"@, Num::Whole(run.tool_uses as u64)))
}

/// Each metric of an agent that explores is of what it names: recall, precision and what was found
/// of the files it says it relied on, the same of those it opened, its tokens and the parent's, its
/// turns and tools, the times and the cost.
pub proof fn an_exploring_run_is_measured(run: AgentRun, query: Query, table: Table<Num>) -> (sets: (
    Seq<Seq<char>>,
    Seq<Seq<char>>,
    Seq<Seq<char>>,
))
    requires
        run::is_explore(run, query, table),
    ensures
        lists_once(text::texts(query.wanted@), sets.0),
        lists_once(run::relied_on(run), sets.1),
        lists_once(text::texts(run.files_read@), sets.2),
        ({
            let (wanted, relied, read) = sets;
            &&& table.names().contains("recall"@) && table.at("recall"@) == run::share(among(wanted, relied), wanted.len())
            &&& table.names().contains("precision"@) && table.at("precision"@) == run::share(among(wanted, relied), relied.len())
            &&& table.names().contains("found"@) && table.at("found"@) == Num::Whole(among(wanted, relied) as u64)
            &&& table.names().contains("read_recall"@) && table.at("read_recall"@) == run::share(among(wanted, read), wanted.len())
            &&& table.names().contains("read_precision"@) && table.at("read_precision"@) == run::share(among(wanted, read), read.len())
            &&& table.names().contains("read_found"@) && table.at("read_found"@) == Num::Whole(among(wanted, read) as u64)
            &&& table.names().contains("relied_parsed"@) && table.at("relied_parsed"@) == Num::Whole(if run.files_relied is Some { 1 } else { 0 })
            &&& table.names().contains("files_relied"@) && table.at("files_relied"@) == Num::Whole(relied.len() as u64)
            &&& table.names().contains("files_opened"@) && table.at("files_opened"@) == Num::Whole(read.len() as u64)
            &&& table.names().contains("wall_ms"@) && table.at("wall_ms"@) == Num::Whole(run.wall_ms)
            &&& table.names().contains("cost_usd"@) && table.at("cost_usd"@) == Num::Double(run.cost_usd)
            &&& table.names().contains("session_total_tokens"@) && table.at("session_total_tokens"@) == Num::Whole((run.session.input + run.session.output + run.session.cache_read + run.session.cache_create) as u64)
            &&& table.names().contains("parent_total_tokens"@) && table.at("parent_total_tokens"@) == Num::Whole((run.parent.input + run.parent.output + run.parent.cache_read + run.parent.cache_create) as u64)
            &&& table.names().contains("parent_tool_uses"@) && table.at("parent_tool_uses"@) == Num::Whole(run.parent_tool_uses as u64)
            &&& table.names().contains("agent_total_tokens"@) && table.at("agent_total_tokens"@) == Num::Whole((run.agent.input + run.agent.output + run.agent.cache_read + run.agent.cache_create) as u64)
            &&& table.names().contains("agent_read_tokens"@) && table.at("agent_read_tokens"@) == Num::Whole((run.agent.input + run.agent.cache_read + run.agent.cache_create) as u64)
            &&& table.names().contains("agent_input_tokens"@) && table.at("agent_input_tokens"@) == Num::Whole(run.agent.input)
            &&& table.names().contains("agent_output_tokens"@) && table.at("agent_output_tokens"@) == Num::Whole(run.agent.output)
            &&& table.names().contains("agent_cache_read_tokens"@) && table.at("agent_cache_read_tokens"@) == Num::Whole(run.agent.cache_read)
            &&& table.names().contains("agent_cache_create_tokens"@) && table.at("agent_cache_create_tokens"@) == Num::Whole(run.agent.cache_create)
            &&& table.names().contains("agent_turns"@) && table.at("agent_turns"@) == Num::Whole(run.turns as u64)
            &&& table.names().contains("agent_tool_uses"@) && table.at("agent_tool_uses"@) == Num::Whole(run.tool_uses as u64)
            &&& table.names().contains("agent_wall_ms"@) == (run.agent_wall_ms is Some)
            &&& run.agent_wall_ms is Some ==> table.at("agent_wall_ms"@) == Num::Whole(run.agent_wall_ms->0)
            &&& table.names().contains("agent_cost_share_usd"@) == (run.session.sum() > 0)
            &&& run.session.sum() > 0 ==> table.at("agent_cost_share_usd"@) == run::cost_share(run)
        }),
{
    let (wanted, relied, read) = choose|
        wanted: Seq<Seq<char>>,
        relied: Seq<Seq<char>>,
        read: Seq<Seq<char>>,
    |
        #![trigger run::explore_list(run, wanted, relied, read)]
        gold::is_path_set(text::texts(query.wanted@), wanted) && gold::is_path_set(
            run::relied_on(run),
            relied,
        ) && gold::is_path_set(text::texts(run.files_read@), read) && run::tabulates(
            run::explore_list(run, wanted, relied, read),
            table,
        );
    a_path_set_lists_each_path_once(text::texts(query.wanted@), wanted);
    a_path_set_lists_each_path_once(run::relied_on(run), relied);
    a_path_set_lists_each_path_once(text::texts(run.files_read@), read);
    found_is_among(wanted, relied);
    found_is_among(wanted, read);
    let start = explore_start(run, wanted, relied, read);
    explore_entries(run, wanted, relied, read, start);
    names_are_told_apart();
    names_are_spelt();
    let all = run::explore_list(run, wanted, relied, read);
    let timed = match run.agent_wall_ms {
        Some(ms) => start.push(("agent_wall_ms"@, Num::Whole(ms))),
        None => start,
    };
    assert(all == if run.session.sum() > 0 {
        timed.push(("agent_cost_share_usd"@, run::cost_share(run)))
    } else {
        timed
    });
    if run.agent_wall_ms is Some {
        entry_is_before(start, "agent_wall_ms"@, Num::Whole(run.agent_wall_ms->0), "recall"@);
    }
    if run.session.sum() > 0 {
        entry_is_before(timed, "agent_cost_share_usd"@, run::cost_share(run), "recall"@);
    }
    assert(run::entry(all, "recall"@) is Some);
    if run.agent_wall_ms is Some {
        entry_is_before(start, "agent_wall_ms"@, Num::Whole(run.agent_wall_ms->0), "precision"@);
    }
    if run.session.sum() > 0 {
        entry_is_before(timed, "agent_cost_share_usd"@, run::cost_share(run), "precision"@);
    }
    assert(run::entry(all, "precision"@) is Some);
    if run.agent_wall_ms is Some {
        entry_is_before(start, "agent_wall_ms"@, Num::Whole(run.agent_wall_ms->0), "found"@);
    }
    if run.session.sum() > 0 {
        entry_is_before(timed, "agent_cost_share_usd"@, run::cost_share(run), "found"@);
    }
    assert(run::entry(all, "found"@) is Some);
    if run.agent_wall_ms is Some {
        entry_is_before(start, "agent_wall_ms"@, Num::Whole(run.agent_wall_ms->0), "read_recall"@);
    }
    if run.session.sum() > 0 {
        entry_is_before(timed, "agent_cost_share_usd"@, run::cost_share(run), "read_recall"@);
    }
    assert(run::entry(all, "read_recall"@) is Some);
    if run.agent_wall_ms is Some {
        entry_is_before(start, "agent_wall_ms"@, Num::Whole(run.agent_wall_ms->0), "read_precision"@);
    }
    if run.session.sum() > 0 {
        entry_is_before(timed, "agent_cost_share_usd"@, run::cost_share(run), "read_precision"@);
    }
    assert(run::entry(all, "read_precision"@) is Some);
    if run.agent_wall_ms is Some {
        entry_is_before(start, "agent_wall_ms"@, Num::Whole(run.agent_wall_ms->0), "read_found"@);
    }
    if run.session.sum() > 0 {
        entry_is_before(timed, "agent_cost_share_usd"@, run::cost_share(run), "read_found"@);
    }
    assert(run::entry(all, "read_found"@) is Some);
    if run.agent_wall_ms is Some {
        entry_is_before(start, "agent_wall_ms"@, Num::Whole(run.agent_wall_ms->0), "relied_parsed"@);
    }
    if run.session.sum() > 0 {
        entry_is_before(timed, "agent_cost_share_usd"@, run::cost_share(run), "relied_parsed"@);
    }
    assert(run::entry(all, "relied_parsed"@) is Some);
    if run.agent_wall_ms is Some {
        entry_is_before(start, "agent_wall_ms"@, Num::Whole(run.agent_wall_ms->0), "files_relied"@);
    }
    if run.session.sum() > 0 {
        entry_is_before(timed, "agent_cost_share_usd"@, run::cost_share(run), "files_relied"@);
    }
    assert(run::entry(all, "files_relied"@) is Some);
    if run.agent_wall_ms is Some {
        entry_is_before(start, "agent_wall_ms"@, Num::Whole(run.agent_wall_ms->0), "files_opened"@);
    }
    if run.session.sum() > 0 {
        entry_is_before(timed, "agent_cost_share_usd"@, run::cost_share(run), "files_opened"@);
    }
    assert(run::entry(all, "files_opened"@) is Some);
    if run.agent_wall_ms is Some {
        entry_is_before(start, "agent_wall_ms"@, Num::Whole(run.agent_wall_ms->0), "wall_ms"@);
    }
    if run.session.sum() > 0 {
        entry_is_before(timed, "agent_cost_share_usd"@, run::cost_share(run), "wall_ms"@);
    }
    assert(run::entry(all, "wall_ms"@) is Some);
    if run.agent_wall_ms is Some {
        entry_is_before(start, "agent_wall_ms"@, Num::Whole(run.agent_wall_ms->0), "cost_usd"@);
    }
    if run.session.sum() > 0 {
        entry_is_before(timed, "agent_cost_share_usd"@, run::cost_share(run), "cost_usd"@);
    }
    assert(run::entry(all, "cost_usd"@) is Some);
    if run.agent_wall_ms is Some {
        entry_is_before(start, "agent_wall_ms"@, Num::Whole(run.agent_wall_ms->0), "session_total_tokens"@);
    }
    if run.session.sum() > 0 {
        entry_is_before(timed, "agent_cost_share_usd"@, run::cost_share(run), "session_total_tokens"@);
    }
    assert(run::entry(all, "session_total_tokens"@) is Some);
    if run.agent_wall_ms is Some {
        entry_is_before(start, "agent_wall_ms"@, Num::Whole(run.agent_wall_ms->0), "parent_total_tokens"@);
    }
    if run.session.sum() > 0 {
        entry_is_before(timed, "agent_cost_share_usd"@, run::cost_share(run), "parent_total_tokens"@);
    }
    assert(run::entry(all, "parent_total_tokens"@) is Some);
    if run.agent_wall_ms is Some {
        entry_is_before(start, "agent_wall_ms"@, Num::Whole(run.agent_wall_ms->0), "parent_tool_uses"@);
    }
    if run.session.sum() > 0 {
        entry_is_before(timed, "agent_cost_share_usd"@, run::cost_share(run), "parent_tool_uses"@);
    }
    assert(run::entry(all, "parent_tool_uses"@) is Some);
    if run.agent_wall_ms is Some {
        entry_is_before(start, "agent_wall_ms"@, Num::Whole(run.agent_wall_ms->0), "agent_total_tokens"@);
    }
    if run.session.sum() > 0 {
        entry_is_before(timed, "agent_cost_share_usd"@, run::cost_share(run), "agent_total_tokens"@);
    }
    assert(run::entry(all, "agent_total_tokens"@) is Some);
    if run.agent_wall_ms is Some {
        entry_is_before(start, "agent_wall_ms"@, Num::Whole(run.agent_wall_ms->0), "agent_read_tokens"@);
    }
    if run.session.sum() > 0 {
        entry_is_before(timed, "agent_cost_share_usd"@, run::cost_share(run), "agent_read_tokens"@);
    }
    assert(run::entry(all, "agent_read_tokens"@) is Some);
    if run.agent_wall_ms is Some {
        entry_is_before(start, "agent_wall_ms"@, Num::Whole(run.agent_wall_ms->0), "agent_input_tokens"@);
    }
    if run.session.sum() > 0 {
        entry_is_before(timed, "agent_cost_share_usd"@, run::cost_share(run), "agent_input_tokens"@);
    }
    assert(run::entry(all, "agent_input_tokens"@) is Some);
    if run.agent_wall_ms is Some {
        entry_is_before(start, "agent_wall_ms"@, Num::Whole(run.agent_wall_ms->0), "agent_output_tokens"@);
    }
    if run.session.sum() > 0 {
        entry_is_before(timed, "agent_cost_share_usd"@, run::cost_share(run), "agent_output_tokens"@);
    }
    assert(run::entry(all, "agent_output_tokens"@) is Some);
    if run.agent_wall_ms is Some {
        entry_is_before(start, "agent_wall_ms"@, Num::Whole(run.agent_wall_ms->0), "agent_cache_read_tokens"@);
    }
    if run.session.sum() > 0 {
        entry_is_before(timed, "agent_cost_share_usd"@, run::cost_share(run), "agent_cache_read_tokens"@);
    }
    assert(run::entry(all, "agent_cache_read_tokens"@) is Some);
    if run.agent_wall_ms is Some {
        entry_is_before(start, "agent_wall_ms"@, Num::Whole(run.agent_wall_ms->0), "agent_cache_create_tokens"@);
    }
    if run.session.sum() > 0 {
        entry_is_before(timed, "agent_cost_share_usd"@, run::cost_share(run), "agent_cache_create_tokens"@);
    }
    assert(run::entry(all, "agent_cache_create_tokens"@) is Some);
    if run.agent_wall_ms is Some {
        entry_is_before(start, "agent_wall_ms"@, Num::Whole(run.agent_wall_ms->0), "agent_turns"@);
    }
    if run.session.sum() > 0 {
        entry_is_before(timed, "agent_cost_share_usd"@, run::cost_share(run), "agent_turns"@);
    }
    assert(run::entry(all, "agent_turns"@) is Some);
    if run.agent_wall_ms is Some {
        entry_is_before(start, "agent_wall_ms"@, Num::Whole(run.agent_wall_ms->0), "agent_tool_uses"@);
    }
    if run.session.sum() > 0 {
        entry_is_before(timed, "agent_cost_share_usd"@, run::cost_share(run), "agent_tool_uses"@);
    }
    assert(run::entry(all, "agent_tool_uses"@) is Some);
    no_such_entry(run, wanted, relied, read, start);
    if run.agent_wall_ms is Some {
        entry_is_the_last(start, "agent_wall_ms"@, Num::Whole(run.agent_wall_ms->0));
        entry_is_before(
            start,
            "agent_wall_ms"@,
            Num::Whole(run.agent_wall_ms->0),
            "agent_cost_share_usd"@,
        );
    }
    if run.session.sum() > 0 {
        entry_is_the_last(timed, "agent_cost_share_usd"@, run::cost_share(run));
        entry_is_before(timed, "agent_cost_share_usd"@, run::cost_share(run), "agent_wall_ms"@);
    }
    assert(run::entry(all, "agent_wall_ms"@) is Some == run.agent_wall_ms is Some);
    assert(run::entry(all, "agent_cost_share_usd"@) is Some == (run.session.sum() > 0));
    (wanted, relied, read)
}

proof fn no_such_entry(
    run: AgentRun,
    wanted: Seq<Seq<char>>,
    relied: Seq<Seq<char>>,
    read: Seq<Seq<char>>,
    list: Seq<(Seq<char>, Num)>,
)
    requires
        list == explore_start(run, wanted, relied, read),
    ensures
        run::entry(list, "agent_wall_ms"@) is None,
        run::entry(list, "agent_cost_share_usd"@) is None,
{
    names_are_told_apart();
    names_are_spelt();
    let hits = run::found(wanted, relied);
    let read_hits = run::found(wanted, read);
    let l0 = Seq::<(Seq<char>, Num)>::empty();
    let l1 = l0.push(("recall"@, run::share(hits, wanted.len())));
    let l2 = l1.push(("precision"@, run::share(hits, relied.len())));
    let l3 = l2.push(("found"@, Num::Whole(hits as u64)));
    let l4 = l3.push(("read_recall"@, run::share(read_hits, wanted.len())));
    let l5 = l4.push(("read_precision"@, run::share(read_hits, read.len())));
    let l6 = l5.push(("read_found"@, Num::Whole(read_hits as u64)));
    let l7 = l6.push(("relied_parsed"@, Num::Whole(run::parsed(run))));
    let l8 = l7.push(("files_relied"@, Num::Whole(relied.len() as u64)));
    let l9 = l8.push(("files_opened"@, Num::Whole(read.len() as u64)));
    let l10 = l9.push(("wall_ms"@, Num::Whole(run.wall_ms)));
    let l11 = l10.push(("cost_usd"@, Num::Double(run.cost_usd)));
    let l12 = l11.push(("session_total_tokens"@, Num::Whole(run.session.sum() as u64)));
    let l13 = l12.push(("parent_total_tokens"@, Num::Whole(run.parent.sum() as u64)));
    let l14 = l13.push(("parent_tool_uses"@, Num::Whole(run.parent_tool_uses as u64)));
    let l15 = l14.push(("agent_total_tokens"@, Num::Whole(run.agent.sum() as u64)));
    let l16 = l15.push(("agent_read_tokens"@, Num::Whole((run.agent.sum() - run.agent.output) as u64)));
    let l17 = l16.push(("agent_input_tokens"@, Num::Whole(run.agent.input)));
    let l18 = l17.push(("agent_output_tokens"@, Num::Whole(run.agent.output)));
    let l19 = l18.push(("agent_cache_read_tokens"@, Num::Whole(run.agent.cache_read)));
    let l20 = l19.push(("agent_cache_create_tokens"@, Num::Whole(run.agent.cache_create)));
    let l21 = l20.push(("agent_turns"@, Num::Whole(run.turns as u64)));
    let l22 = l21.push(("agent_tool_uses"@, Num::Whole(run.tool_uses as u64)));
    assert(list == l22);
    entry_is_before(l0, "recall"@, run::share(hits, wanted.len()), "agent_wall_ms"@);
    entry_is_before(l0, "recall"@, run::share(hits, wanted.len()), "agent_cost_share_usd"@);
    entry_is_before(l1, "precision"@, run::share(hits, relied.len()), "agent_wall_ms"@);
    entry_is_before(l1, "precision"@, run::share(hits, relied.len()), "agent_cost_share_usd"@);
    entry_is_before(l2, "found"@, Num::Whole(hits as u64), "agent_wall_ms"@);
    entry_is_before(l2, "found"@, Num::Whole(hits as u64), "agent_cost_share_usd"@);
    entry_is_before(l3, "read_recall"@, run::share(read_hits, wanted.len()), "agent_wall_ms"@);
    entry_is_before(l3, "read_recall"@, run::share(read_hits, wanted.len()), "agent_cost_share_usd"@);
    entry_is_before(l4, "read_precision"@, run::share(read_hits, read.len()), "agent_wall_ms"@);
    entry_is_before(l4, "read_precision"@, run::share(read_hits, read.len()), "agent_cost_share_usd"@);
    entry_is_before(l5, "read_found"@, Num::Whole(read_hits as u64), "agent_wall_ms"@);
    entry_is_before(l5, "read_found"@, Num::Whole(read_hits as u64), "agent_cost_share_usd"@);
    entry_is_before(l6, "relied_parsed"@, Num::Whole(run::parsed(run)), "agent_wall_ms"@);
    entry_is_before(l6, "relied_parsed"@, Num::Whole(run::parsed(run)), "agent_cost_share_usd"@);
    entry_is_before(l7, "files_relied"@, Num::Whole(relied.len() as u64), "agent_wall_ms"@);
    entry_is_before(l7, "files_relied"@, Num::Whole(relied.len() as u64), "agent_cost_share_usd"@);
    entry_is_before(l8, "files_opened"@, Num::Whole(read.len() as u64), "agent_wall_ms"@);
    entry_is_before(l8, "files_opened"@, Num::Whole(read.len() as u64), "agent_cost_share_usd"@);
    entry_is_before(l9, "wall_ms"@, Num::Whole(run.wall_ms), "agent_wall_ms"@);
    entry_is_before(l9, "wall_ms"@, Num::Whole(run.wall_ms), "agent_cost_share_usd"@);
    entry_is_before(l10, "cost_usd"@, Num::Double(run.cost_usd), "agent_wall_ms"@);
    entry_is_before(l10, "cost_usd"@, Num::Double(run.cost_usd), "agent_cost_share_usd"@);
    entry_is_before(l11, "session_total_tokens"@, Num::Whole(run.session.sum() as u64), "agent_wall_ms"@);
    entry_is_before(l11, "session_total_tokens"@, Num::Whole(run.session.sum() as u64), "agent_cost_share_usd"@);
    entry_is_before(l12, "parent_total_tokens"@, Num::Whole(run.parent.sum() as u64), "agent_wall_ms"@);
    entry_is_before(l12, "parent_total_tokens"@, Num::Whole(run.parent.sum() as u64), "agent_cost_share_usd"@);
    entry_is_before(l13, "parent_tool_uses"@, Num::Whole(run.parent_tool_uses as u64), "agent_wall_ms"@);
    entry_is_before(l13, "parent_tool_uses"@, Num::Whole(run.parent_tool_uses as u64), "agent_cost_share_usd"@);
    entry_is_before(l14, "agent_total_tokens"@, Num::Whole(run.agent.sum() as u64), "agent_wall_ms"@);
    entry_is_before(l14, "agent_total_tokens"@, Num::Whole(run.agent.sum() as u64), "agent_cost_share_usd"@);
    entry_is_before(l15, "agent_read_tokens"@, Num::Whole((run.agent.sum() - run.agent.output) as u64), "agent_wall_ms"@);
    entry_is_before(l15, "agent_read_tokens"@, Num::Whole((run.agent.sum() - run.agent.output) as u64), "agent_cost_share_usd"@);
    entry_is_before(l16, "agent_input_tokens"@, Num::Whole(run.agent.input), "agent_wall_ms"@);
    entry_is_before(l16, "agent_input_tokens"@, Num::Whole(run.agent.input), "agent_cost_share_usd"@);
    entry_is_before(l17, "agent_output_tokens"@, Num::Whole(run.agent.output), "agent_wall_ms"@);
    entry_is_before(l17, "agent_output_tokens"@, Num::Whole(run.agent.output), "agent_cost_share_usd"@);
    entry_is_before(l18, "agent_cache_read_tokens"@, Num::Whole(run.agent.cache_read), "agent_wall_ms"@);
    entry_is_before(l18, "agent_cache_read_tokens"@, Num::Whole(run.agent.cache_read), "agent_cost_share_usd"@);
    entry_is_before(l19, "agent_cache_create_tokens"@, Num::Whole(run.agent.cache_create), "agent_wall_ms"@);
    entry_is_before(l19, "agent_cache_create_tokens"@, Num::Whole(run.agent.cache_create), "agent_cost_share_usd"@);
    entry_is_before(l20, "agent_turns"@, Num::Whole(run.turns as u64), "agent_wall_ms"@);
    entry_is_before(l20, "agent_turns"@, Num::Whole(run.turns as u64), "agent_cost_share_usd"@);
    entry_is_before(l21, "agent_tool_uses"@, Num::Whole(run.tool_uses as u64), "agent_wall_ms"@);
    entry_is_before(l21, "agent_tool_uses"@, Num::Whole(run.tool_uses as u64), "agent_cost_share_usd"@);
}

/// Each metric of an agent that is handed a reading list is of what it names; its tokens are the
/// session's.
pub proof fn a_run_with_a_list_is_measured(run: AgentRun, query: Query, table: Table<Num>) -> (sets: (
    Seq<Seq<char>>,
    Seq<Seq<char>>,
    Seq<Seq<char>>,
))
    requires
        run::is_list_agent(run, query, table),
    ensures
        lists_once(text::texts(query.wanted@), sets.0),
        lists_once(run::relied_on(run), sets.1),
        lists_once(text::texts(run.files_read@), sets.2),
        ({
            let (wanted, relied, read) = sets;
            &&& table.names().contains("recall"@) && table.at("recall"@) == run::share(among(wanted, relied), wanted.len())
            &&& table.names().contains("precision"@) && table.at("precision"@) == run::share(among(wanted, relied), relied.len())
            &&& table.names().contains("found"@) && table.at("found"@) == Num::Whole(among(wanted, relied) as u64)
            &&& table.names().contains("read_recall"@) && table.at("read_recall"@) == run::share(among(wanted, read), wanted.len())
            &&& table.names().contains("read_precision"@) && table.at("read_precision"@) == run::share(among(wanted, read), read.len())
            &&& table.names().contains("read_found"@) && table.at("read_found"@) == Num::Whole(among(wanted, read) as u64)
            &&& table.names().contains("relied_parsed"@) && table.at("relied_parsed"@) == Num::Whole(if run.files_relied is Some { 1 } else { 0 })
            &&& table.names().contains("files_relied"@) && table.at("files_relied"@) == Num::Whole(relied.len() as u64)
            &&& table.names().contains("files_opened"@) && table.at("files_opened"@) == Num::Whole(read.len() as u64)
            &&& table.names().contains("wall_ms"@) && table.at("wall_ms"@) == Num::Whole(run.wall_ms)
            &&& table.names().contains("cost_usd"@) && table.at("cost_usd"@) == Num::Double(run.cost_usd)
            &&& table.names().contains("agent_total_tokens"@) && table.at("agent_total_tokens"@) == Num::Whole((run.session.input + run.session.output + run.session.cache_read + run.session.cache_create) as u64)
            &&& table.names().contains("agent_read_tokens"@) && table.at("agent_read_tokens"@) == Num::Whole((run.session.input + run.session.cache_read + run.session.cache_create) as u64)
            &&& table.names().contains("agent_input_tokens"@) && table.at("agent_input_tokens"@) == Num::Whole(run.session.input)
            &&& table.names().contains("agent_output_tokens"@) && table.at("agent_output_tokens"@) == Num::Whole(run.session.output)
            &&& table.names().contains("agent_cache_read_tokens"@) && table.at("agent_cache_read_tokens"@) == Num::Whole(run.session.cache_read)
            &&& table.names().contains("agent_cache_create_tokens"@) && table.at("agent_cache_create_tokens"@) == Num::Whole(run.session.cache_create)
            &&& table.names().contains("parent_total_tokens"@) && table.at("parent_total_tokens"@) == Num::Whole((run.parent.input + run.parent.output + run.parent.cache_read + run.parent.cache_create) as u64)
        }),
{
    let (wanted, relied, read) = choose|
        wanted: Seq<Seq<char>>,
        relied: Seq<Seq<char>>,
        read: Seq<Seq<char>>,
    |
        #![trigger run::list_agent_list(run, wanted, relied, read)]
        gold::is_path_set(text::texts(query.wanted@), wanted) && gold::is_path_set(
            run::relied_on(run),
            relied,
        ) && gold::is_path_set(text::texts(run.files_read@), read) && run::tabulates(
            run::list_agent_list(run, wanted, relied, read),
            table,
        );
    a_path_set_lists_each_path_once(text::texts(query.wanted@), wanted);
    a_path_set_lists_each_path_once(run::relied_on(run), relied);
    a_path_set_lists_each_path_once(text::texts(run.files_read@), read);
    found_is_among(wanted, relied);
    found_is_among(wanted, read);
    names_are_told_apart();
    names_are_spelt();
    let hits = run::found(wanted, relied);
    let read_hits = run::found(wanted, read);
    let list = run::list_agent_list(run, wanted, relied, read);
    let l0 = Seq::<(Seq<char>, Num)>::empty();
    let l1 = l0.push(("recall"@, run::share(hits, wanted.len())));
    let l2 = l1.push(("precision"@, run::share(hits, relied.len())));
    let l3 = l2.push(("found"@, Num::Whole(hits as u64)));
    let l4 = l3.push(("read_recall"@, run::share(read_hits, wanted.len())));
    let l5 = l4.push(("read_precision"@, run::share(read_hits, read.len())));
    let l6 = l5.push(("read_found"@, Num::Whole(read_hits as u64)));
    let l7 = l6.push(("relied_parsed"@, Num::Whole(run::parsed(run))));
    let l8 = l7.push(("files_relied"@, Num::Whole(relied.len() as u64)));
    let l9 = l8.push(("files_opened"@, Num::Whole(read.len() as u64)));
    let l10 = l9.push(("wall_ms"@, Num::Whole(run.wall_ms)));
    let l11 = l10.push(("cost_usd"@, Num::Double(run.cost_usd)));
    let l12 = l11.push(("agent_total_tokens"@, Num::Whole(run.session.sum() as u64)));
    let l13 = l12.push(("agent_read_tokens"@, Num::Whole((run.session.sum() - run.session.output) as u64)));
    let l14 = l13.push(("agent_input_tokens"@, Num::Whole(run.session.input)));
    let l15 = l14.push(("agent_output_tokens"@, Num::Whole(run.session.output)));
    let l16 = l15.push(("agent_cache_read_tokens"@, Num::Whole(run.session.cache_read)));
    let l17 = l16.push(("agent_cache_create_tokens"@, Num::Whole(run.session.cache_create)));
    let l18 = l17.push(("parent_total_tokens"@, Num::Whole(run.parent.sum() as u64)));
    assert(list == l18);
    entry_is_the_last(l0, "recall"@, run::share(hits, wanted.len()));
    entry_is_before(l1, "precision"@, run::share(hits, relied.len()), "recall"@);
    entry_is_before(l2, "found"@, Num::Whole(hits as u64), "recall"@);
    entry_is_before(l3, "read_recall"@, run::share(read_hits, wanted.len()), "recall"@);
    entry_is_before(l4, "read_precision"@, run::share(read_hits, read.len()), "recall"@);
    entry_is_before(l5, "read_found"@, Num::Whole(read_hits as u64), "recall"@);
    entry_is_before(l6, "relied_parsed"@, Num::Whole(run::parsed(run)), "recall"@);
    entry_is_before(l7, "files_relied"@, Num::Whole(relied.len() as u64), "recall"@);
    entry_is_before(l8, "files_opened"@, Num::Whole(read.len() as u64), "recall"@);
    entry_is_before(l9, "wall_ms"@, Num::Whole(run.wall_ms), "recall"@);
    entry_is_before(l10, "cost_usd"@, Num::Double(run.cost_usd), "recall"@);
    entry_is_before(l11, "agent_total_tokens"@, Num::Whole(run.session.sum() as u64), "recall"@);
    entry_is_before(l12, "agent_read_tokens"@, Num::Whole((run.session.sum() - run.session.output) as u64), "recall"@);
    entry_is_before(l13, "agent_input_tokens"@, Num::Whole(run.session.input), "recall"@);
    entry_is_before(l14, "agent_output_tokens"@, Num::Whole(run.session.output), "recall"@);
    entry_is_before(l15, "agent_cache_read_tokens"@, Num::Whole(run.session.cache_read), "recall"@);
    entry_is_before(l16, "agent_cache_create_tokens"@, Num::Whole(run.session.cache_create), "recall"@);
    entry_is_before(l17, "parent_total_tokens"@, Num::Whole(run.parent.sum() as u64), "recall"@);
    entry_is_the_last(l1, "precision"@, run::share(hits, relied.len()));
    entry_is_before(l2, "found"@, Num::Whole(hits as u64), "precision"@);
    entry_is_before(l3, "read_recall"@, run::share(read_hits, wanted.len()), "precision"@);
    entry_is_before(l4, "read_precision"@, run::share(read_hits, read.len()), "precision"@);
    entry_is_before(l5, "read_found"@, Num::Whole(read_hits as u64), "precision"@);
    entry_is_before(l6, "relied_parsed"@, Num::Whole(run::parsed(run)), "precision"@);
    entry_is_before(l7, "files_relied"@, Num::Whole(relied.len() as u64), "precision"@);
    entry_is_before(l8, "files_opened"@, Num::Whole(read.len() as u64), "precision"@);
    entry_is_before(l9, "wall_ms"@, Num::Whole(run.wall_ms), "precision"@);
    entry_is_before(l10, "cost_usd"@, Num::Double(run.cost_usd), "precision"@);
    entry_is_before(l11, "agent_total_tokens"@, Num::Whole(run.session.sum() as u64), "precision"@);
    entry_is_before(l12, "agent_read_tokens"@, Num::Whole((run.session.sum() - run.session.output) as u64), "precision"@);
    entry_is_before(l13, "agent_input_tokens"@, Num::Whole(run.session.input), "precision"@);
    entry_is_before(l14, "agent_output_tokens"@, Num::Whole(run.session.output), "precision"@);
    entry_is_before(l15, "agent_cache_read_tokens"@, Num::Whole(run.session.cache_read), "precision"@);
    entry_is_before(l16, "agent_cache_create_tokens"@, Num::Whole(run.session.cache_create), "precision"@);
    entry_is_before(l17, "parent_total_tokens"@, Num::Whole(run.parent.sum() as u64), "precision"@);
    entry_is_the_last(l2, "found"@, Num::Whole(hits as u64));
    entry_is_before(l3, "read_recall"@, run::share(read_hits, wanted.len()), "found"@);
    entry_is_before(l4, "read_precision"@, run::share(read_hits, read.len()), "found"@);
    entry_is_before(l5, "read_found"@, Num::Whole(read_hits as u64), "found"@);
    entry_is_before(l6, "relied_parsed"@, Num::Whole(run::parsed(run)), "found"@);
    entry_is_before(l7, "files_relied"@, Num::Whole(relied.len() as u64), "found"@);
    entry_is_before(l8, "files_opened"@, Num::Whole(read.len() as u64), "found"@);
    entry_is_before(l9, "wall_ms"@, Num::Whole(run.wall_ms), "found"@);
    entry_is_before(l10, "cost_usd"@, Num::Double(run.cost_usd), "found"@);
    entry_is_before(l11, "agent_total_tokens"@, Num::Whole(run.session.sum() as u64), "found"@);
    entry_is_before(l12, "agent_read_tokens"@, Num::Whole((run.session.sum() - run.session.output) as u64), "found"@);
    entry_is_before(l13, "agent_input_tokens"@, Num::Whole(run.session.input), "found"@);
    entry_is_before(l14, "agent_output_tokens"@, Num::Whole(run.session.output), "found"@);
    entry_is_before(l15, "agent_cache_read_tokens"@, Num::Whole(run.session.cache_read), "found"@);
    entry_is_before(l16, "agent_cache_create_tokens"@, Num::Whole(run.session.cache_create), "found"@);
    entry_is_before(l17, "parent_total_tokens"@, Num::Whole(run.parent.sum() as u64), "found"@);
    entry_is_the_last(l3, "read_recall"@, run::share(read_hits, wanted.len()));
    entry_is_before(l4, "read_precision"@, run::share(read_hits, read.len()), "read_recall"@);
    entry_is_before(l5, "read_found"@, Num::Whole(read_hits as u64), "read_recall"@);
    entry_is_before(l6, "relied_parsed"@, Num::Whole(run::parsed(run)), "read_recall"@);
    entry_is_before(l7, "files_relied"@, Num::Whole(relied.len() as u64), "read_recall"@);
    entry_is_before(l8, "files_opened"@, Num::Whole(read.len() as u64), "read_recall"@);
    entry_is_before(l9, "wall_ms"@, Num::Whole(run.wall_ms), "read_recall"@);
    entry_is_before(l10, "cost_usd"@, Num::Double(run.cost_usd), "read_recall"@);
    entry_is_before(l11, "agent_total_tokens"@, Num::Whole(run.session.sum() as u64), "read_recall"@);
    entry_is_before(l12, "agent_read_tokens"@, Num::Whole((run.session.sum() - run.session.output) as u64), "read_recall"@);
    entry_is_before(l13, "agent_input_tokens"@, Num::Whole(run.session.input), "read_recall"@);
    entry_is_before(l14, "agent_output_tokens"@, Num::Whole(run.session.output), "read_recall"@);
    entry_is_before(l15, "agent_cache_read_tokens"@, Num::Whole(run.session.cache_read), "read_recall"@);
    entry_is_before(l16, "agent_cache_create_tokens"@, Num::Whole(run.session.cache_create), "read_recall"@);
    entry_is_before(l17, "parent_total_tokens"@, Num::Whole(run.parent.sum() as u64), "read_recall"@);
    entry_is_the_last(l4, "read_precision"@, run::share(read_hits, read.len()));
    entry_is_before(l5, "read_found"@, Num::Whole(read_hits as u64), "read_precision"@);
    entry_is_before(l6, "relied_parsed"@, Num::Whole(run::parsed(run)), "read_precision"@);
    entry_is_before(l7, "files_relied"@, Num::Whole(relied.len() as u64), "read_precision"@);
    entry_is_before(l8, "files_opened"@, Num::Whole(read.len() as u64), "read_precision"@);
    entry_is_before(l9, "wall_ms"@, Num::Whole(run.wall_ms), "read_precision"@);
    entry_is_before(l10, "cost_usd"@, Num::Double(run.cost_usd), "read_precision"@);
    entry_is_before(l11, "agent_total_tokens"@, Num::Whole(run.session.sum() as u64), "read_precision"@);
    entry_is_before(l12, "agent_read_tokens"@, Num::Whole((run.session.sum() - run.session.output) as u64), "read_precision"@);
    entry_is_before(l13, "agent_input_tokens"@, Num::Whole(run.session.input), "read_precision"@);
    entry_is_before(l14, "agent_output_tokens"@, Num::Whole(run.session.output), "read_precision"@);
    entry_is_before(l15, "agent_cache_read_tokens"@, Num::Whole(run.session.cache_read), "read_precision"@);
    entry_is_before(l16, "agent_cache_create_tokens"@, Num::Whole(run.session.cache_create), "read_precision"@);
    entry_is_before(l17, "parent_total_tokens"@, Num::Whole(run.parent.sum() as u64), "read_precision"@);
    entry_is_the_last(l5, "read_found"@, Num::Whole(read_hits as u64));
    entry_is_before(l6, "relied_parsed"@, Num::Whole(run::parsed(run)), "read_found"@);
    entry_is_before(l7, "files_relied"@, Num::Whole(relied.len() as u64), "read_found"@);
    entry_is_before(l8, "files_opened"@, Num::Whole(read.len() as u64), "read_found"@);
    entry_is_before(l9, "wall_ms"@, Num::Whole(run.wall_ms), "read_found"@);
    entry_is_before(l10, "cost_usd"@, Num::Double(run.cost_usd), "read_found"@);
    entry_is_before(l11, "agent_total_tokens"@, Num::Whole(run.session.sum() as u64), "read_found"@);
    entry_is_before(l12, "agent_read_tokens"@, Num::Whole((run.session.sum() - run.session.output) as u64), "read_found"@);
    entry_is_before(l13, "agent_input_tokens"@, Num::Whole(run.session.input), "read_found"@);
    entry_is_before(l14, "agent_output_tokens"@, Num::Whole(run.session.output), "read_found"@);
    entry_is_before(l15, "agent_cache_read_tokens"@, Num::Whole(run.session.cache_read), "read_found"@);
    entry_is_before(l16, "agent_cache_create_tokens"@, Num::Whole(run.session.cache_create), "read_found"@);
    entry_is_before(l17, "parent_total_tokens"@, Num::Whole(run.parent.sum() as u64), "read_found"@);
    entry_is_the_last(l6, "relied_parsed"@, Num::Whole(run::parsed(run)));
    entry_is_before(l7, "files_relied"@, Num::Whole(relied.len() as u64), "relied_parsed"@);
    entry_is_before(l8, "files_opened"@, Num::Whole(read.len() as u64), "relied_parsed"@);
    entry_is_before(l9, "wall_ms"@, Num::Whole(run.wall_ms), "relied_parsed"@);
    entry_is_before(l10, "cost_usd"@, Num::Double(run.cost_usd), "relied_parsed"@);
    entry_is_before(l11, "agent_total_tokens"@, Num::Whole(run.session.sum() as u64), "relied_parsed"@);
    entry_is_before(l12, "agent_read_tokens"@, Num::Whole((run.session.sum() - run.session.output) as u64), "relied_parsed"@);
    entry_is_before(l13, "agent_input_tokens"@, Num::Whole(run.session.input), "relied_parsed"@);
    entry_is_before(l14, "agent_output_tokens"@, Num::Whole(run.session.output), "relied_parsed"@);
    entry_is_before(l15, "agent_cache_read_tokens"@, Num::Whole(run.session.cache_read), "relied_parsed"@);
    entry_is_before(l16, "agent_cache_create_tokens"@, Num::Whole(run.session.cache_create), "relied_parsed"@);
    entry_is_before(l17, "parent_total_tokens"@, Num::Whole(run.parent.sum() as u64), "relied_parsed"@);
    entry_is_the_last(l7, "files_relied"@, Num::Whole(relied.len() as u64));
    entry_is_before(l8, "files_opened"@, Num::Whole(read.len() as u64), "files_relied"@);
    entry_is_before(l9, "wall_ms"@, Num::Whole(run.wall_ms), "files_relied"@);
    entry_is_before(l10, "cost_usd"@, Num::Double(run.cost_usd), "files_relied"@);
    entry_is_before(l11, "agent_total_tokens"@, Num::Whole(run.session.sum() as u64), "files_relied"@);
    entry_is_before(l12, "agent_read_tokens"@, Num::Whole((run.session.sum() - run.session.output) as u64), "files_relied"@);
    entry_is_before(l13, "agent_input_tokens"@, Num::Whole(run.session.input), "files_relied"@);
    entry_is_before(l14, "agent_output_tokens"@, Num::Whole(run.session.output), "files_relied"@);
    entry_is_before(l15, "agent_cache_read_tokens"@, Num::Whole(run.session.cache_read), "files_relied"@);
    entry_is_before(l16, "agent_cache_create_tokens"@, Num::Whole(run.session.cache_create), "files_relied"@);
    entry_is_before(l17, "parent_total_tokens"@, Num::Whole(run.parent.sum() as u64), "files_relied"@);
    entry_is_the_last(l8, "files_opened"@, Num::Whole(read.len() as u64));
    entry_is_before(l9, "wall_ms"@, Num::Whole(run.wall_ms), "files_opened"@);
    entry_is_before(l10, "cost_usd"@, Num::Double(run.cost_usd), "files_opened"@);
    entry_is_before(l11, "agent_total_tokens"@, Num::Whole(run.session.sum() as u64), "files_opened"@);
    entry_is_before(l12, "agent_read_tokens"@, Num::Whole((run.session.sum() - run.session.output) as u64), "files_opened"@);
    entry_is_before(l13, "agent_input_tokens"@, Num::Whole(run.session.input), "files_opened"@);
    entry_is_before(l14, "agent_output_tokens"@, Num::Whole(run.session.output), "files_opened"@);
    entry_is_before(l15, "agent_cache_read_tokens"@, Num::Whole(run.session.cache_read), "files_opened"@);
    entry_is_before(l16, "agent_cache_create_tokens"@, Num::Whole(run.session.cache_create), "files_opened"@);
    entry_is_before(l17, "parent_total_tokens"@, Num::Whole(run.parent.sum() as u64), "files_opened"@);
    entry_is_the_last(l9, "wall_ms"@, Num::Whole(run.wall_ms));
    entry_is_before(l10, "cost_usd"@, Num::Double(run.cost_usd), "wall_ms"@);
    entry_is_before(l11, "agent_total_tokens"@, Num::Whole(run.session.sum() as u64), "wall_ms"@);
    entry_is_before(l12, "agent_read_tokens"@, Num::Whole((run.session.sum() - run.session.output) as u64), "wall_ms"@);
    entry_is_before(l13, "agent_input_tokens"@, Num::Whole(run.session.input), "wall_ms"@);
    entry_is_before(l14, "agent_output_tokens"@, Num::Whole(run.session.output), "wall_ms"@);
    entry_is_before(l15, "agent_cache_read_tokens"@, Num::Whole(run.session.cache_read), "wall_ms"@);
    entry_is_before(l16, "agent_cache_create_tokens"@, Num::Whole(run.session.cache_create), "wall_ms"@);
    entry_is_before(l17, "parent_total_tokens"@, Num::Whole(run.parent.sum() as u64), "wall_ms"@);
    entry_is_the_last(l10, "cost_usd"@, Num::Double(run.cost_usd));
    entry_is_before(l11, "agent_total_tokens"@, Num::Whole(run.session.sum() as u64), "cost_usd"@);
    entry_is_before(l12, "agent_read_tokens"@, Num::Whole((run.session.sum() - run.session.output) as u64), "cost_usd"@);
    entry_is_before(l13, "agent_input_tokens"@, Num::Whole(run.session.input), "cost_usd"@);
    entry_is_before(l14, "agent_output_tokens"@, Num::Whole(run.session.output), "cost_usd"@);
    entry_is_before(l15, "agent_cache_read_tokens"@, Num::Whole(run.session.cache_read), "cost_usd"@);
    entry_is_before(l16, "agent_cache_create_tokens"@, Num::Whole(run.session.cache_create), "cost_usd"@);
    entry_is_before(l17, "parent_total_tokens"@, Num::Whole(run.parent.sum() as u64), "cost_usd"@);
    entry_is_the_last(l11, "agent_total_tokens"@, Num::Whole(run.session.sum() as u64));
    entry_is_before(l12, "agent_read_tokens"@, Num::Whole((run.session.sum() - run.session.output) as u64), "agent_total_tokens"@);
    entry_is_before(l13, "agent_input_tokens"@, Num::Whole(run.session.input), "agent_total_tokens"@);
    entry_is_before(l14, "agent_output_tokens"@, Num::Whole(run.session.output), "agent_total_tokens"@);
    entry_is_before(l15, "agent_cache_read_tokens"@, Num::Whole(run.session.cache_read), "agent_total_tokens"@);
    entry_is_before(l16, "agent_cache_create_tokens"@, Num::Whole(run.session.cache_create), "agent_total_tokens"@);
    entry_is_before(l17, "parent_total_tokens"@, Num::Whole(run.parent.sum() as u64), "agent_total_tokens"@);
    entry_is_the_last(l12, "agent_read_tokens"@, Num::Whole((run.session.sum() - run.session.output) as u64));
    entry_is_before(l13, "agent_input_tokens"@, Num::Whole(run.session.input), "agent_read_tokens"@);
    entry_is_before(l14, "agent_output_tokens"@, Num::Whole(run.session.output), "agent_read_tokens"@);
    entry_is_before(l15, "agent_cache_read_tokens"@, Num::Whole(run.session.cache_read), "agent_read_tokens"@);
    entry_is_before(l16, "agent_cache_create_tokens"@, Num::Whole(run.session.cache_create), "agent_read_tokens"@);
    entry_is_before(l17, "parent_total_tokens"@, Num::Whole(run.parent.sum() as u64), "agent_read_tokens"@);
    entry_is_the_last(l13, "agent_input_tokens"@, Num::Whole(run.session.input));
    entry_is_before(l14, "agent_output_tokens"@, Num::Whole(run.session.output), "agent_input_tokens"@);
    entry_is_before(l15, "agent_cache_read_tokens"@, Num::Whole(run.session.cache_read), "agent_input_tokens"@);
    entry_is_before(l16, "agent_cache_create_tokens"@, Num::Whole(run.session.cache_create), "agent_input_tokens"@);
    entry_is_before(l17, "parent_total_tokens"@, Num::Whole(run.parent.sum() as u64), "agent_input_tokens"@);
    entry_is_the_last(l14, "agent_output_tokens"@, Num::Whole(run.session.output));
    entry_is_before(l15, "agent_cache_read_tokens"@, Num::Whole(run.session.cache_read), "agent_output_tokens"@);
    entry_is_before(l16, "agent_cache_create_tokens"@, Num::Whole(run.session.cache_create), "agent_output_tokens"@);
    entry_is_before(l17, "parent_total_tokens"@, Num::Whole(run.parent.sum() as u64), "agent_output_tokens"@);
    entry_is_the_last(l15, "agent_cache_read_tokens"@, Num::Whole(run.session.cache_read));
    entry_is_before(l16, "agent_cache_create_tokens"@, Num::Whole(run.session.cache_create), "agent_cache_read_tokens"@);
    entry_is_before(l17, "parent_total_tokens"@, Num::Whole(run.parent.sum() as u64), "agent_cache_read_tokens"@);
    entry_is_the_last(l16, "agent_cache_create_tokens"@, Num::Whole(run.session.cache_create));
    entry_is_before(l17, "parent_total_tokens"@, Num::Whole(run.parent.sum() as u64), "agent_cache_create_tokens"@);
    entry_is_the_last(l17, "parent_total_tokens"@, Num::Whole(run.parent.sum() as u64));
    assert(run::entry(list, "recall"@) is Some);
    assert(run::entry(list, "precision"@) is Some);
    assert(run::entry(list, "found"@) is Some);
    assert(run::entry(list, "read_recall"@) is Some);
    assert(run::entry(list, "read_precision"@) is Some);
    assert(run::entry(list, "read_found"@) is Some);
    assert(run::entry(list, "relied_parsed"@) is Some);
    assert(run::entry(list, "files_relied"@) is Some);
    assert(run::entry(list, "files_opened"@) is Some);
    assert(run::entry(list, "wall_ms"@) is Some);
    assert(run::entry(list, "cost_usd"@) is Some);
    assert(run::entry(list, "agent_total_tokens"@) is Some);
    assert(run::entry(list, "agent_read_tokens"@) is Some);
    assert(run::entry(list, "agent_input_tokens"@) is Some);
    assert(run::entry(list, "agent_output_tokens"@) is Some);
    assert(run::entry(list, "agent_cache_read_tokens"@) is Some);
    assert(run::entry(list, "agent_cache_create_tokens"@) is Some);
    assert(run::entry(list, "parent_total_tokens"@) is Some);
    (wanted, relied, read)
}

/// Each metric of a walk is of what it names: recall, precision and what was found of the files it
/// returned, what there is to read, the time, and what was bought; a walk on stored answers costs
/// nothing.
pub proof fn a_walk_is_measured(
    reading: Reading,
    query: Query,
    wall_ms: u64,
    spent: Option<(u64, u64)>,
    table: Table<Num>,
) -> (sets: (Seq<Seq<char>>, Seq<Seq<char>>))
    requires
        run::is_walk(reading, query, wall_ms, spent, table),
    ensures
        lists_once(text::texts(query.wanted@), sets.0),
        lists_once(text::texts(reading.files@), sets.1),
        ({
            let (wanted, returned) = sets;
            &&& table.names().contains("recall"@) && table.at("recall"@) == run::share(among(wanted, returned), wanted.len())
            &&& table.names().contains("precision"@) && table.at("precision"@) == run::share(among(wanted, returned), returned.len())
            &&& table.names().contains("found"@) && table.at("found"@) == Num::Whole(among(wanted, returned) as u64)
            &&& table.names().contains("files_opened"@) && table.at("files_opened"@) == Num::Whole(returned.len() as u64)
            &&& table.names().contains("files_visited"@) && table.at("files_visited"@) == Num::Whole(reading.visited as u64)
            &&& table.names().contains("agent_read_tokens"@) && table.at("agent_read_tokens"@) == Num::Whole(reading.read_tokens as u64)
            &&& table.names().contains("wall_ms"@) && table.at("wall_ms"@) == Num::Whole(wall_ms)
            &&& table.names().contains("jev_calls"@) && table.at("jev_calls"@) == Num::Whole(reading.calls)
            &&& match spent {
                Some((input, output)) => {
                    &&& table.at("jev_input_tokens"@) == Num::Whole(input)
                    &&& table.at("jev_output_tokens"@) == Num::Whole(output)
                    &&& table.at("jev_cost_usd"@) == run::price(input)
                    &&& table.at("cost_usd"@) == run::price(input)
                    &&& table.names().contains("jev_input_tokens"@)
                    &&& table.names().contains("jev_output_tokens"@)
                    &&& table.names().contains("jev_cost_usd"@)
                },
                None => table.at("cost_usd"@) == Num::Whole(0),
            }
            &&& table.names().contains("cost_usd"@)
        }),
{
    let (wanted, returned) = choose|wanted: Seq<Seq<char>>, returned: Seq<Seq<char>>|
        #![trigger run::walk_list(reading, wall_ms, spent, wanted, returned)]
        gold::is_path_set(text::texts(query.wanted@), wanted) && gold::is_path_set(
            text::texts(reading.files@),
            returned,
        ) && run::tabulates(
            run::walk_list(reading, wall_ms, spent, wanted, returned),
            table,
        );
    a_path_set_lists_each_path_once(text::texts(query.wanted@), wanted);
    a_path_set_lists_each_path_once(text::texts(reading.files@), returned);
    found_is_among(wanted, returned);
    match spent {
        Some((input, output)) => {
            priced_walk(reading, wall_ms, input, output, wanted, returned);
        },
        None => {
            free_walk(reading, wall_ms, wanted, returned);
        },
    }
    let list = run::walk_list(reading, wall_ms, spent, wanted, returned);
    assert(run::entry(list, "recall"@) is Some);
    assert(run::entry(list, "precision"@) is Some);
    assert(run::entry(list, "found"@) is Some);
    assert(run::entry(list, "files_opened"@) is Some);
    assert(run::entry(list, "files_visited"@) is Some);
    assert(run::entry(list, "agent_read_tokens"@) is Some);
    assert(run::entry(list, "wall_ms"@) is Some);
    assert(run::entry(list, "jev_calls"@) is Some);
    assert(run::entry(list, "cost_usd"@) is Some);
    if spent is Some {
        assert(run::entry(list, "jev_input_tokens"@) is Some);
        assert(run::entry(list, "jev_output_tokens"@) is Some);
        assert(run::entry(list, "jev_cost_usd"@) is Some);
    }
    (wanted, returned)
}

proof fn priced_walk(
    reading: Reading,
    wall_ms: u64,
    input: u64,
    output: u64,
    wanted: Seq<Seq<char>>,
    returned: Seq<Seq<char>>,
)
    ensures
        ({
            let hits = run::found(wanted, returned);
            let list = run::walk_list(reading, wall_ms, Some((input, output)), wanted, returned);
            &&& run::entry(list, "recall"@) == Some(run::share(hits, wanted.len()))
            &&& run::entry(list, "precision"@) == Some(run::share(hits, returned.len()))
            &&& run::entry(list, "found"@) == Some(Num::Whole(hits as u64))
            &&& run::entry(list, "files_opened"@) == Some(Num::Whole(returned.len() as u64))
            &&& run::entry(list, "files_visited"@) == Some(Num::Whole(reading.visited as u64))
            &&& run::entry(list, "agent_read_tokens"@) == Some(Num::Whole(reading.read_tokens as u64))
            &&& run::entry(list, "wall_ms"@) == Some(Num::Whole(wall_ms))
            &&& run::entry(list, "jev_calls"@) == Some(Num::Whole(reading.calls))
            &&& run::entry(list, "jev_input_tokens"@) == Some(Num::Whole(input))
            &&& run::entry(list, "jev_output_tokens"@) == Some(Num::Whole(output))
            &&& run::entry(list, "jev_cost_usd"@) == Some(run::price(input))
            &&& run::entry(list, "cost_usd"@) == Some(run::price(input))
        }),
{
    names_are_told_apart();
    names_are_spelt();
    let hits = run::found(wanted, returned);
    let list = run::walk_list(reading, wall_ms, Some((input, output)), wanted, returned);
    let l0 = Seq::<(Seq<char>, Num)>::empty();
    let l1 = l0.push(("recall"@, run::share(hits, wanted.len())));
    let l2 = l1.push(("precision"@, run::share(hits, returned.len())));
    let l3 = l2.push(("found"@, Num::Whole(hits as u64)));
    let l4 = l3.push(("files_opened"@, Num::Whole(returned.len() as u64)));
    let l5 = l4.push(("files_visited"@, Num::Whole(reading.visited as u64)));
    let l6 = l5.push(("agent_read_tokens"@, Num::Whole(reading.read_tokens as u64)));
    let l7 = l6.push(("wall_ms"@, Num::Whole(wall_ms)));
    let l8 = l7.push(("jev_calls"@, Num::Whole(reading.calls)));
    let l9 = l8.push(("jev_input_tokens"@, Num::Whole(input)));
    let l10 = l9.push(("jev_output_tokens"@, Num::Whole(output)));
    let l11 = l10.push(("jev_cost_usd"@, run::price(input)));
    let l12 = l11.push(("cost_usd"@, run::price(input)));
    assert(list == l12);
    entry_is_the_last(l0, "recall"@, run::share(hits, wanted.len()));
    entry_is_before(l1, "precision"@, run::share(hits, returned.len()), "recall"@);
    entry_is_before(l2, "found"@, Num::Whole(hits as u64), "recall"@);
    entry_is_before(l3, "files_opened"@, Num::Whole(returned.len() as u64), "recall"@);
    entry_is_before(l4, "files_visited"@, Num::Whole(reading.visited as u64), "recall"@);
    entry_is_before(l5, "agent_read_tokens"@, Num::Whole(reading.read_tokens as u64), "recall"@);
    entry_is_before(l6, "wall_ms"@, Num::Whole(wall_ms), "recall"@);
    entry_is_before(l7, "jev_calls"@, Num::Whole(reading.calls), "recall"@);
    entry_is_before(l8, "jev_input_tokens"@, Num::Whole(input), "recall"@);
    entry_is_before(l9, "jev_output_tokens"@, Num::Whole(output), "recall"@);
    entry_is_before(l10, "jev_cost_usd"@, run::price(input), "recall"@);
    entry_is_before(l11, "cost_usd"@, run::price(input), "recall"@);
    entry_is_the_last(l1, "precision"@, run::share(hits, returned.len()));
    entry_is_before(l2, "found"@, Num::Whole(hits as u64), "precision"@);
    entry_is_before(l3, "files_opened"@, Num::Whole(returned.len() as u64), "precision"@);
    entry_is_before(l4, "files_visited"@, Num::Whole(reading.visited as u64), "precision"@);
    entry_is_before(l5, "agent_read_tokens"@, Num::Whole(reading.read_tokens as u64), "precision"@);
    entry_is_before(l6, "wall_ms"@, Num::Whole(wall_ms), "precision"@);
    entry_is_before(l7, "jev_calls"@, Num::Whole(reading.calls), "precision"@);
    entry_is_before(l8, "jev_input_tokens"@, Num::Whole(input), "precision"@);
    entry_is_before(l9, "jev_output_tokens"@, Num::Whole(output), "precision"@);
    entry_is_before(l10, "jev_cost_usd"@, run::price(input), "precision"@);
    entry_is_before(l11, "cost_usd"@, run::price(input), "precision"@);
    entry_is_the_last(l2, "found"@, Num::Whole(hits as u64));
    entry_is_before(l3, "files_opened"@, Num::Whole(returned.len() as u64), "found"@);
    entry_is_before(l4, "files_visited"@, Num::Whole(reading.visited as u64), "found"@);
    entry_is_before(l5, "agent_read_tokens"@, Num::Whole(reading.read_tokens as u64), "found"@);
    entry_is_before(l6, "wall_ms"@, Num::Whole(wall_ms), "found"@);
    entry_is_before(l7, "jev_calls"@, Num::Whole(reading.calls), "found"@);
    entry_is_before(l8, "jev_input_tokens"@, Num::Whole(input), "found"@);
    entry_is_before(l9, "jev_output_tokens"@, Num::Whole(output), "found"@);
    entry_is_before(l10, "jev_cost_usd"@, run::price(input), "found"@);
    entry_is_before(l11, "cost_usd"@, run::price(input), "found"@);
    entry_is_the_last(l3, "files_opened"@, Num::Whole(returned.len() as u64));
    entry_is_before(l4, "files_visited"@, Num::Whole(reading.visited as u64), "files_opened"@);
    entry_is_before(l5, "agent_read_tokens"@, Num::Whole(reading.read_tokens as u64), "files_opened"@);
    entry_is_before(l6, "wall_ms"@, Num::Whole(wall_ms), "files_opened"@);
    entry_is_before(l7, "jev_calls"@, Num::Whole(reading.calls), "files_opened"@);
    entry_is_before(l8, "jev_input_tokens"@, Num::Whole(input), "files_opened"@);
    entry_is_before(l9, "jev_output_tokens"@, Num::Whole(output), "files_opened"@);
    entry_is_before(l10, "jev_cost_usd"@, run::price(input), "files_opened"@);
    entry_is_before(l11, "cost_usd"@, run::price(input), "files_opened"@);
    entry_is_the_last(l4, "files_visited"@, Num::Whole(reading.visited as u64));
    entry_is_before(l5, "agent_read_tokens"@, Num::Whole(reading.read_tokens as u64), "files_visited"@);
    entry_is_before(l6, "wall_ms"@, Num::Whole(wall_ms), "files_visited"@);
    entry_is_before(l7, "jev_calls"@, Num::Whole(reading.calls), "files_visited"@);
    entry_is_before(l8, "jev_input_tokens"@, Num::Whole(input), "files_visited"@);
    entry_is_before(l9, "jev_output_tokens"@, Num::Whole(output), "files_visited"@);
    entry_is_before(l10, "jev_cost_usd"@, run::price(input), "files_visited"@);
    entry_is_before(l11, "cost_usd"@, run::price(input), "files_visited"@);
    entry_is_the_last(l5, "agent_read_tokens"@, Num::Whole(reading.read_tokens as u64));
    entry_is_before(l6, "wall_ms"@, Num::Whole(wall_ms), "agent_read_tokens"@);
    entry_is_before(l7, "jev_calls"@, Num::Whole(reading.calls), "agent_read_tokens"@);
    entry_is_before(l8, "jev_input_tokens"@, Num::Whole(input), "agent_read_tokens"@);
    entry_is_before(l9, "jev_output_tokens"@, Num::Whole(output), "agent_read_tokens"@);
    entry_is_before(l10, "jev_cost_usd"@, run::price(input), "agent_read_tokens"@);
    entry_is_before(l11, "cost_usd"@, run::price(input), "agent_read_tokens"@);
    entry_is_the_last(l6, "wall_ms"@, Num::Whole(wall_ms));
    entry_is_before(l7, "jev_calls"@, Num::Whole(reading.calls), "wall_ms"@);
    entry_is_before(l8, "jev_input_tokens"@, Num::Whole(input), "wall_ms"@);
    entry_is_before(l9, "jev_output_tokens"@, Num::Whole(output), "wall_ms"@);
    entry_is_before(l10, "jev_cost_usd"@, run::price(input), "wall_ms"@);
    entry_is_before(l11, "cost_usd"@, run::price(input), "wall_ms"@);
    entry_is_the_last(l7, "jev_calls"@, Num::Whole(reading.calls));
    entry_is_before(l8, "jev_input_tokens"@, Num::Whole(input), "jev_calls"@);
    entry_is_before(l9, "jev_output_tokens"@, Num::Whole(output), "jev_calls"@);
    entry_is_before(l10, "jev_cost_usd"@, run::price(input), "jev_calls"@);
    entry_is_before(l11, "cost_usd"@, run::price(input), "jev_calls"@);
    entry_is_the_last(l8, "jev_input_tokens"@, Num::Whole(input));
    entry_is_before(l9, "jev_output_tokens"@, Num::Whole(output), "jev_input_tokens"@);
    entry_is_before(l10, "jev_cost_usd"@, run::price(input), "jev_input_tokens"@);
    entry_is_before(l11, "cost_usd"@, run::price(input), "jev_input_tokens"@);
    entry_is_the_last(l9, "jev_output_tokens"@, Num::Whole(output));
    entry_is_before(l10, "jev_cost_usd"@, run::price(input), "jev_output_tokens"@);
    entry_is_before(l11, "cost_usd"@, run::price(input), "jev_output_tokens"@);
    entry_is_the_last(l10, "jev_cost_usd"@, run::price(input));
    entry_is_before(l11, "cost_usd"@, run::price(input), "jev_cost_usd"@);
    entry_is_the_last(l11, "cost_usd"@, run::price(input));
}

proof fn free_walk(
    reading: Reading,
    wall_ms: u64,
    wanted: Seq<Seq<char>>,
    returned: Seq<Seq<char>>,
)
    ensures
        ({
            let hits = run::found(wanted, returned);
            let list = run::walk_list(reading, wall_ms, None, wanted, returned);
            &&& run::entry(list, "recall"@) == Some(run::share(hits, wanted.len()))
            &&& run::entry(list, "precision"@) == Some(run::share(hits, returned.len()))
            &&& run::entry(list, "found"@) == Some(Num::Whole(hits as u64))
            &&& run::entry(list, "files_opened"@) == Some(Num::Whole(returned.len() as u64))
            &&& run::entry(list, "files_visited"@) == Some(Num::Whole(reading.visited as u64))
            &&& run::entry(list, "agent_read_tokens"@) == Some(Num::Whole(reading.read_tokens as u64))
            &&& run::entry(list, "wall_ms"@) == Some(Num::Whole(wall_ms))
            &&& run::entry(list, "jev_calls"@) == Some(Num::Whole(reading.calls))
            &&& run::entry(list, "cost_usd"@) == Some(Num::Whole(0))
        }),
{
    names_are_told_apart();
    names_are_spelt();
    let hits = run::found(wanted, returned);
    let list = run::walk_list(reading, wall_ms, None, wanted, returned);
    let l0 = Seq::<(Seq<char>, Num)>::empty();
    let l1 = l0.push(("recall"@, run::share(hits, wanted.len())));
    let l2 = l1.push(("precision"@, run::share(hits, returned.len())));
    let l3 = l2.push(("found"@, Num::Whole(hits as u64)));
    let l4 = l3.push(("files_opened"@, Num::Whole(returned.len() as u64)));
    let l5 = l4.push(("files_visited"@, Num::Whole(reading.visited as u64)));
    let l6 = l5.push(("agent_read_tokens"@, Num::Whole(reading.read_tokens as u64)));
    let l7 = l6.push(("wall_ms"@, Num::Whole(wall_ms)));
    let l8 = l7.push(("jev_calls"@, Num::Whole(reading.calls)));
    let l9 = l8.push(("cost_usd"@, Num::Whole(0)));
    assert(list == l9);
    entry_is_the_last(l0, "recall"@, run::share(hits, wanted.len()));
    entry_is_before(l1, "precision"@, run::share(hits, returned.len()), "recall"@);
    entry_is_before(l2, "found"@, Num::Whole(hits as u64), "recall"@);
    entry_is_before(l3, "files_opened"@, Num::Whole(returned.len() as u64), "recall"@);
    entry_is_before(l4, "files_visited"@, Num::Whole(reading.visited as u64), "recall"@);
    entry_is_before(l5, "agent_read_tokens"@, Num::Whole(reading.read_tokens as u64), "recall"@);
    entry_is_before(l6, "wall_ms"@, Num::Whole(wall_ms), "recall"@);
    entry_is_before(l7, "jev_calls"@, Num::Whole(reading.calls), "recall"@);
    entry_is_before(l8, "cost_usd"@, Num::Whole(0), "recall"@);
    entry_is_the_last(l1, "precision"@, run::share(hits, returned.len()));
    entry_is_before(l2, "found"@, Num::Whole(hits as u64), "precision"@);
    entry_is_before(l3, "files_opened"@, Num::Whole(returned.len() as u64), "precision"@);
    entry_is_before(l4, "files_visited"@, Num::Whole(reading.visited as u64), "precision"@);
    entry_is_before(l5, "agent_read_tokens"@, Num::Whole(reading.read_tokens as u64), "precision"@);
    entry_is_before(l6, "wall_ms"@, Num::Whole(wall_ms), "precision"@);
    entry_is_before(l7, "jev_calls"@, Num::Whole(reading.calls), "precision"@);
    entry_is_before(l8, "cost_usd"@, Num::Whole(0), "precision"@);
    entry_is_the_last(l2, "found"@, Num::Whole(hits as u64));
    entry_is_before(l3, "files_opened"@, Num::Whole(returned.len() as u64), "found"@);
    entry_is_before(l4, "files_visited"@, Num::Whole(reading.visited as u64), "found"@);
    entry_is_before(l5, "agent_read_tokens"@, Num::Whole(reading.read_tokens as u64), "found"@);
    entry_is_before(l6, "wall_ms"@, Num::Whole(wall_ms), "found"@);
    entry_is_before(l7, "jev_calls"@, Num::Whole(reading.calls), "found"@);
    entry_is_before(l8, "cost_usd"@, Num::Whole(0), "found"@);
    entry_is_the_last(l3, "files_opened"@, Num::Whole(returned.len() as u64));
    entry_is_before(l4, "files_visited"@, Num::Whole(reading.visited as u64), "files_opened"@);
    entry_is_before(l5, "agent_read_tokens"@, Num::Whole(reading.read_tokens as u64), "files_opened"@);
    entry_is_before(l6, "wall_ms"@, Num::Whole(wall_ms), "files_opened"@);
    entry_is_before(l7, "jev_calls"@, Num::Whole(reading.calls), "files_opened"@);
    entry_is_before(l8, "cost_usd"@, Num::Whole(0), "files_opened"@);
    entry_is_the_last(l4, "files_visited"@, Num::Whole(reading.visited as u64));
    entry_is_before(l5, "agent_read_tokens"@, Num::Whole(reading.read_tokens as u64), "files_visited"@);
    entry_is_before(l6, "wall_ms"@, Num::Whole(wall_ms), "files_visited"@);
    entry_is_before(l7, "jev_calls"@, Num::Whole(reading.calls), "files_visited"@);
    entry_is_before(l8, "cost_usd"@, Num::Whole(0), "files_visited"@);
    entry_is_the_last(l5, "agent_read_tokens"@, Num::Whole(reading.read_tokens as u64));
    entry_is_before(l6, "wall_ms"@, Num::Whole(wall_ms), "agent_read_tokens"@);
    entry_is_before(l7, "jev_calls"@, Num::Whole(reading.calls), "agent_read_tokens"@);
    entry_is_before(l8, "cost_usd"@, Num::Whole(0), "agent_read_tokens"@);
    entry_is_the_last(l6, "wall_ms"@, Num::Whole(wall_ms));
    entry_is_before(l7, "jev_calls"@, Num::Whole(reading.calls), "wall_ms"@);
    entry_is_before(l8, "cost_usd"@, Num::Whole(0), "wall_ms"@);
    entry_is_the_last(l7, "jev_calls"@, Num::Whole(reading.calls));
    entry_is_before(l8, "cost_usd"@, Num::Whole(0), "jev_calls"@);
    entry_is_the_last(l8, "cost_usd"@, Num::Whole(0));
}

/// A run of an agent is what its stream and its transcript say: the subagent's own tokens, files,
/// turns, tools and model where its transcript was read, and the session's where none was.
pub proof fn a_run_is_what_was_reported(
    summary: StreamSummary,
    transcript: Option<TranscriptSummary>,
    relied: Option<Seq<Seq<char>>>,
    wall_ms: u64,
    found: AgentRun,
)
    requires
        run::is_agent_run(summary, transcript, relied, wall_ms, found),
    ensures
        found.wall_ms == wall_ms,
        found.cost_usd == summary.cost_usd,
        found.parent == summary.parent_total,
        found.session == summary.session_total,
        found.parent_tool_uses == summary.parent_tool_uses,
        relied matches Some(files) ==> run::relied_on(found) == files && found.files_relied is Some,
        relied is None ==> found.files_relied is None && run::relied_on(found).len() == 0,
        summary.tasks.len() == 0 ==> found.agent_wall_ms is None,
        summary.tasks.len() > 0 ==> found.agent_wall_ms == summary.tasks@[0].duration_ms,
        transcript matches Some(own) ==> found.agent == own.usage && found.turns == own.turns
            && found.tool_uses == own.tool_uses && found.model == own.model && text::texts(
            found.files_read@,
        ) == text::texts(own.files_read@),
        transcript is None ==> found.agent == summary.session_total && found.turns == 0
            && found.tool_uses == summary.parent_tool_uses && found.model == summary.model
            && text::texts(found.files_read@) == text::texts(summary.parent_files_read@),
{
}

} // verus!
