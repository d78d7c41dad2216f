//! Making the parent delegate.
//!
//! The Explore condition measures a subagent, so the parent must not do the exploring. A hook that
//! refuses a call that names a tool and has no `agent_type` in it refuses exactly the parent's own reads.

use vstd::prelude::*;

use crate::json;

verus! {

/// The tools the parent is not allowed to use itself, as a hook matcher.
pub const BLOCKED: &'static str = "Read|Glob|Grep";

/// What the model is told when its call is blocked.
pub const REASON: &'static str = "the parent must delegate to the Explore agent";

pub const BEFORE_AGENT: &'static str = "#!/bin/sh\n# Written by eval-agent. ";

pub const BEFORE_BLOCKED: &'static str = " runs this before every ";

pub const BEFORE_REASON: &'static str =
    "\n# call and hands it the call as JSON on stdin. A subagent's call has an\n# `agent_type`; the parent's has none, and only the parent is refused.\n# What names no tool is no call this can make sense of, and is allowed.\n# Exit 2 blocks the call and gives the model the reason below.\ncall=$(cat)\nif printf '%s\\n' \"$call\" | grep -q '\"agent_type\"[[:space:]]*:[[:space:]]*\"' ; then\n\texit 0\nfi\nif ! printf '%s\\n' \"$call\" | grep -q '\"tool_name\"[[:space:]]*:[[:space:]]*\"' ; then\n\texit 0\nfi\necho '";

pub const AFTER_REASON: &'static str = "' >&2\nexit 2\n";

/// What the hook script says, for the agents of the program named `agent`.
pub open spec fn script_text(agent: Seq<char>) -> Seq<char> {
    BEFORE_AGENT@ + agent + BEFORE_BLOCKED@ + BLOCKED@ + BEFORE_REASON@ + REASON@ + AFTER_REASON@
}

/// The hook script: POSIX shell and `grep`, so it needs nothing installed.
///
/// A subagent's call carries `agent_type`; the parent's names its tool and does not. Anything the
/// script cannot make sense of, such as what names no tool, is allowed, because a hook that fails
/// closed would block the subagent too and measure nothing.
pub fn script(agent: &str) -> (text: String)
    ensures
        text@ == script_text(agent@),
{
    let mut text: String = BEFORE_AGENT.to_owned();
    text.append(agent);
    text.append(BEFORE_BLOCKED);
    text.append(BLOCKED);
    text.append(BEFORE_REASON);
    text.append(REASON);
    text.append(AFTER_REASON);
    text
}

pub const BEFORE_MATCHER: &'static str = "{\"hooks\":{\"PreToolUse\":[{\"matcher\":";

pub const BEFORE_COMMAND: &'static str = ",\"hooks\":[{\"type\":\"command\",\"command\":";

pub const AFTER_COMMAND: &'static str = "}]}]}}";

/// The settings that install a script as a hook before each of the tools the parent may not use.
pub open spec fn settings_text(script: Seq<char>) -> Seq<char> {
    BEFORE_MATCHER@ + json::json_quoted(BLOCKED@) + BEFORE_COMMAND@ + json::json_quoted(script)
        + AFTER_COMMAND@
}

/// The settings that install a script, as a JSON text.
pub fn settings(script: &str) -> (text: String)
    ensures
        text@ == settings_text(script@),
{
    let mut text: String = BEFORE_MATCHER.to_owned();
    text.append(json::quote(BLOCKED).as_str());
    text.append(BEFORE_COMMAND);
    text.append(json::quote(script).as_str());
    text.append(AFTER_COMMAND);
    text
}

/// The settings for a condition with no subagent: no hooks.
pub const PLAIN: &'static str = "{}\n";

} // verus!
