//! One measured run.
//!
//! A row is deliberately in two halves. The keys, the model that answered and the metrics are
//! numbers and labels a report may print. Everything else is detail: the query as it was asked,
//! the files an agent opened, the command that was run. Nothing downstream reads the detail.

use vstd::prelude::*;

use crate::json;
use crate::ordered::Table;
use crate::text;

verus! {

/// The conditions a run can measure, as a caller spells them. `s1m-t<N>`, s1m at threshold N, is
/// accepted too, and is not a fixed name.
pub const CONDITIONS: [&'static str; 3] = ["explore", "s1m", "s1m-agent"];

/// A figure as a threshold is written: digits, with at most one point among them.
pub open spec fn is_figure(s: Seq<char>) -> bool {
    &&& exists|i: int| 0 <= i < s.len() && is_digit(#[trigger] s[i])
    &&& forall|i: int| 0 <= i < s.len() ==> is_digit(#[trigger] s[i]) || s[i] == '.'
    &&& forall|i: int, j: int|
        0 <= i < j < s.len() ==> !(#[trigger] s[i] == '.' && #[trigger] s[j] == '.')
}

pub open spec fn is_digit(c: char) -> bool {
    '0' <= c <= '9'
}

/// The threshold that a condition names, where it is s1m at one.
pub open spec fn threshold_named(condition: Seq<char>) -> Option<Seq<char>> {
    let rest = condition.skip(5);
    if text::stands_at(condition, "s1m-t"@, 0) && is_figure(rest) {
        Some(rest)
    } else {
        None
    }
}

/// The threshold that a condition names, as it is spelled.
pub fn threshold_of(condition: &str) -> (threshold: Option<String>)
    ensures
        json::text_of(threshold) == threshold_named(condition@),
{
    let all: Vec<char> = text::chars(condition);
    let prefix: Vec<char> = text::chars("s1m-t");
    proof {
        reveal_strlit("s1m-t");
    }
    if !text::is_at(&all, &prefix, 0) {
        return None;
    }
    let ghost rest = condition@.skip(5);
    let mut digits: bool = false;
    let mut point: bool = false;
    for at in 5..all.len()
        invariant
            all@ == condition@,
            rest == condition@.skip(5),
            5 <= all.len(),
            digits == exists|i: int| 0 <= i < at - 5 && is_digit(#[trigger] rest[i]),
            point == exists|i: int| 0 <= i < at - 5 && #[trigger] rest[i] == '.',
            forall|i: int| 0 <= i < at - 5 ==> is_digit(#[trigger] rest[i]) || rest[i] == '.',
            forall|i: int, j: int|
                0 <= i < j < at - 5 ==> !(#[trigger] rest[i] == '.' && #[trigger] rest[j] == '.'),
            text::stands_at(condition@, "s1m-t"@, 0),
    {
        let c: char = all[at];
        assert(c == rest[at - 5]);
        if '0' <= c && c <= '9' {
            digits = true;
        } else if c == '.' && !point {
            point = true;
        } else {
            return None;
        }
    }
    if digits {
        let figure: String = text::string(&all, 5, all.len());
        assert(figure@ =~= rest);
        Some(figure)
    } else {
        None
    }
}

/// Whether a condition runs an agent: the two whose runs are measured on what a model read and
/// answered, and so the two whose rows carry a model.
pub open spec fn runs_an_agent(condition: Seq<char>) -> bool {
    condition == "explore"@ || condition == "s1m-agent"@
}

pub fn agent_condition(condition: &str) -> (yes: bool)
    ensures
        yes == runs_an_agent(condition@),
{
    text::same(condition, "explore") || text::same(condition, "s1m-agent")
}

/// What identifies a run: the revision of the wiki it was measured against, and the query,
/// condition and repeat.
///
/// The revision is in the key rather than beside it because a wiki that has changed makes a
/// different measurement.
pub struct Key {
    /// The wiki revision, empty on a row written before one was recorded.
    pub wiki: String,
    pub query: String,
    pub condition: String,
    pub repeat: usize,
}

/// What a key says.
#[verifier::ext_equal]
pub struct KeyView {
    pub wiki: Seq<char>,
    pub query: Seq<char>,
    pub condition: Seq<char>,
    pub repeat: usize,
}

impl View for Key {
    type V = KeyView;

    open spec fn view(&self) -> KeyView {
        KeyView {
            wiki: self.wiki@,
            query: self.query@,
            condition: self.condition@,
            repeat: self.repeat,
        }
    }
}

impl Key {
    /// The same key once more.
    pub fn again(&self) -> (key: Key)
        ensures
            key@ == self@,
    {
        Key {
            wiki: self.wiki.clone(),
            query: self.query.clone(),
            condition: self.condition.clone(),
            repeat: self.repeat,
        }
    }

    /// Whether two keys identify the same run.
    pub fn same(&self, other: &Key) -> (yes: bool)
        ensures
            yes == (self@ == other@),
    {
        let yes: bool = self.repeat == other.repeat && text::same(
            self.wiki.as_str(),
            other.wiki.as_str(),
        ) && text::same(self.query.as_str(), other.query.as_str()) && text::same(
            self.condition.as_str(),
            other.condition.as_str(),
        );
        assert(yes ==> self@ =~= other@);
        yes
    }
}

/// One measured run.
pub struct Row {
    pub query_id: String,
    pub category: String,
    /// One of the conditions, or a variant of one such as `s1m-cold`.
    pub condition: String,
    /// Which pass over the gold set this was, from 0.
    pub repeat: usize,
    /// The wiki revision this run was measured against, empty on a row written before revisions
    /// were recorded.
    pub wiki: String,
    /// Whether the run produced a measurement. A failed run is written too, so that a resumed run
    /// does not try it again forever; it carries no metrics.
    pub ok: bool,
    /// Everything a report may print, by name: the bits of doubles.
    pub metrics: Table<u64>,
    /// The model named for this run, if one was: every agent in the run inherits it.
    pub model_asked_for: Option<String>,
    /// The models that answered. Empty on a condition that runs no agent.
    pub models: Vec<String>,
    /// Everything a report may not print, as JSON.
    pub detail: Option<String>,
}

impl Row {
    /// What identifies this run: a resumed pass skips a run it already has.
    pub open spec fn id(self) -> KeyView {
        KeyView {
            wiki: self.wiki@,
            query: self.query_id@,
            condition: self.condition@,
            repeat: self.repeat,
        }
    }

    pub fn key(&self) -> (key: Key)
        ensures
            key@ == self.id(),
    {
        Key {
            wiki: self.wiki.clone(),
            query: self.query_id.clone(),
            condition: self.condition.clone(),
            repeat: self.repeat,
        }
    }
}

} // verus!
