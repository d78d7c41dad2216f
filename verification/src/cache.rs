//! Keeping a model's answers, keyed by the request that produced them.
//!
//! The same request sent twice moves the numbers under it. Storing the answers is what makes a
//! repeat run identical, and free. The key is a digest of the request that would be sent, so the
//! entry that answers a question cannot drift from the question asked.

use vstd::prelude::*;

use crate::json;
use crate::paths;
use crate::text;
use crate::wiki;

verus! {

/// The variable that puts the cache somewhere else.
pub const DIR_VAR: &'static str = "S1M_CACHE_DIR";

/// The subdirectory entries go in.
pub const ENTRIES: &'static str = "judgments";

/// The shape of a stored entry. An entry written by another format is a miss rather than a wrong
/// answer.
pub const FORMAT: u32 = 3;

/// One heading section, as it was judged; its score is the bits of a double.
pub struct SectionJudgment {
    pub heading: Option<String>,
    pub first: usize,
    pub last: usize,
    pub score: u64,
}

/// One link, as it was judged; its scent is the bits of a double.
pub struct LinkJudgment {
    pub target: String,
    pub scent: u64,
    /// Whether the scorer keeps it.
    pub keep: bool,
}

/// One file, as it was judged; its relevance is the bits of a double.
pub struct FileJudgment {
    pub relevance: u64,
    pub sections: Vec<SectionJudgment>,
    pub links: Vec<LinkJudgment>,
}

/// One file's answer, and whether the model was asked for it.
pub enum Scored<D> {
    /// The answer was stored: no call was made, and `detail` is what the call that stored it cost
    /// at the time.
    Reused { judgment: FileJudgment, detail: D },
    /// The answer came from a call made now, which cost `detail`.
    Called { judgment: FileJudgment, detail: D },
}

impl<D> Scored<D> {
    pub open spec fn answer(self) -> FileJudgment {
        match self {
            Scored::Reused { judgment, detail } => judgment,
            Scored::Called { judgment, detail } => judgment,
        }
    }

    pub open spec fn cost(self) -> D {
        match self {
            Scored::Reused { judgment, detail } => detail,
            Scored::Called { judgment, detail } => detail,
        }
    }

    /// The judgment, whichever side it came from.
    pub fn judgment(&self) -> (judgment: &FileJudgment)
        ensures
            *judgment == self.answer(),
    {
        match self {
            Scored::Reused { judgment, .. } => judgment,
            Scored::Called { judgment, .. } => judgment,
        }
    }

    /// What this answer cost, when it was bought.
    pub fn detail(&self) -> (detail: &D)
        ensures
            *detail == self.cost(),
    {
        match self {
            Scored::Reused { detail, .. } => detail,
            Scored::Called { detail, .. } => detail,
        }
    }

    /// Whether the model was asked for this answer.
    pub fn called(&self) -> (yes: bool)
        ensures
            yes == (self is Called),
    {
        match self {
            Scored::Reused { .. } => false,
            Scored::Called { .. } => true,
        }
    }

    /// The judgment, leaving the accounting behind.
    pub fn into_judgment(self) -> (judgment: FileJudgment)
        ensures
            judgment == self.answer(),
    {
        match self {
            Scored::Reused { judgment, .. } => judgment,
            Scored::Called { judgment, .. } => judgment,
        }
    }
}

/// One stored answer.
pub struct Entry<D> {
    pub format: u32,
    pub judgment: FileJudgment,
    pub detail: D,
}

/// The answer that a stored entry gives: none where there is no entry that can be read, and none
/// where it is of another format.
pub open spec fn usable<D>(stored: Option<Entry<D>>) -> Option<(FileJudgment, D)> {
    match stored {
        Some(entry) if entry.format == FORMAT => Some((entry.judgment, entry.detail)),
        _ => None,
    }
}

/// What follows from a look at what is stored for a request.
pub enum Step<D> {
    /// The request has been answered before.
    Answered(Scored<D>),
    /// The model has to be asked.
    Ask,
}

/// What a run has taken from the stored answers, and what it has bought.
pub struct CachedScorer {
    dir: String,
    calls: u64,
    hits: u64,
}

impl CachedScorer {
    /// The directory the entries go in.
    pub closed spec fn entries(self) -> Seq<char> {
        self.dir@
    }

    pub closed spec fn misses(self) -> u64 {
        self.calls
    }

    pub closed spec fn reuses(self) -> u64 {
        self.hits
    }

    /// Caches under a directory.
    pub fn new(dir: &str) -> (cached: CachedScorer)
        ensures
            cached.entries() == paths::joined_path(dir@, ENTRIES@),
            cached.misses() == 0,
            cached.reuses() == 0,
    {
        CachedScorer { dir: paths::join(dir, ENTRIES), calls: 0, hits: 0 }
    }

    /// The directory the entries go in.
    pub fn dir(&self) -> (dir: &str)
        ensures
            dir@ == self.entries(),
    {
        self.dir.as_str()
    }

    /// How many calls reached the model: one per miss.
    pub fn calls(&self) -> (n: u64)
        ensures
            n == self.misses(),
    {
        self.calls
    }

    /// How many answers were stored ones instead.
    pub fn hits(&self) -> (n: u64)
        ensures
            n == self.reuses(),
    {
        self.hits
    }

    /// The name of the entry that answers a request, given the bytes the answer depends on.
    pub fn key(request: &Vec<u8>) -> (key: String)
        ensures
            key@ == wiki::sha256(request@),
            wiki::is_digest(key@),
    {
        wiki::hash(request)
    }

    /// Where the answer with a key is stored.
    pub open spec fn place(self, key: Seq<char>) -> Seq<char> {
        paths::joined_path(self.entries(), key + ".json"@)
    }

    /// Where one answer is stored.
    pub fn entry(&self, key: &str) -> (path: String)
        ensures
            path@ == self.place(key@),
    {
        let mut name: String = key.to_owned();
        name.append(".json");
        paths::join(self.dir.as_str(), name.as_str())
    }

    /// Looks at what is stored for a request: an answer that can be used is reused, and anything
    /// else is a miss.
    pub fn look<D>(&mut self, stored: Option<Entry<D>>) -> (step: Step<D>)
        ensures
            final(self).entries() == old(self).entries(),
            final(self).misses() == old(self).misses(),
            match usable(stored) {
                Some((judgment, detail)) => {
                    &&& step == Step::Answered(Scored::Reused { judgment, detail })
                    &&& final(self).reuses() == old(self).reuses().wrapping_add(1)
                },
                None => {
                    &&& step is Ask
                    &&& final(self).reuses() == old(self).reuses()
                },
            },
    {
        match stored {
            Some(entry) => {
                if entry.format == FORMAT {
                    self.hits = self.hits.wrapping_add(1);
                    Step::Answered(Scored::Reused { judgment: entry.judgment, detail: entry.detail })
                } else {
                    Step::Ask
                }
            },
            None => Step::Ask,
        }
    }

    /// Counts an answer that was bought, which is what a run's cost depends on.
    pub fn bought<D>(&mut self, judgment: FileJudgment, detail: D) -> (scored: Scored<D>)
        ensures
            scored == (Scored::Called { judgment, detail }),
            final(self).entries() == old(self).entries(),
            final(self).reuses() == old(self).reuses(),
            final(self).misses() == old(self).misses().wrapping_add(1),
    {
        self.calls = self.calls.wrapping_add(1);
        Scored::Called { judgment, detail }
    }
}

/// What is stored of an answer.
pub open spec fn kept<D>(scored: Scored<D>) -> Entry<D> {
    Entry { format: FORMAT, judgment: scored.answer(), detail: scored.cost() }
}

/// What to store of an answer.
pub fn to_store<D>(scored: Scored<D>) -> (entry: Entry<D>)
    ensures
        entry == kept(scored),
{
    match scored {
        Scored::Reused { judgment, detail } => Entry { format: FORMAT, judgment, detail },
        Scored::Called { judgment, detail } => Entry { format: FORMAT, judgment, detail },
    }
}

/// A request that is made again is served what was stored of it, and what that cost.
pub proof fn a_stored_answer_is_the_answer<D>(scored: Scored<D>)
    ensures
        usable(Some(kept(scored))) == Some((scored.answer(), scored.cost())),
{
}

/// An entry of another format is recomputed, whatever it holds.
pub proof fn another_format_is_a_miss<D>(entry: Entry<D>)
    requires
        entry.format != FORMAT,
    ensures
        usable(Some(entry)) is None,
{
}

/// What is stored for a request, where entries are found under the hash of its bytes.
pub open spec fn held<D>(store: Map<Seq<char>, Entry<D>>, request: Seq<u8>) -> Option<Entry<D>> {
    if store.contains_key(wiki::sha256(request)) {
        Some(store[wiki::sha256(request)])
    } else {
        None
    }
}

/// A request, and what the model would answer and charge were it asked.
pub struct Asked<D> {
    pub request: Seq<u8>,
    pub judgment: FileJudgment,
    pub detail: D,
}

/// How a request is judged: from what is stored, and by the model only where that is no answer.
pub open spec fn judged<D>(store: Map<Seq<char>, Entry<D>>, asked: Asked<D>) -> Scored<D> {
    match usable(held(store, asked.request)) {
        Some((judgment, detail)) => Scored::Reused { judgment, detail },
        None => Scored::Called { judgment: asked.judgment, detail: asked.detail },
    }
}

/// What is stored once a request has been judged: an answer that was bought is kept.
pub open spec fn storing<D>(store: Map<Seq<char>, Entry<D>>, asked: Asked<D>) -> Map<
    Seq<char>,
    Entry<D>,
> {
    match judged(store, asked) {
        Scored::Reused { .. } => store,
        Scored::Called { .. } => store.insert(
            wiki::sha256(asked.request),
            kept(judged(store, asked)),
        ),
    }
}

/// What is stored once a run has judged its requests, one after the other.
pub open spec fn stored_after<D>(
    store: Map<Seq<char>, Entry<D>>,
    run: Seq<Asked<D>>,
) -> Map<Seq<char>, Entry<D>>
    decreases run.len(),
{
    if run.len() == 0 {
        store
    } else {
        storing(stored_after(store, run.drop_last()), run.last())
    }
}

/// How a run judges one of its requests.
pub open spec fn answered<D>(
    store: Map<Seq<char>, Entry<D>>,
    run: Seq<Asked<D>>,
    at: int,
) -> Scored<D> {
    judged(stored_after(store, run.take(at)), run[at])
}

/// What a run answers a request with is what is stored for it from then on.
proof fn an_answer_is_kept<D>(store: Map<Seq<char>, Entry<D>>, run: Seq<Asked<D>>, at: int)
    requires
        0 <= at < run.len(),
    ensures
        usable(held(stored_after(store, run), run[at].request)) == Some(
            (answered(store, run, at).answer(), answered(store, run, at).cost()),
        ),
    decreases run.len(),
{
    let before = run.drop_last();
    if at < before.len() {
        assert(before.take(at) =~= run.take(at));
        an_answer_is_kept(store, before, at);
    } else {
        assert(before =~= run.take(at));
    }
}

/// A second identical run calls the model for nothing, answers every request as the first did and
/// at the cost that was paid then, whatever the model would answer now, and stores nothing new.
pub proof fn a_second_run_is_identical_and_free<D>(
    store: Map<Seq<char>, Entry<D>>,
    first: Seq<Asked<D>>,
    second: Seq<Asked<D>>,
)
    requires
        first.len() == second.len(),
        forall|i: int|
            0 <= i < first.len() ==> (#[trigger] second[i]).request == first[i].request,
    ensures
        stored_after(stored_after(store, first), second) == stored_after(store, first),
        forall|i: int|
            0 <= i < second.len() ==> #[trigger] answered(stored_after(store, first), second, i) == (
            Scored::Reused {
                judgment: answered(store, first, i).answer(),
                detail: answered(store, first, i).cost(),
            }),
{
    let all = stored_after(store, first);
    assert forall|i: int| 0 <= i <= second.len() implies #[trigger] stored_after(
        all,
        second.take(i),
    ) == all by {
        nothing_is_bought_again(store, first, second, i);
    }
    assert(second.take(second.len() as int) =~= second);
    assert forall|i: int| 0 <= i < second.len() implies #[trigger] answered(all, second, i) == (
    Scored::Reused {
        judgment: answered(store, first, i).answer(),
        detail: answered(store, first, i).cost(),
    }) by {
        assert(stored_after(all, second.take(i)) == all);
        an_answer_is_kept(store, first, i);
        assert(second[i].request == first[i].request);
    }
}

/// The first requests of a second run leave what is stored as it is.
proof fn nothing_is_bought_again<D>(
    store: Map<Seq<char>, Entry<D>>,
    first: Seq<Asked<D>>,
    second: Seq<Asked<D>>,
    n: int,
)
    requires
        first.len() == second.len(),
        forall|i: int|
            0 <= i < first.len() ==> (#[trigger] second[i]).request == first[i].request,
        0 <= n <= second.len(),
    ensures
        stored_after(stored_after(store, first), second.take(n)) == stored_after(store, first),
    decreases n,
{
    if n > 0 {
        nothing_is_bought_again(store, first, second, n - 1);
        assert(second.take(n).drop_last() =~= second.take(n - 1));
        an_answer_is_kept(store, first, n - 1);
        assert(second[n - 1].request == first[n - 1].request);
    }
}

/// That no variable names a place for the cache.
pub struct NoCacheDir;

/// A variable that is set but blank counts as unset.
pub open spec fn given(value: Option<Seq<char>>) -> Option<Seq<char>> {
    match value {
        Some(value) if !text::blank(value) => Some(value),
        _ => None,
    }
}

/// Where entries go.
pub open spec fn cache_place(
    cache: Option<Seq<char>>,
    xdg: Option<Seq<char>>,
    home: Option<Seq<char>>,
) -> Option<Seq<char>> {
    match given(cache) {
        Some(dir) => Some(dir),
        None => match given(xdg) {
            Some(base) => Some(paths::joined_path(base, "s1m"@)),
            None => match given(home) {
                Some(home) => Some(
                    paths::joined_path(paths::joined_path(home, ".cache"@), "s1m"@),
                ),
                None => None,
            },
        },
    }
}

fn set(value: &Option<String>) -> (found: Option<String>)
    ensures
        json::text_of(found) == given(json::text_of(*value)),
{
    match value {
        Some(value) => if text::is_blank(value.as_str()) {
            None
        } else {
            Some(value.clone())
        },
        None => None,
    }
}

/// Where entries go: the override if it is set, else the cache directory's `s1m`, else
/// `.cache/s1m` under the home directory.
pub fn cache_dir(
    cache: &Option<String>,
    xdg: &Option<String>,
    home: &Option<String>,
) -> (dir: Result<String, NoCacheDir>)
    ensures
        match dir {
            Ok(dir) => cache_place(
                json::text_of(*cache),
                json::text_of(*xdg),
                json::text_of(*home),
            ) == Some(dir@),
            Err(_) => cache_place(
                json::text_of(*cache),
                json::text_of(*xdg),
                json::text_of(*home),
            ) is None,
        },
{
    match set(cache) {
        Some(dir) => Ok(dir),
        None => match set(xdg) {
            Some(base) => Ok(paths::join(base.as_str(), "s1m")),
            None => match set(home) {
                Some(home) => Ok(paths::join(paths::join(home.as_str(), ".cache").as_str(), "s1m")),
                None => Err(NoCacheDir),
            },
        },
    }
}

} // verus!
