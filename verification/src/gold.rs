//! The gold set: the queries, and the pages a person would want for each.

use vstd::prelude::*;

use crate::counting;
use crate::ordered;
use crate::paths;
use crate::text;

verus! {

/// The category a query with none is counted under.
pub const UNCATEGORISED: &'static str = "uncategorised";

/// One labelled query. Only `id` and `category` ever reach a report.
pub struct Query {
    /// A short name for the query, unique in the set: what the tables key on.
    pub id: String,
    /// What kind of question this is, for grouping the results.
    pub category: Option<String>,
    /// The query, in the words the caller would use.
    pub query: String,
    /// The page a caller would start from, relative to the wiki root.
    pub entry: Option<String>,
    /// What relevance means for it: `about`, `useful-for` or `answers`.
    pub mode: Option<String>,
    /// The pages a person would want, relative to the wiki root.
    pub wanted: Vec<String>,
}

pub struct Gold {
    pub queries: Vec<Query>,
}

impl Query {
    pub open spec fn category_name(self) -> Seq<char> {
        match self.category {
            Some(category) => category@,
            None => UNCATEGORISED@,
        }
    }

    /// The category this query is grouped under.
    pub fn category(&self) -> (name: &str)
        ensures
            name@ == self.category_name(),
    {
        match &self.category {
            Some(category) => category.as_str(),
            None => UNCATEGORISED,
        }
    }

    /// The page the walk starts from: the query's own, else the default the caller passed.
    pub fn entry<'a>(&'a self, fallback: &'a str) -> (page: &'a str)
        ensures
            page@ == match self.entry {
                Some(entry) => entry@,
                None => fallback@,
            },
    {
        match &self.entry {
            Some(entry) => entry.as_str(),
            None => fallback,
        }
    }

    /// The pages this query wants, each once, in the order of their paths.
    pub fn wanted(&self) -> (pages: Vec<String>)
        ensures
            is_path_set(text::texts(self.wanted@), text::texts(pages@)),
    {
        distinct_paths(&self.wanted)
    }
}

/// Whether a list holds the paths of another, each once, in order.
pub open spec fn is_path_set(list: Seq<Seq<char>>, set: Seq<Seq<char>>) -> bool {
    &&& paths::ascending(set)
    &&& forall|path: Seq<char>| #[trigger] paths::holds(set, path) == paths::holds(list, path)
}

/// The paths of a list, each once, in order.
pub fn distinct_paths(list: &Vec<String>) -> (set: Vec<String>)
    ensures
        is_path_set(text::texts(list@), text::texts(set@)),
{
    let mut set: Vec<String> = Vec::new();
    let ghost all = text::texts(list@);
    assert(text::texts(set@) =~= Seq::<Seq<char>>::empty());
    for i in 0..list.len()
        invariant
            all == text::texts(list@),
            is_path_set(all.take(i as int), text::texts(set@)),
    {
        let ghost was = text::texts(set@);
        paths::add(&mut set, list[i].clone());
        proof {
            counting::one_more(all, i as int);
            assert(all[i as int] == list@[i as int]@);
            let next = all.take(i + 1);
            assert forall|path: Seq<char>| #[trigger]
                paths::holds(text::texts(set@), path) == paths::holds(next, path) by {
                assert(paths::holds(was, path) == paths::holds(all.take(i as int), path));
                if paths::holds(all.take(i as int), path) {
                    let k = choose|k: int|
                        0 <= k < i && paths::same_path(#[trigger] all.take(i as int)[k], path);
                    assert(paths::same_path(next[k], path));
                }
                if paths::same_path(list@[i as int]@, path) {
                    assert(paths::same_path(next[i as int], path));
                }
                if paths::holds(next, path) {
                    let k = choose|k: int|
                        0 <= k < next.len() && paths::same_path(#[trigger] next[k], path);
                    if k < i {
                        assert(paths::same_path(all.take(i as int)[k], path));
                    }
                }
            }
        }
    }
    proof {
        counting::take_all(all);
    }
    set
}

/// The ids of queries.
pub open spec fn ids(queries: Seq<Query>) -> Seq<Seq<char>> {
    queries.map_values(|query: Query| query.id@)
}

/// An id that is asked for and that no query has.
pub open spec fn is_missing(queries: Seq<Query>, wanted: Seq<Seq<char>>, id: Seq<char>) -> bool {
    wanted.contains(id) && !ids(queries).contains(id)
}

/// The first, in the order of texts, of the ids that no query has.
pub open spec fn is_first_missing(
    queries: Seq<Query>,
    wanted: Seq<Seq<char>>,
    id: Seq<char>,
) -> bool {
    &&& is_missing(queries, wanted, id)
    &&& forall|other: Seq<char>| #[trigger]
        is_missing(queries, wanted, other) ==> !text::before(other, id)
}

pub const NO_SUCH_ID: &'static str = ": no query in the gold set has this id";

pub const NO_QUERIES: &'static str = ": no queries";

pub const BLANK_QUERY: &'static str = ": the query is blank";

pub const SHARED_ID: &'static str = ": two queries share this id";

pub const NO_PAGES: &'static str = ": no wanted pages";

fn has_id(queries: &Vec<Query>, id: &str) -> (yes: bool)
    ensures
        yes == ids(queries@).contains(id@),
{
    for i in 0..queries.len()
        invariant
            forall|k: int| 0 <= k < i ==> #[trigger] ids(queries@)[k] != id@,
    {
        assert(ids(queries@)[i as int] == queries@[i as int].id@);
        if text::same(queries[i].id.as_str(), id) {
            return true;
        }
    }
    false
}

/// What a query can be refused for.
pub enum Fault {
    Blank,
    SharedId,
    NoPages,
}

/// What query `at` of a set is refused for, the queries before it being in order.
pub open spec fn fault(queries: Seq<Query>, at: int) -> Option<Fault> {
    if text::blank(queries[at].query@) {
        Some(Fault::Blank)
    } else if ids(queries.take(at)).contains(queries[at].id@) {
        Some(Fault::SharedId)
    } else if queries[at].wanted.len() == 0 {
        Some(Fault::NoPages)
    } else {
        None
    }
}

pub open spec fn fault_message(fault: Fault, id: Seq<char>) -> Seq<char> {
    match fault {
        Fault::Blank => id + BLANK_QUERY@,
        Fault::SharedId => id + SHARED_ID@,
        Fault::NoPages => id + NO_PAGES@,
    }
}

/// The first query of a set that is refused.
pub open spec fn is_first_fault(queries: Seq<Query>, at: int) -> bool {
    &&& 0 <= at < queries.len()
    &&& fault(queries, at) is Some
    &&& forall|before: int| 0 <= before < at ==> (#[trigger] fault(queries, before)) is None
}

impl Gold {
    /// Keeps only the queries named, in the gold set's own order: a pass over a whole gold set
    /// costs real money, so a caller can measure two queries first and see what a run is worth. An
    /// id that no query has is an error rather than an empty run.
    pub fn only(&mut self, wanted: &Vec<String>) -> (done: Result<(), String>)
        ensures
            done is Ok <==> forall|id: Seq<char>| !#[trigger]
                is_missing(old(self).queries@, text::texts(wanted@), id),
            match done {
                Ok(()) => final(self).queries@ == if wanted.len() == 0 {
                    old(self).queries@
                } else {
                    old(self).queries@.filter(
                        |query: Query| text::texts(wanted@).contains(query.id@),
                    )
                },
                Err(message) => final(self).queries@ == old(self).queries@ && exists|
                    id: Seq<char>,
                | #[trigger]
                    is_first_missing(old(self).queries@, text::texts(wanted@), id) && message@
                        == text::debugged(id) + NO_SUCH_ID@,
            },
    {
        let ghost names = text::texts(wanted@);
        let ghost was = self.queries@;
        let mut missing: Option<usize> = None;
        for i in 0..wanted.len()
            invariant
                names == text::texts(wanted@),
                self.queries@ == was,
                match missing {
                    Some(at) => {
                        &&& at < i
                        &&& !ids(was).contains(names[at as int])
                        &&& forall|k: int|
                            0 <= k < i && !ids(was).contains(#[trigger] names[k])
                                ==> !text::before(names[k], names[at as int])
                    },
                    None => forall|k: int| 0 <= k < i ==> ids(was).contains(#[trigger] names[k]),
                },
        {
            assert(names[i as int] == wanted@[i as int]@);
            if !has_id(&self.queries, wanted[i].as_str()) {
                match missing {
                    None => {
                        proof {
                            text::before_is_a_strict_total_order(
                                names[i as int],
                                names[i as int],
                                names[i as int],
                            );
                        }
                        missing = Some(i);
                    },
                    Some(at) => {
                        assert(names[at as int] == wanted@[at as int]@);
                        if text::is_before(wanted[i].as_str(), wanted[at].as_str()) {
                            proof {
                                assert forall|k: int|
                                    0 <= k < i + 1 && !ids(was).contains(
                                        #[trigger] names[k],
                                    ) implies !text::before(names[k], names[i as int]) by {
                                    text::before_is_a_strict_total_order(
                                        names[k],
                                        names[i as int],
                                        names[at as int],
                                    );
                                }
                            }
                            missing = Some(i);
                        }
                    },
                }
            }
        }
        match missing {
            Some(at) => {
                let mut message: String = text::debug(wanted[at].as_str());
                message.append(NO_SUCH_ID);
                proof {
                    let id = names[at as int];
                    assert(id == wanted@[at as int]@);
                    assert(is_missing(was, names, id));
                    assert forall|other: Seq<char>| #[trigger]
                        is_missing(was, names, other) implies !text::before(other, id) by {
                        let k = choose|k: int| 0 <= k < names.len() && names[k] == other;
                        assert(!ids(was).contains(names[k]));
                    }
                    assert(is_first_missing(was, names, id));
                }
                return Err(message);
            },
            None => {},
        }
        proof {
            assert forall|id: Seq<char>| !#[trigger] is_missing(was, names, id) by {
                if names.contains(id) {
                    let k = choose|k: int| 0 <= k < names.len() && names[k] == id;
                    assert(ids(was).contains(names[k]));
                }
            }
        }
        if wanted.len() == 0 {
            return Ok(());
        }
        let ghost keep = |query: Query| names.contains(query.id@);
        let mut rest: Vec<Query> = Vec::new();
        std::mem::swap(&mut self.queries, &mut rest);
        let ghost mut seen: int = 0;
        assert(was.take(0).filter(keep) =~= Seq::<Query>::empty()) by {
            reveal(Seq::filter);
        }
        while rest.len() > 0
            invariant
                names == text::texts(wanted@),
                keep == (|query: Query| names.contains(query.id@)),
                0 <= seen <= was.len(),
                rest@ == was.skip(seen),
                self.queries@ == was.take(seen).filter(keep),
            decreases rest.len(),
        {
            let query: Query = rest.remove(0);
            proof {
                counting::one_more(was, seen);
                reveal(Seq::filter);
                assert(query == was[seen]);
                assert(rest@ =~= was.skip(seen + 1));
            }
            if ordered::has(wanted, query.id.as_str()) {
                self.queries.push(query);
            }
            proof {
                seen = seen + 1;
            }
        }
        proof {
            assert(was.take(seen) =~= was);
        }
        Ok(())
    }

    /// Checks a gold set read from a file: a query needs an id no other query has, text to ask,
    /// and at least one wanted page.
    pub fn load(file: &str, queries: Vec<Query>) -> (gold: Result<Gold, String>)
        ensures
            gold is Ok <==> queries.len() > 0 && forall|at: int|
                0 <= at < queries.len() ==> (#[trigger] fault(queries@, at)) is None,
            match gold {
                Ok(gold) => gold.queries@ == queries@,
                Err(message) => if queries.len() == 0 {
                    message@ == file@ + NO_QUERIES@
                } else {
                    exists|at: int| #[trigger]
                        is_first_fault(queries@, at) && message@ == fault_message(
                            fault(queries@, at)->0,
                            queries@[at].id@,
                        )
                },
            },
    {
        if queries.len() == 0 {
            let mut message: String = file.to_owned();
            message.append(NO_QUERIES);
            return Err(message);
        }
        let mut known: Vec<String> = Vec::new();
        assert(text::texts(known@) =~= ids(queries@.take(0)));
        for i in 0..queries.len()
            invariant
                text::texts(known@) == ids(queries@.take(i as int)),
                forall|at: int| 0 <= at < i ==> (#[trigger] fault(queries@, at)) is None,
        {
            let ghost had = text::texts(known@);
            let mut message: String = queries[i].id.clone();
            if text::is_blank(queries[i].query.as_str()) {
                message.append(BLANK_QUERY);
                assert(is_first_fault(queries@, i as int));
                return Err(message);
            }
            if ordered::has(&known, queries[i].id.as_str()) {
                message.append(SHARED_ID);
                assert(is_first_fault(queries@, i as int));
                return Err(message);
            }
            if queries[i].wanted.len() == 0 {
                message.append(NO_PAGES);
                assert(is_first_fault(queries@, i as int));
                return Err(message);
            }
            known.push(queries[i].id.clone());
            assert(text::texts(known@) =~= had.push(queries@[i as int].id@));
            assert(text::texts(known@) =~= ids(queries@.take(i + 1)));
        }
        Ok(Gold { queries })
    }
}

/// No two queries of a gold set that is in order share an id.
pub proof fn ids_are_unique(queries: Seq<Query>, a: int, b: int)
    requires
        forall|at: int| 0 <= at < queries.len() ==> (#[trigger] fault(queries, at)) is None,
        0 <= a < b < queries.len(),
    ensures
        queries[a].id@ != queries[b].id@,
{
    assert(fault(queries, b) is None);
    assert(ids(queries.take(b))[a] == queries[a].id@);
}

/// Asking for ids keeps the queries that have them, in the set's own order, and no others.
pub proof fn only_keeps_what_is_asked_for(
    queries: Seq<Query>,
    wanted: Seq<Seq<char>>,
    query: Query,
)
    ensures
        queries.filter(|query: Query| wanted.contains(query.id@)).contains(query) == (
        queries.contains(query) && wanted.contains(query.id@)),
{
    let keep = |query: Query| wanted.contains(query.id@);
    let kept = queries.filter(keep);
    if kept.contains(query) {
        let i = choose|i: int| 0 <= i < kept.len() && kept[i] == query;
        queries.lemma_filter_pred(keep, i);
        queries.lemma_filter_contains_rev(keep, query);
    }
    if queries.contains(query) && keep(query) {
        let i = choose|i: int| 0 <= i < queries.len() && queries[i] == query;
        queries.lemma_filter_contains(keep, i);
    }
}

} // verus!
