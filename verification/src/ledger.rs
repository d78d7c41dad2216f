//! What has been bought, across every run directory.
//!
//! The same query under the same condition against the same wiki is one measurement, and a second
//! directory is not a second wiki. This is the one record of what has been bought, keyed on what a
//! run is, and shared by every directory on the machine.
//!
//! A run is recorded twice: once when it is bought, before it is paid for, and once when it has
//! been measured. The last line for a run wins on the way back in. A run bought under one model is
//! not a run bought under another.

use vstd::prelude::*;

use crate::counting;
use crate::json;
use crate::paths;
use crate::row::{Key, KeyView};
use crate::text;

verus! {

/// The file name the ledger is kept under.
pub const LEDGER: &'static str = "ledger.jsonl";

/// What identifies an entry: the run, and the model it was bought under.
#[verifier::ext_equal]
pub struct Id {
    pub key: KeyView,
    pub model: Option<Seq<char>>,
}

/// One run, as the ledger records it.
pub struct Entry {
    /// The wiki revision it was measured against, and the query, condition and repeat.
    pub key: Key,
    /// The model named for the run, which every agent in it inherits.
    pub model: Option<String>,
    /// The directory the run was bought for.
    pub out: String,
    /// Nothing while the run is in flight: bought, and its row not written yet.
    pub ok: Option<bool>,
    /// What it cost, once it is known: the bits of a double. A run that failed was not priced at
    /// all, and a zero from it would read as a run that came free.
    pub cost_usd: Option<u64>,
}

/// What an entry says.
#[verifier::ext_equal]
pub struct EntryView {
    pub id: Id,
    pub out: Seq<char>,
    pub ok: Option<bool>,
    pub cost_usd: Option<u64>,
}

impl View for Entry {
    type V = EntryView;

    open spec fn view(&self) -> EntryView {
        EntryView {
            id: Id { key: self.key@, model: json::text_of(self.model) },
            out: self.out@,
            ok: self.ok,
            cost_usd: self.cost_usd,
        }
    }
}

fn again(text: &Option<String>) -> (same: Option<String>)
    ensures
        json::text_of(same) == json::text_of(*text),
{
    match text {
        Some(text) => Some(text.clone()),
        None => None,
    }
}

impl Entry {
    /// A run that is about to be bought.
    pub fn buying(key: Key, model: Option<&str>, out: &str) -> (entry: Entry)
        ensures
            entry@.id.key == key@,
            entry@.id.model == match model {
                Some(model) => Some(model@),
                None => None,
            },
            entry@.out == out@,
            entry@.ok is None,
            entry@.cost_usd is None,
    {
        let model: Option<String> = match model {
            Some(model) => Some(model.to_owned()),
            None => None,
        };
        Entry { key, model, out: out.to_owned(), ok: None, cost_usd: None }
    }

    /// The same run, once it has been measured: a failed run is recorded too, and carrying no
    /// numbers it has no price.
    pub fn measured(&self, ok: bool, cost_usd: Option<u64>) -> (entry: Entry)
        ensures
            entry@ == (EntryView { ok: Some(ok), cost_usd, ..self@ }),
    {
        Entry {
            key: self.key.again(),
            model: again(&self.model),
            out: self.out.clone(),
            ok: Some(ok),
            cost_usd,
        }
    }

    /// The same entry once more.
    pub fn again(&self) -> (entry: Entry)
        ensures
            entry@ == self@,
    {
        Entry {
            key: self.key.again(),
            model: again(&self.model),
            out: self.out.clone(),
            ok: self.ok,
            cost_usd: self.cost_usd,
        }
    }

    /// What identifies the entry.
    pub fn id(&self) -> (id: (Key, Option<String>))
        ensures
            id.0@ == self@.id.key,
            json::text_of(id.1) == self@.id.model,
    {
        (self.key.again(), again(&self.model))
    }

    /// Whether two entries are of the same run.
    pub fn same_run(&self, other: &Entry) -> (yes: bool)
        ensures
            yes == (self@.id == other@.id),
    {
        let models: bool = match (&self.model, &other.model) {
            (Some(a), Some(b)) => text::same(a.as_str(), b.as_str()),
            (None, None) => true,
            _ => false,
        };
        let yes: bool = models && self.key.same(&other.key);
        assert(yes ==> self@.id =~= other@.id);
        yes
    }
}

/// What the last of some lines for a run says.
pub open spec fn held(lines: Seq<EntryView>, id: Id) -> Option<EntryView>
    decreases lines.len(),
{
    if lines.len() == 0 {
        None
    } else if lines.last().id == id {
        Some(lines.last())
    } else {
        held(lines.drop_last(), id)
    }
}

/// The entries of a list.
pub open spec fn entry_views(entries: Seq<Entry>) -> Seq<EntryView> {
    entries.map_values(|entry: Entry| entry@)
}

/// Whether entries are what the last line of each run says, each run once.
pub open spec fn is_fold(lines: Seq<EntryView>, entries: Seq<EntryView>) -> bool {
    &&& forall|i: int, j: int|
        0 <= i < j < entries.len() ==> (#[trigger] entries[i]).id != (#[trigger] entries[j]).id
    &&& forall|i: int|
        0 <= i < entries.len() ==> held(lines, (#[trigger] entries[i]).id) == Some(entries[i])
    &&& forall|id: Id|
        (#[trigger] held(lines, id)) is Some ==> entries.contains(held(lines, id).unwrap())
}

proof fn held_is_of_the_run(lines: Seq<EntryView>, id: Id)
    ensures
        held(lines, id) matches Some(entry) ==> entry.id == id,
    decreases lines.len(),
{
    if lines.len() > 0 {
        held_is_of_the_run(lines.drop_last(), id);
    }
}

/// Every run that lines record, the last line for a run winning; in the order they were first
/// bought.
pub fn fold(lines: &Vec<Entry>) -> (entries: Vec<Entry>)
    ensures
        is_fold(entry_views(lines@), entry_views(entries@)),
{
    let ghost all = entry_views(lines@);
    let mut entries: Vec<Entry> = Vec::new();
    for i in 0..lines.len()
        invariant
            all == entry_views(lines@),
            is_fold(all.take(i as int), entry_views(entries@)),
    {
        let entry: Entry = lines[i].again();
        let ghost added = entry@;
        proof {
            counting::one_more(all, i as int);
            assert(all[i as int] == lines@[i as int]@);
        }
        let ghost was = entry_views(entries@);
        let ghost seen = all.take(i as int);
        let ghost now = all.take(i + 1);
        let mut at: usize = 0;
        while at < entries.len() && !entries[at].same_run(&entry)
            invariant
                at <= entries.len(),
                entry@ == added,
                was == entry_views(entries@),
                forall|k: int| 0 <= k < at ==> (#[trigger] was[k]).id != added.id,
            decreases entries.len() - at,
        {
            assert(was[at as int] == entries@[at as int]@);
            at += 1;
        }
        if at < entries.len() {
            assert(was[at as int] == entries@[at as int]@);
            entries.set(at, entry);
            assert(entry_views(entries@) =~= was.update(at as int, added));
        } else {
            entries.push(entry);
            assert(entry_views(entries@) =~= was.push(added));
        }
        proof {
            let after = entry_views(entries@);
            assert(after[at as int] == added);
            assert forall|k: int|
                0 <= k < after.len() implies held(now, (#[trigger] after[k]).id) == Some(
                after[k],
            ) by {
                if k != at {
                    assert(after[k] == was[k]);
                    assert(held(seen, was[k].id) == Some(was[k]));
                    assert(was[k].id != added.id);
                }
            }
            assert forall|id: Id| (#[trigger] held(now, id)) is Some implies after.contains(
                held(now, id).unwrap(),
            ) by {
                if id != added.id {
                    let entry = held(seen, id).unwrap();
                    held_is_of_the_run(seen, id);
                    assert(was.contains(entry));
                    let k = choose|k: int| 0 <= k < was.len() && was[k] == entry;
                    assert(k != at);
                    assert(after[k] == entry);
                } else {
                    assert(after[at as int] == added);
                }
            }
        }
    }
    proof {
        counting::take_all(all);
    }
    entries
}

/// A run that is measured after it was bought is one entry, and says what was measured.
pub proof fn a_measurement_replaces_its_purchase(
    lines: Seq<EntryView>,
    entries: Seq<EntryView>,
    bought: EntryView,
    measured: EntryView,
)
    requires
        bought.id == measured.id,
        is_fold(lines.push(bought).push(measured), entries),
    ensures
        entries.contains(measured),
        bought != measured ==> !entries.contains(bought),
{
    let all = lines.push(bought).push(measured);
    assert(held(all, measured.id) == Some(measured));
    if entries.contains(bought) && bought != measured {
        let i = choose|i: int| 0 <= i < entries.len() && entries[i] == bought;
        assert(held(all, entries[i].id) == Some(entries[i]));
    }
}

/// The same run bought under two models is two entries: a line for one never replaces what was
/// recorded under the other.
pub proof fn another_model_is_another_entry(
    lines: Seq<EntryView>,
    entries: Seq<EntryView>,
    first: EntryView,
    second: EntryView,
)
    requires
        first.id.model != second.id.model,
        is_fold(lines.push(first).push(second), entries),
    ensures
        entries.contains(first),
        entries.contains(second),
        first != second,
{
    let all = lines.push(first).push(second);
    assert(all.drop_last() =~= lines.push(first));
    assert(all.drop_last().last() == first);
    assert(held(all, second.id) == Some(second));
    reveal_with_fuel(held, 2);
    assert(held(all, first.id) == Some(first));
}

/// How many of the runs were bought for a directory.
pub fn bought_for(entries: &Vec<Entry>, out: &str) -> (n: usize)
    ensures
        n == counting::how_many(
            entries@,
            |entry: Entry| paths::same_path(entry.out@, out@),
        ),
{
    let ghost for_it = |entry: Entry| paths::same_path(entry.out@, out@);
    let mut n: usize = 0;
    for i in 0..entries.len()
        invariant
            for_it == (|entry: Entry| paths::same_path(entry.out@, out@)),
            n == counting::how_many(entries@.take(i as int), for_it),
            n <= i,
    {
        proof {
            counting::one_more(entries@, i as int);
        }
        if paths::is_same(entries[i].out.as_str(), out) {
            n += 1;
        }
    }
    proof {
        counting::take_all(entries@);
    }
    n
}

/// What is said of a line that is no entry.
pub open spec fn broken_line(path: Seq<char>, number: nat, why: Seq<char>) -> Seq<char> {
    path + ":"@ + text::decimal(number) + ": "@ + why
}

pub fn broken(path: &str, number: usize, why: &str) -> (message: String)
    ensures
        message@ == broken_line(path@, number as nat, why@),
{
    let mut message: String = path.to_owned();
    message.append(":");
    message.append(text::number(number as u64).as_str());
    message.append(": ");
    message.append(why);
    message
}

/// The ledger an environment names: outright, else the file under the data directory, else under
/// the home directory. Nothing is a machine that keeps no home directory, which has nowhere to
/// share one ledger between directories.
pub open spec fn named_ledger(
    ledger: Option<Seq<char>>,
    data: Option<Seq<char>>,
    home: Option<Seq<char>>,
) -> Option<Seq<char>> {
    match ledger {
        Some(path) => Some(path),
        None => match data {
            Some(dir) => Some(under(dir)),
            None => match home {
                Some(home) => Some(under(paths::joined_path(home, ".local/share"@))),
                None => None,
            },
        },
    }
}

/// The ledger under a data directory.
pub open spec fn under(base: Seq<char>) -> Seq<char> {
    paths::joined_path(paths::joined_path(base, "eval-agent"@), LEDGER@)
}

fn file_under(base: &str) -> (path: String)
    ensures
        path@ == under(base@),
{
    paths::join(paths::join(base, "eval-agent").as_str(), LEDGER)
}

/// The ledger that `S1M_LEDGER`, `XDG_DATA_HOME` and `HOME` name.
pub fn path_from(
    ledger: &Option<String>,
    data: &Option<String>,
    home: &Option<String>,
) -> (path: Option<String>)
    ensures
        json::text_of(path) == named_ledger(
            json::text_of(*ledger),
            json::text_of(*data),
            json::text_of(*home),
        ),
{
    match ledger {
        Some(path) => Some(path.clone()),
        None => match data {
            Some(dir) => Some(file_under(dir.as_str())),
            None => match home {
                Some(home) => Some(file_under(paths::join(home.as_str(), ".local/share").as_str())),
                None => None,
            },
        },
    }
}

/// Where the ledger lives when none is named: one file for the machine, so a second run directory
/// cannot buy what the first one already has; where there is nowhere to share one, in the run
/// directory.
pub fn default_path(
    ledger: &Option<String>,
    data: &Option<String>,
    home: &Option<String>,
    out: &str,
) -> (path: String)
    ensures
        path@ == match named_ledger(
            json::text_of(*ledger),
            json::text_of(*data),
            json::text_of(*home),
        ) {
            Some(path) => path,
            None => paths::joined_path(out@, LEDGER@),
        },
{
    match path_from(ledger, data, home) {
        Some(path) => path,
        None => paths::join(out, LEDGER),
    }
}

/// The file the ledger is kept in.
pub struct Ledger {
    path: String,
}

impl Ledger {
    pub closed spec fn file(self) -> Seq<char> {
        self.path@
    }

    /// The ledger at a path.
    pub fn at(path: String) -> (ledger: Ledger)
        ensures
            ledger.file() == path@,
    {
        Ledger { path }
    }

    pub fn path(&self) -> (path: &str)
        ensures
            path@ == self.file(),
    {
        self.path.as_str()
    }
}

} // verus!
