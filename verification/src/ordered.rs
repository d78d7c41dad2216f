//! Lists of texts in ascending order, and tables keyed by text.

use vstd::prelude::*;

use crate::text;

verus! {

/// Texts in ascending order, none twice.
pub open spec fn ascending(list: Seq<Seq<char>>) -> bool {
    forall|i: int, j: int|
        0 <= i < j < list.len() ==> text::before(#[trigger] list[i], #[trigger] list[j])
}

proof fn one_place(list: Seq<Seq<char>>, i: int, j: int)
    requires
        ascending(list),
        0 <= i < list.len(),
        0 <= j < list.len(),
        list[i] == list[j],
    ensures
        i == j,
{
    text::before_is_a_strict_total_order(list[i], list[j], list[i]);
    if i < j {
        assert(text::before(list[i], list[j]));
    }
    if j < i {
        assert(text::before(list[j], list[i]));
    }
}

/// Two ascending lists of the same texts are the same list.
pub proof fn ascending_is_one_list(a: Seq<Seq<char>>, b: Seq<Seq<char>>)
    requires
        ascending(a),
        ascending(b),
        forall|t: Seq<char>|
            #![trigger a.contains(t)]
            #![trigger b.contains(t)]
            a.contains(t) == b.contains(t),
    ensures
        a == b,
    decreases a.len(),
{
    if a.len() == 0 {
        if b.len() > 0 {
            assert(b.contains(b[0]));
        }
        assert(a =~= b);
    } else {
        assert(a.contains(a.last()));
        let j = choose|j: int| 0 <= j < b.len() && b[j] == a.last();
        assert(b.contains(b.last()));
        assert(a.contains(b.last()));
        let i = choose|i: int| 0 <= i < a.len() && a[i] == b.last();
        if j < b.len() - 1 {
            assert(text::before(b[j], b.last()));
            text::before_is_a_strict_total_order(a.last(), b.last(), a.last());
            if i < a.len() - 1 {
                assert(text::before(a[i], a.last()));
            }
        }
        assert(a.last() == b.last());
        assert forall|t: Seq<char>|
            #![trigger a.drop_last().contains(t)]
            #![trigger b.drop_last().contains(t)]
            a.drop_last().contains(t) == b.drop_last().contains(t) by {
            if a.drop_last().contains(t) {
                let k = choose|k: int| 0 <= k < a.len() - 1 && a[k] == t;
                assert(a.contains(t));
                let m = choose|m: int| 0 <= m < b.len() && b[m] == t;
                if m == b.len() - 1 {
                    one_place(a, k, a.len() - 1);
                }
                assert(b.drop_last()[m] == t);
            }
            if b.drop_last().contains(t) {
                let k = choose|k: int| 0 <= k < b.len() - 1 && b[k] == t;
                assert(b.contains(t));
                let m = choose|m: int| 0 <= m < a.len() && a[m] == t;
                if m == a.len() - 1 {
                    one_place(b, k, b.len() - 1);
                }
                assert(a.drop_last()[m] == t);
            }
        }
        ascending_is_one_list(a.drop_last(), b.drop_last());
        assert(a =~= a.drop_last().push(a.last()));
        assert(b =~= b.drop_last().push(b.last()));
    }
}

/// Where a text stands in a list, or the list's length.
pub fn position(list: &Vec<String>, item: &str) -> (at: usize)
    ensures
        at <= list.len(),
        at < list.len() ==> list@[at as int]@ == item@,
        at == list.len() ==> !text::texts(list@).contains(item@),
        forall|i: int| 0 <= i < at ==> (#[trigger] list@[i])@ != item@,
{
    for at in 0..list.len()
        invariant
            forall|i: int| 0 <= i < at ==> (#[trigger] list@[i])@ != item@,
    {
        if text::same(list[at].as_str(), item) {
            return at;
        }
    }
    assert(!text::texts(list@).contains(item@)) by {
        if text::texts(list@).contains(item@) {
            let i = choose|i: int| 0 <= i < list.len() && text::texts(list@)[i] == item@;
            assert(list@[i]@ == item@);
        }
    }
    list.len()
}

/// Whether a list holds a text.
pub fn has(list: &Vec<String>, item: &str) -> (yes: bool)
    ensures
        yes == text::texts(list@).contains(item@),
{
    let at: usize = position(list, item);
    if at < list.len() {
        assert(text::texts(list@)[at as int] == item@);
        true
    } else {
        false
    }
}

/// Where a text belongs in an ascending list: behind all that come before it.
fn place(list: &Vec<String>, item: &str) -> (at: usize)
    requires
        ascending(text::texts(list@)),
    ensures
        at <= list.len(),
        forall|i: int| 0 <= i < at ==> text::before(#[trigger] text::texts(list@)[i], item@),
        forall|i: int|
            at <= i < list.len() ==> !text::before(#[trigger] text::texts(list@)[i], item@),
{
    let mut at: usize = 0;
    while at < list.len() && text::is_before(list[at].as_str(), item)
        invariant
            at <= list.len(),
            forall|i: int| 0 <= i < at ==> text::before(#[trigger] text::texts(list@)[i], item@),
        decreases list.len() - at,
    {
        at += 1;
    }
    assert forall|i: int| at <= i < list.len() implies !text::before(
        #[trigger] text::texts(list@)[i],
        item@,
    ) by {
        let all = text::texts(list@);
        if i > at {
            assert(text::before(all[at as int], all[i]));
            text::before_is_a_strict_total_order(all[at as int], all[i], item@);
        }
    }
    at
}

proof fn inserted(list: Seq<Seq<char>>, at: int, item: Seq<char>)
    requires
        ascending(list),
        0 <= at <= list.len(),
        forall|i: int| 0 <= i < at ==> text::before(#[trigger] list[i], item),
        forall|i: int| at <= i < list.len() ==> !text::before(#[trigger] list[i], item),
        at < list.len() ==> list[at] != item,
    ensures
        ascending(list.insert(at, item)),
        !list.contains(item),
        forall|t: Seq<char>| #[trigger]
            list.insert(at, item).contains(t) == (list.contains(t) || t == item),
{
    let longer = list.insert(at, item);
    assert forall|i: int| at <= i < list.len() implies text::before(item, #[trigger] list[i]) by {
        text::before_is_a_strict_total_order(item, list[at], list[i]);
        if i > at {
            assert(text::before(list[at], list[i]));
        }
    }
    assert forall|i: int, j: int| 0 <= i < j < longer.len() implies text::before(
        #[trigger] longer[i],
        #[trigger] longer[j],
    ) by {
        if i < at {
            assert(longer[i] == list[i]);
            if j == at {
            } else if j < at {
                assert(longer[j] == list[j]);
            } else {
                assert(longer[j] == list[j - 1]);
            }
        } else if i == at {
            assert(longer[j] == list[j - 1]);
        } else {
            assert(longer[i] == list[i - 1]);
            assert(longer[j] == list[j - 1]);
        }
    }
    if list.contains(item) {
        let i = choose|i: int| 0 <= i < list.len() && list[i] == item;
        text::before_is_a_strict_total_order(item, item, item);
        if i < at {
            assert(text::before(list[i], item));
        } else {
            assert(text::before(item, list[i]));
        }
    }
    assert forall|t: Seq<char>| #[trigger]
        longer.contains(t) == (list.contains(t) || t == item) by {
        if list.contains(t) {
            let i = choose|i: int| 0 <= i < list.len() && list[i] == t;
            if i < at {
                assert(longer[i] == t);
            } else {
                assert(longer[i + 1] == t);
            }
        }
        if t == item {
            assert(longer[at] == t);
        }
        if longer.contains(t) {
            let i = choose|i: int| 0 <= i < longer.len() && longer[i] == t;
            if i < at {
                assert(list[i] == t);
            } else if i > at {
                assert(list[i - 1] == t);
            }
        }
    }
}

/// Puts a text into an ascending list, unless it is there already.
pub fn add(list: &mut Vec<String>, item: String)
    requires
        ascending(text::texts(old(list)@)),
    ensures
        ascending(text::texts(final(list)@)),
        forall|t: Seq<char>| #[trigger]
            text::texts(final(list)@).contains(t) == (text::texts(old(list)@).contains(t) || t
                == item@),
{
    let ghost was = text::texts(list@);
    let at: usize = place(list, item.as_str());
    if at < list.len() && text::same(list[at].as_str(), item.as_str()) {
        assert(was[at as int] == item@);
        return;
    }
    proof {
        assert(at < list.len() ==> was[at as int] != item@);
        inserted(was, at as int, item@);
    }
    list.insert(at, item);
    assert(text::texts(list@) =~= was.insert(at as int, item@));
}

/// A table: values under texts, in the order of the texts.
pub struct Table<V> {
    keys: Vec<String>,
    values: Vec<V>,
}

impl<V> Table<V> {
    #[verifier::type_invariant]
    spec fn sound(self) -> bool {
        self.keys.len() == self.values.len() && ascending(text::texts(self.keys@))
    }

    /// The texts that have a value, in order.
    pub closed spec fn names(self) -> Seq<Seq<char>> {
        text::texts(self.keys@)
    }

    /// The values, in the order of their texts.
    pub closed spec fn column(self) -> Seq<V> {
        self.values@
    }

    /// What every table is: a value for each text, and the texts in order.
    pub open spec fn valid(self) -> bool {
        self.names().len() == self.column().len() && ascending(self.names())
    }

    /// The table with one value more, or one replaced.
    pub open spec fn with(self, other: Self, key: Seq<char>, value: V) -> bool {
        &&& forall|t: Seq<char>| #[trigger]
            other.names().contains(t) == (self.names().contains(t) || t == key)
        &&& other.at(key) == value
        &&& forall|t: Seq<char>|
            t != key && self.names().contains(t) ==> #[trigger] other.at(t) == self.at(t)
    }

    /// The value under a text that has one.
    pub open spec fn at(self, key: Seq<char>) -> V {
        self.column()[self.names().index_of(key)]
    }

    pub fn new() -> (table: Self)
        ensures
            table.names() == Seq::<Seq<char>>::empty(),
            table.column() == Seq::<V>::empty(),
    {
        let table = Table { keys: Vec::new(), values: Vec::new() };
        assert(table.names() =~= Seq::<Seq<char>>::empty());
        table
    }

    pub fn len(&self) -> (n: usize)
        ensures
            n == self.names().len(),
            n == self.column().len(),
            ascending(self.names()),
    {
        proof {
            use_type_invariant(self);
        }
        self.keys.len()
    }

    pub fn name(&self, i: usize) -> (name: &String)
        requires
            i < self.names().len(),
        ensures
            name@ == self.names()[i as int],
    {
        &self.keys[i]
    }

    pub fn value(&self, i: usize) -> (value: &V)
        requires
            i < self.column().len(),
        ensures
            *value == self.column()[i as int],
    {
        &self.values[i]
    }

    /// The value under a text.
    pub fn get(&self, key: &str) -> (value: Option<&V>)
        ensures
            value is Some == self.names().contains(key@),
            value matches Some(v) ==> *v == self.at(key@),
    {
        proof {
            use_type_invariant(self);
        }
        let at: usize = position(&self.keys, key);
        if at < self.keys.len() {
            proof {
                assert(self.names()[at as int] == key@);
                let first = self.names().index_of(key@);
                assert(self.names().contains(key@));
                one_place(self.names(), first, at as int);
            }
            Some(&self.values[at])
        } else {
            None
        }
    }

    /// Puts a value under a text, in place of the one that is there.
    pub fn set(&mut self, key: String, value: V)
        ensures
            old(self).with(*final(self), key@, value),
    {
        proof {
            use_type_invariant(&*self);
        }
        let ghost was = *self;
        let mut held: Table<V> = Table { keys: Vec::new(), values: Vec::new() };
        std::mem::swap(self, &mut held);
        let Table { mut keys, mut values } = held;
        let at: usize = place(&keys, key.as_str());
        if at < keys.len() && text::same(keys[at].as_str(), key.as_str()) {
            values.set(at, value);
            *self = Table { keys, values };
            proof {
                assert(self.names() == was.names());
                assert(self.names()[at as int] == key@);
                was.replaced(*self, at as int, key@, value);
            }
        } else {
            proof {
                assert(at < keys.len() ==> was.names()[at as int] != key@);
                inserted(was.names(), at as int, key@);
            }
            let ghost name = key@;
            keys.insert(at, key);
            values.insert(at, value);
            assert(text::texts(keys@) =~= was.names().insert(at as int, name));
            *self = Table { keys, values };
            proof {
                was.grown(*self, at as int, name, value);
            }
        }
    }

    proof fn replaced(self, now: Self, at: int, key: Seq<char>, value: V)
        requires
            ascending(self.names()),
            self.names().len() == self.column().len(),
            0 <= at < self.names().len(),
            self.names()[at] == key,
            now.names() == self.names(),
            now.column() == self.column().update(at, value),
        ensures
            self.with(now, key, value),
    {
        assert(self.names().contains(key));
        one_place(self.names(), self.names().index_of(key), at);
        assert forall|t: Seq<char>| t != key && self.names().contains(t) implies #[trigger] now.at(
            t,
        ) == self.at(t) by {
            let i = self.names().index_of(t);
            assert(self.names()[i] == t);
        }
    }

    proof fn grown(self, now: Self, at: int, key: Seq<char>, value: V)
        requires
            ascending(self.names()),
            self.names().len() == self.column().len(),
            0 <= at <= self.names().len(),
            now.names() == self.names().insert(at, key),
            now.column() == self.column().insert(at, value),
            ascending(now.names()),
            !self.names().contains(key),
            forall|t: Seq<char>| #[trigger]
                now.names().contains(t) == (self.names().contains(t) || t == key),
        ensures
            self.with(now, key, value),
    {
        assert(now.names()[at] == key);
        assert(now.names().contains(key));
        one_place(now.names(), now.names().index_of(key), at);
        assert forall|t: Seq<char>| t != key && self.names().contains(t) implies #[trigger] now.at(
            t,
        ) == self.at(t) by {
            let i = self.names().index_of(t);
            let j = now.names().index_of(t);
            assert(now.names().contains(t));
            if i < at {
                assert(now.names()[i] == t);
                one_place(now.names(), i, j);
            } else {
                assert(now.names()[i + 1] == t);
                one_place(now.names(), i + 1, j);
            }
        }
    }
}

/// The value under a text is the one in its place.
pub proof fn a_value_is_in_its_place<V>(table: Table<V>, i: int)
    requires
        table.valid(),
        0 <= i < table.names().len(),
    ensures
        table.names().contains(table.names()[i]),
        table.at(table.names()[i]) == table.column()[i],
{
    let names = table.names();
    let first = names.index_of(names[i]);
    assert(names.contains(names[i]));
    one_place(names, first, i);
}

} // verus!
