//! Text: what the rest of the library needs of strings, stated over their characters.

use vstd::prelude::*;

verus! {

/// The texts that a list of strings holds.
pub open spec fn texts(list: Seq<String>) -> Seq<Seq<char>> {
    list.map_values(|s: String| s@)
}

/// `String::push` appends the one character, as std documents it.
pub assume_specification[ String::push ](s: &mut String, c: char)
    ensures
        final(s)@ == old(s)@.push(c),
;

/// The characters of a text, in order.
pub fn chars(text: &str) -> (list: Vec<char>)
    ensures
        list@ == text@,
{
    let mut list: Vec<char> = Vec::new();
    for c in it: text.chars()
        invariant
            it.seq() == text@,
            list@ == text@.take(it.index()),
    {
        list.push(c);
    }
    list
}

/// The text of a run of characters.
pub fn string(list: &Vec<char>, from: usize, to: usize) -> (text: String)
    requires
        from <= to <= list.len(),
    ensures
        text@ == list@.subrange(from as int, to as int),
{
    let mut text = String::new();
    for i in from..to
        invariant
            to <= list.len(),
            text@ == list@.subrange(from as int, i as int),
    {
        text.push(list[i]);
    }
    text
}

/// Whether two texts are the same.
pub fn same(a: &str, b: &str) -> (yes: bool)
    ensures
        yes == (a@ == b@),
{
    let a: Vec<char> = chars(a);
    let b: Vec<char> = chars(b);
    same_chars(&a, &b)
}

pub fn same_chars(a: &Vec<char>, b: &Vec<char>) -> (yes: bool)
    ensures
        yes == (a@ == b@),
{
    if a.len() != b.len() {
        return false;
    }
    for i in 0..a.len()
        invariant
            a.len() == b.len(),
            forall|j: int| 0 <= j < i ==> a[j] == b[j],
    {
        if a[i] != b[i] {
            return false;
        }
    }
    assert(a@ =~= b@);
    true
}

/// Whether `a` comes before `b` once their first `i` characters are known to agree.
pub open spec fn before_from(a: Seq<char>, b: Seq<char>, i: int) -> bool
    decreases a.len() - i,
{
    if i >= b.len() {
        false
    } else if i >= a.len() {
        true
    } else if a[i] != b[i] {
        (a[i] as int) < (b[i] as int)
    } else {
        before_from(a, b, i + 1)
    }
}

/// The order of texts: by the first character that differs, a prefix before what it starts.
pub open spec fn before(a: Seq<char>, b: Seq<char>) -> bool {
    before_from(a, b, 0)
}

proof fn before_from_irreflexive(a: Seq<char>, i: int)
    ensures
        !before_from(a, a, i),
    decreases a.len() - i,
{
    if i < a.len() {
        before_from_irreflexive(a, i + 1);
    }
}

proof fn before_from_transitive(a: Seq<char>, b: Seq<char>, c: Seq<char>, i: int)
    requires
        before_from(a, b, i),
        before_from(b, c, i),
    ensures
        before_from(a, c, i),
    decreases a.len() - i,
{
    if i < a.len() && i < b.len() && i < c.len() && a[i] == b[i] && b[i] == c[i] {
        before_from_transitive(a, b, c, i + 1);
    }
}

proof fn before_from_total(a: Seq<char>, b: Seq<char>, i: int)
    requires
        0 <= i,
        i <= a.len(),
        i <= b.len(),
        forall|j: int| 0 <= j < i ==> a[j] == b[j],
        !before_from(a, b, i),
        !before_from(b, a, i),
    ensures
        a == b,
    decreases a.len() - i,
{
    if i < a.len() && i < b.len() {
        assert(a[i] == b[i]);
        before_from_total(a, b, i + 1);
    } else {
        assert(a =~= b);
    }
}

/// The order of texts is a strict total order.
pub proof fn before_is_a_strict_total_order(a: Seq<char>, b: Seq<char>, c: Seq<char>)
    ensures
        !before(a, a),
        before(a, b) && before(b, c) ==> before(a, c),
        before(a, b) ==> !before(b, a),
        a == b || before(a, b) || before(b, a),
{
    before_from_irreflexive(a, 0);
    if before(a, b) && before(b, c) {
        before_from_transitive(a, b, c, 0);
    }
    if before(a, b) && before(b, a) {
        before_from_transitive(a, b, a, 0);
    }
    if !before(a, b) && !before(b, a) {
        before_from_total(a, b, 0);
    }
}

/// The scalar value of a character.
fn code(c: char) -> (n: u32)
    ensures
        n == c as int,
{
    assert(0 <= c as int <= 0x10FFFF);
    assert(c as u32 == c as int);
    c as u32
}

/// Whether one text comes before another.
pub fn is_before(a: &str, b: &str) -> (yes: bool)
    ensures
        yes == before(a@, b@),
{
    let a: Vec<char> = chars(a);
    let b: Vec<char> = chars(b);
    let mut i: usize = 0;
    while i < a.len() && i < b.len() && a[i] == b[i]
        invariant
            i <= a.len(),
            i <= b.len(),
            before(a@, b@) == before_from(a@, b@, i as int),
        decreases a.len() - i,
    {
        i += 1;
    }
    if i >= b.len() {
        false
    } else if i >= a.len() {
        true
    } else {
        let x: char = a[i];
        let y: char = b[i];
        code(x) < code(y)
    }
}

/// Whether `part` stands in `whole` at `at`.
pub open spec fn stands_at(whole: Seq<char>, part: Seq<char>, at: int) -> bool {
    &&& 0 <= at
    &&& at + part.len() <= whole.len()
    &&& whole.subrange(at, at + part.len()) == part
}

/// Whether `part` stands anywhere in `whole`.
pub open spec fn holds(whole: Seq<char>, part: Seq<char>) -> bool {
    exists|at: int| stands_at(whole, part, at)
}

pub fn is_at(whole: &Vec<char>, part: &Vec<char>, at: usize) -> (yes: bool)
    ensures
        yes == stands_at(whole@, part@, at as int),
{
    if at > whole.len() || part.len() > whole.len() - at {
        return false;
    }
    for i in 0..part.len()
        invariant
            at + part.len() <= whole.len(),
            forall|j: int| 0 <= j < i ==> whole[at + j] == part[j],
    {
        if whole[at + i] != part[i] {
            proof {
                if stands_at(whole@, part@, at as int) {
                    assert(whole@.subrange(at as int, at + part@.len())[i as int] == part@[i as int]);
                }
            }
            return false;
        }
    }
    assert(whole@.subrange(at as int, at + part@.len()) =~= part@);
    true
}

/// Whether a text holds another.
pub fn contains(whole: &str, part: &str) -> (yes: bool)
    ensures
        yes == holds(whole@, part@),
{
    let w: Vec<char> = chars(whole);
    let p: Vec<char> = chars(part);
    if p.len() > w.len() {
        return false;
    }
    let last: usize = w.len() - p.len();
    let mut at: usize = 0;
    loop
        invariant
            at <= last,
            last == w.len() - p.len(),
            w@ == whole@,
            p@ == part@,
            forall|k: int| 0 <= k < at ==> !stands_at(w@, p@, k),
        decreases last - at,
    {
        if is_at(&w, &p, at) {
            return true;
        }
        if at == last {
            return false;
        }
        at += 1;
    }
}

/// Whether a text ends with another.
pub open spec fn ends(whole: Seq<char>, part: Seq<char>) -> bool {
    stands_at(whole, part, whole.len() - part.len())
}

/// The decimal digits of a number, no leading zero.
pub open spec fn decimal(n: nat) -> Seq<char>
    decreases n,
{
    if n < 10 {
        seq![digit(n)]
    } else {
        decimal(n / 10).push(digit(n % 10))
    }
}

pub open spec fn digit(d: nat) -> char {
    (48 + d) as char
}

fn digit_of(d: u64) -> (c: char)
    requires
        d < 10,
    ensures
        c == digit(d as nat),
{
    match d {
        0 => '0',
        1 => '1',
        2 => '2',
        3 => '3',
        4 => '4',
        5 => '5',
        6 => '6',
        7 => '7',
        8 => '8',
        _ => '9',
    }
}

/// A number as it is written.
pub fn number(n: u64) -> (text: String)
    ensures
        text@ == decimal(n as nat),
    decreases n,
{
    if n < 10 {
        let mut text = String::new();
        text.push(digit_of(n));
        assert(text@ =~= decimal(n as nat));
        text
    } else {
        let mut text = number(n / 10);
        text.push(digit_of(n % 10));
        text
    }
}

/// A sum as it is written.
pub fn long_number(n: u128) -> (text: String)
    ensures
        text@ == decimal(n as nat),
    decreases n,
{
    if n < 10 {
        number(n as u64)
    } else {
        let mut text = long_number(n / 10);
        text.push(digit_of((n % 10) as u64));
        text
    }
}

/// Texts joined with a separator between them.
pub open spec fn joined(list: Seq<Seq<char>>, between: Seq<char>) -> Seq<char>
    decreases list.len(),
{
    if list.len() == 0 {
        Seq::empty()
    } else if list.len() == 1 {
        list[0]
    } else {
        joined(list.drop_last(), between) + between + list.last()
    }
}

pub fn join(list: &Vec<String>, between: &str) -> (text: String)
    ensures
        text@ == joined(texts(list@), between@),
{
    let mut text = String::new();
    for i in 0..list.len()
        invariant
            text@ == joined(texts(list@).take(i as int), between@),
    {
        proof {
            let sofar = texts(list@).take(i as int);
            let next = texts(list@).take(i + 1);
            assert(next.drop_last() =~= sofar);
            assert(next.last() == list@[i as int]@);
        }
        if i > 0 {
            text.append(between);
        }
        text.append(list[i].as_str());
        assert(text@ =~= joined(texts(list@).take(i + 1), between@));
    }
    assert(texts(list@).take(list@.len() as int) =~= texts(list@));
    text
}

/// The runs of a text between separators; a text without one is a single run.
pub open spec fn split(s: Seq<char>, at: char) -> Seq<Seq<char>>
    decreases s.len(),
{
    if s.len() == 0 {
        seq![Seq::empty()]
    } else if s.last() == at {
        split(s.drop_last(), at).push(Seq::empty())
    } else {
        let front = split(s.drop_last(), at);
        front.drop_last().push(front.last().push(s.last()))
    }
}

pub proof fn split_is_never_empty(s: Seq<char>, at: char)
    ensures
        split(s, at).len() > 0,
    decreases s.len(),
{
    if s.len() > 0 {
        split_is_never_empty(s.drop_last(), at);
    }
}

/// A text split where a separator stands in it is what stands before that, split, and what stands
/// behind it.
pub proof fn split_joins(a: Seq<char>, b: Seq<char>, at: char)
    ensures
        split(a.push(at) + b, at) == split(a, at) + split(b, at),
    decreases b.len(),
{
    let s = a.push(at) + b;
    if b.len() == 0 {
        assert(s =~= a.push(at));
        assert(s.drop_last() =~= a);
        assert(split(a, at).push(Seq::empty()) =~= split(a, at) + split(b, at));
    } else {
        let front = b.drop_last();
        assert(s.drop_last() =~= a.push(at) + front);
        split_joins(a, front, at);
        split_is_never_empty(front, at);
        assert(split(s, at) =~= split(a, at) + split(b, at));
    }
}

/// No run of a split text holds the separator, and a text that holds none is one run.
pub proof fn runs_hold_no_separator(s: Seq<char>, at: char)
    ensures
        forall|i: int| 0 <= i < split(s, at).len() ==> !(#[trigger] split(s, at)[i]).contains(at),
        !s.contains(at) ==> split(s, at) == seq![s],
    decreases s.len(),
{
    if s.len() > 0 {
        let front = s.drop_last();
        runs_hold_no_separator(front, at);
        split_is_never_empty(front, at);
        let runs = split(front, at);
        assert forall|i: int| 0 <= i < split(s, at).len() implies !(#[trigger] split(
            s,
            at,
        )[i]).contains(at) by {
            if s.last() != at && i == runs.len() - 1 {
                let run = runs.last();
                assert(!runs[i].contains(at));
                let longer = run.push(s.last());
                if longer.contains(at) {
                    let k = choose|k: int| 0 <= k < longer.len() && longer[k] == at;
                    assert(run[k] == at);
                }
            } else if i < runs.len() {
                assert(!runs[i].contains(at));
            }
        }
        if !s.contains(at) {
            assert(!front.contains(at)) by {
                if front.contains(at) {
                    let k = choose|k: int| 0 <= k < front.len() && front[k] == at;
                    assert(s[k] == at);
                }
            }
            assert(s[s.len() - 1] != at);
            assert(front.push(s.last()) =~= s);
            assert(split(s, at) =~= seq![s]);
        }
    } else {
        assert(s =~= Seq::<char>::empty());
        assert(split(s, at) =~= seq![s]);
    }
}

pub fn split_on(text: &str, at: char) -> (list: Vec<String>)
    ensures
        texts(list@) == split(text@, at),
{
    let all: Vec<char> = chars(text);
    let mut list: Vec<String> = Vec::new();
    let mut run = String::new();
    assert(texts(list@).push(run@) =~= split(all@.take(0), at)) by {
        assert(all@.take(0) =~= Seq::<char>::empty());
    }
    for i in 0..all.len()
        invariant
            texts(list@).push(run@) == split(all@.take(i as int), at),
    {
        let ghost sofar = all@.take(i as int);
        let ghost next = all@.take(i + 1);
        let ghost had = texts(list@).push(run@);
        proof {
            assert(next.drop_last() =~= sofar);
            assert(next.last() == all@[i as int]);
            assert(had.drop_last() =~= texts(list@));
            assert(had.last() == run@);
        }
        if all[i] == at {
            let ghost was = list@;
            list.push(run);
            run = String::new();
            assert(texts(list@) =~= had);
            assert(texts(list@).push(run@) =~= split(next, at));
        } else {
            run.push(all[i]);
            assert(texts(list@).push(run@) =~= split(next, at));
        }
    }
    assert(all@.take(all@.len() as int) =~= all@);
    let ghost was = list@;
    let ghost tail = run@;
    list.push(run);
    assert(texts(list@) =~= texts(was).push(tail));
    list
}

/// Whitespace: the characters with the Unicode property `White_Space`.
pub open spec fn whitespace(c: char) -> bool {
    ||| '\u{9}' <= c <= '\u{d}'
    ||| c == ' '
    ||| c == '\u{85}'
    ||| c == '\u{a0}'
    ||| c == '\u{1680}'
    ||| '\u{2000}' <= c <= '\u{200a}'
    ||| c == '\u{2028}'
    ||| c == '\u{2029}'
    ||| c == '\u{202f}'
    ||| c == '\u{205f}'
    ||| c == '\u{3000}'
}

/// `char::is_whitespace` tells the characters with the Unicode property `White_Space`.
pub assume_specification[ char::is_whitespace ](c: char) -> (yes: bool)
    ensures
        yes == whitespace(c),
;

/// A character of the first hundred and twenty-eight.
pub open spec fn ascii(c: char) -> bool {
    c <= '\u{7f}'
}

/// A text of such characters alone.
pub open spec fn all_ascii(s: Seq<char>) -> bool {
    forall|i: int| 0 <= i < s.len() ==> ascii(#[trigger] s[i])
}

/// A letter or a digit among them.
pub open spec fn ascii_alphanumeric(c: char) -> bool {
    'a' <= c <= 'z' || 'A' <= c <= 'Z' || '0' <= c <= '9'
}

/// What `char::is_alphanumeric` says of the other characters: the Unicode properties `Alphabetic`
/// and `Numeric`.
pub uninterp spec fn unicode_alphanumeric(c: char) -> bool;

/// A letter or a digit.
pub open spec fn alphanumeric(c: char) -> bool {
    if ascii(c) {
        ascii_alphanumeric(c)
    } else {
        unicode_alphanumeric(c)
    }
}

/// `char::is_alphanumeric` tells the ASCII letters and digits among the ASCII characters, and
/// depends on the character alone for the others.
pub assume_specification[ char::is_alphanumeric ](c: char) -> (yes: bool)
    ensures
        yes == if ascii(c) {
            ascii_alphanumeric(c)
        } else {
            unicode_alphanumeric(c)
        },
;

/// What `str::to_lowercase` makes of a text that is not all ASCII: the Unicode lower case of it.
pub uninterp spec fn unicode_lowercase(s: Seq<char>) -> Seq<char>;

/// The lower case of a text.
pub open spec fn lowercase(s: Seq<char>) -> Seq<char> {
    if all_ascii(s) {
        lowered(s)
    } else {
        unicode_lowercase(s)
    }
}

/// `str::to_lowercase` makes the capitals of an ASCII text small and changes nothing else of it;
/// of another text, what comes out depends on the text alone.
pub assume_specification[ str::to_lowercase ](s: &str) -> (lower: String)
    ensures
        lower@ == if all_ascii(s@) {
            lowered(s@)
        } else {
            unicode_lowercase(s@)
        },
;

/// What `{:?}` writes for a text: the text in quotes, with what cannot stand there escaped.
pub uninterp spec fn debugged(s: Seq<char>) -> Seq<char>;

/// `{:?}` on a `str` depends on the text alone.
#[verifier::external_body]
pub(crate) fn debug(text: &str) -> (quoted: String)
    ensures
        quoted@ == debugged(text@),
{
    format!("{text:?}")
}

/// Whether a word starts at the end of a text: its last character is no whitespace, and the one
/// before it, if any, is.
pub open spec fn word_starts(s: Seq<char>) -> bool {
    s.len() > 0 && !whitespace(s.last()) && (s.len() == 1 || whitespace(s[s.len() - 2]))
}

/// How many whitespace-separated words a text holds.
pub open spec fn word_count(s: Seq<char>) -> nat
    decreases s.len(),
{
    if s.len() == 0 {
        0
    } else {
        word_count(s.drop_last()) + if word_starts(s) {
            1nat
        } else {
            0nat
        }
    }
}

pub proof fn word_count_is_bounded(s: Seq<char>)
    ensures
        word_count(s) <= s.len(),
    decreases s.len(),
{
    if s.len() > 0 {
        word_count_is_bounded(s.drop_last());
    }
}

pub fn count_words(text: &str) -> (n: usize)
    ensures
        n == word_count(text@),
{
    let all: Vec<char> = chars(text);
    let mut n: usize = 0;
    let mut inside: bool = false;
    for i in 0..all.len()
        invariant
            n == word_count(all@.take(i as int)),
            n <= i,
            inside == (i > 0 && !whitespace(all@[i - 1])),
    {
        let ghost next = all@.take(i + 1);
        assert(next.drop_last() =~= all@.take(i as int));
        let space: bool = all[i].is_whitespace();
        if !space && !inside {
            n += 1;
        }
        inside = !space;
    }
    assert(all@.take(all@.len() as int) =~= all@);
    n
}

/// Whether a text is empty but for whitespace.
pub open spec fn blank(s: Seq<char>) -> bool {
    forall|i: int| 0 <= i < s.len() ==> whitespace(#[trigger] s[i])
}

pub fn is_blank(text: &str) -> (yes: bool)
    ensures
        yes == blank(text@),
{
    let all: Vec<char> = chars(text);
    for i in 0..all.len()
        invariant
            all@ == text@,
            forall|k: int| 0 <= k < i ==> whitespace(#[trigger] all@[k]),
    {
        if !all[i].is_whitespace() {
            return false;
        }
    }
    true
}

/// A text without the whitespace at its end.
pub open spec fn trimmed_end(s: Seq<char>) -> Seq<char>
    decreases s.len(),
{
    if s.len() > 0 && whitespace(s.last()) {
        trimmed_end(s.drop_last())
    } else {
        s
    }
}

/// A line that ends in a line feed, without a carriage return before it.
pub open spec fn without_return(s: Seq<char>) -> Seq<char> {
    if s.len() > 0 && s.last() == '\r' {
        s.drop_last()
    } else {
        s
    }
}

/// The lines of a text: each ends in a line feed, or in a carriage return and a line feed, or at
/// the end of the text.
pub open spec fn lines(s: Seq<char>) -> Seq<Seq<char>> {
    let runs = split(s, '\n');
    let ended = runs.drop_last().map_values(|run: Seq<char>| without_return(run));
    if runs.last().len() == 0 {
        ended
    } else {
        ended.push(runs.last())
    }
}

pub fn lines_of(text: &str) -> (list: Vec<String>)
    ensures
        texts(list@) == lines(text@),
{
    let runs: Vec<String> = split_on(text, '\n');
    let mut list: Vec<String> = Vec::new();
    proof {
        split_is_never_empty(text@, '\n');
        assert(texts(runs@).len() == runs.len());
    }
    let last: usize = runs.len() - 1;
    for i in 0..last
        invariant
            last < runs.len(),
            texts(list@) == texts(runs@).take(i as int).map_values(
                |run: Seq<char>| without_return(run),
            ),
    {
        let all: Vec<char> = chars(runs[i].as_str());
        let n: usize = all.len();
        let ghost was = list@;
        if n > 0 && all[n - 1] == '\r' {
            let line: String = string(&all, 0, n - 1);
            assert(line@ =~= without_return(runs@[i as int]@));
            list.push(line);
        } else {
            list.push(runs[i].clone());
        }
        assert(texts(list@) =~= texts(was).push(without_return(runs@[i as int]@)));
        assert(texts(list@) =~= texts(runs@).take(i + 1).map_values(
            |run: Seq<char>| without_return(run),
        ));
    }
    assert(texts(runs@).take(last as int) =~= texts(runs@).drop_last());
    if !runs[last].as_str().is_empty() {
        let ghost was = list@;
        list.push(runs[last].clone());
        assert(texts(list@) =~= texts(was).push(runs@[last as int]@));
    }
    list
}

/// A text with every `part`, left to right, replaced by `with`.
pub open spec fn replaced(s: Seq<char>, part: Seq<char>, with: Seq<char>) -> Seq<char>
    decreases s.len(),
{
    if s.len() == 0 || part.len() == 0 {
        s
    } else if stands_at(s, part, 0) {
        with + replaced(s.skip(part.len() as int), part, with)
    } else {
        seq![s[0]] + replaced(s.skip(1), part, with)
    }
}

pub fn replace(text: &str, part: &str, with: &str) -> (changed: String)
    ensures
        changed@ == replaced(text@, part@, with@),
{
    let all: Vec<char> = chars(text);
    let sought: Vec<char> = chars(part);
    let mut changed = String::new();
    let mut i: usize = 0;
    if sought.len() == 0 {
        return text.to_owned();
    }
    assert(all@.skip(0) =~= all@);
    assert(changed@ + replaced(all@, part@, with@) =~= replaced(all@, part@, with@));
    while i < all.len()
        invariant
            i <= all.len(),
            sought@ == part@,
            sought.len() > 0,
            changed@ + replaced(all@.skip(i as int), part@, with@) == replaced(
                all@,
                part@,
                with@,
            ),
        decreases all.len() - i,
    {
        let ghost was = changed@;
        let ghost rest = all@.skip(i as int);
        if is_at(&all, &sought, i) {
            assert(rest.subrange(0, part@.len() as int) =~= all@.subrange(
                i as int,
                i + part@.len(),
            ));
            assert(stands_at(rest, part@, 0));
            changed.append(with);
            assert(rest.skip(part@.len() as int) =~= all@.skip(i + part@.len()));
            assert(was + replaced(rest, part@, with@) =~= changed@ + replaced(
                rest.skip(part@.len() as int),
                part@,
                with@,
            ));
            i += sought.len();
        } else {
            assert(!stands_at(rest, part@, 0)) by {
                if stands_at(rest, part@, 0) {
                    assert(all@.subrange(i as int, i + part@.len()) =~= rest.subrange(
                        0,
                        part@.len() as int,
                    ));
                }
            }
            changed.push(all[i]);
            assert(rest.skip(1) =~= all@.skip(i + 1));
            assert(was + replaced(rest, part@, with@) =~= changed@ + replaced(
                rest.skip(1),
                part@,
                with@,
            ));
            i += 1;
        }
    }
    assert(all@.skip(i as int) =~= Seq::<char>::empty());
    assert(changed@ + replaced(all@.skip(i as int), part@, with@) =~= changed@);
    changed
}

/// A character, an ASCII capital made small.
pub open spec fn small(c: char) -> char {
    if 'A' <= c && c <= 'Z' {
        ((c as u32) + 32) as char
    } else {
        c
    }
}

fn to_small(c: char) -> (d: char)
    ensures
        d == small(c),
{
    if 'A' <= c && c <= 'Z' {
        ((c as u8) + 32) as char
    } else {
        c
    }
}

/// A text, its ASCII capitals made small.
pub open spec fn lowered(s: Seq<char>) -> Seq<char>
    decreases s.len(),
{
    if s.len() == 0 {
        Seq::empty()
    } else {
        lowered(s.drop_last()).push(small(s.last()))
    }
}

pub fn lower_ascii(text: &str) -> (lower: String)
    ensures
        lower@ == lowered(text@),
{
    let all: Vec<char> = chars(text);
    let mut lower = String::new();
    assert(all@.take(0) =~= Seq::<char>::empty());
    for i in 0..all.len()
        invariant
            lower@ == lowered(all@.take(i as int)),
    {
        assert(all@.take(i + 1).drop_last() =~= all@.take(i as int));
        lower.push(to_small(all[i]));
    }
    assert(all@.take(all@.len() as int) =~= all@);
    lower
}

/// How many characters a text holds.
pub fn length(text: &str) -> (n: usize)
    ensures
        n == text@.len(),
{
    chars(text).len()
}

} // verus!
