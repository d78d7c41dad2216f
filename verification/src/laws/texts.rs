//! What is promised of texts and of paths.

use vstd::prelude::*;

use crate::paths;
use crate::text;

verus! {

/// What digits are worth, read from the left.
pub open spec fn worth_of(digits: Seq<char>) -> int
    decreases digits.len(),
{
    if digits.len() == 0 {
        0
    } else {
        10 * worth_of(digits.drop_last()) + (digits.last() as int - '0' as int)
    }
}

/// A number is written in digits that are worth it, with no zero in front.
pub proof fn a_number_is_worth_its_digits(n: nat)
    ensures
        worth_of(text::decimal(n)) == n,
        text::decimal(n).len() > 0,
        forall|i: int| 0 <= i < text::decimal(n).len() ==> '0' <= #[trigger] text::decimal(n)[i] <= '9',
        n > 0 ==> text::decimal(n)[0] != '0',
        n == 0 ==> text::decimal(n) == seq!['0'],
    decreases n,
{
    let digits = text::decimal(n);
    if n < 10 {
        assert(digits.drop_last() =~= Seq::<char>::empty());
        assert(worth_of(digits.drop_last()) == 0);
        assert(digits.last() == (48 + n) as char);
    } else {
        a_number_is_worth_its_digits(n / 10);
        let front = text::decimal(n / 10);
        assert(digits.drop_last() =~= front);
        assert(digits.last() == (48 + n % 10) as char);
        assert forall|i: int| 0 <= i < digits.len() implies '0' <= #[trigger] digits[i] <= '9' by {
            if i < front.len() {
                assert(digits[i] == front[i]);
            }
        }
        assert(digits[0] == front[0]);
    }
}

/// A text is split into runs that hold no separator and that give it back, one separator between
/// each and the next.
pub proof fn runs_give_the_text_back(s: Seq<char>, at: char)
    ensures
        text::joined(text::split(s, at), seq![at]) == s,
        forall|i: int|
            0 <= i < text::split(s, at).len() ==> !(#[trigger] text::split(s, at)[i]).contains(at),
    decreases s.len(),
{
    let runs = text::split(s, at);
    text::runs_hold_no_separator(s, at);
    text::split_is_never_empty(s, at);
    if s.len() > 0 {
        let front = text::split(s.drop_last(), at);
        runs_give_the_text_back(s.drop_last(), at);
        text::split_is_never_empty(s.drop_last(), at);
        if s.last() == at {
            assert(runs.drop_last() =~= front);
            assert(text::joined(runs, seq![at]) =~= s);
        } else {
            assert(runs.drop_last() =~= front.drop_last());
            if runs.len() > 1 {
                assert(text::joined(runs, seq![at]) =~= text::joined(front, seq![at]).push(
                    s.last(),
                ));
            } else {
                assert(text::joined(runs, seq![at]) =~= front[0].push(s.last()));
            }
            assert(s.drop_last().push(s.last()) =~= s);
        }
    } else {
        assert(text::joined(runs, seq![at]) =~= s);
    }
}

proof fn one_run(s: Seq<char>, at: char)
    requires
        !s.contains(at),
    ensures
        text::split(s, at) == seq![s],
    decreases s.len(),
{
    if s.len() > 0 {
        let front = s.drop_last();
        assert(s[s.len() - 1] != at);
        assert(!front.contains(at)) by {
            if front.contains(at) {
                let i = choose|i: int| 0 <= i < front.len() && front[i] == at;
                assert(s[i] == at);
            }
        }
        one_run(front, at);
        assert(text::split(s, at) =~= seq![s]) by {
            assert(front.push(s.last()) =~= s);
        }
    } else {
        assert(s =~= Seq::<char>::empty());
        assert(text::split(s, at) =~= seq![s]);
    }
}

/// Lines follow one another: a line more, ended or not, is the last, without the newline or the
/// carriage return that ends it.
pub proof fn a_line_follows_the_lines_before(before: Seq<char>, line: Seq<char>)
    requires
        before.len() == 0 || before.last() == '\n',
        !line.contains('\n'),
    ensures
        line.len() == 0 || line.last() != '\r' ==> text::lines(before + line.push('\n'))
            == text::lines(before).push(line),
        text::lines(before + line.push('\r').push('\n')) == text::lines(before).push(line),
        line.len() > 0 ==> text::lines(before + line) == text::lines(before).push(line),
        line.len() == 0 ==> text::lines(before + line) == text::lines(before),
        text::lines(Seq::empty()).len() == 0,
{
    let empty = Seq::<char>::empty();
    one_run(empty, '\n');
    one_run(line, '\n');
    let returned = line.push('\r');
    assert(!returned.contains('\n')) by {
        if returned.contains('\n') {
            let i = choose|i: int| 0 <= i < returned.len() && returned[i] == '\n';
            assert(line[i] == '\n');
        }
    }
    one_run(returned, '\n');
    assert(returned.drop_last() =~= line);
    follows(before, line);
    follows(before, line.push('\n'));
    follows(before, returned.push('\n'));
    assert(line.push('\n') + empty =~= line.push('\n'));
    assert(returned.push('\n') + empty =~= returned.push('\n'));
    text::split_joins(line, empty, '\n');
    text::split_joins(returned, empty, '\n');
    assert(text::lines(empty) =~= Seq::<Seq<char>>::empty());
    let runs = text::split(line.push('\n'), '\n');
    assert(runs =~= seq![line, empty]);
    assert(runs.drop_last() =~= seq![line]);
    let more = text::split(returned.push('\n'), '\n');
    assert(more =~= seq![returned, empty]);
    assert(more.drop_last() =~= seq![returned]);
    assert(text::lines(returned.push('\n')) =~= seq![line]);
    assert(line.len() == 0 || line.last() != '\r' ==> text::lines(line.push('\n')) =~= seq![line]);
    assert(line.len() > 0 ==> text::lines(line) =~= seq![line]) by {
        assert(text::split(line, '\n').drop_last() =~= Seq::<Seq<char>>::empty());
    }
    assert(line.len() == 0 ==> before + line =~= before);
}

proof fn follows(before: Seq<char>, rest: Seq<char>)
    requires
        before.len() == 0 || before.last() == '\n',
    ensures
        text::lines(before + rest) == text::lines(before) + text::lines(rest),
{
    let empty = Seq::<char>::empty();
    one_run(empty, '\n');
    let of = |run: Seq<char>| text::without_return(run);
    if before.len() == 0 {
        assert(before =~= empty);
        assert(text::split(empty, '\n').drop_last() =~= Seq::<Seq<char>>::empty());
        assert(text::lines(before) =~= Seq::<Seq<char>>::empty());
        assert(before + rest =~= rest);
        assert(text::lines(before) + text::lines(rest) =~= text::lines(rest));
    } else {
        let front = before.drop_last();
        assert(before =~= front.push('\n') + empty);
        assert(before + rest =~= front.push('\n') + rest);
        text::split_joins(front, rest, '\n');
        text::split_joins(front, empty, '\n');
        text::split_is_never_empty(rest, '\n');
        let (a, b) = (text::split(front, '\n'), text::split(rest, '\n'));
        assert((a + seq![empty]).drop_last() =~= a);
        assert((a + b).drop_last() =~= a + b.drop_last());
        assert((a + b).last() == b.last());
        assert((a + b.drop_last()).map_values(of) =~= a.map_values(of) + b.drop_last().map_values(
            of,
        ));
        assert(text::lines(before + rest) =~= text::lines(before) + text::lines(rest));
    }
}

/// Texts are ordered by the first character in which they differ, and a text comes before what goes
/// on from it.
pub proof fn texts_are_ordered_by_where_they_part(
    same: Seq<char>,
    a: Seq<char>,
    b: Seq<char>,
)
    ensures
        a.len() > 0 && b.len() > 0 && a[0] < b[0] ==> text::before(same + a, same + b)
            && !text::before(same + b, same + a),
        b.len() > 0 ==> text::before(same, same + b) && !text::before(same + b, same),
        !text::before(same, same),
{
    part_from(same, a, b, 0);
    part_from(same, b, a, 0);
    let empty = Seq::<char>::empty();
    part_from(same, empty, b, 0);
    part_from(same, b, empty, 0);
    part_from(same, empty, empty, 0);
    assert(same + empty =~= same);
}

proof fn part_from(same: Seq<char>, a: Seq<char>, b: Seq<char>, i: int)
    requires
        0 <= i <= same.len(),
    ensures
        a.len() > 0 && b.len() > 0 && a[0] != b[0] ==> text::before_from(same + a, same + b, i) == (
        a[0] < b[0]),
        a.len() == 0 ==> text::before_from(same + a, same + b, i) == (b.len() > 0),
        b.len() == 0 ==> !text::before_from(same + a, same + b, i),
    decreases same.len() - i,
{
    if i < same.len() {
        assert((same + a)[i] == (same + b)[i]);
        part_from(same, a, b, i + 1);
    } else {
        assert(a.len() > 0 ==> (same + a)[i] == a[0]);
        assert(b.len() > 0 ==> (same + b)[i] == b[0]);
    }
}

/// A text is trimmed of the whitespace at its end and of nothing else.
pub proof fn only_whitespace_is_trimmed(s: Seq<char>)
    ensures
        text::trimmed_end(s).is_prefix_of(s),
        text::blank(s.skip(text::trimmed_end(s).len() as int)),
        text::trimmed_end(s).len() > 0 ==> !text::whitespace(text::trimmed_end(s).last()),
        text::blank(s) == (text::trimmed_end(s).len() == 0),
    decreases s.len(),
{
    if s.len() > 0 && text::whitespace(s.last()) {
        let front = s.drop_last();
        only_whitespace_is_trimmed(front);
        let kept = text::trimmed_end(s);
        let (all, some) = (s.skip(kept.len() as int), front.skip(kept.len() as int));
        assert(all =~= some.push(s.last()));
        assert(text::blank(s) == text::blank(front)) by {
            if text::blank(front) {
                assert forall|i: int| 0 <= i < s.len() implies text::whitespace(#[trigger] s[i]) by {
                    if i < front.len() {
                        assert(text::whitespace(front[i]));
                    }
                }
            }
            if text::blank(s) {
                assert forall|i: int| 0 <= i < front.len() implies text::whitespace(
                    #[trigger] front[i],
                ) by {
                    assert(text::whitespace(s[i]));
                }
            }
        }
    } else {
        assert(s.skip(s.len() as int) =~= Seq::<char>::empty());
        if s.len() > 0 {
            assert(!text::whitespace(s[s.len() - 1]));
        }
    }
}

/// What stands in a text is replaced at the first place where it stands, and then in what follows;
/// a text in which it does not stand is left.
pub proof fn the_first_is_replaced_and_then_the_rest(
    a: Seq<char>,
    part: Seq<char>,
    b: Seq<char>,
    with: Seq<char>,
)
    requires
        part.len() > 0,
        forall|k: int| 0 <= k < a.len() ==> !text::stands_at(a + part + b, part, k),
    ensures
        text::replaced(a + part + b, part, with) == a + with + text::replaced(b, part, with),
    decreases a.len(),
{
    let whole = a + part + b;
    if a.len() == 0 {
        assert(whole =~= part + b);
        assert(whole.subrange(0, part.len() as int) =~= part);
        assert(whole.skip(part.len() as int) =~= b);
        assert(a + with =~= with);
    } else {
        assert(!text::stands_at(whole, part, 0));
        let rest = a.skip(1);
        assert(whole.skip(1) =~= rest + part + b);
        assert forall|k: int| 0 <= k < rest.len() implies !text::stands_at(
            rest + part + b,
            part,
            k,
        ) by {
            assert(!text::stands_at(whole, part, k + 1));
            if text::stands_at(rest + part + b, part, k) {
                assert(whole.subrange(k + 1, k + 1 + part.len()) =~= (rest + part + b).subrange(
                    k,
                    k + part.len(),
                ));
            }
        }
        the_first_is_replaced_and_then_the_rest(rest, part, b, with);
        assert(seq![a[0]] + (rest + with + text::replaced(b, part, with)) =~= a + with
            + text::replaced(b, part, with));
    }
}

/// A text in which a part does not stand is left as it is.
pub proof fn what_does_not_stand_is_not_replaced(s: Seq<char>, part: Seq<char>, with: Seq<char>)
    requires
        !text::holds(s, part),
    ensures
        text::replaced(s, part, with) == s,
    decreases s.len(),
{
    if s.len() > 0 && part.len() > 0 {
        assert(!text::stands_at(s, part, 0));
        let rest = s.skip(1);
        assert(!text::holds(rest, part)) by {
            if text::holds(rest, part) {
                let at = choose|at: int| text::stands_at(rest, part, at);
                assert(s.subrange(at + 1, at + 1 + part.len()) =~= rest.subrange(
                    at,
                    at + part.len(),
                ));
                assert(text::stands_at(s, part, at + 1));
            }
        }
        what_does_not_stand_is_not_replaced(rest, part, with);
        assert(seq![s[0]] + rest =~= s);
    }
}

/// A letter of the English alphabet is lowered and every other character stays.
pub proof fn letters_are_lowered_in_their_places(s: Seq<char>)
    ensures
        text::lowered(s).len() == s.len(),
        forall|i: int|
            0 <= i < s.len() ==> (#[trigger] text::lowered(s)[i]) as int == if 'A' <= s[i] <= 'Z' {
                s[i] as int - 'A' as int + 'a' as int
            } else {
                s[i] as int
            },
    decreases s.len(),
{
    if s.len() > 0 {
        let front = s.drop_last();
        letters_are_lowered_in_their_places(front);
        assert forall|i: int| 0 <= i < s.len() implies (#[trigger] text::lowered(s)[i]) as int
            == if 'A' <= s[i] <= 'Z' {
            s[i] as int - 'A' as int + 'a' as int
        } else {
            s[i] as int
        } by {
            if i < front.len() {
                assert(text::lowered(s)[i] == text::lowered(front)[i]);
                assert(front[i] == s[i]);
            } else {
                let c = s[i];
                assert(text::lowered(s)[i] == text::small(c));
            }
        }
    }
}

/// A word is what stands between whitespace: a word more, behind whitespace, is one more, and
/// whitespace behind a text is none.
pub proof fn a_word_more_is_counted(s: Seq<char>, word: Seq<char>)
    requires
        word.len() > 0,
        forall|i: int| 0 <= i < word.len() ==> !text::whitespace(#[trigger] word[i]),
        s.len() == 0 || text::whitespace(s.last()),
    ensures
        text::word_count(s + word) == text::word_count(s) + 1,
        forall|c: char| text::whitespace(c) ==> #[trigger] text::word_count((s + word).push(c))
            == text::word_count(s) + 1,
        forall|c: char| text::whitespace(c) ==> #[trigger] text::word_count(s.push(c))
            == text::word_count(s),
        text::word_count(Seq::empty()) == 0,
    decreases word.len(),
{
    let whole = s + word;
    let front = word.drop_last();
    assert(whole.drop_last() =~= s + front);
    assert(whole.last() == word[word.len() - 1]);
    if front.len() > 0 {
        assert forall|i: int| 0 <= i < front.len() implies !text::whitespace(
            #[trigger] front[i],
        ) by {
            assert(front[i] == word[i]);
        }
        a_word_more_is_counted(s, front);
        assert(whole[whole.len() - 2] == word[word.len() - 2]);
    } else {
        assert(s + front =~= s);
        if s.len() > 0 {
            assert(whole[whole.len() - 2] == s.last());
        }
    }
    assert forall|c: char| text::whitespace(c) implies #[trigger] text::word_count(whole.push(c))
        == text::word_count(s) + 1 by {
        assert(whole.push(c).drop_last() =~= whole);
        assert(text::word_count(whole) == text::word_count(s) + 1);
        assert(whole.push(c).last() == c);
        assert(!text::word_starts(whole.push(c)));
    }
    assert forall|c: char| text::whitespace(c) implies #[trigger] text::word_count(s.push(c))
        == text::word_count(s) by {
        assert(s.push(c).drop_last() =~= s);
    }
}

/// The directory of a file is what stands before its name.
pub proof fn a_file_is_in_its_directory(dir: Seq<char>, name: Seq<char>)
    requires
        paths::is_name(name),
        dir.len() > 0,
        dir.last() != '/',
        !text::ends(dir, seq!['/', '.']),
    ensures
        paths::parent(dir + seq!['/'] + name) == Some(dir),
        paths::parent(name) == Some(Seq::<char>::empty()),
{
    let whole = dir + seq!['/'] + name;
    let n = name.len() as int;
    assert(name[n - 1] != '/') by {
        if name[n - 1] == '/' {
            assert(name.contains('/'));
        }
    }
    assert(whole.last() == name[n - 1]);
    if n > 1 {
        assert(name[n - 2] != '/') by {
            if name[n - 2] == '/' {
                assert(name.contains('/'));
            }
        }
        assert(whole[whole.len() - 2] == name[n - 2]);
    } else if name[0] == '.' {
        assert(name =~= seq!['.']);
    }
    up_to(dir.push('/'), name);
    assert(dir.push('/') + name =~= whole);
    assert(dir.push('/').drop_last() =~= dir);
    if dir.len() > 1 && dir.last() == '.' && dir[dir.len() - 2] == '/' {
        assert(dir.subrange(dir.len() - 2, dir.len() as int) =~= seq!['/', '.']);
    }
    assert(paths::trimmed_path(dir) == dir);
    assert(paths::trimmed_path(dir.push('/')) == dir);
    up_to(Seq::empty(), name);
    assert(Seq::<char>::empty() + name =~= name);
    assert(name != seq!['/']) by {
        assert(seq!['/'].last() == '/');
    }
    assert(whole != seq!['/']) by {
        assert(whole.len() > 1);
    }
}

proof fn up_to(dir: Seq<char>, name: Seq<char>)
    requires
        dir.len() == 0 || dir.last() == '/',
        !name.contains('/'),
    ensures
        paths::up_to_slash(dir + name) == dir,
    decreases name.len(),
{
    if name.len() > 0 {
        let front = name.drop_last();
        assert(name[name.len() - 1] != '/');
        assert(!front.contains('/')) by {
            if front.contains('/') {
                let i = choose|i: int| 0 <= i < front.len() && front[i] == '/';
                assert(name[i] == '/');
            }
        }
        up_to(dir, front);
        assert((dir + name).drop_last() =~= dir + front);
        assert((dir + name).last() == name.last());
    } else {
        assert(dir + name =~= dir);
    }
}

/// A path is below a directory by the components that follow the directory's, and by no others.
pub proof fn what_is_below_follows_the_directory(
    path: Seq<char>,
    dir: Seq<char>,
    rest: Seq<Seq<char>>,
)
    ensures
        (paths::below(path, dir) == Some(rest)) == (paths::components(path) == paths::components(
            dir,
        ) + rest),
{
    let (whole, front) = (paths::components(path), paths::components(dir));
    if front.is_prefix_of(whole) {
        assert(front + whole.skip(front.len() as int) =~= whole);
    }
    if whole == front + rest {
        assert(whole.skip(front.len() as int) =~= rest);
        assert(front.is_prefix_of(whole));
    }
}

/// A relative path under a directory is below it by its own names.
pub proof fn a_joined_path_is_below_its_directory(dir: Seq<char>, names: Seq<Seq<char>>)
    requires
        dir.len() > 0,
        paths::all_names(names),
    ensures
        paths::below(paths::joined_path(dir, text::joined(names, seq!['/'])), dir) == Some(names),
{
    let path = paths::path_of(names);
    paths::names_are_components(names);
    paths::components_are_names(path);
    if names.len() > 0 {
        assert(paths::is_name(names[0]));
        assert(names[0] != seq!['/']) by {
            assert(seq!['/'][0] == '/');
        }
    } else {
        assert(path =~= Seq::<char>::empty());
    }
    paths::components_join(dir, path);
    what_is_below_follows_the_directory(paths::joined_path(dir, path), dir, names);
}

/// Paths that part at names come in the order of those names, whatever stands above them and below;
/// what is above comes before what is under it.
pub proof fn paths_are_ordered_by_where_they_part(
    above: Seq<Seq<char>>,
    a: Seq<Seq<char>>,
    b: Seq<Seq<char>>,
)
    requires
        paths::all_names(above + a),
        paths::all_names(above + b),
        b.len() > 0,
        b[0] != seq!['.', '.'],
    ensures
        a.len() > 0 && a[0] != seq!['.', '.'] && text::before(a[0], b[0]) ==> paths::path_before(
            paths::path_of(above + a),
            paths::path_of(above + b),
        ),
        a.len() > 0 && a[0] == seq!['.', '.'] ==> paths::path_before(
            paths::path_of(above + a),
            paths::path_of(above + b),
        ),
        a.len() == 0 ==> paths::path_before(paths::path_of(above), paths::path_of(above + b)),
{
    paths::names_are_components(above + a);
    paths::names_are_components(above + b);
    assert(a.len() == 0 ==> above + a =~= above);
    assert((above + b)[above.len() as int] == b[0]);
    assert(paths::is_name(b[0]));
    assert(b[0] != seq!['/']) by {
        if b[0] == seq!['/'] {
            assert(seq!['/'][0] == '/');
            assert(b[0].contains('/'));
        }
    }
    if a.len() > 0 {
        assert((above + a)[above.len() as int] == a[0]);
        assert(paths::is_name(a[0]));
        assert(a[0] != seq!['/']) by {
            if a[0] == seq!['/'] {
                assert(seq!['/'][0] == '/');
                assert(a[0].contains('/'));
            }
        }
        assert(seq!['.', '.'].len() != seq!['.'].len());
        assert(seq!['.', '.'].len() != seq!['/'].len());
        text::before_is_a_strict_total_order(a[0], a[0], a[0]);
    }
    paths_part(above, a, b, 0);
}

proof fn paths_part(above: Seq<Seq<char>>, a: Seq<Seq<char>>, b: Seq<Seq<char>>, i: int)
    requires
        0 <= i <= above.len(),
        b.len() > 0,
    ensures
        a.len() == 0 ==> paths::before_from(above + a, above + b, i),
        a.len() > 0 && a[0] != b[0] ==> paths::before_from(above + a, above + b, i)
            == paths::part_before(a[0], b[0]),
    decreases above.len() - i,
{
    if i < above.len() {
        assert((above + a)[i] == (above + b)[i]);
        paths_part(above, a, b, i + 1);
    } else {
        assert(a.len() > 0 ==> (above + a)[i] == a[0]);
        assert((above + b)[i] == b[0]);
    }
}

/// A list of paths holds each path of it once, the first spelling of each.
pub proof fn each_path_is_listed_once(list: Seq<Seq<char>>)
    ensures
        forall|path: Seq<char>| #[trigger]
            paths::holds(paths::once(list), path) == paths::holds(list, path),
        forall|i: int, j: int|
            0 <= i < j < paths::once(list).len() ==> paths::components(
                #[trigger] paths::once(list)[i],
            ) != paths::components(#[trigger] paths::once(list)[j]),
        forall|i: int|
            0 <= i < paths::once(list).len() ==> list.contains(#[trigger] paths::once(list)[i]),
        forall|i: int|
            0 <= i < list.len() && !paths::holds(list.take(i), #[trigger] list[i]) ==> paths::once(
                list,
            ).contains(list[i]),
    decreases list.len(),
{
    if list.len() > 0 {
        let n = list.len() - 1;
        let front = list.drop_last();
        let (before, after) = (paths::once(front), paths::once(list));
        each_path_is_listed_once(front);
        assert forall|path: Seq<char>| #[trigger] paths::holds(after, path) == paths::holds(
            list,
            path,
        ) by {
            assert(paths::holds(before, path) == paths::holds(front, path));
            if paths::holds(front, path) {
                let i = choose|i: int| 0 <= i < front.len() && paths::same_path(front[i], path);
                assert(paths::same_path(list[i], path));
                let k = choose|k: int| 0 <= k < before.len() && paths::same_path(before[k], path);
                assert(paths::same_path(after[k], path));
            }
            if paths::holds(list, path) {
                let i = choose|i: int| 0 <= i < list.len() && paths::same_path(list[i], path);
                if i < n {
                    assert(paths::same_path(front[i], path));
                } else if paths::holds(before, list[n]) {
                    let k = choose|k: int|
                        0 <= k < before.len() && paths::same_path(before[k], list[n]);
                    assert(paths::same_path(after[k], path));
                } else {
                    assert(paths::same_path(after[before.len() as int], path));
                }
            }
            if paths::holds(after, path) {
                let k = choose|k: int| 0 <= k < after.len() && paths::same_path(after[k], path);
                if k < before.len() {
                    assert(paths::same_path(before[k], path));
                } else {
                    assert(paths::same_path(list[n], path));
                }
            }
        }
        assert forall|i: int, j: int| 0 <= i < j < after.len() implies paths::components(
            #[trigger] after[i],
        ) != paths::components(#[trigger] after[j]) by {
            assert(after[i] == before[i]);
            if j < before.len() {
                assert(after[j] == before[j]);
            } else {
                assert(after[j] == list[n]);
                assert(!paths::same_path(before[i], list[n]));
            }
        }
        assert forall|i: int| 0 <= i < after.len() implies list.contains(#[trigger] after[i]) by {
            if i < before.len() {
                assert(front.contains(before[i]));
                let k = choose|k: int| 0 <= k < front.len() && front[k] == before[i];
                assert(list[k] == after[i]);
            } else {
                assert(list[n] == after[i]);
            }
        }
        assert forall|i: int|
            0 <= i < list.len() && !paths::holds(list.take(i), #[trigger] list[i]) implies after.contains(
        list[i]) by {
            if i < n {
                assert(front[i] == list[i]);
                assert(front.take(i) =~= list.take(i));
                assert(before.contains(front[i]));
                let k = choose|k: int| 0 <= k < before.len() && before[k] == front[i];
                assert(after[k] == list[i]);
            } else {
                assert(list.take(n) =~= front);
                assert(paths::holds(before, list[n]) == paths::holds(front, list[n]));
                assert(after[before.len() as int] == list[n]);
            }
        }
    }
}

} // verus!
