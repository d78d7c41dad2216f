//! What is promised of where a walk starts, of what an answer lists, and of how a command that
//! failed is told of.

use vstd::prelude::*;

use crate::cli;
use crate::cli::{Error, Options};
use crate::explore;
use crate::explore::Usage;
use crate::laws::texts;
use crate::pass;
use crate::paths;
use crate::s1mignore::Ignore;
use crate::text;

verus! {

/// What stands in a string neither opens nor closes a list, and a quote behind a backslash does not
/// end the string; outside a string a bracket opens or closes a list, and a quote starts a string.
pub proof fn brackets_in_a_string_are_text(s: Seq<char>, start: int, end: int)
    requires
        0 <= start <= end < s.len(),
    ensures
        ({
            let (a, b) = (explore::scanned(s, start, end), explore::scanned(s, start, end + 1));
            let c = s[end];
            &&& a.in_string ==> a.depth == b.depth
            &&& a.in_string && a.escaped ==> b.in_string && !b.escaped
            &&& a.in_string && !a.escaped ==> b.in_string == (c != '"') && b.escaped == (c == '\\')
            &&& !a.in_string ==> b.in_string == (c == '"') && b.escaped == a.escaped
            &&& !a.in_string && c == '[' && a.depth < usize::MAX ==> b.depth == a.depth + 1
            &&& !a.in_string && c == ']' && a.depth > 0 ==> b.depth == a.depth - 1
            &&& !a.in_string && c != '[' && c != ']' ==> b.depth == a.depth
        }),
{
}

proof fn within_one_list(s: Seq<char>, end: int)
    requires
        0 < end <= s.len() - 1,
        s[0] == '[',
        forall|i: int|
            0 < i < s.len() - 1 ==> (#[trigger] s[i]) != '[' && s[i] != ']' && s[i] != '"',
    ensures
        explore::scanned(s, 0, end) == (explore::Scan { depth: 1, in_string: false, escaped: false }),
    decreases end,
{
    if end > 1 {
        within_one_list(s, end - 1);
        assert(s[end - 1] != '[' && s[end - 1] != ']' && s[end - 1] != '"');
    } else {
        assert(explore::scanned(s, 0, 0) == (explore::Scan {
            depth: 0,
            in_string: false,
            escaped: false,
        }));
        assert(s[0] == '[');
    }
}

/// A list is read from the bracket that opens it to the one that closes it.
pub proof fn a_list_ends_where_it_is_closed(body: Seq<char>)
    requires
        forall|i: int|
            0 <= i < body.len() ==> (#[trigger] body[i]) != '[' && body[i] != ']' && body[i] != '"',
    ensures
        explore::is_bracketed(seq!['['] + body + seq![']'], 0, seq!['['] + body + seq![']']),
{
    let s = seq!['['] + body + seq![']'];
    let last = s.len() - 1;
    assert(s[0] == '[' && s[last] == ']');
    assert forall|i: int| 0 < i < s.len() - 1 implies (#[trigger] s[i]) != '[' && s[i] != ']'
        && s[i] != '"' by {
        assert(s[i] == body[i - 1]);
    }
    assert forall|at: int| 0 < at <= last implies (#[trigger] explore::scanned(s, 0, at)).depth
        > 0 by {
        within_one_list(s, at);
    }
    within_one_list(s, last);
    assert(explore::scanned(s, 0, last + 1).depth == 0);
    assert(explore::closes(s, 0, last));
    assert(s.subrange(0, last + 1) =~= s);
}

/// What an answer lists is its last list: behind a list the last of what follows, and the list
/// itself where none does; what opens no list is passed over.
pub proof fn the_last_list_is_the_answer(s: Seq<char>, from: int, end: int)
    requires
        0 <= from < s.len(),
    ensures
        explore::opens_list(s, from) && explore::closes(s, from, end) && explore::last_list(
            s,
            end + 1,
        ) is Some ==> explore::last_list(s, from) == explore::last_list(s, end + 1),
        explore::opens_list(s, from) && explore::closes(s, from, end) && explore::last_list(
            s,
            end + 1,
        ) is None ==> explore::last_list(s, from) == explore::list_from(s, from),
        !explore::opens_list(s, from) ==> explore::last_list(s, from) == explore::last_list(
            s,
            from + 1,
        ),
        explore::last_list(s, s.len() as int) is None,
{
    if explore::closes(s, from, end) {
        let other = explore::closing(s, from);
        assert(explore::closes(s, from, other));
        if other < end {
            assert(explore::scanned(s, from, other + 1).depth > 0);
        } else if end < other {
            assert(explore::scanned(s, from, end + 1).depth > 0);
        }
        assert(other == end);
    }
}

/// Tokens are added kind by kind, and their sum is over all kinds.
pub proof fn tokens_are_added_by_kind(a: Usage, b: Usage)
    requires
        a.input + b.input <= u64::MAX,
        a.output + b.output <= u64::MAX,
        a.cache_read + b.cache_read <= u64::MAX,
        a.cache_create + b.cache_create <= u64::MAX,
    ensures
        a.plus(b).input == a.input + b.input,
        a.plus(b).output == a.output + b.output,
        a.plus(b).cache_read == a.cache_read + b.cache_read,
        a.plus(b).cache_create == a.cache_create + b.cache_create,
        a.plus(b).sum() == a.sum() + b.sum(),
        a.sum() == a.input + a.output + a.cache_read + a.cache_create,
        Usage::zero().sum() == 0,
{
}

/// The walk is bounded by the root that is given, else by the directory of the first entry file,
/// which is the current one where the file is named alone; without an entry there is no walk.
pub proof fn a_walk_is_bounded_by_its_root(
    options: Options,
    dir: Seq<char>,
    name: Seq<char>,
)
    requires
        paths::is_name(name),
        dir.len() > 0,
        dir.last() != '/',
        !text::ends(dir, seq!['/', '.']),
    ensures
        options.entries.len() == 0 ==> options.base() is None,
        options.entries.len() > 0 ==> (options.root matches Some(root) ==> options.base() == Some(
            root@,
        )),
        options.entries.len() > 0 && options.root is None && options.entries@[0]@ == dir + seq!['/']
            + name ==> options.base() == Some(dir),
        options.entries.len() > 0 && options.root is None && options.entries@[0]@ == name
            ==> options.base() == Some("."@),
{
    texts::a_file_is_in_its_directory(dir, name);
}

/// An entry under the root is looked up by its path from there, and another as it is spelled.
pub proof fn an_entry_is_looked_up_from_the_root(root: Seq<char>, names: Seq<Seq<char>>, other: Seq<char>)
    requires
        root.len() > 0,
        paths::all_names(names),
        paths::below(other, root) is None,
    ensures
        cli::relative_to(root, paths::joined_path(root, text::joined(names, seq!['/'])))
            == text::joined(names, seq!['/']),
        cli::relative_to(root, other) == other,
{
    texts::a_joined_path_is_below_its_directory(root, names);
}

/// The first entry that the rules leave out or that cannot be read is what a walk is refused for:
/// for the rules where they match it, and else for what reading it gave.
pub proof fn a_walk_is_refused_for_its_first_bad_entry(
    root: Seq<char>,
    ignore: Ignore,
    entries: Seq<Seq<char>>,
    tried: Seq<Result<(), String>>,
    at: int,
    error: Error,
    k: int,
)
    requires
        cli::is_first_open(root, ignore, entries, tried, at),
        cli::is_refusal(root, ignore, entries, tried, at, error),
    ensures
        0 <= k < at ==> !ignore.matches(cli::relative_to(root, entries[k])) && tried[k] is Ok,
        (error is Ignored) == ignore.matches(cli::relative_to(root, entries[at])),
        error matches Error::Ignored { path, file } ==> path@ == entries[at] && file@
            == paths::joined_path(root, ".s1mignore"@),
        !ignore.matches(cli::relative_to(root, entries[at])) ==> tried[at] is Err && error
            == Error::Entry(tried[at]->Err_0),
{
    if 0 <= k < at {
        assert(cli::is_sound(root, ignore, entries, tried, k));
    }
}

/// A number is told with a minus where it is below nothing, and by its digits.
pub proof fn a_status_is_told_with_its_sign(n: int)
    ensures
        n >= 0 ==> texts::worth_of(pass::signed(n)) == n,
        n < 0 ==> pass::signed(n).len() > 1 && pass::signed(n)[0] == '-' && texts::worth_of(
            pass::signed(n).skip(1),
        ) == -n,
{
    if n >= 0 {
        texts::a_number_is_worth_its_digits(n as nat);
    } else {
        texts::a_number_is_worth_its_digits((-n) as nat);
        reveal_strlit("-");
        assert(pass::signed(n).skip(1) =~= text::decimal((-n) as nat));
    }
}

} // verus!
