//! `.s1mignore`: the paths a run never reads.
//!
//! A wiki that holds anything private needs a way to say so, because a query sends what it visits
//! to a third party. A root may hold a `.s1mignore` beside the pages it covers; its lines are
//! gitignore patterns. A path is looked at a level at a time from the root down, so the last
//! pattern to match a level decides at that level and a `!` line cannot re-include something inside
//! a directory an earlier line excluded.
//!
//! A `.s1mignore` that cannot be read, or that holds a pattern that does not parse, is an error.
//! Dropping a rule quietly would send exactly the files the rule was written for.

use vstd::prelude::*;

use ignore::gitignore::{Gitignore, GitignoreBuilder};

use crate::counting;
use crate::paths;
use crate::text;

verus! {

/// The name of the file, in the root the walk is bounded by.
pub const FILE: &'static str = ".s1mignore";

/// `ignore::gitignore::GitignoreBuilder`: patterns under way.
#[verifier::external_type_specification]
#[verifier::external_body]
pub struct ExGitignoreBuilder(ignore::gitignore::GitignoreBuilder);

/// `ignore::gitignore::Gitignore`: patterns that paths are held against.
#[verifier::external_type_specification]
#[verifier::external_body]
pub struct ExGitignore(ignore::gitignore::Gitignore);

/// The patterns a builder holds, as they were written.
pub uninterp spec fn globs_held(builder: GitignoreBuilder) -> Seq<Seq<char>>;

/// The directory a builder's patterns are matched against.
pub uninterp spec fn root_held(builder: GitignoreBuilder) -> Seq<char>;

/// The patterns a matcher holds, as they were written.
pub uninterp spec fn globs_of(matcher: Gitignore) -> Seq<Seq<char>>;

/// The directory a matcher's patterns are matched against.
pub uninterp spec fn root_of(matcher: Gitignore) -> Seq<char>;

/// Why a pattern is none, where it does not parse.
pub uninterp spec fn glob_fault(glob: Seq<char>) -> Option<Seq<char>>;

/// Why patterns that parse one by one cannot be matched together.
pub uninterp spec fn set_fault(globs: Seq<Seq<char>>) -> Option<Seq<char>>;

/// Whether the last of the patterns that match a path under a directory leaves it out.
pub uninterp spec fn git_ignores(
    root: Seq<char>,
    globs: Seq<Seq<char>>,
    path: Seq<char>,
    is_dir: bool,
) -> bool;

/// A directory without a `./` before it.
pub open spec fn without_dot(root: Seq<char>) -> Seq<char> {
    if root.len() >= 2 && root[0] == '.' && root[1] == '/' {
        root.skip(2)
    } else {
        root
    }
}

/// `GitignoreBuilder::new`: no patterns yet, matched against the directory without a `./` before
/// it.
#[verifier::external_body]
fn builder_at(root: &str) -> (builder: GitignoreBuilder)
    ensures
        globs_held(builder) == Seq::<Seq<char>>::empty(),
        root_held(builder) == without_dot(root@),
{
    GitignoreBuilder::new(root)
}

/// The pattern a line holds: none where it is a comment or blank; the blanks at its end belong to
/// it only where they are escaped.
pub open spec fn glob_in(line: Seq<char>) -> Option<Seq<char>> {
    let glob = if text::ends(line, seq!['\\', ' ']) {
        line
    } else {
        text::trimmed_end(line)
    };
    if (line.len() > 0 && line[0] == '#') || glob.len() == 0 {
        None
    } else {
        Some(glob)
    }
}

/// `GitignoreBuilder::add_line` with no file named: a comment and a blank line change nothing, a
/// pattern that parses is held behind the others, and one that does not is left out and its error
/// told. Whether it parses, and the error's text, depend on the pattern alone.
#[verifier::external_body]
fn add_line(builder: &mut GitignoreBuilder, line: &str) -> (fault: Option<String>)
    ensures
        root_held(*final(builder)) == root_held(*old(builder)),
        match glob_in(line@) {
            None => fault is None && globs_held(*final(builder)) == globs_held(*old(builder)),
            Some(glob) => match glob_fault(glob) {
                None => fault is None && globs_held(*final(builder)) == globs_held(
                    *old(builder),
                ).push(glob),
                Some(why) => fault is Some && fault->0@ == why && globs_held(*final(builder))
                    == globs_held(*old(builder)),
            },
        },
{
    match builder.add_line(None, line) {
        Ok(_) => None,
        Err(error) => Some(error.to_string()),
    }
}

/// `GitignoreBuilder::build`: a matcher that holds the builder's patterns, and its directory where
/// there are any. Whether they can be matched together, and the error's text, depend on the
/// patterns alone.
#[verifier::external_body]
fn build(builder: &GitignoreBuilder) -> (matcher: Result<Gitignore, String>)
    ensures
        match matcher {
            Ok(matcher) => globs_of(matcher) == globs_held(*builder) && (globs_held(*builder).len()
                > 0 ==> set_fault(globs_held(*builder)) is None && root_of(matcher) == root_held(
                *builder,
            )),
            Err(message) => globs_held(*builder).len() > 0 && set_fault(globs_held(*builder))
                == Some(message@),
        },
{
    builder.build().map_err(|error| error.to_string())
}

/// `Gitignore::matched`, and `Match::is_ignore` of what it returns: that depends on the patterns,
/// their directory, the path and whether it is a directory's; no patterns leave nothing out.
#[verifier::external_body]
fn leaves_out(matcher: &Gitignore, path: &str, is_dir: bool) -> (yes: bool)
    ensures
        globs_of(*matcher).len() == 0 ==> !yes,
        globs_of(*matcher).len() > 0 ==> yes == git_ignores(
            root_of(*matcher),
            globs_of(*matcher),
            path@,
            is_dir,
        ),
{
    matcher.matched(path, is_dir).is_ignore()
}

/// Why a `.s1mignore` could not be used.
pub struct IgnoreError {
    pub message: String,
}

/// What stands under the name of the file in a root.
pub enum Source {
    /// Nothing at all, which is the one case that means no rules.
    Missing,
    /// Something that is not a readable file.
    NotAFile,
    Content(String),
}

/// The patterns one root's `.s1mignore` holds.
pub struct Ignore {
    root: String,
    /// None when the root holds no `.s1mignore`, which matches nothing.
    matcher: Option<Gitignore>,
}

/// A text without the marks of byte order that it starts with.
pub open spec fn without_marks(s: Seq<char>) -> Seq<char>
    decreases s.len(),
{
    if s.len() > 0 && s[0] == '\u{feff}' {
        without_marks(s.skip(1))
    } else {
        s
    }
}

/// The lines of a file of patterns.
pub open spec fn rule_lines(content: Seq<char>) -> Seq<Seq<char>> {
    let lines = text::lines(content);
    if lines.len() > 0 {
        lines.update(0, without_marks(lines[0]))
    } else {
        lines
    }
}

/// The patterns among lines that parse.
pub open spec fn globs_in(lines: Seq<Seq<char>>) -> Seq<Seq<char>>
    decreases lines.len(),
{
    if lines.len() == 0 {
        Seq::empty()
    } else {
        match glob_in(lines.last()) {
            Some(glob) if glob_fault(glob) is None => globs_in(lines.drop_last()).push(glob),
            _ => globs_in(lines.drop_last()),
        }
    }
}

/// What is said of a line whose pattern does not parse.
pub open spec fn line_fault(source: Seq<char>, number: nat, why: Seq<char>) -> Seq<char> {
    source + ": line "@ + text::decimal(number) + ": "@ + why
}

/// What is said of the lines whose pattern does not parse.
pub open spec fn faults_in(source: Seq<char>, lines: Seq<Seq<char>>) -> Seq<Seq<char>>
    decreases lines.len(),
{
    if lines.len() == 0 {
        Seq::empty()
    } else {
        let others = faults_in(source, lines.drop_last());
        match glob_in(lines.last()) {
            Some(glob) => match glob_fault(glob) {
                Some(why) => others.push(line_fault(source, lines.len(), why)),
                None => others,
            },
            None => others,
        }
    }
}

pub const NOT_READABLE: &'static str = ": not a readable file";

/// Why the file of a root cannot be used.
pub open spec fn ignore_fault(root: Seq<char>, source: Source) -> Option<Seq<char>> {
    let file = paths::joined_path(root, FILE@);
    match source {
        Source::Missing => None,
        Source::NotAFile => Some(file + NOT_READABLE@),
        Source::Content(content) => {
            let lines = rule_lines(content@);
            let globs = globs_in(lines);
            let faults = faults_in(file, lines);
            if faults.len() > 0 {
                Some(text::joined(faults, "\n"@))
            } else if globs.len() > 0 {
                set_fault(globs)
            } else {
                None
            }
        },
    }
}

/// The patterns a root's file holds.
pub open spec fn rules_of(source: Source) -> Seq<Seq<char>> {
    match source {
        Source::Content(content) => globs_in(rule_lines(content@)),
        _ => Seq::empty(),
    }
}

/// How far the parts of a path lead down, less how far they lead up.
pub open spec fn height(parts: Seq<Seq<char>>) -> int
    decreases parts.len(),
{
    if parts.len() == 0 {
        0
    } else {
        height(parts.drop_last()) + if paths::rank(parts.last()) == 3 {
            1int
        } else if paths::rank(parts.last()) == 2 {
            -1int
        } else {
            0int
        }
    }
}

/// No leading part of a path climbs above where it starts, and none starts again at the root of
/// all.
pub open spec fn stays_inside(parts: Seq<Seq<char>>) -> bool {
    &&& forall|n: int| 0 <= n <= parts.len() ==> #[trigger] height(parts.take(n)) >= 0
    &&& forall|i: int| 0 <= i < parts.len() ==> paths::rank(#[trigger] parts[i]) != 0
}

/// Whether a root holds a path that is spelled relative to it.
pub open spec fn is_inside(root: Seq<char>, path: Seq<char>) -> bool {
    paths::below(paths::joined_path(root, path), root) matches Some(rest) && stays_inside(rest)
}

/// Whether a root holds a path.
fn holds(root: &str, path: &str) -> (yes: bool)
    ensures
        yes == is_inside(root@, path@),
{
    let whole: String = paths::join(root, path);
    if paths::strip(whole.as_str(), root).is_none() {
        return false;
    }
    let all: Vec<String> = paths::parts(whole.as_str());
    let front: Vec<String> = paths::parts(root);
    let ghost (long, short) = (text::texts(all@), text::texts(front@));
    let ghost rest = long.skip(short.len() as int);
    assert(short.len() == front.len() && long.len() == all.len());
    assert(rest.take(0) =~= Seq::<Seq<char>>::empty());
    let mut up: usize = 0;
    for i in front.len()..all.len()
        invariant
            short.len() == front.len(),
            long.len() == all.len(),
            front.len() <= all.len(),
            long == text::texts(all@),
            rest == long.skip(short.len() as int),
            up == height(rest.take(i - front.len())),
            up <= i - front.len(),
            forall|n: int| 0 <= n <= i - front.len() ==> #[trigger] height(rest.take(n)) >= 0,
            forall|k: int| 0 <= k < i - front.len() ==> paths::rank(#[trigger] rest[k]) != 0,
            paths::below(paths::joined_path(root@, path@), root@) == Some(rest),
    {
        let ghost k = i - front.len();
        proof {
            counting::one_more(rest, k);
            assert(rest[k] == all@[i as int]@);
        }
        let kind: u8 = paths::rank_of(all[i].as_str());
        if kind == 0 {
            return false;
        }
        if kind == 2 {
            if up == 0 {
                assert(height(rest.take(k + 1)) < 0);
                return false;
            }
            up -= 1;
        } else if kind == 3 {
            up += 1;
        }
    }
    proof {
        counting::take_all(rest);
    }
    true
}

/// A level of a path under a root: the root and the first `n` components.
pub open spec fn level(root: Seq<char>, components: Seq<Seq<char>>, n: int) -> Seq<char>
    decreases n,
{
    if n <= 0 {
        root
    } else {
        paths::joined_path(level(root, components, n - 1), components[n - 1])
    }
}

fn lines_of_rules(content: &str) -> (lines: Vec<String>)
    ensures
        text::texts(lines@) == rule_lines(content@),
{
    let mut lines: Vec<String> = text::lines_of(content);
    if lines.len() > 0 {
        let ghost was = text::texts(lines@);
        let chars: Vec<char> = text::chars(lines[0].as_str());
        let mut from: usize = 0;
        assert(chars@.skip(0) =~= chars@);
        while from < chars.len() && chars[from] == '\u{feff}'
            invariant
                from <= chars.len(),
                without_marks(chars@) == without_marks(chars@.skip(from as int)),
            decreases chars.len() - from,
        {
            assert(chars@.skip(from as int).skip(1) =~= chars@.skip(from + 1));
            from += 1;
        }
        let first: String = text::string(&chars, from, chars.len());
        assert(first@ =~= chars@.skip(from as int));
        assert(was[0] == chars@);
        lines.set(0, first);
        assert(text::texts(lines@) =~= was.update(0, without_marks(was[0])));
    }
    lines
}

impl Ignore {
    /// The root the patterns were read against.
    pub closed spec fn root(self) -> Seq<char> {
        self.root@
    }

    /// The patterns.
    pub closed spec fn globs(self) -> Seq<Seq<char>> {
        match self.matcher {
            Some(matcher) => globs_of(matcher),
            None => Seq::empty(),
        }
    }

    #[verifier::type_invariant]
    spec fn sound(self) -> bool {
        match self.matcher {
            Some(matcher) => globs_of(matcher).len() > 0 ==> root_of(matcher) == without_dot(
                self.root@,
            ),
            None => true,
        }
    }

    /// Whether a pattern leaves out the first `n` components of a path: a directory's, where there
    /// are more.
    pub open spec fn leaves_out(self, path: Seq<char>, n: int) -> bool {
        let components = paths::components(path);
        git_ignores(
            without_dot(self.root()),
            self.globs(),
            level(self.root(), components, n),
            n < components.len(),
        )
    }

    /// Whether a path matches a pattern or lies under a directory that does: a path that the root
    /// does not hold, such as one that climbs out of it, is not one that can be answered for.
    pub open spec fn matches(self, path: Seq<char>) -> bool {
        &&& self.globs().len() > 0
        &&& is_inside(self.root(), path)
        &&& exists|n: int|
            0 < n <= paths::components(path).len() && #[trigger] self.leaves_out(path, n)
    }

    /// The patterns in a root's `.s1mignore`, or none when the root has no such file.
    pub fn at(root: &str, source: Source) -> (ignore: Result<Ignore, IgnoreError>)
        ensures
            match ignore {
                Ok(ignore) => ignore_fault(root@, source) is None && ignore.globs() == rules_of(
                    source,
                ) && (rules_of(source).len() > 0 ==> ignore.root() == root@),
                Err(error) => ignore_fault(root@, source) == Some(error.message@),
            },
    {
        let content: String = match source {
            Source::Missing => return Ok(Ignore::none()),
            Source::NotAFile => {
                let mut message: String = paths::join(root, FILE);
                message.append(NOT_READABLE);
                return Err(IgnoreError { message });
            },
            Source::Content(content) => content,
        };
        let file: String = paths::join(root, FILE);
        let lines: Vec<String> = lines_of_rules(content.as_str());
        let ghost all = text::texts(lines@);
        let mut builder: GitignoreBuilder = builder_at(root);
        let mut faults: Vec<String> = Vec::new();
        assert(text::texts(faults@) =~= Seq::<Seq<char>>::empty());
        for i in 0..lines.len()
            invariant
                all == text::texts(lines@),
                root_held(builder) == without_dot(root@),
                globs_held(builder) == globs_in(all.take(i as int)),
                text::texts(faults@) == faults_in(file@, all.take(i as int)),
        {
            proof {
                counting::one_more(all, i as int);
                assert(all[i as int] == lines@[i as int]@);
                assert(all.take(i + 1).len() == i + 1);
            }
            let ghost was = text::texts(faults@);
            match add_line(&mut builder, lines[i].as_str()) {
                Some(why) => {
                    let mut fault: String = file.clone();
                    fault.append(": line ");
                    fault.append(text::number(i as u64 + 1).as_str());
                    fault.append(": ");
                    fault.append(why.as_str());
                    let ghost said = fault@;
                    assert(said == line_fault(file@, (i + 1) as nat, why@));
                    faults.push(fault);
                    assert(text::texts(faults@) =~= was.push(said));
                },
                None => {},
            }
        }
        proof {
            counting::take_all(all);
        }
        assert(text::texts(faults@).len() == faults.len());
        if faults.len() > 0 {
            return Err(IgnoreError { message: text::join(&faults, "\n") });
        }
        match build(&builder) {
            Ok(matcher) => Ok(Ignore { root: root.to_owned(), matcher: Some(matcher) }),
            Err(message) => Err(IgnoreError { message }),
        }
    }

    /// No patterns: what a root without a `.s1mignore` holds, and what a caller that wants none
    /// passes.
    pub fn none() -> (ignore: Ignore)
        ensures
            ignore.globs().len() == 0,
            ignore.globs() == Seq::<Seq<char>>::empty(),
    {
        Ignore { root: String::new(), matcher: None }
    }

    /// Whether a path, spelled relative to the root, matches a pattern or lies under a directory
    /// that does.
    pub fn matched(&self, path: &str) -> (yes: bool)
        ensures
            yes == self.matches(path@),
    {
        proof {
            use_type_invariant(self);
        }
        let matcher: &Gitignore = match &self.matcher {
            Some(matcher) => matcher,
            None => return false,
        };
        let root: &str = self.root.as_str();
        if !holds(root, path) {
            return false;
        }
        let components: Vec<String> = paths::parts(path);
        let ghost all = paths::components(path@);
        assert(all.len() == components.len());
        let mut candidate: String = root.to_owned();
        for i in 0..components.len()
            invariant
                all == paths::components(path@),
                all == text::texts(components@),
                all.len() == components.len(),
                root@ == self.root(),
                self.globs() == globs_of(*matcher),
                self.globs().len() > 0 ==> root_of(*matcher) == without_dot(root@),
                is_inside(self.root(), path@),
                candidate@ == level(root@, all, i as int),
                forall|n: int|
                    self.globs().len() > 0 && 0 < n <= i ==> !#[trigger] self.leaves_out(path@, n),
        {
            assert(all[i as int] == components@[i as int]@);
            candidate = paths::join(candidate.as_str(), components[i].as_str());
            let is_dir: bool = i + 1 < components.len();
            if leaves_out(matcher, candidate.as_str(), is_dir) {
                assert(self.leaves_out(path@, i + 1));
                return true;
            }
        }
        false
    }
}

/// A root without the file leaves nothing out.
pub proof fn no_patterns_match_nothing(ignore: Ignore, path: Seq<char>)
    requires
        ignore.globs().len() == 0,
    ensures
        !ignore.matches(path),
{
}

/// A path that climbs out of the root is not answered for, whatever the patterns leave out where it
/// leads.
pub proof fn a_path_that_climbs_out_is_not_matched(ignore: Ignore, path: Seq<char>)
    requires
        ignore.root().len() > 0,
        path.len() > 0 ==> path[0] != '/',
        paths::components(path).len() > 0 ==> paths::components(path)[0] != seq!['.'],
        !stays_inside(paths::components(path)),
    ensures
        !ignore.matches(path),
{
    let root = ignore.root();
    paths::components_join(root, path);
    let (front, own) = (paths::components(root), paths::components(path));
    assert((front + own).skip(front.len() as int) =~= own);
}

proof fn one_level(root: Seq<char>, a: Seq<Seq<char>>, b: Seq<Seq<char>>, n: int)
    requires
        0 <= n <= a.len(),
        n <= b.len(),
        a.take(n) == b.take(n),
    ensures
        level(root, a, n) == level(root, b, n),
    decreases n,
{
    if n > 0 {
        assert(a[n - 1] == a.take(n)[n - 1] && b[n - 1] == b.take(n)[n - 1]);
        assert(a.take(n - 1) =~= a.take(n).take(n - 1));
        assert(b.take(n - 1) =~= b.take(n).take(n - 1));
        one_level(root, a, b, n - 1);
    }
}

/// A directory that a pattern leaves out covers everything under it, whatever the other patterns
/// say of what is there: two paths that the root holds and that go through it are left out alike.
pub proof fn an_excluded_directory_covers_what_is_under_it(
    ignore: Ignore,
    path: Seq<char>,
    other: Seq<char>,
    n: int,
)
    requires
        ignore.globs().len() > 0,
        0 < n < paths::components(path).len(),
        n < paths::components(other).len(),
        paths::components(path).take(n) == paths::components(other).take(n),
        ignore.leaves_out(path, n),
        is_inside(ignore.root(), other),
    ensures
        ignore.matches(other),
{
    one_level(ignore.root(), paths::components(path), paths::components(other), n);
    assert(ignore.leaves_out(other, n));
}

} // verus!
