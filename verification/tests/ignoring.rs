use s1m::s1mignore::{Ignore, IgnoreError, Source, FILE};

/// A root holding `lines` as its `.s1mignore`.
fn ignoring(lines: &str) -> Ignore {
    match Ignore::at("wiki", Source::Content(lines.to_string())) {
        Ok(ignore) => ignore,
        Err(error) => panic!("the fixture should parse: {}", error.message),
    }
}

fn refused(source: Source) -> IgnoreError {
    match Ignore::at("wiki", source) {
        Ok(_) => panic!("the rules cannot be read"),
        Err(error) => error,
    }
}

#[test]
fn a_root_without_the_file_matches_nothing() {
    let ignore = match Ignore::at("wiki", Source::Missing) {
        Ok(ignore) => ignore,
        Err(error) => panic!("a root without one is not an error: {}", error.message),
    };

    assert!(!ignore.matched("private/notes.md"));
    assert!(!ignore.matched("notes.md"));
}

#[test]
fn no_rules_match_nothing() {
    let ignore = Ignore::none();

    assert!(!ignore.matched("private/notes.md"));
    assert!(!ignore.matched(""));
}

/// A directory, named with the trailing slash gitignore gives it, covers everything under it, at any
/// depth.
#[test]
fn a_matched_directory_covers_what_is_under_it() {
    let ignore = ignoring("private/\n");

    assert!(ignore.matched("private/notes.md"));
    assert!(ignore.matched("private/notes/deep.md"));
    assert!(ignore.matched("notes/private/ledger.md"));
    assert!(!ignore.matched("notes.md"));
    assert!(!ignore.matched("notes/ledger.md"));
}

/// `!` keeps a path a broader pattern would have taken, and the last line that matches decides.
#[test]
fn a_negated_pattern_keeps_a_path() {
    let ignore = ignoring("*.md\n!keep.md\n");

    assert!(ignore.matched("draft.md"));
    assert!(!ignore.matched("keep.md"));
    assert!(ignore.matched("notes/draft.md"));
}

#[test]
fn a_leading_slash_anchors_a_pattern_to_the_root() {
    let ignore = ignoring("/drafts.md\n");

    assert!(ignore.matched("drafts.md"));
    assert!(!ignore.matched("notes/drafts.md"));
}

#[test]
fn comments_and_blank_lines_are_not_patterns() {
    let ignore = ignoring("# nothing here leaves the machine\n\nprivate/\n");

    assert!(ignore.matched("private/notes.md"));
    assert!(!ignore.matched("nothing here leaves the machine"));
}

/// The last pattern that matches a level decides at that level, and a `!` line cannot reach inside a
/// directory an earlier line excluded.
#[test]
fn negation_cannot_reach_inside_an_excluded_directory() {
    let ignore = ignoring("private/\n!private/readme.md\n");
    assert!(
        ignore.matched("private/readme.md"),
        "an excluded directory is not descended into, so nothing in it is re-included"
    );

    let ignore = ignoring("!private/readme.md\n");
    assert!(!ignore.matched("private/readme.md"));
}

/// The root's name being taken by something that is not a readable file is not the same as the root
/// having no `.s1mignore`.
#[test]
fn a_s1mignore_that_is_not_a_file_is_an_error() {
    let error = refused(Source::NotAFile);

    assert!(error.message.contains(FILE), "{}", error.message);
    assert!(
        error.message.contains("not a readable file"),
        "{}",
        error.message
    );
}

/// A link whose target has gone is the same mistake as a directory.
#[test]
fn a_s1mignore_that_is_a_broken_symlink_is_an_error() {
    let error = refused(Source::NotAFile);
    assert!(error.message.contains(FILE), "{}", error.message);
    assert_eq!(error.message, "wiki/.s1mignore: not a readable file");
}

#[test]
fn a_path_the_root_does_not_hold_matches_nothing() {
    let ignore = ignoring("private/\n");

    assert!(!ignore.matched("/private/notes.md"));
    assert!(ignore.matched("private/notes.md"));
}

#[test]
fn a_pattern_that_does_not_parse_is_an_error_naming_its_line() {
    let error = refused(Source::Content("private/\na{b\n".to_string()));

    assert!(error.message.contains("line 2"), "{}", error.message);
    assert!(error.message.contains(FILE), "{}", error.message);
}

/// The mark of byte order that an editor may put at a file's start is no part of its first pattern.
#[test]
fn a_mark_of_byte_order_is_no_part_of_a_pattern() {
    let ignore = ignoring("\u{feff}private/\n");

    assert!(ignore.matched("private/notes.md"));
}

/// A path outside the tree is not one the rules answer for, however it is spelled.
#[test]
fn a_path_that_climbs_out_of_the_root_is_not_answered_for() {
    let ignore = ignoring("private/\n");

    assert!(ignore.matched("private/notes.md"));
    assert!(!ignore.matched("/private/notes.md"));
    assert!(!ignore.matched("../private/notes.md"));
    assert!(!ignore.matched("notes/../../private/notes.md"));
    assert!(ignore.matched("notes/../private/notes.md"));

    let absolute = match Ignore::at("/wiki", Source::Content("private/\n".to_string())) {
        Ok(ignore) => ignore,
        Err(error) => panic!("the fixture should parse: {}", error.message),
    };
    assert!(absolute.matched("private/notes.md"));
    assert!(!absolute.matched("/private/notes.md"));
    assert!(!absolute.matched("/wiki/../private/notes.md"));
}
