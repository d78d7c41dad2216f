//! What a reading list promises: it carries the walk, every file of it once.

use vstd::prelude::*;

use crate::cli;
use crate::cli::{FailedFile, Failure, Options, RankedLink, RankedSection, ReadingList, VisitedFile};
use crate::counting;
use crate::doubles;
use crate::laws::basics;
use crate::paths;
use crate::sorting;
use crate::text;

verus! {

/// Where the files that earn a place stand in the walk, or those that do not.
proof fn places_of(files: Seq<VisitedFile>, threshold: u64, place: bool) -> (at: Seq<int>)
    ensures
        at.len() == cli::placed(files, threshold, place).len(),
        forall|k: int|
            0 <= k < at.len() ==> 0 <= #[trigger] at[k] < files.len() && cli::placed(
                files,
                threshold,
                place,
            )[k] == files[at[k]] && cli::earns(files[at[k]], threshold) == place,
        forall|j: int, k: int| 0 <= j < k < at.len() ==> #[trigger] at[j] < #[trigger] at[k],
    decreases files.len(),
{
    if files.len() == 0 {
        Seq::empty()
    } else {
        let before = places_of(files.drop_last(), threshold, place);
        if cli::earns(files.last(), threshold) == place {
            before.push(files.len() - 1)
        } else {
            before
        }
    }
}

/// A reading list carries the walk: what was asked and what it took, and every file that was judged
/// in one of its two lists, in the order of the walk, with the walk's own relevance, scent, path to
/// it and links, each path spelled from the root.
pub proof fn a_list_carries_the_walk(
    options: Options,
    root: Seq<char>,
    judged: Seq<VisitedFile>,
    calls: u64,
    list: ReadingList,
) -> (at: (Seq<int>, Seq<int>))
    requires
        cli::is_reading_list(options, root, judged, calls, list),
    ensures
        list.query@ == options.query@,
        list.mode@ == options.mode@,
        list.scorer@ == options.scorer@,
        list.calls == calls,
        list.visited == judged.len(),
        at.0.len() == list.results.len(),
        at.1.len() == list.walked.len(),
        list.results.len() + list.walked.len() == judged.len(),
        forall|k: int| 0 <= k < at.0.len() ==> 0 <= #[trigger] at.0[k] < judged.len(),
        forall|k: int| 0 <= k < at.1.len() ==> 0 <= #[trigger] at.1[k] < judged.len(),
        forall|j: int, k: int| 0 <= j < k < at.0.len() ==> #[trigger] at.0[j] < #[trigger] at.0[k],
        forall|j: int, k: int| 0 <= j < k < at.1.len() ==> #[trigger] at.1[j] < #[trigger] at.1[k],
        forall|j: int, k: int|
            0 <= j < at.0.len() && 0 <= k < at.1.len() ==> #[trigger] at.0[j] != #[trigger] at.1[k],
        forall|k: int|
            0 <= k < list.results.len() ==> {
                let (file, of) = (#[trigger] list.results@[k], judged[at.0[k]]);
                &&& file.path@ == cli::displayed(root, of.path@)
                &&& file.relevance == of.relevance
                &&& file.scent == of.scent
                &&& file.via.len() == of.via.len()
                &&& file.links.len() == of.links.len()
            },
        forall|k: int|
            0 <= k < list.walked.len() ==> {
                let (file, of) = (#[trigger] list.walked@[k], judged[at.1[k]]);
                &&& file.path@ == cli::displayed(root, of.path@)
                &&& file.relevance == of.relevance
                &&& file.scent == of.scent
                &&& file.via.len() == of.via.len()
                &&& file.links.len() == of.links.len()
            },
        forall|k: int, i: int|
            0 <= k < list.results.len() && 0 <= i < list.results@[k].via.len()
                ==> (#[trigger] list.results@[k].via@[i])@ == cli::displayed(
                root,
                judged[at.0[k]].via@[i]@,
            ),
        forall|k: int, i: int|
            0 <= k < list.walked.len() && 0 <= i < list.walked@[k].via.len()
                ==> (#[trigger] list.walked@[k].via@[i])@ == cli::displayed(
                root,
                judged[at.1[k]].via@[i]@,
            ),
        forall|k: int, i: int|
            0 <= k < list.results.len() && 0 <= i < list.results@[k].links.len() ==> {
                let (link, of) = (
                    #[trigger] list.results@[k].links@[i],
                    judged[at.0[k]].links@[i],
                );
                &&& link.target@ == cli::displayed(root, of.target@)
                &&& link.scent == of.scent
                &&& link.followed == of.followed
                &&& link.reason == of.reason
            },
        forall|k: int, i: int|
            0 <= k < list.walked.len() && 0 <= i < list.walked@[k].links.len() ==> {
                let (link, of) = (
                    #[trigger] list.walked@[k].links@[i],
                    judged[at.1[k]].links@[i],
                );
                &&& link.target@ == cli::displayed(root, of.target@)
                &&& link.scent == of.scent
                &&& link.followed == of.followed
                &&& link.reason == of.reason
            },
        forall|k: int|
            0 <= k < list.results.len() ==> (#[trigger] list.results@[k]).sections@ == cli::ranked(
                judged[at.0[k]].sections@,
                options.threshold,
            ),
        forall|k: int| 0 <= k < at.0.len() ==> cli::earns(judged[#[trigger] at.0[k]], options.threshold),
        forall|k: int|
            0 <= k < at.1.len() ==> !cli::earns(judged[#[trigger] at.1[k]], options.threshold),
{
    let threshold = options.threshold;
    let earning = places_of(judged, threshold, true);
    let passing = places_of(judged, threshold, false);
    cli::a_visited_file_is_reported_once(judged, threshold);
    assert forall|k: int| 0 <= k < list.results.len() implies {
        let (file, of) = (#[trigger] list.results@[k], judged[earning[k]]);
        &&& cli::is_result(root, threshold, of, file)
        &&& file.via.len() == of.via.len()
        &&& file.links.len() == of.links.len()
    } by {
        let (file, of) = (list.results@[k], judged[earning[k]]);
        assert(0 <= earning[k] < judged.len());
        assert(text::texts(file.via@).len() == cli::all_displayed(root, text::texts(of.via@)).len());
    }
    assert forall|k: int| 0 <= k < list.walked.len() implies {
        let (file, of) = (#[trigger] list.walked@[k], judged[passing[k]]);
        &&& cli::is_walked(root, of, file)
        &&& file.via.len() == of.via.len()
        &&& file.links.len() == of.links.len()
    } by {
        let (file, of) = (list.walked@[k], judged[passing[k]]);
        assert(0 <= passing[k] < judged.len());
        assert(text::texts(file.via@).len() == cli::all_displayed(root, text::texts(of.via@)).len());
    }
    assert forall|k: int, i: int| 0 <= k < list.results.len() && 0 <= i < list.results@[k].via.len()
        implies (#[trigger] list.results@[k].via@[i])@ == cli::displayed(
        root,
        judged[earning[k]].via@[i]@,
    ) by {
        let (file, of) = (list.results@[k], judged[earning[k]]);
        assert(text::texts(file.via@)[i] == cli::all_displayed(root, text::texts(of.via@))[i]);
    }
    assert forall|k: int, i: int| 0 <= k < list.walked.len() && 0 <= i < list.walked@[k].via.len()
        implies (#[trigger] list.walked@[k].via@[i])@ == cli::displayed(
        root,
        judged[passing[k]].via@[i]@,
    ) by {
        let (file, of) = (list.walked@[k], judged[passing[k]]);
        assert(text::texts(file.via@)[i] == cli::all_displayed(root, text::texts(of.via@))[i]);
    }
    assert forall|j: int, k: int|
        0 <= j < earning.len() && 0 <= k < passing.len() implies #[trigger] earning[j]
        != #[trigger] passing[k] by {}
    (earning, passing)
}

/// No file that a link reached is reported as one that none did: where the walk has a scent for a
/// file, or files on the way to it, so does the list, in whichever of its two parts the file is.
pub proof fn a_reached_file_is_reported_as_reached(
    options: Options,
    root: Seq<char>,
    judged: Seq<VisitedFile>,
    calls: u64,
    list: ReadingList,
    i: int,
)
    requires
        cli::is_reading_list(options, root, judged, calls, list),
        0 <= i < judged.len(),
    ensures
        (exists|k: int|
            0 <= k < list.results.len() && (#[trigger] list.results@[k]).scent == judged[i].scent
                && list.results@[k].via.len() == judged[i].via.len() && list.results@[k].relevance
                == judged[i].relevance && list.results@[k].path@ == cli::displayed(
                root,
                judged[i].path@,
            )) || (exists|k: int|
            0 <= k < list.walked.len() && (#[trigger] list.walked@[k]).scent == judged[i].scent
                && list.walked@[k].via.len() == judged[i].via.len() && list.walked@[k].relevance
                == judged[i].relevance && list.walked@[k].path@ == cli::displayed(
                root,
                judged[i].path@,
            )),
{
    let at = a_list_carries_the_walk(options, root, judged, calls, list);
    let all = at.0 + at.1;
    assert(all.no_duplicates()) by {
        assert forall|a: int, b: int| 0 <= a < all.len() && 0 <= b < all.len() && a
            != b implies all[a] != all[b] by {
            let n = at.0.len();
            if a < n && b < n {
                if a < b {
                    assert(at.0[a] < at.0[b]);
                } else {
                    assert(at.0[b] < at.0[a]);
                }
            } else if a >= n && b >= n {
                if a < b {
                    assert(at.1[a - n] < at.1[b - n]);
                } else {
                    assert(at.1[b - n] < at.1[a - n]);
                }
            } else if a < n {
                assert(at.0[a] != at.1[b - n]);
            } else {
                assert(at.0[b] != at.1[a - n]);
            }
        }
    }
    basics::all_places_are_taken(all, judged.len(), i);
    let k = choose|k: int| 0 <= k < all.len() && all[k] == i;
    if k < at.0.len() {
        assert(at.0[k] == i);
        assert(list.results@[k].scent == judged[i].scent);
    } else {
        let m = k - at.0.len();
        assert(at.1[m] == i);
        assert(list.walked@[m].scent == judged[i].scent);
    }
}

/// A file earns a place just where its relevance is no less than the threshold or the score of one
/// of its sections is; the numbers not negative, as scores are.
pub proof fn a_place_is_earned_by_a_score(file: VisitedFile, threshold: u64)
    requires
        threshold <= 0x7ff0_0000_0000_0000,
        file.relevance <= 0x7ff0_0000_0000_0000,
        forall|i: int|
            0 <= i < file.sections.len() ==> (#[trigger] file.sections@[i]).score
                <= 0x7ff0_0000_0000_0000,
    ensures
        file.relevance >= threshold ==> cli::earns(file, threshold),
        forall|i: int|
            0 <= i < file.sections.len() && (#[trigger] file.sections@[i]).score >= threshold
                ==> cli::earns(file, threshold),
        cli::earns(file, threshold) ==> file.relevance >= threshold || exists|i: int|
            0 <= i < file.sections.len() && (#[trigger] file.sections@[i]).score >= threshold,
{
}

/// A result carries every section that clears the threshold, as often as the file has it, and no
/// other.
pub proof fn sections_are_those_that_clear(
    sections: Seq<RankedSection>,
    threshold: u64,
    section: RankedSection,
)
    requires
        threshold <= 0x7ff0_0000_0000_0000,
        forall|i: int|
            0 <= i < sections.len() ==> (#[trigger] sections[i]).score <= 0x7ff0_0000_0000_0000,
    ensures
        counting::how_many(
            cli::ranked(sections, threshold),
            |other: RankedSection| other == section,
        ) == if section.score >= threshold {
            counting::how_many(sections, |other: RankedSection| other == section)
        } else {
            0
        },
{
    let lt = |a: RankedSection, b: RankedSection| cli::section_before(a, b);
    let test = |other: RankedSection| other == section;
    basics::sorting_keeps_the_counts(cli::clearing(sections, threshold), lt, test);
    clearing_counts(sections, threshold, section);
}

/// The sections of a result stand with the highest score first, and of two alike the one that
/// starts earlier.
pub proof fn the_best_section_is_first(sections: Seq<RankedSection>, threshold: u64)
    requires
        forall|i: int|
            0 <= i < sections.len() ==> (#[trigger] sections[i]).score <= 0x7ff0_0000_0000_0000,
    ensures
        forall|i: int, j: int|
            0 <= i < j < cli::ranked(sections, threshold).len() ==> {
                let (a, b) = (
                    #[trigger] cli::ranked(sections, threshold)[i],
                    #[trigger] cli::ranked(sections, threshold)[j],
                );
                a.score > b.score || (a.score == b.score && a.first <= b.first)
            },
{
    let list = cli::ranked(sections, threshold);
    let lt = |a: RankedSection, b: RankedSection| cli::section_before(a, b);
    cli::sections_are_ranked(sections, threshold);
    assert forall|i: int, j: int| 0 <= i < j < list.len() implies {
        let (a, b) = (#[trigger] list[i], #[trigger] list[j]);
        a.score > b.score || (a.score == b.score && a.first <= b.first)
    } by {
        let (a, b) = (list[i], list[j]);
        cleared_are_sections(sections, threshold);
        sorting::sorted_holds(cli::clearing(sections, threshold), lt, a);
        sorting::sorted_holds(cli::clearing(sections, threshold), lt, b);
        assert(list.contains(a) && list.contains(b));
        assert(!cli::section_before(b, a));
        basics::ordinary_doubles_are_in_the_order_of_their_bits(a.score, b.score);
    }
}

proof fn cleared_are_sections(sections: Seq<RankedSection>, threshold: u64)
    requires
        forall|i: int|
            0 <= i < sections.len() ==> (#[trigger] sections[i]).score <= 0x7ff0_0000_0000_0000,
    ensures
        forall|section: RankedSection| #[trigger]
            cli::clearing(sections, threshold).contains(section) ==> section.score
                <= 0x7ff0_0000_0000_0000,
    decreases sections.len(),
{
    if sections.len() > 0 {
        let front = sections.drop_last();
        assert forall|i: int| 0 <= i < front.len() implies (#[trigger] front[i]).score
            <= 0x7ff0_0000_0000_0000 by {
            assert(front[i] == sections[i]);
        }
        cleared_are_sections(front, threshold);
        let list = cli::clearing(sections, threshold);
        let before = cli::clearing(front, threshold);
        assert forall|section: RankedSection| #[trigger] list.contains(section) implies section.score
            <= 0x7ff0_0000_0000_0000 by {
            let k = choose|k: int| 0 <= k < list.len() && list[k] == section;
            if k < before.len() {
                assert(before[k] == section);
                assert(before.contains(section));
            } else {
                assert(sections[sections.len() - 1] == section);
            }
        }
    }
}

proof fn clearing_counts(sections: Seq<RankedSection>, threshold: u64, section: RankedSection)
    requires
        threshold <= 0x7ff0_0000_0000_0000,
        forall|i: int|
            0 <= i < sections.len() ==> (#[trigger] sections[i]).score <= 0x7ff0_0000_0000_0000,
    ensures
        counting::how_many(
            cli::clearing(sections, threshold),
            |other: RankedSection| other == section,
        ) == if section.score >= threshold {
            counting::how_many(sections, |other: RankedSection| other == section)
        } else {
            0
        },
    decreases sections.len(),
{
    let test = |other: RankedSection| other == section;
    if sections.len() > 0 {
        let front = sections.drop_last();
        assert forall|i: int| 0 <= i < front.len() implies (#[trigger] front[i]).score
            <= 0x7ff0_0000_0000_0000 by {
            assert(front[i] == sections[i]);
        }
        clearing_counts(front, threshold, section);
        assert(sections[sections.len() - 1] == sections.last());
        basics::ordinary_doubles_are_in_the_order_of_their_bits(sections.last().score, threshold);
        basics::a_count_grows_by_what_passes(cli::clearing(front, threshold), sections.last(), test);
    }
}

/// A path is spelled from the root: as it is where the root is the directory one stands in, and
/// with the root, and one slash, before it elsewhere.
pub proof fn a_path_is_spelled_from_the_root(root: Seq<char>, path: Seq<char>)
    ensures
        root == seq!['.'] ==> cli::displayed(root, path) == path,
        root != seq!['.'] && root.len() > 0 && root.last() != '/' && path.len() > 0 && path[0]
            != '/' ==> cli::displayed(root, path) == root + seq!['/'] + path,
{
    reveal_strlit(".");
    assert("."@ =~= seq!['.']);
}

/// What is told of a page that was dropped is one line: it names the page, and keeps the reason but
/// for its line ends.
pub proof fn a_skipped_page_is_told_on_one_line(root: Seq<char>, path: Seq<char>, reason: Seq<char>)
    ensures
        ({
            let head = "s1m: skipped "@ + cli::displayed(root, path) + ": "@;
            let line = cli::skip_line(root, path, reason);
            &&& line.len() == head.len() + reason.len()
            &&& line.take(head.len() as int) == head
            &&& forall|i: int|
                0 <= i < reason.len() ==> {
                    let c = #[trigger] line[head.len() + i];
                    if reason[i] == '\n' || reason[i] == '\r' {
                        c == ' '
                    } else {
                        c == reason[i]
                    }
                }
        }),
{
    let head = "s1m: skipped "@ + cli::displayed(root, path) + ": "@;
    let line = cli::skip_line(root, path, reason);
    assert(line =~= head + cli::flattened(reason));
    assert(line.take(head.len() as int) =~= head);
}

/// Every page that was dropped is told of, and nothing else is: one more that could not be read
/// adds a line to those that could not be read, and one that could not be judged to the others.
pub proof fn every_dropped_page_is_told_of(root: Seq<char>, failed: Seq<FailedFile>, one: FailedFile)
    ensures
        cli::unread(root, failed).len() + cli::unjudged(root, failed).len() == failed.len(),
        one.failure matches Failure::Parse(why) ==> cli::unread(root, failed.push(one))
            == cli::unread(root, failed).push(cli::skip_line(root, one.path@, why@))
            && cli::unjudged(root, failed.push(one)) == cli::unjudged(root, failed),
        one.failure matches Failure::Score(why) ==> cli::unjudged(root, failed.push(one))
            == cli::unjudged(root, failed).push(
            cli::skip_line(root, one.path@, "could not be judged: "@ + why@),
        ) && cli::unread(root, failed.push(one)) == cli::unread(root, failed),
    decreases failed.len(),
{
    assert(failed.push(one).drop_last() =~= failed);
    if failed.len() > 0 {
        every_dropped_page_is_told_of(root, failed.drop_last(), failed.last());
        assert(failed.drop_last().push(failed.last()) =~= failed);
    }
}

} // verus!
