//! The search: which lines of a text a query picks out.
//!
//! A text is cut into lines as [`split_lines`] says, each line is put to the test
//! [`line_matches`], and the lines that pass are reported as they stand in the text and in
//! its order. With letter case left out of account, query and line are folded for the
//! comparison, that is put in lowercase as [`lowercase`] does; what is reported is still
//! the line as it stands.

use vstd::prelude::*;
use crate::text::{occurs_at, occurs_in, split_lines};
use crate::text_ops::{contains, lines_left, lowercase, next_line};

verus! {

/// Whether a search for `query` reports `line`.
pub open spec fn line_matches(query: Seq<char>, line: Seq<char>, case_sensitive: bool) -> bool {
    if case_sensitive {
        occurs_in(query, line)
    } else {
        occurs_in(lowercase(query), lowercase(line))
    }
}

/// The test that a search for `query` puts to each line.
pub open spec fn selector(query: Seq<char>, case_sensitive: bool) -> spec_fn(Seq<char>) -> bool {
    |line: Seq<char>| line_matches(query, line, case_sensitive)
}

/// What a search for `query` in `contents` reports: the lines of `contents` that match,
/// unchanged and in the order in which they stand in `contents`.
pub open spec fn matching_lines(query: Seq<char>, contents: Seq<char>, case_sensitive: bool) -> Seq<
    Seq<char>,
> {
    split_lines(contents).filter(selector(query, case_sensitive))
}

/// The positions in `lines`, in rising order, of the lines that `keep` accepts.
pub open spec fn positions_kept(lines: Seq<Seq<char>>, keep: spec_fn(Seq<char>) -> bool) -> Seq<int>
    decreases lines.len(),
{
    if lines.len() == 0 {
        Seq::empty()
    } else {
        let before = positions_kept(lines.drop_last(), keep);
        if keep(lines.last()) {
            before.push(lines.len() - 1)
        } else {
            before
        }
    }
}

/// The positions among the lines of `contents`, counted from 0, of the lines that a search
/// for `query` reports.
pub open spec fn matching_positions(
    query: Seq<char>,
    contents: Seq<char>,
    case_sensitive: bool,
) -> Seq<int> {
    positions_kept(split_lines(contents), selector(query, case_sensitive))
}

/// Folding does not lose a match of `query` in `contents`: each line in which `query`
/// occurs still holds the folded query once it is folded itself.
pub open spec fn folding_keeps_matches(query: Seq<char>, contents: Seq<char>) -> bool {
    forall|i: int|
        0 <= i < split_lines(contents).len() && occurs_in(query, #[trigger] split_lines(contents)[i])
            ==> occurs_in(lowercase(query), lowercase(split_lines(contents)[i]))
}

/// One step of a search: `line` joins `found` exactly when `needle` occurs in `key`,
/// the text by which the line is compared (the line itself, or its folded form).
pub fn keep_if_found<'a>(found: &mut Vec<&'a str>, line: &'a str, key: &str, needle: &str)
    ensures
        final(found).deep_view() == if occurs_in(needle@, key@) {
            old(found).deep_view().push(line@)
        } else {
            old(found).deep_view()
        },
{
    if contains(key, needle) {
        found.push(line);
        assert(found.deep_view() =~= old(found).deep_view().push(line@));
    }
}

/// The lines of `contents` that contain `query`, character for character.
///
/// Nothing is trimmed and nothing is folded. The empty query is part of every line, so it
/// reports them all; a text without lines reports none.
pub fn search<'a>(query: &str, contents: &'a str) -> (results: Vec<&'a str>)
    ensures
        results.deep_view() == matching_lines(query@, contents@, true),
{
    let mut results: Vec<&'a str> = Vec::new();
    let mut lines = contents.lines();
    let ghost mut seen: Seq<Seq<char>> = Seq::empty();
    assert(results.deep_view() =~= seen.filter(selector(query@, true))) by {
        reveal(Seq::filter);
    }
    loop
        invariant_except_break
            seen + lines_left(lines) == split_lines(contents@),
        invariant
            results.deep_view() == seen.filter(selector(query@, true)),
        ensures
            seen == split_lines(contents@),
        decreases lines_left(lines).len(),
    {
        match next_line(&mut lines) {
            Some(line) => {
                keep_if_found(&mut results, line, line, query);
                proof {
                    lemma_filter_push(seen, line@, selector(query@, true));
                    seen = seen.push(line@);
                }
            },
            None => {
                assert(seen =~= split_lines(contents@));
                break ;
            },
        }
    }
    results
}

/// The lines of `contents` that contain `query` when letter case is left out of account:
/// query and line are both put in lowercase for the comparison, and the lines come back
/// as they stand in `contents`.
pub fn search_case_insensitive<'a>(query: &str, contents: &'a str) -> (results: Vec<&'a str>)
    ensures
        results.deep_view() == matching_lines(query@, contents@, false),
{
    let folded_query = query.to_lowercase();
    let mut results: Vec<&'a str> = Vec::new();
    let mut lines = contents.lines();
    let ghost mut seen: Seq<Seq<char>> = Seq::empty();
    assert(results.deep_view() =~= seen.filter(selector(query@, false))) by {
        reveal(Seq::filter);
    }
    loop
        invariant_except_break
            seen + lines_left(lines) == split_lines(contents@),
        invariant
            folded_query@ == lowercase(query@),
            results.deep_view() == seen.filter(selector(query@, false)),
        ensures
            seen == split_lines(contents@),
        decreases lines_left(lines).len(),
    {
        match next_line(&mut lines) {
            Some(line) => {
                let folded_line = line.to_lowercase();
                keep_if_found(&mut results, line, folded_line.as_str(), folded_query.as_str());
                proof {
                    lemma_filter_push(seen, line@, selector(query@, false));
                    seen = seen.push(line@);
                }
            },
            None => {
                assert(seen =~= split_lines(contents@));
                break ;
            },
        }
    }
    results
}

/// The search in the mode that `case_sensitive` names: [`search`] where it is `true`,
/// [`search_case_insensitive`] where it is `false`.
pub fn search_with_mode<'a>(query: &str, contents: &'a str, case_sensitive: bool) -> (results: Vec<
    &'a str,
>)
    ensures
        results.deep_view() == matching_lines(query@, contents@, case_sensitive),
{
    if case_sensitive {
        search(query, contents)
    } else {
        search_case_insensitive(query, contents)
    }
}

/// A report follows the text. It has one entry for each position at which a line matches,
/// the entries are the lines at those positions, and they stand in rising order of
/// position: no line is reported twice for one position, none is left out and none moves.
pub proof fn lemma_report_follows_text(query: Seq<char>, contents: Seq<char>, case_sensitive: bool)
    ensures
        matching_lines(query, contents, case_sensitive).len() == matching_positions(
            query,
            contents,
            case_sensitive,
        ).len(),
        forall|k: int|
            0 <= k < matching_positions(query, contents, case_sensitive).len() ==> {
                &&& 0 <= #[trigger] matching_positions(query, contents, case_sensitive)[k]
                    < split_lines(contents).len()
                &&& matching_lines(query, contents, case_sensitive)[k] == split_lines(
                    contents,
                )[matching_positions(query, contents, case_sensitive)[k]]
            },
        forall|j: int, k: int|
            0 <= j < k < matching_positions(query, contents, case_sensitive).len()
                ==> matching_positions(query, contents, case_sensitive)[j] < matching_positions(
                query,
                contents,
                case_sensitive,
            )[k],
        forall|i: int|
            0 <= i < split_lines(contents).len() ==> (matching_positions(
                query,
                contents,
                case_sensitive,
            ).contains(i) <==> line_matches(
                query,
                #[trigger] split_lines(contents)[i],
                case_sensitive,
            )),
{
    lemma_positions_kept(split_lines(contents), selector(query, case_sensitive));
}

/// A search for the empty query reports every line of the text, in order.
pub proof fn lemma_empty_query_reports_every_line(contents: Seq<char>)
    ensures
        matching_lines(Seq::empty(), contents, true) == split_lines(contents),
{
    let lines = split_lines(contents);
    let keep = selector(Seq::empty(), true);
    assert forall|i: int| 0 <= i < lines.len() implies keep(#[trigger] lines[i]) by {
        assert(occurs_at(Seq::empty(), lines[i], 0));
    }
    lemma_filter_all(lines, keep);
}

/// A search in the empty text reports nothing: the empty text has no line.
pub proof fn lemma_empty_text_reports_nothing(query: Seq<char>, case_sensitive: bool)
    ensures
        matching_lines(query, Seq::empty(), case_sensitive) == Seq::<Seq<char>>::empty(),
{
    reveal(Seq::filter);
}

/// Where folding loses no match, the search that ignores letter case reports every line
/// that the search that heeds it reports: each position of the one report is a position
/// of the other.
pub proof fn lemma_ignoring_case_loses_no_line(query: Seq<char>, contents: Seq<char>)
    requires
        folding_keeps_matches(query, contents),
    ensures
        forall|i: int|
            matching_positions(query, contents, true).contains(i) ==> matching_positions(
                query,
                contents,
                false,
            ).contains(i),
        matching_lines(query, contents, true) == matching_lines(query, contents, false).filter(
            selector(query, true),
        ),
{
    let lines = split_lines(contents);
    lemma_report_follows_text(query, contents, true);
    lemma_report_follows_text(query, contents, false);
    let heeding = matching_positions(query, contents, true);
    let ignoring = matching_positions(query, contents, false);
    assert forall|i: int| heeding.contains(i) implies ignoring.contains(i) by {
        let k = choose|k: int| 0 <= k < heeding.len() && heeding[k] == i;
        assert(0 <= heeding[k] < lines.len());
        assert(line_matches(query, lines[i], true));
        assert(line_matches(query, lines[i], false));
    }
    assert forall|i: int|
        0 <= i < lines.len() && selector(query, true)(#[trigger] lines[i]) implies selector(
        query,
        false,
    )(lines[i]) by {}
    lemma_filter_narrower(lines, selector(query, true), selector(query, false));
}

/// Two searches with the same query, text and mode give the same report: the same lines
/// in the same order. A report depends on nothing but these three. Here `first` and
/// `second` stand for what the two searches returned, each as its contract describes it.
pub proof fn lemma_repeated_search_agrees(
    query: Seq<char>,
    contents: Seq<char>,
    case_sensitive: bool,
    first: Seq<Seq<char>>,
    second: Seq<Seq<char>>,
)
    requires
        first == matching_lines(query, contents, case_sensitive),
        second == matching_lines(query, contents, case_sensitive),
    ensures
        first == second,
{
}

/// Filtering a sequence that grew by one item at its end.
proof fn lemma_filter_push<A>(items: Seq<A>, last: A, keep: spec_fn(A) -> bool)
    ensures
        items.push(last).filter(keep) == if keep(last) {
            items.filter(keep).push(last)
        } else {
            items.filter(keep)
        },
{
    reveal(Seq::filter);
    assert(items.push(last).drop_last() =~= items);
}

/// A filter that accepts every item changes nothing.
proof fn lemma_filter_all<A>(items: Seq<A>, keep: spec_fn(A) -> bool)
    requires
        forall|i: int| 0 <= i < items.len() ==> keep(#[trigger] items[i]),
    ensures
        items.filter(keep) == items,
    decreases items.len(),
{
    reveal(Seq::filter);
    if items.len() > 0 {
        let front = items.drop_last();
        assert forall|i: int| 0 <= i < front.len() implies keep(#[trigger] front[i]) by {
            assert(front[i] == items[i]);
        }
        lemma_filter_all(front, keep);
        assert(front.push(items.last()) =~= items);
    }
}

/// Of two filters, where the narrow one accepts only what the wide one accepts, the narrow
/// one may as well be put to what the wide one let through.
proof fn lemma_filter_narrower<A>(items: Seq<A>, narrow: spec_fn(A) -> bool, wide: spec_fn(A) -> bool)
    requires
        forall|i: int| 0 <= i < items.len() && narrow(#[trigger] items[i]) ==> wide(items[i]),
    ensures
        items.filter(narrow) == items.filter(wide).filter(narrow),
    decreases items.len(),
{
    reveal(Seq::filter);
    if items.len() > 0 {
        let front = items.drop_last();
        let last = items.last();
        assert forall|i: int| 0 <= i < front.len() && narrow(#[trigger] front[i]) implies wide(
            front[i],
        ) by {
            assert(front[i] == items[i]);
        }
        lemma_filter_narrower(front, narrow, wide);
        assert(narrow(last) ==> wide(last));
        if wide(last) {
            lemma_filter_push(front.filter(wide), last, narrow);
        }
    }
}

/// How the positions kept relate to the lines kept.
proof fn lemma_positions_kept(lines: Seq<Seq<char>>, keep: spec_fn(Seq<char>) -> bool)
    ensures
        positions_kept(lines, keep).len() == lines.filter(keep).len(),
        forall|k: int|
            0 <= k < positions_kept(lines, keep).len() ==> {
                &&& 0 <= #[trigger] positions_kept(lines, keep)[k] < lines.len()
                &&& lines.filter(keep)[k] == lines[positions_kept(lines, keep)[k]]
            },
        forall|j: int, k: int|
            0 <= j < k < positions_kept(lines, keep).len() ==> positions_kept(lines, keep)[j]
                < positions_kept(lines, keep)[k],
        forall|i: int|
            0 <= i < lines.len() ==> (positions_kept(lines, keep).contains(i) <==> keep(
                #[trigger] lines[i],
            )),
    decreases lines.len(),
{
    reveal(Seq::filter);
    if lines.len() > 0 {
        let front = lines.drop_last();
        let last = lines.len() - 1;
        lemma_positions_kept(front, keep);
        let before = positions_kept(front, keep);
        let now = positions_kept(lines, keep);
        assert forall|i: int| 0 <= i < lines.len() implies (now.contains(i) <==> keep(
            #[trigger] lines[i],
        )) by {
            if i < last {
                assert(front[i] == lines[i]);
                if before.contains(i) {
                    let k = choose|k: int| 0 <= k < before.len() && before[k] == i;
                    assert(now[k] == i);
                }
                if now.contains(i) {
                    let k = choose|k: int| 0 <= k < now.len() && now[k] == i;
                    assert(before[k] == i);
                }
            } else {
                if keep(lines[i]) {
                    assert(now[now.len() - 1] == i);
                }
                if now.contains(i) {
                    let k = choose|k: int| 0 <= k < now.len() && now[k] == i;
                    if k < before.len() {
                        assert(before[k] < front.len());
                    }
                }
            }
        }
    }
}

} // verus!
