//! Searching a text for the lines that contain a query.

use crate::config::{Config, ConfigView};
use crate::filtering::{is_subsequence, lemma_filter_keeps_all, lemma_filter_subsequence};
use crate::lines::{lines_of, split_first_line};
use crate::text::{contains, contains_seq, lemma_contains_empty};
use vstd::prelude::*;

verus! {

/// The lowercase form of `s`: what `str::to_lowercase` returns for a string
/// with these characters. It follows Unicode's case mapping, which is not a
/// map from character to character: one character may become several, and
/// what a capital sigma becomes depends on its place in the word. So nothing
/// is said here of what the lowercase form of a given text is.
pub uninterp spec fn lowercase(s: Seq<char>) -> Seq<char>;

/// Trusted, not proved: what `str::to_lowercase` returns depends on the
/// characters of the string alone, and `lowercase` is the name of that result.
pub assume_specification[ str::to_lowercase ](s: &str) -> (lowered: String)
    ensures
        lowered@ == lowercase(s@),
;

/// Holds of the lines that contain `query` exactly as it is written.
pub open spec fn exact_matcher(query: Seq<char>) -> spec_fn(Seq<char>) -> bool {
    |line: Seq<char>| contains_seq(line, query)
}

/// Holds of the lines whose lowercase form contains the lowercase form of
/// `query`.
pub open spec fn folding_matcher(query: Seq<char>) -> spec_fn(Seq<char>) -> bool {
    |line: Seq<char>| contains_seq(lowercase(line), lowercase(query))
}

/// The lines of `contents` that contain `query`, in their order.
pub open spec fn search_spec(query: Seq<char>, contents: Seq<char>) -> Seq<Seq<char>> {
    lines_of(contents).filter(exact_matcher(query))
}

/// The lines of `contents` that contain `query` when case is disregarded, in
/// their order and as they stand in `contents`.
pub open spec fn search_case_insensitive_spec(query: Seq<char>, contents: Seq<char>) -> Seq<
    Seq<char>,
> {
    lines_of(contents).filter(folding_matcher(query))
}

/// Lowercasing keeps every match of `query` in the lines of `contents`: a
/// line that contains `query` still contains it once both are in lowercase.
pub open spec fn folding_keeps_matches(query: Seq<char>, contents: Seq<char>) -> bool {
    forall|j: int|
        0 <= j < lines_of(contents).len() && contains_seq(#[trigger] lines_of(contents)[j], query)
            ==> contains_seq(lowercase(lines_of(contents)[j]), lowercase(query))
}

/// The empty query selects every line: a search for it returns the lines of
/// `contents`, each as it stands and in order.
pub proof fn lemma_empty_query_selects_all(query: Seq<char>, contents: Seq<char>)
    requires
        query.len() == 0,
    ensures
        search_spec(query, contents) == lines_of(contents),
{
    let lines = lines_of(contents);
    let keep = exact_matcher(query);
    assert forall|i: int| 0 <= i < lines.len() implies keep(#[trigger] lines[i]) by {
        lemma_contains_empty(lines[i], query);
    }
    lemma_filter_keeps_all(lines, keep);
}

/// A search keeps what matches and nothing else: every line of the result
/// contains `query`, and a line of `contents` is in the result exactly when it
/// contains `query`.
pub proof fn lemma_search_keeps_what_matches(query: Seq<char>, contents: Seq<char>)
    ensures
        forall|i: int|
            0 <= i < search_spec(query, contents).len() ==> contains_seq(
                #[trigger] search_spec(query, contents)[i],
                query,
            ),
        forall|j: int|
            0 <= j < lines_of(contents).len() ==> (search_spec(query, contents).contains(
                #[trigger] lines_of(contents)[j],
            ) <==> contains_seq(lines_of(contents)[j], query)),
{
    let lines = lines_of(contents);
    let keep = exact_matcher(query);
    assert forall|i: int| 0 <= i < lines.filter(keep).len() implies contains_seq(
        #[trigger] lines.filter(keep)[i],
        query,
    ) by {
        lines.lemma_filter_pred(keep, i);
    }
    assert forall|j: int| 0 <= j < lines.len() implies (lines.filter(keep).contains(
        #[trigger] lines[j],
    ) <==> contains_seq(lines[j], query)) by {
        if keep(lines[j]) {
            lines.lemma_filter_contains(keep, j);
        }
        if lines.filter(keep).contains(lines[j]) {
            lines.lemma_filter_contains_rev(keep, lines[j]);
        }
    }
}

/// Where lowercasing keeps every match of `query` in the lines of `contents`,
/// the search that disregards case finds whatever the exact search finds: the
/// exact result is a subsequence of the other.
pub proof fn lemma_case_insensitive_finds_more(query: Seq<char>, contents: Seq<char>)
    requires
        folding_keeps_matches(query, contents),
    ensures
        is_subsequence(
            search_spec(query, contents),
            search_case_insensitive_spec(query, contents),
        ),
{
    lemma_filter_subsequence(lines_of(contents), exact_matcher(query), folding_matcher(query));
}

/// Collects the lines of `contents` that `keep` holds of. A line is tested by
/// looking for `needle` in it, or in its lowercase form where `fold` is set.
fn select_lines<'a>(
    needle: &str,
    contents: &'a str,
    fold: bool,
    Ghost(keep): Ghost<spec_fn(Seq<char>) -> bool>,
) -> (found: Vec<&'a str>)
    requires
        forall|line: Seq<char>|
            #[trigger] keep(line) == contains_seq(
                if fold {
                    lowercase(line)
                } else {
                    line
                },
                needle@,
            ),
    ensures
        found.deep_view() == lines_of(contents@).filter(keep),
{
    let mut found: Vec<&'a str> = Vec::new();
    let mut rest: &'a str = contents;
    while !rest.is_empty()
        invariant
            found.deep_view() + lines_of(rest@).filter(keep) == lines_of(contents@).filter(keep),
            forall|line: Seq<char>|
                #[trigger] keep(line) == contains_seq(
                    if fold {
                        lowercase(line)
                    } else {
                        line
                    },
                    needle@,
                ),
        decreases rest@.len(),
    {
        let (line, tail) = split_first_line(rest);
        let hit = if fold {
            contains(line.to_lowercase().as_str(), needle)
        } else {
            contains(line, needle)
        };
        proof {
            let first = seq![line@];
            assert(lines_of(rest@) == first + lines_of(tail@));
            Seq::filter_distributes_over_add(first, lines_of(tail@), keep);
            reveal_with_fuel(Seq::filter, 2);
            assert(first.filter(keep) =~= if hit {
                first
            } else {
                Seq::<Seq<char>>::empty()
            });
        }
        if hit {
            found.push(line);
        }
        rest = tail;
    }
    proof {
        reveal_with_fuel(Seq::filter, 1);
    }
    found
}

/// Returns the lines of `contents` that contain `query`, in their order.
///
/// The comparison is exact: case matters. Every line that is returned
/// contains `query`, and no line that is left out does. The empty query is
/// contained in every line, so it selects them all.
pub fn search<'a>(query: &str, contents: &'a str) -> (found: Vec<&'a str>)
    ensures
        found.deep_view() == search_spec(query@, contents@),
        forall|i: int| 0 <= i < found.len() ==> contains_seq(#[trigger] found[i]@, query@),
        forall|j: int|
            0 <= j < lines_of(contents@).len() ==> (found.deep_view().contains(
                #[trigger] lines_of(contents@)[j],
            ) <==> contains_seq(lines_of(contents@)[j], query@)),
        query@.len() == 0 ==> found.deep_view() == lines_of(contents@),
{
    let found = select_lines(query, contents, false, Ghost(exact_matcher(query@)));
    proof {
        lemma_search_keeps_what_matches(query@, contents@);
        if query@.len() == 0 {
            lemma_empty_query_selects_all(query@, contents@);
        }
        assert forall|i: int| 0 <= i < found.len() implies contains_seq(
            #[trigger] found[i]@,
            query@,
        ) by {
            assert(found.deep_view()[i] == found[i]@);
        }
    }
    found
}

/// Returns the lines of `contents` that contain `query` when case is
/// disregarded, in their order.
///
/// The query and each line are brought to lowercase, each by itself, and
/// compared then. The lines are returned as they stand in `contents`.
pub fn search_case_insensitive<'a>(query: &str, contents: &'a str) -> (found: Vec<&'a str>)
    ensures
        found.deep_view() == search_case_insensitive_spec(query@, contents@),
{
    let needle = query.to_lowercase();
    select_lines(needle.as_str(), contents, true, Ghost(folding_matcher(query@)))
}

/// What a search configured by `config` finds in `contents`.
pub open spec fn run_spec(config: ConfigView, contents: Seq<char>) -> Seq<Seq<char>> {
    if config.ignore_case {
        search_case_insensitive_spec(config.query, contents)
    } else {
        search_spec(config.query, contents)
    }
}

/// Searches `contents`, the text of the file that `config` names, for the
/// query of `config`, with or without regard to case as `config` says, and
/// returns the lines to print, in their order.
pub fn run<'a>(config: &Config, contents: &'a str) -> (found: Vec<&'a str>)
    ensures
        found.deep_view() == run_spec(config@, contents@),
{
    if config.ignore_case {
        search_case_insensitive(config.query.as_str(), contents)
    } else {
        search(config.query.as_str(), contents)
    }
}

} // verus!
