//! The search itself: the lines of a text that contain a query.

use crate::fold::{
    lemma_ascii_folding_keeps_substring, lemma_lowercase_of_empty, lowercase, to_lowercase,
};
use crate::lines::{chars_of, lemma_lines_are_parts, lines, split_lines};
use crate::text::{is_substring, occurs_at, occurs_in};
use vstd::prelude::*;
use vstd::utf8::is_ascii_chars;

verus! {

/// The test that a line passes when it contains `query` as it is written.
pub open spec fn contains_literally(query: Seq<char>) -> spec_fn(Seq<char>) -> bool {
    |line: Seq<char>| is_substring(query, line)
}

/// The test that a line passes when its folded form contains the folded
/// form of `query`.
pub open spec fn contains_folded(query: Seq<char>) -> spec_fn(Seq<char>) -> bool {
    |line: Seq<char>| is_substring(lowercase(query), lowercase(line))
}

/// The lines of `contents` that contain `query`, in the order of the text.
pub open spec fn matching_lines(query: Seq<char>, contents: Seq<char>) -> Seq<Seq<char>> {
    split_lines(contents).filter(contains_literally(query))
}

/// The lines of `contents` that contain `query` when letter case is
/// ignored, in the order of the text.
pub open spec fn folded_matching_lines(query: Seq<char>, contents: Seq<char>) -> Seq<Seq<char>> {
    split_lines(contents).filter(contains_folded(query))
}

/// Filtering one more line of `all` either appends it or changes nothing.
proof fn lemma_filter_next(all: Seq<Seq<char>>, test: spec_fn(Seq<char>) -> bool, i: int)
    requires
        0 <= i < all.len(),
    ensures
        all.take(i + 1).filter(test) == if test(all[i]) {
            all.take(i).filter(test).push(all[i])
        } else {
            all.take(i).filter(test)
        },
{
    assert(all.take(i + 1) =~= all.take(i).push(all[i]));
    Seq::lemma_filter_push(all.take(i), all[i], test);
}

/// The lines of `contents` that contain `query`, each a slice of `contents`.
pub fn search<'a>(query: &str, contents: &'a str) -> (result: Vec<&'a str>)
    ensures
        result.deep_view() == matching_lines(query@, contents@),
{
    let needle = chars_of(query);
    let all = lines(contents);
    let mut result: Vec<&'a str> = Vec::new();
    let ghost test = contains_literally(query@);
    let mut i: usize = 0;
    proof {
        assert(all.deep_view().take(0) =~= Seq::empty());
        reveal(Seq::filter);
        assert(result.deep_view() =~= all.deep_view().take(0).filter(test));
    }
    while i < all.len()
        invariant
            i <= all.len(),
            needle@ == query@,
            test == contains_literally(query@),
            result.deep_view() == all.deep_view().take(i as int).filter(test),
        decreases all.len() - i,
    {
        let line: &'a str = all[i];
        let haystack = chars_of(line);
        let ghost before = result.deep_view();
        proof {
            lemma_filter_next(all.deep_view(), test, i as int);
        }
        if occurs_in(needle.as_slice(), haystack.as_slice()) {
            result.push(line);
            proof {
                assert(result.deep_view() =~= before.push(line@));
            }
        }
        i += 1;
    }
    proof {
        assert(all.deep_view().take(all.len() as int) =~= all.deep_view());
    }
    result
}

/// The lines of `contents` whose folded form contains the folded form of
/// `query`, each a slice of `contents` as it is written there.
pub fn search_case_insensitive<'a>(query: &str, contents: &'a str) -> (result: Vec<&'a str>)
    ensures
        result.deep_view() == folded_matching_lines(query@, contents@),
{
    let folded_query = to_lowercase(query);
    let needle = chars_of(folded_query.as_str());
    let all = lines(contents);
    let mut result: Vec<&'a str> = Vec::new();
    let ghost test = contains_folded(query@);
    let mut i: usize = 0;
    proof {
        assert(all.deep_view().take(0) =~= Seq::empty());
        reveal(Seq::filter);
        assert(result.deep_view() =~= all.deep_view().take(0).filter(test));
    }
    while i < all.len()
        invariant
            i <= all.len(),
            needle@ == lowercase(query@),
            test == contains_folded(query@),
            result.deep_view() == all.deep_view().take(i as int).filter(test),
        decreases all.len() - i,
    {
        let line: &'a str = all[i];
        let folded_line = to_lowercase(line);
        let haystack = chars_of(folded_line.as_str());
        let ghost before = result.deep_view();
        proof {
            lemma_filter_next(all.deep_view(), test, i as int);
        }
        if occurs_in(needle.as_slice(), haystack.as_slice()) {
            result.push(line);
            proof {
                assert(result.deep_view() =~= before.push(line@));
            }
        }
        i += 1;
    }
    proof {
        assert(all.deep_view().take(all.len() as int) =~= all.deep_view());
    }
    result
}

/// `picks` lists, in rising order, the positions in `all` of exactly the
/// lines that pass `test`, and `chosen` holds the lines at those positions:
/// the lines of `all` that pass, in the order of `all`, each as often as it
/// stands there, and nothing else.
pub open spec fn selects(
    chosen: Seq<Seq<char>>,
    all: Seq<Seq<char>>,
    test: spec_fn(Seq<char>) -> bool,
    picks: Seq<int>,
) -> bool {
    &&& picks.len() == chosen.len()
    &&& forall|k: int|
        0 <= k < picks.len() ==> 0 <= #[trigger] picks[k] < all.len() && chosen[k]
            == all[picks[k]]
    &&& forall|j: int, k: int| 0 <= j < k < picks.len() ==> picks[j] < picks[k]
    &&& forall|i: int| 0 <= i < all.len() ==> (test(#[trigger] all[i]) <==> picks.contains(i))
}

/// What a filter keeps is a selection in the sense of `selects`.
pub proof fn lemma_filter_selects(all: Seq<Seq<char>>, test: spec_fn(Seq<char>) -> bool) -> (picks:
    Seq<int>)
    ensures
        selects(all.filter(test), all, test, picks),
    decreases all.len(),
{
    reveal(Seq::filter);
    if all.len() == 0 {
        Seq::empty()
    } else {
        let front = all.drop_last();
        let last = all.len() - 1;
        let earlier = lemma_filter_selects(front, test);
        let picks = if test(all.last()) {
            earlier.push(last)
        } else {
            earlier
        };
        assert forall|i: int| 0 <= i < all.len() implies (test(#[trigger] all[i])
            <==> picks.contains(i)) by {
            if i < last {
                assert(all[i] == front[i]);
                if earlier.contains(i) {
                    let k = choose|k: int| 0 <= k < earlier.len() && earlier[k] == i;
                    assert(picks[k] == i);
                }
                if picks.contains(i) {
                    let k = choose|k: int| 0 <= k < picks.len() && picks[k] == i;
                    assert(earlier[k] == i);
                }
            } else {
                if test(all[i]) {
                    assert(picks[picks.len() - 1] == i);
                }
                if picks.contains(i) {
                    let k = choose|k: int| 0 <= k < picks.len() && picks[k] == i;
                    assert(k == picks.len() - 1 || earlier[k] < front.len());
                }
            }
        }
        picks
    }
}

/// Filtering by a test gives the same as filtering first by a wider test
/// and then by the test itself.
pub proof fn lemma_filter_within_wider(
    all: Seq<Seq<char>>,
    narrow: spec_fn(Seq<char>) -> bool,
    wide: spec_fn(Seq<char>) -> bool,
)
    requires
        forall|i: int| 0 <= i < all.len() && narrow(#[trigger] all[i]) ==> wide(all[i]),
    ensures
        all.filter(narrow) == all.filter(wide).filter(narrow),
    decreases all.len(),
{
    reveal(Seq::filter);
    if all.len() > 0 {
        let front = all.drop_last();
        assert forall|i: int| 0 <= i < front.len() && narrow(#[trigger] front[i]) implies wide(
            front[i],
        ) by {
            assert(front[i] == all[i]);
        }
        lemma_filter_within_wider(front, narrow, wide);
        if wide(all.last()) {
            Seq::lemma_filter_push(front.filter(wide), all.last(), narrow);
        }
    }
}

/// A test that every line passes filters nothing out.
pub proof fn lemma_filter_keeps_all(all: Seq<Seq<char>>, test: spec_fn(Seq<char>) -> bool)
    requires
        forall|i: int| 0 <= i < all.len() ==> test(#[trigger] all[i]),
    ensures
        all.filter(test) == all,
    decreases all.len(),
{
    reveal(Seq::filter);
    if all.len() > 0 {
        let front = all.drop_last();
        assert forall|i: int| 0 <= i < front.len() implies test(#[trigger] front[i]) by {
            assert(front[i] == all[i]);
        }
        lemma_filter_keeps_all(front, test);
        assert(front.push(all.last()) =~= all);
    }
}

/// What `search` returns are the lines of the text that contain the query
/// as it is written, and only those, in the order of the text, each line
/// of the text once: `picks` gives the position of each in the text.
pub proof fn lemma_search_selects(query: Seq<char>, contents: Seq<char>) -> (picks: Seq<int>)
    ensures
        selects(
            matching_lines(query, contents),
            split_lines(contents),
            contains_literally(query),
            picks,
        ),
        forall|k: int|
            0 <= k < matching_lines(query, contents).len() ==> is_substring(
                query,
                #[trigger] matching_lines(query, contents)[k],
            ),
{
    let picks = lemma_filter_selects(split_lines(contents), contains_literally(query));
    assert forall|k: int| 0 <= k < matching_lines(query, contents).len() implies is_substring(
        query,
        #[trigger] matching_lines(query, contents)[k],
    ) by {
        let at = picks[k];
        assert(picks.contains(at));
        assert(contains_literally(query)(split_lines(contents)[at]));
    }
    picks
}

/// What `search_case_insensitive` returns are the lines of the text whose
/// folded form contains the folded query, and only those, in the order of
/// the text, each line of the text once.
pub proof fn lemma_search_case_insensitive_selects(query: Seq<char>, contents: Seq<char>) -> (picks:
    Seq<int>)
    ensures
        selects(
            folded_matching_lines(query, contents),
            split_lines(contents),
            contains_folded(query),
            picks,
        ),
{
    lemma_filter_selects(split_lines(contents), contains_folded(query))
}

/// Folding loses no match of `query` in `contents`: each line that contains
/// the query as it is written also contains it once both are folded.
pub open spec fn folding_keeps_matches(query: Seq<char>, contents: Seq<char>) -> bool {
    forall|i: int|
        0 <= i < split_lines(contents).len() && is_substring(
            query,
            #[trigger] split_lines(contents)[i],
        ) ==> is_substring(lowercase(query), lowercase(split_lines(contents)[i]))
}

/// Where folding loses no match, the search that ignores case finds every
/// line that the exact search finds: the exact result is the other result
/// narrowed to the lines that contain the query as it is written.
pub proof fn lemma_case_insensitive_finds_more(query: Seq<char>, contents: Seq<char>)
    requires
        folding_keeps_matches(query, contents),
    ensures
        matching_lines(query, contents) == folded_matching_lines(query, contents).filter(
            contains_literally(query),
        ),
        forall|line: Seq<char>|
            matching_lines(query, contents).contains(line) ==> folded_matching_lines(
                query,
                contents,
            ).contains(line),
{
    let all = split_lines(contents);
    lemma_filter_within_wider(all, contains_literally(query), contains_folded(query));
    assert forall|line: Seq<char>|
        matching_lines(query, contents).contains(line) implies folded_matching_lines(
        query,
        contents,
    ).contains(line) by {
        folded_matching_lines(query, contents).lemma_filter_contains_rev(
            contains_literally(query),
            line,
        );
    }
}

/// In a text of ASCII characters folding loses no match, whatever the
/// query.
pub proof fn lemma_ascii_folding_keeps_matches(query: Seq<char>, contents: Seq<char>)
    requires
        is_ascii_chars(contents),
    ensures
        folding_keeps_matches(query, contents),
{
    let all = split_lines(contents);
    lemma_lines_are_parts(contents);
    assert forall|i: int| 0 <= i < all.len() && is_substring(query, #[trigger] all[i]) implies
        is_substring(lowercase(query), lowercase(all[i])) by {
        let line = all[i];
        assert(is_substring(line, contents));
        let at = choose|at: int| occurs_at(line, contents, at);
        assert forall|j: int| 0 <= j < line.len() implies '\0' <= #[trigger] line[j]
            <= '\u{7f}' by {
            assert(line[j] == contents.subrange(at, at + line.len())[j]);
            assert(line[j] == contents[at + j]);
        }
        lemma_ascii_folding_keeps_substring(query, line);
    }
}

/// In a text of ASCII characters the search that ignores case finds every
/// line that the exact search finds.
pub proof fn lemma_ascii_case_insensitive_finds_more(query: Seq<char>, contents: Seq<char>)
    requires
        is_ascii_chars(contents),
    ensures
        matching_lines(query, contents) == folded_matching_lines(query, contents).filter(
            contains_literally(query),
        ),
        forall|line: Seq<char>|
            matching_lines(query, contents).contains(line) ==> folded_matching_lines(
                query,
                contents,
            ).contains(line),
{
    lemma_ascii_folding_keeps_matches(query, contents);
    lemma_case_insensitive_finds_more(query, contents);
}

/// A query without characters matches every line, with and without regard
/// to case, so a text without characters, which has no lines, gives none.
pub proof fn lemma_empty_query_matches_every_line(contents: Seq<char>)
    ensures
        matching_lines(Seq::empty(), contents) == split_lines(contents),
        folded_matching_lines(Seq::empty(), contents) == split_lines(contents),
        contents.len() == 0 ==> matching_lines(Seq::empty(), contents).len() == 0
            && folded_matching_lines(Seq::empty(), contents).len() == 0,
{
    let all = split_lines(contents);
    let nothing = Seq::<char>::empty();
    lemma_lowercase_of_empty();
    assert forall|i: int| 0 <= i < all.len() implies contains_literally(nothing)(
        #[trigger] all[i],
    ) by {
        assert(all[i].subrange(0, 0) =~= nothing);
        assert(occurs_at(nothing, all[i], 0));
    }
    assert forall|i: int| 0 <= i < all.len() implies contains_folded(nothing)(
        #[trigger] all[i],
    ) by {
        assert(lowercase(all[i]).subrange(0, 0) =~= nothing);
        assert(occurs_at(nothing, lowercase(all[i]), 0));
    }
    lemma_filter_keeps_all(all, contains_literally(nothing));
    lemma_filter_keeps_all(all, contains_folded(nothing));
}

/// A text without characters gives no line, whatever the query.
pub proof fn lemma_empty_contents_match_nothing(query: Seq<char>)
    ensures
        matching_lines(query, Seq::empty()) == Seq::<Seq<char>>::empty(),
        folded_matching_lines(query, Seq::empty()) == Seq::<Seq<char>>::empty(),
{
    reveal(Seq::filter);
}

/// Searching again gives the same: two results of `search` for one query
/// and one text hold the same lines in the same order.
pub proof fn lemma_search_repeats(
    query: &str,
    contents: &str,
    first: Vec<&str>,
    second: Vec<&str>,
)
    requires
        first.deep_view() == matching_lines(query@, contents@),
        second.deep_view() == matching_lines(query@, contents@),
    ensures
        first.deep_view() == second.deep_view(),
        first.len() == second.len(),
        forall|i: int| 0 <= i < first.len() ==> first[i]@ == second[i]@,
{
    assert(first.deep_view().len() == first.len());
    assert(second.deep_view().len() == second.len());
    assert forall|i: int| 0 <= i < first.len() implies first[i]@ == second[i]@ by {
        assert(first.deep_view()[i] == first[i]@);
        assert(second.deep_view()[i] == second[i]@);
    }
}

/// Searching again without regard to case gives the same: two results of
/// `search_case_insensitive` for one query and one text hold the same lines
/// in the same order.
pub proof fn lemma_search_case_insensitive_repeats(
    query: &str,
    contents: &str,
    first: Vec<&str>,
    second: Vec<&str>,
)
    requires
        first.deep_view() == folded_matching_lines(query@, contents@),
        second.deep_view() == folded_matching_lines(query@, contents@),
    ensures
        first.deep_view() == second.deep_view(),
        first.len() == second.len(),
        forall|i: int| 0 <= i < first.len() ==> first[i]@ == second[i]@,
{
    assert(first.deep_view().len() == first.len());
    assert(second.deep_view().len() == second.len());
    assert forall|i: int| 0 <= i < first.len() implies first[i]@ == second[i]@ by {
        assert(first.deep_view()[i] == first[i]@);
        assert(second.deep_view()[i] == second[i]@);
    }
}

} // verus!
