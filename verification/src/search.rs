//! The two searches: which lines of a text contain a query, as written or
//! with letter case ignored.

use crate::config::Config;
use crate::text::{contains, is_substring, lemma_empty_is_substring, line_views, lines, lines_of};
use vstd::prelude::*;

verus! {

/// The lowercase form of `text`, as the standard library's
/// `str::to_lowercase` computes it.
pub uninterp spec fn lowercase(text: Seq<char>) -> Seq<char>;

/// The predicate "contains `query`", on lines.
pub open spec fn containing(query: Seq<char>) -> spec_fn(Seq<char>) -> bool {
    |line: Seq<char>| is_substring(query, line)
}

/// The predicate "contains `query` once both are lowered", on lines.
pub open spec fn containing_ignoring_case(query: Seq<char>) -> spec_fn(Seq<char>) -> bool {
    |line: Seq<char>| is_substring(lowercase(query), lowercase(line))
}

/// The lines of `contents` that contain `query`, in their order in
/// `contents`.
pub open spec fn matching_lines(query: Seq<char>, contents: Seq<char>) -> Seq<Seq<char>> {
    lines_of(contents).filter(containing(query))
}

/// The lines of `contents` whose lowercase form contains the lowercase
/// form of `query`, as they stand in `contents` and in their order there.
pub open spec fn matching_lines_ignoring_case(query: Seq<char>, contents: Seq<char>) -> Seq<
    Seq<char>,
> {
    lines_of(contents).filter(containing_ignoring_case(query))
}

/// The lines whose key contains `needle`, in their order in `lines`. The
/// key of a line is the element of `keys` at the line's index; a line
/// without a key is left out.
pub open spec fn selected(
    lines: Seq<Seq<char>>,
    keys: Seq<Seq<char>>,
    needle: Seq<char>,
) -> Seq<Seq<char>>
    decreases lines.len(),
{
    if lines.len() == 0 {
        Seq::empty()
    } else {
        let front = selected(lines.drop_last(), keys, needle);
        let at = lines.len() - 1;
        if at < keys.len() && is_substring(needle, keys[at]) {
            front.push(lines.last())
        } else {
            front
        }
    }
}

/// Selecting by keys is filtering, where a predicate on lines says of
/// each line what containment says of its key.
pub proof fn lemma_selected_is_filter(
    lines: Seq<Seq<char>>,
    keys: Seq<Seq<char>>,
    needle: Seq<char>,
    keep: spec_fn(Seq<char>) -> bool,
)
    requires
        lines.len() <= keys.len(),
        forall|i: int|
            0 <= i < lines.len() ==> keep(#[trigger] lines[i]) == is_substring(needle, keys[i]),
    ensures
        selected(lines, keys, needle) == lines.filter(keep),
    decreases lines.len(),
{
    reveal(Seq::filter);
    if lines.len() > 0 {
        let front = lines.drop_last();
        assert forall|i: int| 0 <= i < front.len() implies keep(#[trigger] front[i])
            == is_substring(needle, keys[i]) by {
            assert(front[i] == lines[i]);
        }
        lemma_selected_is_filter(front, keys, needle, keep);
        assert(keep(lines[lines.len() - 1]) == is_substring(needle, keys[lines.len() - 1]));
    }
}

/// A filter that every element passes changes nothing.
proof fn lemma_filter_keeps_all<A>(s: Seq<A>, keep: spec_fn(A) -> bool)
    requires
        forall|i: int| 0 <= i < s.len() ==> keep(#[trigger] s[i]),
    ensures
        s.filter(keep) == s,
    decreases s.len(),
{
    reveal(Seq::filter);
    if s.len() > 0 {
        let front = s.drop_last();
        assert forall|i: int| 0 <= i < front.len() implies keep(#[trigger] front[i]) by {
            assert(front[i] == s[i]);
        }
        lemma_filter_keeps_all(front, keep);
        assert(front.push(s.last()) =~= s);
    }
}

/// An empty query is found in every line: the search returns all lines.
pub proof fn lemma_empty_query_matches_all(contents: Seq<char>)
    ensures
        matching_lines(Seq::<char>::empty(), contents) == lines_of(contents),
{
    let all = lines_of(contents);
    let keep = containing(Seq::<char>::empty());
    assert forall|i: int| 0 <= i < all.len() implies keep(#[trigger] all[i]) by {
        lemma_empty_is_substring(all[i]);
    }
    lemma_filter_keeps_all(all, keep);
}

/// The empty text has no lines, so neither search finds one in it.
pub proof fn lemma_empty_contents_no_match(query: Seq<char>)
    ensures
        lines_of(Seq::<char>::empty()).len() == 0,
        matching_lines(query, Seq::<char>::empty()).len() == 0,
        matching_lines_ignoring_case(query, Seq::<char>::empty()).len() == 0,
{
    let none = lines_of(Seq::<char>::empty());
    none.lemma_filter_len(containing(query));
    none.lemma_filter_len(containing_ignoring_case(query));
}

/// Filtering by a wider predicate first loses nothing that the narrower
/// one keeps.
proof fn lemma_filter_through_wider<A>(
    s: Seq<A>,
    narrow: spec_fn(A) -> bool,
    wide: spec_fn(A) -> bool,
)
    requires
        forall|i: int| 0 <= i < s.len() && narrow(#[trigger] s[i]) ==> wide(s[i]),
    ensures
        s.filter(wide).filter(narrow) == s.filter(narrow),
    decreases s.len(),
{
    reveal(Seq::filter);
    if s.len() > 0 {
        let front = s.drop_last();
        assert forall|i: int| 0 <= i < front.len() && narrow(#[trigger] front[i]) implies wide(
            front[i],
        ) by {
            assert(front[i] == s[i]);
        }
        lemma_filter_through_wider(front, narrow, wide);
        if wide(s.last()) {
            let kept = front.filter(wide);
            assert(kept.push(s.last()).drop_last() =~= kept);
        } else {
            assert(!narrow(s[s.len() - 1]));
        }
    }
}

/// Ignoring case finds no less. Where each line of `contents` that
/// contains `query` still contains it once both are lowered, the
/// case-sensitive search returns exactly those lines of the
/// case-insensitive search that contain `query` as written, and so never
/// more lines than it.
pub proof fn lemma_ignoring_case_finds_no_less(query: Seq<char>, contents: Seq<char>)
    requires
        forall|i: int|
            0 <= i < lines_of(contents).len() && is_substring(
                query,
                #[trigger] lines_of(contents)[i],
            ) ==> is_substring(lowercase(query), lowercase(lines_of(contents)[i])),
    ensures
        matching_lines(query, contents) == matching_lines_ignoring_case(query, contents).filter(
            containing(query),
        ),
        matching_lines(query, contents).len() <= matching_lines_ignoring_case(
            query,
            contents,
        ).len(),
{
    let all = lines_of(contents);
    lemma_filter_through_wider(all, containing(query), containing_ignoring_case(query));
    matching_lines_ignoring_case(query, contents).lemma_filter_len(containing(query));
}

/// Searching is a function of its inputs: two results of the
/// case-sensitive search for one query in one text hold the same lines in
/// the same order.
pub proof fn lemma_search_is_repeatable(
    query: Seq<char>,
    contents: Seq<char>,
    first: Seq<&str>,
    second: Seq<&str>,
)
    requires
        line_views(first) == matching_lines(query, contents),
        line_views(second) == matching_lines(query, contents),
    ensures
        first.len() == second.len(),
        forall|i: int| 0 <= i < first.len() ==> first[i]@ == second[i]@,
{
    assert(line_views(first).len() == first.len());
    assert(line_views(second).len() == second.len());
    assert forall|i: int| 0 <= i < first.len() implies first[i]@ == second[i]@ by {
        assert(line_views(first)[i] == line_views(second)[i]);
    }
}

/// Two results of the case-insensitive search for one query in one text
/// hold the same lines in the same order.
pub proof fn lemma_search_case_insensitive_is_repeatable(
    query: Seq<char>,
    contents: Seq<char>,
    first: Seq<&str>,
    second: Seq<&str>,
)
    requires
        line_views(first) == matching_lines_ignoring_case(query, contents),
        line_views(second) == matching_lines_ignoring_case(query, contents),
    ensures
        first.len() == second.len(),
        forall|i: int| 0 <= i < first.len() ==> first[i]@ == second[i]@,
{
    assert(line_views(first).len() == first.len());
    assert(line_views(second).len() == second.len());
    assert forall|i: int| 0 <= i < first.len() implies first[i]@ == second[i]@ by {
        assert(line_views(first)[i] == line_views(second)[i]);
    }
}

/// Calls `str::to_lowercase` of the standard library. The result is the
/// named lowercase form of the argument, and the lowercase form of the
/// empty string is empty. Nothing else is claimed of it.
#[verifier::external_body]
fn to_lowercase(text: &str) -> (lowered: String)
    ensures
        lowered@ == lowercase(text@),
        text@.len() == 0 ==> lowered@.len() == 0,
{
    text.to_lowercase()
}

/// Returns the lines whose key contains `needle`, in their order in
/// `lines`. The key of a line is the element of `keys` at the line's
/// index; a line without a key is left out.
pub fn select_lines<'a>(lines: &Vec<&'a str>, keys: &Vec<&str>, needle: &str) -> (found: Vec<
    &'a str,
>)
    ensures
        line_views(found@) == selected(line_views(lines@), line_views(keys@), needle@),
{
    let mut found: Vec<&'a str> = Vec::new();
    let mut i: usize = 0;
    proof {
        assert(line_views(found@) =~= selected(
            line_views(lines@).take(0),
            line_views(keys@),
            needle@,
        ));
    }
    while i < lines.len()
        invariant
            i <= lines.len(),
            line_views(found@) == selected(
                line_views(lines@).take(i as int),
                line_views(keys@),
                needle@,
            ),
        decreases lines.len() - i,
    {
        let ghost before = line_views(found@);
        proof {
            assert(line_views(lines@).take(i + 1).drop_last() =~= line_views(lines@).take(
                i as int,
            ));
        }
        if i < keys.len() && contains(keys[i], needle) {
            found.push(lines[i]);
            proof {
                assert(line_views(found@) =~= before.push(lines@[i as int]@));
            }
        }
        i += 1;
    }
    proof {
        assert(line_views(lines@).take(i as int) =~= line_views(lines@));
    }
    found
}

/// Lowers each of `lines`.
fn lowered_lines(lines: &Vec<&str>) -> (lowered: Vec<String>)
    ensures
        lowered@.len() == lines@.len(),
        forall|i: int| 0 <= i < lines@.len() ==> (#[trigger] lowered@[i])@ == lowercase(lines@[i]@),
{
    let mut lowered: Vec<String> = Vec::new();
    let mut i: usize = 0;
    while i < lines.len()
        invariant
            i <= lines.len(),
            lowered@.len() == i,
            forall|k: int| 0 <= k < i ==> (#[trigger] lowered@[k])@ == lowercase(lines@[k]@),
        decreases lines.len() - i,
    {
        lowered.push(to_lowercase(lines[i]));
        i += 1;
    }
    lowered
}

/// Borrows each of `texts` as a string slice.
fn as_slices<'b>(texts: &'b Vec<String>) -> (slices: Vec<&'b str>)
    ensures
        slices@.len() == texts@.len(),
        forall|i: int| 0 <= i < texts@.len() ==> (#[trigger] slices@[i])@ == texts@[i]@,
{
    let mut slices: Vec<&'b str> = Vec::new();
    let mut i: usize = 0;
    while i < texts.len()
        invariant
            i <= texts.len(),
            slices@.len() == i,
            forall|k: int| 0 <= k < i ==> (#[trigger] slices@[k])@ == texts@[k]@,
        decreases texts.len() - i,
    {
        slices.push(texts[i].as_str());
        i += 1;
    }
    slices
}

/// Returns the lines of `contents` that contain `query`, compared
/// character for character, in their order in `contents`. Each is a slice
/// of `contents`.
pub fn search<'a>(query: &str, contents: &'a str) -> (found: Vec<&'a str>)
    ensures
        line_views(found@) == matching_lines(query@, contents@),
        query@.len() == 0 ==> line_views(found@) == lines_of(contents@),
        contents@.len() == 0 ==> found@.len() == 0,
{
    let all = lines(contents);
    let found = select_lines(&all, &all, query);
    proof {
        lemma_selected_is_filter(
            line_views(all@),
            line_views(all@),
            query@,
            containing(query@),
        );
        if query@.len() == 0 {
            assert(query@ =~= Seq::<char>::empty());
            lemma_empty_query_matches_all(contents@);
        }
        if contents@.len() == 0 {
            assert(contents@ =~= Seq::<char>::empty());
            lemma_empty_contents_no_match(query@);
        }
    }
    found
}

/// Returns the lines of `contents` whose lowercase form contains the
/// lowercase form of `query`, in their order in `contents`. Each is a
/// slice of `contents`, in the letter case it is written in.
pub fn search_case_insensitive<'a>(query: &str, contents: &'a str) -> (found: Vec<&'a str>)
    ensures
        line_views(found@) == matching_lines_ignoring_case(query@, contents@),
        query@.len() == 0 ==> line_views(found@) == lines_of(contents@),
        contents@.len() == 0 ==> found@.len() == 0,
{
    let all = lines(contents);
    let lowered = lowered_lines(&all);
    let keys = as_slices(&lowered);
    let needle = to_lowercase(query);
    let found = select_lines(&all, &keys, needle.as_str());
    proof {
        let keep = containing_ignoring_case(query@);
        assert(line_views(keys@).len() == keys@.len());
        assert forall|i: int| 0 <= i < line_views(all@).len() implies keep(
            #[trigger] line_views(all@)[i],
        ) == is_substring(needle@, line_views(keys@)[i]) by {
            assert(line_views(keys@)[i] == keys@[i]@);
            assert(line_views(all@)[i] == all@[i]@);
        }
        lemma_selected_is_filter(line_views(all@), line_views(keys@), needle@, keep);
        if query@.len() == 0 {
            assert(lowercase(query@) =~= Seq::<char>::empty());
            assert forall|k: int| 0 <= k < lines_of(contents@).len() implies keep(
                #[trigger] lines_of(contents@)[k],
            ) by {
                lemma_empty_is_substring(lowercase(lines_of(contents@)[k]));
            }
            lemma_filter_keeps_all(lines_of(contents@), keep);
        }
        if contents@.len() == 0 {
            assert(contents@ =~= Seq::<char>::empty());
            lemma_empty_contents_no_match(query@);
        }
    }
    found
}

/// Searches `contents` under the case policy of `config`: with
/// `ignore_case` set as `search_case_insensitive` does, else as `search`
/// does.
pub fn run<'a>(config: &Config, contents: &'a str) -> (found: Vec<&'a str>)
    ensures
        line_views(found@) == if config.ignore_case {
            matching_lines_ignoring_case(config.query@, contents@)
        } else {
            matching_lines(config.query@, contents@)
        },
{
    if config.ignore_case {
        search_case_insensitive(config.query.as_str(), contents)
    } else {
        search(config.query.as_str(), contents)
    }
}

} // verus!
