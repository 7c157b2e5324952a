use vstd::prelude::*;

use crate::search::{folded_matching_lines, lower_of, matching_lines, search_result};
use crate::text::{has_substring, is_white_space, lines_of, trim_end, trim_start, trimmed};

verus! {

/// Whether `line` is a match for `query`, exactly or ignoring letter case.
pub open spec fn line_matches(line: Seq<char>, query: Seq<char>, ignore_case: bool) -> bool {
    if ignore_case {
        has_substring(lower_of(line), lower_of(query))
    } else {
        has_substring(line, query)
    }
}

/// `a` is an initial part of `b`.
pub open spec fn is_prefix_of(a: Seq<Seq<char>>, b: Seq<Seq<char>>) -> bool {
    a.len() <= b.len() && forall|i: int| 0 <= i < a.len() ==> a[i] == b[i]
}

proof fn lemma_matching_prefix(lines: Seq<Seq<char>>, query: Seq<char>, m: int)
    requires
        0 <= m <= lines.len(),
    ensures
        is_prefix_of(matching_lines(lines.take(m), query), matching_lines(lines, query)),
    decreases lines.len(),
{
    if m == lines.len() {
        assert(lines.take(m) =~= lines);
    } else {
        assert(lines.drop_last().take(m) =~= lines.take(m));
        lemma_matching_prefix(lines.drop_last(), query, m);
    }
}

/// The leading white space of `s` ends at the returned index.
proof fn lemma_trim_start_bound(s: Seq<char>) -> (a: int)
    ensures
        0 <= a <= s.len(),
        trim_start(s) == s.subrange(a, s.len() as int),
        forall|i: int| 0 <= i < a ==> is_white_space(#[trigger] s[i]),
        a < s.len() ==> !is_white_space(s[a]),
    decreases s.len(),
{
    if s.len() > 0 && is_white_space(s[0]) {
        let a1 = lemma_trim_start_bound(s.drop_first());
        assert(s.drop_first().subrange(a1, s.len() - 1) =~= s.subrange(a1 + 1, s.len() as int));
        assert forall|i: int| 0 <= i < a1 + 1 implies is_white_space(#[trigger] s[i]) by {
            if i > 0 {
                assert(s[i] == s.drop_first()[i - 1]);
            }
        }
        a1 + 1
    } else {
        assert(s.subrange(0, s.len() as int) =~= s);
        0
    }
}

/// The trailing white space of `s` starts at the returned index.
proof fn lemma_trim_end_bound(s: Seq<char>) -> (b: int)
    ensures
        0 <= b <= s.len(),
        trim_end(s) == s.subrange(0, b),
        forall|i: int| b <= i < s.len() ==> is_white_space(#[trigger] s[i]),
        b > 0 ==> !is_white_space(s[b - 1]),
    decreases s.len(),
{
    if s.len() > 0 && is_white_space(s.last()) {
        let b1 = lemma_trim_end_bound(s.drop_last());
        assert(s.drop_last().subrange(0, b1) =~= s.subrange(0, b1));
        assert forall|i: int| b1 <= i < s.len() implies is_white_space(#[trigger] s[i]) by {
            if i < s.len() - 1 {
                assert(s[i] == s.drop_last()[i]);
            }
        }
        b1
    } else {
        assert(s.subrange(0, s.len() as int) =~= s);
        s.len() as int
    }
}

/// Trimming a line keeps every occurrence of a query that neither starts
/// nor ends with white space.
proof fn lemma_trim_keeps_occurrence(line: Seq<char>, query: Seq<char>)
    requires
        has_substring(line, query),
        query.len() > 0 ==> !is_white_space(query[0]) && !is_white_space(query.last()),
    ensures
        has_substring(trimmed(line), query),
{
    let t = trimmed(line);
    if query.len() == 0 {
        assert(t.subrange(0, 0 + query.len() as int) =~= query);
        assert(has_substring(t, query));
    } else {
        let i = choose|i: int|
            0 <= i && i + query.len() <= line.len() && #[trigger] line.subrange(
                i,
                i + query.len(),
            ) == query;
        let a = lemma_trim_start_bound(line);
        let rest = line.subrange(a, line.len() as int);
        let b = lemma_trim_end_bound(rest);
        assert(t =~= line.subrange(a, a + b));
        assert(line[i] == query[0]);
        assert(i >= a);
        let e = i + query.len() - 1;
        assert(line[e] == query.last());
        if e >= a + b {
            assert(rest[e - a] == line[e]);
        }
        assert(e < a + b);
        assert(t.subrange(i - a, i - a + query.len()) =~= query);
        assert(has_substring(t, query));
    }
}

proof fn lemma_matching_contain(lines: Seq<Seq<char>>, query: Seq<char>)
    requires
        query.len() > 0 ==> !is_white_space(query[0]) && !is_white_space(query.last()),
    ensures
        forall|i: int|
            0 <= i < matching_lines(lines, query).len() ==> has_substring(
                #[trigger] matching_lines(lines, query)[i],
                query,
            ),
    decreases lines.len(),
{
    if lines.len() > 0 {
        lemma_matching_contain(lines.drop_last(), query);
        let before = matching_lines(lines.drop_last(), query);
        let out = matching_lines(lines, query);
        if has_substring(lines.last(), query) {
            lemma_trim_keeps_occurrence(lines.last(), query);
        }
        assert forall|i: int| 0 <= i < out.len() implies has_substring(#[trigger] out[i], query) by {
            if i < before.len() {
                assert(out[i] == before[i]);
            }
        }
    }
}

/// A line that contains the query is returned trimmed, and in line order:
/// it stands at the place given by the number of earlier lines that also
/// contain the query.
pub proof fn lemma_search_finds_line(contents: Seq<char>, query: Seq<char>, k: int)
    requires
        0 <= k < lines_of(contents).len(),
        has_substring(lines_of(contents)[k], query),
    ensures
        ({
            let lines = lines_of(contents);
            let out = search_result(query, false, contents);
            let j = matching_lines(lines.take(k), query).len() as int;
            j < out.len() && out[j] == trimmed(lines[k])
        }),
{
    let lines = lines_of(contents);
    assert(lines.take(k + 1).drop_last() =~= lines.take(k));
    lemma_matching_prefix(lines, query, k + 1);
}

/// Each line that an exact search returns contains the query, provided the
/// query neither starts nor ends with white space (trimming could otherwise
/// cut into the occurrence).
pub proof fn lemma_search_lines_contain_query(contents: Seq<char>, query: Seq<char>)
    requires
        query.len() > 0 ==> !is_white_space(query[0]) && !is_white_space(query.last()),
    ensures
        forall|i: int|
            0 <= i < search_result(query, false, contents).len() ==> has_substring(
                #[trigger] search_result(query, false, contents)[i],
                query,
            ),
{
    lemma_matching_contain(lines_of(contents), query);
}

proof fn lemma_folded_exact(lines: Seq<Seq<char>>, folded_query: Seq<char>)
    ensures
        forall|k: int|
            0 <= k < lines.len() && has_substring(lower_of(#[trigger] lines[k]), folded_query)
                ==> folded_matching_lines(lines, folded_query).contains(lines[k]),
        forall|i: int|
            0 <= i < folded_matching_lines(lines, folded_query).len() ==> lines.contains(
                #[trigger] folded_matching_lines(lines, folded_query)[i],
            ) && has_substring(lower_of(folded_matching_lines(lines, folded_query)[i]), folded_query),
    decreases lines.len(),
{
    if lines.len() > 0 {
        let init = lines.drop_last();
        lemma_folded_exact(init, folded_query);
        let before = folded_matching_lines(init, folded_query);
        let out = folded_matching_lines(lines, folded_query);
        assert forall|k: int|
            0 <= k < lines.len() && has_substring(lower_of(#[trigger] lines[k]), folded_query)
                implies out.contains(lines[k]) by {
            if k < lines.len() - 1 {
                assert(lines[k] == init[k]);
                let i = choose|i: int| 0 <= i < before.len() && before[i] == init[k];
                assert(out[i] == before[i]);
            } else {
                assert(out[out.len() - 1] == lines[k]);
            }
        }
        assert forall|i: int| 0 <= i < out.len() implies lines.contains(#[trigger] out[i])
            && has_substring(lower_of(out[i]), folded_query) by {
            if i < before.len() {
                assert(out[i] == before[i]);
                let j = choose|j: int| 0 <= j < init.len() && init[j] == before[i];
                assert(lines[j] == init[j]);
            } else {
                assert(lines[lines.len() - 1] == out[i]);
            }
        }
    }
}

/// A search that ignores letter case returns exactly the lines whose
/// lower-case form contains the lower-case query: each such line, and no
/// other.
pub proof fn lemma_search_ignoring_case_exact(contents: Seq<char>, query: Seq<char>)
    ensures
        forall|k: int|
            0 <= k < lines_of(contents).len() && has_substring(
                lower_of(#[trigger] lines_of(contents)[k]),
                lower_of(query),
            ) ==> search_result(query, true, contents).contains(lines_of(contents)[k]),
        forall|i: int|
            0 <= i < search_result(query, true, contents).len() ==> lines_of(contents).contains(
                #[trigger] search_result(query, true, contents)[i],
            ) && has_substring(lower_of(search_result(query, true, contents)[i]), lower_of(query)),
{
    lemma_folded_exact(lines_of(contents), lower_of(query));
}

/// A search depends on the query, the mode and the text alone: running it
/// again on the same text gives the same lines.
pub proof fn lemma_search_repeatable(
    query: Seq<char>,
    ignore_case: bool,
    contents: Seq<char>,
    query2: Seq<char>,
    ignore_case2: bool,
    contents2: Seq<char>,
)
    requires
        query == query2,
        ignore_case == ignore_case2,
        contents == contents2,
    ensures
        search_result(query, ignore_case, contents) == search_result(query2, ignore_case2, contents2),
{
}

/// An empty text has no lines, so a search over it returns none.
pub proof fn lemma_empty_contents(query: Seq<char>, ignore_case: bool)
    ensures
        search_result(query, ignore_case, Seq::empty()).len() == 0,
{
    assert(lines_of(Seq::empty()).len() == 0);
}

proof fn lemma_no_match(lines: Seq<Seq<char>>, query: Seq<char>, ignore_case: bool)
    requires
        forall|k: int| 0 <= k < lines.len() ==> !line_matches(#[trigger] lines[k], query, ignore_case),
    ensures
        ignore_case ==> folded_matching_lines(lines, lower_of(query)).len() == 0,
        !ignore_case ==> matching_lines(lines, query).len() == 0,
    decreases lines.len(),
{
    if lines.len() > 0 {
        let init = lines.drop_last();
        assert forall|k: int| 0 <= k < init.len() implies !line_matches(
            #[trigger] init[k],
            query,
            ignore_case,
        ) by {
            assert(init[k] == lines[k]);
        }
        lemma_no_match(init, query, ignore_case);
        assert(!line_matches(lines[lines.len() - 1], query, ignore_case));
    }
}

/// Where no line matches, the search returns no line (and this is no error).
pub proof fn lemma_absent_query(contents: Seq<char>, query: Seq<char>, ignore_case: bool)
    requires
        forall|k: int|
            0 <= k < lines_of(contents).len() ==> !line_matches(
                #[trigger] lines_of(contents)[k],
                query,
                ignore_case,
            ),
    ensures
        search_result(query, ignore_case, contents).len() == 0,
{
    lemma_no_match(lines_of(contents), query, ignore_case);
}

} // verus!
