use vstd::prelude::*;

use crate::config::Config;
use crate::text::{
    chars_of, has_substring, line_spans, lines_of, occurs_in, trim_bounds, trimmed,
};

verus! {

/// The lower-case form of a text, as `str::to_lowercase` gives it.
pub uninterp spec fn lower_of(s: Seq<char>) -> Seq<char>;

/// Relies on `str::to_lowercase`: its result depends on the characters of
/// `s` alone.
#[verifier::external_body]
fn lowercase(s: &str) -> (r: String)
    ensures
        r@ == lower_of(s@),
{
    s.to_lowercase()
}

/// The characters of each line of a result.
pub open spec fn views(lines: Seq<&str>) -> Seq<Seq<char>> {
    lines.map_values(|l: &str| l@)
}

/// The lines of `lines` that contain `query`, each trimmed, in order.
pub open spec fn matching_lines(lines: Seq<Seq<char>>, query: Seq<char>) -> Seq<Seq<char>>
    decreases lines.len(),
{
    if lines.len() == 0 {
        Seq::empty()
    } else {
        let before = matching_lines(lines.drop_last(), query);
        if has_substring(lines.last(), query) {
            before.push(trimmed(lines.last()))
        } else {
            before
        }
    }
}

/// The lines of `lines` whose lower-case form contains `folded_query`,
/// unchanged, in order.
pub open spec fn folded_matching_lines(lines: Seq<Seq<char>>, folded_query: Seq<char>) -> Seq<
    Seq<char>,
>
    decreases lines.len(),
{
    if lines.len() == 0 {
        Seq::empty()
    } else {
        let before = folded_matching_lines(lines.drop_last(), folded_query);
        if has_substring(lower_of(lines.last()), folded_query) {
            before.push(lines.last())
        } else {
            before
        }
    }
}

/// The lines that a search for `query` over `contents` yields, exactly or
/// ignoring letter case.
pub open spec fn search_result(query: Seq<char>, ignore_case: bool, contents: Seq<char>) -> Seq<
    Seq<char>,
> {
    if ignore_case {
        folded_matching_lines(lines_of(contents), lower_of(query))
    } else {
        matching_lines(lines_of(contents), query)
    }
}

/// Whether `needle` occurs in `hay`.
pub fn contains_str(hay: &str, needle: &str) -> (r: bool)
    ensures
        r == has_substring(hay@, needle@),
{
    let h = chars_of(hay);
    let n = chars_of(needle);
    assert(h@.subrange(0, h@.len() as int) =~= h@);
    occurs_in(&h, 0, h.len(), &n)
}

/// The lines of `content` that contain `query`, trimmed of surrounding
/// white space, in order.
pub fn search<'a>(query: &str, content: &'a str) -> (r: Vec<&'a str>)
    ensures
        views(r@) == matching_lines(lines_of(content@), query@),
{
    let q = chars_of(query);
    let text = chars_of(content);
    let spans = line_spans(&text);
    let ghost lines = lines_of(content@);
    let mut result: Vec<&'a str> = Vec::new();
    let mut k: usize = 0;
    while k < spans.len()
        invariant
            k <= spans.len(),
            text@ == content@,
            q@ == query@,
            lines == lines_of(content@),
            spans@.len() == lines.len(),
            forall|j: int| 0 <= j < spans@.len() ==> #[trigger] spans@[j].0 <= spans@[j].1 <= text.len(),
            forall|j: int|
                0 <= j < spans@.len() ==> text@.subrange(spans@[j].0 as int, spans@[j].1 as int)
                    == #[trigger] lines_of(text@)[j],
            views(result@) == matching_lines(lines.take(k as int), query@),
        decreases spans.len() - k,
    {
        let (lo, hi) = spans[k];
        let ghost line = lines[k as int];
        assert(lines.take(k + 1).drop_last() =~= lines.take(k as int));
        assert(lines.take(k + 1).last() == line);
        assert(text@.subrange(lo as int, hi as int) == line);
        if occurs_in(&text, lo, hi, &q) {
            let (a, b) = trim_bounds(&text, lo, hi);
            let l = content.substring_char(a, b);
            let ghost before = result@;
            result.push(l);
            assert(views(result@) =~= views(before).push(l@));
        }
        k += 1;
    }
    assert(lines.take(k as int) =~= lines);
    result
}

/// The lines of `content` whose lower-case form contains the lower-case
/// form of `query`, in order. Unlike `search`, the lines are returned as
/// they stand, not trimmed.
pub fn search_case_insensitive<'a>(query: &str, content: &'a str) -> (r: Vec<&'a str>)
    ensures
        views(r@) == folded_matching_lines(lines_of(content@), lower_of(query@)),
{
    let lowercase_query = lowercase(query);
    let text = chars_of(content);
    let spans = line_spans(&text);
    let ghost lines = lines_of(content@);
    let mut result: Vec<&'a str> = Vec::new();
    let mut k: usize = 0;
    while k < spans.len()
        invariant
            k <= spans.len(),
            text@ == content@,
            lowercase_query@ == lower_of(query@),
            lines == lines_of(content@),
            spans@.len() == lines.len(),
            forall|j: int| 0 <= j < spans@.len() ==> #[trigger] spans@[j].0 <= spans@[j].1 <= text.len(),
            forall|j: int|
                0 <= j < spans@.len() ==> text@.subrange(spans@[j].0 as int, spans@[j].1 as int)
                    == #[trigger] lines_of(text@)[j],
            views(result@) == folded_matching_lines(lines.take(k as int), lower_of(query@)),
        decreases spans.len() - k,
    {
        let (lo, hi) = spans[k];
        let ghost line = lines[k as int];
        assert(lines.take(k + 1).drop_last() =~= lines.take(k as int));
        assert(lines.take(k + 1).last() == line);
        assert(text@.subrange(lo as int, hi as int) == line);
        let l = content.substring_char(lo, hi);
        let folded = lowercase(l);
        if contains_str(folded.as_str(), lowercase_query.as_str()) {
            let ghost before = result@;
            result.push(l);
            assert(views(result@) =~= views(before).push(l@));
        }
        k += 1;
    }
    assert(lines.take(k as int) =~= lines);
    result
}

/// Searches `contents` as `config` asks: by exact substring, or ignoring
/// letter case.
pub fn run<'a>(config: &Config, contents: &'a str) -> (r: Vec<&'a str>)
    ensures
        views(r@) == search_result(config.query@, config.ignore_case, contents@),
{
    if config.ignore_case {
        search_case_insensitive(config.query.as_str(), contents)
    } else {
        search(config.query.as_str(), contents)
    }
}

} // verus!
