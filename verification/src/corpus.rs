//! Lines of the corpus: the text of a line, the validity flags of its words, and the lines
//! that a choice of window and minimum keeps.

use vstd::prelude::*;
use bloomfilter::Bloom;
use rayon::iter::{IntoParallelRefIterator, ParallelIterator};
use crate::dictionary::{bloom_check, bloom_members, bloom_shape};
use crate::json::{parse_json, parsed_string_members, string_member};
use crate::text::{dictionary_words, extract_words, strings_view, words_of};
use crate::window::{is_clean, is_clean_from_flags, is_monotone_rule, is_threshold_rule};

verus! {

/// How each input line is read.
#[derive(Clone, Copy, Debug, PartialEq, Eq)]
pub enum InputFormat {
    /// The whole line is the text.
    Text,
    /// The line is a JSON object; the text is one of its string members.
    Json,
}

/// The text of a line: the line itself, or the string member `field` of the JSON object that
/// the line holds (none where the line is not JSON or has no such string member).
pub open spec fn line_text(line: Seq<char>, format: InputFormat, field: Seq<char>) -> Option<
    Seq<char>,
> {
    match format {
        InputFormat::Text => Some(line),
        InputFormat::Json => match parsed_string_members(line) {
            Some(m) => if m.dom().contains(field) {
                Some(m[field])
            } else {
                None
            },
            None => None,
        },
    }
}

/// Takes the text out of a line according to the input format.
pub fn extract_text(line: &str, format: &InputFormat, json_field: &str) -> (text: Option<String>)
    ensures
        text is Some <==> line_text(line@, *format, json_field@) is Some,
        text matches Some(t) ==> t@ == line_text(line@, *format, json_field@)->0,
{
    broadcast use vstd::string::group_string_axioms;

    match format {
        InputFormat::Text => Some(line.to_string()),
        InputFormat::Json => {
            let json = parse_json(line)?;
            string_member(&json, json_field)
        },
    }
}

/// A line of the input with the validity flags of its words.
pub struct LineData {
    /// The line as it was read.
    pub original: String,
    /// For each word of the line's text, whether the dictionary recognized it.
    pub valid_flags: Vec<bool>,
}

/// `d` was made from `line`, whose text is `text`: one flag per word of the text, in order,
/// each saying whether the dictionary reports that word present.
pub open spec fn fits_line(d: LineData, line: Seq<char>, text: Seq<char>, dictionary: Set<Seq<char>>) -> bool {
    &&& d.original@ == line
    &&& d.valid_flags@.len() == words_of(text).len()
    &&& forall|i: int|
        0 <= i < words_of(text).len() ==> d.valid_flags@[i] == dictionary.contains(
            #[trigger] words_of(text)[i],
        )
}

/// Reads one line: its text, its words, and a validity flag for each word from the filter.
pub fn precompute_line(
    line: &String,
    bloom: &Bloom<String>,
    format: &InputFormat,
    json_field: &str,
) -> (d: Option<LineData>)
    requires
        bloom_shape(*bloom).0 > 0,
    ensures
        d is Some <==> line_text(line@, *format, json_field@) is Some,
        d matches Some(d) ==> fits_line(
            d,
            line@,
            line_text(line@, *format, json_field@)->0,
            bloom_members(*bloom),
        ),
        d matches Some(d) ==> d.original@ == line@ && d.valid_flags@.len() == words_of(
            line_text(line@, *format, json_field@)->0,
        ).len(),
        d matches Some(d) ==> forall|i: int|
            0 <= i < d.valid_flags@.len() ==> (#[trigger] d.valid_flags@[i] <==> bloom_members(
                *bloom,
            ).contains(words_of(line_text(line@, *format, json_field@)->0)[i])),
{
    let text = extract_text(line.as_str(), format, json_field)?;
    let words = extract_words(text.as_str());
    let ghost ws = words_of(text@);
    let mut valid_flags: Vec<bool> = Vec::new();
    let mut i: usize = 0;
    while i < words.len()
        invariant
            i <= words@.len(),
            strings_view(words@) == ws,
            valid_flags@.len() == i,
            forall|j: int|
                0 <= j < i ==> valid_flags@[j] == bloom_members(*bloom).contains(#[trigger] ws[j]),
            bloom_shape(*bloom).0 > 0,
        decreases words@.len() - i,
    {
        let found = bloom_check(bloom, &words[i]);
        proof {
            assert(ws[i as int] == words@[i as int]@);
        }
        valid_flags.push(found);
        i = i + 1;
    }
    Some(LineData { original: line.clone(), valid_flags })
}

/// A line's flags are exactly the filter's answers for its words: a word is flagged valid
/// when, and only when, the filter reports it present.
pub proof fn lemma_flags_are_filter_answers(
    d: LineData,
    line: Seq<char>,
    text: Seq<char>,
    dictionary: Set<Seq<char>>,
)
    requires
        fits_line(d, line, text, dictionary),
    ensures
        d.valid_flags@.len() == words_of(text).len(),
        forall|i: int|
            0 <= i < d.valid_flags@.len() && #[trigger] d.valid_flags@[i] ==> dictionary.contains(
                words_of(text)[i],
            ),
        forall|i: int|
            0 <= i < d.valid_flags@.len() && dictionary.contains(#[trigger] words_of(text)[i])
                ==> d.valid_flags@[i],
{
    assert forall|i: int|
        0 <= i < d.valid_flags@.len() && #[trigger] d.valid_flags@[i] implies dictionary.contains(
            words_of(text)[i],
        ) by {
        assert(d.valid_flags@[i] == dictionary.contains(words_of(text)[i]));
    }
}

/// The lines that have a text, each with that text, in order.
pub open spec fn lines_with_text(lines: Seq<Seq<char>>, format: InputFormat, field: Seq<char>) -> Seq<
    (Seq<char>, Seq<char>),
> {
    lines.filter_map(
        |l: Seq<char>|
            match line_text(l, format, field) {
                Some(t) => Some((l, t)),
                None => None,
            },
    )
}

/// Runs `precompute_line` over the lines with `rayon` (`par_iter`, `filter_map`, `collect`
/// into a `Vec`). Rayon keeps the order of the items in what it collects, and keeps exactly
/// the lines for which the closure returns `Some`.
#[verifier::external_body]
fn par_precompute(
    lines: &[String],
    bloom: &Bloom<String>,
    format: &InputFormat,
    json_field: &str,
) -> (data: Vec<LineData>)
    requires
        bloom_shape(*bloom).0 > 0,
    ensures
        data@.len() == lines_with_text(strings_view(lines@), *format, json_field@).len(),
        forall|i: int|
            0 <= i < data@.len() ==> #[trigger] fits_line(
                data@[i],
                lines_with_text(strings_view(lines@), *format, json_field@)[i].0,
                lines_with_text(strings_view(lines@), *format, json_field@)[i].1,
                bloom_members(*bloom),
            ),
{
    lines.par_iter().filter_map(|line| precompute_line(line, bloom, format, json_field)).collect()
}

/// Reads every line of the input, in parallel: the lines without a text are dropped, the
/// others come with the validity flags of their words, in the order of the input.
pub fn precompute_flags(
    lines: &[String],
    bloom: &Bloom<String>,
    format: &InputFormat,
    json_field: &str,
) -> (data: Vec<LineData>)
    requires
        bloom_shape(*bloom).0 > 0,
    ensures
        data@.len() == lines_with_text(strings_view(lines@), *format, json_field@).len(),
        forall|i: int|
            0 <= i < data@.len() ==> #[trigger] fits_line(
                data@[i],
                lines_with_text(strings_view(lines@), *format, json_field@)[i].0,
                lines_with_text(strings_view(lines@), *format, json_field@)[i].1,
                bloom_members(*bloom),
            ),
{
    par_precompute(lines, bloom, format, json_field)
}

/// The lines that are clean for `window` and `min_valid`, in order.
pub open spec fn clean_lines<F: Fn(usize, usize, usize) -> usize>(
    data: Seq<LineData>,
    window: usize,
    min_valid: usize,
    rule: F,
) -> Seq<LineData> {
    data.filter(|d: LineData| is_clean(d.valid_flags@, window, min_valid, rule))
}

/// No line has a word.
pub open spec fn all_wordless(data: Seq<LineData>) -> bool {
    forall|i: int| 0 <= i < data.len() ==> (#[trigger] data[i]).valid_flags@.len() == 0
}

/// Counts the clean lines with `rayon` (`par_iter`, `filter`, `count`): the count is the
/// number of items for which the closure holds.
#[verifier::external_body]
fn par_count_clean<F: Fn(usize, usize, usize) -> usize + Sync>(
    data: &[LineData],
    window: usize,
    min_valid: usize,
    rule: &F,
) -> (n: usize)
    requires
        window > 0 || all_wordless(data@),
        is_threshold_rule(*rule),
        is_monotone_rule(*rule),
    ensures
        n == clean_lines(data@, window, min_valid, *rule).len(),
{
    data.par_iter().filter(|line| is_clean_from_flags(&line.valid_flags, window, min_valid, rule)).count()
}

/// Collects the clean lines, as they were read, with `rayon` (`par_iter`, `filter`, `map`,
/// `collect` into a `Vec`, which keeps the order of the items).
#[verifier::external_body]
fn par_clean_lines<F: Fn(usize, usize, usize) -> usize + Sync>(
    data: &[LineData],
    window: usize,
    min_valid: usize,
    rule: &F,
) -> (kept: Vec<String>)
    requires
        window > 0 || all_wordless(data@),
        is_threshold_rule(*rule),
        is_monotone_rule(*rule),
    ensures
        strings_view(kept@) == clean_lines(data@, window, min_valid, *rule).map_values(
            |d: LineData| d.original@,
        ),
{
    data.par_iter()
        .filter(|line| is_clean_from_flags(&line.valid_flags, window, min_valid, rule))
        .map(|line| line.original.clone())
        .collect()
}

/// How many lines are clean for `window` and `min_valid`.
pub fn evaluate_params<F: Fn(usize, usize, usize) -> usize + Sync>(
    data: &[LineData],
    window: usize,
    min_valid: usize,
    rule: &F,
) -> (kept: usize)
    requires
        window > 0 || all_wordless(data@),
        is_threshold_rule(*rule),
        is_monotone_rule(*rule),
    ensures
        kept == clean_lines(data@, window, min_valid, *rule).len(),
{
    par_count_clean(data, window, min_valid, rule)
}

/// The lines, as they were read, that are clean for `window` and `min_valid`, in order.
pub fn filter_by_params<F: Fn(usize, usize, usize) -> usize + Sync>(
    data: &[LineData],
    window: usize,
    min_valid: usize,
    rule: &F,
) -> (kept: Vec<String>)
    requires
        window > 0 || all_wordless(data@),
        is_threshold_rule(*rule),
        is_monotone_rule(*rule),
    ensures
        strings_view(kept@) == clean_lines(data@, window, min_valid, *rule).map_values(
            |d: LineData| d.original@,
        ),
{
    par_clean_lines(data, window, min_valid, rule)
}

/// Once the filter has recorded the words of a dictionary, every word of a line's text that
/// the dictionary holds is flagged valid: the filter has no false negatives.
pub proof fn lemma_dictionary_words_flagged(
    d: LineData,
    line: Seq<char>,
    text: Seq<char>,
    dictionary_lines: Seq<Seq<char>>,
    bloom: Bloom<String>,
)
    requires
        dictionary_words(dictionary_lines).to_set().subset_of(bloom_members(bloom)),
        fits_line(d, line, text, bloom_members(bloom)),
    ensures
        forall|i: int|
            0 <= i < words_of(text).len() && dictionary_words(dictionary_lines).contains(
                #[trigger] words_of(text)[i],
            ) ==> d.valid_flags@[i],
{
    assert forall|i: int|
        0 <= i < words_of(text).len() && dictionary_words(dictionary_lines).contains(
            #[trigger] words_of(text)[i],
        ) implies d.valid_flags@[i] by {
        assert(bloom_members(bloom).contains(words_of(text)[i]));
    }
}

proof fn lemma_filter_of_filter(s: Seq<LineData>, p: spec_fn(LineData) -> bool, q: spec_fn(LineData) -> bool)
    requires
        forall|x: LineData| #[trigger] q(x) ==> p(x),
    ensures
        s.filter(q) == s.filter(p).filter(q),
    decreases s.len(),
{
    reveal(Seq::filter);
    if s.len() > 0 {
        lemma_filter_of_filter(s.drop_last(), p, q);
        let x = s.last();
        if p(x) {
            assert(s.filter(p).drop_last() =~= s.drop_last().filter(p));
            assert(s.filter(p).last() == x);
        } else {
            assert(s.filter(p) == s.drop_last().filter(p));
        }
    }
}

/// A stricter minimum keeps a subsequence of the lines that a looser one keeps, in the same
/// order: the lines clean for `m2` are those clean for `m1` that are also clean for `m2`.
pub proof fn lemma_stricter_keeps_subsequence<F: Fn(usize, usize, usize) -> usize>(
    data: Seq<LineData>,
    window: usize,
    m1: usize,
    m2: usize,
    rule: F,
)
    requires
        m1 <= m2,
    ensures
        clean_lines(data, window, m2, rule) == clean_lines(data, window, m1, rule).filter(
            |d: LineData| is_clean(d.valid_flags@, window, m2, rule),
        ),
{
    let p = |d: LineData| is_clean(d.valid_flags@, window, m1, rule);
    let q = |d: LineData| is_clean(d.valid_flags@, window, m2, rule);
    assert forall|x: LineData| #[trigger] q(x) implies p(x) by {
        crate::search::lemma_clean_monotone(x.valid_flags@, window, m1, m2, rule);
    }
    lemma_filter_of_filter(data, p, q);
}

/// The number that `evaluate_params` gives is the number of lines that `filter_by_params`
/// keeps, for the same parameters, and never more than the number of lines.
pub proof fn lemma_count_matches_filter<F: Fn(usize, usize, usize) -> usize>(
    data: Seq<LineData>,
    window: usize,
    min_valid: usize,
    rule: F,
)
    ensures
        clean_lines(data, window, min_valid, rule).map_values(|d: LineData| d.original@).len()
            == clean_lines(data, window, min_valid, rule).len(),
        clean_lines(data, window, min_valid, rule).len() <= data.len(),
{
    data.lemma_filter_len(|d: LineData| is_clean(d.valid_flags@, window, min_valid, rule));
}

} // verus!
