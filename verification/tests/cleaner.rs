use corpus_cleaner::corpus::{
    evaluate_params, extract_text, filter_by_params, precompute_flags, precompute_line, InputFormat,
    LineData,
};
use corpus_cleaner::dictionary::{build_bloom_filter, fill_bloom_filter};
use corpus_cleaner::output::{generate_filename, params_accepted, writes_to_file};
use corpus_cleaner::search::{auto_search, best_min_valid_for_window};
use corpus_cleaner::text::{extract_words, normalize_dictionary, normalize_word};
use corpus_cleaner::window::is_clean_from_flags;

/// The number of valid words that a line shorter than the window needs.
fn short_line_required(len: usize, min_valid: usize, window: usize) -> usize {
    (len as f64 * (min_valid as f64 / window as f64)).ceil() as usize
}

fn line(original: &str, flags: &[bool]) -> LineData {
    LineData { original: original.to_string(), valid_flags: flags.to_vec() }
}

fn strings(v: &[&str]) -> Vec<String> {
    v.iter().map(|s| s.to_string()).collect()
}

#[test]
fn words_are_lowercased_alphabetic_runs() {
    assert_eq!(extract_words("Hello, Мир! foo-BAR 42x"), strings(&["hello", "мир", "foo", "bar", "x"]));
}

#[test]
fn words_split_at_a_separator() {
    let (a, b) = ("Hello wor", "ld, Мир");
    let joined = format!("{}{}{}", a, '-', b);
    assert_eq!(extract_words(&joined), [extract_words(a), extract_words(b)].concat());
    assert!(extract_words(&joined).iter().all(|w| !w.is_empty()));
}

#[test]
fn text_without_letters_has_no_words() {
    assert!(extract_words("").is_empty());
    assert!(extract_words(" 12, 34 !!").is_empty());
}

#[test]
fn words_keep_prereform_letters() {
    assert_eq!(extract_words("Алгориѳмъ ищетъ"), strings(&["алгориѳмъ", "ищетъ"]));
}

#[test]
fn dictionary_entries_are_trimmed_and_lowercased() {
    assert_eq!(normalize_word("  Слово\t"), "слово");
    assert_eq!(normalize_word("   "), "");
    let lines = strings(&["  Foo ", "", "   ", "BAR", "baz"]);
    assert_eq!(normalize_dictionary(&lines), strings(&["foo", "bar", "baz"]));
}

#[test]
fn dictionary_words_are_found() {
    let words = strings(&["foo", "bar", "baz"]);
    let bloom = build_bloom_filter(&words, 64).expect("filter");
    let d = precompute_line(&"Baz, FOO bar foo".to_string(), &bloom, &InputFormat::Text, "text").expect("line");
    assert_eq!(d.valid_flags, vec![true, true, true, true]);
}

#[test]
fn text_lines_are_their_own_text() {
    assert_eq!(extract_text("a line", &InputFormat::Text, "text"), Some("a line".to_string()));
}

#[test]
fn json_lines_give_their_string_field() {
    let l = r#"{"text": "Привет мир", "n": 3}"#;
    assert_eq!(extract_text(l, &InputFormat::Json, "text"), Some("Привет мир".to_string()));
    assert_eq!(extract_text(l, &InputFormat::Json, "n"), None);
    assert_eq!(extract_text(l, &InputFormat::Json, "missing"), None);
    assert_eq!(extract_text("not json", &InputFormat::Json, "text"), None);
    assert_eq!(extract_text(r#"["text"]"#, &InputFormat::Json, "text"), None);
}

#[test]
fn json_duplicate_keys_keep_the_last() {
    let l = r#"{"text": "first", "text": "second"}"#;
    assert_eq!(extract_text(l, &InputFormat::Json, "text"), Some("second".to_string()));
}

#[test]
fn empty_line_is_never_clean() {
    assert!(!is_clean_from_flags(&[], 3, 0, &short_line_required));
    assert!(!is_clean_from_flags(&[], 0, 0, &short_line_required));
    assert!(!is_clean_from_flags(&[], 0, 5, &short_line_required));
}

#[test]
fn zero_window_keeps_no_wordless_line() {
    let data = vec![line("a", &[]), line("b", &[])];
    assert_eq!(evaluate_params(&data, 0, 0, &short_line_required), 0);
    assert!(filter_by_params(&data, 0, 0, &short_line_required).is_empty());
}

#[test]
fn more_valid_words_keep_a_line_clean() {
    let f1 = [true, false, false, true, true];
    let f2 = [true, true, false, true, true];
    assert!(is_clean_from_flags(&f1, 3, 1, &short_line_required));
    assert!(is_clean_from_flags(&f2, 3, 1, &short_line_required));
    assert!(is_clean_from_flags(&f2, 3, 2, &short_line_required));
}

#[test]
fn every_window_must_hold_enough() {
    let flags = [true, true, false, true, true, true];
    assert!(is_clean_from_flags(&flags, 3, 2, &short_line_required));
    assert!(!is_clean_from_flags(&flags, 3, 3, &short_line_required));
    let bad = [true, false, false, true, true];
    assert!(!is_clean_from_flags(&bad, 3, 2, &short_line_required));
    assert!(is_clean_from_flags(&bad, 3, 1, &short_line_required));
}

#[test]
fn line_of_dictionary_words_is_clean() {
    let flags = vec![true; 9];
    for w in 1..10 {
        for m in 0..=w {
            assert!(is_clean_from_flags(&flags, w, m, &short_line_required));
        }
    }
}

#[test]
fn line_as_long_as_the_window_has_one_window() {
    assert!(is_clean_from_flags(&[true, false, true], 3, 2, &short_line_required));
    assert!(!is_clean_from_flags(&[true, false, false], 3, 2, &short_line_required));
}

#[test]
fn short_line_needs_a_proportional_share() {
    // 2 words, window 7, min 4: ceil(2 * 4 / 7) = 2 valid words needed.
    assert!(!is_clean_from_flags(&[true, false], 7, 4, &short_line_required));
    assert!(is_clean_from_flags(&[true, true], 7, 4, &short_line_required));
}

#[test]
fn short_line_share_is_computed_in_floating_point() {
    // 25 * (14 / 50) comes out above 7 in f64, so 8 valid words are needed.
    let mut flags = vec![false; 25];
    for f in flags.iter_mut().take(7) {
        *f = true;
    }
    assert!(!is_clean_from_flags(&flags, 50, 14, &short_line_required));
    flags[7] = true;
    assert!(is_clean_from_flags(&flags, 50, 14, &short_line_required));
}

fn sample_data() -> Vec<LineData> {
    vec![
        line("all good", &[true, true, true, true]),
        line("one bad", &[true, false, true, true]),
        line("two bad", &[false, true, false, true]),
        line("empty", &[]),
        line("short", &[true]),
    ]
}

#[test]
fn evaluate_counts_clean_lines() {
    let data = sample_data();
    assert_eq!(evaluate_params(&data, 2, 1, &short_line_required), 4);
    assert_eq!(evaluate_params(&data, 2, 2, &short_line_required), 2);
    assert_eq!(evaluate_params(&data, 3, 3, &short_line_required), 2);
}

#[test]
fn filter_keeps_clean_lines_in_order() {
    let data = sample_data();
    assert_eq!(filter_by_params(&data, 2, 1, &short_line_required), strings(&["all good", "one bad", "two bad", "short"]));
    assert_eq!(filter_by_params(&data, 2, 2, &short_line_required), strings(&["all good", "short"]));
    assert_eq!(
        filter_by_params(&data, 2, 2, &short_line_required).len(),
        evaluate_params(&data, 2, 2, &short_line_required)
    );
}

#[test]
fn raising_the_minimum_keeps_fewer_lines() {
    let data = sample_data();
    for w in 1..6 {
        for m in 0..w {
            assert!(
                evaluate_params(&data, w, m + 1, &short_line_required)
                    <= evaluate_params(&data, w, m, &short_line_required)
            );
        }
    }
}

#[test]
fn best_min_valid_is_the_largest_that_keeps_enough() {
    let data = sample_data();
    assert_eq!(best_min_valid_for_window(&data, 2, 2, &short_line_required), Some(2));
    assert_eq!(best_min_valid_for_window(&data, 2, 3, &short_line_required), Some(1));
    assert_eq!(best_min_valid_for_window(&data, 2, 5, &short_line_required), None);
    assert_eq!(best_min_valid_for_window(&data, 0, 0, &short_line_required), None);
}

#[test]
fn best_min_valid_fails_exactly_when_one_keeps_too_few() {
    let data = sample_data();
    for w in 1..6 {
        for t in 0..7 {
            let none = best_min_valid_for_window(&data, w, t, &short_line_required).is_none();
            assert_eq!(none, evaluate_params(&data, w, 1, &short_line_required) < t);
        }
    }
}

#[test]
fn larger_target_is_never_stricter() {
    let data = sample_data();
    for w in 1..6 {
        for t in 0..6 {
            let a = best_min_valid_for_window(&data, w, t, &short_line_required).unwrap_or(0);
            let b = best_min_valid_for_window(&data, w, t + 1, &short_line_required).unwrap_or(0);
            assert!(b <= a);
        }
    }
}

#[test]
fn more_lines_are_never_less_strict() {
    let data = sample_data();
    let mut more = sample_data();
    more.push(line("extra", &[true, true, true]));
    for w in 1..6 {
        for t in 0..6 {
            let a = best_min_valid_for_window(&data, w, t, &short_line_required).unwrap_or(0);
            let b = best_min_valid_for_window(&more, w, t, &short_line_required).unwrap_or(0);
            assert!(a <= b);
        }
    }
}

#[test]
fn auto_search_picks_the_strictest_combination() {
    let data = sample_data();
    let res = auto_search(&data, 1, 4, 2, &short_line_required);
    assert_eq!(res.outcomes.len(), 4);
    assert_eq!(res.outcomes[0].window, 1);
    assert_eq!(res.outcomes[0].found, Some((1, 2)));
    assert_eq!(res.outcomes[1].found, Some((2, 2)));
    // window 3: min 3 keeps "all good" and "short"; window 4: min 4 keeps the same two.
    assert_eq!(res.outcomes[2].found, Some((3, 2)));
    assert_eq!(res.outcomes[3].found, Some((4, 2)));
    assert_eq!(res.best, Some((4, 4)));
}

#[test]
fn auto_search_prefers_the_smaller_window_on_ties() {
    let data = vec![line("a", &[true, true]), line("b", &[true, false])];
    let res = auto_search(&data, 2, 3, 1, &short_line_required);
    // window 2: min 2 keeps "a"; window 3: the lines are short, min 3 needs 2 valid words.
    assert_eq!(res.outcomes[0].found, Some((2, 1)));
    assert_eq!(res.outcomes[1].found, Some((3, 1)));
    assert_eq!(res.best, Some((3, 3)));
    let res = auto_search(&data, 2, 2, 1, &short_line_required);
    assert_eq!(res.best, Some((2, 2)));
}

#[test]
fn auto_search_reports_failure() {
    let data = sample_data();
    let res = auto_search(&data, 2, 3, 10, &short_line_required);
    assert_eq!(res.best, None);
    assert!(res.outcomes.iter().all(|o| o.found.is_none()));
    let empty = auto_search(&data, 5, 4, 1, &short_line_required);
    assert!(empty.outcomes.is_empty());
    assert_eq!(empty.best, None);
}

#[test]
fn file_name_from_the_default_pattern() {
    let name = generate_filename("clean.window{W}--min-valid{M}.{K}={P}%.txt", 19, 9, 13885, "11.5");
    assert_eq!(name, "clean.window19--min-valid9.13885=11.5%.txt");
}

#[test]
fn file_name_from_the_documented_default_pattern() {
    let name = generate_filename("clean.window{W}--min-valid{M}.{K}={P:.1}%.txt", 19, 9, 13885, "11.5");
    assert_eq!(name, "clean.window19--min-valid9.13885=11.5%.txt");
}

#[test]
fn file_name_replaces_every_occurrence() {
    assert_eq!(generate_filename("{W}-{W}-{K}{M}", 7, 0, 120, "x"), "7-7-1200");
    assert_eq!(generate_filename("plain.txt", 1, 2, 3, "4"), "plain.txt");
    assert_eq!(generate_filename("{P:.1}", 1, 2, 3, "4"), "4");
    assert_eq!(generate_filename("{P}/{P:.1}/{P:.2}", 1, 2, 3, "4.0"), "4.0/4.0/{P:.2}");
}

#[test]
fn manual_output_goes_to_stdout_only_with_the_defaults() {
    assert!(!writes_to_file(true, "clean.window{W}--min-valid{M}.{K}={P:.1}%.txt"));
    assert!(writes_to_file(true, "clean.window{W}--min-valid{M}.{K}={P}%.txt"));
    assert!(writes_to_file(false, "clean.window{W}--min-valid{M}.{K}={P:.1}%.txt"));
}

#[test]
fn manual_minimum_may_not_exceed_window() {
    assert!(!params_accepted(false, 3, 4));
    assert!(params_accepted(false, 4, 4));
    assert!(params_accepted(true, 3, 4));
}

#[test]
fn precompute_reads_flags_from_the_dictionary() {
    let dict = normalize_dictionary(&strings(&["привет", "Мир"]));
    let bloom = build_bloom_filter(&dict, 1024).expect("filter");
    let lines = strings(&[r#"{"text": "Привет, мир!"}"#, "broken", r#"{"other": "x"}"#]);
    let data = precompute_flags(&lines, &bloom, &InputFormat::Json, "text");
    assert_eq!(data.len(), 1);
    assert_eq!(data[0].original, lines[0]);
    assert_eq!(data[0].valid_flags, vec![true, true]);
    let one = precompute_line(&lines[0], &bloom, &InputFormat::Json, "text").expect("line");
    assert_eq!(one.valid_flags, vec![true, true]);
    assert!(precompute_line(&lines[1], &bloom, &InputFormat::Json, "text").is_none());
}

#[test]
fn precompute_keeps_every_text_line_in_order() {
    let dict = normalize_dictionary(&strings(&["a"]));
    let bloom = build_bloom_filter(&dict, 1024).expect("filter");
    let lines = strings(&["a b", "", "a"]);
    let data = precompute_flags(&lines, &bloom, &InputFormat::Text, "text");
    assert_eq!(data.len(), 3);
    assert_eq!(data[1].original, "");
    assert!(data[1].valid_flags.is_empty());
    assert_eq!(data[2].valid_flags, vec![true]);
    assert_eq!(data[0].valid_flags.len(), 2);
    assert!(data[0].valid_flags[0]);
    for (d, l) in data.iter().zip(lines.iter()) {
        assert_eq!(d.valid_flags.len(), extract_words(l).len());
    }
}

#[test]
fn filling_adds_words_and_keeps_old_ones() {
    let bloom = build_bloom_filter(&strings(&["old"]), 256).expect("filter");
    let bloom = fill_bloom_filter(bloom, &strings(&["new", "more"]));
    let d = precompute_line(&"old new more".to_string(), &bloom, &InputFormat::Text, "text").expect("line");
    assert_eq!(d.valid_flags, vec![true, true, true]);
    let fresh = bloomfilter::Bloom::<String>::new(64, 2).expect("seed");
    let fresh = fill_bloom_filter(fresh, &strings(&["x"]));
    let d = precompute_line(&"x".to_string(), &fresh, &InputFormat::Text, "text").expect("line");
    assert_eq!(d.valid_flags, vec![true]);
}

#[test]
fn stricter_minimum_keeps_a_subsequence() {
    let data = sample_data();
    for w in 1..6 {
        for m in 0..w {
            let loose = filter_by_params(&data, w, m, &short_line_required);
            let strict = filter_by_params(&data, w, m + 1, &short_line_required);
            let mut it = loose.iter();
            assert!(strict.iter().all(|s| it.any(|l| l == s)));
        }
    }
}
