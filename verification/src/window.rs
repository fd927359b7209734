//! The sliding-window quality test on the per-word validity flags of one line.

use vstd::prelude::*;

verus! {

/// Number of `true` flags in `s`.
pub open spec fn count_valid(s: Seq<bool>) -> nat
    decreases s.len(),
{
    if s.len() == 0 {
        0
    } else {
        count_valid(s.drop_last()) + if s.last() { 1nat } else { 0nat }
    }
}

/// Every window of `w` consecutive flags holds at least `m` valid flags.
pub open spec fn every_window_holds(flags: Seq<bool>, w: nat, m: nat) -> bool {
    forall|i: int| 0 <= i && i + w <= flags.len() ==> count_valid(#[trigger] flags.subrange(i, i + w)) >= m
}

/// The rule that gives, for a line shorter than the window, how many valid words it needs is
/// called as `rule(line_len, min_valid, window)`. It can be called on any arguments.
pub open spec fn is_threshold_rule<F: Fn(usize, usize, usize) -> usize>(rule: F) -> bool {
    forall|len: usize, m: usize, w: usize| #[trigger] call_requires(rule, (len, m, w))
}

/// A larger `min_valid` never asks fewer valid words of a short line (and the same arguments
/// always get the same answer).
pub open spec fn is_monotone_rule<F: Fn(usize, usize, usize) -> usize>(rule: F) -> bool {
    forall|len: usize, m1: usize, m2: usize, w: usize, r1: usize, r2: usize|
        m1 <= m2 && #[trigger] call_ensures(rule, (len, m1, w), r1) && #[trigger] call_ensures(
            rule,
            (len, m2, w),
            r2,
        ) ==> r1 <= r2
}

/// A line of `len` words with `valid` valid ones reaches what the rule asks for `min_valid`:
/// its valid count is at least every answer the rule gives for a minimum up to `min_valid`
/// (for a monotone rule, that is its answer for `min_valid` itself).
pub open spec fn reaches_share<F: Fn(usize, usize, usize) -> usize>(
    rule: F,
    len: usize,
    valid: nat,
    min_valid: usize,
    window: usize,
) -> bool {
    forall|m: usize, r: usize|
        m <= min_valid && #[trigger] call_ensures(rule, (len, m, window), r) ==> valid >= r
}

/// Whether a line with these flags is clean for `window` and `min_valid`: an empty line never
/// is; a line shorter than the window needs the number of valid words that `rule` gives; a
/// longer one needs `min_valid` valid words in every window.
pub open spec fn is_clean<F: Fn(usize, usize, usize) -> usize>(
    flags: Seq<bool>,
    window: usize,
    min_valid: usize,
    rule: F,
) -> bool {
    if flags.len() == 0 {
        false
    } else if flags.len() < window {
        reaches_share(rule, flags.len() as usize, count_valid(flags), min_valid, window)
    } else {
        every_window_holds(flags, window as nat, min_valid as nat)
    }
}

proof fn lemma_count_all_valid(s: Seq<bool>)
    requires
        forall|i: int| 0 <= i < s.len() ==> #[trigger] s[i],
    ensures
        count_valid(s) == s.len(),
    decreases s.len(),
{
    if s.len() > 0 {
        lemma_count_all_valid(s.drop_last());
    }
}

/// A line whose words are all in the dictionary passes every window: it is clean for any
/// `min_valid` up to the window, once it is at least as long as the window.
pub proof fn lemma_all_valid_is_clean<F: Fn(usize, usize, usize) -> usize>(
    flags: Seq<bool>,
    window: usize,
    min_valid: usize,
    rule: F,
)
    requires
        forall|i: int| 0 <= i < flags.len() ==> #[trigger] flags[i],
        0 < window <= flags.len(),
        min_valid <= window,
    ensures
        is_clean(flags, window, min_valid, rule),
{
    assert forall|i: int| 0 <= i && i + window <= flags.len() implies count_valid(
        #[trigger] flags.subrange(i, i + window),
    ) >= min_valid by {
        lemma_count_all_valid(flags.subrange(i, i + window));
    }
}

/// A line without words is never clean.
pub proof fn lemma_no_words_not_clean<F: Fn(usize, usize, usize) -> usize>(
    window: usize,
    min_valid: usize,
    rule: F,
)
    ensures
        !is_clean(Seq::<bool>::empty(), window, min_valid, rule),
{
}

proof fn lemma_count_valid_monotone(f1: Seq<bool>, f2: Seq<bool>)
    requires
        f1.len() == f2.len(),
        forall|i: int| 0 <= i < f1.len() && #[trigger] f1[i] ==> f2[i],
    ensures
        count_valid(f1) <= count_valid(f2),
    decreases f1.len(),
{
    if f1.len() > 0 {
        let (g1, g2) = (f1.drop_last(), f2.drop_last());
        assert forall|i: int| 0 <= i < g1.len() && #[trigger] g1[i] implies g2[i] by {
            assert(g1[i] == f1[i] && g2[i] == f2[i]);
        }
        lemma_count_valid_monotone(g1, g2);
        assert(f1.last() ==> f2.last());
    }
}

/// Recognizing more words as valid never makes a clean line unclean.
pub proof fn lemma_more_valid_stays_clean<F: Fn(usize, usize, usize) -> usize>(
    f1: Seq<bool>,
    f2: Seq<bool>,
    window: usize,
    min_valid: usize,
    rule: F,
)
    requires
        f1.len() == f2.len(),
        forall|i: int| 0 <= i < f1.len() && #[trigger] f1[i] ==> f2[i],
        is_clean(f1, window, min_valid, rule),
    ensures
        is_clean(f2, window, min_valid, rule),
{
    if f1.len() > 0 && f1.len() < window {
        lemma_count_valid_monotone(f1, f2);
    } else if f1.len() >= window {
        assert forall|i: int| 0 <= i && i + window <= f2.len() implies count_valid(
            #[trigger] f2.subrange(i, i + window),
        ) >= min_valid by {
            let (s1, s2) = (f1.subrange(i, i + window), f2.subrange(i, i + window));
            assert(count_valid(f1.subrange(i, i + window)) >= min_valid);
            assert forall|j: int| 0 <= j < s1.len() && #[trigger] s1[j] implies s2[j] by {
                assert(s1[j] == f1[i + j] && s2[j] == f2[i + j]);
            }
            lemma_count_valid_monotone(s1, s2);
        }
    }
}

/// `count_valid` counts what `Seq::filter` keeps of the true flags.
pub proof fn lemma_count_valid_is_filter_len(s: Seq<bool>)
    ensures
        count_valid(s) == s.filter(|b: bool| b).len(),
    decreases s.len(),
{
    reveal(Seq::filter);
    if s.len() > 0 {
        lemma_count_valid_is_filter_len(s.drop_last());
    }
}

/// What cleanliness means, with the valid words of a stretch counted by `Seq::filter`: an
/// empty line is never clean; a line at least as long as a positive window is clean exactly
/// when every stretch of `window` consecutive flags holds at least `min_valid` true flags; a
/// shorter line is clean exactly when its true flags reach every answer of the rule for a
/// minimum up to `min_valid`.
pub proof fn lemma_clean_by_counts<F: Fn(usize, usize, usize) -> usize>(
    flags: Seq<bool>,
    window: usize,
    min_valid: usize,
    rule: F,
)
    ensures
        flags.len() == 0 ==> !is_clean(flags, window, min_valid, rule),
        0 < window <= flags.len() ==> (is_clean(flags, window, min_valid, rule) <==> forall|i: int|
            0 <= i && i + window <= flags.len() ==> (#[trigger] flags.subrange(i, i + window)).filter(
                |b: bool| b,
            ).len() >= min_valid),
        0 < flags.len() < window ==> (is_clean(flags, window, min_valid, rule) <==> forall|m: usize, r: usize|
            m <= min_valid && #[trigger] call_ensures(rule, (flags.len() as usize, m, window), r)
                ==> flags.filter(|b: bool| b).len() >= r),
{
    lemma_count_valid_is_filter_len(flags);
    assert forall|i: int| 0 <= i && i + window <= flags.len() implies count_valid(
        #[trigger] flags.subrange(i, i + window),
    ) == flags.subrange(i, i + window).filter(|b: bool| b).len() by {
        lemma_count_valid_is_filter_len(flags.subrange(i, i + window));
    }
}

/// Counts the valid flags in `flags[start..end]`.
fn count_valid_in(flags: &[bool], start: usize, end: usize) -> (n: usize)
    requires
        start <= end <= flags@.len(),
    ensures
        n == count_valid(flags@.subrange(start as int, end as int)),
{
    let mut n: usize = 0;
    let mut j: usize = start;
    while j < end
        invariant
            start <= j <= end <= flags@.len(),
            n == count_valid(flags@.subrange(start as int, j as int)),
            n <= j - start,
        decreases end - j,
    {
        assert(flags@.subrange(start as int, j + 1).drop_last() =~= flags@.subrange(
            start as int,
            j as int,
        ));
        if flags[j] {
            n = n + 1;
        }
        j = j + 1;
    }
    n
}

/// Decides whether a line is clean, from the validity flags of its words.
pub fn is_clean_from_flags<F: Fn(usize, usize, usize) -> usize>(
    flags: &[bool],
    window_size: usize,
    min_valid: usize,
    rule: &F,
) -> (clean: bool)
    requires
        flags@.len() > 0 ==> window_size > 0,
        is_threshold_rule(*rule),
        is_monotone_rule(*rule),
    ensures
        clean == is_clean(flags@, window_size, min_valid, *rule),
        flags@.len() == 0 ==> !clean,
        0 < window_size <= flags@.len() ==> (clean <==> forall|i: int|
            0 <= i && i + window_size <= flags@.len() ==> (#[trigger] flags@.subrange(
                i,
                i + window_size,
            )).filter(|b: bool| b).len() >= min_valid),
        0 < flags@.len() < window_size ==> (clean <==> forall|m: usize, r: usize|
            m <= min_valid && #[trigger] call_ensures(*rule, (flags@.len() as usize, m, window_size), r)
                ==> flags@.filter(|b: bool| b).len() >= r),
{
    proof {
        lemma_clean_by_counts(flags@, window_size, min_valid, *rule);
    }
    if flags.len() == 0 {
        return false;
    }
    if flags.len() < window_size {
        let required = rule(flags.len(), min_valid, window_size);
        assert(flags@.subrange(0, flags@.len() as int) =~= flags@);
        let have = count_valid_in(flags, 0, flags.len());
        proof {
            assert(call_ensures(*rule, (flags@.len() as usize, min_valid, window_size), required));
        }
        return have >= required;
    }
    let last_start = flags.len() - window_size;
    let mut i: usize = 0;
    while i <= last_start
        invariant
            window_size > 0,
            i <= last_start + 1,
            last_start + window_size == flags.len(),
            forall|k: int|
                0 <= k < i ==> count_valid(#[trigger] flags@.subrange(k, k + window_size)) >= min_valid,
        decreases last_start + 1 - i,
    {
        let valid_count = count_valid_in(flags, i, i + window_size);
        if valid_count < min_valid {
            proof {
                let k = i as int;
                assert(count_valid(flags@.subrange(k, k + window_size)) < min_valid);
                lemma_count_valid_is_filter_len(flags@.subrange(k, k + window_size));
                assert(flags@.subrange(k, k + window_size).filter(|b: bool| b).len() < min_valid);
                assert(!is_clean(flags@, window_size, min_valid, *rule));
            }
            return false;
        }
        i = i + 1;
    }
    assert(flags@.len() >= window_size);
    true
}

} // verus!
