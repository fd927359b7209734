//! The search for the strictest parameters that still keep enough lines.

use vstd::prelude::*;
use crate::corpus::{clean_lines, evaluate_params, LineData};
use crate::window::{is_clean, is_monotone_rule, is_threshold_rule};

verus! {

/// With `window` and `min_valid`, at least `target_keep` lines are clean.
pub open spec fn keeps_enough<F: Fn(usize, usize, usize) -> usize>(
    data: Seq<LineData>,
    window: usize,
    min_valid: usize,
    target_keep: usize,
    rule: F,
) -> bool {
    clean_lines(data, window, min_valid, rule).len() >= target_keep
}

/// `min_valid` is the largest value in `1..=window` that keeps at least `target_keep` lines.
pub open spec fn is_best_min_valid<F: Fn(usize, usize, usize) -> usize>(
    data: Seq<LineData>,
    window: usize,
    target_keep: usize,
    rule: F,
    min_valid: usize,
) -> bool {
    &&& 1 <= min_valid <= window
    &&& keeps_enough(data, window, min_valid, target_keep, rule)
    &&& forall|m: usize|
        min_valid < m <= window ==> !#[trigger] keeps_enough(data, window, m, target_keep, rule)
}

/// No value in `1..=window` keeps at least `target_keep` lines.
pub open spec fn no_min_valid_keeps<F: Fn(usize, usize, usize) -> usize>(
    data: Seq<LineData>,
    window: usize,
    target_keep: usize,
    rule: F,
) -> bool {
    forall|m: usize| 1 <= m <= window ==> !#[trigger] keeps_enough(data, window, m, target_keep, rule)
}

/// A line that is clean for a minimum stays clean for any smaller minimum.
pub proof fn lemma_clean_monotone<F: Fn(usize, usize, usize) -> usize>(
    flags: Seq<bool>,
    window: usize,
    m1: usize,
    m2: usize,
    rule: F,
)
    requires
        m1 <= m2,
        is_clean(flags, window, m2, rule),
    ensures
        is_clean(flags, window, m1, rule),
{
}

proof fn lemma_filter_len_monotone(
    s: Seq<LineData>,
    p: spec_fn(LineData) -> bool,
    q: spec_fn(LineData) -> bool,
)
    requires
        forall|i: int| 0 <= i < s.len() && p(#[trigger] s[i]) ==> q(s[i]),
    ensures
        s.filter(p).len() <= s.filter(q).len(),
    decreases s.len(),
{
    reveal(Seq::filter);
    if s.len() > 0 {
        let t = s.drop_last();
        assert forall|i: int| 0 <= i < t.len() && p(#[trigger] t[i]) implies q(t[i]) by {
            assert(t[i] == s[i]);
        }
        lemma_filter_len_monotone(t, p, q);
        assert(p(s[s.len() - 1]) ==> q(s[s.len() - 1]));
    }
}

/// Raising the minimum never keeps more lines.
pub proof fn lemma_kept_monotone<F: Fn(usize, usize, usize) -> usize>(
    data: Seq<LineData>,
    window: usize,
    m1: usize,
    m2: usize,
    rule: F,
)
    requires
        m1 <= m2,
    ensures
        clean_lines(data, window, m2, rule).len() <= clean_lines(data, window, m1, rule).len(),
{
    let p = |d: LineData| is_clean(d.valid_flags@, window, m2, rule);
    let q = |d: LineData| is_clean(d.valid_flags@, window, m1, rule);
    assert forall|i: int| 0 <= i < data.len() && p(#[trigger] data[i]) implies q(data[i]) by {
        lemma_clean_monotone(data[i].valid_flags@, window, m1, m2, rule);
    }
    lemma_filter_len_monotone(data, p, q);
}

/// Binary search for the largest `min_valid` in `1..=window` that keeps at least
/// `target_keep` lines; `None` where no value does (and always for a zero window).
pub fn best_min_valid_for_window<F: Fn(usize, usize, usize) -> usize + Sync>(
    data: &[LineData],
    window: usize,
    target_keep: usize,
    rule: &F,
) -> (best: Option<usize>)
    requires
        is_threshold_rule(*rule),
        is_monotone_rule(*rule),
    ensures
        best matches Some(m) ==> is_best_min_valid(data@, window, target_keep, *rule, m),
        best is None ==> no_min_valid_keeps(data@, window, target_keep, *rule),
        best is None <==> (window == 0 || !keeps_enough(data@, window, 1, target_keep, *rule)),
{
    if window == 0 {
        return None;
    }
    let mut lo: usize = 1;
    let mut hi: usize = window;
    let mut best: Option<usize> = None;
    while lo <= hi
        invariant_except_break
            1 <= lo,
            hi <= window,
            lo <= hi + 1,
            best matches Some(b) ==> b + 1 == lo,
            best is None ==> lo == 1,
        invariant
            window > 0,
            is_threshold_rule(*rule),
            is_monotone_rule(*rule),
            best matches Some(b) ==> 1 <= b <= window && keeps_enough(data@, window, b, target_keep, *rule),
            forall|m: usize|
                hi < m <= window ==> !#[trigger] keeps_enough(data@, window, m, target_keep, *rule),
        ensures
            best matches Some(b) ==> is_best_min_valid(data@, window, target_keep, *rule, b),
            best is None ==> no_min_valid_keeps(data@, window, target_keep, *rule),
        decreases hi + 1 - lo,
    {
        let mid = lo + (hi - lo) / 2;
        let kept = evaluate_params(data, window, mid, rule);
        if kept >= target_keep {
            best = Some(mid);
            if mid == hi {
                break;
            }
            lo = mid + 1;
        } else {
            assert forall|m: usize| mid <= m <= window implies !#[trigger] keeps_enough(
                data@,
                window,
                m,
                target_keep,
                *rule,
            ) by {
                lemma_kept_monotone(data@, window, mid, m, *rule);
            }
            hi = mid - 1;
        }
    }
    proof {
        if let Some(m) = best {
            lemma_kept_monotone(data@, window, 1, m, *rule);
        }
    }
    best
}

/// A larger keep target never gives a stricter `min_valid`: the best value for the larger
/// target is at most the best value for the smaller one, and where the smaller target has
/// none, neither has the larger.
pub proof fn lemma_larger_target_not_stricter<F: Fn(usize, usize, usize) -> usize>(
    data: Seq<LineData>,
    window: usize,
    t1: usize,
    t2: usize,
    m1: usize,
    m2: usize,
    rule: F,
)
    requires
        t1 <= t2,
    ensures
        is_best_min_valid(data, window, t1, rule, m1) && is_best_min_valid(data, window, t2, rule, m2)
            ==> m2 <= m1,
        no_min_valid_keeps(data, window, t1, rule) ==> no_min_valid_keeps(data, window, t2, rule),
        is_best_min_valid(data, window, t2, rule, m2) ==> !no_min_valid_keeps(data, window, t1, rule),
{
    if is_best_min_valid(data, window, t2, rule, m2) {
        assert(keeps_enough(data, window, m2, t1, rule));
    }
    assert forall|m: usize| 1 <= m <= window && no_min_valid_keeps(data, window, t1, rule) implies !#[trigger] keeps_enough(
        data,
        window,
        m,
        t2,
        rule,
    ) by {
        assert(!keeps_enough(data, window, m, t1, rule));
    }
}

/// More input lines never make the best `min_valid` less strict: with lines appended, the best
/// value is at least what it was, and where the longer input has none, neither had the
/// shorter one.
pub proof fn lemma_more_lines_not_less_strict<F: Fn(usize, usize, usize) -> usize>(
    data: Seq<LineData>,
    more: Seq<LineData>,
    window: usize,
    target_keep: usize,
    m1: usize,
    m2: usize,
    rule: F,
)
    ensures
        is_best_min_valid(data, window, target_keep, rule, m1) && is_best_min_valid(
            data + more,
            window,
            target_keep,
            rule,
            m2,
        ) ==> m1 <= m2,
        no_min_valid_keeps(data + more, window, target_keep, rule) ==> no_min_valid_keeps(
            data,
            window,
            target_keep,
            rule,
        ),
        is_best_min_valid(data, window, target_keep, rule, m1) ==> !no_min_valid_keeps(
            data + more,
            window,
            target_keep,
            rule,
        ),
{
    assert forall|m: usize| #[trigger] keeps_enough(data, window, m, target_keep, rule) implies keeps_enough(
        data + more,
        window,
        m,
        target_keep,
        rule,
    ) by {
        let p = |d: LineData| is_clean(d.valid_flags@, window, m, rule);
        Seq::filter_distributes_over_add(data, more, p);
    }
}

/// A window has at most one best `min_valid`.
pub proof fn lemma_best_min_valid_unique<F: Fn(usize, usize, usize) -> usize>(
    data: Seq<LineData>,
    window: usize,
    target_keep: usize,
    rule: F,
    a: usize,
    b: usize,
)
    requires
        is_best_min_valid(data, window, target_keep, rule, a),
        is_best_min_valid(data, window, target_keep, rule, b),
    ensures
        a == b,
{
    if a < b {
        assert(!keeps_enough(data, window, b, target_keep, rule));
    } else if b < a {
        assert(!keeps_enough(data, window, a, target_keep, rule));
    }
}

/// What the search found for one window: the best `min_valid` with the number of lines it
/// keeps, or nothing.
pub struct WindowOutcome {
    pub window: usize,
    /// `(min_valid, kept)`.
    pub found: Option<(usize, usize)>,
}

/// The outcome of the search over a range of windows.
pub struct AutoSearchResult {
    /// One outcome per window, in increasing order of windows.
    pub outcomes: Vec<WindowOutcome>,
    /// The chosen `(window, min_valid)`, if any window has a `min_valid` that keeps enough.
    pub best: Option<(usize, usize)>,
}

/// `o` is what the search owes for its window.
pub open spec fn outcome_ok<F: Fn(usize, usize, usize) -> usize>(
    data: Seq<LineData>,
    o: WindowOutcome,
    target_keep: usize,
    rule: F,
) -> bool {
    match o.found {
        Some((m, k)) => is_best_min_valid(data, o.window, target_keep, rule, m) && k == clean_lines(
            data,
            o.window,
            m,
            rule,
        ).len(),
        None => no_min_valid_keeps(data, o.window, target_keep, rule),
    }
}

/// The outcomes, one per window from `lo` on, are each right.
pub open spec fn outcomes_ok<F: Fn(usize, usize, usize) -> usize>(
    data: Seq<LineData>,
    lo: usize,
    outcomes: Seq<WindowOutcome>,
    target_keep: usize,
    rule: F,
) -> bool {
    forall|i: int|
        0 <= i < outcomes.len() ==> (#[trigger] outcomes[i]).window == lo + i && outcome_ok(
            data,
            outcomes[i],
            target_keep,
            rule,
        )
}

/// `best` is the strictest combination over the windows `lo <= w < upto`: the largest best
/// `min_valid` of any window, and among the windows that reach it the smallest; `None` where
/// no window has a `min_valid` that keeps enough lines.
pub open spec fn is_strictest<F: Fn(usize, usize, usize) -> usize>(
    data: Seq<LineData>,
    lo: usize,
    upto: int,
    target_keep: usize,
    rule: F,
    best: Option<(usize, usize)>,
) -> bool {
    match best {
        None => forall|w: usize| lo <= w < upto ==> #[trigger] no_min_valid_keeps(data, w, target_keep, rule),
        Some((w, m)) => {
            &&& lo <= w < upto
            &&& is_best_min_valid(data, w, target_keep, rule, m)
            &&& forall|w2: usize, m2: usize|
                lo <= w2 < upto && #[trigger] is_best_min_valid(data, w2, target_keep, rule, m2)
                    ==> m2 < m || (m2 == m && w <= w2)
        },
    }
}

/// What the search reports, read off its outcomes: each found `min_valid` lies in `1..=window`
/// and keeps at least the target; the chosen combination is one of the outcomes; no outcome
/// has a larger `min_valid`, nor the same one at a smaller window; and nothing is chosen only
/// where no window found anything.
pub proof fn lemma_best_among_outcomes<F: Fn(usize, usize, usize) -> usize>(
    data: Seq<LineData>,
    min_window: usize,
    max_window: usize,
    target_keep: usize,
    rule: F,
    outcomes: Seq<WindowOutcome>,
    best: Option<(usize, usize)>,
)
    requires
        outcomes.len() == if min_window <= max_window {
            max_window - min_window + 1
        } else {
            0
        },
        outcomes_ok(data, min_window, outcomes, target_keep, rule),
        is_strictest(data, min_window, max_window + 1, target_keep, rule, best),
    ensures
        best matches Some((w, m)) ==> exists|i: int|
            0 <= i < outcomes.len() && (#[trigger] outcomes[i]).window == w && match outcomes[i].found {
                Some((m2, k)) => m2 == m,
                None => false,
            },
        best matches Some((w, m)) ==> forall|i: int|
            0 <= i < outcomes.len() ==> match (#[trigger] outcomes[i]).found {
                Some((m2, k)) => m2 < m || (m2 == m && w <= outcomes[i].window),
                None => true,
            },
        best is None ==> forall|i: int| 0 <= i < outcomes.len() ==> (#[trigger] outcomes[i]).found is None,
        forall|i: int|
            0 <= i < outcomes.len() ==> match (#[trigger] outcomes[i]).found {
                Some((m, k)) => 1 <= m <= outcomes[i].window && k >= target_keep,
                None => true,
            },
{
    assert forall|i: int| 0 <= i < outcomes.len() implies match (#[trigger] outcomes[i]).found {
        Some((m, k)) => 1 <= m <= outcomes[i].window && k >= target_keep,
        None => true,
    } by {
        assert(outcome_ok(data, outcomes[i], target_keep, rule));
    }
    match best {
        Some((w, m)) => {
            let i = w - min_window;
            assert(outcomes[i].window == w);
            assert(outcome_ok(data, outcomes[i], target_keep, rule));
            match outcomes[i].found {
                Some((m2, k)) => {
                    lemma_best_min_valid_unique(data, w, target_keep, rule, m, m2);
                },
                None => {
                    assert(keeps_enough(data, w, m, target_keep, rule));
                },
            }
            assert forall|j: int| 0 <= j < outcomes.len() implies match (#[trigger] outcomes[j]).found {
                Some((m2, k)) => m2 < m || (m2 == m && w <= outcomes[j].window),
                None => true,
            } by {
                assert(outcome_ok(data, outcomes[j], target_keep, rule));
                if let Some((m2, k)) = outcomes[j].found {
                    assert(is_best_min_valid(data, outcomes[j].window, target_keep, rule, m2));
                }
            }
        },
        None => {
            assert forall|j: int| 0 <= j < outcomes.len() implies (#[trigger] outcomes[j]).found is None by {
                assert(outcome_ok(data, outcomes[j], target_keep, rule));
                assert(no_min_valid_keeps(data, outcomes[j].window, target_keep, rule));
                if let Some((m2, k)) = outcomes[j].found {
                    assert(keeps_enough(data, outcomes[j].window, m2, target_keep, rule));
                }
            }
        },
    }
}

/// Tries every window in `min_window..=max_window`, finds for each the largest `min_valid`
/// that keeps at least `target_keep` lines, and picks the strictest combination: the largest
/// `min_valid`, and for equal ones the smallest window.
pub fn auto_search<F: Fn(usize, usize, usize) -> usize + Sync>(
    data: &[LineData],
    min_window: usize,
    max_window: usize,
    target_keep: usize,
    rule: &F,
) -> (res: AutoSearchResult)
    requires
        is_threshold_rule(*rule),
        is_monotone_rule(*rule),
    ensures
        res.outcomes@.len() == if min_window <= max_window {
            max_window - min_window + 1
        } else {
            0
        },
        outcomes_ok(data@, min_window, res.outcomes@, target_keep, *rule),
        is_strictest(data@, min_window, max_window + 1, target_keep, *rule, res.best),
        res.best matches Some((w, m)) ==> exists|i: int|
            0 <= i < res.outcomes@.len() && (#[trigger] res.outcomes@[i]).window == w && match res.outcomes@[i].found {
                Some((m2, k)) => m2 == m,
                None => false,
            },
        res.best matches Some((w, m)) ==> forall|i: int|
            0 <= i < res.outcomes@.len() ==> match (#[trigger] res.outcomes@[i]).found {
                Some((m2, k)) => m2 < m || (m2 == m && w <= res.outcomes@[i].window),
                None => true,
            },
        res.best is None ==> forall|i: int| 0 <= i < res.outcomes@.len() ==> (#[trigger] res.outcomes@[i]).found is None,
        forall|i: int|
            0 <= i < res.outcomes@.len() ==> match (#[trigger] res.outcomes@[i]).found {
                Some((m, k)) => 1 <= m <= res.outcomes@[i].window && k >= target_keep,
                None => true,
            },
{
    let mut outcomes: Vec<WindowOutcome> = Vec::new();
    let mut best_combination: Option<(usize, usize)> = None;
    let mut best_min_valid: usize = 0;
    let mut best_window: usize = 0;
    if min_window > max_window {
        proof {
            lemma_best_among_outcomes(data@, min_window, max_window, target_keep, *rule, outcomes@, best_combination);
        }
        return AutoSearchResult { outcomes, best: best_combination };
    }
    let mut window: usize = min_window;
    loop
        invariant_except_break
            min_window <= window <= max_window,
            outcomes@.len() == window - min_window,
            is_strictest(data@, min_window, window as int, target_keep, *rule, best_combination),
            best_combination matches Some((w, m)) ==> w < window,
        invariant
            is_threshold_rule(*rule),
            is_monotone_rule(*rule),
            min_window <= max_window,
            outcomes_ok(data@, min_window, outcomes@, target_keep, *rule),
            best_combination is None ==> best_min_valid == 0,
            best_combination matches Some((w, m)) ==> best_min_valid == m && best_window == w
                && w <= window,
        ensures
            outcomes@.len() == max_window - min_window + 1,
            is_strictest(data@, min_window, max_window + 1, target_keep, *rule, best_combination),
        decreases max_window - window,
    {
        let found = best_min_valid_for_window(data, window, target_keep, rule);
        let ghost old_outcomes = outcomes@;
        let ghost old_best = best_combination;
        match found {
            Some(minv) => {
                let kept = evaluate_params(data, window, minv, rule);
                outcomes.push(WindowOutcome { window, found: Some((minv, kept)) });
                if minv > best_min_valid || (minv == best_min_valid && window < best_window) {
                    best_min_valid = minv;
                    best_window = window;
                    best_combination = Some((window, minv));
                }
                proof {
                    assert forall|w2: usize, m2: usize|
                        min_window <= w2 < window + 1 && #[trigger] is_best_min_valid(
                            data@,
                            w2,
                            target_keep,
                            *rule,
                            m2,
                        ) implies m2 < best_min_valid || (m2 == best_min_valid && best_window
                        <= w2) by {
                        if w2 == window {
                            lemma_best_min_valid_unique(data@, window, target_keep, *rule, m2, minv);
                        } else {
                            match old_best {
                                Some((w0, m0)) => {},
                                None => {
                                    assert(no_min_valid_keeps(data@, w2, target_keep, *rule));
                                    assert(keeps_enough(data@, w2, m2, target_keep, *rule));
                                },
                            }
                        }
                    }
                }
            },
            None => {
                outcomes.push(WindowOutcome { window, found: None });
                proof {
                    match best_combination {
                        Some((w0, m0)) => {
                            assert forall|w2: usize, m2: usize|
                                min_window <= w2 < window + 1 && #[trigger] is_best_min_valid(
                                    data@,
                                    w2,
                                    target_keep,
                                    *rule,
                                    m2,
                                ) implies m2 < m0 || (m2 == m0 && w0 <= w2) by {
                                if w2 == window {
                                    assert(keeps_enough(data@, w2, m2, target_keep, *rule));
                                }
                            }
                        },
                        None => {},
                    }
                }
            },
        }
        proof {
            assert forall|i: int| 0 <= i < outcomes@.len() implies (#[trigger] outcomes@[i]).window
                == min_window + i && outcome_ok(data@, outcomes@[i], target_keep, *rule) by {
                if i < old_outcomes.len() {
                    assert(outcomes@[i] == old_outcomes[i]);
                }
            }
        }
        if window == max_window {
            break;
        }
        window = window + 1;
    }
    proof {
        lemma_best_among_outcomes(data@, min_window, max_window, target_keep, *rule, outcomes@, best_combination);
    }
    AutoSearchResult { outcomes, best: best_combination }
}

} // verus!
