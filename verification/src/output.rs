//! Where the kept lines go: the name of the output file, made from a pattern.

use vstd::prelude::*;
use crate::text::{chars_of, string_from_chars};

verus! {

/// The decimal digit `d` as a character.
pub open spec fn digit(d: nat) -> char {
    if d == 0 { '0' }
    else if d == 1 { '1' }
    else if d == 2 { '2' }
    else if d == 3 { '3' }
    else if d == 4 { '4' }
    else if d == 5 { '5' }
    else if d == 6 { '6' }
    else if d == 7 { '7' }
    else if d == 8 { '8' }
    else { '9' }
}

/// The decimal notation of `n`, without leading zeros (as `usize::to_string` writes it).
pub open spec fn decimal(n: nat) -> Seq<char>
    decreases n,
{
    if n < 10 {
        seq![digit(n)]
    } else {
        decimal(n / 10).push(digit(n % 10))
    }
}

/// The number that a string of decimal digits denotes.
pub open spec fn digits_value(s: Seq<char>) -> int
    decreases s.len(),
{
    if s.len() == 0 {
        0
    } else {
        digits_value(s.drop_last()) * 10 + (s.last() as int - '0' as int)
    }
}

/// The decimal notation of `n` reads back as `n`: it is made of decimal digits, is not empty,
/// denotes `n`, and starts with a zero only for zero itself.
pub proof fn lemma_decimal_reads_back(n: nat)
    ensures
        decimal(n).len() > 0,
        forall|i: int| 0 <= i < decimal(n).len() ==> '0' <= #[trigger] decimal(n)[i] <= '9',
        digits_value(decimal(n)) == n,
        decimal(n)[0] == '0' ==> n == 0,
    decreases n,
{
    if n < 10 {
        assert(decimal(n) == seq![digit(n)]);
        assert(seq![digit(n)].drop_last() =~= Seq::<char>::empty());
        assert(digit(n) as int - '0' as int == n);
        let t = seq![digit(n)];
        assert(t.last() == digit(n));
        assert(digits_value(t.drop_last()) == 0);
        assert(digits_value(t) == digits_value(t.drop_last()) * 10 + (t.last() as int - '0' as int));
    } else {
        lemma_decimal_reads_back(n / 10);
        let d = decimal(n / 10);
        assert(decimal(n) == d.push(digit(n % 10)));
        assert(d.push(digit(n % 10)).drop_last() =~= d);
        assert(digit(n % 10) as int - '0' as int == n % 10);
        assert(decimal(n)[0] == d[0]);
        assert(n / 10 * 10 + n % 10 == n);
        let t = d.push(digit(n % 10));
        assert(t.last() == digit(n % 10));
        assert(digits_value(t) == digits_value(t.drop_last()) * 10 + (t.last() as int - '0' as int));
        assert forall|i: int| 0 <= i < decimal(n).len() implies '0' <= #[trigger] decimal(n)[i] <= '9' by {
            if i < d.len() {
                assert(decimal(n)[i] == d[i]);
            }
        }
    }
}

/// `s` with every occurrence of `from` replaced by `to`, scanning from the left without
/// overlaps (as `str::replace` does).
pub open spec fn replace_all(s: Seq<char>, from: Seq<char>, to: Seq<char>) -> Seq<char>
    decreases s.len(),
{
    if s.len() == 0 {
        s
    } else if 0 < from.len() <= s.len() && s.take(from.len() as int) == from {
        to + replace_all(s.skip(from.len() as int), from, to)
    } else {
        seq![s[0]] + replace_all(s.skip(1), from, to)
    }
}

/// The placeholder `{X}` of a pattern.
pub open spec fn placeholder(x: char) -> Seq<char> {
    seq!['{', x, '}']
}

/// The percentage placeholder with its format, `{P:.1}`.
pub open spec fn percent_placeholder() -> Seq<char> {
    seq!['{', 'P', ':', '.', '1', '}']
}

/// The file name that `pattern` gives: `{W}`, `{M}` and `{K}` replaced by the window, the
/// minimum and the number of kept lines in decimal, then `{P}` and `{P:.1}` by the
/// percentage as written (with one decimal).
pub open spec fn file_name(
    pattern: Seq<char>,
    window: nat,
    min_valid: nat,
    kept: nat,
    percent: Seq<char>,
) -> Seq<char> {
    let named = replace_all(
        replace_all(
            replace_all(pattern, placeholder('W'), decimal(window)),
            placeholder('M'),
            decimal(min_valid),
        ),
        placeholder('K'),
        decimal(kept),
    );
    replace_all(replace_all(named, placeholder('P'), percent), percent_placeholder(), percent)
}

fn digit_char(d: usize) -> (c: char)
    requires
        d < 10,
    ensures
        c == digit(d as nat),
{
    if d == 0 { '0' }
    else if d == 1 { '1' }
    else if d == 2 { '2' }
    else if d == 3 { '3' }
    else if d == 4 { '4' }
    else if d == 5 { '5' }
    else if d == 6 { '6' }
    else if d == 7 { '7' }
    else if d == 8 { '8' }
    else { '9' }
}

/// Appends the decimal notation of `n` to `out`.
fn push_decimal(out: &mut Vec<char>, n: usize)
    ensures
        final(out)@ == old(out)@ + decimal(n as nat),
    decreases n,
{
    if n >= 10 {
        push_decimal(out, n / 10);
    }
    out.push(digit_char(n % 10));
    assert(final(out)@ =~= old(out)@ + decimal(n as nat));
}

/// Whether `s[i..]` starts with `from`.
fn matches_at(s: &[char], i: usize, from: &[char]) -> (m: bool)
    requires
        i <= s@.len(),
    ensures
        m == (from@.len() <= s@.len() - i && s@.skip(i as int).take(from@.len() as int) == from@),
{
    if from.len() > s.len() - i {
        return false;
    }
    let mut j: usize = 0;
    while j < from.len()
        invariant
            i <= s.len(),
            from.len() <= s.len() - i,
            j <= from@.len(),
            forall|k: int| 0 <= k < j ==> s@[i + k] == from@[k],
        decreases from@.len() - j,
    {
        if s[i + j] != from[j] {
            assert(s@.skip(i as int).take(from@.len() as int)[j as int] != from@[j as int]);
            return false;
        }
        j = j + 1;
    }
    assert(s@.skip(i as int).take(from@.len() as int) =~= from@);
    true
}

/// Replaces every occurrence of `from` in `s` by `to`.
fn replace_chars(s: &[char], from: &[char], to: &[char]) -> (r: Vec<char>)
    requires
        from@.len() > 0,
    ensures
        r@ == replace_all(s@, from@, to@),
{
    let mut out: Vec<char> = Vec::new();
    let mut i: usize = 0;
    assert(s@.skip(0) =~= s@);
    while i < s.len()
        invariant
            from@.len() > 0,
            i <= s@.len(),
            out@ + replace_all(s@.skip(i as int), from@, to@) == replace_all(s@, from@, to@),
        decreases s@.len() - i,
    {
        let ghost rest = s@.skip(i as int);
        if matches_at(s, i, from) {
            let mut k: usize = 0;
            let ghost before = out@;
            while k < to.len()
                invariant
                    k <= to@.len(),
                    out@ == before + to@.take(k as int),
                decreases to@.len() - k,
            {
                out.push(to[k]);
                proof {
                    assert(to@.take(k + 1) =~= to@.take(k as int).push(to@[k as int]));
                    assert(out@ =~= before + to@.take(k + 1));
                }
                k = k + 1;
            }
            proof {
                assert(to@.take(to@.len() as int) =~= to@);
                assert(rest.skip(from@.len() as int) =~= s@.skip(i + from@.len()));
                assert(out@ + replace_all(s@.skip(i + from@.len()), from@, to@) =~= before + (to@
                    + replace_all(rest.skip(from@.len() as int), from@, to@)));
            }
            i = i + from.len();
        } else {
            let ghost before = out@;
            out.push(s[i]);
            proof {
                assert(rest.skip(1) =~= s@.skip(i + 1));
                assert(rest[0] == s@[i as int]);
                assert(out@ + replace_all(s@.skip(i + 1), from@, to@) =~= before + (seq![rest[0]]
                    + replace_all(rest.skip(1), from@, to@)));
            }
            i = i + 1;
        }
    }
    assert(out@ + replace_all(s@.skip(i as int), from@, to@) =~= out@);
    out
}

fn placeholder_chars(x: char) -> (p: Vec<char>)
    ensures
        p@ == placeholder(x),
{
    let mut p: Vec<char> = Vec::new();
    p.push('{');
    p.push(x);
    p.push('}');
    assert(p@ =~= placeholder(x));
    p
}

fn decimal_chars(n: usize) -> (d: Vec<char>)
    ensures
        d@ == decimal(n as nat),
{
    let mut d: Vec<char> = Vec::new();
    push_decimal(&mut d, n);
    assert(d@ =~= decimal(n as nat));
    d
}

/// Fills in the pattern of the output file's name. The percentage of kept lines comes
/// already written with one decimal, and fills both `{P}` and `{P:.1}`.
pub fn generate_filename(
    pattern: &str,
    window: usize,
    min_valid: usize,
    kept: usize,
    percent: &str,
) -> (name: String)
    ensures
        name@ == file_name(pattern@, window as nat, min_valid as nat, kept as nat, percent@),
{
    let p = chars_of(pattern);
    let s1 = replace_chars(p.as_slice(), placeholder_chars('W').as_slice(), decimal_chars(window).as_slice());
    let s2 = replace_chars(s1.as_slice(), placeholder_chars('M').as_slice(), decimal_chars(min_valid).as_slice());
    let s3 = replace_chars(s2.as_slice(), placeholder_chars('K').as_slice(), decimal_chars(kept).as_slice());
    let pc = chars_of(percent);
    let s4 = replace_chars(s3.as_slice(), placeholder_chars('P').as_slice(), pc.as_slice());
    let mut formatted: Vec<char> = Vec::new();
    formatted.push('{');
    formatted.push('P');
    formatted.push(':');
    formatted.push('.');
    formatted.push('1');
    formatted.push('}');
    assert(formatted@ =~= percent_placeholder());
    let s5 = replace_chars(s4.as_slice(), formatted.as_slice(), pc.as_slice());
    string_from_chars(s5.as_slice())
}

/// The default pattern of the output file's name.
pub open spec fn default_pattern() -> Seq<char> {
    "clean.window{W}--min-valid{M}.{K}={P:.1}%.txt"@
}

/// Whether the manual mode writes the kept lines to a file (rather than to the standard
/// output): so it does when the output directory is not the current one, or when the
/// pattern is not the default one.
pub fn writes_to_file(dir_is_current: bool, pattern: &str) -> (to_file: bool)
    ensures
        to_file == (!dir_is_current || pattern@ != default_pattern()),
{
    broadcast use vstd::string::group_string_axioms;

    let default = "clean.window{W}--min-valid{M}.{K}={P:.1}%.txt";
    !dir_is_current || !(pattern.to_string() == default.to_string())
}

/// Whether the parameters of a run are accepted: outside the automatic search, `min_valid`
/// may not exceed the window.
pub fn params_accepted(auto_search: bool, window: usize, min_valid: usize) -> (ok: bool)
    ensures
        ok == (auto_search || min_valid <= window),
{
    !(!auto_search && min_valid > window)
}

} // verus!
