//! Words of a text: runs of alphabetic characters, lowercased; and the normalization of
//! dictionary entries.

use vstd::prelude::*;

verus! {

/// Whether `char::is_alphabetic` holds of `c` (the Unicode `Alphabetic` property).
pub uninterp spec fn is_alphabetic(c: char) -> bool;

/// Whether `c` has the Unicode `White_Space` property, as `char::is_whitespace` tests it:
/// U+0009 to U+000D, U+0020, U+0085, U+00A0, U+1680, U+2000 to U+200A, U+2028, U+2029,
/// U+202F, U+205F and U+3000.
pub open spec fn is_whitespace(c: char) -> bool {
    let u = c as u32;
    ||| 0x09 <= u <= 0x0d
    ||| u == 0x20
    ||| u == 0x85
    ||| u == 0xa0
    ||| u == 0x1680
    ||| 0x2000 <= u <= 0x200a
    ||| u == 0x2028
    ||| u == 0x2029
    ||| u == 0x202f
    ||| u == 0x205f
    ||| u == 0x3000
}

/// The characters of `str::to_lowercase` applied to the string with characters `s`.
pub uninterp spec fn lowercase(s: Seq<char>) -> Seq<char>;

/// Calls `char::is_alphabetic`; the result is a function of the character alone.
#[verifier::external_body]
fn char_is_alphabetic(c: char) -> (r: bool)
    ensures
        r == is_alphabetic(c),
{
    c.is_alphabetic()
}

/// Whether `c` is white space.
fn char_is_whitespace(c: char) -> (r: bool)
    ensures
        r == is_whitespace(c),
{
    let u = c as u32;
    (0x09 <= u && u <= 0x0d) || u == 0x20 || u == 0x85 || u == 0xa0 || u == 0x1680 || (0x2000 <= u
        && u <= 0x200a) || u == 0x2028 || u == 0x2029 || u == 0x202f || u == 0x205f || u == 0x3000
}

/// Calls `str::to_lowercase`. Each character maps to one or more characters (as
/// `char::to_lowercase` documents), so a non-empty string stays non-empty.
#[verifier::external_body]
fn to_lowercase(s: &str) -> (r: String)
    ensures
        r@ == lowercase(s@),
        s@.len() > 0 ==> r@.len() > 0,
{
    s.to_lowercase()
}

/// Makes a `String` of the characters `cs` (`String: FromIterator<&char>`).
#[verifier::external_body]
pub(crate) fn string_from_chars(cs: &[char]) -> (s: String)
    ensures
        s@ == cs@,
{
    cs.iter().collect()
}

/// The lowercase form of the string made of the characters `cs`.
fn lowercase_chars(cs: &[char]) -> (r: String)
    ensures
        r@ == lowercase(cs@),
        cs@.len() > 0 ==> r@.len() > 0,
{
    let s = string_from_chars(cs);
    to_lowercase(s.as_str())
}

/// The views of a sequence of strings.
pub open spec fn strings_view(v: Seq<String>) -> Seq<Seq<char>> {
    v.map_values(|s: String| s@)
}

/// The pieces of `s` between its non-alphabetic characters, as `str::split` gives them
/// (empty pieces included; there is always at least one piece).
pub open spec fn split_on_non_alphabetic(s: Seq<char>) -> Seq<Seq<char>>
    decreases s.len(),
{
    if s.len() == 0 {
        seq![Seq::<char>::empty()]
    } else {
        let prev = split_on_non_alphabetic(s.drop_last());
        if is_alphabetic(s.last()) {
            prev.update(prev.len() - 1, prev.last().push(s.last()))
        } else {
            prev.push(Seq::<char>::empty())
        }
    }
}

/// The words of a text: its non-empty alphabetic pieces, each lowercased.
pub open spec fn words_of(s: Seq<char>) -> Seq<Seq<char>> {
    split_on_non_alphabetic(s).filter(|p: Seq<char>| p.len() > 0).map_values(
        |p: Seq<char>| lowercase(p),
    )
}

proof fn lemma_split_nonempty(s: Seq<char>)
    ensures
        split_on_non_alphabetic(s).len() >= 1,
    decreases s.len(),
{
    if s.len() > 0 {
        lemma_split_nonempty(s.drop_last());
    }
}

/// Every character of `p` is alphabetic.
pub open spec fn all_alphabetic(p: Seq<char>) -> bool {
    forall|j: int| 0 <= j < p.len() ==> is_alphabetic(#[trigger] p[j])
}

proof fn lemma_pieces_alphabetic(s: Seq<char>)
    ensures
        forall|i: int|
            0 <= i < split_on_non_alphabetic(s).len() ==> all_alphabetic(
                #[trigger] split_on_non_alphabetic(s)[i],
            ),
    decreases s.len(),
{
    lemma_split_nonempty(s);
    if s.len() > 0 {
        lemma_pieces_alphabetic(s.drop_last());
        lemma_split_nonempty(s.drop_last());
        let prev = split_on_non_alphabetic(s.drop_last());
        let cur = split_on_non_alphabetic(s);
        assert forall|i: int| 0 <= i < cur.len() implies all_alphabetic(#[trigger] cur[i]) by {
            if i < prev.len() {
                assert(all_alphabetic(prev[i]));
                if is_alphabetic(s.last()) && i == prev.len() - 1 {
                    let p = prev.last().push(s.last());
                    assert(cur[i] == p);
                    assert forall|j: int| 0 <= j < p.len() implies is_alphabetic(#[trigger] p[j]) by {
                        if j < p.len() - 1 {
                            assert(p[j] == prev.last()[j]);
                        }
                    }
                }
            }
        }
    }
}

/// `w` is the lowercase form of a non-empty run of alphabetic characters.
pub open spec fn is_lowered_run(w: Seq<char>) -> bool {
    exists|p: Seq<char>| p.len() > 0 && all_alphabetic(p) && w == #[trigger] lowercase(p)
}

/// Every word of a text is the lowercase form of a non-empty run of alphabetic characters.
pub proof fn lemma_words_are_alphabetic_runs(s: Seq<char>)
    ensures
        forall|k: int| 0 <= k < words_of(s).len() ==> is_lowered_run(#[trigger] words_of(s)[k]),
{
    broadcast use vstd::seq_lib::group_filter_ensures;

    lemma_pieces_alphabetic(s);
    let pieces = split_on_non_alphabetic(s);
    let kept = pieces.filter(|p: Seq<char>| p.len() > 0);
    assert forall|k: int| 0 <= k < words_of(s).len() implies is_lowered_run(
        #[trigger] words_of(s)[k],
    ) by {
        let p = kept[k];
        assert(kept.contains(p));
        pieces.lemma_filter_contains_rev(|p: Seq<char>| p.len() > 0, p);
        let i = choose|i: int| 0 <= i < pieces.len() && pieces[i] == p;
        assert(all_alphabetic(pieces[i]));
        assert(words_of(s)[k] == lowercase(p));
    }
}

proof fn lemma_split_concat(a: Seq<char>, c: char, b: Seq<char>)
    requires
        !is_alphabetic(c),
    ensures
        split_on_non_alphabetic(a.push(c) + b) == split_on_non_alphabetic(a)
            + split_on_non_alphabetic(b),
    decreases b.len(),
{
    let x = a.push(c) + b;
    if b.len() == 0 {
        assert(x =~= a.push(c));
        assert(x.drop_last() =~= a);
        assert(split_on_non_alphabetic(x) =~= split_on_non_alphabetic(a) + split_on_non_alphabetic(
            b,
        ));
    } else {
        lemma_split_concat(a, c, b.drop_last());
        lemma_split_nonempty(b.drop_last());
        assert(x.drop_last() =~= a.push(c) + b.drop_last());
        assert(x.last() == b.last());
        let pa = split_on_non_alphabetic(a);
        let pb = split_on_non_alphabetic(b.drop_last());
        assert(split_on_non_alphabetic(x) =~= pa + split_on_non_alphabetic(b));
    }
}

/// Splitting a text at a non-alphabetic character splits its words there: the words of
/// `a`, the character `c`, then `b` are the words of `a` followed by the words of `b`.
pub proof fn lemma_words_split_at_separator(a: Seq<char>, c: char, b: Seq<char>)
    requires
        !is_alphabetic(c),
    ensures
        words_of(a.push(c) + b) == words_of(a) + words_of(b),
{
    broadcast use vstd::seq_lib::group_seq_lib_default;

    lemma_split_concat(a, c, b);
    let pa = split_on_non_alphabetic(a);
    let pb = split_on_non_alphabetic(b);
    let fa = pa.filter(|p: Seq<char>| p.len() > 0);
    let fb = pb.filter(|p: Seq<char>| p.len() > 0);
    assert((pa + pb).filter(|p: Seq<char>| p.len() > 0) == fa + fb);
    assert((fa + fb).map_values(|p: Seq<char>| lowercase(p)) =~= fa.map_values(
        |p: Seq<char>| lowercase(p),
    ) + fb.map_values(|p: Seq<char>| lowercase(p)));
}

/// Filtering a sequence with one more element at its end.
proof fn lemma_filter_push_nonempty(prev: Seq<Seq<char>>, x: Seq<char>)
    ensures
        prev.push(x).filter(|p: Seq<char>| p.len() > 0) == if x.len() > 0 {
            prev.filter(|p: Seq<char>| p.len() > 0).push(x)
        } else {
            prev.filter(|p: Seq<char>| p.len() > 0)
        },
{
    reveal(Seq::filter);
    assert(prev.push(x).drop_last() =~= prev);
}

/// The lowercased non-empty pieces of `pieces`.
spec fn finished_words(pieces: Seq<Seq<char>>) -> Seq<Seq<char>> {
    pieces.filter(|p: Seq<char>| p.len() > 0).map_values(|p: Seq<char>| lowercase(p))
}

proof fn lemma_finished_words_push(prev: Seq<Seq<char>>, x: Seq<char>)
    ensures
        finished_words(prev.push(x)) == if x.len() > 0 {
            finished_words(prev).push(lowercase(x))
        } else {
            finished_words(prev)
        },
{
    lemma_filter_push_nonempty(prev, x);
    let f = prev.filter(|p: Seq<char>| p.len() > 0);
    assert(f.push(x).map_values(|p: Seq<char>| lowercase(p)) =~= f.map_values(
        |p: Seq<char>| lowercase(p),
    ).push(lowercase(x)));
}

proof fn lemma_strings_view_push(v: Seq<String>, w: String)
    ensures
        strings_view(v.push(w)) == strings_view(v).push(w@),
{
    assert(strings_view(v.push(w)) =~= strings_view(v).push(w@));
}

/// Splits a text into its words: maximal runs of alphabetic characters, lowercased.
pub fn extract_words(text: &str) -> (words: Vec<String>)
    ensures
        strings_view(words@) == words_of(text@),
        forall|i: int| 0 <= i < words@.len() ==> (#[trigger] words@[i])@.len() > 0,
{
    broadcast use vstd::string::group_string_axioms;

    let mut words: Vec<String> = Vec::new();
    let mut cur: Vec<char> = Vec::new();
    let ghost s = text@;
    proof {
        assert(s.take(0) =~= Seq::<char>::empty());
        assert(finished_words(Seq::<Seq<char>>::empty()) =~= Seq::<Seq<char>>::empty()) by {
            reveal(Seq::filter);
        }
        assert(seq![Seq::<char>::empty()].drop_last() =~= Seq::<Seq<char>>::empty());
    }
    for c in it: text.chars()
        invariant
            it.seq() == s,
            split_on_non_alphabetic(s.take(it.index() as int)).last() == cur@,
            strings_view(words@) == finished_words(
                split_on_non_alphabetic(s.take(it.index() as int)).drop_last(),
            ),
            forall|k: int| 0 <= k < words@.len() ==> (#[trigger] words@[k])@.len() > 0,
    {
        let ghost i = it.index() as int;
        let ghost prev = split_on_non_alphabetic(s.take(i));
        proof {
            lemma_split_nonempty(s.take(i));
            assert(s.take(i + 1).drop_last() =~= s.take(i));
            assert(s.take(i + 1).last() == c);
        }
        if char_is_alphabetic(c) {
            cur.push(c);
            proof {
                let next = split_on_non_alphabetic(s.take(i + 1));
                assert(next.drop_last() =~= prev.drop_last());
            }
        } else {
            let ghost old_words = words@;
            if cur.len() > 0 {
                let w = lowercase_chars(cur.as_slice());
                proof {
                    lemma_strings_view_push(words@, w);
                }
                words.push(w);
            }
            proof {
                let next = split_on_non_alphabetic(s.take(i + 1));
                assert(next.drop_last() =~= prev);
                assert(prev =~= prev.drop_last().push(prev.last()));
                lemma_finished_words_push(prev.drop_last(), prev.last());
            }
            cur = Vec::new();
        }
    }
    proof {
        let all = split_on_non_alphabetic(s.take(s.len() as int));
        lemma_split_nonempty(s.take(s.len() as int));
        assert(s.take(s.len() as int) =~= s);
    }
    if cur.len() > 0 {
        let w = lowercase_chars(cur.as_slice());
        proof {
            lemma_strings_view_push(words@, w);
        }
        words.push(w);
    }
    proof {
        let all = split_on_non_alphabetic(s);
        assert(all =~= all.drop_last().push(all.last()));
        lemma_finished_words_push(all.drop_last(), all.last());
    }
    words
}

/// `s` without its leading whitespace.
pub open spec fn trim_start(s: Seq<char>) -> Seq<char>
    decreases s.len(),
{
    if s.len() > 0 && is_whitespace(s[0]) {
        trim_start(s.drop_first())
    } else {
        s
    }
}

/// `s` without its trailing whitespace.
pub open spec fn trim_end(s: Seq<char>) -> Seq<char>
    decreases s.len(),
{
    if s.len() > 0 && is_whitespace(s.last()) {
        trim_end(s.drop_last())
    } else {
        s
    }
}

/// What `str::trim` gives: `s` without its leading and trailing whitespace.
pub open spec fn trimmed(s: Seq<char>) -> Seq<char> {
    trim_end(trim_start(s))
}

proof fn lemma_trim_start_skip(s: Seq<char>, k: int)
    requires
        0 <= k <= s.len(),
        forall|j: int| 0 <= j < k ==> is_whitespace(#[trigger] s[j]),
    ensures
        trim_start(s) == trim_start(s.subrange(k, s.len() as int)),
    decreases k,
{
    if k > 0 {
        let t = s.drop_first();
        assert forall|j: int| 0 <= j < k - 1 implies is_whitespace(#[trigger] t[j]) by {
            assert(t[j] == s[j + 1]);
        }
        lemma_trim_start_skip(t, k - 1);
        assert(t.subrange(k - 1, t.len() as int) =~= s.subrange(k, s.len() as int));
    } else {
        assert(s.subrange(0, s.len() as int) =~= s);
    }
}

proof fn lemma_trim_end_drop(s: Seq<char>, b: int)
    requires
        0 <= b <= s.len(),
        forall|j: int| b <= j < s.len() ==> is_whitespace(#[trigger] s[j]),
    ensures
        trim_end(s) == trim_end(s.subrange(0, b)),
    decreases s.len() - b,
{
    if b < s.len() {
        let t = s.drop_last();
        assert forall|j: int| b <= j < t.len() implies is_whitespace(#[trigger] t[j]) by {
            assert(t[j] == s[j]);
        }
        assert(is_whitespace(s[s.len() - 1]));
        lemma_trim_end_drop(t, b);
        assert(t.subrange(0, b) =~= s.subrange(0, b));
    } else {
        assert(s.subrange(0, b) =~= s);
    }
}

/// The characters of `s`, in order.
pub(crate) fn chars_of(s: &str) -> (cs: Vec<char>)
    ensures
        cs@ == s@,
{
    broadcast use vstd::string::group_string_axioms;

    let mut cs: Vec<char> = Vec::new();
    for c in it: s.chars()
        invariant
            it.seq() == s@,
            cs@ == s@.take(it.index() as int),
    {
        proof {
            assert(s@.take(it.index() + 1) =~= s@.take(it.index() as int).push(c));
        }
        cs.push(c);
    }
    assert(s@.take(s@.len() as int) =~= s@);
    cs
}

/// `str::trim` followed by `str::to_lowercase`: how a dictionary entry is normalized.
pub fn normalize_word(line: &str) -> (w: String)
    ensures
        w@ == lowercase(trimmed(line@)),
{
    let cs = chars_of(line);
    let n = cs.len();
    let mut a: usize = 0;
    while a < n && char_is_whitespace(cs[a])
        invariant
            a <= n == cs@.len(),
            forall|j: int| 0 <= j < a ==> is_whitespace(#[trigger] cs@[j]),
        decreases n - a,
    {
        a = a + 1;
    }
    let mut b: usize = n;
    while b > a && char_is_whitespace(cs[b - 1])
        invariant
            a <= b <= n == cs@.len(),
            forall|j: int| b <= j < n ==> is_whitespace(#[trigger] cs@[j]),
        decreases b - a,
    {
        b = b - 1;
    }
    let mut kept: Vec<char> = Vec::new();
    let mut i: usize = a;
    while i < b
        invariant
            a <= i <= b <= n == cs@.len(),
            kept@ == cs@.subrange(a as int, i as int),
        decreases b - i,
    {
        kept.push(cs[i]);
        proof {
            assert(kept@ =~= cs@.subrange(a as int, i + 1));
        }
        i = i + 1;
    }
    proof {
        let s = cs@;
        lemma_trim_start_skip(s, a as int);
        let u = s.subrange(a as int, n as int);
        assert(trim_start(u) == u);
        lemma_trim_end_drop(u, b - a);
        assert(u.subrange(0, b - a) =~= kept@);
        let v = kept@;
        if v.len() > 0 {
            assert(v.last() == s[b - 1]);
        }
        assert(trim_end(v) == v);
    }
    lowercase_chars(kept.as_slice())
}

/// The dictionary of a list of lines: each line trimmed and lowercased, empty ones dropped.
pub open spec fn dictionary_words(lines: Seq<Seq<char>>) -> Seq<Seq<char>> {
    lines.map_values(|l: Seq<char>| lowercase(trimmed(l))).filter(|w: Seq<char>| w.len() > 0)
}

/// Normalizes the lines of a dictionary file into its words, in order.
pub fn normalize_dictionary(lines: &[String]) -> (words: Vec<String>)
    ensures
        strings_view(words@) == dictionary_words(strings_view(lines@)),
{
    let mut words: Vec<String> = Vec::new();
    let ghost ls = strings_view(lines@);
    let mut i: usize = 0;
    proof {
        reveal(Seq::filter);
        assert(ls.take(0).map_values(|l: Seq<char>| lowercase(trimmed(l))) =~= Seq::<Seq<char>>::empty());
        assert(strings_view(words@) =~= dictionary_words(ls.take(0)));
    }
    while i < lines.len()
        invariant
            i <= lines@.len(),
            ls == strings_view(lines@),
            strings_view(words@) == dictionary_words(ls.take(i as int)),
        decreases lines@.len() - i,
    {
        let w = normalize_word(lines[i].as_str());
        proof {
            let m = ls.take(i + 1).map_values(|l: Seq<char>| lowercase(trimmed(l)));
            assert(m.drop_last() =~= ls.take(i as int).map_values(|l: Seq<char>| lowercase(trimmed(l))));
            assert(m.last() == w@);
            reveal(Seq::filter);
        }
        if !w.as_str().is_empty() {
            proof {
                lemma_strings_view_push(words@, w);
            }
            words.push(w);
        }
        i = i + 1;
    }
    assert(ls.take(lines@.len() as int) =~= ls);
    words
}

} // verus!
