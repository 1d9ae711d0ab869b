//! Text primitives shared by the matching components: the trusted bridge to
//! the outside text routines (Unicode case mapping, transliteration, weighted
//! edit distance) and verified utilities over strings.

use vstd::prelude::*;
use vstd::string::StrSliceExecFns;
use vstd::string::StringSliceAdditionalSpecFns;

use crate::ocr::Weights;

verus! {

/// What `char::is_alphanumeric` returns: whether the character is in the
/// Unicode Alphabetic or Number categories.
pub uninterp spec fn char_is_alphanumeric(c: char) -> bool;

/// What `char::is_whitespace` returns: whether the character has the Unicode
/// White_Space property.
pub uninterp spec fn char_is_whitespace(c: char) -> bool;

/// What `str::to_lowercase` returns: the Unicode lowercase mapping of a
/// sequence of characters.
pub uninterp spec fn lower_of(s: Seq<char>) -> Seq<char>;

/// What `str::to_uppercase` returns: the Unicode uppercase mapping of a
/// sequence of characters.
pub uninterp spec fn upper_of(s: Seq<char>) -> Seq<char>;

/// What `unidecode::unidecode` returns: the ASCII transliteration of a
/// sequence of characters.
pub uninterp spec fn ascii_of(s: Seq<char>) -> Seq<char>;

/// What `stringmetrics::levenshtein_weight` returns for the given byte
/// sequences, search ceiling, and insertion/deletion/substitution costs.
pub uninterp spec fn lev_weight(
    a: Seq<u8>,
    b: Seq<u8>,
    limit: u32,
    ins: u32,
    del: u32,
    sub: u32,
) -> u32;

/// Relies on `char::is_alphanumeric`: a pure classification of the character.
#[verifier::external_body]
pub(crate) fn is_alphanumeric_char(c: char) -> (r: bool)
    ensures
        r == char_is_alphanumeric(c),
{
    c.is_alphanumeric()
}

/// Relies on `char::is_whitespace`: a pure classification of the character.
#[verifier::external_body]
pub(crate) fn is_whitespace_char(c: char) -> (r: bool)
    ensures
        r == char_is_whitespace(c),
{
    c.is_whitespace()
}

/// Relies on `String::push`: appends one character at the end.
#[verifier::external_body]
pub(crate) fn push_char(s: &mut String, c: char)
    ensures
        final(s)@ == old(s)@.push(c),
{
    s.push(c)
}

/// Relies on `str::to_lowercase`: the result depends on the characters alone,
/// and an empty string stays empty.
#[verifier::external_body]
pub(crate) fn lowercase(s: &str) -> (r: String)
    ensures
        r@ == lower_of(s@),
        s@.len() == 0 ==> r@.len() == 0,
{
    s.to_lowercase()
}

/// Relies on `str::to_uppercase`: the result depends on the characters alone,
/// and an empty string stays empty.
#[verifier::external_body]
pub(crate) fn uppercase(s: &str) -> (r: String)
    ensures
        r@ == upper_of(s@),
        s@.len() == 0 ==> r@.len() == 0,
{
    s.to_uppercase()
}

/// Relies on `unidecode::unidecode`: transliterates each character in turn to
/// ASCII, so the result depends on the characters alone and an empty string
/// stays empty.
#[verifier::external_body]
pub(crate) fn transliterate(s: &str) -> (r: String)
    ensures
        r@ == ascii_of(s@),
        s@.len() == 0 ==> r@.len() == 0,
{
    unidecode::unidecode(s)
}

/// Whether a weighted-distance call's arithmetic stays in range: the outside
/// crate counts and costs UTF-8 bytes (at most four per character) in 32-bit
/// arithmetic, and no intermediate cost exceeds one weight more than the
/// combined byte length times a single weight.
pub open spec fn lev_fits(a: Seq<char>, b: Seq<char>, w: Weights) -> bool {
    &&& 4 * (a.len() + b.len() + 1) * (w.insertion as int) <= u32::MAX
    &&& 4 * (a.len() + b.len() + 1) * (w.deletion as int) <= u32::MAX
    &&& 4 * (a.len() + b.len() + 1) * (w.substitution as int) <= u32::MAX
}

/// Decides whether a weighted-distance call's arithmetic stays in range.
pub(crate) fn lev_call_fits(a: &str, b: &str, w: &Weights) -> (r: bool)
    ensures
        r == lev_fits(a@, b@, *w),
{
    let total: u128 = 4 * ((a.unicode_len() as u128) + (b.unicode_len() as u128) + 1);
    proof {
        assert(total <= 147573952589676412924u128);
        assert(total * (w.insertion as u128) <= u128::MAX) by (nonlinear_arith)
            requires
                total <= 147573952589676412924u128,
                w.insertion <= 4294967295u32,
        ;
        assert(total * (w.deletion as u128) <= u128::MAX) by (nonlinear_arith)
            requires
                total <= 147573952589676412924u128,
                w.deletion <= 4294967295u32,
        ;
        assert(total * (w.substitution as u128) <= u128::MAX) by (nonlinear_arith)
            requires
                total <= 147573952589676412924u128,
                w.substitution <= 4294967295u32,
        ;
    }
    total * (w.insertion as u128) <= (u32::MAX as u128) && total * (w.deletion as u128) <= (
    u32::MAX as u128) && total * (w.substitution as u128) <= (u32::MAX as u128)
}

/// Relies on `stringmetrics::levenshtein_weight`: the weighted edit distance
/// over the UTF-8 bytes of the two strings, searched up to the given ceiling
/// (past it the exact value is not owed). Its source shows that equal inputs
/// give 0. It also shows the call can panic outside the `requires`: a zero
/// insertion or deletion cost steps a range by zero on differing strings, and
/// the byte counts and accumulated costs (each path cost is at most the
/// combined byte length times one weight, and each step adds at most one
/// weight) live in 32-bit arithmetic, which the `lev_fits` bound keeps in
/// range with four bytes per character at most.
#[verifier::external_body]
pub(crate) fn weighted_levenshtein(a: &str, b: &str, limit: u32, w: &Weights) -> (r: u32)
    requires
        w.insertion >= 1,
        w.deletion >= 1,
        lev_fits(a@, b@, *w),
    ensures
        r == lev_weight(a.spec_bytes(), b.spec_bytes(), limit, w.insertion, w.deletion, w.substitution),
        a@ == b@ ==> r == 0,
{
    let weights = stringmetrics::LevWeights::new(w.insertion, w.deletion, w.substitution);
    stringmetrics::levenshtein_weight(a, b, limit, &weights)
}

/// The characters of `s` that are alphanumeric, in order.
pub open spec fn filter_alnum(s: Seq<char>) -> Seq<char> {
    s.filter(|c: char| char_is_alphanumeric(c))
}

/// The normal form used for all title comparisons: non-alphanumeric
/// characters dropped, then lowercased.
pub open spec fn normalized(s: Seq<char>) -> Seq<char> {
    lower_of(filter_alnum(s))
}

/// Normalizes text for comparison: strips every character that is not
/// alphanumeric, then lowercases, so punctuation, spacing and case never
/// affect matching.
pub fn normalize_text(text: &str) -> (r: String)
    ensures
        r@ == normalized(text@),
{
    let n: usize = text.unicode_len();
    let mut kept = String::new();
    let mut i: usize = 0;
    while i < n
        invariant
            n == text@.len(),
            0 <= i <= n,
            kept@ == filter_alnum(text@.take(i as int)),
        decreases n - i,
    {
        let c = text.get_char(i);
        proof {
            reveal(Seq::filter);
            assert(text@.take(i + 1).drop_last() == text@.take(i as int));
            assert(text@.take(i + 1).last() == text@[i as int]);
        }
        if is_alphanumeric_char(c) {
            push_char(&mut kept, c);
        }
        i = i + 1;
    }
    proof {
        assert(text@.take(n as int) == text@);
    }
    lowercase(kept.as_str())
}

/// Whether the characters of `b` appear at position `i` of `a`.
pub open spec fn matches_at(a: Seq<char>, b: Seq<char>, i: int) -> bool {
    0 <= i <= a.len() - b.len() && a.subrange(i, i + b.len()) == b
}

/// Whether `b` occurs as a contiguous subsequence of `a`.
pub open spec fn seq_contains_sub(a: Seq<char>, b: Seq<char>) -> bool {
    exists|i: int| #[trigger] matches_at(a, b, i)
}

/// Whether `needle` occurs contiguously inside `hay`, comparing characters.
pub fn contains_sub(hay: &str, needle: &str) -> (r: bool)
    ensures
        r == seq_contains_sub(hay@, needle@),
{
    let n: usize = hay.unicode_len();
    let m: usize = needle.unicode_len();
    if m > n {
        proof {
            assert(forall|k: int| !matches_at(hay@, needle@, k));
        }
        return false;
    }
    if m == 0 {
        proof {
            assert(hay@.subrange(0, 0) =~= needle@);
            assert(matches_at(hay@, needle@, 0));
        }
        return true;
    }
    let mut i: usize = 0;
    while i <= n - m
        invariant
            n == hay@.len(),
            m == needle@.len(),
            1 <= m <= n,
            0 <= i <= n - m + 1,
            forall|k: int| 0 <= k < i ==> !matches_at(hay@, needle@, k),
        decreases n - i,
    {
        let mut j: usize = 0;
        let mut all_eq = true;
        proof {
            assert(hay@.subrange(i as int, i as int) =~= needle@.subrange(0, 0));
        }
        while j < m
            invariant
                n == hay@.len(),
                m == needle@.len(),
                m <= n,
                0 <= i <= n - m,
                0 <= j <= m,
                all_eq == (hay@.subrange(i as int, i + j) == needle@.subrange(0, j as int)),
            decreases m - j,
        {
            let hc = hay.get_char(i + j);
            let nc = needle.get_char(j);
            proof {
                assert(hay@.subrange(i as int, i + j + 1).drop_last() == hay@.subrange(
                    i as int,
                    i + j,
                ));
                assert(needle@.subrange(0, j + 1).drop_last() == needle@.subrange(0, j as int));
                assert(hay@.subrange(i as int, i + j + 1).last() == hay@[i + j]);
                assert(needle@.subrange(0, j + 1).last() == needle@[j as int]);
            }
            if hc != nc {
                all_eq = false;
                proof {
                    assert(hay@.subrange(i as int, i + j + 1)[j as int] == hay@[i + j]);
                    assert(needle@.subrange(0, j + 1)[j as int] == needle@[j as int]);
                }
            } else {
                proof {
                    if all_eq {
                        assert(hay@.subrange(i as int, i + j + 1) =~= needle@.subrange(0, j + 1));
                    } else {
                        assert(hay@.subrange(i as int, i + j) != needle@.subrange(0, j as int));
                        assert(hay@.subrange(i as int, i + j + 1).drop_last() != needle@.subrange(
                            0,
                            j + 1,
                        ).drop_last());
                    }
                }
            }
            j = j + 1;
        }
        if all_eq {
            proof {
                assert(needle@.subrange(0, m as int) == needle@);
                assert(matches_at(hay@, needle@, i as int));
            }
            return true;
        }
        proof {
            assert(needle@.subrange(0, m as int) == needle@);
        }
        i = i + 1;
    }
    proof {
        assert(forall|k: int| 0 <= k <= n - m ==> !matches_at(hay@, needle@, k));
    }
    false
}

/// `s` with leading whitespace characters removed.
pub open spec fn trim_start_rec(s: Seq<char>) -> Seq<char>
    decreases s.len(),
{
    if s.len() > 0 && char_is_whitespace(s[0]) {
        trim_start_rec(s.drop_first())
    } else {
        s
    }
}

/// `s` with trailing whitespace characters removed.
pub open spec fn trim_end_rec(s: Seq<char>) -> Seq<char>
    decreases s.len(),
{
    if s.len() > 0 && char_is_whitespace(s.last()) {
        trim_end_rec(s.drop_last())
    } else {
        s
    }
}

/// `s` with leading and trailing whitespace characters removed.
pub open spec fn trimmed(s: Seq<char>) -> Seq<char> {
    trim_end_rec(trim_start_rec(s))
}

proof fn lemma_trim_start(s: Seq<char>, i: int)
    requires
        0 <= i <= s.len(),
        forall|k: int| 0 <= k < i ==> char_is_whitespace(#[trigger] s[k]),
        i == s.len() || !char_is_whitespace(s[i]),
    ensures
        trim_start_rec(s) == s.skip(i),
    decreases i,
{
    if i == 0 {
        assert(s.skip(0) =~= s);
    } else {
        assert(char_is_whitespace(s[0]));
        lemma_trim_start(s.drop_first(), i - 1);
        assert(s.drop_first().skip(i - 1) =~= s.skip(i));
    }
}

proof fn lemma_trim_end(s: Seq<char>, j: int)
    requires
        0 <= j <= s.len(),
        forall|k: int| j <= k < s.len() ==> char_is_whitespace(#[trigger] s[k]),
        j == 0 || !char_is_whitespace(s[j - 1]),
    ensures
        trim_end_rec(s) == s.take(j),
    decreases s.len() - j,
{
    if j == s.len() {
        if s.len() > 0 && char_is_whitespace(s.last()) {
            lemma_trim_end(s.drop_last(), j - 1);
            assert(s.drop_last().take(j - 1) =~= s.take(j - 1));
            assert(j - 1 == s.drop_last().len());
            assert(s.take(j as int) =~= s);
            assert(s.drop_last() =~= s.take(j - 1));
        } else {
            assert(s.take(j as int) =~= s);
        }
    } else {
        assert(char_is_whitespace(s.last()));
        lemma_trim_end(s.drop_last(), j);
        assert(s.drop_last().take(j as int) =~= s.take(j as int));
    }
}

/// Removes leading and trailing whitespace.
pub fn trim_str<'a>(s: &'a str) -> (r: &'a str)
    ensures
        r@ == trimmed(s@),
{
    let n: usize = s.unicode_len();
    let mut lo: usize = 0;
    while lo < n && is_whitespace_char(s.get_char(lo))
        invariant
            n == s@.len(),
            0 <= lo <= n,
            forall|k: int| 0 <= k < lo ==> char_is_whitespace(#[trigger] s@[k]),
        decreases n - lo,
    {
        lo = lo + 1;
    }
    proof {
        lemma_trim_start(s@, lo as int);
    }
    let mut hi: usize = n;
    while hi > lo && is_whitespace_char(s.get_char(hi - 1))
        invariant
            n == s@.len(),
            0 <= lo <= hi <= n,
            forall|k: int| hi <= k < n ==> char_is_whitespace(#[trigger] s@[k]),
        decreases hi,
    {
        hi = hi - 1;
    }
    let r = s.substring_char(lo, hi);
    proof {
        let t = s@.skip(lo as int);
        assert forall|k: int| hi - lo <= k < t.len() implies char_is_whitespace(
            #[trigger] t[k],
        ) by {
            assert(t[k] == s@[k + lo]);
            assert(char_is_whitespace(s@[k + lo]));
        }
        if hi > lo {
            assert(t[hi - lo - 1] == s@[hi - 1]);
        }
        lemma_trim_end(t, hi - lo);
        assert(t.take(hi - lo) =~= s@.subrange(lo as int, hi as int));
    }
    r
}

/// The characters of `s` other than spaces, in order.
pub open spec fn without_spaces(s: Seq<char>) -> Seq<char> {
    s.filter(|c: char| c != ' ')
}

/// Removes every space character, keeping all others.
pub fn remove_spaces(s: &str) -> (r: String)
    ensures
        r@ == without_spaces(s@),
{
    let n: usize = s.unicode_len();
    let mut kept = String::new();
    let mut i: usize = 0;
    while i < n
        invariant
            n == s@.len(),
            0 <= i <= n,
            kept@ == without_spaces(s@.take(i as int)),
        decreases n - i,
    {
        let c = s.get_char(i);
        proof {
            reveal(Seq::filter);
            assert(s@.take(i + 1).drop_last() == s@.take(i as int));
            assert(s@.take(i + 1).last() == s@[i as int]);
        }
        if c != ' ' {
            push_char(&mut kept, c);
        }
        i = i + 1;
    }
    proof {
        assert(s@.take(n as int) == s@);
    }
    kept
}

/// The position of the first occurrence of `c` in `s`, or `s.len()` when `c`
/// does not occur.
pub open spec fn find_char(s: Seq<char>, c: char) -> int
    decreases s.len(),
{
    if s.len() == 0 {
        0
    } else if s[0] == c {
        0
    } else {
        1 + find_char(s.drop_first(), c)
    }
}

proof fn lemma_find_char(s: Seq<char>, c: char, i: int)
    requires
        0 <= i <= s.len(),
        forall|k: int| 0 <= k < i ==> #[trigger] s[k] != c,
        i == s.len() || s[i] == c,
    ensures
        find_char(s, c) == i,
    decreases i,
{
    if i == 0 {
    } else {
        lemma_find_char(s.drop_first(), c, i - 1);
    }
}

pub proof fn lemma_find_char_bounds_pub(s: Seq<char>, c: char)
    ensures
        0 <= find_char(s, c) <= s.len(),
        find_char(s, c) < s.len() ==> s[find_char(s, c)] == c,
        forall|k: int| 0 <= k < find_char(s, c) ==> #[trigger] s[k] != c,
{
    lemma_find_char_bounds(s, c);
}

proof fn lemma_find_char_bounds(s: Seq<char>, c: char)
    ensures
        0 <= find_char(s, c) <= s.len(),
        find_char(s, c) < s.len() ==> s[find_char(s, c)] == c,
        forall|k: int| 0 <= k < find_char(s, c) ==> #[trigger] s[k] != c,
    decreases s.len(),
{
    if s.len() == 0 {
    } else if s[0] == c {
    } else {
        lemma_find_char_bounds(s.drop_first(), c);
        assert forall|k: int| 0 <= k < find_char(s, c) implies #[trigger] s[k] != c by {
            if k > 0 {
                assert(s.drop_first()[k - 1] == s[k]);
            }
        }
    }
}

/// Finds the first occurrence of `c`, returning its character position, or
/// the length of `s` when there is none.
pub fn find_char_at(s: &str, c: char) -> (r: usize)
    ensures
        r == find_char(s@, c),
{
    let n: usize = s.unicode_len();
    let mut i: usize = 0;
    while i < n
        invariant
            n == s@.len(),
            0 <= i <= n,
            forall|k: int| 0 <= k < i ==> #[trigger] s@[k] != c,
        decreases n - i,
    {
        if s.get_char(i) == c {
            proof {
                lemma_find_char(s@, c, i as int);
            }
            return i;
        }
        i = i + 1;
    }
    proof {
        lemma_find_char(s@, c, n as int);
    }
    n
}

/// The pieces of `s` between occurrences of the separator `c`, in order;
/// there is always at least one piece.
pub open spec fn split_on(s: Seq<char>, c: char) -> Seq<Seq<char>>
    decreases s.len(),
{
    let i = find_char(s, c);
    if 0 <= i < s.len() {
        seq![s.take(i)] + split_on(s.skip(i + 1), c)
    } else {
        seq![s]
    }
}

/// Splits `s` at each occurrence of the separator, as `str::split` does.
pub fn split_on_char(s: &str, c: char) -> (r: Vec<String>)
    ensures
        r.deep_view() == split_on(s@, c),
{
    let mut out: Vec<String> = Vec::new();
    let mut rest: &str = s;
    proof {
        assert(split_on(s@, c) =~= out.deep_view() + split_on(rest@, c));
    }
    loop
        invariant_except_break
            split_on(s@, c) == out.deep_view() + split_on(rest@, c),
        ensures
            split_on(s@, c) == out.deep_view(),
        decreases rest@.len() + 1,
    {
        let n: usize = rest.unicode_len();
        let k = find_char_at(rest, c);
        proof {
            lemma_find_char_bounds(rest@, c);
        }
        if k == n {
            let ghost prev = out.deep_view();
            let ghost r = rest@;
            out.push(rest.to_owned());
            proof {
                assert(out.deep_view() =~= prev + seq![r]);
                assert(split_on(r, c) == seq![r]);
                assert(prev + seq![r] + Seq::<Seq<char>>::empty() =~= prev + seq![r]);
                assert(split_on(s@, c) =~= out.deep_view());
            }
            break;
        }
        let piece = rest.substring_char(0, k);
        let new_rest = rest.substring_char(k + 1, n);
        let ghost prev = out.deep_view();
        let ghost r = rest@;
        out.push(piece.to_owned());
        proof {
            assert(out.deep_view() =~= prev + seq![r.take(k as int)]);
            assert(split_on(r, c) == seq![r.take(k as int)] + split_on(r.skip(k + 1), c));
            assert(prev + (seq![r.take(k as int)] + split_on(r.skip(k + 1), c)) =~= (prev + seq![
                r.take(k as int),
            ]) + split_on(r.skip(k + 1), c));
        }
        rest = new_rest;
    }
    out
}

/// Whether `a` equals `b` when ASCII uppercase letters in either are folded
/// to lowercase.
pub open spec fn ascii_ci_eq(a: char, b: char) -> bool {
    a == b || (65 <= a as u32 <= 90 && a as u32 + 32 == b as u32) || (65 <= b as u32 <= 90 && b
        as u32 + 32 == a as u32)
}

/// Whether `p` begins `s`, folding ASCII case.
pub open spec fn ci_prefix(s: Seq<char>, p: Seq<char>) -> bool {
    p.len() <= s.len() && forall|k: int| 0 <= k < p.len() ==> ascii_ci_eq(s[k], #[trigger] p[k])
}

/// Whether the characters of `prefix` begin `s`, folding ASCII case.
pub fn starts_with_ci(s: &str, prefix: &str) -> (r: bool)
    ensures
        r == ci_prefix(s@, prefix@),
{
    let n: usize = s.unicode_len();
    let m: usize = prefix.unicode_len();
    if m > n {
        return false;
    }
    let mut j: usize = 0;
    while j < m
        invariant
            n == s@.len(),
            m == prefix@.len(),
            m <= n,
            0 <= j <= m,
            forall|k: int| 0 <= k < j ==> ascii_ci_eq(s@[k], #[trigger] prefix@[k]),
        decreases m - j,
    {
        let sc = s.get_char(j);
        let pc = prefix.get_char(j);
        let sc32 = sc as u32;
        let pc32 = pc as u32;
        let eq = sc == pc || (65 <= sc32 && sc32 <= 90 && sc32 + 32 == pc32) || (65 <= pc32 && pc32
            <= 90 && pc32 + 32 == sc32);
        if !eq {
            return false;
        }
        j = j + 1;
    }
    true
}

/// Whether the characters of `prefix` begin `s`.
pub fn starts_with_str(s: &str, prefix: &str) -> (r: bool)
    ensures
        r == prefix@.is_prefix_of(s@),
{
    let n: usize = s.unicode_len();
    let m: usize = prefix.unicode_len();
    if m > n {
        return false;
    }
    let mut j: usize = 0;
    while j < m
        invariant
            n == s@.len(),
            m == prefix@.len(),
            m <= n,
            0 <= j <= m,
            s@.subrange(0, j as int) == prefix@.subrange(0, j as int),
        decreases m - j,
    {
        let sc = s.get_char(j);
        let pc = prefix.get_char(j);
        proof {
            assert(s@.subrange(0, j + 1).drop_last() == s@.subrange(0, j as int));
            assert(prefix@.subrange(0, j + 1).drop_last() == prefix@.subrange(0, j as int));
            assert(s@.subrange(0, j + 1).last() == s@[j as int]);
            assert(prefix@.subrange(0, j + 1).last() == prefix@[j as int]);
        }
        if sc != pc {
            proof {
                assert(s@.subrange(0, m as int)[j as int] == s@[j as int]);
                assert(prefix@.subrange(0, m as int) == prefix@);
            }
            return false;
        }
        proof {
            assert(s@.subrange(0, j + 1) =~= prefix@.subrange(0, j + 1));
        }
        j = j + 1;
    }
    proof {
        assert(prefix@.subrange(0, m as int) == prefix@);
        assert(s@.subrange(0, m as int) == prefix@);
    }
    true
}

/// `s` with every non-overlapping occurrence of `from` replaced by `to`,
/// scanning left to right, as `str::replace` does.
pub open spec fn replaced(s: Seq<char>, from: Seq<char>, to: Seq<char>) -> Seq<char>
    decreases s.len(),
{
    if from.len() == 0 || s.len() < from.len() {
        s
    } else if s.subrange(0, from.len() as int) == from {
        to + replaced(s.skip(from.len() as int), from, to)
    } else {
        seq![s[0]] + replaced(s.drop_first(), from, to)
    }
}

/// Replaces every non-overlapping occurrence of `from` with `to`, scanning
/// left to right.
pub fn replace_all(s: &str, from: &str, to: &str) -> (r: String)
    requires
        from@.len() > 0,
    ensures
        r@ == replaced(s@, from@, to@),
{
    let n: usize = s.unicode_len();
    let m: usize = from.unicode_len();
    let mut out = String::new();
    let mut i: usize = 0;
    proof {
        assert(s@.skip(0) =~= s@);
        assert(out@ + replaced(s@, from@, to@) =~= replaced(s@, from@, to@));
    }
    while i < n
        invariant
            n == s@.len(),
            m == from@.len(),
            m > 0,
            0 <= i <= n,
            replaced(s@, from@, to@) == out@ + replaced(s@.skip(i as int), from@, to@),
        decreases n - i,
    {
        let ghost rest = s@.skip(i as int);
        if m <= n - i && starts_with_str(s.substring_char(i, n), from) {
            out.append(to);
            proof {
                assert(rest.subrange(0, m as int) =~= s@.subrange(i as int, n as int).subrange(
                    0,
                    m as int,
                ));
                assert(rest.subrange(0, m as int) == from@);
                assert(replaced(rest, from@, to@) == to@ + replaced(
                    rest.skip(m as int),
                    from@,
                    to@,
                ));
                assert(rest.skip(m as int) =~= s@.skip(i + m));
            }
            i = i + m;
        } else {
            let c = s.get_char(i);
            push_char(&mut out, c);
            proof {
                if rest.len() >= m {
                    assert(rest.subrange(0, m as int) =~= s@.subrange(i as int, n as int).subrange(
                        0,
                        m as int,
                    ));
                    assert(rest.subrange(0, m as int) != from@);
                    assert(replaced(rest, from@, to@) == seq![rest[0]] + replaced(
                        rest.drop_first(),
                        from@,
                        to@,
                    ));
                } else {
                    assert(replaced(rest, from@, to@) == rest);
                    assert(rest.drop_first().len() < m);
                    assert(replaced(rest.drop_first(), from@, to@) == rest.drop_first());
                    assert(rest =~= seq![rest[0]] + rest.drop_first());
                }
                assert(rest[0] == s@[i as int]);
                assert(rest.drop_first() =~= s@.skip(i + 1));
            }
            i = i + 1;
        }
    }
    proof {
        assert(s@.skip(n as int) =~= Seq::<char>::empty());
        assert(out@ + Seq::<char>::empty() =~= out@);
    }
    out
}

/// `s` with leading occurrences of the character `c` removed.
pub open spec fn trim_char_start_rec(s: Seq<char>, c: char) -> Seq<char>
    decreases s.len(),
{
    if s.len() > 0 && s[0] == c {
        trim_char_start_rec(s.drop_first(), c)
    } else {
        s
    }
}

/// `s` with trailing occurrences of the character `c` removed.
pub open spec fn trim_char_end_rec(s: Seq<char>, c: char) -> Seq<char>
    decreases s.len(),
{
    if s.len() > 0 && s.last() == c {
        trim_char_end_rec(s.drop_last(), c)
    } else {
        s
    }
}

/// `s` with all leading and trailing occurrences of `c` removed.
pub open spec fn trim_char_spec(s: Seq<char>, c: char) -> Seq<char> {
    trim_char_end_rec(trim_char_start_rec(s, c), c)
}

proof fn lemma_trim_char_start(s: Seq<char>, c: char, i: int)
    requires
        0 <= i <= s.len(),
        forall|k: int| 0 <= k < i ==> #[trigger] s[k] == c,
        i == s.len() || s[i] != c,
    ensures
        trim_char_start_rec(s, c) == s.skip(i),
    decreases i,
{
    if i == 0 {
        assert(s.skip(0) =~= s);
    } else {
        lemma_trim_char_start(s.drop_first(), c, i - 1);
        assert(s.drop_first().skip(i - 1) =~= s.skip(i));
    }
}

proof fn lemma_trim_char_end(s: Seq<char>, c: char, j: int)
    requires
        0 <= j <= s.len(),
        forall|k: int| j <= k < s.len() ==> #[trigger] s[k] == c,
        j == 0 || s[j - 1] != c,
    ensures
        trim_char_end_rec(s, c) == s.take(j),
    decreases s.len() - j,
{
    if j == s.len() {
        if s.len() > 0 && s.last() == c {
            lemma_trim_char_end(s.drop_last(), c, j - 1);
            assert(s.drop_last().take(j - 1) =~= s.take(j - 1));
            assert(s.take(j as int) =~= s);
            assert(s.drop_last() =~= s.take(j - 1));
        } else {
            assert(s.take(j as int) =~= s);
        }
    } else {
        assert(s.last() == c);
        lemma_trim_char_end(s.drop_last(), c, j);
        assert(s.drop_last().take(j as int) =~= s.take(j as int));
    }
}

/// Removes all leading and trailing occurrences of one character.
pub fn trim_matching_char<'a>(s: &'a str, c: char) -> (r: &'a str)
    ensures
        r@ == trim_char_spec(s@, c),
{
    let n: usize = s.unicode_len();
    let mut lo: usize = 0;
    while lo < n && s.get_char(lo) == c
        invariant
            n == s@.len(),
            0 <= lo <= n,
            forall|k: int| 0 <= k < lo ==> #[trigger] s@[k] == c,
        decreases n - lo,
    {
        lo = lo + 1;
    }
    proof {
        lemma_trim_char_start(s@, c, lo as int);
    }
    let mut hi: usize = n;
    while hi > lo && s.get_char(hi - 1) == c
        invariant
            n == s@.len(),
            0 <= lo <= hi <= n,
            forall|k: int| hi <= k < n ==> #[trigger] s@[k] == c,
        decreases hi,
    {
        hi = hi - 1;
    }
    let r = s.substring_char(lo, hi);
    proof {
        let t = s@.skip(lo as int);
        assert forall|k: int| hi - lo <= k < t.len() implies #[trigger] t[k] == c by {
            assert(t[k] == s@[k + lo]);
        }
        if hi > lo {
            assert(t[hi - lo - 1] == s@[hi - 1]);
        }
        lemma_trim_char_end(t, c, hi - lo);
        assert(t.take(hi - lo) =~= s@.subrange(lo as int, hi as int));
    }
    r
}

/// The decimal digit character for a value from 0 to 9.
pub open spec fn digit_char(d: int) -> char {
    if d == 0 {
        '0'
    } else if d == 1 {
        '1'
    } else if d == 2 {
        '2'
    } else if d == 3 {
        '3'
    } else if d == 4 {
        '4'
    } else if d == 5 {
        '5'
    } else if d == 6 {
        '6'
    } else if d == 7 {
        '7'
    } else if d == 8 {
        '8'
    } else {
        '9'
    }
}

/// The decimal digits of a non-negative number, most significant first.
pub open spec fn dec_digits(n: int) -> Seq<char>
    decreases n,
{
    if n < 10 {
        seq![digit_char(n)]
    } else {
        dec_digits(n / 10).push(digit_char(n % 10))
    }
}

/// Writes a number in decimal.
pub fn u64_to_dec(n: u64) -> (r: String)
    ensures
        r@ == dec_digits(n as int),
    decreases n,
{
    let d: u64 = n % 10;
    let c: char = match d {
        0 => '0',
        1 => '1',
        2 => '2',
        3 => '3',
        4 => '4',
        5 => '5',
        6 => '6',
        7 => '7',
        8 => '8',
        _ => '9',
    };
    proof {
        assert(c == digit_char(n as int % 10));
    }
    if n < 10 {
        let mut out = String::new();
        push_char(&mut out, c);
        proof {
            assert(out@ =~= seq![digit_char(n as int)]);
        }
        out
    } else {
        let mut out = u64_to_dec(n / 10);
        push_char(&mut out, c);
        out
    }
}

/// Whether `c` is an ASCII decimal digit.
pub open spec fn is_digit(c: char) -> bool {
    48 <= c as u32 <= 57
}

/// The numeric value of an ASCII decimal digit.
pub open spec fn digit_val(c: char) -> int {
    c as u32 - 48
}

/// The value of a sequence of decimal digits, most significant first.
pub open spec fn dec_value(s: Seq<char>) -> int
    decreases s.len(),
{
    if s.len() == 0 {
        0
    } else {
        dec_value(s.drop_last()) * 10 + digit_val(s.last())
    }
}

/// Whether `s` is a non-empty sequence of ASCII decimal digits.
pub open spec fn all_digits(s: Seq<char>) -> bool {
    s.len() > 0 && forall|k: int| 0 <= k < s.len() ==> is_digit(#[trigger] s[k])
}

/// Reads a non-negative decimal number, as `str::parse::<u64>` does: the
/// string must be all digits and the value must fit.
pub fn parse_u64(s: &str) -> (r: Option<u64>)
    ensures
        match r {
            Some(v) => all_digits(s@) && v == dec_value(s@) && dec_value(s@) <= u64::MAX,
            None => !all_digits(s@) || dec_value(s@) > u64::MAX,
        },
{
    let n: usize = s.unicode_len();
    if n == 0 {
        return None;
    }
    let mut acc: u64 = 0;
    let mut i: usize = 0;
    while i < n
        invariant
            n == s@.len(),
            0 <= i <= n,
            forall|k: int| 0 <= k < i ==> is_digit(#[trigger] s@[k]),
            acc == dec_value(s@.take(i as int)),
        decreases n - i,
    {
        let c = s.get_char(i);
        let v = c as u32;
        if v < 48 || v > 57 {
            return None;
        }
        let d: u64 = (v - 48) as u64;
        proof {
            assert(s@.take(i + 1).drop_last() == s@.take(i as int));
            assert(s@.take(i + 1).last() == s@[i as int]);
        }
        let ghost prefix_next = s@.take(i + 1);
        proof {
            assert(dec_value(prefix_next) == acc * 10 + digit_val(s@[i as int]));
        }
        let shifted = match acc.checked_mul(10) {
            Some(x) => x,
            None => {
                proof {
                    if all_digits(s@) {
                        lemma_dec_value_prefix(s@, i + 1);
                        assert(digit_val(s@[i as int]) >= 0);
                        assert(dec_value(s@) >= dec_value(prefix_next));
                    }
                }
                return None;
            },
        };
        let next = match shifted.checked_add(d) {
            Some(x) => x,
            None => {
                proof {
                    if all_digits(s@) {
                        lemma_dec_value_prefix(s@, i + 1);
                        assert(dec_value(s@) >= dec_value(prefix_next));
                    }
                }
                return None;
            },
        };
        acc = next;
        i = i + 1;
    }
    proof {
        assert(s@.take(n as int) == s@);
    }
    Some(acc)
}

/// Ten to a non-negative power.
pub open spec fn pow10(n: int) -> int
    decreases n,
{
    if n <= 0 {
        1
    } else {
        10 * pow10(n - 1)
    }
}

/// A digit string's value is never negative.
pub proof fn lemma_dec_value_nonneg_pub(s: Seq<char>)
    requires
        forall|k: int| 0 <= k < s.len() ==> is_digit(#[trigger] s[k]),
    ensures
        dec_value(s) >= 0,
{
    lemma_dec_value_nonneg(s);
}

/// A digit string's value is below ten to its length.
pub proof fn lemma_dec_value_bound(s: Seq<char>)
    requires
        forall|k: int| 0 <= k < s.len() ==> is_digit(#[trigger] s[k]),
    ensures
        0 <= dec_value(s) < pow10(s.len() as int),
    decreases s.len(),
{
    if s.len() == 0 {
    } else {
        assert(forall|k: int|
            0 <= k < s.drop_last().len() ==> is_digit(#[trigger] s.drop_last()[k]));
        lemma_dec_value_bound(s.drop_last());
        assert(digit_val(s.last()) <= 9);
        assert(pow10(s.len() as int) == 10 * pow10(s.len() - 1));
    }
}

/// A digit string's value is never negative.
proof fn lemma_dec_value_nonneg(s: Seq<char>)
    requires
        forall|k: int| 0 <= k < s.len() ==> is_digit(#[trigger] s[k]),
    ensures
        dec_value(s) >= 0,
    decreases s.len(),
{
    if s.len() > 0 {
        assert(forall|k: int|
            0 <= k < s.drop_last().len() ==> is_digit(#[trigger] s.drop_last()[k]));
        lemma_dec_value_nonneg(s.drop_last());
        assert(digit_val(s.last()) >= 0);
    }
}

/// A digit string's value is at least the value of any of its prefixes.
proof fn lemma_dec_value_prefix(s: Seq<char>, j: int)
    requires
        0 <= j <= s.len(),
        forall|k: int| 0 <= k < s.len() ==> is_digit(#[trigger] s[k]),
    ensures
        dec_value(s) >= dec_value(s.take(j)),
    decreases s.len() - j,
{
    if j == s.len() {
        assert(s.take(j) == s);
    } else {
        lemma_dec_value_prefix(s, j + 1);
        assert(s.take(j + 1).drop_last() == s.take(j));
        assert(s.take(j + 1).last() == s[j]);
        assert(dec_value(s.take(j + 1)) == dec_value(s.take(j)) * 10 + digit_val(s[j]));
        assert(forall|k: int| 0 <= k < s.take(j).len() ==> is_digit(#[trigger] s.take(j)[k]));
        lemma_dec_value_nonneg(s.take(j));
        assert(digit_val(s[j]) >= 0);
    }
}

/// Each further element of a joined list, preceded by the separator.
pub open spec fn joined_tail(parts: Seq<Seq<char>>, sep: Seq<char>) -> Seq<char>
    decreases parts.len(),
{
    if parts.len() == 0 {
        Seq::empty()
    } else {
        sep + parts[0] + joined_tail(parts.drop_first(), sep)
    }
}

/// The concatenation of `parts` with `sep` between consecutive elements.
pub open spec fn joined(parts: Seq<Seq<char>>, sep: Seq<char>) -> Seq<char> {
    if parts.len() == 0 {
        Seq::empty()
    } else {
        parts[0] + joined_tail(parts.drop_first(), sep)
    }
}

/// Joins strings with a separator, as `[String]::join` does.
pub fn join_strings(parts: &Vec<String>, sep: &str) -> (r: String)
    ensures
        r@ == joined(parts.deep_view(), sep@),
{
    let ghost dv = parts.deep_view();
    let mut out = String::new();
    if parts.len() == 0 {
        return out;
    }
    out.append(parts[0].as_str());
    let mut i: usize = 1;
    proof {
        assert(dv.skip(0).drop_first() =~= dv.skip(1));
    }
    while i < parts.len()
        invariant
            dv == parts.deep_view(),
            dv.len() == parts.len() >= 1,
            1 <= i <= parts.len(),
            joined(dv, sep@) == out@ + joined_tail(dv.skip(i as int), sep@),
        decreases parts.len() - i,
    {
        out.append(sep);
        out.append(parts[i].as_str());
        proof {
            assert(dv.skip(i as int)[0] == dv[i as int]);
            assert(dv.skip(i as int).drop_first() =~= dv.skip(i + 1));
        }
        i = i + 1;
    }
    proof {
        assert(dv.skip(parts.len() as int) =~= Seq::<Seq<char>>::empty());
    }
    out
}

/// Whether a character is troublesome in a filename.
pub open spec fn filename_unsafe_char(c: char) -> bool {
    c == '/' || c == '\\' || c == ':' || c == '*' || c == '?' || c == '"' || c == '<' || c == '>'
        || c == '|' || c == '\u{0}'
}

/// A title turned into a safe filename: troublesome characters become
/// underscores, doubled underscores collapse once, outer whitespace and dots
/// go, and an empty result becomes a default name.
pub open spec fn sanitized_filename(s: Seq<char>) -> Seq<char> {
    let mapped = Seq::new(
        s.len(),
        |i: int|
            if filename_unsafe_char(s[i]) {
                '_'
            } else {
                s[i]
            },
    );
    let collapsed = replaced(mapped, "__"@, "_"@);
    let t = trim_char_spec(trimmed(collapsed), '.');
    if t.len() == 0 {
        "untitled"@
    } else {
        t
    }
}

/// Makes a safe filename from a song title.
pub fn sanitize_filename(input: &str) -> (r: String)
    ensures
        r@ == sanitized_filename(input@),
{
    proof {
        reveal_strlit("__");
        reveal_strlit("_");
    }
    let n: usize = input.unicode_len();
    let mut mapped = String::new();
    let mut i: usize = 0;
    let ghost mapped_spec = Seq::new(
        input@.len(),
        |k: int|
            if filename_unsafe_char(input@[k]) {
                '_'
            } else {
                input@[k]
            },
    );
    while i < n
        invariant
            n == input@.len(),
            0 <= i <= n,
            mapped_spec == Seq::new(
                input@.len(),
                |k: int|
                    if filename_unsafe_char(input@[k]) {
                        '_'
                    } else {
                        input@[k]
                    },
            ),
            mapped@ == mapped_spec.take(i as int),
        decreases n - i,
    {
        let c = input.get_char(i);
        let mapped_c: char = if c == '/' || c == '\\' || c == ':' || c == '*' || c == '?' || c
            == '"' || c == '<' || c == '>' || c == '|' || c == '\u{0}' {
            '_'
        } else {
            c
        };
        push_char(&mut mapped, mapped_c);
        proof {
            assert(mapped@ =~= mapped_spec.take(i + 1));
        }
        i = i + 1;
    }
    proof {
        assert(mapped_spec.take(n as int) =~= mapped_spec);
    }
    let collapsed = replace_all(mapped.as_str(), "__", "_");
    let trimmed_ws = trim_str(collapsed.as_str());
    let trimmed_dots = trim_matching_char(trimmed_ws, '.');
    if trimmed_dots.unicode_len() == 0 {
        "untitled".to_owned()
    } else {
        trimmed_dots.to_owned()
    }
}

/// A sequence whose characters are all alphanumeric is its own filtering.
proof fn lemma_filter_alnum_all_kept(t: Seq<char>)
    requires
        forall|k: int| 0 <= k < t.len() ==> char_is_alphanumeric(#[trigger] t[k]),
    ensures
        filter_alnum(t) == t,
    decreases t.len(),
{
    reveal(Seq::filter);
    if t.len() > 0 {
        assert(forall|k: int|
            0 <= k < t.drop_last().len() ==> char_is_alphanumeric(#[trigger] t.drop_last()[k]));
        lemma_filter_alnum_all_kept(t.drop_last());
        assert(char_is_alphanumeric(t.last()));
        assert(t.drop_last().push(t.last()) =~= t);
    }
}

/// Dropping non-alphanumeric characters twice is the same as dropping them
/// once. This is the character-filtering half of the normal form's
/// idempotence; the case-mapping half belongs to the Unicode tables outside
/// the library.
pub proof fn lemma_filter_alnum_idempotent(s: Seq<char>)
    ensures
        filter_alnum(filter_alnum(s)) == filter_alnum(s),
{
    let t = filter_alnum(s);
    assert forall|k: int| 0 <= k < t.len() implies char_is_alphanumeric(#[trigger] t[k]) by {
        s.lemma_filter_pred(|c: char| char_is_alphanumeric(c), k);
    }
    lemma_filter_alnum_all_kept(t);
}

} // verus!
