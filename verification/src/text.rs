//! Shared text primitives: substring matching, first-occurrence search,
//! whitespace trimming, and lexicographic comparison over character views.

use vstd::prelude::*;

verus! {

/// The pattern `pat` occurs in `text` starting at index `i`.
pub open spec fn match_at(text: Seq<char>, pat: Seq<char>, i: int) -> bool {
    &&& 0 <= i
    &&& i + pat.len() <= text.len()
    &&& text.subrange(i, i + pat.len() as int) == pat
}

/// Index of the first occurrence of `pat` in `text` at or after `i`,
/// if there is one.
pub open spec fn first_match_from(text: Seq<char>, pat: Seq<char>, i: int) -> Option<int>
    decreases text.len() + 1 - i,
{
    if i < 0 || i + pat.len() > text.len() {
        None
    } else if match_at(text, pat, i) {
        Some(i)
    } else {
        first_match_from(text, pat, i + 1)
    }
}

/// Index of the first occurrence of `pat` in `text`, if there is one.
pub open spec fn first_match(text: Seq<char>, pat: Seq<char>) -> Option<int> {
    first_match_from(text, pat, 0)
}

/// What `first_match_from` returns: the earliest match position, or the
/// promise that there is none.
pub proof fn lemma_first_match_from(text: Seq<char>, pat: Seq<char>, i: int)
    requires
        0 <= i,
    ensures
        match first_match_from(text, pat, i) {
            Some(j) => i <= j && match_at(text, pat, j) && (forall|k: int|
                i <= k < j ==> !match_at(text, pat, k)),
            None => forall|k: int| i <= k ==> !match_at(text, pat, k),
        },
    decreases text.len() + 1 - i,
{
    if i + pat.len() > text.len() {
        assert forall|k: int| i <= k implies !match_at(text, pat, k) by {
            assert(k + pat.len() > text.len());
        }
    } else if match_at(text, pat, i) {
    } else {
        lemma_first_match_from(text, pat, i + 1);
    }
}

/// A match at `m` with no match before it is the first match.
pub proof fn lemma_first_match_is(text: Seq<char>, pat: Seq<char>, m: int)
    requires
        match_at(text, pat, m),
        forall|k: int| 0 <= k < m ==> !match_at(text, pat, k),
    ensures
        first_match(text, pat) == Some(m),
{
    lemma_first_match_from_is(text, pat, m, 0);
}

proof fn lemma_first_match_from_is(text: Seq<char>, pat: Seq<char>, m: int, i: int)
    requires
        match_at(text, pat, m),
        forall|k: int| i <= k < m ==> !match_at(text, pat, k),
        0 <= i <= m,
    ensures
        first_match_from(text, pat, i) == Some(m),
    decreases m - i,
{
    if i < m {
        lemma_first_match_from_is(text, pat, m, i + 1);
    }
}

/// Whether `pat` matches `text` at position `i`.
pub fn matches_at(text: &str, pat: &str, i: usize) -> (r: bool)
    ensures
        r == match_at(text@, pat@, i as int),
{
    let text_len = text.unicode_len();
    let pat_len = pat.unicode_len();
    if i > text_len || pat_len > text_len - i {
        assert(!match_at(text@, pat@, i as int));
        return false;
    }
    let mut j: usize = 0;
    while j < pat_len
        invariant
            i + pat_len <= text_len,
            text_len == text@.len(),
            pat_len == pat@.len(),
            0 <= j <= pat_len,
            forall|k: int| 0 <= k < j ==> text@[i + k] == pat@[k],
        decreases pat_len - j,
    {
        if text.get_char(i + j) != pat.get_char(j) {
            assert(text@.subrange(i as int, i + pat@.len() as int)[j as int] != pat@[j as int]);
            return false;
        }
        j += 1;
    }
    assert(text@.subrange(i as int, i + pat@.len() as int) =~= pat@);
    true
}

/// Position of the first occurrence of `pat` in `text`, if any.
pub fn find_first(text: &str, pat: &str) -> (r: Option<usize>)
    ensures
        match r {
            Some(j) => first_match(text@, pat@) == Some(j as int),
            None => first_match(text@, pat@) is None,
        },
{
    let text_len = text.unicode_len();
    let pat_len = pat.unicode_len();
    if pat_len > text_len {
        return None;
    }
    if pat_len == 0 {
        assert(text@.subrange(0, 0) =~= pat@);
        return Some(0);
    }
    let end = text_len - pat_len;
    let mut i: usize = 0;
    while i <= end
        invariant
            text_len == text@.len(),
            pat_len == pat@.len(),
            1 <= pat_len <= text_len,
            end == text_len - pat_len,
            0 <= i <= end + 1,
            first_match(text@, pat@) == first_match_from(text@, pat@, i as int),
        decreases end + 1 - i,
    {
        if matches_at(text, pat, i) {
            return Some(i);
        }
        i += 1;
    }
    None
}

/// Whether two string slices hold the same characters.
pub fn str_eq(a: &str, b: &str) -> (r: bool)
    ensures
        r == (a@ == b@),
{
    let a_len = a.unicode_len();
    let b_len = b.unicode_len();
    if a_len != b_len {
        return false;
    }
    let r = matches_at(a, b, 0);
    proof {
        if r {
            assert(a@.subrange(0, b@.len() as int) =~= a@);
        } else {
            assert(a@.subrange(0, b@.len() as int) =~= a@);
        }
    }
    r
}

/// The whitespace characters that trimming removes.
pub open spec fn is_ws(c: char) -> bool {
    c == ' ' || c == '\n' || c == '\t' || c == '\r'
}

/// First index at or after `i` holding a non-whitespace character (or the
/// length of `s` if there is none).
pub open spec fn ws_prefix_end(s: Seq<char>, i: int) -> int
    decreases s.len() - i,
{
    if i < 0 || i >= s.len() || !is_ws(s[i]) {
        i
    } else {
        ws_prefix_end(s, i + 1)
    }
}

/// Start of the run of whitespace that ends at exclusive position `j`.
pub open spec fn ws_suffix_start(s: Seq<char>, j: int) -> int
    decreases j,
{
    if j <= 0 || j > s.len() || !is_ws(s[j - 1]) {
        j
    } else {
        ws_suffix_start(s, j - 1)
    }
}

/// `s` with leading and trailing whitespace removed.
pub open spec fn trimmed(s: Seq<char>) -> Seq<char> {
    let a = ws_prefix_end(s, 0);
    let b = ws_suffix_start(s, s.len() as int);
    if a <= b {
        s.subrange(a, b)
    } else {
        Seq::empty()
    }
}

pub proof fn lemma_ws_prefix_end(s: Seq<char>, i: int)
    requires
        0 <= i <= s.len(),
    ensures
        i <= ws_prefix_end(s, i) <= s.len(),
        forall|k: int| i <= k < ws_prefix_end(s, i) ==> is_ws(s[k]),
        ws_prefix_end(s, i) < s.len() ==> !is_ws(s[ws_prefix_end(s, i)]),
    decreases s.len() - i,
{
    if i < s.len() && is_ws(s[i]) {
        lemma_ws_prefix_end(s, i + 1);
    }
}

pub proof fn lemma_ws_suffix_start(s: Seq<char>, j: int)
    requires
        0 <= j <= s.len(),
    ensures
        0 <= ws_suffix_start(s, j) <= j,
        forall|k: int| ws_suffix_start(s, j) <= k < j ==> is_ws(s[k]),
        ws_suffix_start(s, j) > 0 ==> !is_ws(s[ws_suffix_start(s, j) - 1]),
    decreases j,
{
    if j > 0 && is_ws(s[j - 1]) {
        lemma_ws_suffix_start(s, j - 1);
    }
}

/// Whether the character of `text` at `i` is whitespace.
fn is_ws_char_at(text: &str, i: usize) -> (r: bool)
    requires
        i < text@.len(),
    ensures
        r == is_ws(text@[i as int]),
{
    let c = text.get_char(i);
    c == ' ' || c == '\n' || c == '\t' || c == '\r'
}

/// `text` with leading and trailing whitespace removed.
pub fn trim(text: &str) -> (r: String)
    ensures
        r@ == trimmed(text@),
{
    let len = text.unicode_len();
    let mut a: usize = 0;
    while a < len && is_ws_char_at(text, a)
        invariant
            len == text@.len(),
            0 <= a <= len,
            ws_prefix_end(text@, 0) == ws_prefix_end(text@, a as int),
        decreases len - a,
    {
        a += 1;
    }
    assert(ws_prefix_end(text@, 0) == a as int);
    if a == len {
        proof {
            lemma_ws_suffix_start(text@, len as int);
            assert(trimmed(text@) =~= Seq::<char>::empty());
        }
        return String::new();
    }
    let mut b: usize = len;
    while b > 0 && is_ws_char_at(text, b - 1)
        invariant
            len == text@.len(),
            0 <= b <= len,
            ws_suffix_start(text@, len as int) == ws_suffix_start(text@, b as int),
        decreases b,
    {
        b -= 1;
    }
    assert(ws_suffix_start(text@, len as int) == b as int);
    proof {
        lemma_ws_prefix_end(text@, 0);
        lemma_ws_suffix_start(text@, len as int);
        if b <= a {
            // the character at `a` is not whitespace, yet every character in
            // [b, len) is, so `a` must lie below `b`
            assert(is_ws(text@[a as int]));
            assert(false);
        }
    }
    let piece = text.substring_char(a, b);
    let r = String::from_str(piece);
    r
}

/// Strict lexicographic order on the characters of `a` and `b`, compared
/// from position `i` on.
pub open spec fn lex_lt_from(a: Seq<char>, b: Seq<char>, i: int) -> bool
    decreases a.len() - i,
{
    if i < 0 || i >= b.len() {
        false
    } else if i >= a.len() {
        true
    } else if a[i] != b[i] {
        (a[i] as int) < (b[i] as int)
    } else {
        lex_lt_from(a, b, i + 1)
    }
}

/// Strict lexicographic order on character sequences.
pub open spec fn lex_lt(a: Seq<char>, b: Seq<char>) -> bool {
    lex_lt_from(a, b, 0)
}

/// Whether `a` sorts strictly before `b` lexicographically.
pub fn str_lex_lt(a: &str, b: &str) -> (r: bool)
    ensures
        r == lex_lt(a@, b@),
{
    let a_len = a.unicode_len();
    let b_len = b.unicode_len();
    let mut i: usize = 0;
    while i < a_len && i < b_len
        invariant
            a_len == a@.len(),
            b_len == b@.len(),
            0 <= i,
            i <= a_len,
            i <= b_len,
            lex_lt(a@, b@) == lex_lt_from(a@, b@, i as int),
        decreases a_len - i,
    {
        let ca = a.get_char(i);
        let cb = b.get_char(i);
        if ca != cb {
            return (ca as u32) < (cb as u32);
        }
        i += 1;
    }
    a_len < b_len
}

} // verus!
