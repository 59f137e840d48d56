//! Text scanning: whitespace trimming, word runs and prefix tests over
//! character sequences, with executable counterparts on `&str`.

use vstd::prelude::*;
use crate::chars::{char_is_alnum, char_is_ws, is_word_char, uni_ws};

verus! {

/// First index `j >= i` whose character is not whitespace; the length
/// when all of the rest is whitespace.
pub open spec fn ws_run_end(s: Seq<char>, i: int) -> int
    decreases s.len() - i when 0 <= i <= s.len()
{
    if i >= s.len() {
        s.len() as int
    } else if uni_ws(s[i]) {
        ws_run_end(s, i + 1)
    } else {
        i
    }
}

/// Smallest `k <= j` such that the characters in `[k, j)` are all
/// whitespace; `j` itself when `s[j-1]` is not whitespace.
pub open spec fn ws_run_back(s: Seq<char>, j: int) -> int
    decreases j when 0 <= j <= s.len()
{
    if j <= 0 {
        0
    } else if uni_ws(s[j - 1]) {
        ws_run_back(s, j - 1)
    } else {
        j
    }
}

/// `s` with leading and trailing whitespace removed.
pub open spec fn spec_trim(s: Seq<char>) -> Seq<char> {
    let a = ws_run_end(s, 0);
    let b = ws_run_back(s, s.len() as int);
    if a <= b {
        s.subrange(a, b)
    } else {
        Seq::empty()
    }
}

/// First index `j >= i` whose character is not a word character; the
/// length when the whole rest is word characters.
pub open spec fn word_run_end(s: Seq<char>, i: int) -> int
    decreases s.len() - i when 0 <= i <= s.len()
{
    if i >= s.len() {
        s.len() as int
    } else if is_word_char(s[i]) {
        word_run_end(s, i + 1)
    } else {
        i
    }
}

/// `p` is a prefix of `s`.
pub open spec fn is_prefix(p: Seq<char>, s: Seq<char>) -> bool {
    p.len() <= s.len() && s.subrange(0, p.len() as int) == p
}

proof fn lemma_ws_run_end_bounds(s: Seq<char>, i: int)
    requires
        0 <= i <= s.len(),
    ensures
        i <= ws_run_end(s, i) <= s.len(),
    decreases s.len() - i,
{
    if i < s.len() && uni_ws(s[i]) {
        lemma_ws_run_end_bounds(s, i + 1);
    }
}

proof fn lemma_ws_run_back_bounds(s: Seq<char>, j: int)
    requires
        0 <= j <= s.len(),
    ensures
        0 <= ws_run_back(s, j) <= j,
    decreases j,
{
    if j > 0 && uni_ws(s[j - 1]) {
        lemma_ws_run_back_bounds(s, j - 1);
    }
}

proof fn lemma_word_run_end_bounds(s: Seq<char>, i: int)
    requires
        0 <= i <= s.len(),
    ensures
        i <= word_run_end(s, i) <= s.len(),
    decreases s.len() - i,
{
    if i < s.len() && is_word_char(s[i]) {
        lemma_word_run_end_bounds(s, i + 1);
    }
}

/// What [`ws_run_end`] returns: a position past a whitespace run, at the
/// first non-whitespace character or the end.
pub(crate) proof fn lemma_ws_run_end_props(s: Seq<char>, i: int)
    requires
        0 <= i <= s.len(),
    ensures
        ({
            let e = ws_run_end(s, i);
            &&& i <= e <= s.len()
            &&& forall|k: int| i <= k < e ==> uni_ws(#[trigger] s[k])
            &&& e < s.len() ==> !uni_ws(s[e])
        }),
    decreases s.len() - i,
{
    if i < s.len() && uni_ws(s[i]) {
        lemma_ws_run_end_props(s, i + 1);
    }
}

/// What [`ws_run_back`] returns: the position before which the trailing
/// whitespace run of `s[..j]` starts.
pub(crate) proof fn lemma_ws_run_back_props(s: Seq<char>, j: int)
    requires
        0 <= j <= s.len(),
    ensures
        ({
            let r = ws_run_back(s, j);
            &&& 0 <= r <= j
            &&& forall|k: int| r <= k < j ==> uni_ws(#[trigger] s[k])
            &&& r > 0 ==> !uni_ws(s[r - 1])
        }),
    decreases j,
{
    if j > 0 && uni_ws(s[j - 1]) {
        lemma_ws_run_back_props(s, j - 1);
    }
}

/// [`ws_run_back`] never descends past a non-whitespace character.
pub(crate) proof fn lemma_ws_run_back_lower(s: Seq<char>, m: int, j: int)
    requires
        1 <= m <= j <= s.len(),
        !uni_ws(s[m - 1]),
    ensures
        ws_run_back(s, j) >= m,
    decreases j - m,
{
    if j > m && uni_ws(s[j - 1]) {
        lemma_ws_run_back_lower(s, m, j - 1);
    }
}

/// [`ws_run_back`] only reads the characters below `j`.
pub(crate) proof fn lemma_ws_run_back_skip(s: Seq<char>, j: int, l: int)
    requires
        0 <= j <= l <= s.len(),
        forall|i: int| j <= i < l ==> uni_ws(#[trigger] s[i]),
    ensures
        ws_run_back(s, l) == ws_run_back(s, j),
    decreases l - j,
{
    if l > j {
        assert(uni_ws(s[l - 1]));
        lemma_ws_run_back_skip(s, j, l - 1);
    }
}

proof fn lemma_ws_run_end_prefix_i(s: Seq<char>, c: int, i: int)
    requires
        0 <= i <= c <= s.len(),
        ws_run_end(s, i) < c,
    ensures
        ws_run_end(s.take(c), i) == ws_run_end(s, i),
    decreases c - i,
{
    lemma_ws_run_end_props(s, i);
    if i < s.len() && uni_ws(s[i]) {
        assert(s.take(c)[i] == s[i]);
        lemma_ws_run_end_prefix_i(s, c, i + 1);
    } else {
        assert(s.take(c)[i] == s[i]);
    }
}

/// Trimming is unchanged when a string is cut right before its trailing
/// whitespace run.
pub(crate) proof fn lemma_trim_drop_ws_tail(s: Seq<char>, j: int)
    requires
        0 <= j <= s.len(),
        forall|i: int| j <= i < s.len() ==> uni_ws(#[trigger] s[i]),
        j == 0 || !uni_ws(s[j - 1]),
    ensures
        spec_trim(s.take(j)) == spec_trim(s),
{
    let t = s.take(j);
    lemma_ws_run_back_skip(s, j, s.len() as int);
    if j == 0 {
        assert(t.len() == 0);
        assert(ws_run_end(t, 0) == 0);
        assert(ws_run_back(t, 0) == 0);
        assert(spec_trim(t) =~= Seq::<char>::empty());
        assert(ws_run_back(s, s.len() as int) == 0);
        if s.len() == 0 {
            assert(spec_trim(s) =~= Seq::<char>::empty());
        } else {
            lemma_ws_run_end_props(s, 0);
            assert(ws_run_end(s, 0) == s.len());
            assert(spec_trim(s) =~= Seq::<char>::empty());
        }
    } else {
        assert(ws_run_back(s, j) == j);
        assert(t.len() == j);
        assert(t[j - 1] == s[j - 1]);
        assert(ws_run_back(t, j) == j);
        lemma_ws_run_end_props(s, 0);
        let e = ws_run_end(s, 0);
        assert(e < j) by {
            if e >= j {
                assert(uni_ws(s[j - 1]));
            }
        }
        lemma_ws_run_end_prefix_i(s, j, 0);
        assert(spec_trim(t) =~= t.subrange(e, j));
        assert(spec_trim(s) =~= s.subrange(e, j));
        assert(t.subrange(e, j) =~= s.subrange(e, j));
    }
}

proof fn lemma_word_run_stops_i(s: Seq<char>, k: int, i: int)
    requires
        0 <= i <= k <= s.len(),
        forall|j: int| 0 <= j < k ==> is_word_char(#[trigger] s[j]),
        k < s.len() ==> !is_word_char(s[k]),
    ensures
        word_run_end(s, i) == k,
    decreases k - i,
{
    if i < k {
        assert(is_word_char(s[i]));
        lemma_word_run_stops_i(s, k, i + 1);
    }
}

/// [`word_run_end`] stops exactly where the word characters stop.
pub(crate) proof fn lemma_word_run_stops(s: Seq<char>, k: int)
    requires
        0 <= k <= s.len(),
        forall|j: int| 0 <= j < k ==> is_word_char(#[trigger] s[j]),
        k < s.len() ==> !is_word_char(s[k]),
    ensures
        word_run_end(s, 0) == k,
{
    lemma_word_run_stops_i(s, k, 0);
}

/// First non-whitespace position of `s` at or after `from`.
pub fn scan_ws_end(s: &str, from: usize) -> (r: usize)
    requires
        from <= s@.len(),
    ensures
        r == ws_run_end(s@, from as int),
        from <= r <= s@.len(),
{
    let n = s.unicode_len();
    let mut i: usize = from;
    while i < n
        invariant
            from <= i <= n,
            n == s@.len(),
            ws_run_end(s@, from as int) == ws_run_end(s@, i as int),
        decreases n - i,
    {
        let c = s.get_char(i);
        if !char_is_ws(c) {
            proof {
                lemma_ws_run_end_bounds(s@, i as int);
            }
            return i;
        }
        i += 1;
    }
    proof {
        lemma_ws_run_end_bounds(s@, from as int);
    }
    i
}

/// Position ending the trailing whitespace run of `s[..to]`.
pub fn scan_ws_back(s: &str, to: usize) -> (r: usize)
    requires
        to <= s@.len(),
    ensures
        r == ws_run_back(s@, to as int),
        r <= to,
{
    let mut j: usize = to;
    while j > 0
        invariant
            0 <= j <= to <= s@.len(),
            ws_run_back(s@, to as int) == ws_run_back(s@, j as int),
        decreases j,
    {
        let c = s.get_char(j - 1);
        if !char_is_ws(c) {
            proof {
                lemma_ws_run_back_bounds(s@, j as int);
            }
            return j;
        }
        j -= 1;
    }
    j
}

/// First position of `s` at or after `from` holding a non-word character.
pub fn scan_word_end(s: &str, from: usize) -> (r: usize)
    requires
        from <= s@.len(),
    ensures
        r == word_run_end(s@, from as int),
        from <= r <= s@.len(),
{
    let n = s.unicode_len();
    let mut i: usize = from;
    while i < n
        invariant
            from <= i <= n,
            n == s@.len(),
            word_run_end(s@, from as int) == word_run_end(s@, i as int),
        decreases n - i,
    {
        let c = s.get_char(i);
        let alnum = char_is_alnum(c);
        if !(alnum || c == '_') {
            proof {
                lemma_word_run_end_bounds(s@, i as int);
            }
            return i;
        }
        i += 1;
    }
    proof {
        lemma_word_run_end_bounds(s@, from as int);
    }
    i
}

/// `s` with leading and trailing whitespace removed.
pub fn trim_str(s: &str) -> (r: &str)
    ensures
        r@ == spec_trim(s@),
{
    let n = s.unicode_len();
    let a = scan_ws_end(s, 0);
    let b = scan_ws_back(s, n);
    if a <= b {
        s.substring_char(a, b)
    } else {
        let r = s.substring_char(0, 0);
        proof {
            assert(r@ =~= Seq::<char>::empty());
        }
        r
    }
}

/// Whether the characters of `p` are a prefix of `s[from..to]`.
pub fn has_prefix_at(s: &str, from: usize, to: usize, p: &Vec<char>) -> (r: bool)
    requires
        from <= to <= s@.len(),
    ensures
        r == is_prefix(p@, s@.subrange(from as int, to as int)),
{
    let m = p.len();
    if m > to - from {
        return false;
    }
    let ghost sub = s@.subrange(from as int, to as int);
    let mut j: usize = 0;
    while j < m
        invariant
            0 <= j <= m,
            m == p@.len(),
            m <= to - from,
            from <= to <= s@.len(),
            sub == s@.subrange(from as int, to as int),
            forall|k: int| 0 <= k < j ==> #[trigger] sub[k] == p@[k],
        decreases m - j,
    {
        let c = s.get_char(from + j);
        assert(c == sub[j as int]);
        if c != p[j] {
            assert(!is_prefix(p@, sub)) by {
                assert(sub[j as int] != p@[j as int]);
                if is_prefix(p@, sub) {
                    assert(sub.subrange(0, m as int)[j as int] == p@[j as int]);
                }
            }
            return false;
        }
        j += 1;
    }
    proof {
        assert(sub.subrange(0, m as int) =~= p@);
    }
    true
}

} // verus!
