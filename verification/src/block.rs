//! Block-marker classification.
//!
//! An opening marker reads `{$keyword expr}`, a closing marker `{/keyword}`.
//! The text between the stripped delimiters is matched against a fixed,
//! ordered keyword vocabulary; the first entry that is a literal prefix of
//! the text wins, and the trimmed remainder becomes the expression.

use vstd::prelude::*;
use crate::attrs::view_opt;
use crate::text::{is_prefix, spec_trim, trim_str};

verus! {

/// The fixed keyword vocabulary, in matching order.
pub open spec fn vocab() -> Seq<Seq<char>> {
    seq![
        seq!['i', 'f'],
        seq!['f', 'o', 'r'],
        seq!['t', 'r', 'y'],
        seq!['a', 'w', 'a', 'i', 't'],
        seq!['e', 'l', 'i', 'f'],
        seq!['e', 'l', 's', 'e'],
        seq!['f', 'i', 'n', 'a', 'l', 'l', 'y'],
        seq!['e', 'x', 'c', 'e', 'p', 't'],
        seq!['t', 'h', 'e', 'n'],
        seq!['c', 'a', 't', 'c', 'h'],
        seq!['h', 't', 'm', 'l'],
    ]
}

/// Position after the repeated occurrences of the two-character opener
/// `{` followed by `c1` at the front of `s`, from `i` on.
pub open spec fn strip2_start(s: Seq<char>, c1: char, i: int) -> int
    decreases s.len() - i when 0 <= i <= s.len()
{
    if i + 2 <= s.len() && s[i] == '{' && s[i + 1] == c1 {
        strip2_start(s, c1, i + 2)
    } else {
        i
    }
}

/// Position before the run of trailing `}` characters of `s[..j]`, never
/// descending below `a`.
pub open spec fn strip_rbrace_end(s: Seq<char>, a: int, j: int) -> int
    decreases j - a when 0 <= a <= j <= s.len()
{
    if j > a && s[j - 1] == '}' {
        strip_rbrace_end(s, a, j - 1)
    } else {
        j
    }
}

pub(crate) proof fn lemma_strip2_start_bounds(s: Seq<char>, c1: char, i: int)
    requires
        0 <= i <= s.len(),
    ensures
        i <= strip2_start(s, c1, i) <= s.len(),
    decreases s.len() - i,
{
    if i + 2 <= s.len() && s[i] == '{' && s[i + 1] == c1 {
        lemma_strip2_start_bounds(s, c1, i + 2);
    }
}

/// The marker text with the repeated leading `{c1` and trailing `}`
/// delimiters stripped.
pub open spec fn marker_inner(s: Seq<char>, c1: char) -> Seq<char> {
    let a = strip2_start(s, c1, 0);
    let b = strip_rbrace_end(s, a, s.len() as int);
    s.subrange(a, b)
}

/// Index of the first vocabulary entry, from `i` on, that prefixes `s`;
/// the vocabulary length when none does.
pub open spec fn first_kw(s: Seq<char>, i: int) -> int
    decreases vocab().len() - i when 0 <= i <= vocab().len()
{
    if i >= vocab().len() {
        vocab().len() as int
    } else if is_prefix(vocab()[i], s) {
        i
    } else {
        first_kw(s, i + 1)
    }
}

proof fn lemma_first_kw_props_i(s: Seq<char>, i: int)
    requires
        0 <= i <= vocab().len(),
    ensures
        i <= first_kw(s, i) <= vocab().len(),
        first_kw(s, i) < vocab().len() ==> is_prefix(vocab()[first_kw(s, i)], s),
        forall|j: int| i <= j < first_kw(s, i) ==> !is_prefix(#[trigger] vocab()[j], s),
    decreases vocab().len() - i,
{
    if i < vocab().len() && !is_prefix(vocab()[i], s) {
        lemma_first_kw_props_i(s, i + 1);
    }
}

/// Keyword matching is deterministic and ordered: the match, when there is
/// one, is exactly the first entry of the fixed vocabulary that is a
/// literal prefix of the marker text; no earlier entry prefixes it.
pub proof fn lemma_keyword_match_first(s: Seq<char>)
    ensures
        0 <= first_kw(s, 0) <= vocab().len(),
        first_kw(s, 0) < vocab().len() ==> is_prefix(vocab()[first_kw(s, 0)], s),
        forall|j: int| 0 <= j < first_kw(s, 0) ==> !is_prefix(#[trigger] vocab()[j], s),
{
    lemma_first_kw_props_i(s, 0);
}

/// The keyword and expression of an opening marker, given the inner text.
pub open spec fn open_marker_fields(inner: Seq<char>) -> (Option<Seq<char>>, Option<Seq<char>>) {
    let k = first_kw(inner, 0);
    if k < vocab().len() {
        let kw = vocab()[k];
        let rest = spec_trim(inner.skip(kw.len() as int));
        (Some(kw), if rest.len() == 0 { Option::None } else { Option::Some(rest) })
    } else {
        (Option::None, Option::None)
    }
}

/// The vocabulary entry at `i`, as characters.
fn kw_at(i: usize) -> (r: Vec<char>)
    requires
        i < 11,
    ensures
        r@ == vocab()[i as int],
{
    let v: Vec<char> = if i == 0 {
        vec!['i', 'f']
    } else if i == 1 {
        vec!['f', 'o', 'r']
    } else if i == 2 {
        vec!['t', 'r', 'y']
    } else if i == 3 {
        vec!['a', 'w', 'a', 'i', 't']
    } else if i == 4 {
        vec!['e', 'l', 'i', 'f']
    } else if i == 5 {
        vec!['e', 'l', 's', 'e']
    } else if i == 6 {
        vec!['f', 'i', 'n', 'a', 'l', 'l', 'y']
    } else if i == 7 {
        vec!['e', 'x', 'c', 'e', 'p', 't']
    } else if i == 8 {
        vec!['t', 'h', 'e', 'n']
    } else if i == 9 {
        vec!['c', 'a', 't', 'c', 'h']
    } else {
        vec!['h', 't', 'm', 'l']
    };
    proof {
        assert(v@ =~= vocab()[i as int]);
    }
    v
}

/// Start of the inner text of a marker opened by `{c1`.
fn scan_marker_start(s: &str, c1: char) -> (a: usize)
    ensures
        a == strip2_start(s@, c1, 0),
        0 <= a <= s@.len(),
{
    let n = s.unicode_len();
    let mut a: usize = 0;
    while a < n && a + 1 < n && s.get_char(a) == '{' && s.get_char(a + 1) == c1
        invariant
            0 <= a <= n,
            n == s@.len(),
            strip2_start(s@, c1, 0) == strip2_start(s@, c1, a as int),
        decreases n - a,
    {
        a += 2;
    }
    proof {
        lemma_strip2_start_bounds(s@, c1, a as int);
    }
    a
}

/// End of the inner text of a marker: the trailing `}` run stripped,
/// never below `a`.
fn scan_marker_end(s: &str, a: usize) -> (b: usize)
    requires
        a <= s@.len(),
    ensures
        b == strip_rbrace_end(s@, a as int, s@.len() as int),
        a <= b <= s@.len(),
{
    let n = s.unicode_len();
    let mut b: usize = n;
    while b > a && s.get_char(b - 1) == '}'
        invariant
            a <= b <= n,
            n == s@.len(),
            strip_rbrace_end(s@, a as int, n as int) == strip_rbrace_end(s@, a as int, b as int),
        decreases b,
    {
        b -= 1;
    }
    b
}

/// First vocabulary entry prefixing `s[a..b]`, by index; `None` when none
/// does.
fn match_kw(s: &str, a: usize, b: usize) -> (r: Option<usize>)
    requires
        a <= b <= s@.len(),
    ensures
        ({
            let k = first_kw(s@.subrange(a as int, b as int), 0);
            match r {
                Some(ki) => ki == k && k < vocab().len(),
                None => k == vocab().len(),
            }
        }),
{
    let ghost inner = s@.subrange(a as int, b as int);
    let mut ki: usize = 0;
    while ki < 11
        invariant
            0 <= ki <= 11,
            a <= b <= s@.len(),
            inner == s@.subrange(a as int, b as int),
            vocab().len() == 11,
            first_kw(inner, 0) == first_kw(inner, ki as int),
        decreases 11 - ki,
    {
        let kw = kw_at(ki);
        if crate::text::has_prefix_at(s, a, b, &kw) {
            return Some(ki);
        }
        ki += 1;
    }
    None
}

/// The keyword and expression of an opening block marker `{$keyword expr}`,
/// given the marker's full text.
pub fn open_marker_parts(s: &str) -> (r: (Option<String>, Option<String>))
    ensures
        view_opt(r.0) == open_marker_fields(marker_inner(s@, '$')).0,
        view_opt(r.1) == open_marker_fields(marker_inner(s@, '$')).1,
{
    let a = scan_marker_start(s, '$');
    let b = scan_marker_end(s, a);
    let ghost inner = marker_inner(s@, '$');
    proof {
        assert(inner == s@.subrange(a as int, b as int));
    }
    match match_kw(s, a, b) {
        Some(ki) => {
            let kw = kw_at(ki);
            let kl = kw.len();
            proof {
                lemma_keyword_match_first(inner);
                assert(is_prefix(vocab()[ki as int], inner));
            }
            let kw_s = s.substring_char(a, a + kl);
            proof {
                assert(kw_s@ =~= inner.subrange(0, kl as int));
            }
            let rest = trim_str(s.substring_char(a + kl, b));
            proof {
                assert(s@.subrange(a + kl, b as int) =~= inner.skip(kl as int));
            }
            let ex = if rest.unicode_len() == 0 {
                None
            } else {
                Some(rest.to_owned())
            };
            (Some(kw_s.to_owned()), ex)
        },
        None => (None, None),
    }
}

/// The recorded keyword of a closing block marker `{/keyword}`: the inner
/// text with a leading `/` marker.
pub fn close_marker_keyword(s: &str) -> (r: String)
    ensures
        r@ == seq!['/'] + marker_inner(s@, '/'),
{
    let a = scan_marker_start(s, '/');
    let b = scan_marker_end(s, a);
    let slash = "/";
    proof {
        reveal_strlit("/");
        assert(slash@ =~= seq!['/']);
    }
    let r = slash.to_owned().concat(s.substring_char(a, b));
    proof {
        assert(r@ =~= seq!['/'] + marker_inner(s@, '/'));
    }
    r
}

} // verus!
