//! Attributes.
//!
//! One attribute CST node yields one entry: a plain `name`/`value` pair
//! with optional quote stripping, a boolean attribute with no value, a
//! shorthand `{name}` under the reserved key `__pw_sh_<name>`, or a spread
//! `{**expr}` under the reserved key `__pywire_spread__`. An element's
//! entries form an ordered map in which a later entry with an existing key
//! overwrites the earlier value in place.

use vstd::prelude::*;
use crate::cst::{first_field_idx, CstField, CstKind, CstNode};
use crate::text::{spec_trim, trim_str};

verus! {

/// Mathematical model of one attribute entry.
pub struct AttrModel {
    pub key: Seq<char>,
    pub value: Option<Seq<char>>,
}

/// One attribute entry: its key and its optional value.
#[derive(Clone, Debug)]
pub struct AttrEntry {
    pub key: String,
    pub value: Option<String>,
}

/// The view of an optional owned string.
pub open spec fn view_opt(o: Option<String>) -> Option<Seq<char>> {
    match o {
        Some(s) => Some(s@),
        None => None,
    }
}

impl View for AttrEntry {
    type V = AttrModel;

    open spec fn view(&self) -> AttrModel {
        AttrModel { key: self.key@, value: view_opt(self.value) }
    }
}

/// The reserved key under which a spread attribute is stored.
pub open spec fn spread_key() -> Seq<char> {
    seq!['_', '_', 'p', 'y', 'w', 'i', 'r', 'e', '_', 's', 'p', 'r', 'e', 'a', 'd', '_', '_']
}

/// The reserved key prefix under which a shorthand attribute is stored.
pub open spec fn sh_prefix() -> Seq<char> {
    seq!['_', '_', 'p', 'w', '_', 's', 'h', '_']
}

/// Index of the first entry of `m`, from `i` on, whose key is `k`; the
/// length when there is none.
pub open spec fn key_idx(m: Seq<AttrModel>, k: Seq<char>, i: int) -> int
    decreases m.len() - i when 0 <= i <= m.len()
{
    if i >= m.len() {
        m.len() as int
    } else if m[i].key == k {
        i
    } else {
        key_idx(m, k, i + 1)
    }
}

proof fn lemma_key_idx_props_i(m: Seq<AttrModel>, k: Seq<char>, i: int)
    requires
        0 <= i <= m.len(),
    ensures
        i <= key_idx(m, k, i) <= m.len(),
        key_idx(m, k, i) < m.len() ==> m[key_idx(m, k, i)].key == k,
        forall|j: int| i <= j < key_idx(m, k, i) ==> (#[trigger] m[j]).key != k,
    decreases m.len() - i,
{
    if i < m.len() && m[i].key != k {
        lemma_key_idx_props_i(m, k, i + 1);
    }
}

/// [`key_idx`] finds the first entry with the key, and nothing earlier.
pub(crate) proof fn lemma_key_idx_props(m: Seq<AttrModel>, k: Seq<char>)
    ensures
        0 <= key_idx(m, k, 0) <= m.len(),
        key_idx(m, k, 0) < m.len() ==> m[key_idx(m, k, 0)].key == k,
        forall|j: int| 0 <= j < key_idx(m, k, 0) ==> (#[trigger] m[j]).key != k,
{
    lemma_key_idx_props_i(m, k, 0);
}

/// Inserting `e`: the first entry with the same key is overwritten in
/// place; otherwise `e` is appended.
pub open spec fn spec_insert(m: Seq<AttrModel>, e: AttrModel) -> Seq<AttrModel> {
    let i = key_idx(m, e.key, 0);
    if i < m.len() {
        m.update(i, e)
    } else {
        m.push(e)
    }
}

/// The value stored under `k`: `None` when the key is absent.
pub open spec fn spec_lookup(m: Seq<AttrModel>, k: Seq<char>) -> Option<Option<Seq<char>>> {
    let i = key_idx(m, k, 0);
    if i < m.len() {
        Some(m[i].value)
    } else {
        None
    }
}

/// All keys of `m` are distinct.
pub open spec fn keys_distinct(m: Seq<AttrModel>) -> bool {
    forall|i: int, j: int| 0 <= i < j < m.len() ==> (#[trigger] m[i]).key != (#[trigger] m[j]).key
}

/// Insertion keeps the keys distinct and stores the new value under the
/// entry's key. With distinct keys, at most one entry per key — in
/// particular at most one spread entry — can ever exist.
pub proof fn lemma_insert_distinct(m: Seq<AttrModel>, e: AttrModel)
    requires
        keys_distinct(m),
    ensures
        keys_distinct(spec_insert(m, e)),
        spec_lookup(spec_insert(m, e), e.key) == Some(e.value),
{
    lemma_key_idx_props(m, e.key);
    let i = key_idx(m, e.key, 0);
    let m2 = spec_insert(m, e);
    assert forall|p: int, q: int| 0 <= p < q < m2.len() implies (#[trigger] m2[p]).key != (
    #[trigger] m2[q]).key by {
        if i < m.len() {
            assert(m2 == m.update(i, e));
            if p != i && q != i {
                assert(m2[p] == m[p] && m2[q] == m[q]);
            } else if p == i {
                assert(m2[q] == m[q]);
                if m[q].key == e.key {
                    assert(m[i].key == e.key);
                }
            } else {
                assert(m2[p] == m[p]);
            }
        } else {
            if q < m.len() {
                assert(m2[p] == m[p] && m2[q] == m[q]);
            } else {
                assert(m2[q] == e && m2[p] == m[p]);
            }
        }
    }
    lemma_key_idx_props(m2, e.key);
    let i2 = key_idx(m2, e.key, 0);
    assert(i2 < m2.len() && m2[i2] == e) by {
        if i < m.len() {
            assert(m2[i].key == e.key);
            assert(i2 <= i);
            if i2 < i {
                assert(m[i2].key != e.key);
                assert(m2[i2] == m[i2]);
            }
        } else {
            assert(m2[m.len() as int].key == e.key);
            assert(i2 <= m.len());
            if i2 < m.len() {
                assert(m[i2].key != e.key);
                assert(m2[i2] == m[i2]);
            }
        }
    }
}

/// An ordered attribute map: entries in insertion order, keys unique.
#[derive(Clone, Debug)]
pub struct AttrMap {
    entries: Vec<AttrEntry>,
}

impl View for AttrMap {
    type V = Seq<AttrModel>;

    closed spec fn view(&self) -> Seq<AttrModel> {
        Seq::new(self.entries@.len(), |i: int| self.entries@[i]@)
    }
}

impl AttrMap {
    /// The empty map.
    pub fn new() -> (r: AttrMap)
        ensures
            r@ == Seq::<AttrModel>::empty(),
    {
        let r = AttrMap { entries: Vec::new() };
        proof {
            assert(r@ =~= Seq::<AttrModel>::empty());
        }
        r
    }

    /// Number of entries.
    pub fn len(&self) -> (n: usize)
        ensures
            n == self@.len(),
    {
        self.entries.len()
    }

    /// The key of the entry at position `i`.
    pub fn key_at(&self, i: usize) -> (r: &String)
        requires
            i < self@.len(),
        ensures
            r@ == self@[i as int].key,
    {
        &self.entries[i].key
    }

    /// The value of the entry at position `i`.
    pub fn value_at(&self, i: usize) -> (r: &Option<String>)
        requires
            i < self@.len(),
        ensures
            view_opt(*r) == self@[i as int].value,
    {
        &self.entries[i].value
    }

    /// Inserts `key`/`value`, overwriting in place any entry of that key.
    pub fn insert(&mut self, key: String, value: Option<String>)
        ensures
            final(self)@ == spec_insert(
                old(self)@,
                AttrModel { key: key@, value: view_opt(value) },
            ),
    {
        let ghost m = self@;
        let ghost e = AttrModel { key: key@, value: view_opt(value) };
        let n = self.entries.len();
        let mut i: usize = 0;
        while i < n
            invariant
                0 <= i <= n,
                n == self.entries@.len(),
                m == self@,
                self@ == old(self)@,
                e == (AttrModel { key: key@, value: view_opt(value) }),
                key_idx(m, key@, 0) == key_idx(m, key@, i as int),
            decreases n - i,
        {
            if self.entries[i].key == key {
                proof {
                    assert(m[i as int].key == key@);
                    lemma_key_idx_props_i(m, key@, i as int);
                }
                self.entries[i] = AttrEntry { key, value };
                proof {
                    assert(self@ =~= spec_insert(m, e));
                }
                return ;
            }
            i += 1;
        }
        self.entries.push(AttrEntry { key, value });
        proof {
            assert(self@ =~= spec_insert(m, e));
        }
    }

    /// The value under `key`: `None` when the key is absent, `Some` of the
    /// stored optional value when present.
    pub fn get<'a>(&'a self, key: &String) -> (r: Option<&'a Option<String>>)
        ensures
            match r {
                Some(v) => spec_lookup(self@, key@) == Some(view_opt(*v)),
                None => spec_lookup(self@, key@) == Option::<Option<Seq<char>>>::None,
            },
    {
        let n = self.entries.len();
        let mut i: usize = 0;
        while i < n
            invariant
                0 <= i <= n,
                n == self.entries@.len(),
                key_idx(self@, key@, 0) == key_idx(self@, key@, i as int),
            decreases n - i,
        {
            if self.entries[i].key == *key {
                proof {
                    assert(self@[i as int].key == key@);
                    lemma_key_idx_props_i(self@, key@, i as int);
                }
                return Some(&self.entries[i].value);
            }
            i += 1;
        }
        None
    }
}

/// Index of the first child, from `i` on, that is a shorthand or spread
/// token; the child count when there is none.
pub open spec fn first_shorthand_idx(cs: Seq<CstNode>, i: int) -> int
    decreases cs.len() - i when 0 <= i <= cs.len()
{
    if i >= cs.len() {
        cs.len() as int
    } else if cs[i].kind == CstKind::AttributeShorthand || cs[i].kind == CstKind::SpreadShorthand {
        i
    } else {
        first_shorthand_idx(cs, i + 1)
    }
}

/// The text between the braces of a shorthand token, empty when the token
/// is shorter than a brace pair.
pub open spec fn inner_body(t: Seq<char>) -> Seq<char> {
    if t.len() >= 2 {
        t.subrange(1, t.len() - 1)
    } else {
        Seq::empty()
    }
}

/// Whether the token text opens as a spread, `{**`.
pub open spec fn starts_spread(t: Seq<char>) -> bool {
    t.len() >= 3 && t[0] == '{' && t[1] == '*' && t[2] == '*'
}

/// One matching pair of surrounding quotes stripped; the text unchanged
/// when the ends do not match.
pub open spec fn strip_quotes(t: Seq<char>) -> Seq<char> {
    if t.len() >= 2 && ((t[0] == '"' && t.last() == '"') || (t[0] == '\'' && t.last() == '\'')) {
        t.subrange(1, t.len() - 1)
    } else {
        t
    }
}

/// The entry one attribute CST node contributes to its element's map.
pub open spec fn attr_entry_model(src: Seq<char>, attr: CstNode) -> AttrModel {
    let cs = attr.children@;
    let si = first_shorthand_idx(cs, 0);
    if si < cs.len() {
        let t = cs[si].text(src);
        if cs[si].kind == CstKind::SpreadShorthand || starts_spread(t) {
            AttrModel { key: spread_key(), value: Some(t) }
        } else {
            AttrModel { key: sh_prefix() + spec_trim(inner_body(t)), value: Some(t) }
        }
    } else {
        let ni = first_field_idx(cs, CstField::Name, 0);
        let vi = first_field_idx(cs, CstField::Value, 0);
        AttrModel {
            key: if ni < cs.len() {
                cs[ni].text(src)
            } else {
                Seq::empty()
            },
            value: if vi < cs.len() {
                Some(strip_quotes(cs[vi].text(src)))
            } else {
                None
            },
        }
    }
}

/// A well-formed quoted value loses exactly its surrounding quotes: for
/// either quote character, `q v q` parses to `v`.
pub proof fn lemma_value_quote_strip(v: Seq<char>, q: char)
    ensures
        (q == '"' || q == '\'') ==> strip_quotes(seq![q] + v + seq![q]) == v,
{
    if q == '"' || q == '\'' {
        let t = seq![q] + v + seq![q];
        assert(t.len() >= 2 && t[0] == q && t.last() == q);
        assert(t.subrange(1, t.len() - 1) =~= v);
    }
}

/// Quotes are stripped only when both ends match the same quote
/// character; any other value text is kept verbatim.
pub proof fn lemma_value_unquoted(t: Seq<char>)
    ensures
        (t.len() < 2 || !((t[0] == '"' && t.last() == '"') || (t[0] == '\'' && t.last() == '\'')))
            ==> strip_quotes(t) == t,
{
}

proof fn lemma_no_shorthand_idx(cs: Seq<CstNode>, i: int)
    requires
        0 <= i <= cs.len(),
        forall|k: int|
            0 <= k < cs.len() ==> (#[trigger] cs[k]).kind != CstKind::AttributeShorthand
                && cs[k].kind != CstKind::SpreadShorthand,
    ensures
        first_shorthand_idx(cs, i) == cs.len(),
    decreases cs.len() - i,
{
    if i < cs.len() {
        lemma_no_shorthand_idx(cs, i + 1);
    }
}

/// A plain attribute — one without a shorthand or spread token among its
/// children — contributes its name-field text as key and its value-field
/// text, quote-stripped, as value; with no value field the value is
/// absent, and with no name field the key is empty.
pub proof fn lemma_plain_attr_entry(src: Seq<char>, attr: CstNode)
    requires
        forall|k: int|
            0 <= k < attr.children@.len() ==> (#[trigger] attr.children@[k]).kind
                != CstKind::AttributeShorthand && attr.children@[k].kind
                != CstKind::SpreadShorthand,
    ensures
        ({
            let cs = attr.children@;
            let ni = first_field_idx(cs, CstField::Name, 0);
            let vi = first_field_idx(cs, CstField::Value, 0);
            attr_entry_model(src, attr) == (AttrModel {
                key: if ni < cs.len() {
                    cs[ni].text(src)
                } else {
                    Seq::empty()
                },
                value: if vi < cs.len() {
                    Some(strip_quotes(cs[vi].text(src)))
                } else {
                    None
                },
            })
        }),
{
    lemma_no_shorthand_idx(attr.children@, 0);
}

/// A spread attribute is normalized: whether the grammar tagged the token
/// as shorthand or as spread, a token text opening with `{**` lands under
/// the reserved spread key, with the full token text as its value.
pub proof fn lemma_spread_normalized(src: Seq<char>, a1: CstNode, a2: CstNode)
    ensures
        ({
            let s1 = first_shorthand_idx(a1.children@, 0);
            let s2 = first_shorthand_idx(a2.children@, 0);
            (s1 < a1.children@.len() && s2 < a2.children@.len()
                && starts_spread(a1.children@[s1].text(src)) && a1.children@[s1].text(src)
                == a2.children@[s2].text(src)) ==> (attr_entry_model(src, a1) == attr_entry_model(
                src,
                a2,
            ) && attr_entry_model(src, a1).key == spread_key())
        }),
{
}

/// Parses one attribute CST node into its entry.
pub fn attr_parts(source: &str, attr: &CstNode) -> (r: AttrEntry)
    requires
        attr.wf(source@.len()),
    ensures
        r@ == attr_entry_model(source@, *attr),
{
    let ghost cs = attr.children@;
    let n = attr.children.len();
    let mut i: usize = 0;
    while i < n
        invariant
            0 <= i <= n,
            n == cs.len(),
            cs == attr.children@,
            attr.wf(source@.len()),
            first_shorthand_idx(cs, 0) == first_shorthand_idx(cs, i as int),
        decreases n - i,
    {
        let ck = attr.children[i].kind;
        if matches!(ck, CstKind::AttributeShorthand) || matches!(ck, CstKind::SpreadShorthand) {
            proof {
                assert(first_shorthand_idx(cs, i as int) == i);
            }
            let c = &attr.children[i];
            assert(c.wf(source@.len()));
            let t = source.substring_char(c.start, c.end);
            let tl = t.unicode_len();
            let is_spread = matches!(ck, CstKind::SpreadShorthand) || (tl >= 3 && t.get_char(0)
                == '{' && t.get_char(1) == '*' && t.get_char(2) == '*');
            if is_spread {
                let key = spread_key_string();
                return AttrEntry { key, value: Some(t.to_owned()) };
            } else {
                let inner = if tl >= 2 {
                    t.substring_char(1, tl - 1)
                } else {
                    t.substring_char(0, 0)
                };
                proof {
                    assert(inner@ =~= inner_body(t@));
                }
                let trimmed = trim_str(inner);
                let key = sh_prefix_string().concat(trimmed);
                proof {
                    assert(key@ == sh_prefix() + spec_trim(inner_body(c.text(source@))));
                }
                return AttrEntry { key, value: Some(t.to_owned()) };
            }
        }
        i += 1;
    }
    let name = match crate::cst::child_by_field(attr, CstField::Name) {
        Some(nc) => {
            proof {
                let k = first_field_idx(attr.children@, CstField::Name, 0);
                assert(attr.children@[k].wf(source@.len()));
            }
            source.substring_char(nc.start, nc.end).to_owned()
        },
        None => String::new(),
    };
    let value = match crate::cst::child_by_field(attr, CstField::Value) {
        Some(vc) => {
            proof {
                let k = first_field_idx(attr.children@, CstField::Value, 0);
                assert(attr.children@[k].wf(source@.len()));
            }
            let t = source.substring_char(vc.start, vc.end);
            let tl = t.unicode_len();
            let stripped = if tl >= 2 {
                let c0 = t.get_char(0);
                let cl = t.get_char(tl - 1);
                if (c0 == '"' && cl == '"') || (c0 == '\'' && cl == '\'') {
                    let s = t.substring_char(1, tl - 1);
                    proof {
                        assert(s@ =~= strip_quotes(t@));
                    }
                    s
                } else {
                    t
                }
            } else {
                t
            };
            Some(stripped.to_owned())
        },
        None => None,
    };
    AttrEntry { key: name, value }
}

/// The reserved spread key, as an owned string.
pub fn spread_key_string() -> (r: String)
    ensures
        r@ == spread_key(),
{
    let s = "__pywire_spread__";
    proof {
        reveal_strlit("__pywire_spread__");
        assert(s@ =~= spread_key());
    }
    s.to_owned()
}

/// The reserved shorthand key prefix, as an owned string.
pub fn sh_prefix_string() -> (r: String)
    ensures
        r@ == sh_prefix(),
{
    let s = "__pw_sh_";
    proof {
        reveal_strlit("__pw_sh_");
        assert(s@ =~= sh_prefix());
    }
    s.to_owned()
}

} // verus!
