//! The node tree builder.
//!
//! Maps one template-relevant CST node — an element, a block marker, an
//! interpolation, a text-like token or an error node — to a typed node,
//! recursing through an element's children. Script and style elements get
//! a single synthetic raw text child covering the source between the
//! opening tag's `>` and the matching closing tag.

use vstd::prelude::*;
use crate::attrs::{
    attr_entry_model, attr_parts, spec_insert, view_opt, AttrMap, AttrModel,
};
use crate::block::{close_marker_keyword, marker_inner, open_marker_fields, open_marker_parts};
use crate::cst::{
    child_allowed, child_by_field, first_field_idx, spec_child_allowed, spec_is_element, CstField,
    CstKind, CstNode,
};

verus! {

/// Mathematical model of one produced node.
#[verifier::ext_equal]
pub struct NodeModel {
    pub tag: Option<Seq<char>>,
    pub is_block: bool,
    pub block_keyword: Option<Seq<char>>,
    pub text_content: Option<Seq<char>>,
    pub expression: Option<Seq<char>>,
    pub attributes: Seq<AttrModel>,
    pub children: Seq<NodeModel>,
    pub line: int,
    pub column: int,
    pub is_raw: bool,
}

/// A node with every field unset, at the given position.
pub open spec fn blank_model(line: int, column: int) -> NodeModel {
    NodeModel {
        tag: None,
        is_block: false,
        block_keyword: None,
        text_content: None,
        expression: None,
        attributes: Seq::empty(),
        children: Seq::empty(),
        line,
        column,
        is_raw: false,
    }
}

/// The synthetic raw text child of a script or style element.
pub open spec fn raw_child_model(t: Seq<char>, line: int, column: int) -> NodeModel {
    NodeModel { text_content: Some(t), is_raw: true, ..blank_model(line, column) }
}

/// State of the raw-region scan over an element's direct children.
#[verifier::ext_equal]
pub struct RawScan {
    pub found: bool,
    pub start: int,
    pub end: int,
}

/// One linear pass over the first `i` children: the region starts after
/// the last `>` token and ends at the last closing-tag token.
pub open spec fn raw_scan(cs: Seq<CstNode>, i: int) -> RawScan
    decreases i,
{
    if i <= 0 {
        RawScan { found: false, start: 0, end: 0 }
    } else {
        let p = raw_scan(cs, i - 1);
        let c = cs[i - 1];
        if c.kind == CstKind::TagClose {
            RawScan { found: true, start: c.end as int, end: p.end }
        } else if c.kind == CstKind::ScriptClose || c.kind == CstKind::StyleClose {
            RawScan { found: p.found, start: p.start, end: c.start as int }
        } else {
            p
        }
    }
}

/// The raw region's text: present only when a `>` was seen, the region
/// does not run backwards, and it is non-empty.
pub open spec fn raw_text(src: Seq<char>, n: CstNode) -> Option<Seq<char>> {
    let r = raw_scan(n.children@, n.children@.len() as int);
    if r.found && r.end >= r.start {
        let t = src.subrange(r.start, r.end);
        if t.len() > 0 {
            Some(t)
        } else {
            None
        }
    } else {
        None
    }
}

/// The element's tag: a `name` field child's text; else a `start_tag`
/// field child's text with its `<` stripped; else the literal kind of the
/// two raw elements; else none.
pub open spec fn tag_of(src: Seq<char>, n: CstNode) -> Option<Seq<char>> {
    let cs = n.children@;
    let ni = first_field_idx(cs, CstField::Name, 0);
    let sti = first_field_idx(cs, CstField::StartTag, 0);
    if ni < cs.len() {
        Some(cs[ni].text(src))
    } else if sti < cs.len() {
        let t = cs[sti].text(src);
        if t.len() >= 1 && t[0] == '<' {
            Some(t.skip(1))
        } else {
            None
        }
    } else if n.kind == CstKind::ScriptTag {
        Some(seq!['s', 'c', 'r', 'i', 'p', 't'])
    } else if n.kind == CstKind::StyleTag {
        Some(seq!['s', 't', 'y', 'l', 'e'])
    } else {
        None
    }
}

/// The attribute map an element accumulates over its first `i` children,
/// later entries overwriting earlier ones of the same key.
pub open spec fn attrs_fold(src: Seq<char>, cs: Seq<CstNode>, i: int) -> Seq<AttrModel>
    decreases i,
{
    if i <= 0 {
        Seq::empty()
    } else {
        let p = attrs_fold(src, cs, i - 1);
        if cs[i - 1].kind == CstKind::Attribute {
            spec_insert(p, attr_entry_model(src, cs[i - 1]))
        } else {
            p
        }
    }
}

/// The mapped children accumulated over the first `i` children of an
/// element: each allowed child mapped, in source order.
pub open spec fn children_fold(src: Seq<char>, cs: Seq<CstNode>, i: int) -> Seq<NodeModel>
    decreases cs, i when 0 <= i <= cs.len()
{
    if i <= 0 {
        Seq::empty()
    } else {
        let p = children_fold(src, cs, i - 1);
        if spec_child_allowed(cs[i - 1].kind) {
            p.push(node_model(src, cs[i - 1]))
        } else {
            p
        }
    }
}

/// The node a CST node maps to.
pub open spec fn node_model(src: Seq<char>, n: CstNode) -> NodeModel
    decreases n, 0int,
{
    let line = n.row + 1;
    let column = n.column as int;
    if spec_is_element(n.kind) {
        let is_raw_tag = n.kind == CstKind::ScriptTag || n.kind == CstKind::StyleTag;
        let raw_kids: Seq<NodeModel> = if is_raw_tag {
            match raw_text(src, n) {
                Some(t) => seq![raw_child_model(t, line, column)],
                None => Seq::empty(),
            }
        } else {
            Seq::empty()
        };
        let rec_kids: Seq<NodeModel> = if is_raw_tag {
            Seq::empty()
        } else {
            children_fold(src, n.children@, n.children@.len() as int)
        };
        NodeModel {
            tag: tag_of(src, n),
            attributes: attrs_fold(src, n.children@, n.children@.len() as int),
            children: raw_kids + rec_kids,
            ..blank_model(line, column)
        }
    } else if n.kind == CstKind::BraceBlock {
        let f = open_marker_fields(marker_inner(n.text(src), '$'));
        NodeModel {
            is_block: true,
            block_keyword: f.0,
            expression: f.1,
            ..blank_model(line, column)
        }
    } else if n.kind == CstKind::EndBraceBlock {
        NodeModel {
            is_block: true,
            block_keyword: Some(seq!['/'] + marker_inner(n.text(src), '/')),
            ..blank_model(line, column)
        }
    } else if n.kind == CstKind::Interpolation {
        let ei = first_field_idx(n.children@, CstField::Expr, 0);
        NodeModel {
            is_block: true,
            block_keyword: Some(
                seq!['i', 'n', 't', 'e', 'r', 'p', 'o', 'l', 'a', 't', 'i', 'o', 'n'],
            ),
            expression: if ei < n.children@.len() {
                Some(n.children@[ei].text(src))
            } else {
                None
            },
            ..blank_model(line, column)
        }
    } else if n.kind == CstKind::Text || n.kind == CstKind::PythonLine || n.kind == CstKind::Hyphen
        || n.kind == CstKind::Bang || n.kind == CstKind::Error {
        NodeModel { text_content: Some(n.text(src)), ..blank_model(line, column) }
    } else {
        blank_model(line, column)
    }
}

/// One produced node of the document model. `is_block` marks block
/// markers and interpolations; `is_raw` marks the synthetic text child of
/// a script or style element. Attributes keep insertion order; children
/// keep source order.
#[derive(Debug)]
pub struct ParsedNode {
    pub tag: Option<String>,
    pub is_block: bool,
    pub block_keyword: Option<String>,
    pub text_content: Option<String>,
    pub expression: Option<String>,
    pub attributes: AttrMap,
    pub children: Vec<ParsedNode>,
    pub line: usize,
    pub column: usize,
    pub is_raw: bool,
}

/// The models of the first `i` nodes of `v`, in order.
pub open spec fn kids_models(v: Seq<ParsedNode>, i: int) -> Seq<NodeModel>
    decreases v, i when 0 <= i <= v.len()
{
    if i <= 0 {
        Seq::empty()
    } else {
        kids_models(v, i - 1).push(pnode_model(v[i - 1]))
    }
}

/// The models of all nodes of `v`, in order.
pub open spec fn models_of(v: Seq<ParsedNode>) -> Seq<NodeModel> {
    kids_models(v, v.len() as int)
}

/// The model a [`ParsedNode`] denotes.
pub open spec fn pnode_model(n: ParsedNode) -> NodeModel
    decreases n, 0int,
{
    NodeModel {
        tag: view_opt(n.tag),
        is_block: n.is_block,
        block_keyword: view_opt(n.block_keyword),
        text_content: view_opt(n.text_content),
        expression: view_opt(n.expression),
        attributes: n.attributes@,
        children: kids_models(n.children@, n.children@.len() as int),
        line: n.line as int,
        column: n.column as int,
        is_raw: n.is_raw,
    }
}

proof fn lemma_kids_models_prefix(v1: Seq<ParsedNode>, v2: Seq<ParsedNode>, i: int)
    requires
        0 <= i <= v1.len(),
        i <= v2.len(),
        forall|j: int| 0 <= j < i ==> v1[j] == v2[j],
    ensures
        kids_models(v1, i) == kids_models(v2, i),
    decreases i,
{
    if i > 0 {
        lemma_kids_models_prefix(v1, v2, i - 1);
    }
}

/// Appending a node appends its model.
pub(crate) proof fn lemma_models_of_push(v: Seq<ParsedNode>, x: ParsedNode)
    ensures
        models_of(v.push(x)) == models_of(v).push(pnode_model(x)),
{
    let w = v.push(x);
    assert(w[v.len() as int] == x);
    lemma_kids_models_prefix(w, v, v.len() as int);
}

/// A node with every field unset, at the given position.
fn blank_parsed(line: usize, column: usize) -> (r: ParsedNode)
    ensures
        pnode_model(r) =~= blank_model(line as int, column as int),
{
    ParsedNode {
        tag: None,
        is_block: false,
        block_keyword: None,
        text_content: None,
        expression: None,
        attributes: AttrMap::new(),
        children: Vec::new(),
        line,
        column,
        is_raw: false,
    }
}

/// The fixed keyword recorded for interpolation nodes.
fn interpolation_string() -> (r: String)
    ensures
        r@ == seq!['i', 'n', 't', 'e', 'r', 'p', 'o', 'l', 'a', 't', 'i', 'o', 'n'],
{
    let s = "interpolation";
    proof {
        reveal_strlit("interpolation");
        assert(s@ =~= seq!['i', 'n', 't', 'e', 'r', 'p', 'o', 'l', 'a', 't', 'i', 'o', 'n']);
    }
    s.to_owned()
}

fn script_string() -> (r: String)
    ensures
        r@ == seq!['s', 'c', 'r', 'i', 'p', 't'],
{
    let s = "script";
    proof {
        reveal_strlit("script");
        assert(s@ =~= seq!['s', 'c', 'r', 'i', 'p', 't']);
    }
    s.to_owned()
}

fn style_string() -> (r: String)
    ensures
        r@ == seq!['s', 't', 'y', 'l', 'e'],
{
    let s = "style";
    proof {
        reveal_strlit("style");
        assert(s@ =~= seq!['s', 't', 'y', 'l', 'e']);
    }
    s.to_owned()
}

/// Maps one CST node to a [`ParsedNode`], recursing through elements.
pub fn map_node(source: &str, node: &CstNode) -> (r: ParsedNode)
    requires
        node.wf(source@.len()),
    ensures
        pnode_model(r) == node_model(source@, *node),
    decreases *node,
{
    let line = node.row + 1;
    let column = node.column;
    let ghost src = source@;
    let ghost cs = node.children@;
    match node.kind {
        CstKind::Tag | CstKind::SelfClosingTag | CstKind::VoidTag | CstKind::ScriptTag
            | CstKind::StyleTag => {
            let is_raw_tag = matches!(node.kind, CstKind::ScriptTag)
                || matches!(node.kind, CstKind::StyleTag);
            let tag: Option<String> = match child_by_field(node, CstField::Name) {
                Some(nc) => {
                    proof {
                        let k = first_field_idx(cs, CstField::Name, 0);
                        assert(cs[k].wf(src.len()));
                    }
                    Some(source.substring_char(nc.start, nc.end).to_owned())
                },
                None => match child_by_field(node, CstField::StartTag) {
                    Some(st) => {
                        proof {
                            let k = first_field_idx(cs, CstField::StartTag, 0);
                            assert(cs[k].wf(src.len()));
                        }
                        let t = source.substring_char(st.start, st.end);
                        let tl = t.unicode_len();
                        if tl >= 1 && t.get_char(0) == '<' {
                            let s2 = t.substring_char(1, tl);
                            proof {
                                assert(s2@ =~= st.text(src).skip(1));
                            }
                            Some(s2.to_owned())
                        } else {
                            None
                        }
                    },
                    None => {
                        if matches!(node.kind, CstKind::ScriptTag) {
                            Some(script_string())
                        } else if matches!(node.kind, CstKind::StyleTag) {
                            Some(style_string())
                        } else {
                            None
                        }
                    },
                },
            };
            proof {
                assert(view_opt(tag) == tag_of(src, *node));
            }
            let mut kids: Vec<ParsedNode> = Vec::new();
            if is_raw_tag {
                let n = node.children.len();
                let mut found_start = false;
                let mut rs: usize = 0;
                let mut re: usize = 0;
                let mut i: usize = 0;
                while i < n
                    invariant
                        0 <= i <= n,
                        n == cs.len(),
                        cs == node.children@,
                        node.wf(src.len()),
                        src == source@,
                        rs <= src.len(),
                        re <= src.len(),
                        raw_scan(cs, i as int) == (RawScan {
                            found: found_start,
                            start: rs as int,
                            end: re as int,
                        }),
                    decreases n - i,
                {
                    let c = &node.children[i];
                    proof {
                        assert(cs[i as int].wf(src.len()));
                    }
                    if matches!(c.kind, CstKind::TagClose) {
                        rs = c.end;
                        found_start = true;
                    } else if matches!(c.kind, CstKind::ScriptClose)
                        || matches!(c.kind, CstKind::StyleClose) {
                        re = c.start;
                    }
                    proof {
                        assert(raw_scan(cs, i + 1) =~= (RawScan {
                            found: found_start,
                            start: rs as int,
                            end: re as int,
                        }));
                    }
                    i += 1;
                }
                if found_start && re >= rs {
                    let t = source.substring_char(rs, re);
                    if t.unicode_len() > 0 {
                        let mut raw_kid = blank_parsed(line, column);
                        raw_kid.text_content = Some(t.to_owned());
                        raw_kid.is_raw = true;
                        proof {
                            assert(pnode_model(raw_kid) =~= raw_child_model(
                                t@,
                                line as int,
                                column as int,
                            ));
                        }
                        kids.push(raw_kid);
                        proof {
                            assert(kids@.len() == 1);
                            assert(kids_models(kids@, 0) == Seq::<NodeModel>::empty());
                            assert(models_of(kids@) =~= seq![
                                raw_child_model(t@, line as int, column as int),
                            ]);
                        }
                    }
                }
                proof {
                    match raw_text(src, *node) {
                        Some(t) => {
                            assert(models_of(kids@) =~= seq![
                                raw_child_model(t, line as int, column as int),
                            ]);
                        },
                        None => {
                            assert(models_of(kids@) =~= Seq::<NodeModel>::empty());
                        },
                    }
                }
            }
            let ghost raw_kids = models_of(kids@);
            let mut attrs = AttrMap::new();
            let n = node.children.len();
            let mut i: usize = 0;
            while i < n
                invariant
                    0 <= i <= n,
                    n == cs.len(),
                    cs == node.children@,
                    node.wf(src.len()),
                    src == source@,
                    attrs@ == attrs_fold(src, cs, i as int),
                    is_raw_tag ==> models_of(kids@) == raw_kids,
                    !is_raw_tag ==> models_of(kids@) == children_fold(src, cs, i as int),
                decreases n - i,
            {
                let c = &node.children[i];
                proof {
                    assert(cs[i as int].wf(src.len()));
                }
                if matches!(c.kind, CstKind::Attribute) {
                    let e = attr_parts(source, c);
                    attrs.insert(e.key, e.value);
                } else if !is_raw_tag {
                    if child_allowed(c.kind) {
                        let ghost before = kids@;
                        let m = map_node(source, c);
                        kids.push(m);
                        proof {
                            lemma_models_of_push(before, m);
                        }
                    }
                }
                i += 1;
            }
            let mut pn = blank_parsed(line, column);
            pn.tag = tag;
            pn.attributes = attrs;
            pn.children = kids;
            proof {
                if is_raw_tag {
                    assert(models_of(pn.children@) =~= raw_kids + Seq::<NodeModel>::empty());
                } else {
                    assert(models_of(pn.children@) =~= Seq::<NodeModel>::empty() + children_fold(
                        src,
                        cs,
                        cs.len() as int,
                    ));
                }
                assert(pnode_model(pn) =~= node_model(src, *node));
            }
            pn
        },
        CstKind::BraceBlock => {
            let t = source.substring_char(node.start, node.end);
            let parts = open_marker_parts(t);
            let mut pn = blank_parsed(line, column);
            pn.is_block = true;
            pn.block_keyword = parts.0;
            pn.expression = parts.1;
            proof {
                assert(pnode_model(pn) =~= node_model(src, *node));
            }
            pn
        },
        CstKind::EndBraceBlock => {
            let t = source.substring_char(node.start, node.end);
            let kw = close_marker_keyword(t);
            let mut pn = blank_parsed(line, column);
            pn.is_block = true;
            pn.block_keyword = Some(kw);
            proof {
                assert(pnode_model(pn) =~= node_model(src, *node));
            }
            pn
        },
        CstKind::Interpolation => {
            let mut pn = blank_parsed(line, column);
            pn.is_block = true;
            pn.block_keyword = Some(interpolation_string());
            pn.expression = match child_by_field(node, CstField::Expr) {
                Some(ec) => {
                    proof {
                        let k = first_field_idx(cs, CstField::Expr, 0);
                        assert(cs[k].wf(src.len()));
                    }
                    Some(source.substring_char(ec.start, ec.end).to_owned())
                },
                None => None,
            };
            proof {
                assert(pnode_model(pn) =~= node_model(src, *node));
            }
            pn
        },
        CstKind::Text | CstKind::PythonLine | CstKind::Hyphen | CstKind::Bang | CstKind::Error => {
            let t = source.substring_char(node.start, node.end);
            let mut pn = blank_parsed(line, column);
            pn.text_content = Some(t.to_owned());
            proof {
                assert(pnode_model(pn) =~= node_model(src, *node));
            }
            pn
        },
        _ => {
            let pn = blank_parsed(line, column);
            proof {
                assert(pnode_model(pn) =~= node_model(src, *node));
            }
            pn
        },
    }
}

/// Number of allow-listed children among the first `i`.
pub open spec fn count_allowed(cs: Seq<CstNode>, i: int) -> int
    decreases i,
{
    if i <= 0 {
        0
    } else {
        count_allowed(cs, i - 1) + if spec_child_allowed(cs[i - 1].kind) {
            1int
        } else {
            0int
        }
    }
}

proof fn lemma_count_allowed_mono(cs: Seq<CstNode>, k: int, i: int)
    requires
        0 <= k < i,
        spec_child_allowed(cs[k].kind),
    ensures
        count_allowed(cs, k) < count_allowed(cs, i),
        count_allowed(cs, k) >= 0,
    decreases i,
{
    if k == i - 1 {
        lemma_count_allowed_nonneg(cs, k);
    } else {
        lemma_count_allowed_mono(cs, k, i - 1);
    }
}

proof fn lemma_count_allowed_nonneg(cs: Seq<CstNode>, i: int)
    ensures
        count_allowed(cs, i) >= 0,
    decreases i,
{
    if i > 0 {
        lemma_count_allowed_nonneg(cs, i - 1);
    }
}

proof fn lemma_children_order_i(src: Seq<char>, cs: Seq<CstNode>, i: int)
    requires
        0 <= i <= cs.len(),
    ensures
        children_fold(src, cs, i).len() == count_allowed(cs, i),
        forall|k: int|
            0 <= k < i && spec_child_allowed(cs[k].kind) ==> #[trigger] children_fold(src, cs, i)[
                count_allowed(cs, k)
            ] == node_model(src, cs[k]),
    decreases i,
{
    if i > 0 {
        lemma_children_order_i(src, cs, i - 1);
        lemma_count_allowed_nonneg(cs, i - 1);
        assert forall|k: int|
            0 <= k < i && spec_child_allowed(cs[k].kind) implies #[trigger] children_fold(
            src,
            cs,
            i,
        )[count_allowed(cs, k)] == node_model(src, cs[k]) by {
            if k < i - 1 {
                lemma_count_allowed_mono(cs, k, i - 1);
            }
        }
    }
}

/// Order of children is kept: an element's mapped children are exactly
/// its allow-listed CST children, in source order — the child at source
/// position `k` stands at output position `count_allowed(cs, k)`, the
/// number of allow-listed children before it.
pub proof fn lemma_children_order(src: Seq<char>, cs: Seq<CstNode>)
    ensures
        children_fold(src, cs, cs.len() as int).len() == count_allowed(cs, cs.len() as int),
        forall|k: int|
            0 <= k < cs.len() && spec_child_allowed(cs[k].kind) ==> #[trigger] children_fold(
                src,
                cs,
                cs.len() as int,
            )[count_allowed(cs, k)] == node_model(src, cs[k]),
{
    lemma_children_order_i(src, cs, cs.len() as int);
}

/// A node is a block exactly when it comes from a block marker or an
/// interpolation token, and such a node never carries a tag, attributes
/// or children; no mapped node is itself raw.
pub proof fn lemma_block_nodes_shape(src: Seq<char>, n: CstNode)
    ensures
        node_model(src, n).is_block <==> (n.kind == CstKind::BraceBlock || n.kind
            == CstKind::EndBraceBlock || n.kind == CstKind::Interpolation),
        node_model(src, n).is_block ==> node_model(src, n).tag is None && node_model(
            src,
            n,
        ).children.len() == 0 && node_model(src, n).attributes.len() == 0,
        node_model(src, n).is_raw == false,
{
}

proof fn lemma_attrs_fold_distinct(src: Seq<char>, cs: Seq<CstNode>, i: int)
    ensures
        crate::attrs::keys_distinct(attrs_fold(src, cs, i)),
    decreases i,
{
    if i > 0 {
        lemma_attrs_fold_distinct(src, cs, i - 1);
        if cs[i - 1].kind == CstKind::Attribute {
            crate::attrs::lemma_insert_distinct(
                attrs_fold(src, cs, i - 1),
                attr_entry_model(src, cs[i - 1]),
            );
        }
    }
}

/// Every produced node's attribute map has distinct keys: however many
/// attributes an element carries, at most one entry ever stands under any
/// key — in particular at most one under the reserved spread key.
pub proof fn lemma_node_attrs_distinct(src: Seq<char>, n: CstNode)
    ensures
        crate::attrs::keys_distinct(node_model(src, n).attributes),
{
    if spec_is_element(n.kind) {
        lemma_attrs_fold_distinct(src, n.children@, n.children@.len() as int);
    }
}

proof fn lemma_raw_scan_resolved(cs: Seq<CstNode>, gi: int, ci: int, i: int)
    requires
        0 <= gi < cs.len(),
        0 <= ci < cs.len(),
        cs[gi].kind == CstKind::TagClose,
        cs[ci].kind == CstKind::ScriptClose || cs[ci].kind == CstKind::StyleClose,
        forall|k: int| 0 <= k < cs.len() && (#[trigger] cs[k]).kind == CstKind::TagClose ==> k
            == gi,
        forall|k: int|
            0 <= k < cs.len() && ((#[trigger] cs[k]).kind == CstKind::ScriptClose || cs[k].kind
                == CstKind::StyleClose) ==> k == ci,
        0 <= i <= cs.len(),
    ensures
        raw_scan(cs, i) == (RawScan {
            found: i > gi,
            start: if i > gi { cs[gi].end as int } else { 0 },
            end: if i > ci { cs[ci].start as int } else { 0 },
        }),
    decreases i,
{
    if i > 0 {
        lemma_raw_scan_resolved(cs, gi, ci, i - 1);
    }
}

/// A script or style element with one `>` token and one closing-tag token
/// among its children, enclosing a non-empty region, maps to a node with
/// exactly one child: the synthetic raw text node carrying that region's
/// text verbatim, marked raw, with no tag and no children of its own.
pub proof fn lemma_script_raw_child(src: Seq<char>, n: CstNode, gi: int, ci: int)
    requires
        n.kind == CstKind::ScriptTag || n.kind == CstKind::StyleTag,
        0 <= gi < n.children@.len(),
        0 <= ci < n.children@.len(),
        n.children@[gi].kind == CstKind::TagClose,
        n.children@[ci].kind == CstKind::ScriptClose || n.children@[ci].kind
            == CstKind::StyleClose,
        forall|k: int|
            0 <= k < n.children@.len() && (#[trigger] n.children@[k]).kind == CstKind::TagClose
                ==> k == gi,
        forall|k: int|
            0 <= k < n.children@.len() && ((#[trigger] n.children@[k]).kind
                == CstKind::ScriptClose || n.children@[k].kind == CstKind::StyleClose) ==> k == ci,
        n.children@[ci].start >= n.children@[gi].end,
        src.subrange(n.children@[gi].end as int, n.children@[ci].start as int).len() > 0,
    ensures
        ({
            let code = src.subrange(n.children@[gi].end as int, n.children@[ci].start as int);
            let m = node_model(src, n);
            &&& m.children == seq![raw_child_model(code, n.row + 1, n.column as int)]
            &&& m.children[0].is_raw == true
            &&& m.children[0].text_content == Some(code)
            &&& m.children[0].tag is None
            &&& m.children[0].children.len() == 0
        }),
{
    let cs = n.children@;
    lemma_raw_scan_resolved(cs, gi, ci, cs.len() as int);
    let code = src.subrange(cs[gi].end as int, cs[ci].start as int);
    assert(raw_text(src, n) == Some(code));
    let m = node_model(src, n);
    assert(m.children =~= seq![raw_child_model(code, n.row + 1, n.column as int)]);
}


} // verus!
