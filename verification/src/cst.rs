//! The concrete syntax tree as plain data.
//!
//! The external grammar exposes nodes with a kind from a fixed vocabulary,
//! byte positions, an optional field label on each child, and children in
//! source order. [`CstNode`] holds exactly that, with offsets counted in
//! characters of the source text.

use vstd::prelude::*;

verus! {

/// The fixed vocabulary of CST node kinds that the mapping reads.
///
/// `TagClose`, `ScriptClose` and `StyleClose` stand for the anonymous
/// `>`, `</script>` and `</style>` tokens. Any kind outside the
/// vocabulary is carried as `Other` and is dropped by the allow-lists.
#[derive(Clone, Copy, PartialEq, Eq, Structural, Debug)]
pub enum CstKind {
    DirectivesSection,
    Frontmatter,
    TemplateSection,
    Tag,
    SelfClosingTag,
    VoidTag,
    ScriptTag,
    StyleTag,
    Text,
    Interpolation,
    BraceBlock,
    EndBraceBlock,
    Doctype,
    Hyphen,
    Bang,
    Attribute,
    AttributeShorthand,
    SpreadShorthand,
    PythonContent,
    PythonLine,
    Error,
    Comment,
    TagClose,
    ScriptClose,
    StyleClose,
    Other,
}

/// The named fields that the mapping looks up on a node's children.
#[derive(Clone, Copy, PartialEq, Eq, Structural, Debug)]
pub enum CstField {
    Name,
    Value,
    StartTag,
    Expr,
    PythonContent,
}

/// One CST node: its kind, the field label its parent gave it (if any),
/// its span as character offsets into the source, its start position
/// (0-based row and column), and its children in source order.
pub struct CstNode {
    pub kind: CstKind,
    pub field: Option<CstField>,
    pub start: usize,
    pub end: usize,
    pub row: usize,
    pub column: usize,
    pub children: Vec<CstNode>,
}

impl CstNode {
    /// Well-formedness against a source of `n` characters: every span lies
    /// inside the source and every row leaves room for 1-based numbering.
    pub open spec fn wf(self, n: nat) -> bool
        decreases self,
    {
        &&& self.start <= self.end <= n
        &&& self.row < usize::MAX
        &&& forall|i: int|
            0 <= i < self.children@.len() ==> (#[trigger] self.children@[i]).wf(n)
    }

    /// The source text covered by this node.
    pub open spec fn text(self, src: Seq<char>) -> Seq<char> {
        src.subrange(self.start as int, self.end as int)
    }
}

/// Runtime check of [`CstNode::wf`], for callers outside verified code.
pub fn check_wf(node: &CstNode, n: usize) -> (r: bool)
    ensures
        r == node.wf(n as nat),
    decreases *node,
{
    if !(node.start <= node.end && node.end <= n && node.row < usize::MAX) {
        return false;
    }
    let mut i: usize = 0;
    while i < node.children.len()
        invariant
            i <= node.children@.len(),
            node.start <= node.end <= n,
            node.row < usize::MAX,
            forall|j: int| 0 <= j < i ==> (#[trigger] node.children@[j]).wf(n as nat),
        decreases node.children@.len() - i,
    {
        if !check_wf(&node.children[i], n) {
            return false;
        }
        i += 1;
    }
    true
}

/// Index of the first child carrying field `f`, from position `i` on;
/// the child count when no child carries it.
pub open spec fn first_field_idx(cs: Seq<CstNode>, f: CstField, i: int) -> int
    decreases cs.len() - i when 0 <= i <= cs.len()
{
    if i >= cs.len() {
        cs.len() as int
    } else if cs[i].field == Some(f) {
        i
    } else {
        first_field_idx(cs, f, i + 1)
    }
}

/// The first child of `node` labelled with field `f`, if any.
pub fn child_by_field<'a>(node: &'a CstNode, f: CstField) -> (r: Option<&'a CstNode>)
    ensures
        ({
            let k = first_field_idx(node.children@, f, 0);
            match r {
                Some(c) => 0 <= k < node.children@.len() && *c == node.children@[k],
                None => k == node.children@.len(),
            }
        }),
{
    let n = node.children.len();
    let mut i: usize = 0;
    while i < n
        invariant
            0 <= i <= n,
            n == node.children@.len(),
            first_field_idx(node.children@, f, 0) == first_field_idx(node.children@, f, i as int),
            forall|j: int| 0 <= j < i ==> #[trigger] node.children@[j].field != Some(f),
        decreases n - i,
    {
        let matches_f = match (&node.children[i].field, &f) {
            (Some(g), ff) => *g == *ff,
            (None, _) => false,
        };
        if matches_f {
            return Some(&node.children[i]);
        }
        i += 1;
    }
    None
}

/// Kinds a template section keeps at top level; all others are dropped.
pub open spec fn spec_top_allowed(k: CstKind) -> bool {
    ||| k == CstKind::Tag
    ||| k == CstKind::SelfClosingTag
    ||| k == CstKind::VoidTag
    ||| k == CstKind::ScriptTag
    ||| k == CstKind::StyleTag
    ||| k == CstKind::Text
    ||| k == CstKind::Interpolation
    ||| k == CstKind::BraceBlock
    ||| k == CstKind::EndBraceBlock
    ||| k == CstKind::Doctype
    ||| k == CstKind::Hyphen
    ||| k == CstKind::Bang
}

/// Kinds an element descends into; like the top-level list but with
/// error and comment nodes in place of the doctype.
pub open spec fn spec_child_allowed(k: CstKind) -> bool {
    ||| k == CstKind::Tag
    ||| k == CstKind::SelfClosingTag
    ||| k == CstKind::VoidTag
    ||| k == CstKind::ScriptTag
    ||| k == CstKind::StyleTag
    ||| k == CstKind::Text
    ||| k == CstKind::Interpolation
    ||| k == CstKind::BraceBlock
    ||| k == CstKind::EndBraceBlock
    ||| k == CstKind::Error
    ||| k == CstKind::Hyphen
    ||| k == CstKind::Bang
    ||| k == CstKind::Comment
}

/// Kinds that stand for an element: ordinary, self-closing and void tags
/// and the two raw-content elements.
pub open spec fn spec_is_element(k: CstKind) -> bool {
    ||| k == CstKind::Tag
    ||| k == CstKind::SelfClosingTag
    ||| k == CstKind::VoidTag
    ||| k == CstKind::ScriptTag
    ||| k == CstKind::StyleTag
}

/// Runtime check of [`spec_top_allowed`].
pub fn top_allowed(k: CstKind) -> (r: bool)
    ensures
        r == spec_top_allowed(k),
{
    match k {
        CstKind::Tag | CstKind::SelfClosingTag | CstKind::VoidTag | CstKind::ScriptTag
            | CstKind::StyleTag | CstKind::Text | CstKind::Interpolation | CstKind::BraceBlock
            | CstKind::EndBraceBlock | CstKind::Doctype | CstKind::Hyphen | CstKind::Bang => true,
        _ => false,
    }
}

/// Runtime check of [`spec_child_allowed`].
pub fn child_allowed(k: CstKind) -> (r: bool)
    ensures
        r == spec_child_allowed(k),
{
    match k {
        CstKind::Tag | CstKind::SelfClosingTag | CstKind::VoidTag | CstKind::ScriptTag
            | CstKind::StyleTag | CstKind::Text | CstKind::Interpolation | CstKind::BraceBlock
            | CstKind::EndBraceBlock | CstKind::Error | CstKind::Hyphen | CstKind::Bang
            | CstKind::Comment => true,
        _ => false,
    }
}

} // verus!
