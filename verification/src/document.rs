//! The document assembler.
//!
//! Walks the CST root's three top-level regions once: directive-section
//! children become directives, frontmatter contributes its scripting
//! source verbatim, and template-section children pass through the
//! allow-list into the node tree builder. Anything else is dropped.

use vstd::prelude::*;
use crate::cst::{child_by_field, first_field_idx, spec_top_allowed, top_allowed, CstField,
    CstKind, CstNode};
use crate::directive::{directive_model, map_any_directive, DirectiveModel, ParsedDirective};
use crate::node::{map_node, models_of, node_model, NodeModel, ParsedNode};

verus! {

/// Mathematical model of a whole parsed document.
#[verifier::ext_equal]
pub struct DocModel {
    pub directives: Seq<DirectiveModel>,
    pub python_code: Seq<char>,
    pub template: Seq<NodeModel>,
}

/// Every child of a directive section, mapped in order.
pub open spec fn directives_fold(src: Seq<char>, cs: Seq<CstNode>, i: int) -> Seq<DirectiveModel>
    decreases i,
{
    if i <= 0 {
        Seq::empty()
    } else {
        directives_fold(src, cs, i - 1).push(directive_model(src, cs[i - 1]))
    }
}

/// Index of the first child, from `i` on, of the scripting-content kind;
/// the child count when there is none.
pub open spec fn first_python_idx(cs: Seq<CstNode>, i: int) -> int
    decreases cs.len() - i when 0 <= i <= cs.len()
{
    if i >= cs.len() {
        cs.len() as int
    } else if cs[i].kind == CstKind::PythonContent {
        i
    } else {
        first_python_idx(cs, i + 1)
    }
}

/// The scripting source a frontmatter region contributes: the text of its
/// `python_content` field child when the grammar labelled one, else the
/// text of its first child of that kind, else nothing.
pub open spec fn frontmatter_text(src: Seq<char>, n: CstNode) -> Seq<char> {
    let cs = n.children@;
    let fi = first_field_idx(cs, CstField::PythonContent, 0);
    if fi < cs.len() {
        cs[fi].text(src)
    } else {
        let ki = first_python_idx(cs, 0);
        if ki < cs.len() {
            cs[ki].text(src)
        } else {
            Seq::empty()
        }
    }
}

/// The template-section children that pass the allow-list, mapped in
/// order.
pub open spec fn template_fold(src: Seq<char>, cs: Seq<CstNode>, i: int) -> Seq<NodeModel>
    decreases i,
{
    if i <= 0 {
        Seq::empty()
    } else {
        let p = template_fold(src, cs, i - 1);
        if spec_top_allowed(cs[i - 1].kind) {
            p.push(node_model(src, cs[i - 1]))
        } else {
            p
        }
    }
}

/// The document accumulated over the first `i` children of the root.
pub open spec fn doc_fold(src: Seq<char>, cs: Seq<CstNode>, i: int) -> DocModel
    decreases i,
{
    if i <= 0 {
        DocModel { directives: Seq::empty(), python_code: Seq::empty(), template: Seq::empty() }
    } else {
        let p = doc_fold(src, cs, i - 1);
        let c = cs[i - 1];
        if c.kind == CstKind::DirectivesSection {
            DocModel {
                directives: p.directives + directives_fold(src, c.children@, c.children@.len() as int),
                ..p
            }
        } else if c.kind == CstKind::Frontmatter {
            DocModel { python_code: p.python_code + frontmatter_text(src, c), ..p }
        } else if c.kind == CstKind::TemplateSection {
            DocModel {
                template: p.template + template_fold(src, c.children@, c.children@.len() as int),
                ..p
            }
        } else {
            p
        }
    }
}

/// The document a CST root maps to.
pub open spec fn doc_model(src: Seq<char>, root: CstNode) -> DocModel {
    doc_fold(src, root.children@, root.children@.len() as int)
}

/// The finished document: its directives, its frontmatter scripting
/// source, and its top-level template nodes, each list in source order.
#[derive(Debug)]
pub struct ParsedDocument {
    pub directives: Vec<ParsedDirective>,
    pub python_code: String,
    pub template: Vec<ParsedNode>,
}

/// The models of a directive list, in order.
pub open spec fn dirs_models(v: Seq<ParsedDirective>) -> Seq<DirectiveModel> {
    Seq::new(v.len(), |i: int| v[i]@)
}

/// The model a [`ParsedDocument`] denotes.
pub open spec fn pdoc_model(d: ParsedDocument) -> DocModel {
    DocModel {
        directives: dirs_models(d.directives@),
        python_code: d.python_code@,
        template: models_of(d.template@),
    }
}

/// Maps a CST root to the finished document.
pub fn map_document(source: &str, root: &CstNode) -> (r: ParsedDocument)
    requires
        root.wf(source@.len()),
    ensures
        pdoc_model(r) == doc_model(source@, *root),
{
    let ghost src = source@;
    let ghost cs = root.children@;
    let mut directives: Vec<ParsedDirective> = Vec::new();
    let mut python_code = String::new();
    let mut template: Vec<ParsedNode> = Vec::new();
    let n = root.children.len();
    let mut i: usize = 0;
    proof {
        assert(dirs_models(directives@) =~= Seq::<DirectiveModel>::empty());
        assert(models_of(template@) =~= Seq::<NodeModel>::empty());
    }
    while i < n
        invariant
            0 <= i <= n,
            n == cs.len(),
            cs == root.children@,
            root.wf(src.len()),
            src == source@,
            dirs_models(directives@) == doc_fold(src, cs, i as int).directives,
            python_code@ == doc_fold(src, cs, i as int).python_code,
            models_of(template@) == doc_fold(src, cs, i as int).template,
        decreases n - i,
    {
        let c = &root.children[i];
        proof {
            assert(cs[i as int].wf(src.len()));
        }
        let ghost p = doc_fold(src, cs, i as int);
        let ghost ccs = c.children@;
        match c.kind {
            CstKind::DirectivesSection => {
                let m = c.children.len();
                let mut j: usize = 0;
                while j < m
                    invariant
                        0 <= j <= m,
                        m == ccs.len(),
                        ccs == cs[i as int].children@,
                        *c == cs[i as int],
                        i < cs.len(),
                        cs[i as int].wf(src.len()),
                        src == source@,
                        dirs_models(directives@) == p.directives + directives_fold(
                            src,
                            ccs,
                            j as int,
                        ),
                    decreases m - j,
                {
                    let d = &c.children[j];
                    proof {
                        assert(ccs[j as int].wf(src.len()));
                    }
                    let ghost before = dirs_models(directives@);
                    let pd = map_any_directive(source, d);
                    directives.push(pd);
                    proof {
                        assert(dirs_models(directives@) =~= before.push(
                            directive_model(src, ccs[j as int]),
                        ));
                    }
                    j += 1;
                }
            },
            CstKind::Frontmatter => {
                match child_by_field(c, CstField::PythonContent) {
                    Some(pc) => {
                        proof {
                            let k = first_field_idx(ccs, CstField::PythonContent, 0);
                            assert(ccs[k].wf(src.len()));
                        }
                        python_code.append(source.substring_char(pc.start, pc.end));
                    },
                    None => {
                        let m = c.children.len();
                        let mut j: usize = 0;
                        let mut found = false;
                        while j < m && !found
                            invariant
                                0 <= j <= m,
                                m == ccs.len(),
                                ccs == cs[i as int].children@,
                                *c == cs[i as int],
                                i < cs.len(),
                                cs[i as int].wf(src.len()),
                                src == source@,
                                first_field_idx(ccs, CstField::PythonContent, 0) == ccs.len(),
                                !found ==> python_code@ == p.python_code,
                                !found ==> first_python_idx(ccs, 0) == first_python_idx(
                                    ccs,
                                    j as int,
                                ),
                                found ==> python_code@ == p.python_code + frontmatter_text(
                                    src,
                                    cs[i as int],
                                ),
                            decreases m - j + (if found {
                                0int
                            } else {
                                1int
                            }),
                        {
                            let d = &c.children[j];
                            proof {
                                assert(ccs[j as int].wf(src.len()));
                            }
                            if matches!(d.kind, CstKind::PythonContent) {
                                python_code.append(source.substring_char(d.start, d.end));
                                found = true;
                                proof {
                                    assert(first_python_idx(ccs, j as int) == j as int);
                                    assert(python_code@ =~= p.python_code + frontmatter_text(
                                        src,
                                        cs[i as int],
                                    ));
                                }
                            } else {
                                j += 1;
                            }
                        }
                        if !found {
                            proof {
                                assert(first_python_idx(ccs, 0) == ccs.len());
                                assert(python_code@ =~= p.python_code + frontmatter_text(
                                    src,
                                    cs[i as int],
                                ));
                            }
                        }
                    },
                }
            },
            CstKind::TemplateSection => {
                let m = c.children.len();
                let mut j: usize = 0;
                while j < m
                    invariant
                        0 <= j <= m,
                        m == ccs.len(),
                        ccs == cs[i as int].children@,
                        *c == cs[i as int],
                        i < cs.len(),
                        cs[i as int].wf(src.len()),
                        src == source@,
                        models_of(template@) == p.template + template_fold(src, ccs, j as int),
                    decreases m - j,
                {
                    let d = &c.children[j];
                    proof {
                        assert(ccs[j as int].wf(src.len()));
                    }
                    if top_allowed(d.kind) {
                        let ghost before = template@;
                        let pn = map_node(source, d);
                        template.push(pn);
                        proof {
                            crate::node::lemma_models_of_push(before, pn);
                        }
                    }
                    j += 1;
                }
            },
            _ => {},
        }
        proof {
            assert(doc_fold(src, cs, i + 1).directives =~= dirs_models(directives@));
            assert(doc_fold(src, cs, i + 1).python_code =~= python_code@);
            assert(doc_fold(src, cs, i + 1).template =~= models_of(template@));
        }
        i += 1;
    }
    let r = ParsedDocument { directives, python_code, template };
    proof {
        assert(pdoc_model(r) =~= doc_model(src, *root));
    }
    r
}

} // verus!
