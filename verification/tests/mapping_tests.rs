use pywire_parser::cst::{CstField, CstKind, CstNode};
use pywire_parser::directive::map_any_directive;
use pywire_parser::document::map_document;
use pywire_parser::node::map_node;
use pywire_parser::version;

fn node(
    kind: CstKind,
    field: Option<CstField>,
    start: usize,
    end: usize,
    row: usize,
    column: usize,
    children: Vec<CstNode>,
) -> CstNode {
    CstNode { kind, field, start, end, row, column, children }
}

fn leaf(kind: CstKind, start: usize, end: usize) -> CstNode {
    node(kind, None, start, end, 0, start, Vec::new())
}

#[test]
fn version_tag() {
    assert_eq!(version(), "0.2.0-unified-v2");
}

#[test]
fn minimal_document_with_button() {
    // ---html---\n<button>Inc</button>
    let source = "---html---\n<button>Inc</button>";
    let name_child = node(CstKind::Other, Some(CstField::Name), 12, 18, 1, 1, Vec::new());
    let text_child = node(CstKind::Text, None, 19, 22, 1, 8, Vec::new());
    let button = node(CstKind::Tag, None, 11, 31, 1, 0, vec![name_child, text_child]);
    let section = node(CstKind::TemplateSection, None, 0, 31, 0, 0, vec![button]);
    let root = node(CstKind::Other, None, 0, 31, 0, 0, vec![section]);
    let doc = map_document(source, &root);
    assert_eq!(doc.directives.len(), 0);
    assert_eq!(doc.python_code, "");
    assert_eq!(doc.template.len(), 1);
    let n = &doc.template[0];
    assert_eq!(n.tag, Some("button".to_string()));
    assert!(!n.is_block);
    assert_eq!(n.attributes.len(), 0);
    assert_eq!(n.children.len(), 1);
    assert_eq!(n.children[0].text_content, Some("Inc".to_string()));
    assert_eq!(n.line, 2);
    assert_eq!(n.column, 0);
}

#[test]
fn block_opener_if() {
    let source = "{$if x > 0}";
    let n = leaf(CstKind::BraceBlock, 0, 11);
    let p = map_node(source, &n);
    assert!(p.is_block);
    assert_eq!(p.block_keyword, Some("if".to_string()));
    assert_eq!(p.expression, Some("x > 0".to_string()));
    assert_eq!(p.tag, None);
    assert_eq!(p.children.len(), 0);
}

#[test]
fn block_closer_if() {
    let source = "{/if}";
    let n = leaf(CstKind::EndBraceBlock, 0, 5);
    let p = map_node(source, &n);
    assert!(p.is_block);
    assert_eq!(p.block_keyword, Some("/if".to_string()));
    assert_eq!(p.expression, None);
}

#[test]
fn block_keyword_matching_is_deterministic() {
    let source = "{$elif y == 2}";
    let a = map_node(source, &leaf(CstKind::BraceBlock, 0, 14));
    let b = map_node(source, &leaf(CstKind::BraceBlock, 0, 14));
    assert_eq!(a.block_keyword, b.block_keyword);
    assert_eq!(a.block_keyword, Some("elif".to_string()));
    assert_eq!(a.expression, Some("y == 2".to_string()));
}

#[test]
fn block_keyword_prefix_match_wins() {
    // "if" prefixes the inner text even without a word boundary.
    let source = "{$iffy}";
    let p = map_node(source, &leaf(CstKind::BraceBlock, 0, 7));
    assert_eq!(p.block_keyword, Some("if".to_string()));
    assert_eq!(p.expression, Some("fy".to_string()));
}

#[test]
fn block_unknown_keyword() {
    let source = "{$unknown x}";
    let p = map_node(source, &leaf(CstKind::BraceBlock, 0, 12));
    assert!(p.is_block);
    assert_eq!(p.block_keyword, None);
    assert_eq!(p.expression, None);
}

#[test]
fn interpolation_with_expression() {
    let source = "{ x + 1 }";
    let expr = node(CstKind::Other, Some(CstField::Expr), 2, 7, 0, 2, Vec::new());
    let n = node(CstKind::Interpolation, None, 0, 9, 0, 0, vec![expr]);
    let p = map_node(source, &n);
    assert!(p.is_block);
    assert_eq!(p.block_keyword, Some("interpolation".to_string()));
    assert_eq!(p.expression, Some("x + 1".to_string()));
}

#[test]
fn directive_with_content() {
    let source = "!import foo bar";
    let n = leaf(CstKind::Other, 0, 15);
    let d = map_any_directive(source, &n);
    assert_eq!(d.name, "import");
    assert_eq!(d.content, Some("foo bar".to_string()));
    assert_eq!(d.line, 1);
    assert_eq!(d.column, 0);
}

#[test]
fn directive_without_content() {
    let source = "!page";
    let d = map_any_directive(source, &leaf(CstKind::Other, 0, 5));
    assert_eq!(d.name, "page");
    assert_eq!(d.content, None);
}

#[test]
fn directive_trims_surrounding_whitespace() {
    let source = "  !title  Hello world  ";
    let d = map_any_directive(source, &leaf(CstKind::Other, 0, 23));
    assert_eq!(d.name, "title");
    assert_eq!(d.content, Some("Hello world".to_string()));
}

#[test]
fn directive_all_punctuation_keeps_empty_name() {
    let source = "!!";
    let d = map_any_directive(source, &leaf(CstKind::Other, 0, 2));
    assert_eq!(d.name, "");
    assert_eq!(d.content, Some("!".to_string()));
}

fn element_with_attr(source: &str, attr_children: Vec<CstNode>) -> pywire_parser::node::ParsedNode {
    let attr = node(CstKind::Attribute, None, 0, source.len(), 0, 0, attr_children);
    let el = node(CstKind::Tag, None, 0, source.len(), 0, 0, vec![attr]);
    map_node(source, &el)
}

#[test]
fn attribute_double_quoted_value() {
    let source = "class=\"btn\"";
    let name = node(CstKind::Other, Some(CstField::Name), 0, 5, 0, 0, Vec::new());
    let value = node(CstKind::Other, Some(CstField::Value), 6, 11, 0, 6, Vec::new());
    let p = element_with_attr(source, vec![name, value]);
    assert_eq!(p.attributes.len(), 1);
    assert_eq!(p.attributes.get(&"class".to_string()), Some(&Some("btn".to_string())));
}

#[test]
fn attribute_single_quoted_value() {
    let source = "id='x'";
    let name = node(CstKind::Other, Some(CstField::Name), 0, 2, 0, 0, Vec::new());
    let value = node(CstKind::Other, Some(CstField::Value), 3, 6, 0, 3, Vec::new());
    let p = element_with_attr(source, vec![name, value]);
    assert_eq!(p.attributes.get(&"id".to_string()), Some(&Some("x".to_string())));
}

#[test]
fn attribute_mismatched_quotes_kept_verbatim() {
    let source = "a=\"x'";
    let name = node(CstKind::Other, Some(CstField::Name), 0, 1, 0, 0, Vec::new());
    let value = node(CstKind::Other, Some(CstField::Value), 2, 5, 0, 2, Vec::new());
    let p = element_with_attr(source, vec![name, value]);
    assert_eq!(p.attributes.get(&"a".to_string()), Some(&Some("\"x'".to_string())));
}

#[test]
fn attribute_expression_value_kept_verbatim() {
    let source = "on={handler}";
    let name = node(CstKind::Other, Some(CstField::Name), 0, 2, 0, 0, Vec::new());
    let value = node(CstKind::Other, Some(CstField::Value), 3, 12, 0, 3, Vec::new());
    let p = element_with_attr(source, vec![name, value]);
    assert_eq!(p.attributes.get(&"on".to_string()), Some(&Some("{handler}".to_string())));
}

#[test]
fn boolean_attribute_has_no_value() {
    let source = "disabled";
    let name = node(CstKind::Other, Some(CstField::Name), 0, 8, 0, 0, Vec::new());
    let p = element_with_attr(source, vec![name]);
    assert_eq!(p.attributes.get(&"disabled".to_string()), Some(&None));
}

#[test]
fn spread_attribute_tagged_as_spread() {
    let source = "{**props}";
    let sp = leaf(CstKind::SpreadShorthand, 0, 9);
    let p = element_with_attr(source, vec![sp]);
    assert_eq!(p.attributes.len(), 1);
    assert_eq!(
        p.attributes.get(&"__pywire_spread__".to_string()),
        Some(&Some("{**props}".to_string()))
    );
}

#[test]
fn spread_attribute_tagged_as_shorthand() {
    let source = "{**props}";
    let sh = leaf(CstKind::AttributeShorthand, 0, 9);
    let p = element_with_attr(source, vec![sh]);
    assert_eq!(p.attributes.len(), 1);
    assert_eq!(
        p.attributes.get(&"__pywire_spread__".to_string()),
        Some(&Some("{**props}".to_string()))
    );
}

#[test]
fn second_spread_overwrites_first() {
    let source = "{**a} {**b}";
    let a1 = node(CstKind::Attribute, None, 0, 5, 0, 0, vec![leaf(CstKind::SpreadShorthand, 0, 5)]);
    let a2 = node(
        CstKind::Attribute,
        None,
        6,
        11,
        0,
        6,
        vec![leaf(CstKind::SpreadShorthand, 6, 11)],
    );
    let el = node(CstKind::Tag, None, 0, 11, 0, 0, vec![a1, a2]);
    let p = map_node(source, &el);
    assert_eq!(p.attributes.len(), 1);
    assert_eq!(
        p.attributes.get(&"__pywire_spread__".to_string()),
        Some(&Some("{**b}".to_string()))
    );
}

#[test]
fn shorthand_attribute_reserved_key() {
    let source = "{name}";
    let sh = leaf(CstKind::AttributeShorthand, 0, 6);
    let p = element_with_attr(source, vec![sh]);
    assert_eq!(p.attributes.len(), 1);
    assert_eq!(
        p.attributes.get(&"__pw_sh_name".to_string()),
        Some(&Some("{name}".to_string()))
    );
}

#[test]
fn later_attribute_overwrites_earlier_value() {
    let source = "k=\"a\" k=\"b\"";
    let mk = |ns: usize, vs: usize| {
        node(
            CstKind::Attribute,
            None,
            ns,
            vs + 3,
            0,
            ns,
            vec![
                node(CstKind::Other, Some(CstField::Name), ns, ns + 1, 0, ns, Vec::new()),
                node(CstKind::Other, Some(CstField::Value), vs, vs + 3, 0, vs, Vec::new()),
            ],
        )
    };
    let el = node(CstKind::Tag, None, 0, 11, 0, 0, vec![mk(0, 2), mk(6, 8)]);
    let p = map_node(source, &el);
    assert_eq!(p.attributes.len(), 1);
    assert_eq!(p.attributes.get(&"k".to_string()), Some(&Some("b".to_string())));
}

#[test]
fn script_element_gets_single_raw_child() {
    let source = "<script>var x=1;</script>";
    let gt = leaf(CstKind::TagClose, 7, 8);
    let close = leaf(CstKind::ScriptClose, 16, 25);
    let el = node(CstKind::ScriptTag, None, 0, 25, 0, 0, vec![gt, close]);
    let p = map_node(source, &el);
    assert_eq!(p.tag, Some("script".to_string()));
    assert_eq!(p.children.len(), 1);
    let raw = &p.children[0];
    assert!(raw.is_raw);
    assert_eq!(raw.text_content, Some("var x=1;".to_string()));
    assert_eq!(raw.tag, None);
    assert_eq!(raw.children.len(), 0);
}

#[test]
fn script_element_empty_region_has_no_child() {
    let source = "<script></script>";
    let gt = leaf(CstKind::TagClose, 7, 8);
    let close = leaf(CstKind::ScriptClose, 8, 17);
    let el = node(CstKind::ScriptTag, None, 0, 17, 0, 0, vec![gt, close]);
    let p = map_node(source, &el);
    assert_eq!(p.tag, Some("script".to_string()));
    assert_eq!(p.children.len(), 0);
}

#[test]
fn style_element_raw_child_keeps_whitespace() {
    let source = "<style> a { b } </style>";
    let gt = leaf(CstKind::TagClose, 6, 7);
    let close = leaf(CstKind::StyleClose, 16, 24);
    let el = node(CstKind::StyleTag, None, 0, 24, 0, 0, vec![gt, close]);
    let p = map_node(source, &el);
    assert_eq!(p.tag, Some("style".to_string()));
    assert_eq!(p.children.len(), 1);
    assert_eq!(p.children[0].text_content, Some(" a { b } ".to_string()));
}

#[test]
fn start_tag_fallback_strips_angle_bracket() {
    let source = "<div>";
    let st = node(CstKind::Other, Some(CstField::StartTag), 0, 4, 0, 0, Vec::new());
    let el = node(CstKind::Tag, None, 0, 5, 0, 0, vec![st]);
    let p = map_node(source, &el);
    assert_eq!(p.tag, Some("div".to_string()));
}

#[test]
fn children_keep_source_order_and_disallowed_are_dropped() {
    let source = "ab-c";
    let t1 = leaf(CstKind::Text, 0, 2);
    let skipped = leaf(CstKind::Other, 2, 3);
    let hy = leaf(CstKind::Hyphen, 2, 3);
    let t2 = leaf(CstKind::Text, 3, 4);
    let el = node(CstKind::Tag, None, 0, 4, 0, 0, vec![t1, skipped, hy, t2]);
    let p = map_node(source, &el);
    assert_eq!(p.children.len(), 3);
    assert_eq!(p.children[0].text_content, Some("ab".to_string()));
    assert_eq!(p.children[1].text_content, Some("-".to_string()));
    assert_eq!(p.children[2].text_content, Some("c".to_string()));
}

#[test]
fn error_node_becomes_inert_text_leaf() {
    let source = "<oops";
    let e = leaf(CstKind::Error, 0, 5);
    let p = map_node(source, &e);
    assert!(!p.is_block);
    assert_eq!(p.tag, None);
    assert_eq!(p.text_content, Some("<oops".to_string()));
    assert_eq!(p.children.len(), 0);
}

#[test]
fn full_document_with_all_regions() {
    // directives, frontmatter, template
    let source = "!import os\nx = 1\n<p>hi</p>";
    let d1 = leaf(CstKind::Other, 0, 10);
    let dirs = node(CstKind::DirectivesSection, None, 0, 10, 0, 0, vec![d1]);
    let py = node(CstKind::PythonContent, None, 11, 17, 1, 0, Vec::new());
    let fm = node(CstKind::Frontmatter, None, 11, 17, 1, 0, vec![py]);
    let name = node(CstKind::Other, Some(CstField::Name), 18, 19, 2, 1, Vec::new());
    let txt = node(CstKind::Text, None, 20, 22, 2, 3, Vec::new());
    let tag = node(CstKind::Tag, None, 17, 26, 2, 0, vec![name, txt]);
    let tpl = node(CstKind::TemplateSection, None, 17, 26, 2, 0, vec![tag]);
    let root = node(CstKind::Other, None, 0, 26, 0, 0, vec![dirs, fm, tpl]);
    let doc = map_document(source, &root);
    assert_eq!(doc.directives.len(), 1);
    assert_eq!(doc.directives[0].name, "import");
    assert_eq!(doc.directives[0].content, Some("os".to_string()));
    assert_eq!(doc.python_code, "x = 1\n");
    assert_eq!(doc.template.len(), 1);
    assert_eq!(doc.template[0].tag, Some("p".to_string()));
    assert_eq!(doc.template[0].children.len(), 1);
    assert_eq!(doc.template[0].children[0].text_content, Some("hi".to_string()));
}

#[test]
fn frontmatter_without_field_scans_children_by_kind() {
    let source = "a = 1";
    let py = leaf(CstKind::PythonContent, 0, 5);
    let other = leaf(CstKind::Other, 0, 0);
    let fm = node(CstKind::Frontmatter, None, 0, 5, 0, 0, vec![other, py]);
    let root = node(CstKind::Other, None, 0, 5, 0, 0, vec![fm]);
    let doc = map_document(source, &root);
    assert_eq!(doc.python_code, "a = 1");
}

#[test]
fn doctype_maps_to_blank_placeholder() {
    let source = "<!DOCTYPE html>";
    let dt = leaf(CstKind::Doctype, 0, 15);
    let tpl = node(CstKind::TemplateSection, None, 0, 15, 0, 0, vec![dt]);
    let root = node(CstKind::Other, None, 0, 15, 0, 0, vec![tpl]);
    let doc = map_document(source, &root);
    assert_eq!(doc.template.len(), 1);
    let p = &doc.template[0];
    assert_eq!(p.tag, None);
    assert!(!p.is_block);
    assert_eq!(p.text_content, None);
}

#[test]
fn check_wf_accepts_and_rejects() {
    let good = leaf(CstKind::Text, 0, 3);
    assert!(pywire_parser::cst::check_wf(&good, 3));
    let bad = leaf(CstKind::Text, 2, 1);
    assert!(!pywire_parser::cst::check_wf(&bad, 5));
    let too_long = leaf(CstKind::Text, 0, 9);
    assert!(!pywire_parser::cst::check_wf(&too_long, 5));
}

#[test]
fn block_opener_strips_repeated_closing_braces() {
    let source = "{$if x}}";
    let p = map_node(source, &leaf(CstKind::BraceBlock, 0, 8));
    assert_eq!(p.block_keyword, Some("if".to_string()));
    assert_eq!(p.expression, Some("x".to_string()));
}

#[test]
fn block_closer_for() {
    let source = "{/for}";
    let p = map_node(source, &leaf(CstKind::EndBraceBlock, 0, 6));
    assert_eq!(p.block_keyword, Some("/for".to_string()));
}

#[test]
fn nested_elements_map_recursively() {
    let source = "<ul><li>a</li></ul>";
    let li_name = node(CstKind::Other, Some(CstField::Name), 5, 7, 0, 5, Vec::new());
    let li_text = node(CstKind::Text, None, 8, 9, 0, 8, Vec::new());
    let li = node(CstKind::Tag, None, 4, 14, 0, 4, vec![li_name, li_text]);
    let ul_name = node(CstKind::Other, Some(CstField::Name), 1, 3, 0, 1, Vec::new());
    let ul = node(CstKind::Tag, None, 0, 19, 0, 0, vec![ul_name, li]);
    let p = map_node(source, &ul);
    assert_eq!(p.tag, Some("ul".to_string()));
    assert_eq!(p.children.len(), 1);
    assert_eq!(p.children[0].tag, Some("li".to_string()));
    assert_eq!(p.children[0].children.len(), 1);
    assert_eq!(p.children[0].children[0].text_content, Some("a".to_string()));
}

#[test]
fn attribute_order_is_kept_for_serialization() {
    let source = "b=\"2\" a=\"1\"";
    let mk = |ns: usize, vs: usize| {
        node(
            CstKind::Attribute,
            None,
            ns,
            vs + 3,
            0,
            ns,
            vec![
                node(CstKind::Other, Some(CstField::Name), ns, ns + 1, 0, ns, Vec::new()),
                node(CstKind::Other, Some(CstField::Value), vs, vs + 3, 0, vs, Vec::new()),
            ],
        )
    };
    let el = node(CstKind::Tag, None, 0, 11, 0, 0, vec![mk(0, 2), mk(6, 8)]);
    let p = map_node(source, &el);
    assert_eq!(p.attributes.len(), 2);
    assert_eq!(p.attributes.key_at(0), "b");
    assert_eq!(p.attributes.value_at(0), &Some("2".to_string()));
    assert_eq!(p.attributes.key_at(1), "a");
    assert_eq!(p.attributes.value_at(1), &Some("1".to_string()));
}

#[test]
fn script_tag_still_collects_attributes() {
    let source = "<script defer>x</script>";
    let attr_name = node(CstKind::Other, Some(CstField::Name), 8, 13, 0, 8, Vec::new());
    let attr = node(CstKind::Attribute, None, 8, 13, 0, 8, vec![attr_name]);
    let gt = leaf(CstKind::TagClose, 13, 14);
    let close = leaf(CstKind::ScriptClose, 15, 24);
    let el = node(CstKind::ScriptTag, None, 0, 24, 0, 0, vec![attr, gt, close]);
    let p = map_node(source, &el);
    assert_eq!(p.attributes.get(&"defer".to_string()), Some(&None));
    assert_eq!(p.children.len(), 1);
    assert_eq!(p.children[0].text_content, Some("x".to_string()));
}

#[test]
fn script_without_closer_has_no_raw_child() {
    let source = "<script>x";
    let gt = leaf(CstKind::TagClose, 7, 8);
    let el = node(CstKind::ScriptTag, None, 0, 9, 0, 0, vec![gt]);
    let p = map_node(source, &el);
    assert_eq!(p.children.len(), 0);
}

#[test]
fn two_frontmatter_regions_concatenate() {
    let source = "a=1\nb=2\n";
    let py1 = node(CstKind::PythonContent, Some(CstField::PythonContent), 0, 4, 0, 0, Vec::new());
    let fm1 = node(CstKind::Frontmatter, None, 0, 4, 0, 0, vec![py1]);
    let py2 = node(CstKind::PythonContent, Some(CstField::PythonContent), 4, 8, 1, 0, Vec::new());
    let fm2 = node(CstKind::Frontmatter, None, 4, 8, 1, 0, vec![py2]);
    let root = node(CstKind::Other, None, 0, 8, 0, 0, vec![fm1, fm2]);
    let doc = map_document(source, &root);
    assert_eq!(doc.python_code, "a=1\nb=2\n");
}

#[test]
fn frontmatter_fallback_takes_first_matching_child_only() {
    let source = "a=1\nb=2\n";
    let skip = leaf(CstKind::Other, 0, 0);
    let py1 = leaf(CstKind::PythonContent, 0, 4);
    let py2 = leaf(CstKind::PythonContent, 4, 8);
    let fm = node(CstKind::Frontmatter, None, 0, 8, 0, 0, vec![skip, py1, py2]);
    let root = node(CstKind::Other, None, 0, 8, 0, 0, vec![fm]);
    let doc = map_document(source, &root);
    assert_eq!(doc.python_code, "a=1\n");
}
