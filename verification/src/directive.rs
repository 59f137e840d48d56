//! Directive extraction.
//!
//! A directive token reads `!name content`: after trimming, one leading `!`
//! is stripped, the maximal run of word characters becomes the name, and
//! whatever follows, trimmed, becomes the content (absent when empty).

use vstd::prelude::*;
use crate::chars::is_word_char;
use crate::cst::CstNode;
use crate::text::{scan_word_end, spec_trim, trim_str, word_run_end};

verus! {

/// Mathematical model of one parsed directive.
pub struct DirectiveModel {
    pub name: Seq<char>,
    pub content: Option<Seq<char>>,
    pub line: int,
    pub column: int,
}

/// One directive of the directive section: its name, its content if any,
/// and its 1-based line and 0-based column in the source.
#[derive(Clone, Debug)]
pub struct ParsedDirective {
    pub name: String,
    pub content: Option<String>,
    pub line: usize,
    pub column: usize,
}

impl View for ParsedDirective {
    type V = DirectiveModel;

    open spec fn view(&self) -> DirectiveModel {
        DirectiveModel {
            name: self.name@,
            content: match self.content {
                Some(c) => Some(c@),
                None => None,
            },
            line: self.line as int,
            column: self.column as int,
        }
    }
}

/// The directive text after trimming and after stripping one leading `!`.
pub open spec fn directive_body(text: Seq<char>) -> Seq<char> {
    let t = spec_trim(text);
    if t.len() >= 1 && t[0] == '!' {
        t.skip(1)
    } else {
        t
    }
}

/// The name: the maximal leading run of word characters of the body.
pub open spec fn spec_directive_name(text: Seq<char>) -> Seq<char> {
    let a = directive_body(text);
    a.take(word_run_end(a, 0))
}

/// The content: what follows the name, trimmed; `None` when empty.
pub open spec fn spec_directive_content(text: Seq<char>) -> Option<Seq<char>> {
    let a = directive_body(text);
    let c = spec_trim(a.skip(word_run_end(a, 0)));
    if c.len() == 0 {
        None
    } else {
        Some(c)
    }
}

/// The directive a CST node maps to.
pub open spec fn directive_model(src: Seq<char>, node: CstNode) -> DirectiveModel {
    DirectiveModel {
        name: spec_directive_name(node.text(src)),
        content: spec_directive_content(node.text(src)),
        line: node.row + 1,
        column: node.column as int,
    }
}

/// Maps one directive CST node to a [`ParsedDirective`].
pub fn map_any_directive(source: &str, node: &CstNode) -> (r: ParsedDirective)
    requires
        node.wf(source@.len()),
    ensures
        r@ == directive_model(source@, *node),
{
    let ghost text = node.text(source@);
    let text_s = source.substring_char(node.start, node.end);
    let trimmed = trim_str(text_s);
    let tlen = trimmed.unicode_len();
    let body = if tlen >= 1 && trimmed.get_char(0) == '!' {
        let b = trimmed.substring_char(1, tlen);
        proof {
            assert(b@ =~= directive_body(text));
        }
        b
    } else {
        trimmed
    };
    let blen = body.unicode_len();
    let k = scan_word_end(body, 0);
    let name_s = body.substring_char(0, k);
    let rest = body.substring_char(k, blen);
    let content_s = trim_str(rest);
    let content = if content_s.unicode_len() == 0 {
        None
    } else {
        Some(content_s.to_owned())
    };
    proof {
        assert(name_s@ =~= directive_body(text).take(word_run_end(directive_body(text), 0)));
        assert(rest@ =~= directive_body(text).skip(word_run_end(directive_body(text), 0)));
    }
    ParsedDirective {
        name: name_s.to_owned(),
        content,
        line: node.row + 1,
        column: node.column,
    }
}

/// Decomposition law for well-formed directive texts.
///
/// For a directive text `!name rest` — a `!`, then a name of word
/// characters, then a remainder that does not begin with a word character —
/// the parsed name is exactly `name`, and the parsed content is the
/// remainder trimmed, absent when nothing but whitespace follows the name.
/// The hypotheses spell out what "of that form" means for the character
/// classes: word characters and `!` are not whitespace, and the remainder,
/// if non-empty, opens with a non-word character.
pub proof fn lemma_directive_decomposition(name: Seq<char>, rest: Seq<char>)
    ensures
        ((forall|i: int| 0 <= i < name.len() ==> is_word_char(#[trigger] name[i])) && (forall|
            i: int,
        |
            0 <= i < name.len() ==> !crate::chars::uni_ws(#[trigger] name[i]))
            && !crate::chars::uni_ws('!') && (rest.len() > 0 ==> !is_word_char(rest[0])))
            ==> spec_directive_name(seq!['!'] + name + rest) == name
            && spec_directive_content(seq!['!'] + name + rest) == (if spec_trim(rest).len()
            == 0 {
            Option::<Seq<char>>::None
        } else {
            Option::<Seq<char>>::Some(spec_trim(rest))
        }),
{
    let text = seq!['!'] + name + rest;
    if (forall|i: int| 0 <= i < name.len() ==> is_word_char(#[trigger] name[i]))
        && (forall|i: int| 0 <= i < name.len() ==> !crate::chars::uni_ws(#[trigger] name[i]))
        && !crate::chars::uni_ws('!') && (rest.len() > 0 ==> !is_word_char(rest[0])) {
        lemma_directive_decomposition_inner(name, rest);
    }
}

proof fn lemma_directive_decomposition_inner(name: Seq<char>, rest: Seq<char>)
    requires
        forall|i: int| 0 <= i < name.len() ==> is_word_char(#[trigger] name[i]),
        forall|i: int| 0 <= i < name.len() ==> !crate::chars::uni_ws(#[trigger] name[i]),
        !crate::chars::uni_ws('!'),
        rest.len() > 0 ==> !is_word_char(rest[0]),
    ensures
        spec_directive_name(seq!['!'] + name + rest) == name,
        spec_directive_content(seq!['!'] + name + rest) == (if spec_trim(rest).len() == 0 {
            Option::<Seq<char>>::None
        } else {
            Option::<Seq<char>>::Some(spec_trim(rest))
        }),
{
    let text = seq!['!'] + name + rest;
    let m = 1 + name.len() as int;
    let len = text.len() as int;
    assert(text[0] == '!');
    assert forall|i: int| 1 <= i < m implies !crate::chars::uni_ws(text[i]) by {
        assert(text[i] == name[i - 1]);
    }
    crate::text::lemma_ws_run_back_lower(text, m, len);
    crate::text::lemma_ws_run_back_props(text, len);
    let b = crate::text::ws_run_back(text, len);
    assert(crate::text::ws_run_end(text, 0) == 0);
    let t = spec_trim(text);
    assert(t =~= text.take(b));
    assert(t.len() == b && b >= m);
    assert(t[0] == '!');
    let a = directive_body(text);
    let j = b - m;
    assert(a =~= name + rest.take(j)) by {
        assert(a.len() == b - 1);
        assert forall|i: int| 0 <= i < b - 1 implies a[i] == (name + rest.take(j))[i] by {
            assert(a[i] == text[i + 1]);
        }
    }
    assert(word_run_end(a, 0) == name.len()) by {
        assert forall|i: int| 0 <= i < name.len() implies is_word_char(#[trigger] a[i]) by {
            assert(a[i] == name[i]);
        }
        if (name.len() as int) < a.len() {
            assert(a[name.len() as int] == rest[0]);
            assert(rest.len() > 0);
        }
        crate::text::lemma_word_run_stops(a, name.len() as int);
    }
    assert(spec_directive_name(text) =~= name);
    assert(a.skip(name.len() as int) =~= rest.take(j));
    assert(spec_trim(rest.take(j)) == spec_trim(rest)) by {
        assert forall|i: int| j <= i < rest.len() implies crate::chars::uni_ws(#[trigger] rest[i])
            by {
            assert(rest[i] == text[i + m]);
            assert(b <= i + m < len);
        }
        if j > 0 {
            assert(text[b - 1] == rest[j - 1]);
        }
        crate::text::lemma_trim_drop_ws_tail(rest, j);
    }
}

} // verus!
