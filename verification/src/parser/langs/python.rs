//! Python language configuration for the query-driven parser.

use vstd::prelude::*;
use crate::parser::parse::Grammar;
use crate::conflict::payload::{extract_signature, signature_of};
use crate::domain::{Symbol, SymbolKind, SymbolV, Visibility};
use crate::parser::engine::{node_span, opt_str_of};
use crate::parser::lang_config::{CommentStyle, LanguageConfig, default_kind_mapping, default_kind_of, opt_str,
    strs_of};
use crate::parser::syntax::SyntaxTree;
use crate::text::{ends_with, has_prefix, has_suffix, starts_with, string_of, to_chars, trim_text, trimmed};

verus! {

/// Python language configuration.
pub struct PythonConfig;

/// `raw` without a surrounding pair of triple quotes (`"""` or `'''`), if it
/// has one.
pub open spec fn strip_triple_quotes(raw: Seq<char>) -> Seq<char> {
    if has_prefix(raw, "\"\"\""@) && has_suffix(raw.skip(3), "\"\"\""@) {
        raw.subrange(3, raw.len() - 3)
    } else if has_prefix(raw, "'''"@) && has_suffix(raw.skip(3), "'''"@) {
        raw.subrange(3, raw.len() - 3)
    } else {
        raw
    }
}

/// The docstring of a function or class node: its body's first named
/// statement, when that is an expression statement holding a string; the
/// string's text without triple quotes, trimmed, when not empty.
pub open spec fn docstring_of(t: &SyntaxTree, node: int) -> Option<Seq<char>> {
    match t.field_of(node, "body"@) {
        Some(b) => match t.first_named(t.children_of(b as int)) {
            Some(f) => if t.kind_of(f as int) == "expression_statement"@ {
                match t.child_at(f as int, 0) {
                    Some(e) => if t.kind_of(e as int) == "string"@ {
                        let d = trimmed(strip_triple_quotes(t.text_of(e as int)));
                        if d.len() > 0 {
                            Some(d)
                        } else {
                            None
                        }
                    } else {
                        None
                    },
                    None => None,
                }
            } else {
                None
            },
            None => None,
        },
        None => None,
    }
}

/// A decorated definition takes the decorated node's span and, when its
/// first line is not blank, that line as signature.
pub open spec fn with_decorator(t: &SyntaxTree, sym: SymbolV, node: int) -> SymbolV {
    match t.parent_of(node) {
        Some(p) => if t.kind_of(p as int) == "decorated_definition"@ {
            let sig = signature_of(t.text_of(p as int));
            SymbolV {
                span: node_span(t, p as int),
                signature: if sig.len() > 0 {
                    Some(sig)
                } else {
                    sym.signature
                },
                ..sym
            }
        } else {
            sym
        },
        None => sym,
    }
}

pub open spec fn python_adjust(t: &SyntaxTree, sym: SymbolV, node: int) -> SymbolV {
    let s = with_decorator(t, sym, node);
    if (s.kind == SymbolKind::Function || s.kind == SymbolKind::Class) && docstring_of(t, node) is Some {
        SymbolV { doc_comment: docstring_of(t, node), ..s }
    } else {
        s
    }
}

/// A string literal's text without a surrounding pair of triple quotes.
pub(crate) fn strip_triple(raw: &str) -> (r: String)
    ensures
        r@ == strip_triple_quotes(raw@),
{
    proof {
        reveal_strlit("\"\"\"");
        reveal_strlit("'''");
    }
    let chars = to_chars(raw);
    let n = chars.len();
    if n >= 3 {
        let rest = string_of(&chars, 3, n);
        assert(rest@ =~= raw@.skip(3));
        if (starts_with(raw, "\"\"\"") && ends_with(rest.as_str(), "\"\"\"")) || (starts_with(raw, "'''")
            && ends_with(rest.as_str(), "'''")) {
            return string_of(&chars, 3, n - 3);
        }
    }
    String::from_str(raw)
}

impl PythonConfig {
    /// The docstring of a function or class node.
    pub fn extract_docstring(tree: &SyntaxTree, node: usize) -> (r: Option<String>)
        requires
            tree.wf(),
            node < tree.nodes@.len(),
        ensures
            opt_str_of(r) == docstring_of(tree, node as int),
    {
        let body = match tree.child_by_field(node, "body") {
            Some(b) => b,
            None => {
                return None;
            },
        };
        let first = match tree.first_named_child(body) {
            Some(f) => f,
            None => {
                return None;
            },
        };
        if !tree.kind_is(first, "expression_statement") {
            return None;
        }
        let expr = match tree.child(first, 0) {
            Some(e) => e,
            None => {
                return None;
            },
        };
        if !tree.kind_is(expr, "string") {
            return None;
        }
        let raw = tree.node_text(expr);
        let content = strip_triple(raw.as_str());
        let d = trim_text(content.as_str());
        if d.unicode_len() > 0 {
            Some(d)
        } else {
            None
        }
    }
}

impl LanguageConfig for PythonConfig {
    open spec fn grammar_rule(&self) -> Grammar {
        Grammar::Python
    }

    fn parse_grammar(&self) -> (r: Grammar) {
        Grammar::Python
    }

    open spec fn extension_list(&self) -> Seq<Seq<char>> {
        seq!["py"@]
    }

    open spec fn style(&self) -> CommentStyle {
        CommentStyle::Hash
    }

    open spec fn visibility_rule(&self, modifiers: Option<Seq<char>>, name: Seq<char>) -> Visibility {
        if has_prefix(name, "_"@) {
            Visibility::Private
        } else {
            Visibility::Public
        }
    }

    open spec fn kind_rule(&self, suffix: Seq<char>) -> Option<SymbolKind> {
        default_kind_of(suffix)
    }

    open spec fn adjust_rule(&self, sym: SymbolV, tree: &SyntaxTree, node: int) -> SymbolV {
        python_adjust(tree, sym, node)
    }

    open spec fn external_rule(&self, import_path: Seq<char>) -> bool {
        !has_prefix(import_path, "."@)
    }

    fn extensions(&self) -> (r: Vec<&'static str>) {
        let mut r: Vec<&'static str> = Vec::new();
        r.push("py");
        assert(strs_of(r@) =~= self.extension_list());
        r
    }

    fn comment_style(&self) -> (r: CommentStyle) {
        CommentStyle::Hash
    }

    fn resolve_visibility(&self, modifiers: Option<&str>, name: &str) -> (r: Visibility) {
        if starts_with(name, "_") {
            Visibility::Private
        } else {
            Visibility::Public
        }
    }

    fn map_capture_to_kind(&self, capture_suffix: &str) -> (r: Option<SymbolKind>) {
        default_kind_mapping(capture_suffix)
    }

    fn adjust_symbol(&self, sym: &mut Symbol, tree: &SyntaxTree, node: usize) {
        assert(tree.node_wf(node as int));
        match tree.nodes[node].parent {
            Some(p) => {
                if tree.kind_is(p, "decorated_definition") {
                    assert(tree.node_wf(p as int));
                    sym.span = crate::domain::Span {
                        start_byte: tree.nodes[p].start_byte as u32,
                        end_byte: tree.nodes[p].end_byte as u32,
                    };
                    let text = tree.node_text(p);
                    let sig = extract_signature(text.as_str());
                    if sig.unicode_len() > 0 {
                        sym.signature = Some(sig);
                    }
                }
            },
            None => {},
        }
        let is_def = match sym.kind {
            SymbolKind::Function => true,
            SymbolKind::Class => true,
            _ => false,
        };
        if is_def {
            match PythonConfig::extract_docstring(tree, node) {
                Some(d) => {
                    sym.doc_comment = Some(d);
                },
                None => {},
            }
        }
    }

    fn is_external_import(&self, import_path: &str) -> (r: bool) {
        !starts_with(import_path, ".")
    }
}

} // verus!
