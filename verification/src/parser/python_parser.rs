//! A Python parser that walks the syntax tree directly: top-level
//! definitions and assignments as symbols, calls and decorators as call
//! edges, `import` and `from ... import` statements as imports.

use vstd::prelude::*;
use crate::conflict::payload::{extract_signature, signature_of};
use crate::domain::{CallKind, Import, RawCallEdge, Span, Symbol, SymbolKind, SymbolV, Visibility};
use crate::ids::fresh_id;
use crate::parser::engine::{CallV, ImportV, call_view, doc_text, import_view, node_span, opt_str_of, with_id};
use crate::parser::langs::python::{strip_triple, strip_triple_quotes};
use crate::parser::parse::{Grammar, RowV, parse_source, parsed_rows, rows_ok, tree_of_rows};
use crate::parser::syntax::SyntaxTree;
use crate::domain::{Error, FileAnalysis};
use crate::text::{has_prefix, join_texts, starts_with, str_eq, string_of, texts_of, to_chars, trim_text, trimmed};

verus! {

/// Python parser backed by a parsed syntax tree.
pub struct PythonParser;

/// Names starting with `_` are private, all others public.
pub open spec fn py_visibility(name: Seq<char>) -> Visibility {
    if has_prefix(name, "_"@) {
        Visibility::Private
    } else {
        Visibility::Public
    }
}

/// The first line of a node's text, trimmed; none for an empty text.
pub open spec fn py_signature(t: &SyntaxTree, i: int) -> Option<Seq<char>> {
    if t.text_of(i).len() == 0 {
        None
    } else {
        Some(signature_of(t.text_of(i)))
    }
}

/// The docstring of a definition: its body's first child, when an
/// expression statement holding a string; the string without triple
/// quotes, trimmed, when not empty.
pub open spec fn py_docstring(t: &SyntaxTree, node: int) -> Option<Seq<char>> {
    match t.field_of(node, "body"@) {
        Some(b) => match t.child_at(b as int, 0) {
            Some(f) => if t.kind_of(f as int) == "expression_statement"@ {
                match t.child_at(f as int, 0) {
                    Some(e) => if t.kind_of(e as int) == "string"@ {
                        let d = trimmed(strip_triple_quotes(t.text_of(e as int)));
                        if d.len() > 0 {
                            Some(d)
                        } else {
                            None
                        }
                    } else {
                        None
                    },
                    None => None,
                }
            } else {
                None
            },
            None => None,
        },
        None => None,
    }
}

/// The `#` comment lines found walking back from sibling `s`, nearest
/// first, up to a sibling that is no comment or an inline comment.
pub open spec fn py_comment_lines(t: &SyntaxTree, s: Option<usize>, bound: int) -> Seq<Seq<char>>
    decreases bound,
{
    match s {
        None => Seq::empty(),
        Some(p) => {
            if p >= bound || p >= t.size() || t.kind_of(p as int) != "comment"@ {
                Seq::empty()
            } else if (match t.prev_of(p as int) {
                Some(b) => b < t.size() && t.kind_of(b as int) != "comment"@ && t.nodes@[b as int].end_row
                    == t.nodes@[p as int].start_row,
                None => false,
            }) {
                Seq::empty()
            } else {
                seq![trimmed(t.text_of(p as int))] + py_comment_lines(t, t.prev_of(p as int), p as int)
            }
        },
    }
}

pub open spec fn py_doc_comments(t: &SyntaxTree, i: int) -> Option<Seq<char>> {
    doc_text(py_comment_lines(t, t.prev_of(i), i))
}

/// The symbol (id 0) of a function or class definition with a non-empty name.
pub open spec fn py_symbol_of_def(t: &SyntaxTree, node: int, path: Seq<char>) -> Option<SymbolV> {
    let kind = if t.kind_of(node) == "function_definition"@ {
        Some(SymbolKind::Function)
    } else if t.kind_of(node) == "class_definition"@ {
        Some(SymbolKind::Class)
    } else {
        None
    };
    match (kind, t.field_of(node, "name"@)) {
        (Some(k), Some(n)) => {
            let name = t.text_of(n as int);
            if name.len() == 0 {
                None
            } else {
                Some(
                    SymbolV {
                        id: 0,
                        name: name,
                        qualified_name: name,
                        kind: k,
                        visibility: py_visibility(name),
                        file_path: path,
                        span: node_span(t, node),
                        signature: py_signature(t, node),
                        doc_comment: if py_docstring(t, node) is Some {
                            py_docstring(t, node)
                        } else {
                            py_doc_comments(t, node)
                        },
                        parent: None,
                        last_modified_by: None,
                        last_modified_intent: None,
                    },
                )
            }
        },
        _ => None,
    }
}

/// The name a simple top-level assignment `NAME = value` gives.
pub open spec fn py_assignment_name(t: &SyntaxTree, node: int) -> Option<Seq<char>> {
    if t.kind_of(node) != "expression_statement"@ {
        None
    } else {
        match t.child_at(node, 0) {
            Some(c) => if t.kind_of(c as int) != "assignment"@ {
                None
            } else {
                match t.field_of(c as int, "left"@) {
                    Some(l) => if t.kind_of(l as int) == "identifier"@ && t.text_of(l as int).len() > 0 {
                        Some(t.text_of(l as int))
                    } else {
                        None
                    },
                    None => None,
                }
            },
            None => None,
        }
    }
}

pub open spec fn is_def_kind(k: Seq<char>) -> bool {
    k == "function_definition"@ || k == "class_definition"@
}

/// The symbol (id 0) a top-level node gives.
pub open spec fn py_top_symbol(t: &SyntaxTree, node: int, path: Seq<char>) -> Option<SymbolV> {
    if is_def_kind(t.kind_of(node)) {
        py_symbol_of_def(t, node, path)
    } else if t.kind_of(node) == "decorated_definition"@ {
        match t.field_of(node, "definition"@) {
            Some(d) => if is_def_kind(t.kind_of(d as int)) {
                match py_symbol_of_def(t, d as int, path) {
                    Some(s) => Some(SymbolV { span: node_span(t, node), signature: py_signature(t, node), ..s }),
                    None => None,
                }
            } else {
                None
            },
            None => None,
        }
    } else {
        match py_assignment_name(t, node) {
            Some(n) => Some(
                SymbolV {
                    id: 0,
                    name: n,
                    qualified_name: n,
                    kind: SymbolKind::Variable,
                    visibility: py_visibility(n),
                    file_path: path,
                    span: node_span(t, node),
                    signature: py_signature(t, node),
                    doc_comment: py_doc_comments(t, node),
                    parent: None,
                    last_modified_by: None,
                    last_modified_intent: None,
                },
            ),
            None => None,
        }
    }
}

/// The symbols of the top-level nodes `cs`, in order.
pub open spec fn py_symbols(t: &SyntaxTree, cs: Seq<usize>, path: Seq<char>) -> Seq<SymbolV>
    decreases cs.len(),
{
    if cs.len() == 0 {
        Seq::empty()
    } else {
        let prev = py_symbols(t, cs.drop_last(), path);
        match py_top_symbol(t, cs.last() as int, path) {
            Some(s) => prev.push(s),
            None => prev,
        }
    }
}

/// The name of the nearest enclosing function definition from ancestor
/// `cur` upwards, or `<module>`.
pub open spec fn py_enclosing(t: &SyntaxTree, cur: Option<usize>, bound: int) -> Seq<char>
    decreases bound,
{
    match cur {
        None => "<module>"@,
        Some(p) => {
            if p >= bound || p >= t.size() {
                "<module>"@
            } else if t.kind_of(p as int) == "function_definition"@ && (match t.field_of(p as int, "name"@) {
                Some(n) => t.text_of(n as int).len() > 0,
                None => false,
            }) {
                t.text_of(t.field_of(p as int, "name"@)->0 as int)
            } else {
                py_enclosing(t, t.parent_of(p as int), p as int)
            }
        },
    }
}

/// The callee of a call's function node: an attribute names a method (its
/// `attribute` field, else its whole text), anything else a direct call.
pub open spec fn py_callee(t: &SyntaxTree, f: int) -> (Seq<char>, CallKind) {
    if t.kind_of(f) == "attribute"@ {
        match t.field_of(f, "attribute"@) {
            Some(a) => (t.text_of(a as int), CallKind::MethodCall),
            None => (t.text_of(f), CallKind::MethodCall),
        }
    } else {
        (t.text_of(f), CallKind::DirectCall)
    }
}

/// The calls a decorator node `d` makes through its children `cs`: a plain
/// name, or an attribute's `attribute` field.
pub open spec fn py_decorator_calls(t: &SyntaxTree, d: int, cs: Seq<usize>) -> Seq<CallV>
    decreases cs.len(),
{
    if cs.len() == 0 {
        Seq::empty()
    } else {
        let prev = py_decorator_calls(t, d, cs.drop_last());
        let c = cs.last() as int;
        let caller = py_enclosing(t, t.parent_of(d), d);
        if t.kind_of(c) == "identifier"@ && t.text_of(c).len() > 0 {
            prev.push((caller, t.text_of(c), node_span(t, d), CallKind::DirectCall))
        } else if t.kind_of(c) == "attribute"@ && (match t.field_of(c, "attribute"@) {
            Some(a) => t.text_of(a as int).len() > 0,
            None => false,
        }) {
            prev.push((caller, t.text_of(t.field_of(c, "attribute"@)->0 as int), node_span(t, d), CallKind::MethodCall))
        } else {
            prev
        }
    }
}

/// The calls node `i` itself makes.
pub open spec fn py_own_calls(t: &SyntaxTree, i: int) -> Seq<CallV> {
    if t.kind_of(i) == "call"@ {
        match t.field_of(i, "function"@) {
            Some(f) => {
                let (callee, kind) = py_callee(t, f as int);
                if callee.len() > 0 {
                    seq![(py_enclosing(t, t.parent_of(i), i), callee, node_span(t, i), kind)]
                } else {
                    Seq::empty()
                }
            },
            None => Seq::empty(),
        }
    } else if t.kind_of(i) == "decorator"@ {
        py_decorator_calls(t, i, t.children_of(i))
    } else {
        Seq::empty()
    }
}

/// The calls of the subtree at `i`, in pre-order.
pub open spec fn py_calls_at(t: &SyntaxTree, i: int) -> Seq<CallV>
    decreases t.size() - i, 1nat, 0int,
{
    if 0 <= i < t.size() {
        py_own_calls(t, i) + py_child_calls(t, i, t.children_of(i).len() as int)
    } else {
        Seq::empty()
    }
}

/// The calls of the subtrees of the first `k` children of `i`.
pub open spec fn py_child_calls(t: &SyntaxTree, i: int, k: int) -> Seq<CallV>
    decreases t.size() - i, 0nat, k,
{
    if 0 <= i < t.size() && 0 < k <= t.children_of(i).len() {
        let c = t.children_of(i)[k - 1] as int;
        py_child_calls(t, i, k - 1) + if i < c < t.size() {
            py_calls_at(t, c)
        } else {
            Seq::empty()
        }
    } else {
        Seq::empty()
    }
}

/// The imports of an `import` statement's children `cs`.
pub open spec fn py_import_items(t: &SyntaxTree, cs: Seq<usize>) -> Seq<ImportV>
    decreases cs.len(),
{
    if cs.len() == 0 {
        Seq::empty()
    } else {
        let prev = py_import_items(t, cs.drop_last());
        let c = cs.last() as int;
        if t.kind_of(c) == "dotted_name"@ && t.text_of(c).len() > 0 {
            prev.push((t.text_of(c), t.text_of(c), None, true))
        } else if t.kind_of(c) == "aliased_import"@ && t.field_of(c, "name"@) is Some {
            let n = t.text_of(t.field_of(c, "name"@)->0 as int);
            prev.push((n, n, alias_text(t, c), true))
        } else {
            prev
        }
    }
}

/// The text of an aliased import's `alias` field.
pub open spec fn alias_text(t: &SyntaxTree, c: int) -> Option<Seq<char>> {
    match t.field_of(c, "alias"@) {
        Some(a) => Some(t.text_of(a as int)),
        None => None,
    }
}

/// The first index at or after `i` where `n` occurs in `h`.
pub open spec fn find_from(h: Seq<char>, n: Seq<char>, i: int) -> Option<int>
    decreases h.len() + 1 - i,
{
    if i < 0 || i + n.len() > h.len() {
        None
    } else if h.subrange(i, i + n.len()) == n {
        Some(i)
    } else {
        find_from(h, n, i + 1)
    }
}

/// The module of a `from ... import` statement: its `module_name` field,
/// else the trimmed text between `from` and `import`.
pub open spec fn py_from_module(t: &SyntaxTree, node: int) -> Seq<char> {
    match t.field_of(node, "module_name"@) {
        Some(m) => t.text_of(m as int),
        None => {
            let text = t.text_of(node);
            match find_from(text, "from"@, 0) {
                Some(a) => {
                    let after = text.skip(a + 4);
                    match find_from(after, "import"@, 0) {
                        Some(b) => trimmed(after.take(b)),
                        None => Seq::empty(),
                    }
                },
                None => Seq::empty(),
            }
        },
    }
}

/// The imports of the aliased and wildcard children `cs` of a
/// `from ... import` statement.
pub open spec fn py_from_items(t: &SyntaxTree, cs: Seq<usize>, module: Seq<char>, ext: bool) -> Seq<ImportV>
    decreases cs.len(),
{
    if cs.len() == 0 {
        Seq::empty()
    } else {
        let prev = py_from_items(t, cs.drop_last(), module, ext);
        let c = cs.last() as int;
        if t.kind_of(c) == "aliased_import"@ && t.field_of(c, "name"@) is Some {
            prev.push((module, t.text_of(t.field_of(c, "name"@)->0 as int), alias_text(t, c), ext))
        } else if t.kind_of(c) == "wildcard_import"@ {
            prev.push((module, "*"@, None, ext))
        } else {
            prev
        }
    }
}

/// The imports read from the children `cs` after the `import` keyword, and
/// whether that keyword was seen.
pub open spec fn py_from_names(t: &SyntaxTree, cs: Seq<usize>, module: Seq<char>, ext: bool) -> (bool, Seq<ImportV>)
    decreases cs.len(),
{
    if cs.len() == 0 {
        (false, Seq::empty())
    } else {
        let (found, prev) = py_from_names(t, cs.drop_last(), module, ext);
        let c = cs.last() as int;
        let text = t.text_of(c);
        if text == "import"@ {
            (true, prev)
        } else if !found {
            (found, prev)
        } else if (t.kind_of(c) == "dotted_name"@ || t.kind_of(c) == "identifier"@) {
            if text.len() > 0 && text != ","@ {
                (found, prev.push((module, text, None, ext)))
            } else {
                (found, prev)
            }
        } else if t.kind_of(c) == "aliased_import"@ && t.field_of(c, "name"@) is Some {
            (found, prev.push((module, t.text_of(t.field_of(c, "name"@)->0 as int), alias_text(t, c), ext)))
        } else if t.kind_of(c) == "wildcard_import"@ {
            (found, prev.push((module, "*"@, None, ext)))
        } else {
            (found, prev)
        }
    }
}

/// The imports of a `from ... import` statement.
pub open spec fn py_from_imports(t: &SyntaxTree, node: int) -> Seq<ImportV> {
    let module = py_from_module(t, node);
    let ext = !has_prefix(module, "."@);
    let items = py_from_items(t, t.children_of(node), module, ext);
    if items.len() == 0 {
        py_from_names(t, t.children_of(node), module, ext).1
    } else {
        items
    }
}

/// The imports of the top-level nodes `cs`, in order.
pub open spec fn py_imports(t: &SyntaxTree, cs: Seq<usize>) -> Seq<ImportV>
    decreases cs.len(),
{
    if cs.len() == 0 {
        Seq::empty()
    } else {
        let prev = py_imports(t, cs.drop_last());
        let c = cs.last() as int;
        if t.kind_of(c) == "import_statement"@ {
            prev + py_import_items(t, t.children_of(c))
        } else if t.kind_of(c) == "import_from_statement"@ {
            prev + py_from_imports(t, c)
        } else {
            prev
        }
    }
}

/// The views of a list of call edges.
pub open spec fn call_views(v: Seq<RawCallEdge>) -> Seq<CallV> {
    v.map_values(|e: RawCallEdge| call_view(e))
}

/// The views of a list of imports.
pub open spec fn import_views(v: Seq<Import>) -> Seq<ImportV> {
    v.map_values(|i: Import| import_view(i))
}

/// Pushes an import and keeps the views in step.
fn push_import(out: &mut Vec<Import>, module: &str, imported: &str, alias: Option<String>, ext: bool)
    ensures
        import_views(final(out)@) == import_views(old(out)@).push(
            (module@, imported@, opt_str_of(alias), ext),
        ),
{
    let ghost before = import_views(out@);
    let alias_v = alias;
    out.push(
        Import {
            module_name: String::from_str(module),
            imported_name: String::from_str(imported),
            alias: alias_v,
            is_external: ext,
        },
    );
    proof {
        let last = out@.last();
        assert(import_view(last) == (module@, imported@, opt_str_of(alias_v), ext)) by {
            match alias_v {
                Some(a) => {},
                None => {},
            }
        }
        assert(import_views(out@) =~= before.push(import_view(last)));
    }
}

impl PythonParser {
    pub fn new() -> (r: Self) {
        PythonParser
    }

    /// The file extensions handled.
    pub fn extensions(&self) -> (r: Vec<&'static str>)
        ensures
            r@.len() == 1 && r@[0]@ == "py"@,
    {
        let mut r: Vec<&'static str> = Vec::new();
        r.push("py");
        r
    }

    fn name_visibility(name: &str) -> (r: Visibility)
        ensures
            r == py_visibility(name@),
    {
        if starts_with(name, "_") {
            Visibility::Private
        } else {
            Visibility::Public
        }
    }

    fn node_signature(tree: &SyntaxTree, i: usize) -> (r: Option<String>)
        requires
            tree.wf(),
            i < tree.nodes@.len(),
        ensures
            opt_str_of(r) == py_signature(tree, i as int),
    {
        let text = tree.node_text(i);
        if text.unicode_len() == 0 {
            None
        } else {
            Some(extract_signature(text.as_str()))
        }
    }

    fn extract_docstring(tree: &SyntaxTree, node: usize) -> (r: Option<String>)
        requires
            tree.wf(),
            node < tree.nodes@.len(),
        ensures
            opt_str_of(r) == py_docstring(tree, node as int),
    {
        let body = match tree.child_by_field(node, "body") {
            Some(b) => b,
            None => {
                return None;
            },
        };
        let first = match tree.child(body, 0) {
            Some(f) => f,
            None => {
                return None;
            },
        };
        if !tree.kind_is(first, "expression_statement") {
            return None;
        }
        let expr = match tree.child(first, 0) {
            Some(e) => e,
            None => {
                return None;
            },
        };
        if !tree.kind_is(expr, "string") {
            return None;
        }
        let raw = tree.node_text(expr);
        let content = strip_triple(raw.as_str());
        let d = trim_text(content.as_str());
        if d.unicode_len() > 0 {
            Some(d)
        } else {
            None
        }
    }

    /// The `#` comments directly above `node`, joined in source order.
    fn doc_comments(tree: &SyntaxTree, node: usize) -> (r: Option<String>)
        requires
            tree.wf(),
            node < tree.nodes@.len(),
        ensures
            opt_str_of(r) == py_doc_comments(tree, node as int),
    {
        let ghost goal = py_comment_lines(tree, tree.prev_of(node as int), node as int);
        let mut lines: Vec<String> = Vec::new();
        let mut sib = tree.nodes[node].prev_sibling;
        let ghost mut bound: int = node as int;
        assert(tree.node_wf(node as int));
        loop
            invariant
                tree.wf(),
                bound < tree.nodes@.len(),
                sib matches Some(p) ==> p < bound,
                texts_of(lines@) + py_comment_lines(tree, sib, bound) == goal,
            ensures
                texts_of(lines@) == goal,
            decreases bound,
        {
            match sib {
                None => {
                    assert(texts_of(lines@) + Seq::<Seq<char>>::empty() =~= texts_of(lines@));
                    break;
                },
                Some(p) => {
                    assert(tree.node_wf(p as int));
                    if !tree.kind_is(p, "comment") {
                        assert(texts_of(lines@) + Seq::<Seq<char>>::empty() =~= texts_of(lines@));
                        break;
                    }
                    let mut inline = false;
                    match tree.nodes[p].prev_sibling {
                        Some(b) => {
                            if !tree.kind_is(b, "comment") && tree.nodes[b].end_row == tree.nodes[p].start_row {
                                inline = true;
                            }
                        },
                        None => {},
                    }
                    if inline {
                        assert(texts_of(lines@) + Seq::<Seq<char>>::empty() =~= texts_of(lines@));
                        break;
                    }
                    let raw = tree.node_text(p);
                    let tx = trim_text(raw.as_str());
                    let ghost old_lines = texts_of(lines@);
                    lines.push(tx);
                    assert(texts_of(lines@) =~= old_lines.push(trimmed(tree.text_of(p as int))));
                    assert(old_lines + py_comment_lines(tree, sib, bound) =~= texts_of(lines@) + py_comment_lines(
                        tree,
                        tree.prev_of(p as int),
                        p as int,
                    ));
                    sib = tree.nodes[p].prev_sibling;
                    proof {
                        bound = p as int;
                    }
                },
            }
        }
        if lines.len() == 0 {
            None
        } else {
            let mut ordered: Vec<String> = Vec::new();
            let mut k: usize = lines.len();
            while k > 0
                invariant
                    k <= lines@.len(),
                    ordered@.len() == lines@.len() - k,
                    texts_of(ordered@) == texts_of(lines@).subrange(k as int, lines@.len() as int).reverse(),
                decreases k,
            {
                k = k - 1;
                let line = String::from_str(lines[k].as_str());
                let ghost before = texts_of(ordered@);
                ordered.push(line);
                assert(texts_of(ordered@) =~= before.push(lines@[k as int]@));
                assert(texts_of(ordered@) =~= texts_of(lines@).subrange(k as int, lines@.len() as int).reverse());
            }
            assert(texts_of(lines@).subrange(0, lines@.len() as int) =~= texts_of(lines@));
            Some(join_texts(&ordered, "\n"))
        }
    }

    /// The symbol of a function or class definition; its id is fresh.
    fn extract_symbol_from_def(tree: &SyntaxTree, node: usize, file_path: &str) -> (r: Option<Symbol>)
        requires
            tree.wf(),
            node < tree.nodes@.len(),
        ensures
            match py_symbol_of_def(tree, node as int, file_path@) {
                Some(sv) => r matches Some(x) && x@ == with_id(sv, x.id),
                None => r is None,
            },
    {
        let kind = if tree.kind_is(node, "function_definition") {
            SymbolKind::Function
        } else if tree.kind_is(node, "class_definition") {
            SymbolKind::Class
        } else {
            return None;
        };
        let name = match tree.child_by_field(node, "name") {
            Some(n) => tree.node_text(n),
            None => {
                return None;
            },
        };
        if name.unicode_len() == 0 {
            return None;
        }
        let visibility = PythonParser::name_visibility(name.as_str());
        let signature = PythonParser::node_signature(tree, node);
        let doc_comment = match PythonParser::extract_docstring(tree, node) {
            Some(d) => Some(d),
            None => PythonParser::doc_comments(tree, node),
        };
        let qualified = String::from_str(name.as_str());
        Some(
            Symbol {
                id: fresh_id(),
                name,
                qualified_name: qualified,
                kind,
                visibility,
                file_path: String::from_str(file_path),
                span: Span {
                    start_byte: tree.nodes[node].start_byte as u32,
                    end_byte: tree.nodes[node].end_byte as u32,
                },
                signature,
                doc_comment,
                parent: None,
                last_modified_by: None,
                last_modified_intent: None,
            },
        )
    }

    /// The name of a simple top-level assignment.
    fn extract_assignment_name(tree: &SyntaxTree, node: usize) -> (r: Option<String>)
        requires
            tree.wf(),
            node < tree.nodes@.len(),
        ensures
            opt_str_of(r) == py_assignment_name(tree, node as int),
    {
        if !tree.kind_is(node, "expression_statement") {
            return None;
        }
        let c = match tree.child(node, 0) {
            Some(c) => c,
            None => {
                return None;
            },
        };
        if !tree.kind_is(c, "assignment") {
            return None;
        }
        let left = match tree.child_by_field(c, "left") {
            Some(l) => l,
            None => {
                return None;
            },
        };
        if !tree.kind_is(left, "identifier") {
            return None;
        }
        let name = tree.node_text(left);
        if name.unicode_len() == 0 {
            None
        } else {
            Some(name)
        }
    }

    /// The symbol a top-level node gives; its id is fresh.
    fn top_symbol(tree: &SyntaxTree, node: usize, file_path: &str) -> (r: Option<Symbol>)
        requires
            tree.wf(),
            node < tree.nodes@.len(),
        ensures
            match py_top_symbol(tree, node as int, file_path@) {
                Some(sv) => r matches Some(x) && x@ == with_id(sv, x.id),
                None => r is None,
            },
    {
        if tree.kind_is(node, "function_definition") || tree.kind_is(node, "class_definition") {
            PythonParser::extract_symbol_from_def(tree, node, file_path)
        } else if tree.kind_is(node, "decorated_definition") {
            match tree.child_by_field(node, "definition") {
                Some(d) => {
                    if tree.kind_is(d, "function_definition") || tree.kind_is(d, "class_definition") {
                        match PythonParser::extract_symbol_from_def(tree, d, file_path) {
                            Some(mut sym) => {
                                sym.span = Span {
                                    start_byte: tree.nodes[node].start_byte as u32,
                                    end_byte: tree.nodes[node].end_byte as u32,
                                };
                                sym.signature = PythonParser::node_signature(tree, node);
                                Some(sym)
                            },
                            None => None,
                        }
                    } else {
                        None
                    }
                },
                None => None,
            }
        } else {
            match PythonParser::extract_assignment_name(tree, node) {
                Some(name) => {
                    let visibility = PythonParser::name_visibility(name.as_str());
                    let qualified = String::from_str(name.as_str());
                    Some(
                        Symbol {
                            id: fresh_id(),
                            name,
                            qualified_name: qualified,
                            kind: SymbolKind::Variable,
                            visibility,
                            file_path: String::from_str(file_path),
                            span: Span {
                                start_byte: tree.nodes[node].start_byte as u32,
                                end_byte: tree.nodes[node].end_byte as u32,
                            },
                            signature: PythonParser::node_signature(tree, node),
                            doc_comment: PythonParser::doc_comments(tree, node),
                            parent: None,
                            last_modified_by: None,
                            last_modified_intent: None,
                        },
                    )
                },
                None => None,
            }
        }
    }

    /// The symbols of a Python file: its top-level function and class
    /// definitions (decorated ones spanning their decorators) and simple
    /// assignments. Each has a fresh id.
    pub fn extract_symbols(&self, tree: &SyntaxTree, file_path: &str) -> (r: Vec<Symbol>)
        requires
            tree.wf(),
        ensures
            tree.source@.len() == 0 || tree.nodes@.len() == 0 ==> r@.len() == 0,
            tree.source@.len() > 0 && tree.nodes@.len() > 0 ==> {
                &&& r@.len() == py_symbols(tree, tree.children_of(0), file_path@).len()
                &&& forall|k: int| 0 <= k < r@.len() ==> #[trigger] r@[k]@ == with_id(
                    py_symbols(tree, tree.children_of(0), file_path@)[k],
                    r@[k].id,
                )
            },
    {
        let mut out: Vec<Symbol> = Vec::new();
        if tree.source.len() == 0 || tree.nodes.len() == 0 {
            return out;
        }
        assert(tree.node_wf(0));
        let cs = &tree.nodes[0].children;
        let mut k: usize = 0;
        while k < cs.len()
            invariant
                tree.wf(),
                0 < tree.nodes@.len(),
                cs@ == tree.children_of(0),
                k <= cs@.len(),
                out@.len() == py_symbols(tree, cs@.take(k as int), file_path@).len(),
                forall|j: int| 0 <= j < out@.len() ==> #[trigger] out@[j]@ == with_id(
                    py_symbols(tree, cs@.take(k as int), file_path@)[j],
                    out@[j].id,
                ),
            decreases cs@.len() - k,
        {
            assert(cs@.take(k + 1).drop_last() =~= cs@.take(k as int));
            assert(tree.node_wf(0));
            let c = cs[k];
            match PythonParser::top_symbol(tree, c, file_path) {
                Some(sym) => {
                    out.push(sym);
                },
                None => {},
            }
            k = k + 1;
        }
        assert(cs@.take(cs@.len() as int) =~= cs@);
        out
    }

    /// The name of the function definition enclosing `node`, or `<module>`.
    fn enclosing_function_name(tree: &SyntaxTree, node: usize) -> (r: String)
        requires
            tree.wf(),
            node < tree.nodes@.len(),
        ensures
            r@ == py_enclosing(tree, tree.parent_of(node as int), node as int),
    {
        let ghost goal = py_enclosing(tree, tree.parent_of(node as int), node as int);
        assert(tree.node_wf(node as int));
        let mut cur = tree.nodes[node].parent;
        let ghost mut bound: int = node as int;
        while cur.is_some()
            invariant
                tree.wf(),
                bound < tree.nodes@.len(),
                cur matches Some(p) ==> p < bound,
                py_enclosing(tree, cur, bound) == goal,
                goal == py_enclosing(tree, tree.parent_of(node as int), node as int),
            decreases bound,
        {
            let p = cur.unwrap();
            assert(tree.node_wf(p as int));
            if tree.kind_is(p, "function_definition") {
                if let Some(n) = tree.child_by_field(p, "name") {
                    let name = tree.node_text(n);
                    if name.unicode_len() > 0 {
                        return name;
                    }
                }
            }
            cur = tree.nodes[p].parent;
            proof {
                bound = p as int;
            }
        }
        String::from_str("<module>")
    }

    /// The callee and call kind of a call's function node.
    fn extract_callee_info(tree: &SyntaxTree, f: usize) -> (r: (String, CallKind))
        requires
            tree.wf(),
            f < tree.nodes@.len(),
        ensures
            (r.0@, r.1) == py_callee(tree, f as int),
    {
        if tree.kind_is(f, "attribute") {
            match tree.child_by_field(f, "attribute") {
                Some(a) => (tree.node_text(a), CallKind::MethodCall),
                None => (tree.node_text(f), CallKind::MethodCall),
            }
        } else {
            (tree.node_text(f), CallKind::DirectCall)
        }
    }

    /// Appends the calls node `i` itself makes.
    fn own_calls(tree: &SyntaxTree, i: usize, calls: &mut Vec<RawCallEdge>)
        requires
            tree.wf(),
            i < tree.nodes@.len(),
        ensures
            call_views(final(calls)@) == call_views(old(calls)@) + py_own_calls(tree, i as int),
    {
        let ghost start = call_views(calls@);
        let span = Span { start_byte: tree.nodes[i].start_byte as u32, end_byte: tree.nodes[i].end_byte as u32 };
        if tree.kind_is(i, "call") {
            match tree.child_by_field(i, "function") {
                Some(f) => {
                    let (callee, kind) = PythonParser::extract_callee_info(tree, f);
                    if callee.unicode_len() > 0 {
                        let caller = PythonParser::enclosing_function_name(tree, i);
                        calls.push(RawCallEdge { caller_name: caller, callee_name: callee, call_site: span, kind });
                        assert(call_views(calls@) =~= start + py_own_calls(tree, i as int));
                    } else {
                        assert(call_views(calls@) =~= start + Seq::<CallV>::empty());
                    }
                },
                None => {
                    assert(call_views(calls@) =~= start + Seq::<CallV>::empty());
                },
            }
        } else if tree.kind_is(i, "decorator") {
            assert(tree.node_wf(i as int));
            proof {
                reveal_strlit("identifier");
                reveal_strlit("attribute");
                assert("identifier"@.len() != "attribute"@.len());
            }
            let cs = &tree.nodes[i].children;
            let mut k: usize = 0;
            while k < cs.len()
                invariant
                    tree.wf(),
                    i < tree.nodes@.len(),
                    "identifier"@ != "attribute"@,
                    cs@ == tree.children_of(i as int),
                    k <= cs@.len(),
                    span == node_span(tree, i as int),
                    call_views(calls@) == start + py_decorator_calls(tree, i as int, cs@.take(k as int)),
                decreases cs@.len() - k,
            {
                assert(cs@.take(k + 1).drop_last() =~= cs@.take(k as int));
                assert(cs@.take(k + 1).last() == cs@[k as int]);
                assert(tree.node_wf(i as int));
                let c = cs[k];
                let ghost before = call_views(calls@);
                if tree.kind_is(c, "identifier") {
                    let name = tree.node_text(c);
                    if name.unicode_len() > 0 {
                        let caller = PythonParser::enclosing_function_name(tree, i);
                        let ghost v = (caller@, name@, span, CallKind::DirectCall);
                        calls.push(
                            RawCallEdge {
                                caller_name: caller,
                                callee_name: name,
                                call_site: span,
                                kind: CallKind::DirectCall,
                            },
                        );
                        assert(call_views(calls@) =~= before.push(v));
                        assert(py_decorator_calls(tree, i as int, cs@.take(k + 1)) == py_decorator_calls(
                            tree,
                            i as int,
                            cs@.take(k as int),
                        ).push(v));
                        assert(call_views(calls@) =~= start + py_decorator_calls(tree, i as int, cs@.take(k + 1)));
                    }
                } else if tree.kind_is(c, "attribute") {
                    assert(tree.node_wf(c as int));
                    if let Some(a) = tree.child_by_field(c, "attribute") {
                        let name = tree.node_text(a);
                        if name.unicode_len() > 0 {
                            let caller = PythonParser::enclosing_function_name(tree, i);
                            let ghost v = (caller@, name@, span, CallKind::MethodCall);
                            calls.push(
                                RawCallEdge {
                                    caller_name: caller,
                                    callee_name: name,
                                    call_site: span,
                                    kind: CallKind::MethodCall,
                                },
                            );
                            assert(call_views(calls@) =~= before.push(v));
                            assert(py_decorator_calls(tree, i as int, cs@.take(k + 1)) == py_decorator_calls(
                                tree,
                                i as int,
                                cs@.take(k as int),
                            ).push(v));
                            assert(call_views(calls@) =~= start + py_decorator_calls(
                                tree,
                                i as int,
                                cs@.take(k + 1),
                            ));
                        }
                    }
                }
                assert(call_views(calls@) == start + py_decorator_calls(tree, i as int, cs@.take(k + 1)));
                k = k + 1;
            }
            assert(cs@.take(cs@.len() as int) =~= cs@);
        } else {
            assert(call_views(calls@) =~= start + Seq::<CallV>::empty());
        }
    }

    /// Appends the calls of the subtree at `i`, in pre-order.
    fn walk_calls(tree: &SyntaxTree, i: usize, calls: &mut Vec<RawCallEdge>)
        requires
            tree.wf(),
            i < tree.nodes@.len(),
        ensures
            call_views(final(calls)@) == call_views(old(calls)@) + py_calls_at(tree, i as int),
        decreases tree.nodes@.len() - i,
    {
        let ghost start = call_views(calls@);
        PythonParser::own_calls(tree, i, calls);
        assert(tree.node_wf(i as int));
        let cs = &tree.nodes[i].children;
        let mut k: usize = 0;
        while k < cs.len()
            invariant
                tree.wf(),
                i < tree.nodes@.len(),
                cs@ == tree.children_of(i as int),
                k <= cs@.len(),
                call_views(calls@) == start + py_own_calls(tree, i as int) + py_child_calls(tree, i as int, k as int),
            decreases cs@.len() - k,
        {
            assert(tree.node_wf(i as int));
            let c = cs[k];
            assert(i < c < tree.nodes@.len());
            let ghost before = call_views(calls@);
            PythonParser::walk_calls(tree, c, calls);
            assert(py_child_calls(tree, i as int, k + 1) == py_child_calls(tree, i as int, k as int) + py_calls_at(
                tree,
                c as int,
            ));
            assert(call_views(calls@) =~= start + py_own_calls(tree, i as int) + py_child_calls(
                tree,
                i as int,
                k + 1,
            ));
            k = k + 1;
        }
        assert(call_views(calls@) =~= start + py_calls_at(tree, i as int));
    }

    /// The calls of a Python file: calls and decorators, in pre-order.
    pub fn extract_calls(&self, tree: &SyntaxTree) -> (r: Vec<RawCallEdge>)
        requires
            tree.wf(),
        ensures
            tree.source@.len() == 0 || tree.nodes@.len() == 0 ==> r@.len() == 0,
            tree.source@.len() > 0 && tree.nodes@.len() > 0 ==> call_views(r@) == py_calls_at(tree, 0),
    {
        let mut calls: Vec<RawCallEdge> = Vec::new();
        if tree.source.len() == 0 || tree.nodes.len() == 0 {
            return calls;
        }
        assert(call_views(calls@) =~= Seq::<CallV>::empty());
        PythonParser::walk_calls(tree, 0, &mut calls);
        assert(call_views(calls@) =~= py_calls_at(tree, 0));
        calls
    }
}


/// The grammar kinds the import extraction tells apart are distinct texts.
proof fn lemma_import_kinds_distinct()
    ensures
        "dotted_name"@ != "aliased_import"@,
        "dotted_name"@ != "wildcard_import"@,
        "aliased_import"@ != "wildcard_import"@,
        "identifier"@ != "aliased_import"@,
        "identifier"@ != "wildcard_import"@,
        "import_statement"@ != "import_from_statement"@,
{
    reveal_strlit("dotted_name");
    reveal_strlit("aliased_import");
    reveal_strlit("wildcard_import");
    reveal_strlit("identifier");
    reveal_strlit("import_statement");
    reveal_strlit("import_from_statement");
    assert("dotted_name"@.len() == 11 && "aliased_import"@.len() == 14 && "wildcard_import"@.len() == 15);
    assert("identifier"@.len() == 10 && "import_statement"@.len() == 16 && "import_from_statement"@.len() == 21);
}

/// The first index where `n` occurs in `h`.
fn find_chars(h: &Vec<char>, n: &Vec<char>) -> (r: Option<usize>)
    ensures
        r matches Some(x) ==> find_from(h@, n@, 0) == Some(x as int) && x + n@.len() <= h@.len(),
        r is None ==> find_from(h@, n@, 0) is None,
{
    let hl = h.len();
    let nl = n.len();
    let mut i: usize = 0;
    while i <= hl
        invariant
            hl == h@.len(),
            nl == n@.len(),
            find_from(h@, n@, 0) == find_from(h@, n@, i as int),
        decreases hl + 1 - i,
    {
        if nl > hl - i {
            return None;
        }
        let mut k: usize = 0;
        let mut same = true;
        while k < nl
            invariant
                hl == h@.len(),
                nl == n@.len(),
                i + nl <= hl,
                k <= nl,
                same == (forall|j: int| 0 <= j < k ==> h@[i + j] == n@[j]),
            decreases nl - k,
        {
            if h[i + k] != n[k] {
                same = false;
            }
            k = k + 1;
        }
        if same {
            assert(h@.subrange(i as int, i + nl) =~= n@);
            return Some(i);
        } else {
            let ghost j = choose|j: int| 0 <= j < nl && h@[i + j] != n@[j];
            assert(h@.subrange(i as int, i + nl)[j] != n@[j]);
        }
        i = i + 1;
    }
    None
}

impl PythonParser {
    /// The imports of an `import` statement: dotted names, and aliased imports.
    fn extract_import_statement(tree: &SyntaxTree, node: usize, out: &mut Vec<Import>)
        requires
            tree.wf(),
            node < tree.nodes@.len(),
        ensures
            import_views(final(out)@) == import_views(old(out)@) + py_import_items(tree, tree.children_of(node as int)),
    {
        proof {
            lemma_import_kinds_distinct();
        }
        let ghost start = import_views(out@);
        assert(tree.node_wf(node as int));
        let cs = &tree.nodes[node].children;
        let mut k: usize = 0;
        assert(start + Seq::<ImportV>::empty() =~= start);
        while k < cs.len()
            invariant
                tree.wf(),
                node < tree.nodes@.len(),
                cs@ == tree.children_of(node as int),
                k <= cs@.len(),
                "dotted_name"@ != "aliased_import"@,
                import_views(out@) == start + py_import_items(tree, cs@.take(k as int)),
            decreases cs@.len() - k,
        {
            assert(cs@.take(k + 1).drop_last() =~= cs@.take(k as int));
            assert(cs@.take(k + 1).last() == cs@[k as int]);
            assert(tree.node_wf(node as int));
            let c = cs[k];
            let ghost prev = py_import_items(tree, cs@.take(k as int));
            if tree.kind_is(c, "dotted_name") && tree.node_text(c).unicode_len() > 0 {
                let module = tree.node_text(c);
                push_import(out, module.as_str(), module.as_str(), None, true);
                assert(import_views(out@) =~= start + prev.push((module@, module@, None, true)));
            } else if tree.kind_is(c, "aliased_import") {
                assert(tree.node_wf(c as int));
                match tree.child_by_field(c, "name") {
                    Some(n) => {
                        let module = tree.node_text(n);
                        let alias = match tree.child_by_field(c, "alias") {
                            Some(a) => Some(tree.node_text(a)),
                            None => None,
                        };
                        assert(opt_str_of(alias) == alias_text(tree, c as int));
                        push_import(out, module.as_str(), module.as_str(), alias, true);
                        assert(import_views(out@) =~= start + prev.push(
                            (module@, module@, alias_text(tree, c as int), true),
                        ));
                    },
                    None => {},
                }
            }
            k = k + 1;
        }
        assert(cs@.take(cs@.len() as int) =~= cs@);
    }

    /// The module of a `from ... import` statement.
    fn extract_from_module_path(tree: &SyntaxTree, node: usize) -> (r: String)
        requires
            tree.wf(),
            node < tree.nodes@.len(),
        ensures
            r@ == py_from_module(tree, node as int),
    {
        if let Some(m) = tree.child_by_field(node, "module_name") {
            return tree.node_text(m);
        }
        let text = to_chars(tree.node_text(node).as_str());
        let from_word = to_chars("from");
        let import_word = to_chars("import");
        proof {
            reveal_strlit("from");
            assert("from"@.len() == 4);
        }
        match find_chars(&text, &from_word) {
            Some(a) => {
                assert(from_word@ == "from"@);
                assert(a + 4 <= text@.len());
                let tl = text.len();
                assert(a + 4 <= tl);
                let start: usize = a + 4;
                let after = to_chars(string_of(&text, start, tl).as_str());
                assert(after@ =~= text@.skip(a + 4));
                match find_chars(&after, &import_word) {
                    Some(b) => {
                        let head = string_of(&after, 0, b);
                        assert(head@ =~= after@.take(b as int));
                        trim_text(head.as_str())
                    },
                    None => String::new(),
                }
            },
            None => String::new(),
        }
    }

    /// The imports of the aliased and wildcard children of a `from ... import`.
    fn from_items(tree: &SyntaxTree, node: usize, module: &str, ext: bool, out: &mut Vec<Import>)
        requires
            tree.wf(),
            node < tree.nodes@.len(),
        ensures
            import_views(final(out)@) == import_views(old(out)@) + py_from_items(
                tree,
                tree.children_of(node as int),
                module@,
                ext,
            ),
    {
        proof {
            lemma_import_kinds_distinct();
            reveal_strlit("*");
        }
        let ghost start = import_views(out@);
        assert(tree.node_wf(node as int));
        let cs = &tree.nodes[node].children;
        let mut k: usize = 0;
        assert(start + Seq::<ImportV>::empty() =~= start);
        while k < cs.len()
            invariant
                tree.wf(),
                node < tree.nodes@.len(),
                cs@ == tree.children_of(node as int),
                k <= cs@.len(),
                "aliased_import"@ != "wildcard_import"@,
                import_views(out@) == start + py_from_items(tree, cs@.take(k as int), module@, ext),
            decreases cs@.len() - k,
        {
            assert(cs@.take(k + 1).drop_last() =~= cs@.take(k as int));
            assert(cs@.take(k + 1).last() == cs@[k as int]);
            assert(tree.node_wf(node as int));
            let c = cs[k];
            let ghost prev = py_from_items(tree, cs@.take(k as int), module@, ext);
            if tree.kind_is(c, "aliased_import") && tree.child_by_field(c, "name").is_some() {
                assert(tree.node_wf(c as int));
                let n = tree.child_by_field(c, "name").unwrap();
                let name = tree.node_text(n);
                let alias = match tree.child_by_field(c, "alias") {
                    Some(a) => Some(tree.node_text(a)),
                    None => None,
                };
                assert(opt_str_of(alias) == alias_text(tree, c as int));
                push_import(out, module, name.as_str(), alias, ext);
                assert(import_views(out@) =~= start + prev.push((module@, name@, alias_text(tree, c as int), ext)));
            } else if tree.kind_is(c, "wildcard_import") {
                push_import(out, module, "*", None, ext);
                assert(import_views(out@) =~= start + prev.push((module@, "*"@, None, ext)));
            }
            k = k + 1;
        }
        assert(cs@.take(cs@.len() as int) =~= cs@);
    }

    /// The imports named after the `import` keyword of a `from ... import`.
    fn from_imported_names(tree: &SyntaxTree, node: usize, module: &str, ext: bool, out: &mut Vec<Import>)
        requires
            tree.wf(),
            node < tree.nodes@.len(),
        ensures
            import_views(final(out)@) == import_views(old(out)@) + py_from_names(
                tree,
                tree.children_of(node as int),
                module@,
                ext,
            ).1,
    {
        proof {
            lemma_import_kinds_distinct();
            reveal_strlit("*");
        }
        let ghost start = import_views(out@);
        assert(tree.node_wf(node as int));
        let cs = &tree.nodes[node].children;
        let mut found = false;
        let mut k: usize = 0;
        assert(start + Seq::<ImportV>::empty() =~= start);
        while k < cs.len()
            invariant
                tree.wf(),
                node < tree.nodes@.len(),
                cs@ == tree.children_of(node as int),
                k <= cs@.len(),
                "dotted_name"@ != "aliased_import"@,
                "dotted_name"@ != "wildcard_import"@,
                "aliased_import"@ != "wildcard_import"@,
                "identifier"@ != "aliased_import"@,
                "identifier"@ != "wildcard_import"@,
                found == py_from_names(tree, cs@.take(k as int), module@, ext).0,
                import_views(out@) == start + py_from_names(tree, cs@.take(k as int), module@, ext).1,
            decreases cs@.len() - k,
        {
            assert(cs@.take(k + 1).drop_last() =~= cs@.take(k as int));
            assert(cs@.take(k + 1).last() == cs@[k as int]);
            assert(tree.node_wf(node as int));
            let c = cs[k];
            let ghost prev = py_from_names(tree, cs@.take(k as int), module@, ext).1;
            let text = tree.node_text(c);
            if str_eq(text.as_str(), "import") {
                found = true;
            } else if found {
                if tree.kind_is(c, "dotted_name") || tree.kind_is(c, "identifier") {
                    if text.unicode_len() > 0 && !str_eq(text.as_str(), ",") {
                        push_import(out, module, text.as_str(), None, ext);
                        assert(import_views(out@) =~= start + prev.push((module@, text@, None, ext)));
                    }
                } else if tree.kind_is(c, "aliased_import") && tree.child_by_field(c, "name").is_some() {
                    assert(tree.node_wf(c as int));
                    let n = tree.child_by_field(c, "name").unwrap();
                    let name = tree.node_text(n);
                    let alias = match tree.child_by_field(c, "alias") {
                        Some(a) => Some(tree.node_text(a)),
                        None => None,
                    };
                    assert(opt_str_of(alias) == alias_text(tree, c as int));
                    push_import(out, module, name.as_str(), alias, ext);
                    assert(import_views(out@) =~= start + prev.push(
                        (module@, name@, alias_text(tree, c as int), ext),
                    ));
                } else if tree.kind_is(c, "wildcard_import") {
                    push_import(out, module, "*", None, ext);
                    assert(import_views(out@) =~= start + prev.push((module@, "*"@, None, ext)));
                }
            }
            k = k + 1;
        }
        assert(cs@.take(cs@.len() as int) =~= cs@);
    }

    /// The imports of a `from ... import` statement.
    fn extract_import_from_statement(tree: &SyntaxTree, node: usize, out: &mut Vec<Import>)
        requires
            tree.wf(),
            node < tree.nodes@.len(),
        ensures
            import_views(final(out)@) == import_views(old(out)@) + py_from_imports(tree, node as int),
    {
        let module = PythonParser::extract_from_module_path(tree, node);
        let ext = !starts_with(module.as_str(), ".");
        let mut items: Vec<Import> = Vec::new();
        PythonParser::from_items(tree, node, module.as_str(), ext, &mut items);
        assert(import_views(items@) =~= py_from_items(tree, tree.children_of(node as int), module@, ext));
        if items.len() == 0 {
            PythonParser::from_imported_names(tree, node, module.as_str(), ext, out);
        } else {
            let ghost start = import_views(out@);
            let mut k: usize = 0;
            while k < items.len()
                invariant
                    k <= items@.len(),
                    import_views(out@) == start + import_views(items@).take(k as int),
                decreases items@.len() - k,
            {
                let it = &items[k];
                let alias = match &it.alias {
                    Some(a) => Some(String::from_str(a.as_str())),
                    None => None,
                };
                assert(opt_str_of(alias) == import_view(items@[k as int]).2);
                push_import(out, it.module_name.as_str(), it.imported_name.as_str(), alias, it.is_external);
                assert(import_views(items@).take(k + 1) =~= import_views(items@).take(k as int).push(
                    import_view(items@[k as int]),
                ));
                assert(import_views(out@) =~= start + import_views(items@).take(k + 1));
                k = k + 1;
            }
            assert(import_views(items@).take(items@.len() as int) =~= import_views(items@));
        }
    }

    /// The imports of a Python file: its top-level `import` and
    /// `from ... import` statements, in order.
    pub fn extract_imports(&self, tree: &SyntaxTree) -> (r: Vec<Import>)
        requires
            tree.wf(),
        ensures
            tree.source@.len() == 0 || tree.nodes@.len() == 0 ==> r@.len() == 0,
            tree.source@.len() > 0 && tree.nodes@.len() > 0 ==> import_views(r@) == py_imports(
                tree,
                tree.children_of(0),
            ),
    {
        proof {
            lemma_import_kinds_distinct();
        }
        let mut out: Vec<Import> = Vec::new();
        if tree.source.len() == 0 || tree.nodes.len() == 0 {
            return out;
        }
        assert(tree.node_wf(0));
        let cs = &tree.nodes[0].children;
        let mut k: usize = 0;
        assert(import_views(out@) =~= Seq::<ImportV>::empty());
        while k < cs.len()
            invariant
                tree.wf(),
                0 < tree.nodes@.len(),
                cs@ == tree.children_of(0),
                k <= cs@.len(),
                "import_statement"@ != "import_from_statement"@,
                import_views(out@) == py_imports(tree, cs@.take(k as int)),
            decreases cs@.len() - k,
        {
            assert(cs@.take(k + 1).drop_last() =~= cs@.take(k as int));
            assert(cs@.take(k + 1).last() == cs@[k as int]);
            assert(tree.node_wf(0));
            let c = cs[k];
            if tree.kind_is(c, "import_statement") {
                PythonParser::extract_import_statement(tree, c, &mut out);
            } else if tree.kind_is(c, "import_from_statement") {
                PythonParser::extract_import_from_statement(tree, c, &mut out);
            }
            k = k + 1;
        }
        assert(cs@.take(cs@.len() as int) =~= cs@);
        out
    }
}

/// `fa` is what the Python parser finds in tree `t` of file `path`.
pub open spec fn py_analysis(t: SyntaxTree, path: Seq<char>, fa: FileAnalysis) -> bool {
    &&& fa.symbols@.len() == py_symbols(&t, t.children_of(0), path).len()
    &&& forall|k: int| 0 <= k < fa.symbols@.len() ==> #[trigger] fa.symbols@[k]@ == with_id(
        py_symbols(&t, t.children_of(0), path)[k],
        fa.symbols@[k].id,
    )
    &&& call_views(fa.calls@) == py_calls_at(&t, 0)
    &&& fa.types@.len() == 0
    &&& import_views(fa.imports@) == py_imports(&t, t.children_of(0))
}

/// `fa` is what the Python parser finds in file `path` whose bytes
/// `source` parse to the nodes `rows`.
pub open spec fn py_file_analysis(source: Seq<u8>, rows: Seq<RowV>, path: Seq<char>, fa: FileAnalysis) -> bool {
    exists|t: SyntaxTree| tree_of_rows(t, source, rows) && #[trigger] py_analysis(t, path, fa)
}

/// The analysis of an empty file: nothing found.
pub open spec fn empty_analysis(fa: FileAnalysis) -> bool {
    fa.symbols@.len() == 0 && fa.calls@.len() == 0 && fa.types@.len() == 0 && fa.imports@.len() == 0
}

impl PythonParser {
    /// Parses a Python file's bytes and returns its symbols, calls and
    /// imports (no types). An empty file has none of them; a file that
    /// tree-sitter cannot parse is a `ParseError`.
    pub fn parse_file(&self, source: &[u8], file_path: &str) -> (r: Result<FileAnalysis, Error>)
        ensures
            source@.len() == 0 ==> (r matches Ok(fa) && empty_analysis(fa)),
            source@.len() > 0 && parsed_rows(Grammar::Python, source@) is None ==> (r matches Err(Error::ParseError(_))),
            source@.len() > 0 && parsed_rows(Grammar::Python, source@) is Some
                && !rows_ok(parsed_rows(Grammar::Python, source@)->0, source@.len()) ==> (r matches Err(Error::ParseError(_))),
            source@.len() > 0 && parsed_rows(Grammar::Python, source@) is Some
                && rows_ok(parsed_rows(Grammar::Python, source@)->0, source@.len()) ==> (r matches Ok(fa)
                && py_file_analysis(source@, parsed_rows(Grammar::Python, source@)->0, file_path@, fa)),
    {
        if source.len() == 0 {
            return Ok(FileAnalysis { symbols: Vec::new(), calls: Vec::new(), types: Vec::new(), imports: Vec::new() });
        }
        match parse_source(Grammar::Python, source) {
            Some(t) => {
                let symbols = self.extract_symbols(&t, file_path);
                let calls = self.extract_calls(&t);
                let imports = self.extract_imports(&t);
                let fa = FileAnalysis { symbols, calls, types: Vec::new(), imports };
                proof {
                    let rows = parsed_rows(Grammar::Python, source@)->0;
                    assert(rows_ok(rows, source@.len()));
                    assert(tree_of_rows(t, source@, rows));
                    assert(t.nodes@.len() > 0 && t.source@.len() > 0);
                    assert(py_analysis(t, file_path@, fa));
                    assert(py_file_analysis(source@, rows, file_path@, fa));
                }
                Ok(fa)
            },
            None => Err(Error::ParseError(String::from_str("tree-sitter parse returned None"))),
        }
    }
}

} // verus!
