//! A TypeScript/JavaScript parser that walks the syntax tree directly:
//! top-level declarations (exported or not) as symbols, calls and `new`
//! expressions as call edges, `import` statements as imports.

use vstd::prelude::*;
use crate::conflict::payload::{extract_signature, signature_of};
use crate::domain::{CallKind, Import, RawCallEdge, Span, Symbol, SymbolKind, SymbolV, Visibility};
use crate::ids::fresh_id;
use crate::parser::engine::{CallV, ImportV, call_view, doc_text, import_view, node_span, opt_str_of, with_id};
use crate::parser::langs::typescript::{TypeScriptParser as DedupParser, first_string_arg, numbered, views_of};
use crate::parser::python_parser::{call_views, import_views};
use crate::parser::parse::{Grammar, RowV, parse_source, parsed_rows, rows_ok, tree_of_rows};
use crate::parser::python_parser::empty_analysis;
use crate::parser::syntax::SyntaxTree;
use crate::domain::{Error, FileAnalysis};
use crate::text::{has_prefix, join_texts, push_text, starts_with, str_eq, string_of, texts_of, to_chars, trim_chars,
    trim_left_by, trim_right_by, trim_text, trimmed};

verus! {

/// TypeScript parser backed by a parsed syntax tree.
pub struct TypeScriptParser;

/// The symbol kind of a top-level declaration kind.
pub open spec fn ts_decl_kind(k: Seq<char>) -> Option<SymbolKind> {
    if k == "function_declaration"@ {
        Some(SymbolKind::Function)
    } else if k == "class_declaration"@ {
        Some(SymbolKind::Class)
    } else if k == "interface_declaration"@ {
        Some(SymbolKind::Interface)
    } else if k == "type_alias_declaration"@ {
        Some(SymbolKind::TypeAlias)
    } else if k == "enum_declaration"@ {
        Some(SymbolKind::Enum)
    } else if k == "lexical_declaration"@ {
        Some(SymbolKind::Const)
    } else if k == "expression_statement"@ {
        Some(SymbolKind::Const)
    } else {
        None
    }
}

/// The first line of a node's text, trimmed; none for an empty text.
pub open spec fn line_signature(t: &SyntaxTree, i: int) -> Option<Seq<char>> {
    if t.text_of(i).len() == 0 {
        None
    } else {
        Some(signature_of(t.text_of(i)))
    }
}

/// The comment lines found walking back from sibling `s`, nearest first.
pub open spec fn ts_doc_lines(t: &SyntaxTree, s: Option<usize>, bound: int) -> Seq<Seq<char>>
    decreases bound,
{
    match s {
        None => Seq::empty(),
        Some(p) => {
            if p >= bound || p >= t.size() || t.kind_of(p as int) != "comment"@ {
                Seq::empty()
            } else {
                seq![trimmed(t.text_of(p as int))] + ts_doc_lines(t, t.prev_of(p as int), p as int)
            }
        },
    }
}

pub open spec fn ts_doc(t: &SyntaxTree, i: int) -> Option<Seq<char>> {
    doc_text(ts_doc_lines(t, t.prev_of(i), i))
}

/// A name of at most 60 characters; a longer one is cut to 57 and `...`
/// appended.
pub open spec fn shortened(name: Seq<char>) -> Seq<char> {
    if name.len() > 60 {
        name.take(57) + "..."@
    } else {
        name
    }
}

/// The name a top-level expression statement gives: a call's function text
/// with `:` and its first string argument; an assignment's left side; else
/// its first line, trimmed and shortened.
pub open spec fn ts_expression_name(t: &SyntaxTree, node: int) -> Option<Seq<char>> {
    match t.child_at(node, 0) {
        Some(c) => if t.kind_of(c as int) == "call_expression"@ {
            match (t.field_of(c as int, "function"@), t.field_of(c as int, "arguments"@)) {
                (Some(f), Some(a)) => {
                    let ft = t.text_of(f as int);
                    match first_string_arg(t, t.children_of(a as int)) {
                        Some(x) => Some(ft + ":"@ + trim_right_by(trim_left_by(t.text_of(x as int), "\"'`"@), "\"'`"@)),
                        None => Some(ft),
                    }
                },
                _ => None,
            }
        } else if t.kind_of(c as int) == "assignment_expression"@ {
            match t.field_of(c as int, "left"@) {
                Some(l) => Some(t.text_of(l as int)),
                None => None,
            }
        } else {
            let text = t.text_of(c as int);
            if text.len() == 0 {
                None
            } else {
                Some(shortened(signature_of(text)))
            }
        },
        None => None,
    }
}

/// The names the `variable_declarator` children among `cs` declare.
pub open spec fn ts_variable_names(t: &SyntaxTree, cs: Seq<usize>) -> Seq<Seq<char>>
    decreases cs.len(),
{
    if cs.len() == 0 {
        Seq::empty()
    } else {
        let prev = ts_variable_names(t, cs.drop_last());
        let c = cs.last() as int;
        if t.kind_of(c) == "variable_declarator"@ {
            match t.field_of(c, "name"@) {
                Some(n) => if t.text_of(n as int).len() > 0 {
                    prev.push(t.text_of(n as int))
                } else {
                    prev
                },
                None => prev,
            }
        } else {
            prev
        }
    }
}

/// A symbol (id 0) spanning node `node`.
pub open spec fn ts_symbol(t: &SyntaxTree, node: int, name: Seq<char>, kind: SymbolKind, vis: Visibility, path: Seq<
    char,
>) -> SymbolV {
    SymbolV {
        id: 0,
        name: name,
        qualified_name: name,
        kind: kind,
        visibility: vis,
        file_path: path,
        span: node_span(t, node),
        signature: line_signature(t, node),
        doc_comment: ts_doc(t, node),
        parent: None,
        last_modified_by: None,
        last_modified_intent: None,
    }
}

/// The symbols (ids 0) a declaration node gives.
pub open spec fn ts_decl_symbols(t: &SyntaxTree, node: int, path: Seq<char>, vis: Visibility) -> Seq<SymbolV> {
    match ts_decl_kind(t.kind_of(node)) {
        Some(kind) => if t.kind_of(node) == "expression_statement"@ {
            match ts_expression_name(t, node) {
                Some(n) => if n.len() > 0 {
                    seq![ts_symbol(t, node, n, SymbolKind::Const, vis, path)]
                } else {
                    Seq::empty()
                },
                None => Seq::empty(),
            }
        } else if t.kind_of(node) == "lexical_declaration"@ {
            ts_variable_names(t, t.children_of(node)).map_values(
                |n: Seq<char>| ts_symbol(t, node, n, SymbolKind::Const, vis, path),
            )
        } else {
            match t.field_of(node, "name"@) {
                Some(n) => if t.text_of(n as int).len() > 0 {
                    seq![ts_symbol(t, node, t.text_of(n as int), kind, vis, path)]
                } else {
                    Seq::empty()
                },
                None => Seq::empty(),
            }
        },
        None => Seq::empty(),
    }
}

/// The public symbols of the declaration children among `cs`.
pub open spec fn ts_export_inner(t: &SyntaxTree, cs: Seq<usize>, path: Seq<char>) -> Seq<SymbolV>
    decreases cs.len(),
{
    if cs.len() == 0 {
        Seq::empty()
    } else {
        let prev = ts_export_inner(t, cs.drop_last(), path);
        let c = cs.last() as int;
        if ts_decl_kind(t.kind_of(c)) is Some {
            prev + ts_decl_symbols(t, c, path, Visibility::Public)
        } else {
            prev
        }
    }
}

/// Some child among `cs` is a declaration.
pub open spec fn has_declaration(t: &SyntaxTree, cs: Seq<usize>) -> bool {
    exists|k: int| 0 <= k < cs.len() && (#[trigger] ts_decl_kind(t.kind_of(cs[k] as int))) is Some
}

/// The name of a bare export: its `declaration` (else `value`) field's
/// trimmed text when not empty, else the export's first line trimmed (or
/// `export` for an empty text).
pub open spec fn bare_export_name(t: &SyntaxTree, node: int) -> Seq<char> {
    let d = if t.field_of(node, "declaration"@) is Some {
        t.field_of(node, "declaration"@)
    } else {
        t.field_of(node, "value"@)
    };
    let from_field = match d {
        Some(n) => trimmed(t.text_of(n as int)),
        None => Seq::empty(),
    };
    if from_field.len() > 0 {
        from_field
    } else if t.text_of(node).len() == 0 {
        "export"@
    } else {
        signature_of(t.text_of(node))
    }
}

/// The symbols (ids 0) a top-level node gives.
pub open spec fn ts_top_symbols(t: &SyntaxTree, node: int, path: Seq<char>) -> Seq<SymbolV> {
    if t.kind_of(node) == "export_statement"@ {
        if has_declaration(t, t.children_of(node)) {
            ts_export_inner(t, t.children_of(node), path)
        } else {
            seq![ts_symbol(t, node, bare_export_name(t, node), SymbolKind::Const, Visibility::Public, path)]
        }
    } else if ts_decl_kind(t.kind_of(node)) is Some {
        ts_decl_symbols(t, node, path, Visibility::Private)
    } else {
        Seq::empty()
    }
}

/// The symbols (ids 0) of the top-level nodes `cs`, before numbering.
pub open spec fn ts_symbols(t: &SyntaxTree, cs: Seq<usize>, path: Seq<char>) -> Seq<SymbolV>
    decreases cs.len(),
{
    if cs.len() == 0 {
        Seq::empty()
    } else {
        ts_symbols(t, cs.drop_last(), path) + ts_top_symbols(t, cs.last() as int, path)
    }
}

/// The name of the nearest enclosing function from ancestor `cur` upwards:
/// a declaration's or method's name, or the variable an anonymous function
/// is assigned to; `<module>` at top level.
pub open spec fn ts_enclosing(t: &SyntaxTree, cur: Option<usize>, bound: int) -> Seq<char>
    decreases bound,
{
    match cur {
        None => "<module>"@,
        Some(p) => {
            if p >= bound || p >= t.size() {
                "<module>"@
            } else {
                let k = t.kind_of(p as int);
                let own = if k == "function_declaration"@ || k == "method_definition"@ {
                    match t.field_of(p as int, "name"@) {
                        Some(n) => if t.text_of(n as int).len() > 0 {
                            Some(t.text_of(n as int))
                        } else {
                            None
                        },
                        None => None,
                    }
                } else if k == "arrow_function"@ || k == "function_expression"@ || k == "function"@ {
                    match t.parent_of(p as int) {
                        Some(g) => if g < t.size() && t.kind_of(g as int) == "variable_declarator"@ {
                            match t.field_of(g as int, "name"@) {
                                Some(n) => if t.text_of(n as int).len() > 0 {
                                    Some(t.text_of(n as int))
                                } else {
                                    None
                                },
                                None => None,
                            }
                        } else {
                            None
                        },
                        None => None,
                    }
                } else {
                    None
                };
                match own {
                    Some(n) => n,
                    None => ts_enclosing(t, t.parent_of(p as int), p as int),
                }
            }
        },
    }
}

/// The callee of a call's function node: a member expression names a
/// method (its `property`, else its whole text), anything else a direct call.
pub open spec fn ts_callee(t: &SyntaxTree, f: int) -> (Seq<char>, CallKind) {
    if t.kind_of(f) == "member_expression"@ {
        match t.field_of(f, "property"@) {
            Some(p) => (t.text_of(p as int), CallKind::MethodCall),
            None => (t.text_of(f), CallKind::MethodCall),
        }
    } else {
        (t.text_of(f), CallKind::DirectCall)
    }
}

/// The calls node `i` itself makes: a call expression, or a `new` expression
/// calling its constructor.
pub open spec fn ts_own_calls(t: &SyntaxTree, i: int) -> Seq<CallV> {
    let caller = ts_enclosing(t, t.parent_of(i), i);
    if t.kind_of(i) == "call_expression"@ {
        match t.field_of(i, "function"@) {
            Some(f) => {
                let (callee, kind) = ts_callee(t, f as int);
                if callee.len() > 0 {
                    seq![(caller, callee, node_span(t, i), kind)]
                } else {
                    Seq::empty()
                }
            },
            None => Seq::empty(),
        }
    } else if t.kind_of(i) == "new_expression"@ {
        match t.field_of(i, "constructor"@) {
            Some(c) => if t.text_of(c as int).len() > 0 {
                seq![(caller, t.text_of(c as int), node_span(t, i), CallKind::DirectCall)]
            } else {
                Seq::empty()
            },
            None => Seq::empty(),
        }
    } else {
        Seq::empty()
    }
}

/// The calls of the subtree at `i`, in pre-order.
pub open spec fn ts_calls_at(t: &SyntaxTree, i: int) -> Seq<CallV>
    decreases t.size() - i, 1nat, 0int,
{
    if 0 <= i < t.size() {
        ts_own_calls(t, i) + ts_child_calls(t, i, t.children_of(i).len() as int)
    } else {
        Seq::empty()
    }
}

/// The calls of the subtrees of the first `k` children of `i`.
pub open spec fn ts_child_calls(t: &SyntaxTree, i: int, k: int) -> Seq<CallV>
    decreases t.size() - i, 0nat, k,
{
    if 0 <= i < t.size() && 0 < k <= t.children_of(i).len() {
        let c = t.children_of(i)[k - 1] as int;
        ts_child_calls(t, i, k - 1) + if i < c < t.size() {
            ts_calls_at(t, c)
        } else {
            Seq::empty()
        }
    } else {
        Seq::empty()
    }
}

/// The first `identifier` child among `cs`.
pub open spec fn first_identifier(t: &SyntaxTree, cs: Seq<usize>) -> Option<usize>
    decreases cs.len(),
{
    if cs.len() == 0 {
        None
    } else if t.kind_of(cs[0] as int) == "identifier"@ {
        Some(cs[0])
    } else {
        first_identifier(t, cs.drop_first())
    }
}

/// The alias of a namespace import: its `name` field, else its first
/// identifier child.
pub open spec fn namespace_alias(t: &SyntaxTree, c: int) -> Option<Seq<char>> {
    match t.field_of(c, "name"@) {
        Some(n) => Some(t.text_of(n as int)),
        None => match first_identifier(t, t.children_of(c)) {
            Some(x) => Some(t.text_of(x as int)),
            None => None,
        },
    }
}

/// The imports of the `import_specifier` children among `cs` with a
/// non-empty name.
pub open spec fn ts_named_imports(t: &SyntaxTree, cs: Seq<usize>, module: Seq<char>, ext: bool) -> Seq<ImportV>
    decreases cs.len(),
{
    if cs.len() == 0 {
        Seq::empty()
    } else {
        let prev = ts_named_imports(t, cs.drop_last(), module, ext);
        let c = cs.last() as int;
        if t.kind_of(c) == "import_specifier"@ {
            let name = match t.field_of(c, "name"@) {
                Some(n) => t.text_of(n as int),
                None => Seq::empty(),
            };
            let alias = match t.field_of(c, "alias"@) {
                Some(a) => Some(t.text_of(a as int)),
                None => None,
            };
            if name.len() > 0 {
                prev.push((module, name, alias, ext))
            } else {
                prev
            }
        } else {
            prev
        }
    }
}

/// The imports of an import clause's children `cs`.
pub open spec fn ts_clause_imports(t: &SyntaxTree, cs: Seq<usize>, module: Seq<char>, ext: bool) -> Seq<ImportV>
    decreases cs.len(),
{
    if cs.len() == 0 {
        Seq::empty()
    } else {
        let prev = ts_clause_imports(t, cs.drop_last(), module, ext);
        let c = cs.last() as int;
        if t.kind_of(c) == "identifier"@ {
            prev.push((module, t.text_of(c), None, ext))
        } else if t.kind_of(c) == "named_imports"@ {
            prev + ts_named_imports(t, t.children_of(c), module, ext)
        } else if t.kind_of(c) == "namespace_import"@ {
            prev.push((module, "*"@, namespace_alias(t, c), ext))
        } else {
            prev
        }
    }
}

/// The imports of an import statement's children `cs`, and whether any
/// named something.
pub open spec fn ts_statement_items(t: &SyntaxTree, cs: Seq<usize>, module: Seq<char>, ext: bool) -> (
    bool,
    Seq<ImportV>,
)
    decreases cs.len(),
{
    if cs.len() == 0 {
        (false, Seq::empty())
    } else {
        let (found, prev) = ts_statement_items(t, cs.drop_last(), module, ext);
        let c = cs.last() as int;
        if t.kind_of(c) == "import_clause"@ {
            (true, prev + ts_clause_imports(t, t.children_of(c), module, ext))
        } else if t.kind_of(c) == "named_imports"@ {
            (true, prev + ts_named_imports(t, t.children_of(c), module, ext))
        } else if t.kind_of(c) == "namespace_import"@ {
            (true, prev.push((module, "*"@, namespace_alias(t, c), ext)))
        } else if t.kind_of(c) == "identifier"@ {
            let name = t.text_of(c);
            if name != "import"@ && name != "from"@ && name != "type"@ {
                (true, prev.push((module, name, None, ext)))
            } else {
                (found, prev)
            }
        } else {
            (found, prev)
        }
    }
}

/// The imports of an import statement: none without a source; a
/// statement that names nothing imports `*` for its side effects.
pub open spec fn ts_statement_imports(t: &SyntaxTree, node: int) -> Seq<ImportV> {
    match t.field_of(node, "source"@) {
        Some(s) => {
            let module = trim_right_by(trim_left_by(t.text_of(s as int), "'\""@), "'\""@);
            let ext = !has_prefix(module, "."@) && !has_prefix(module, "/"@);
            let (found, items) = ts_statement_items(t, t.children_of(node), module, ext);
            if found {
                items
            } else {
                items.push((module, "*"@, None, ext))
            }
        },
        None => Seq::empty(),
    }
}

/// The imports of the top-level import statements among `cs`.
pub open spec fn ts_imports(t: &SyntaxTree, cs: Seq<usize>) -> Seq<ImportV>
    decreases cs.len(),
{
    if cs.len() == 0 {
        Seq::empty()
    } else {
        let prev = ts_imports(t, cs.drop_last());
        let c = cs.last() as int;
        if t.kind_of(c) == "import_statement"@ {
            prev + ts_statement_imports(t, c)
        } else {
            prev
        }
    }
}

/// Whether a list of symbol views equals `expected` up to ids.
pub open spec fn same_up_to_ids(v: Seq<SymbolV>, expected: Seq<SymbolV>) -> bool {
    v.len() == expected.len() && forall|k: int| 0 <= k < v.len() ==> #[trigger] v[k] == with_id(expected[k], v[k].id)
}

impl TypeScriptParser {
    pub fn new() -> (r: Self) {
        TypeScriptParser
    }

    /// The file extensions handled.
    pub fn extensions(&self) -> (r: Vec<&'static str>)
        ensures
            r@.len() == 4 && r@[0]@ == "ts"@ && r@[1]@ == "tsx"@ && r@[2]@ == "js"@ && r@[3]@ == "jsx"@,
    {
        let mut r: Vec<&'static str> = Vec::new();
        r.push("ts");
        r.push("tsx");
        r.push("js");
        r.push("jsx");
        r
    }

    /// The symbol kind of a declaration kind.
    pub fn map_symbol_kind(kind: &str) -> (r: Option<SymbolKind>)
        ensures
            r == ts_decl_kind(kind@),
    {
        if str_eq(kind, "function_declaration") {
            Some(SymbolKind::Function)
        } else if str_eq(kind, "class_declaration") {
            Some(SymbolKind::Class)
        } else if str_eq(kind, "interface_declaration") {
            Some(SymbolKind::Interface)
        } else if str_eq(kind, "type_alias_declaration") {
            Some(SymbolKind::TypeAlias)
        } else if str_eq(kind, "enum_declaration") {
            Some(SymbolKind::Enum)
        } else if str_eq(kind, "lexical_declaration") {
            Some(SymbolKind::Const)
        } else if str_eq(kind, "expression_statement") {
            Some(SymbolKind::Const)
        } else {
            None
        }
    }

    fn node_signature(tree: &SyntaxTree, i: usize) -> (r: Option<String>)
        requires
            tree.wf(),
            i < tree.nodes@.len(),
        ensures
            opt_str_of(r) == line_signature(tree, i as int),
    {
        let text = tree.node_text(i);
        if text.unicode_len() == 0 {
            None
        } else {
            Some(extract_signature(text.as_str()))
        }
    }

    /// The comments directly above `node`, joined in source order.
    fn doc_comments(tree: &SyntaxTree, node: usize) -> (r: Option<String>)
        requires
            tree.wf(),
            node < tree.nodes@.len(),
        ensures
            opt_str_of(r) == ts_doc(tree, node as int),
    {
        let ghost goal = ts_doc_lines(tree, tree.prev_of(node as int), node as int);
        let mut lines: Vec<String> = Vec::new();
        let mut sib = tree.nodes[node].prev_sibling;
        let ghost mut bound: int = node as int;
        assert(tree.node_wf(node as int));
        loop
            invariant
                tree.wf(),
                bound < tree.nodes@.len(),
                sib matches Some(p) ==> p < bound,
                texts_of(lines@) + ts_doc_lines(tree, sib, bound) == goal,
            ensures
                texts_of(lines@) == goal,
            decreases bound,
        {
            match sib {
                None => {
                    assert(texts_of(lines@) + Seq::<Seq<char>>::empty() =~= texts_of(lines@));
                    break;
                },
                Some(p) => {
                    assert(tree.node_wf(p as int));
                    if !tree.kind_is(p, "comment") {
                        assert(texts_of(lines@) + Seq::<Seq<char>>::empty() =~= texts_of(lines@));
                        break;
                    }
                    let raw = tree.node_text(p);
                    let tx = trim_text(raw.as_str());
                    let ghost old_lines = texts_of(lines@);
                    lines.push(tx);
                    assert(texts_of(lines@) =~= old_lines.push(trimmed(tree.text_of(p as int))));
                    assert(old_lines + ts_doc_lines(tree, sib, bound) =~= texts_of(lines@) + ts_doc_lines(
                        tree,
                        tree.prev_of(p as int),
                        p as int,
                    ));
                    sib = tree.nodes[p].prev_sibling;
                    proof {
                        bound = p as int;
                    }
                },
            }
        }
        if lines.len() == 0 {
            None
        } else {
            let mut ordered: Vec<String> = Vec::new();
            let mut k: usize = lines.len();
            while k > 0
                invariant
                    k <= lines@.len(),
                    ordered@.len() == lines@.len() - k,
                    texts_of(ordered@) == texts_of(lines@).subrange(k as int, lines@.len() as int).reverse(),
                decreases k,
            {
                k = k - 1;
                let line = String::from_str(lines[k].as_str());
                let ghost before = texts_of(ordered@);
                ordered.push(line);
                assert(texts_of(ordered@) =~= before.push(lines@[k as int]@));
                assert(texts_of(ordered@) =~= texts_of(lines@).subrange(k as int, lines@.len() as int).reverse());
            }
            assert(texts_of(lines@).subrange(0, lines@.len() as int) =~= texts_of(lines@));
            Some(join_texts(&ordered, "\n"))
        }
    }

    /// The first string or template-string child of node `a`.
    fn first_string_child(tree: &SyntaxTree, a: usize) -> (r: Option<usize>)
        requires
            tree.wf(),
            a < tree.nodes@.len(),
        ensures
            r == first_string_arg(tree, tree.children_of(a as int)),
            r matches Some(x) ==> x < tree.nodes@.len(),
    {
        assert(tree.node_wf(a as int));
        let cs = &tree.nodes[a].children;
        let mut k: usize = 0;
        assert(cs@.skip(0) =~= cs@);
        while k < cs.len()
            invariant
                tree.wf(),
                a < tree.nodes@.len(),
                k <= cs@.len(),
                cs@ == tree.children_of(a as int),
                first_string_arg(tree, cs@) == first_string_arg(tree, cs@.skip(k as int)),
            decreases cs@.len() - k,
        {
            assert(tree.node_wf(a as int));
            assert(cs@.skip(k as int)[0] == cs@[k as int]);
            assert(cs@.skip(k as int).drop_first() =~= cs@.skip(k as int + 1));
            let c = cs[k];
            if tree.kind_is(c, "string") || tree.kind_is(c, "template_string") {
                return Some(c);
            }
            k = k + 1;
        }
        None
    }

    /// A name cut to 57 characters and `...` when longer than 60.
    fn shorten(name: String) -> (r: String)
        ensures
            r@ == shortened(name@),
    {
        if name.unicode_len() > 60 {
            let chars = to_chars(name.as_str());
            let mut cut = string_of(&chars, 0, 57);
            assert(cut@ =~= name@.take(57));
            push_text(&mut cut, "...");
            cut
        } else {
            name
        }
    }

    /// The name a top-level expression statement gives.
    fn expression_statement_name(tree: &SyntaxTree, node: usize) -> (r: Option<String>)
        requires
            tree.wf(),
            node < tree.nodes@.len(),
        ensures
            opt_str_of(r) == ts_expression_name(tree, node as int),
    {
        let c = match tree.child(node, 0) {
            Some(c) => c,
            None => {
                return None;
            },
        };
        if tree.kind_is(c, "call_expression") {
            let f = match tree.child_by_field(c, "function") {
                Some(f) => f,
                None => {
                    return None;
                },
            };
            let a = match tree.child_by_field(c, "arguments") {
                Some(a) => a,
                None => {
                    return None;
                },
            };
            let ft = tree.node_text(f);
            match TypeScriptParser::first_string_child(tree, a) {
                Some(x) => {
                    let raw = tree.node_text(x);
                    let path = trim_chars(raw.as_str(), "\"'`");
                    let mut name = ft;
                    push_text(&mut name, ":");
                    push_text(&mut name, path.as_str());
                    Some(name)
                },
                None => Some(ft),
            }
        } else if tree.kind_is(c, "assignment_expression") {
            match tree.child_by_field(c, "left") {
                Some(l) => Some(tree.node_text(l)),
                None => None,
            }
        } else {
            let text = tree.node_text(c);
            if text.unicode_len() == 0 {
                None
            } else {
                Some(TypeScriptParser::shorten(extract_signature(text.as_str())))
            }
        }
    }

    /// A symbol spanning `node`, with a fresh id.
    fn make_symbol(
        tree: &SyntaxTree,
        node: usize,
        name: String,
        kind: SymbolKind,
        vis: Visibility,
        file_path: &str,
    ) -> (r: Symbol)
        requires
            tree.wf(),
            node < tree.nodes@.len(),
        ensures
            r@ == with_id(ts_symbol(tree, node as int, name@, kind, vis, file_path@), r.id),
    {
        let qualified = String::from_str(name.as_str());
        Symbol {
            id: fresh_id(),
            name,
            qualified_name: qualified,
            kind,
            visibility: vis,
            file_path: String::from_str(file_path),
            span: Span { start_byte: tree.nodes[node].start_byte as u32, end_byte: tree.nodes[node].end_byte as u32 },
            signature: TypeScriptParser::node_signature(tree, node),
            doc_comment: TypeScriptParser::doc_comments(tree, node),
            parent: None,
            last_modified_by: None,
            last_modified_intent: None,
        }
    }

    /// Appends the symbols a declaration node gives.
    fn extract_symbol(
        tree: &SyntaxTree,
        node: usize,
        file_path: &str,
        vis: Visibility,
        out: &mut Vec<Symbol>,
    )
        requires
            tree.wf(),
            node < tree.nodes@.len(),
        ensures
            appended(views_of(old(out)@), views_of(final(out)@), ts_decl_symbols(tree, node as int, file_path@, vis)),
    {
        let ghost start = views_of(out@);
        TypeScriptParser::decl_symbols(tree, node, file_path, vis, out);
        proof {
            lemma_same_to_appended(start, views_of(out@), ts_decl_symbols(tree, node as int, file_path@, vis));
        }
    }

    fn decl_symbols(
        tree: &SyntaxTree,
        node: usize,
        file_path: &str,
        vis: Visibility,
        out: &mut Vec<Symbol>,
    )
        requires
            tree.wf(),
            node < tree.nodes@.len(),
        ensures
            same_up_to_ids(views_of(final(out)@), views_of(old(out)@) + ts_decl_symbols(
                tree,
                node as int,
                file_path@,
                vis,
            )),
            final(out)@.len() >= old(out)@.len(),
            forall|k: int| 0 <= k < old(out)@.len() ==> #[trigger] final(out)@[k]@ == old(out)@[k]@,
    {
        let ghost start = views_of(out@);
        let kind = match TypeScriptParser::map_symbol_kind(tree.nodes[node].kind.as_str()) {
            Some(k) => k,
            None => {
                assert(views_of(out@) =~= start + Seq::<SymbolV>::empty());
                return;
            },
        };
        if tree.kind_is(node, "expression_statement") {
            match TypeScriptParser::expression_statement_name(tree, node) {
                Some(n) => {
                    if n.unicode_len() > 0 {
                        let ghost nv = n@;
                        let sym = TypeScriptParser::make_symbol(tree, node, n, SymbolKind::Const, vis, file_path);
                        out.push(sym);
                        assert(views_of(out@) =~= start.push(sym@));
                        assert(ts_decl_symbols(tree, node as int, file_path@, vis) =~= seq![
                            ts_symbol(tree, node as int, nv, SymbolKind::Const, vis, file_path@),
                        ]);
                    } else {
                        assert(views_of(out@) =~= start + Seq::<SymbolV>::empty());
                    }
                },
                None => {
                    assert(views_of(out@) =~= start + Seq::<SymbolV>::empty());
                },
            }
        } else if tree.kind_is(node, "lexical_declaration") {
            assert(tree.node_wf(node as int));
            let cs = &tree.nodes[node].children;
            let ghost f = |n: Seq<char>| ts_symbol(tree, node as int, n, SymbolKind::Const, vis, file_path@);
            let mut k: usize = 0;
            while k < cs.len()
                invariant
                    tree.wf(),
                    node < tree.nodes@.len(),
                    cs@ == tree.children_of(node as int),
                    k <= cs@.len(),
                    f == (|n: Seq<char>| ts_symbol(tree, node as int, n, SymbolKind::Const, vis, file_path@)),
                    same_up_to_ids(views_of(out@), start + ts_variable_names(tree, cs@.take(k as int)).map_values(f)),
                    out@.len() >= start.len(),
                    forall|j: int| 0 <= j < start.len() ==> #[trigger] out@[j]@ == start[j],
                decreases cs@.len() - k,
            {
                assert(cs@.take(k + 1).drop_last() =~= cs@.take(k as int));
                assert(cs@.take(k + 1).last() == cs@[k as int]);
                assert(tree.node_wf(node as int));
                let c = cs[k];
                let ghost prev = ts_variable_names(tree, cs@.take(k as int));
                if tree.kind_is(c, "variable_declarator") {
                    assert(tree.node_wf(c as int));
                    match tree.child_by_field(c, "name") {
                        Some(nn) => {
                            let name = tree.node_text(nn);
                            if name.unicode_len() > 0 {
                                let ghost nv = name@;
                                let sym = TypeScriptParser::make_symbol(
                                    tree,
                                    node,
                                    name,
                                    SymbolKind::Const,
                                    vis,
                                    file_path,
                                );
                                let ghost before = views_of(out@);
                                out.push(sym);
                                assert(views_of(out@) =~= before.push(sym@));
                                assert(prev.push(nv).map_values(f) =~= prev.map_values(f).push(f(nv)));
                                assert(start + prev.push(nv).map_values(f) =~= (start + prev.map_values(f)).push(
                                    f(nv),
                                ));
                            }
                        },
                        None => {},
                    }
                }
                k = k + 1;
            }
            assert(cs@.take(cs@.len() as int) =~= cs@);
        } else {
            match tree.child_by_field(node, "name") {
                Some(nn) => {
                    let name = tree.node_text(nn);
                    if name.unicode_len() > 0 {
                        let ghost nv = name@;
                        let sym = TypeScriptParser::make_symbol(tree, node, name, kind, vis, file_path);
                        out.push(sym);
                        assert(views_of(out@) =~= start.push(sym@));
                        assert(ts_decl_symbols(tree, node as int, file_path@, vis) =~= seq![
                            ts_symbol(tree, node as int, nv, kind, vis, file_path@),
                        ]);
                    } else {
                        assert(views_of(out@) =~= start + Seq::<SymbolV>::empty());
                    }
                },
                None => {
                    assert(views_of(out@) =~= start + Seq::<SymbolV>::empty());
                },
            }
        }
    }
}


/// `new` is `old` followed by symbols equal to `x` up to ids.
pub open spec fn appended(old: Seq<SymbolV>, new: Seq<SymbolV>, x: Seq<SymbolV>) -> bool {
    &&& new.len() == old.len() + x.len()
    &&& new.take(old.len() as int) == old
    &&& same_up_to_ids(new.skip(old.len() as int), x)
}

proof fn lemma_same_to_appended(old: Seq<SymbolV>, new: Seq<SymbolV>, x: Seq<SymbolV>)
    requires
        same_up_to_ids(new, old + x),
        forall|k: int| 0 <= k < old.len() ==> #[trigger] new[k] == old[k],
    ensures
        appended(old, new, x),
{
    assert(new.take(old.len() as int) =~= old);
    assert forall|k: int| 0 <= k < new.skip(old.len() as int).len() implies #[trigger] new.skip(old.len() as int)[k]
        == with_id(x[k], new.skip(old.len() as int)[k].id) by {
        assert(new.skip(old.len() as int)[k] == new[old.len() + k]);
        assert((old + x)[old.len() + k] == x[k]);
    }
}

proof fn lemma_appended_trans(a: Seq<SymbolV>, b: Seq<SymbolV>, c: Seq<SymbolV>, x: Seq<SymbolV>, y: Seq<SymbolV>)
    requires
        appended(a, b, x),
        appended(b, c, y),
    ensures
        appended(a, c, x + y),
{
    assert(c.take(a.len() as int) =~= a) by {
        assert forall|k: int| 0 <= k < a.len() implies c[k] == a[k] by {
            assert(c.take(b.len() as int)[k] == b[k]);
            assert(b.take(a.len() as int)[k] == a[k]);
        }
    }
    let cs = c.skip(a.len() as int);
    assert forall|k: int| 0 <= k < cs.len() implies #[trigger] cs[k] == with_id((x + y)[k], cs[k].id) by {
        if k < x.len() {
            assert(c.take(b.len() as int)[a.len() + k] == b[a.len() + k]);
            assert(b.skip(a.len() as int)[k] == b[a.len() + k]);
        } else {
            assert(c.skip(b.len() as int)[k - x.len()] == c[a.len() + k]);
        }
    }
}

proof fn lemma_appended_nothing(a: Seq<SymbolV>)
    ensures
        appended(a, a, Seq::empty()),
{
    assert(a.take(a.len() as int) =~= a);
}

impl TypeScriptParser {
    /// The name of a bare export statement.
    fn bare_export(tree: &SyntaxTree, node: usize) -> (r: String)
        requires
            tree.wf(),
            node < tree.nodes@.len(),
        ensures
            r@ == bare_export_name(tree, node as int),
    {
        let d = match tree.child_by_field(node, "declaration") {
            Some(x) => Some(x),
            None => tree.child_by_field(node, "value"),
        };
        match d {
            Some(n) => {
                let t = trim_text(tree.node_text(n).as_str());
                if t.unicode_len() > 0 {
                    return t;
                }
            },
            None => {},
        }
        let text = tree.node_text(node);
        if text.unicode_len() == 0 {
            String::from_str("export")
        } else {
            extract_signature(text.as_str())
        }
    }

    /// Appends the symbols a top-level node gives.
    fn top_symbols(tree: &SyntaxTree, node: usize, file_path: &str, out: &mut Vec<Symbol>)
        requires
            tree.wf(),
            node < tree.nodes@.len(),
        ensures
            appended(views_of(old(out)@), views_of(final(out)@), ts_top_symbols(tree, node as int, file_path@)),
    {
        let ghost start = views_of(out@);
        proof {
            lemma_appended_nothing(start);
        }
        if tree.kind_is(node, "export_statement") {
            assert(tree.node_wf(node as int));
            let cs = &tree.nodes[node].children;
            let mut found = false;
            let mut k: usize = 0;
            assert(cs@.take(0) =~= Seq::<usize>::empty());
            while k < cs.len()
                invariant
                    tree.wf(),
                    node < tree.nodes@.len(),
                    cs@ == tree.children_of(node as int),
                    k <= cs@.len(),
                    appended(start, views_of(out@), ts_export_inner(tree, cs@.take(k as int), file_path@)),
                    found == has_declaration(tree, cs@.take(k as int)),
                decreases cs@.len() - k,
            {
                assert(cs@.take(k + 1).drop_last() =~= cs@.take(k as int));
                assert(cs@.take(k + 1).last() == cs@[k as int]);
                assert(tree.node_wf(node as int));
                let c = cs[k];
                let ghost mid = views_of(out@);
                let ghost prev = ts_export_inner(tree, cs@.take(k as int), file_path@);
                if TypeScriptParser::map_symbol_kind(tree.nodes[c].kind.as_str()).is_some() {
                    TypeScriptParser::extract_symbol(tree, c, file_path, Visibility::Public, out);
                    proof {
                        lemma_appended_trans(
                            start,
                            mid,
                            views_of(out@),
                            prev,
                            ts_decl_symbols(tree, c as int, file_path@, Visibility::Public),
                        );
                        let t1 = cs@.take(k + 1);
                        assert(has_declaration(tree, t1)) by {
                            assert(t1[k as int] == c);
                        }
                    }
                    found = true;
                } else {
                    proof {
                        let t1 = cs@.take(k + 1);
                        assert(has_declaration(tree, t1) == has_declaration(tree, cs@.take(k as int))) by {
                            if has_declaration(tree, t1) {
                                let j = choose|j: int| 0 <= j < t1.len() && (#[trigger] ts_decl_kind(
                                    tree.kind_of(t1[j] as int),
                                )) is Some;
                                assert(j != k);
                                assert(cs@.take(k as int)[j] == t1[j]);
                            }
                            if has_declaration(tree, cs@.take(k as int)) {
                                let j = choose|j: int| 0 <= j < k && (#[trigger] ts_decl_kind(
                                    tree.kind_of(cs@.take(k as int)[j] as int),
                                )) is Some;
                                assert(t1[j] == cs@.take(k as int)[j]);
                            }
                        }
                    }
                }
                k = k + 1;
            }
            assert(cs@.take(cs@.len() as int) =~= cs@);
            if !found {
                let name = TypeScriptParser::bare_export(tree, node);
                let ghost nv = name@;
                let ghost mid = views_of(out@);
                let sym = TypeScriptParser::make_symbol(
                    tree,
                    node,
                    name,
                    SymbolKind::Const,
                    Visibility::Public,
                    file_path,
                );
                out.push(sym);
                proof {
                    let x = seq![
                        ts_symbol(tree, node as int, nv, SymbolKind::Const, Visibility::Public, file_path@),
                    ];
                    assert(views_of(out@) =~= mid.push(sym@));
                    assert(appended(mid, views_of(out@), x)) by {
                        assert(views_of(out@).take(mid.len() as int) =~= mid);
                        assert(views_of(out@).skip(mid.len() as int) =~= seq![sym@]);
                    }
                    lemma_appended_trans(start, mid, views_of(out@), ts_export_inner(tree, cs@, file_path@), x);
                    assert(ts_export_inner(tree, cs@, file_path@) =~= Seq::<SymbolV>::empty()) by {
                        lemma_no_declaration_no_symbols(tree, cs@, file_path@);
                    }
                    assert(Seq::<SymbolV>::empty() + x =~= x);
                }
            }
        } else if TypeScriptParser::map_symbol_kind(tree.nodes[node].kind.as_str()).is_some() {
            TypeScriptParser::extract_symbol(tree, node, file_path, Visibility::Private, out);
        }
    }

    /// The symbols of a TypeScript file: top-level declarations (public when
    /// exported) and bare exports; duplicate qualified names are numbered
    /// `#N`. Each symbol has a fresh id.
    pub fn extract_symbols(&self, tree: &SyntaxTree, file_path: &str) -> (r: Vec<Symbol>)
        requires
            tree.wf(),
        ensures
            tree.source@.len() == 0 || tree.nodes@.len() == 0 ==> r@.len() == 0,
            tree.source@.len() > 0 && tree.nodes@.len() > 0 ==> exists|pre: Seq<SymbolV>|
                same_up_to_ids(pre, ts_symbols(tree, tree.children_of(0), file_path@)) && views_of(r@) == numbered(
                    pre,
                ),
    {
        let mut out: Vec<Symbol> = Vec::new();
        if tree.source.len() == 0 || tree.nodes.len() == 0 {
            return out;
        }
        assert(tree.node_wf(0));
        let cs = &tree.nodes[0].children;
        let ghost empty = views_of(out@);
        assert(empty =~= Seq::<SymbolV>::empty());
        proof {
            lemma_appended_nothing(empty);
        }
        let mut k: usize = 0;
        while k < cs.len()
            invariant
                tree.wf(),
                0 < tree.nodes@.len(),
                cs@ == tree.children_of(0),
                k <= cs@.len(),
                empty == Seq::<SymbolV>::empty(),
                appended(empty, views_of(out@), ts_symbols(tree, cs@.take(k as int), file_path@)),
            decreases cs@.len() - k,
        {
            assert(cs@.take(k + 1).drop_last() =~= cs@.take(k as int));
            assert(cs@.take(k + 1).last() == cs@[k as int]);
            assert(tree.node_wf(0));
            let c = cs[k];
            let ghost mid = views_of(out@);
            TypeScriptParser::top_symbols(tree, c, file_path, &mut out);
            proof {
                lemma_appended_trans(
                    empty,
                    mid,
                    views_of(out@),
                    ts_symbols(tree, cs@.take(k as int), file_path@),
                    ts_top_symbols(tree, c as int, file_path@),
                );
            }
            k = k + 1;
        }
        assert(cs@.take(cs@.len() as int) =~= cs@);
        let ghost pre = views_of(out@);
        assert(pre.skip(0) =~= pre);
        let r = DedupParser::number_duplicates(out);
        assert(same_up_to_ids(pre, ts_symbols(tree, tree.children_of(0), file_path@)));
        r
    }
}

/// Without a declaration child, an export gives no inner symbols.
proof fn lemma_no_declaration_no_symbols(t: &SyntaxTree, cs: Seq<usize>, path: Seq<char>)
    requires
        !has_declaration(t, cs),
    ensures
        ts_export_inner(t, cs, path) == Seq::<SymbolV>::empty(),
    decreases cs.len(),
{
    if cs.len() > 0 {
        assert(!has_declaration(t, cs.drop_last())) by {
            if has_declaration(t, cs.drop_last()) {
                let j = choose|j: int| 0 <= j < cs.drop_last().len() && (#[trigger] ts_decl_kind(
                    t.kind_of(cs.drop_last()[j] as int),
                )) is Some;
                assert(cs[j] == cs.drop_last()[j]);
            }
        }
        lemma_no_declaration_no_symbols(t, cs.drop_last(), path);
        assert(ts_decl_kind(t.kind_of(cs[cs.len() - 1] as int)) is None);
    }
}


/// Pushes an import and keeps the views in step.
fn push_ts_import(out: &mut Vec<Import>, module: &str, imported: &str, alias: Option<String>, ext: bool)
    ensures
        import_views(final(out)@) == import_views(old(out)@).push((module@, imported@, opt_str_of(alias), ext)),
{
    let ghost before = import_views(out@);
    let alias_v = alias;
    out.push(
        Import {
            module_name: String::from_str(module),
            imported_name: String::from_str(imported),
            alias: alias_v,
            is_external: ext,
        },
    );
    proof {
        let last = out@.last();
        assert(import_view(last) == (module@, imported@, opt_str_of(alias_v), ext)) by {
            match alias_v {
                Some(a) => {},
                None => {},
            }
        }
        assert(import_views(out@) =~= before.push(import_view(last)));
    }
}

impl TypeScriptParser {
    /// The name of the function enclosing `node`, or `<module>`.
    fn enclosing_function_name(tree: &SyntaxTree, node: usize) -> (r: String)
        requires
            tree.wf(),
            node < tree.nodes@.len(),
        ensures
            r@ == ts_enclosing(tree, tree.parent_of(node as int), node as int),
    {
        let ghost goal = ts_enclosing(tree, tree.parent_of(node as int), node as int);
        assert(tree.node_wf(node as int));
        let mut cur = tree.nodes[node].parent;
        let ghost mut bound: int = node as int;
        while cur.is_some()
            invariant
                tree.wf(),
                bound < tree.nodes@.len(),
                cur matches Some(p) ==> p < bound,
                ts_enclosing(tree, cur, bound) == goal,
                goal == ts_enclosing(tree, tree.parent_of(node as int), node as int),
            decreases bound,
        {
            let p = cur.unwrap();
            assert(tree.node_wf(p as int));
            if tree.kind_is(p, "function_declaration") || tree.kind_is(p, "method_definition") {
                if let Some(n) = tree.child_by_field(p, "name") {
                    let name = tree.node_text(n);
                    if name.unicode_len() > 0 {
                        return name;
                    }
                }
            } else if tree.kind_is(p, "arrow_function") || tree.kind_is(p, "function_expression")
                || tree.kind_is(p, "function") {
                if let Some(g) = tree.nodes[p].parent {
                    if tree.kind_is(g, "variable_declarator") {
                        assert(tree.node_wf(g as int));
                        if let Some(n) = tree.child_by_field(g, "name") {
                            let name = tree.node_text(n);
                            if name.unicode_len() > 0 {
                                return name;
                            }
                        }
                    }
                }
            }
            cur = tree.nodes[p].parent;
            proof {
                bound = p as int;
            }
        }
        String::from_str("<module>")
    }

    /// The callee and call kind of a call's function node.
    fn extract_callee_name(tree: &SyntaxTree, f: usize) -> (r: (String, CallKind))
        requires
            tree.wf(),
            f < tree.nodes@.len(),
        ensures
            (r.0@, r.1) == ts_callee(tree, f as int),
    {
        if tree.kind_is(f, "member_expression") {
            match tree.child_by_field(f, "property") {
                Some(p) => (tree.node_text(p), CallKind::MethodCall),
                None => (tree.node_text(f), CallKind::MethodCall),
            }
        } else {
            (tree.node_text(f), CallKind::DirectCall)
        }
    }

    /// Appends the calls node `i` itself makes.
    fn own_calls(tree: &SyntaxTree, i: usize, calls: &mut Vec<RawCallEdge>)
        requires
            tree.wf(),
            i < tree.nodes@.len(),
        ensures
            call_views(final(calls)@) == call_views(old(calls)@) + ts_own_calls(tree, i as int),
    {
        let ghost start = call_views(calls@);
        let span = Span { start_byte: tree.nodes[i].start_byte as u32, end_byte: tree.nodes[i].end_byte as u32 };
        if tree.kind_is(i, "call_expression") {
            match tree.child_by_field(i, "function") {
                Some(f) => {
                    let (callee, kind) = TypeScriptParser::extract_callee_name(tree, f);
                    if callee.unicode_len() > 0 {
                        let caller = TypeScriptParser::enclosing_function_name(tree, i);
                        calls.push(RawCallEdge { caller_name: caller, callee_name: callee, call_site: span, kind });
                        assert(call_views(calls@) =~= start + ts_own_calls(tree, i as int));
                    } else {
                        assert(call_views(calls@) =~= start + Seq::<CallV>::empty());
                    }
                },
                None => {
                    assert(call_views(calls@) =~= start + Seq::<CallV>::empty());
                },
            }
        } else if tree.kind_is(i, "new_expression") {
            match tree.child_by_field(i, "constructor") {
                Some(c) => {
                    let name = tree.node_text(c);
                    if name.unicode_len() > 0 {
                        let caller = TypeScriptParser::enclosing_function_name(tree, i);
                        calls.push(
                            RawCallEdge {
                                caller_name: caller,
                                callee_name: name,
                                call_site: span,
                                kind: CallKind::DirectCall,
                            },
                        );
                        assert(call_views(calls@) =~= start + ts_own_calls(tree, i as int));
                    } else {
                        assert(call_views(calls@) =~= start + Seq::<CallV>::empty());
                    }
                },
                None => {
                    assert(call_views(calls@) =~= start + Seq::<CallV>::empty());
                },
            }
        } else {
            assert(call_views(calls@) =~= start + Seq::<CallV>::empty());
        }
    }

    /// Appends the calls of the subtree at `i`, in pre-order.
    fn walk_calls(tree: &SyntaxTree, i: usize, calls: &mut Vec<RawCallEdge>)
        requires
            tree.wf(),
            i < tree.nodes@.len(),
        ensures
            call_views(final(calls)@) == call_views(old(calls)@) + ts_calls_at(tree, i as int),
        decreases tree.nodes@.len() - i,
    {
        let ghost start = call_views(calls@);
        TypeScriptParser::own_calls(tree, i, calls);
        assert(tree.node_wf(i as int));
        let cs = &tree.nodes[i].children;
        let mut k: usize = 0;
        while k < cs.len()
            invariant
                tree.wf(),
                i < tree.nodes@.len(),
                cs@ == tree.children_of(i as int),
                k <= cs@.len(),
                call_views(calls@) == start + ts_own_calls(tree, i as int) + ts_child_calls(tree, i as int, k as int),
            decreases cs@.len() - k,
        {
            assert(tree.node_wf(i as int));
            let c = cs[k];
            assert(i < c < tree.nodes@.len());
            TypeScriptParser::walk_calls(tree, c, calls);
            assert(ts_child_calls(tree, i as int, k + 1) == ts_child_calls(tree, i as int, k as int) + ts_calls_at(
                tree,
                c as int,
            ));
            assert(call_views(calls@) =~= start + ts_own_calls(tree, i as int) + ts_child_calls(
                tree,
                i as int,
                k + 1,
            ));
            k = k + 1;
        }
        assert(call_views(calls@) =~= start + ts_calls_at(tree, i as int));
    }

    /// The calls of a TypeScript file: calls and `new` expressions, in pre-order.
    pub fn extract_calls(&self, tree: &SyntaxTree) -> (r: Vec<RawCallEdge>)
        requires
            tree.wf(),
        ensures
            tree.source@.len() == 0 || tree.nodes@.len() == 0 ==> r@.len() == 0,
            tree.source@.len() > 0 && tree.nodes@.len() > 0 ==> call_views(r@) == ts_calls_at(tree, 0),
    {
        let mut calls: Vec<RawCallEdge> = Vec::new();
        if tree.source.len() == 0 || tree.nodes.len() == 0 {
            return calls;
        }
        assert(call_views(calls@) =~= Seq::<CallV>::empty());
        TypeScriptParser::walk_calls(tree, 0, &mut calls);
        assert(call_views(calls@) =~= ts_calls_at(tree, 0));
        calls
    }

    /// The alias of a namespace import.
    fn namespace_import_alias(tree: &SyntaxTree, c: usize) -> (r: Option<String>)
        requires
            tree.wf(),
            c < tree.nodes@.len(),
        ensures
            opt_str_of(r) == namespace_alias(tree, c as int),
    {
        if let Some(n) = tree.child_by_field(c, "name") {
            return Some(tree.node_text(n));
        }
        assert(tree.node_wf(c as int));
        let cs = &tree.nodes[c].children;
        let mut k: usize = 0;
        assert(cs@.skip(0) =~= cs@);
        while k < cs.len()
            invariant
                tree.wf(),
                c < tree.nodes@.len(),
                k <= cs@.len(),
                cs@ == tree.children_of(c as int),
                tree.field_of(c as int, "name"@) is None,
                first_identifier(tree, cs@) == first_identifier(tree, cs@.skip(k as int)),
            decreases cs@.len() - k,
        {
            assert(tree.node_wf(c as int));
            assert(cs@.skip(k as int)[0] == cs@[k as int]);
            assert(cs@.skip(k as int).drop_first() =~= cs@.skip(k as int + 1));
            let x = cs[k];
            if tree.kind_is(x, "identifier") {
                return Some(tree.node_text(x));
            }
            k = k + 1;
        }
        None
    }

    /// Appends the imports of the specifiers of a `named_imports` node.
    fn extract_named_imports(tree: &SyntaxTree, node: usize, module: &str, ext: bool, out: &mut Vec<Import>)
        requires
            tree.wf(),
            node < tree.nodes@.len(),
        ensures
            import_views(final(out)@) == import_views(old(out)@) + ts_named_imports(
                tree,
                tree.children_of(node as int),
                module@,
                ext,
            ),
    {
        let ghost start = import_views(out@);
        assert(tree.node_wf(node as int));
        let cs = &tree.nodes[node].children;
        let mut k: usize = 0;
        assert(start + Seq::<ImportV>::empty() =~= start);
        while k < cs.len()
            invariant
                tree.wf(),
                node < tree.nodes@.len(),
                cs@ == tree.children_of(node as int),
                k <= cs@.len(),
                import_views(out@) == start + ts_named_imports(tree, cs@.take(k as int), module@, ext),
            decreases cs@.len() - k,
        {
            assert(cs@.take(k + 1).drop_last() =~= cs@.take(k as int));
            assert(cs@.take(k + 1).last() == cs@[k as int]);
            assert(tree.node_wf(node as int));
            let c = cs[k];
            let ghost prev = ts_named_imports(tree, cs@.take(k as int), module@, ext);
            if tree.kind_is(c, "import_specifier") {
                assert(tree.node_wf(c as int));
                let name = match tree.child_by_field(c, "name") {
                    Some(n) => tree.node_text(n),
                    None => String::new(),
                };
                let alias = match tree.child_by_field(c, "alias") {
                    Some(a) => Some(tree.node_text(a)),
                    None => None,
                };
                if name.unicode_len() > 0 {
                    let ghost av = opt_str_of(alias);
                    push_ts_import(out, module, name.as_str(), alias, ext);
                    assert(import_views(out@) =~= start + prev.push((module@, name@, av, ext)));
                }
            }
            k = k + 1;
        }
        assert(cs@.take(cs@.len() as int) =~= cs@);
    }

    /// Appends the imports of an import clause.
    fn extract_import_clause(tree: &SyntaxTree, node: usize, module: &str, ext: bool, out: &mut Vec<Import>)
        requires
            tree.wf(),
            node < tree.nodes@.len(),
        ensures
            import_views(final(out)@) == import_views(old(out)@) + ts_clause_imports(
                tree,
                tree.children_of(node as int),
                module@,
                ext,
            ),
    {
        proof {
            reveal_strlit("*");
        }
        let ghost start = import_views(out@);
        assert(tree.node_wf(node as int));
        let cs = &tree.nodes[node].children;
        let mut k: usize = 0;
        assert(start + Seq::<ImportV>::empty() =~= start);
        while k < cs.len()
            invariant
                tree.wf(),
                node < tree.nodes@.len(),
                cs@ == tree.children_of(node as int),
                k <= cs@.len(),
                import_views(out@) == start + ts_clause_imports(tree, cs@.take(k as int), module@, ext),
            decreases cs@.len() - k,
        {
            assert(cs@.take(k + 1).drop_last() =~= cs@.take(k as int));
            assert(cs@.take(k + 1).last() == cs@[k as int]);
            assert(tree.node_wf(node as int));
            let c = cs[k];
            let ghost prev = ts_clause_imports(tree, cs@.take(k as int), module@, ext);
            if tree.kind_is(c, "identifier") {
                let name = tree.node_text(c);
                push_ts_import(out, module, name.as_str(), None, ext);
                assert(import_views(out@) =~= start + prev.push((module@, name@, None, ext)));
            } else if tree.kind_is(c, "named_imports") {
                TypeScriptParser::extract_named_imports(tree, c, module, ext, out);
                assert(import_views(out@) =~= start + (prev + ts_named_imports(tree, tree.children_of(c as int), module@, ext)));
            } else if tree.kind_is(c, "namespace_import") {
                let alias = TypeScriptParser::namespace_import_alias(tree, c);
                push_ts_import(out, module, "*", alias, ext);
                assert(import_views(out@) =~= start + prev.push((module@, "*"@, namespace_alias(tree, c as int), ext)));
            }
            k = k + 1;
        }
        assert(cs@.take(cs@.len() as int) =~= cs@);
    }

    /// Appends the imports of an import statement.
    fn extract_import(tree: &SyntaxTree, node: usize, out: &mut Vec<Import>)
        requires
            tree.wf(),
            node < tree.nodes@.len(),
        ensures
            import_views(final(out)@) == import_views(old(out)@) + ts_statement_imports(tree, node as int),
    {
        proof {
            reveal_strlit("*");
        }
        let ghost start = import_views(out@);
        let src = match tree.child_by_field(node, "source") {
            Some(s) => s,
            None => {
                assert(import_views(out@) =~= start + Seq::<ImportV>::empty());
                return;
            },
        };
        let module = trim_chars(tree.node_text(src).as_str(), "'\"");
        let ext = !starts_with(module.as_str(), ".") && !starts_with(module.as_str(), "/");
        assert(tree.node_wf(node as int));
        let cs = &tree.nodes[node].children;
        let mut found = false;
        let mut k: usize = 0;
        assert(start + Seq::<ImportV>::empty() =~= start);
        while k < cs.len()
            invariant
                tree.wf(),
                node < tree.nodes@.len(),
                cs@ == tree.children_of(node as int),
                k <= cs@.len(),
                found == ts_statement_items(tree, cs@.take(k as int), module@, ext).0,
                import_views(out@) == start + ts_statement_items(tree, cs@.take(k as int), module@, ext).1,
            decreases cs@.len() - k,
        {
            assert(cs@.take(k + 1).drop_last() =~= cs@.take(k as int));
            assert(cs@.take(k + 1).last() == cs@[k as int]);
            assert(tree.node_wf(node as int));
            let c = cs[k];
            let ghost prev = ts_statement_items(tree, cs@.take(k as int), module@, ext).1;
            if tree.kind_is(c, "import_clause") {
                TypeScriptParser::extract_import_clause(tree, c, module.as_str(), ext, out);
                assert(import_views(out@) =~= start + (prev + ts_clause_imports(tree, tree.children_of(c as int), module@, ext)));
                found = true;
            } else if tree.kind_is(c, "named_imports") {
                TypeScriptParser::extract_named_imports(tree, c, module.as_str(), ext, out);
                assert(import_views(out@) =~= start + (prev + ts_named_imports(tree, tree.children_of(c as int), module@, ext)));
                found = true;
            } else if tree.kind_is(c, "namespace_import") {
                let alias = TypeScriptParser::namespace_import_alias(tree, c);
                push_ts_import(out, module.as_str(), "*", alias, ext);
                assert(import_views(out@) =~= start + prev.push((module@, "*"@, namespace_alias(tree, c as int), ext)));
                found = true;
            } else if tree.kind_is(c, "identifier") {
                let name = tree.node_text(c);
                if !str_eq(name.as_str(), "import") && !str_eq(name.as_str(), "from") && !str_eq(name.as_str(), "type") {
                    push_ts_import(out, module.as_str(), name.as_str(), None, ext);
                    assert(import_views(out@) =~= start + prev.push((module@, name@, None, ext)));
                    found = true;
                }
            }
            k = k + 1;
        }
        assert(cs@.take(cs@.len() as int) =~= cs@);
        if !found {
            let ghost before = import_views(out@);
            push_ts_import(out, module.as_str(), "*", None, ext);
            assert(import_views(out@) =~= start + ts_statement_items(tree, cs@, module@, ext).1.push(
                (module@, "*"@, None, ext),
            ));
        }
    }

    /// The imports of a TypeScript file: its top-level import statements.
    pub fn extract_imports(&self, tree: &SyntaxTree) -> (r: Vec<Import>)
        requires
            tree.wf(),
        ensures
            tree.source@.len() == 0 || tree.nodes@.len() == 0 ==> r@.len() == 0,
            tree.source@.len() > 0 && tree.nodes@.len() > 0 ==> import_views(r@) == ts_imports(tree, tree.children_of(0)),
    {
        let mut out: Vec<Import> = Vec::new();
        if tree.source.len() == 0 || tree.nodes.len() == 0 {
            return out;
        }
        assert(tree.node_wf(0));
        let cs = &tree.nodes[0].children;
        let mut k: usize = 0;
        assert(import_views(out@) =~= Seq::<ImportV>::empty());
        while k < cs.len()
            invariant
                tree.wf(),
                0 < tree.nodes@.len(),
                cs@ == tree.children_of(0),
                k <= cs@.len(),
                import_views(out@) == ts_imports(tree, cs@.take(k as int)),
            decreases cs@.len() - k,
        {
            assert(cs@.take(k + 1).drop_last() =~= cs@.take(k as int));
            assert(cs@.take(k + 1).last() == cs@[k as int]);
            assert(tree.node_wf(0));
            let c = cs[k];
            if tree.kind_is(c, "import_statement") {
                TypeScriptParser::extract_import(tree, c, &mut out);
            }
            k = k + 1;
        }
        assert(cs@.take(cs@.len() as int) =~= cs@);
        out
    }
}

/// `fa` is what the TypeScript parser finds in tree `t` of file `path`.
pub open spec fn ts_analysis(t: SyntaxTree, path: Seq<char>, fa: FileAnalysis) -> bool {
    &&& exists|pre: Seq<SymbolV>|
        same_up_to_ids(pre, ts_symbols(&t, t.children_of(0), path)) && views_of(fa.symbols@) == numbered(pre)
    &&& call_views(fa.calls@) == ts_calls_at(&t, 0)
    &&& fa.types@.len() == 0
    &&& import_views(fa.imports@) == ts_imports(&t, t.children_of(0))
}

/// `fa` is what the TypeScript parser finds in file `path` whose bytes
/// `source` parse to the nodes `rows`.
pub open spec fn ts_file_analysis(source: Seq<u8>, rows: Seq<RowV>, path: Seq<char>, fa: FileAnalysis) -> bool {
    exists|t: SyntaxTree| tree_of_rows(t, source, rows) && #[trigger] ts_analysis(t, path, fa)
}

impl TypeScriptParser {
    /// Parses a TypeScript or JavaScript file's bytes (with the TSX
    /// grammar) and returns its symbols, calls and imports (no types). An
    /// empty file has none of them; a file that tree-sitter cannot parse is
    /// a `ParseError`.
    pub fn parse_file(&self, source: &[u8], file_path: &str) -> (r: Result<FileAnalysis, Error>)
        ensures
            source@.len() == 0 ==> (r matches Ok(fa) && empty_analysis(fa)),
            source@.len() > 0 && parsed_rows(Grammar::TypeScript, source@) is None ==> (r matches Err(Error::ParseError(_))),
            source@.len() > 0 && parsed_rows(Grammar::TypeScript, source@) is Some
                && !rows_ok(parsed_rows(Grammar::TypeScript, source@)->0, source@.len()) ==> (r matches Err(Error::ParseError(_))),
            source@.len() > 0 && parsed_rows(Grammar::TypeScript, source@) is Some
                && rows_ok(parsed_rows(Grammar::TypeScript, source@)->0, source@.len()) ==> (r matches Ok(fa)
                && ts_file_analysis(source@, parsed_rows(Grammar::TypeScript, source@)->0, file_path@, fa)),
    {
        if source.len() == 0 {
            return Ok(FileAnalysis { symbols: Vec::new(), calls: Vec::new(), types: Vec::new(), imports: Vec::new() });
        }
        match parse_source(Grammar::TypeScript, source) {
            Some(t) => {
                let symbols = self.extract_symbols(&t, file_path);
                let calls = self.extract_calls(&t);
                let imports = self.extract_imports(&t);
                let fa = FileAnalysis { symbols, calls, types: Vec::new(), imports };
                proof {
                    let rows = parsed_rows(Grammar::TypeScript, source@)->0;
                    assert(rows_ok(rows, source@.len()));
                    assert(tree_of_rows(t, source@, rows));
                    assert(t.nodes@.len() > 0 && t.source@.len() > 0);
                    assert(ts_analysis(t, file_path@, fa));
                    assert(ts_file_analysis(source@, rows, file_path@, fa));
                }
                Ok(fa)
            },
            None => Err(Error::ParseError(String::from_str("tree-sitter parse returned None"))),
        }
    }
}

} // verus!
