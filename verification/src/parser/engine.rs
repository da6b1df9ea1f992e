//! The language-agnostic part of the query-driven parser.
//!
//! A grammar's queries are run over a parsed tree (see [`crate::parser::parse`]);
//! what they match reaches this module as [`QueryMatch`] values: for each
//! match, the capture names and the nodes they captured, in capture order.
//! From those matches and the tree, [`QueryDrivenParser`] builds symbols,
//! call edges and imports by the rules of its [`LanguageConfig`].

use vstd::prelude::*;
use crate::conflict::payload::{extract_signature, signature_of};
use crate::domain::{CallKind, Import, RawCallEdge, Span, Symbol, SymbolV};
use crate::ids::fresh_id;
use crate::parser::lang_config::{LanguageConfig, opt_str, prefix_of, strs_of};
use crate::parser::syntax::SyntaxTree;
use crate::parser::parse::{Grammar, ParsedSource, RowV, matches_view, parsed_rows, query_captures, rows_ok, tree_of_rows};
use crate::parser::python_parser::empty_analysis;
use crate::domain::{Error, FileAnalysis};
use crate::text::{has_prefix, join_texts, join_with, last_segment, last_segment_of, starts_with, str_eq, texts_of,
    trim_chars, trim_left_by, trim_right_by, trim_text, trimmed};

verus! {

/// One capture of a query match: the capture's name and the node captured.
pub struct QueryCapture {
    pub name: String,
    pub node: usize,
}

/// One match of a query: its captures, in order.
pub struct QueryMatch {
    pub captures: Vec<QueryCapture>,
}

/// Every capture of every match names a node of the tree.
pub open spec fn matches_in(tree: &SyntaxTree, ms: Seq<QueryMatch>) -> bool {
    forall|j: int, k: int| 0 <= j < ms.len() && 0 <= k < ms[j].captures@.len()
        ==> #[trigger] ms[j].captures@[k].node < tree.nodes@.len()
}

/// Whether every capture of every match names a node of the tree.
pub fn matches_fit(tree: &SyntaxTree, ms: &Vec<QueryMatch>) -> (r: bool)
    ensures
        r == matches_in(tree, ms@),
{
    let len = tree.nodes.len();
    let mut j: usize = 0;
    while j < ms.len()
        invariant
            len == tree.nodes@.len(),
            j <= ms@.len(),
            forall|a: int, k: int| 0 <= a < j && 0 <= k < ms@[a].captures@.len() ==> #[trigger] ms@[a].captures@[k].node < len,
        decreases ms@.len() - j,
    {
        let cs = &ms[j].captures;
        let mut k: usize = 0;
        while k < cs.len()
            invariant
                len == tree.nodes@.len(),
                j < ms@.len(),
                cs == ms@[j as int].captures,
                k <= cs@.len(),
                forall|a: int, b: int| 0 <= a < j && 0 <= b < ms@[a].captures@.len() ==> #[trigger] ms@[a].captures@[b].node < len,
                forall|b: int| 0 <= b < k ==> #[trigger] cs@[b].node < len,
            decreases cs@.len() - k,
        {
            if cs[k].node >= len {
                assert(ms@[j as int].captures@[k as int].node >= len);
                return false;
            }
            k = k + 1;
        }
        j = j + 1;
    }
    true
}

/// The first line of a text, trimmed; none when that is empty.
pub open spec fn signature_opt(text: Seq<char>) -> Option<Seq<char>> {
    let s = signature_of(text);
    if s.len() == 0 {
        None
    } else {
        Some(s)
    }
}

pub open spec fn is_comment_kind(k: Seq<char>) -> bool {
    k == "line_comment"@ || k == "comment"@
}

/// Comment node `p` sits on the line where a preceding non-comment sibling ends.
pub open spec fn inline_comment(t: &SyntaxTree, p: int) -> bool {
    match t.prev_of(p) {
        Some(b) => 0 <= b < t.size() && !is_comment_kind(t.kind_of(b as int))
            && t.nodes@[b as int].end_row == t.nodes@[p].start_row,
        None => false,
    }
}

/// The doc-comment lines found walking back from sibling `s`, nearest first:
/// trimmed comment texts that start with `prefix` or `/*`, up to the first
/// sibling that is no such comment or is an inline comment.
pub open spec fn doc_lines(t: &SyntaxTree, prefix: Seq<char>, s: Option<usize>, bound: int) -> Seq<Seq<char>>
    decreases bound,
{
    match s {
        None => Seq::empty(),
        Some(p) => {
            if p >= bound || p >= t.size() || !is_comment_kind(t.kind_of(p as int)) || inline_comment(t, p as int) {
                Seq::empty()
            } else {
                let tx = trimmed(t.text_of(p as int));
                if has_prefix(tx, prefix) || has_prefix(tx, "/*"@) {
                    seq![tx] + doc_lines(t, prefix, t.prev_of(p as int), p as int)
                } else {
                    Seq::empty()
                }
            }
        },
    }
}

/// Lines found nearest first, joined in source order.
pub open spec fn doc_text(lines: Seq<Seq<char>>) -> Option<Seq<char>> {
    if lines.len() == 0 {
        None
    } else {
        Some(join_with(lines.reverse(), "\n"@))
    }
}

/// The doc comment of node `i` under a comment prefix.
pub open spec fn doc_comment_of(t: &SyntaxTree, prefix: Seq<char>, i: int) -> Option<Seq<char>> {
    doc_text(doc_lines(t, prefix, t.prev_of(i), i))
}

pub open spec fn is_named_fn_kind(k: Seq<char>) -> bool {
    k == "function_item"@ || k == "function_definition"@ || k == "function_declaration"@
        || k == "method_definition"@
}

pub open spec fn is_anon_fn_kind(k: Seq<char>) -> bool {
    k == "arrow_function"@ || k == "function_expression"@ || k == "function"@
}

/// The non-empty text of the `name` field of node `i`.
pub open spec fn name_field_text(t: &SyntaxTree, i: int) -> Option<Seq<char>> {
    match t.field_of(i, "name"@) {
        Some(c) => if t.text_of(c as int).len() > 0 { Some(t.text_of(c as int)) } else { None },
        None => None,
    }
}

/// The function name node `p` gives, if it is a function: its own name, or
/// for an anonymous function the name of the variable it is assigned to.
pub open spec fn function_name_at(t: &SyntaxTree, p: int) -> Option<Seq<char>> {
    if is_named_fn_kind(t.kind_of(p)) {
        name_field_text(t, p)
    } else if is_anon_fn_kind(t.kind_of(p)) {
        match t.parent_of(p) {
            Some(g) => if 0 <= g < t.size() && t.kind_of(g as int) == "variable_declarator"@ {
                name_field_text(t, g as int)
            } else {
                None
            },
            None => None,
        }
    } else {
        None
    }
}

/// The name of the nearest enclosing function from ancestor `cur` upwards,
/// or `<module>`.
pub open spec fn enclosing_name(t: &SyntaxTree, cur: Option<usize>, bound: int) -> Seq<char>
    decreases bound,
{
    match cur {
        None => "<module>"@,
        Some(p) => {
            if p >= bound || p >= t.size() {
                "<module>"@
            } else {
                match function_name_at(t, p as int) {
                    Some(n) => n,
                    None => enclosing_name(t, t.parent_of(p as int), p as int),
                }
            }
        },
    }
}

/// The text after a `definition.` prefix.
pub open spec fn definition_suffix(n: Seq<char>) -> Option<Seq<char>> {
    if has_prefix(n, "definition."@) {
        Some(n.skip(11))
    } else {
        None
    }
}

/// What a symbols-query match captured, the last capture of each name
/// winning: the name text, the definition node with its kind suffix, and
/// the modifiers text.
pub open spec fn symbol_captures(t: &SyntaxTree, caps: Seq<QueryCapture>) -> (
    Option<Seq<char>>,
    Option<(usize, Seq<char>)>,
    Option<Seq<char>>,
)
    decreases caps.len(),
{
    if caps.len() == 0 {
        (None, None, None)
    } else {
        let prev = symbol_captures(t, caps.drop_last());
        let c = caps.last();
        if c.name@ == "name"@ {
            (Some(t.text_of(c.node as int)), prev.1, prev.2)
        } else if definition_suffix(c.name@) is Some {
            (prev.0, Some((c.node, definition_suffix(c.name@)->0)), prev.2)
        } else if c.name@ == "modifiers"@ {
            (prev.0, prev.1, Some(t.text_of(c.node as int)))
        } else {
            prev
        }
    }
}

/// The span of node `i`, its offsets as 32-bit values.
pub open spec fn node_span(t: &SyntaxTree, i: int) -> Span {
    Span { start_byte: t.nodes@[i].start_byte as u32, end_byte: t.nodes@[i].end_byte as u32 }
}

/// The symbol a match gives, with id 0: none unless the match captured a
/// non-empty name and a definition whose suffix names a kind.
pub open spec fn match_symbol<C: LanguageConfig>(cfg: &C, t: &SyntaxTree, m: QueryMatch, path: Seq<char>) -> Option<
    SymbolV,
> {
    let (nm, def, mods) = symbol_captures(t, m.captures@);
    match (nm, def) {
        (Some(name), Some((d, sfx))) => {
            if name.len() == 0 {
                None
            } else {
                match cfg.kind_rule(sfx) {
                    Some(k) => Some(
                        cfg.adjust_rule(
                            SymbolV {
                                id: 0,
                                name: name,
                                qualified_name: name,
                                kind: k,
                                visibility: cfg.visibility_rule(mods, name),
                                file_path: path,
                                span: node_span(t, d as int),
                                signature: signature_opt(t.text_of(d as int)),
                                doc_comment: doc_comment_of(t, prefix_of(cfg.style()), d as int),
                                parent: None,
                                last_modified_by: None,
                                last_modified_intent: None,
                            },
                            t,
                            d as int,
                        ),
                    ),
                    None => None,
                }
            }
        },
        _ => None,
    }
}

/// The symbols of a list of matches, in match order.
pub open spec fn symbols_of<C: LanguageConfig>(cfg: &C, t: &SyntaxTree, ms: Seq<QueryMatch>, path: Seq<char>) -> Seq<
    SymbolV,
>
    decreases ms.len(),
{
    if ms.len() == 0 {
        Seq::empty()
    } else {
        let prev = symbols_of(cfg, t, ms.drop_last(), path);
        match match_symbol(cfg, t, ms.last(), path) {
            Some(s) => prev.push(s),
            None => prev,
        }
    }
}

/// A symbol with its id replaced.
pub open spec fn with_id(s: SymbolV, id: u128) -> SymbolV {
    SymbolV { id: id, ..s }
}

/// What a calls-query match captured: the callee text, the method-callee
/// text, the call node (last of each name) and the first node captured.
pub open spec fn call_captures(t: &SyntaxTree, caps: Seq<QueryCapture>) -> (
    Option<Seq<char>>,
    Option<Seq<char>>,
    Option<usize>,
    Option<usize>,
)
    decreases caps.len(),
{
    if caps.len() == 0 {
        (None, None, None, None)
    } else {
        let prev = call_captures(t, caps.drop_last());
        let c = caps.last();
        let first = if prev.3 is Some { prev.3 } else { Some(c.node) };
        if c.name@ == "callee"@ {
            (Some(t.text_of(c.node as int)), prev.1, prev.2, first)
        } else if c.name@ == "method_callee"@ {
            (prev.0, Some(t.text_of(c.node as int)), prev.2, first)
        } else if c.name@ == "call"@ {
            (prev.0, prev.1, Some(c.node), first)
        } else {
            (prev.0, prev.1, prev.2, first)
        }
    }
}

/// A text is present and not empty.
pub open spec fn nonempty(o: Option<Seq<char>>) -> bool {
    o matches Some(x) && x.len() > 0
}

/// The abstract form of a call edge: caller, callee, call site and kind.
pub type CallV = (Seq<char>, Seq<char>, Span, CallKind);

pub open spec fn call_view(e: RawCallEdge) -> CallV {
    (e.caller_name@, e.callee_name@, e.call_site, e.kind)
}

/// The call a match gives: a non-empty method callee makes a method call,
/// else a non-empty callee a direct call; the span is that of the `call`
/// node, else of the first node captured.
pub open spec fn match_call(t: &SyntaxTree, m: QueryMatch) -> Option<CallV> {
    let (ce, me, call, first) = call_captures(t, m.captures@);
    let named: Option<(Seq<char>, CallKind)> = if nonempty(me) {
        Some((me.unwrap(), CallKind::MethodCall))
    } else if nonempty(ce) {
        Some((ce.unwrap(), CallKind::DirectCall))
    } else {
        None
    };
    let site = if call is Some { call } else { first };
    match (named, site) {
        (Some((callee, kind)), Some(n)) => Some(
            (enclosing_name(t, t.parent_of(n as int), n as int), callee, node_span(t, n as int), kind),
        ),
        _ => None,
    }
}

pub open spec fn calls_of(t: &SyntaxTree, ms: Seq<QueryMatch>) -> Seq<CallV>
    decreases ms.len(),
{
    if ms.len() == 0 {
        Seq::empty()
    } else {
        let prev = calls_of(t, ms.drop_last());
        match match_call(t, ms.last()) {
            Some(c) => prev.push(c),
            None => prev,
        }
    }
}

/// What an imports-query match captured: the module text with surrounding
/// quotes removed, the imported name, the alias (last of each name), and
/// whether a `_relative` marker was captured.
pub open spec fn import_captures(t: &SyntaxTree, caps: Seq<QueryCapture>) -> (
    Option<Seq<char>>,
    Option<Seq<char>>,
    Option<Seq<char>>,
    bool,
)
    decreases caps.len(),
{
    if caps.len() == 0 {
        (None, None, None, false)
    } else {
        let prev = import_captures(t, caps.drop_last());
        let c = caps.last();
        if c.name@ == "module"@ {
            (Some(trim_right_by(trim_left_by(t.text_of(c.node as int), "\"'"@), "\"'"@)), prev.1, prev.2, prev.3)
        } else if c.name@ == "import_name"@ {
            (prev.0, Some(t.text_of(c.node as int)), prev.2, prev.3)
        } else if c.name@ == "alias"@ {
            (prev.0, prev.1, Some(t.text_of(c.node as int)), prev.3)
        } else if c.name@ == "_relative"@ {
            (prev.0, prev.1, prev.2, true)
        } else {
            prev
        }
    }
}

/// The abstract form of an import: module, imported name, alias, external.
pub type ImportV = (Seq<char>, Seq<char>, Option<Seq<char>>, bool);

pub open spec fn import_view(i: Import) -> ImportV {
    (i.module_name@, i.imported_name@, match i.alias {
        Some(a) => Some(a@),
        None => None,
    }, i.is_external)
}

/// The import a match gives: none without a non-empty module; the imported
/// name defaults to the module's last segment; a relative marker makes the
/// import internal, else the language decides.
pub open spec fn match_import<C: LanguageConfig>(cfg: &C, t: &SyntaxTree, m: QueryMatch) -> Option<ImportV> {
    let (md, nm, al, rel) = import_captures(t, m.captures@);
    match md {
        Some(module) => {
            if module.len() == 0 {
                None
            } else {
                let imported = if nonempty(nm) {
                    nm.unwrap()
                } else {
                    last_segment(module, "/.:"@)
                };
                let alias = if nonempty(al) {
                    al
                } else {
                    None
                };
                Some((module, imported, alias, if rel { false } else { cfg.external_rule(module) }))
            }
        },
        None => None,
    }
}

pub open spec fn imports_of<C: LanguageConfig>(cfg: &C, t: &SyntaxTree, ms: Seq<QueryMatch>) -> Seq<ImportV>
    decreases ms.len(),
{
    if ms.len() == 0 {
        Seq::empty()
    } else {
        let prev = imports_of(cfg, t, ms.drop_last());
        match match_import(cfg, t, ms.last()) {
            Some(c) => prev.push(c),
            None => prev,
        }
    }
}

/// A parser for one language, driven by the matches of its queries.
pub struct QueryDrivenParser<C> {
    pub config: C,
}

/// The first line of a node's text, trimmed; none when empty.
pub fn node_signature(tree: &SyntaxTree, node: usize) -> (r: Option<String>)
    requires
        tree.wf(),
        node < tree.nodes@.len(),
    ensures
        opt_str_of(r) == signature_opt(tree.text_of(node as int)),
{
    let text = tree.node_text(node);
    let sig = extract_signature(text.as_str());
    if sig.unicode_len() == 0 {
        None
    } else {
        Some(sig)
    }
}

/// The text an optional string holds.
pub open spec fn opt_str_of(o: Option<String>) -> Option<Seq<char>> {
    match o {
        Some(s) => Some(s@),
        None => None,
    }
}

/// Doc-comment lines directly above `node` under `prefix`, joined in source order.
pub fn collect_doc_comments(tree: &SyntaxTree, prefix: &str, node: usize) -> (r: Option<String>)
    requires
        tree.wf(),
        node < tree.nodes@.len(),
    ensures
        opt_str_of(r) == doc_comment_of(tree, prefix@, node as int),
{
    let ghost goal = doc_lines(tree, prefix@, tree.prev_of(node as int), node as int);
    let mut lines: Vec<String> = Vec::new();
    let mut sib = tree.nodes[node].prev_sibling;
    let ghost mut bound: int = node as int;
    assert(tree.node_wf(node as int));
    loop
        invariant
            tree.wf(),
            bound < tree.nodes@.len(),
            sib matches Some(p) ==> p < bound,
            texts_of(lines@) + doc_lines(tree, prefix@, sib, bound) == goal,
        ensures
            texts_of(lines@) == goal,
        decreases bound,
    {
        match sib {
            None => {
                assert(texts_of(lines@) + Seq::<Seq<char>>::empty() =~= texts_of(lines@));
                break;
            },
            Some(p) => {
                assert(tree.node_wf(p as int));
                let is_comment = tree.kind_is(p, "line_comment") || tree.kind_is(p, "comment");
                if !is_comment {
                    assert(texts_of(lines@) + Seq::<Seq<char>>::empty() =~= texts_of(lines@));
                    break;
                }
                let mut inline = false;
                match tree.nodes[p].prev_sibling {
                    Some(b) => {
                        if !tree.kind_is(b, "comment") && !tree.kind_is(b, "line_comment")
                            && tree.nodes[b].end_row == tree.nodes[p].start_row {
                            inline = true;
                        }
                    },
                    None => {},
                }
                if inline {
                    assert(texts_of(lines@) + Seq::<Seq<char>>::empty() =~= texts_of(lines@));
                    break;
                }
                let raw = tree.node_text(p);
                let tx = trim_text(raw.as_str());
                if starts_with(tx.as_str(), prefix) || starts_with(tx.as_str(), "/*") {
                    let ghost old_lines = texts_of(lines@);
                    lines.push(tx);
                    assert(texts_of(lines@) =~= old_lines.push(trimmed(tree.text_of(p as int))));
                    assert(old_lines + doc_lines(tree, prefix@, sib, bound) =~= texts_of(lines@) + doc_lines(
                        tree,
                        prefix@,
                        tree.prev_of(p as int),
                        p as int,
                    ));
                    sib = tree.nodes[p].prev_sibling;
                    proof {
                        bound = p as int;
                    }
                } else {
                    assert(texts_of(lines@) + Seq::<Seq<char>>::empty() =~= texts_of(lines@));
                    break;
                }
            },
        }
    }
    if lines.len() == 0 {
        None
    } else {
        let mut ordered: Vec<String> = Vec::new();
        let mut k: usize = lines.len();
        while k > 0
            invariant
                k <= lines@.len(),
                ordered@.len() == lines@.len() - k,
                texts_of(ordered@) == texts_of(lines@).subrange(k as int, lines@.len() as int).reverse(),
            decreases k,
        {
            k = k - 1;
            let line = String::from_str(lines[k].as_str());
            let ghost before = texts_of(ordered@);
            ordered.push(line);
            assert(texts_of(ordered@) =~= before.push(lines@[k as int]@));
            assert(texts_of(ordered@) =~= texts_of(lines@).subrange(k as int, lines@.len() as int).reverse());
        }
        assert(texts_of(lines@).subrange(0, lines@.len() as int) =~= texts_of(lines@));
        Some(join_texts(&ordered, "\n"))
    }
}

/// The name of the function enclosing `node`, or `<module>` at top level.
pub fn enclosing_function_name(tree: &SyntaxTree, node: usize) -> (r: String)
    requires
        tree.wf(),
        node < tree.nodes@.len(),
    ensures
        r@ == enclosing_name(tree, tree.parent_of(node as int), node as int),
{
    let ghost goal = enclosing_name(tree, tree.parent_of(node as int), node as int);
    assert(tree.node_wf(node as int));
    let mut cur = tree.nodes[node].parent;
    let ghost mut bound: int = node as int;
    while cur.is_some()
        invariant
            tree.wf(),
            bound < tree.nodes@.len(),
            cur matches Some(p) ==> p < bound,
            enclosing_name(tree, cur, bound) == goal,
            goal == enclosing_name(tree, tree.parent_of(node as int), node as int),
        decreases bound,
    {
        let p = cur.unwrap();
        assert(tree.node_wf(p as int));
        if tree.kind_is(p, "function_item") || tree.kind_is(p, "function_definition")
            || tree.kind_is(p, "function_declaration") || tree.kind_is(p, "method_definition") {
            if let Some(n) = tree.child_by_field(p, "name") {
                let name = tree.node_text(n);
                if name.unicode_len() > 0 {
                    assert(function_name_at(tree, p as int) == Some(name@));
                    assert(enclosing_name(tree, cur, bound) == name@);
                    return name;
                }
            }
        } else if tree.kind_is(p, "arrow_function") || tree.kind_is(p, "function_expression")
            || tree.kind_is(p, "function") {
            if let Some(g) = tree.nodes[p].parent {
                if tree.kind_is(g, "variable_declarator") {
                    assert(tree.node_wf(g as int));
                    if let Some(n) = tree.child_by_field(g, "name") {
                        let name = tree.node_text(n);
                        if name.unicode_len() > 0 {
                            assert(function_name_at(tree, p as int) == Some(name@));
                            assert(enclosing_name(tree, cur, bound) == name@);
                            return name;
                        }
                    }
                }
            }
        }
        cur = tree.nodes[p].parent;
        proof {
            bound = p as int;
        }
    }
    String::from_str("<module>")
}

impl<C: LanguageConfig> QueryDrivenParser<C> {
    pub fn new(config: C) -> (r: Self)
        ensures
            r.config == config,
    {
        QueryDrivenParser { config }
    }

    /// The file extensions the parser's language handles.
    pub fn extensions(&self) -> (r: Vec<&'static str>)
        ensures
            strs_of(r@) == self.config.extension_list(),
    {
        self.config.extensions()
    }
}


/// The text after a `definition.` prefix of a capture name.
fn strip_definition(n: &str) -> (r: Option<String>)
    ensures
        opt_str_of(r) == definition_suffix(n@),
{
    if starts_with(n, "definition.") {
        proof {
            reveal_strlit("definition.");
        }
        let chars = crate::text::to_chars(n);
        let rest = crate::text::string_of(&chars, 11, chars.len());
        assert(rest@ =~= n@.skip(11));
        Some(rest)
    } else {
        None
    }
}

/// A copy of an optional string.
fn copy_text(o: &Option<String>) -> (r: Option<String>)
    ensures
        opt_str_of(r) == opt_str_of(*o),
{
    match o {
        Some(s) => Some(String::from_str(s.as_str())),
        None => None,
    }
}

/// The string slice an optional string holds.
fn as_opt_str(o: &Option<String>) -> (r: Option<&str>)
    ensures
        opt_str(r) == opt_str_of(*o),
{
    match o {
        Some(s) => Some(s.as_str()),
        None => None,
    }
}

impl<C: LanguageConfig> QueryDrivenParser<C> {
    /// The symbol one match gives, if any; its id is fresh.
    fn symbol_of_match(&self, tree: &SyntaxTree, m: &QueryMatch, file_path: &str) -> (r: Option<Symbol>)
        requires
            tree.wf(),
            forall|k: int| 0 <= k < m.captures@.len() ==> #[trigger] m.captures@[k].node < tree.nodes@.len(),
        ensures
            match match_symbol(&self.config, tree, *m, file_path@) {
                Some(sv) => r matches Some(x) && x@ == with_id(sv, x.id),
                None => r is None,
            },
    {
        let caps = &m.captures;
        let mut name: Option<String> = None;
        let mut def: Option<(usize, String)> = None;
        let mut mods: Option<String> = None;
        let mut k: usize = 0;
        while k < caps.len()
            invariant
                tree.wf(),
                k <= caps@.len(),
                caps@ == m.captures@,
                forall|i: int| 0 <= i < caps@.len() ==> #[trigger] caps@[i].node < tree.nodes@.len(),
                opt_str_of(name) == symbol_captures(tree, caps@.take(k as int)).0,
                (match def {
                    Some((d, sfx)) => symbol_captures(tree, caps@.take(k as int)).1 == Some((d, sfx@)),
                    None => symbol_captures(tree, caps@.take(k as int)).1 is None,
                }),
                def matches Some((d, _)) ==> d < tree.nodes@.len(),
                opt_str_of(mods) == symbol_captures(tree, caps@.take(k as int)).2,
            decreases caps@.len() - k,
        {
            assert(caps@.take(k + 1).drop_last() =~= caps@.take(k as int));
            assert(caps@.take(k + 1).last() == caps@[k as int]);
            let c = &caps[k];
            assert(c.node < tree.nodes@.len());
            if str_eq(c.name.as_str(), "name") {
                name = Some(tree.node_text(c.node));
            } else {
                match strip_definition(c.name.as_str()) {
                    Some(sfx) => {
                        def = Some((c.node, sfx));
                    },
                    None => {
                        if str_eq(c.name.as_str(), "modifiers") {
                            mods = Some(tree.node_text(c.node));
                        }
                    },
                }
            }
            k = k + 1;
        }
        assert(caps@.take(caps@.len() as int) =~= caps@);
        let nm = match name {
            Some(n) => n,
            None => {
                return None;
            },
        };
        if nm.unicode_len() == 0 {
            return None;
        }
        let (d, sfx) = match def {
            Some(x) => x,
            None => {
                return None;
            },
        };
        let kind = match self.config.map_capture_to_kind(sfx.as_str()) {
            Some(kd) => kd,
            None => {
                return None;
            },
        };
        let visibility = self.config.resolve_visibility(as_opt_str(&mods), nm.as_str());
        let signature = node_signature(tree, d);
        let style = self.config.comment_style();
        let doc_comment = collect_doc_comments(tree, style.prefix(), d);
        let qualified = String::from_str(nm.as_str());
        let mut sym = Symbol {
            id: 0,
            name: nm,
            qualified_name: qualified,
            kind,
            visibility,
            file_path: String::from_str(file_path),
            span: Span { start_byte: tree.nodes[d].start_byte as u32, end_byte: tree.nodes[d].end_byte as u32 },
            signature,
            doc_comment,
            parent: None,
            last_modified_by: None,
            last_modified_intent: None,
        };
        self.config.adjust_symbol(&mut sym, tree, d);
        sym.id = fresh_id();
        Some(sym)
    }

    /// The symbols the matches of the symbols query give, in match order.
    /// Each has a fresh id.
    pub fn symbols_from_matches(&self, tree: &SyntaxTree, matches: &Vec<QueryMatch>, file_path: &str) -> (r: Vec<
        Symbol,
    >)
        requires
            tree.wf(),
            matches_in(tree, matches@),
        ensures
            r@.len() == symbols_of(&self.config, tree, matches@, file_path@).len(),
            forall|k: int| 0 <= k < r@.len() ==> #[trigger] r@[k]@ == with_id(
                symbols_of(&self.config, tree, matches@, file_path@)[k],
                r@[k].id,
            ),
    {
        let mut out: Vec<Symbol> = Vec::new();
        let mut j: usize = 0;
        while j < matches.len()
            invariant
                tree.wf(),
                matches_in(tree, matches@),
                j <= matches@.len(),
                out@.len() == symbols_of(&self.config, tree, matches@.take(j as int), file_path@).len(),
                forall|k: int| 0 <= k < out@.len() ==> #[trigger] out@[k]@ == with_id(
                    symbols_of(&self.config, tree, matches@.take(j as int), file_path@)[k],
                    out@[k].id,
                ),
            decreases matches@.len() - j,
        {
            assert(matches@.take(j + 1).drop_last() =~= matches@.take(j as int));
            assert(matches@.take(j + 1).last() == matches@[j as int]);
            assert forall|k: int| 0 <= k < matches@[j as int].captures@.len() implies
                #[trigger] matches@[j as int].captures@[k].node < tree.nodes@.len() by {
                assert(matches@[j as int].captures@[k].node < tree.nodes@.len());
            }
            match self.symbol_of_match(tree, &matches[j], file_path) {
                Some(sym) => {
                    out.push(sym);
                },
                None => {},
            }
            j = j + 1;
        }
        assert(matches@.take(matches@.len() as int) =~= matches@);
        out
    }

    /// The call edge one match gives, if any.
    fn call_of_match(&self, tree: &SyntaxTree, m: &QueryMatch) -> (r: Option<RawCallEdge>)
        requires
            tree.wf(),
            forall|k: int| 0 <= k < m.captures@.len() ==> #[trigger] m.captures@[k].node < tree.nodes@.len(),
        ensures
            match match_call(tree, *m) {
                Some(cv) => r matches Some(e) && call_view(e) == cv,
                None => r is None,
            },
    {
        let caps = &m.captures;
        let mut callee: Option<String> = None;
        let mut method: Option<String> = None;
        let mut call: Option<usize> = None;
        let mut first: Option<usize> = None;
        let mut k: usize = 0;
        while k < caps.len()
            invariant
                tree.wf(),
                k <= caps@.len(),
                caps@ == m.captures@,
                forall|i: int| 0 <= i < caps@.len() ==> #[trigger] caps@[i].node < tree.nodes@.len(),
                opt_str_of(callee) == call_captures(tree, caps@.take(k as int)).0,
                opt_str_of(method) == call_captures(tree, caps@.take(k as int)).1,
                call == call_captures(tree, caps@.take(k as int)).2,
                first == call_captures(tree, caps@.take(k as int)).3,
                call matches Some(n) ==> n < tree.nodes@.len(),
                first matches Some(n) ==> n < tree.nodes@.len(),
            decreases caps@.len() - k,
        {
            assert(caps@.take(k + 1).drop_last() =~= caps@.take(k as int));
            assert(caps@.take(k + 1).last() == caps@[k as int]);
            let c = &caps[k];
            assert(c.node < tree.nodes@.len());
            if first.is_none() {
                first = Some(c.node);
            }
            if str_eq(c.name.as_str(), "callee") {
                callee = Some(tree.node_text(c.node));
            } else if str_eq(c.name.as_str(), "method_callee") {
                method = Some(tree.node_text(c.node));
            } else if str_eq(c.name.as_str(), "call") {
                call = Some(c.node);
            }
            k = k + 1;
        }
        assert(caps@.take(caps@.len() as int) =~= caps@);
        let (name, kind) = match method {
            Some(x) if x.unicode_len() > 0 => (x, CallKind::MethodCall),
            _ => match callee {
                Some(x) if x.unicode_len() > 0 => (x, CallKind::DirectCall),
                _ => {
                    return None;
                },
            },
        };
        let site = match call {
            Some(n) => n,
            None => match first {
                Some(n) => n,
                None => {
                    return None;
                },
            },
        };
        let caller = enclosing_function_name(tree, site);
        Some(
            RawCallEdge {
                caller_name: caller,
                callee_name: name,
                call_site: Span {
                    start_byte: tree.nodes[site].start_byte as u32,
                    end_byte: tree.nodes[site].end_byte as u32,
                },
                kind,
            },
        )
    }

    /// The call edges the matches of the calls query give, in match order.
    pub fn calls_from_matches(&self, tree: &SyntaxTree, matches: &Vec<QueryMatch>) -> (r: Vec<RawCallEdge>)
        requires
            tree.wf(),
            matches_in(tree, matches@),
        ensures
            r@.map_values(|e: RawCallEdge| call_view(e)) == calls_of(tree, matches@),
    {
        let mut out: Vec<RawCallEdge> = Vec::new();
        let mut j: usize = 0;
        while j < matches.len()
            invariant
                tree.wf(),
                matches_in(tree, matches@),
                j <= matches@.len(),
                out@.map_values(|e: RawCallEdge| call_view(e)) == calls_of(tree, matches@.take(j as int)),
            decreases matches@.len() - j,
        {
            assert(matches@.take(j + 1).drop_last() =~= matches@.take(j as int));
            assert(matches@.take(j + 1).last() == matches@[j as int]);
            assert forall|k: int| 0 <= k < matches@[j as int].captures@.len() implies
                #[trigger] matches@[j as int].captures@[k].node < tree.nodes@.len() by {
                assert(matches@[j as int].captures@[k].node < tree.nodes@.len());
            }
            let ghost before = out@;
            match self.call_of_match(tree, &matches[j]) {
                Some(e) => {
                    out.push(e);
                    assert(out@.map_values(|e: RawCallEdge| call_view(e)) =~= before.map_values(
                        |e: RawCallEdge| call_view(e),
                    ).push(call_view(e)));
                },
                None => {},
            }
            j = j + 1;
        }
        assert(matches@.take(matches@.len() as int) =~= matches@);
        out
    }

    /// The import one match gives, if any.
    fn import_of_match(&self, tree: &SyntaxTree, m: &QueryMatch) -> (r: Option<Import>)
        requires
            tree.wf(),
            forall|k: int| 0 <= k < m.captures@.len() ==> #[trigger] m.captures@[k].node < tree.nodes@.len(),
        ensures
            match match_import(&self.config, tree, *m) {
                Some(iv) => r matches Some(i) && import_view(i) == iv,
                None => r is None,
            },
    {
        let caps = &m.captures;
        let mut module: Option<String> = None;
        let mut name: Option<String> = None;
        let mut alias: Option<String> = None;
        let mut relative = false;
        let mut k: usize = 0;
        while k < caps.len()
            invariant
                tree.wf(),
                k <= caps@.len(),
                caps@ == m.captures@,
                forall|i: int| 0 <= i < caps@.len() ==> #[trigger] caps@[i].node < tree.nodes@.len(),
                opt_str_of(module) == import_captures(tree, caps@.take(k as int)).0,
                opt_str_of(name) == import_captures(tree, caps@.take(k as int)).1,
                opt_str_of(alias) == import_captures(tree, caps@.take(k as int)).2,
                relative == import_captures(tree, caps@.take(k as int)).3,
            decreases caps@.len() - k,
        {
            assert(caps@.take(k + 1).drop_last() =~= caps@.take(k as int));
            assert(caps@.take(k + 1).last() == caps@[k as int]);
            let c = &caps[k];
            assert(c.node < tree.nodes@.len());
            if str_eq(c.name.as_str(), "module") {
                let text = tree.node_text(c.node);
                module = Some(trim_chars(text.as_str(), "\"'"));
            } else if str_eq(c.name.as_str(), "import_name") {
                name = Some(tree.node_text(c.node));
            } else if str_eq(c.name.as_str(), "alias") {
                alias = Some(tree.node_text(c.node));
            } else if str_eq(c.name.as_str(), "_relative") {
                relative = true;
            }
            k = k + 1;
        }
        assert(caps@.take(caps@.len() as int) =~= caps@);
        let module = match module {
            Some(md) if md.unicode_len() > 0 => md,
            _ => {
                return None;
            },
        };
        let imported = match name {
            Some(x) if x.unicode_len() > 0 => x,
            _ => last_segment_of(module.as_str(), "/.:"),
        };
        let alias = match alias {
            Some(x) if x.unicode_len() > 0 => Some(x),
            _ => None,
        };
        let is_external = if relative {
            false
        } else {
            self.config.is_external_import(module.as_str())
        };
        Some(Import { module_name: module, imported_name: imported, alias, is_external })
    }

    /// The imports the matches of the imports query give, in match order.
    pub fn imports_from_matches(&self, tree: &SyntaxTree, matches: &Vec<QueryMatch>) -> (r: Vec<Import>)
        requires
            tree.wf(),
            matches_in(tree, matches@),
        ensures
            r@.map_values(|i: Import| import_view(i)) == imports_of(&self.config, tree, matches@),
    {
        let mut out: Vec<Import> = Vec::new();
        let mut j: usize = 0;
        while j < matches.len()
            invariant
                tree.wf(),
                matches_in(tree, matches@),
                j <= matches@.len(),
                out@.map_values(|i: Import| import_view(i)) == imports_of(&self.config, tree, matches@.take(j as int)),
            decreases matches@.len() - j,
        {
            assert(matches@.take(j + 1).drop_last() =~= matches@.take(j as int));
            assert(matches@.take(j + 1).last() == matches@[j as int]);
            assert forall|k: int| 0 <= k < matches@[j as int].captures@.len() implies
                #[trigger] matches@[j as int].captures@[k].node < tree.nodes@.len() by {
                assert(matches@[j as int].captures@[k].node < tree.nodes@.len());
            }
            let ghost before = out@;
            match self.import_of_match(tree, &matches[j]) {
                Some(i) => {
                    out.push(i);
                    assert(out@.map_values(|i: Import| import_view(i)) =~= before.map_values(
                        |i: Import| import_view(i),
                    ).push(import_view(i)));
                },
                None => {},
            }
            j = j + 1;
        }
        assert(matches@.take(matches@.len() as int) =~= matches@);
        out
    }
}

/// A language's query texts; an empty calls or imports text is no query.
pub struct QueryTexts {
    pub symbols: String,
    pub calls: String,
    pub imports: String,
}

/// The captures a query text gives over a parse, where it is run: the
/// symbols query always, the others when their text is not empty.
pub open spec fn caps_for(g: Grammar, source: Seq<u8>, q: Seq<char>, always: bool) -> Option<Seq<Seq<(Seq<char>, int)>>> {
    if !always && q.len() == 0 {
        Some(Seq::empty())
    } else {
        query_captures(g, source, q)
    }
}

/// `fa` is what a query-driven parser with configuration `cfg` finds in
/// tree `t` of file `path` from the matches of its three queries.
pub open spec fn qd_analysis<C: LanguageConfig>(
    cfg: &C,
    t: SyntaxTree,
    sm: Seq<QueryMatch>,
    cm: Seq<QueryMatch>,
    im: Seq<QueryMatch>,
    path: Seq<char>,
    fa: FileAnalysis,
) -> bool {
    &&& fa.symbols@.len() == symbols_of(cfg, &t, sm, path).len()
    &&& forall|k: int| 0 <= k < fa.symbols@.len() ==> #[trigger] fa.symbols@[k]@ == with_id(
        symbols_of(cfg, &t, sm, path)[k],
        fa.symbols@[k].id,
    )
    &&& fa.calls@.map_values(|e: RawCallEdge| call_view(e)) == calls_of(&t, cm)
    &&& fa.types@.len() == 0
    &&& fa.imports@.map_values(|i: Import| import_view(i)) == imports_of(cfg, &t, im)
}

/// `fa` is what a query-driven parser with configuration `cfg` finds in
/// file `path` whose bytes `source` parse to nodes `rows`, its queries
/// capturing `sc`, `cc` and `ic`.
pub open spec fn qd_file_analysis<C: LanguageConfig>(
    cfg: &C,
    source: Seq<u8>,
    rows: Seq<RowV>,
    sc: Seq<Seq<(Seq<char>, int)>>,
    cc: Seq<Seq<(Seq<char>, int)>>,
    ic: Seq<Seq<(Seq<char>, int)>>,
    path: Seq<char>,
    fa: FileAnalysis,
) -> bool {
    exists|t: SyntaxTree, sm: Seq<QueryMatch>, cm: Seq<QueryMatch>, im: Seq<QueryMatch>|
        tree_of_rows(t, source, rows) && matches_view(sm) == sc && matches_view(cm) == cc && matches_view(im) == ic
            && #[trigger] qd_analysis(cfg, t, sm, cm, im, path, fa)
}

/// What a query-driven parser with configuration `cfg` gives for file
/// `path` with bytes `source`: nothing for an empty file; a `ParseError`
/// exactly where tree-sitter cannot parse it or a query that is run does
/// not compile; otherwise what its queries' matches give.
pub open spec fn qd_parse_result<C: LanguageConfig>(
    cfg: &C,
    source: Seq<u8>,
    path: Seq<char>,
    queries: &QueryTexts,
    r: Result<FileAnalysis, Error>,
) -> bool {
    let g = cfg.grammar_rule();
    &&& source.len() == 0 ==> (r matches Ok(fa) && empty_analysis(fa))
    &&& source.len() > 0 ==> (r is Ok <==> {
        &&& parsed_rows(g, source) is Some
        &&& rows_ok(parsed_rows(g, source)->0, source.len())
        &&& caps_for(g, source, queries.symbols@, true) is Some
        &&& caps_for(g, source, queries.calls@, false) is Some
        &&& caps_for(g, source, queries.imports@, false) is Some
    })
    &&& r is Err ==> (r matches Err(Error::ParseError(_)))
    &&& source.len() > 0 ==> (r matches Ok(fa) ==> qd_file_analysis(
        cfg,
        source,
        parsed_rows(g, source)->0,
        caps_for(g, source, queries.symbols@, true)->0,
        caps_for(g, source, queries.calls@, false)->0,
        caps_for(g, source, queries.imports@, false)->0,
        path,
        fa,
    ))
}

/// The captures of the query text `q` run where it is run, or none when
/// it does not compile.
fn run_text(p: &ParsedSource, q: &str, always: bool) -> (r: Option<Vec<QueryMatch>>)
    requires
        p.inv(),
    ensures
        match caps_for(p.grammar_v(), p.syntax_v().source@, q@, always) {
            None => r is None,
            Some(qs) => r matches Some(ms) && matches_view(ms@) == qs && matches_in(&p.syntax_v(), ms@),
        },
{
    if !always && q.is_empty() {
        let ms: Vec<QueryMatch> = Vec::new();
        proof {
            assert(matches_view(ms@) =~= Seq::<Seq<(Seq<char>, int)>>::empty());
        }
        Some(ms)
    } else {
        p.run_query(q)
    }
}

impl<C: LanguageConfig> QueryDrivenParser<C> {
    /// Parses a file's bytes with the language's grammar and runs its
    /// queries: the symbols query always, the calls and imports queries
    /// when their text is not empty. An empty file has nothing in it; a
    /// file tree-sitter cannot parse, or a query that does not compile, is
    /// a `ParseError`. Otherwise the symbols, calls and imports are those
    /// the queries' matches give.
    pub fn parse_file(&self, source: &[u8], file_path: &str, queries: &QueryTexts) -> (r: Result<FileAnalysis, Error>)
        ensures
            qd_parse_result(&self.config, source@, file_path@, queries, r),
    {
        if source.len() == 0 {
            return Ok(FileAnalysis { symbols: Vec::new(), calls: Vec::new(), types: Vec::new(), imports: Vec::new() });
        }
        let g = self.config.parse_grammar();
        let p = match ParsedSource::parse(g, source) {
            Some(p) => p,
            None => return Err(Error::ParseError(String::from_str("tree-sitter parse returned None"))),
        };
        let sm = match run_text(&p, queries.symbols.as_str(), true) {
            Some(ms) => ms,
            None => return Err(Error::ParseError(String::from_str("Failed to compile symbols query"))),
        };
        let cm = match run_text(&p, queries.calls.as_str(), false) {
            Some(ms) => ms,
            None => return Err(Error::ParseError(String::from_str("Failed to compile calls query"))),
        };
        let im = match run_text(&p, queries.imports.as_str(), false) {
            Some(ms) => ms,
            None => return Err(Error::ParseError(String::from_str("Failed to compile imports query"))),
        };
        let t = p.syntax();
        let symbols = self.symbols_from_matches(t, &sm, file_path);
        let calls = self.calls_from_matches(t, &cm);
        let imports = self.imports_from_matches(t, &im);
        let fa = FileAnalysis { symbols, calls, types: Vec::new(), imports };
        proof {
            let rows = parsed_rows(g, source@)->0;
            assert(qd_analysis(&self.config, *t, sm@, cm@, im@, file_path@, fa));
            assert(qd_file_analysis(
                &self.config,
                source@,
                rows,
                caps_for(g, source@, queries.symbols@, true)->0,
                caps_for(g, source@, queries.calls@, false)->0,
                caps_for(g, source@, queries.imports@, false)->0,
                file_path@,
                fa,
            ));
        }
        Ok(fa)
    }
}

} // verus!
