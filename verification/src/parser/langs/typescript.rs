//! TypeScript/JavaScript language configuration for the query-driven parser,
//! and the TypeScript parser that removes nested symbols and numbers
//! duplicate qualified names.

use vstd::prelude::*;
use crate::parser::parse::{Grammar, parsed_rows, rows_ok};
use crate::parser::python_parser::empty_analysis;
use crate::domain::{Error, FileAnalysis};
use crate::domain::{Import, RawCallEdge, Span, Symbol, SymbolKind, SymbolV, Visibility};
use crate::parser::engine::{QueryTexts, caps_for, qd_file_analysis, 
    CallV, ImportV, QueryDrivenParser, QueryMatch, call_view, calls_of, doc_text, import_view, imports_of,
    matches_in, node_span, opt_str_of, symbols_of, with_id,
};
use crate::parser::lang_config::{CommentStyle, LanguageConfig, default_kind_mapping, default_kind_of, opt_str,
    strs_of};
use crate::parser::syntax::SyntaxTree;
use crate::text::{decimal, digit_char, decimal_text, has_prefix, join_texts, push_text, starts_with, str_eq, texts_of,
    trim_chars, trim_left_by, trim_right_by, trim_text, trimmed};

verus! {

/// TypeScript language configuration; the TSX grammar covers `.ts`, `.tsx`,
/// `.js` and `.jsx` files.
pub struct TypeScriptConfig;

/// The `//` and `/*` comment lines found walking back from sibling `s`,
/// nearest first, up to the first sibling that is no such comment.
pub open spec fn ts_comment_lines(t: &SyntaxTree, s: Option<usize>, bound: int) -> Seq<Seq<char>>
    decreases bound,
{
    match s {
        None => Seq::empty(),
        Some(p) => {
            if p >= bound || p >= t.size() || t.kind_of(p as int) != "comment"@ {
                Seq::empty()
            } else {
                let tx = trimmed(t.text_of(p as int));
                if has_prefix(tx, "//"@) || has_prefix(tx, "/*"@) {
                    seq![tx] + ts_comment_lines(t, t.prev_of(p as int), p as int)
                } else {
                    Seq::empty()
                }
            }
        },
    }
}

/// The first child among `cs` that is a string or template string.
pub open spec fn first_string_arg(t: &SyntaxTree, cs: Seq<usize>) -> Option<usize>
    decreases cs.len(),
{
    if cs.len() == 0 {
        None
    } else if t.kind_of(cs[0] as int) == "string"@ || t.kind_of(cs[0] as int) == "template_string"@ {
        Some(cs[0])
    } else {
        first_string_arg(t, cs.drop_first())
    }
}

/// The name a call expression gives: the called function's text, followed
/// by `:` and the first string argument without its quotes, if any.
pub open spec fn ts_call_name(t: &SyntaxTree, node: int) -> Option<Seq<char>> {
    match t.field_of(node, "function"@) {
        Some(f) => {
            let ft = t.text_of(f as int);
            Some(
                match t.field_of(node, "arguments"@) {
                    Some(a) => match first_string_arg(t, t.children_of(a as int)) {
                        Some(x) => ft + ":"@ + trim_right_by(trim_left_by(t.text_of(x as int), "\"'`"@), "\"'`"@),
                        None => ft,
                    },
                    None => ft,
                },
            )
        },
        None => None,
    }
}

/// A symbol captured inside an expression statement takes the statement's
/// span and, when it has none, the comments above the statement.
pub open spec fn with_statement(t: &SyntaxTree, sym: SymbolV, node: int) -> SymbolV {
    match t.parent_of(node) {
        Some(p) => if t.kind_of(p as int) == "expression_statement"@ {
            SymbolV {
                span: node_span(t, p as int),
                doc_comment: if sym.doc_comment is None {
                    doc_text(ts_comment_lines(t, t.prev_of(p as int), p as int))
                } else {
                    sym.doc_comment
                },
                ..sym
            }
        } else {
            sym
        },
        None => sym,
    }
}

pub open spec fn ts_adjust(t: &SyntaxTree, sym: SymbolV, node: int) -> SymbolV {
    if sym.kind == SymbolKind::Const && t.kind_of(node) == "call_expression"@ {
        let s = with_statement(t, sym, node);
        match ts_call_name(t, node) {
            Some(n) => SymbolV { name: n, qualified_name: n, ..s },
            None => s,
        }
    } else if sym.kind == SymbolKind::Const && t.kind_of(node) == "assignment_expression"@ {
        with_statement(t, sym, node)
    } else if t.kind_of(node) == "export_statement"@ {
        let n = "export default "@ + sym.name;
        SymbolV { name: n, qualified_name: n, ..sym }
    } else {
        sym
    }
}

impl TypeScriptConfig {
    /// The `//` and `/** */` comment lines directly above `node`, joined in
    /// source order.
    pub fn collect_preceding_comments(tree: &SyntaxTree, node: usize) -> (r: Option<String>)
        requires
            tree.wf(),
            node < tree.nodes@.len(),
        ensures
            opt_str_of(r) == doc_text(ts_comment_lines(tree, tree.prev_of(node as int), node as int)),
    {
        let ghost goal = ts_comment_lines(tree, tree.prev_of(node as int), node as int);
        let mut lines: Vec<String> = Vec::new();
        let mut sib = tree.nodes[node].prev_sibling;
        let ghost mut bound: int = node as int;
        assert(tree.node_wf(node as int));
        loop
            invariant
                tree.wf(),
                bound < tree.nodes@.len(),
                sib matches Some(p) ==> p < bound,
                texts_of(lines@) + ts_comment_lines(tree, sib, bound) == goal,
            ensures
                texts_of(lines@) == goal,
            decreases bound,
        {
            match sib {
                None => {
                    assert(texts_of(lines@) + Seq::<Seq<char>>::empty() =~= texts_of(lines@));
                    break;
                },
                Some(p) => {
                    assert(tree.node_wf(p as int));
                    if !tree.kind_is(p, "comment") {
                        assert(texts_of(lines@) + Seq::<Seq<char>>::empty() =~= texts_of(lines@));
                        break;
                    }
                    let raw = tree.node_text(p);
                    let tx = trim_text(raw.as_str());
                    if starts_with(tx.as_str(), "//") || starts_with(tx.as_str(), "/*") {
                        let ghost old_lines = texts_of(lines@);
                        lines.push(tx);
                        assert(texts_of(lines@) =~= old_lines.push(trimmed(tree.text_of(p as int))));
                        assert(old_lines + ts_comment_lines(tree, sib, bound) =~= texts_of(lines@)
                            + ts_comment_lines(tree, tree.prev_of(p as int), p as int));
                        sib = tree.nodes[p].prev_sibling;
                        proof {
                            bound = p as int;
                        }
                    } else {
                        assert(texts_of(lines@) + Seq::<Seq<char>>::empty() =~= texts_of(lines@));
                        break;
                    }
                },
            }
        }
        if lines.len() == 0 {
            None
        } else {
            let mut ordered: Vec<String> = Vec::new();
            let mut k: usize = lines.len();
            while k > 0
                invariant
                    k <= lines@.len(),
                    ordered@.len() == lines@.len() - k,
                    texts_of(ordered@) == texts_of(lines@).subrange(k as int, lines@.len() as int).reverse(),
                decreases k,
            {
                k = k - 1;
                let line = String::from_str(lines[k].as_str());
                let ghost before = texts_of(ordered@);
                ordered.push(line);
                assert(texts_of(ordered@) =~= before.push(lines@[k as int]@));
                assert(texts_of(ordered@) =~= texts_of(lines@).subrange(k as int, lines@.len() as int).reverse());
            }
            assert(texts_of(lines@).subrange(0, lines@.len() as int) =~= texts_of(lines@));
            Some(join_texts(&ordered, "\n"))
        }
    }

    /// The first string or template-string child of node `a`.
    fn first_string_child(tree: &SyntaxTree, a: usize) -> (r: Option<usize>)
        requires
            tree.wf(),
            a < tree.nodes@.len(),
        ensures
            r == first_string_arg(tree, tree.children_of(a as int)),
            r matches Some(x) ==> x < tree.nodes@.len(),
    {
        assert(tree.node_wf(a as int));
        let cs = &tree.nodes[a].children;
        let mut k: usize = 0;
        assert(cs@.skip(0) =~= cs@);
        while k < cs.len()
            invariant
                tree.wf(),
                a < tree.nodes@.len(),
                k <= cs@.len(),
                cs@ == tree.children_of(a as int),
                first_string_arg(tree, cs@) == first_string_arg(tree, cs@.skip(k as int)),
            decreases cs@.len() - k,
        {
            assert(tree.node_wf(a as int));
            assert(cs@.skip(k as int)[0] == cs@[k as int]);
            assert(cs@.skip(k as int).drop_first() =~= cs@.skip(k as int + 1));
            let c = cs[k];
            if tree.kind_is(c, "string") || tree.kind_is(c, "template_string") {
                return Some(c);
            }
            k = k + 1;
        }
        None
    }

    /// The name of a call expression.
    fn call_name(tree: &SyntaxTree, node: usize) -> (r: Option<String>)
        requires
            tree.wf(),
            node < tree.nodes@.len(),
        ensures
            opt_str_of(r) == ts_call_name(tree, node as int),
    {
        let f = match tree.child_by_field(node, "function") {
            Some(f) => f,
            None => {
                return None;
            },
        };
        let ft = tree.node_text(f);
        match tree.child_by_field(node, "arguments") {
            Some(a) => match TypeScriptConfig::first_string_child(tree, a) {
                Some(x) => {
                    let raw = tree.node_text(x);
                    let path = trim_chars(raw.as_str(), "\"'`");
                    let mut name = ft;
                    push_text(&mut name, ":");
                    push_text(&mut name, path.as_str());
                    Some(name)
                },
                None => Some(ft),
            },
            None => Some(ft),
        }
    }

    /// Takes the span, and when missing the comments, of an enclosing
    /// expression statement.
    fn take_statement(sym: &mut Symbol, tree: &SyntaxTree, node: usize)
        requires
            tree.wf(),
            node < tree.nodes@.len(),
        ensures
            final(sym)@ == with_statement(tree, old(sym)@, node as int),
    {
        assert(tree.node_wf(node as int));
        match tree.nodes[node].parent {
            Some(p) => {
                if tree.kind_is(p, "expression_statement") {
                    assert(tree.node_wf(p as int));
                    sym.span = Span {
                        start_byte: tree.nodes[p].start_byte as u32,
                        end_byte: tree.nodes[p].end_byte as u32,
                    };
                    if sym.doc_comment.is_none() {
                        sym.doc_comment = TypeScriptConfig::collect_preceding_comments(tree, p);
                    }
                }
            },
            None => {},
        }
    }
}

impl LanguageConfig for TypeScriptConfig {
    open spec fn grammar_rule(&self) -> Grammar {
        Grammar::TypeScript
    }

    fn parse_grammar(&self) -> (r: Grammar) {
        Grammar::TypeScript
    }

    open spec fn extension_list(&self) -> Seq<Seq<char>> {
        seq!["ts"@, "tsx"@, "js"@, "jsx"@]
    }

    open spec fn style(&self) -> CommentStyle {
        CommentStyle::SlashSlash
    }

    open spec fn visibility_rule(&self, modifiers: Option<Seq<char>>, name: Seq<char>) -> Visibility {
        if modifiers is Some {
            Visibility::Public
        } else {
            Visibility::Private
        }
    }

    open spec fn kind_rule(&self, suffix: Seq<char>) -> Option<SymbolKind> {
        default_kind_of(suffix)
    }

    open spec fn adjust_rule(&self, sym: SymbolV, tree: &SyntaxTree, node: int) -> SymbolV {
        ts_adjust(tree, sym, node)
    }

    open spec fn external_rule(&self, import_path: Seq<char>) -> bool {
        !has_prefix(import_path, "."@) && !has_prefix(import_path, "/"@)
    }

    fn extensions(&self) -> (r: Vec<&'static str>) {
        let mut r: Vec<&'static str> = Vec::new();
        r.push("ts");
        r.push("tsx");
        r.push("js");
        r.push("jsx");
        assert(strs_of(r@) =~= self.extension_list());
        r
    }

    fn comment_style(&self) -> (r: CommentStyle) {
        CommentStyle::SlashSlash
    }

    fn resolve_visibility(&self, modifiers: Option<&str>, name: &str) -> (r: Visibility) {
        match modifiers {
            Some(_) => Visibility::Public,
            None => Visibility::Private,
        }
    }

    fn map_capture_to_kind(&self, capture_suffix: &str) -> (r: Option<SymbolKind>) {
        default_kind_mapping(capture_suffix)
    }

    fn adjust_symbol(&self, sym: &mut Symbol, tree: &SyntaxTree, node: usize) {
        let is_const = match sym.kind {
            SymbolKind::Const => true,
            _ => false,
        };
        if is_const && tree.kind_is(node, "call_expression") {
            TypeScriptConfig::take_statement(sym, tree, node);
            match TypeScriptConfig::call_name(tree, node) {
                Some(n) => {
                    sym.qualified_name = String::from_str(n.as_str());
                    sym.name = n;
                },
                None => {},
            }
        } else if is_const && tree.kind_is(node, "assignment_expression") {
            TypeScriptConfig::take_statement(sym, tree, node);
        } else if tree.kind_is(node, "export_statement") {
            let mut n = String::from_str("export default ");
            proof {
                reveal_strlit("export default ");
            }
            push_text(&mut n, sym.name.as_str());
            sym.qualified_name = String::from_str(n.as_str());
            sym.name = n;
        }
    }

    fn is_external_import(&self, import_path: &str) -> (r: bool) {
        !starts_with(import_path, ".") && !starts_with(import_path, "/")
    }
}

/// Some span of `spans` strictly encloses `s`.
pub open spec fn nested_in(spans: Seq<Span>, s: Span) -> bool {
    exists|k: int| 0 <= k < spans.len() && #[trigger] spans[k].start_byte < s.start_byte && s.end_byte < spans[k].end_byte
}

/// The symbols whose span no span of `spans` strictly encloses, in order.
pub open spec fn outer_symbols(syms: Seq<SymbolV>, spans: Seq<Span>) -> Seq<SymbolV>
    decreases syms.len(),
{
    if syms.len() == 0 {
        Seq::empty()
    } else {
        let prev = outer_symbols(syms.drop_last(), spans);
        if nested_in(spans, syms.last().span) {
            prev
        } else {
            prev.push(syms.last())
        }
    }
}

/// How many symbols of `s` have qualified name `q`.
pub open spec fn count_named(s: Seq<SymbolV>, q: Seq<char>) -> nat
    decreases s.len(),
{
    if s.len() == 0 {
        0
    } else {
        count_named(s.drop_last(), q) + if s.last().qualified_name == q {
            1nat
        } else {
            0nat
        }
    }
}

/// Each symbol whose qualified name occurred before gets `#N` appended to
/// it, N counting the occurrences so far; its name becomes that too.
pub open spec fn numbered(s: Seq<SymbolV>) -> Seq<SymbolV>
    decreases s.len(),
{
    if s.len() == 0 {
        Seq::empty()
    } else {
        let x = s.last();
        let c = count_named(s, x.qualified_name);
        numbered(s.drop_last()).push(
            if c > 1 {
                let n = x.qualified_name + "#"@ + decimal(c);
                SymbolV { name: n, qualified_name: n, ..x }
            } else {
                x
            },
        )
    }
}

pub open spec fn views_of(v: Seq<Symbol>) -> Seq<SymbolV> {
    v.map_values(|s: Symbol| s@)
}

/// The symbols kept after removing nested ones, numbered.
pub open spec fn dedup_of(syms: Seq<SymbolV>) -> Seq<SymbolV> {
    numbered(outer_symbols(syms, syms.map_values(|s: SymbolV| s.span)))
}

/// Whether text `q` holds no `#`.
pub open spec fn hash_free(q: Seq<char>) -> bool {
    forall|k: int| 0 <= k < q.len() ==> q[k] != '#'
}

/// The entry that numbering gives symbol `x`, the `c`-th of its name.
pub open spec fn numbered_entry(x: SymbolV, c: nat) -> SymbolV {
    if c > 1 {
        let n = x.qualified_name + "#"@ + decimal(c);
        SymbolV { name: n, qualified_name: n, ..x }
    } else {
        x
    }
}

proof fn lemma_decimal_shape(n: nat)
    ensures
        decimal(n).len() >= 1,
        n >= 10 ==> decimal(n).len() >= 2,
        hash_free(decimal(n)),
    decreases n,
{
    if n >= 10 {
        lemma_decimal_shape(n / 10);
    }
}

proof fn lemma_decimal_injective(a: nat, b: nat)
    requires
        decimal(a) == decimal(b),
    ensures
        a == b,
    decreases a,
{
    lemma_decimal_shape(a);
    lemma_decimal_shape(b);
    if a >= 10 && b >= 10 {
        assert(decimal(a).drop_last() =~= decimal(a / 10));
        assert(decimal(b).drop_last() =~= decimal(b / 10));
        lemma_decimal_injective(a / 10, b / 10);
        assert(decimal(a).last() == digit_char(a % 10));
        assert(decimal(b).last() == digit_char(b % 10));
        assert(a % 10 == b % 10);
        assert(a == 10 * (a / 10) + a % 10);
        assert(b == 10 * (b / 10) + b % 10);
    } else if a < 10 && b < 10 {
        assert(decimal(a)[0] == digit_char(a));
        assert(decimal(b)[0] == digit_char(b));
    }
}

/// Names `q1#d1` and `q2#d2` with no `#` in their parts are equal only when
/// the parts are.
proof fn lemma_split_at_hash(q1: Seq<char>, d1: Seq<char>, q2: Seq<char>, d2: Seq<char>)
    requires
        hash_free(q1),
        hash_free(q2),
        q1 + "#"@ + d1 == q2 + "#"@ + d2,
    ensures
        q1 == q2,
        d1 == d2,
{
    reveal_strlit("#");
    let n1 = q1 + "#"@ + d1;
    let n2 = q2 + "#"@ + d2;
    if q1.len() < q2.len() {
        assert(n1[q1.len() as int] == '#');
        assert(n2[q1.len() as int] == q2[q1.len() as int]);
    } else if q2.len() < q1.len() {
        assert(n2[q2.len() as int] == '#');
        assert(n1[q2.len() as int] == q1[q2.len() as int]);
    }
    assert(q1 =~= n1.subrange(0, q1.len() as int));
    assert(q2 =~= n2.subrange(0, q2.len() as int));
    assert(d1 =~= n1.skip(q1.len() as int + 1));
    assert(d2 =~= n2.skip(q2.len() as int + 1));
}

proof fn lemma_count_step(s: Seq<SymbolV>, q: Seq<char>, k: int)
    requires
        0 <= k < s.len(),
    ensures
        count_named(s.take(k + 1), q) == count_named(s.take(k), q) + if s[k].qualified_name == q { 1nat } else { 0nat },
{
    assert(s.take(k + 1).drop_last() =~= s.take(k));
}

proof fn lemma_count_mono(s: Seq<SymbolV>, q: Seq<char>, a: int, b: int)
    requires
        0 <= a <= b <= s.len(),
    ensures
        count_named(s.take(a), q) <= count_named(s.take(b), q),
    decreases b - a,
{
    if a < b {
        lemma_count_step(s, q, b - 1);
        lemma_count_mono(s, q, a, b - 1);
    }
}

proof fn lemma_numbered_len(s: Seq<SymbolV>)
    ensures
        numbered(s).len() == s.len(),
    decreases s.len(),
{
    if s.len() > 0 {
        lemma_numbered_len(s.drop_last());
    }
}

proof fn lemma_numbered_at(s: Seq<SymbolV>, i: int)
    requires
        0 <= i < s.len(),
    ensures
        numbered(s).len() == s.len(),
        numbered(s)[i] == numbered_entry(s[i], count_named(s.take(i + 1), s[i].qualified_name)),
    decreases s.len(),
{
    let last = s.len() - 1;
    lemma_numbered_len(s);
    lemma_numbered_len(s.drop_last());
    if i < last {
        lemma_numbered_at(s.drop_last(), i);
        assert(s.drop_last().take(i + 1) =~= s.take(i + 1));
        assert(numbered(s)[i] == numbered(s.drop_last())[i]);
    } else {
        assert(s.take(i + 1) =~= s);
        assert(s[i] == s.last());
    }
}

proof fn lemma_outer_hash_free(syms: Seq<SymbolV>, spans: Seq<Span>)
    requires
        forall|i: int| 0 <= i < syms.len() ==> hash_free(#[trigger] syms[i].qualified_name),
    ensures
        forall|i: int| 0 <= i < outer_symbols(syms, spans).len() ==> hash_free(#[trigger] outer_symbols(syms, spans)[i].qualified_name),
    decreases syms.len(),
{
    if syms.len() > 0 {
        let init = syms.drop_last();
        assert forall|i: int| 0 <= i < init.len() implies hash_free(#[trigger] init[i].qualified_name) by {
            assert(init[i] == syms[i]);
        }
        lemma_outer_hash_free(init, spans);
        assert(hash_free(syms[syms.len() - 1].qualified_name));
    }
}

/// Numbering gives every symbol its own qualified name, provided no name
/// already holds a `#`.
proof fn lemma_numbered_unique(s: Seq<SymbolV>)
    requires
        forall|i: int| 0 <= i < s.len() ==> hash_free(#[trigger] s[i].qualified_name),
    ensures
        numbered(s).len() == s.len(),
        forall|i: int, j: int| 0 <= i < j < s.len() ==> #[trigger] numbered(s)[i].qualified_name != #[trigger] numbered(s)[j].qualified_name,
{
    reveal_strlit("#");
    if s.len() > 0 {
        lemma_numbered_at(s, 0);
    }
    assert forall|i: int, j: int| 0 <= i < j < s.len() implies #[trigger] numbered(s)[i].qualified_name != #[trigger] numbered(s)[j].qualified_name by {
        lemma_numbered_at(s, i);
        lemma_numbered_at(s, j);
        let qi = s[i].qualified_name;
        let qj = s[j].qualified_name;
        let ci = count_named(s.take(i + 1), qi);
        let cj = count_named(s.take(j + 1), qj);
        lemma_count_step(s, qi, i);
        lemma_count_step(s, qj, j);
        lemma_decimal_shape(ci);
        lemma_decimal_shape(cj);
        let ni = numbered(s)[i].qualified_name;
        let nj = numbered(s)[j].qualified_name;
        if qi == qj {
            lemma_count_mono(s, qi, i + 1, j);
            assert(cj >= ci + 1);
            if ci > 1 {
                if ni == nj {
                    lemma_split_at_hash(qi, decimal(ci), qj, decimal(cj));
                    lemma_decimal_injective(ci, cj);
                }
            } else {
                assert(ni.len() < nj.len());
            }
        } else {
            if ci > 1 && cj > 1 {
                if ni == nj {
                    lemma_split_at_hash(qi, decimal(ci), qj, decimal(cj));
                }
            } else if ci > 1 {
                if ni == nj {
                    assert(ni[qi.len() as int] == '#');
                }
            } else if cj > 1 {
                if ni == nj {
                    assert(nj[qj.len() as int] == '#');
                }
            }
        }
    }
}

/// After nested symbols are dropped and duplicates numbered, every symbol
/// has its own qualified name, provided no name already holds a `#`.
pub proof fn lemma_dedup_names_unique(syms: Seq<SymbolV>)
    requires
        forall|i: int| 0 <= i < syms.len() ==> hash_free(#[trigger] syms[i].qualified_name),
    ensures
        forall|i: int, j: int| 0 <= i < j < dedup_of(syms).len() ==>
            #[trigger] dedup_of(syms)[i].qualified_name != #[trigger] dedup_of(syms)[j].qualified_name,
{
    let outer = outer_symbols(syms, syms.map_values(|s: SymbolV| s.span));
    lemma_outer_hash_free(syms, syms.map_values(|s: SymbolV| s.span));
    lemma_numbered_unique(outer);
}

/// TypeScript parser: the query-driven parser, then removal of nested
/// symbols and numbering of duplicate qualified names, so that every symbol
/// has a unique key for the AST merge.
pub struct TypeScriptParser {
    pub inner: QueryDrivenParser<TypeScriptConfig>,
}

impl TypeScriptParser {
    pub fn new() -> (r: Self) {
        TypeScriptParser { inner: QueryDrivenParser::new(TypeScriptConfig) }
    }

    /// The file extensions handled.
    pub fn extensions(&self) -> (r: Vec<&'static str>)
        ensures
            strs_of(r@) == seq!["ts"@, "tsx"@, "js"@, "jsx"@],
    {
        self.inner.extensions()
    }

    /// Removes every symbol whose span another symbol's span strictly
    /// encloses, then appends `#N` to the N-th occurrence (N > 1) of a
    /// qualified name, renaming the symbol the same way.
    pub fn dedup_symbols(symbols: Vec<Symbol>) -> (r: Vec<Symbol>)
        ensures
            views_of(r@) == dedup_of(views_of(symbols@)),
    {
        let ghost sv = views_of(symbols@);
        let ghost spans = sv.map_values(|s: SymbolV| s.span);
        let mut kept: Vec<Symbol> = Vec::new();
        let mut i: usize = 0;
        while i < symbols.len()
            invariant
                i <= symbols@.len(),
                sv == views_of(symbols@),
                spans == sv.map_values(|s: SymbolV| s.span),
                views_of(kept@) == outer_symbols(sv.take(i as int), spans),
                kept@.len() <= i,
            decreases symbols@.len() - i,
        {
            assert(sv.take(i + 1).drop_last() =~= sv.take(i as int));
            assert(sv.take(i + 1).last() == symbols@[i as int]@);
            let start = symbols[i].span.start_byte;
            let end = symbols[i].span.end_byte;
            let mut inside = false;
            let mut k: usize = 0;
            while k < symbols.len()
                invariant
                    i < symbols@.len(),
                    k <= symbols@.len(),
                    sv == views_of(symbols@),
                    spans == sv.map_values(|s: SymbolV| s.span),
                    start == symbols@[i as int].span.start_byte,
                    end == symbols@[i as int].span.end_byte,
                    inside == exists|j: int| 0 <= j < k && #[trigger] spans[j].start_byte < start && end
                        < spans[j].end_byte,
                decreases symbols@.len() - k,
            {
                let rs = symbols[k].span.start_byte;
                let re = symbols[k].span.end_byte;
                assert(spans[k as int] == symbols@[k as int].span);
                if rs < start && end < re {
                    inside = true;
                }
                k = k + 1;
            }
            assert(inside == nested_in(spans, symbols@[i as int]@.span));
            if !inside {
                let ghost before = views_of(kept@);
                kept.push(symbols[i].copied());
                assert(views_of(kept@) =~= before.push(symbols@[i as int]@));
            }
            i = i + 1;
        }
        assert(sv.take(symbols@.len() as int) =~= sv);
        TypeScriptParser::number_duplicates(kept)
    }

    /// Appends `#N` to the N-th occurrence (N > 1) of a qualified name,
    /// renaming the symbol the same way.
    pub fn number_duplicates(kept: Vec<Symbol>) -> (r: Vec<Symbol>)
        ensures
            views_of(r@) == numbered(views_of(kept@)),
    {
        let ghost kv = views_of(kept@);
        let n = kept.len();
        let mut out: Vec<Symbol> = Vec::new();
        let mut i: usize = 0;
        while i < n
            invariant
                n == kept@.len(),
                i <= kept@.len(),
                kv == views_of(kept@),
                views_of(out@) == numbered(kv.take(i as int)),
            decreases kept@.len() - i,
        {
            let ghost pre = kv.take(i + 1);
            assert(pre.drop_last() =~= kv.take(i as int));
            assert(pre.last() == kept@[i as int]@);
            let q = kept[i].qualified_name.as_str();
            let mut count: usize = 0;
            let mut j: usize = 0;
            while j <= i
                invariant
                    i < kept@.len(),
                    n == kept@.len(),
                    j <= i + 1,
                    kv == views_of(kept@),
                    q@ == kv[i as int].qualified_name,
                    count == count_named(kv.take(j as int), q@),
                    count <= j,
                decreases i + 1 - j,
            {
                assert(kv.take(j + 1).drop_last() =~= kv.take(j as int));
                assert(kv.take(j + 1).last() == kept@[j as int]@);
                if str_eq(kept[j].qualified_name.as_str(), q) {
                    count = count + 1;
                }
                j = j + 1;
            }
            let mut sym = kept[i].copied();
            if count > 1 {
                let mut n = String::from_str(q);
                push_text(&mut n, "#");
                let digits = decimal_text(count as u64);
                push_text(&mut n, digits.as_str());
                sym.qualified_name = String::from_str(n.as_str());
                sym.name = n;
            }
            let ghost before = views_of(out@);
            out.push(sym);
            assert(views_of(out@) =~= before.push(views_of(out@).last()));
            i = i + 1;
        }
        assert(kv.take(kept@.len() as int) =~= kv);
        out
    }

    /// The symbols of a TypeScript file, deduplicated.
    pub fn symbols_from_matches(&self, tree: &SyntaxTree, matches: &Vec<QueryMatch>, file_path: &str) -> (r: Vec<
        Symbol,
    >)
        requires
            tree.wf(),
            matches_in(tree, matches@),
        ensures
            exists|pre: Seq<SymbolV>|
                {
                    &&& pre.len() == symbols_of(&self.inner.config, tree, matches@, file_path@).len()
                    &&& forall|k: int| 0 <= k < pre.len() ==> #[trigger] pre[k] == with_id(
                        symbols_of(&self.inner.config, tree, matches@, file_path@)[k],
                        pre[k].id,
                    )
                    &&& views_of(r@) == dedup_of(pre)
                },
    {
        let syms = self.inner.symbols_from_matches(tree, matches, file_path);
        let r = TypeScriptParser::dedup_symbols(syms);
        assert(views_of(syms@).len() == symbols_of(&self.inner.config, tree, matches@, file_path@).len());
        assert(forall|k: int| 0 <= k < views_of(syms@).len() ==> #[trigger] views_of(syms@)[k] == with_id(
            symbols_of(&self.inner.config, tree, matches@, file_path@)[k],
            views_of(syms@)[k].id,
        ));
        r
    }

    /// The call edges of a TypeScript file.
    pub fn calls_from_matches(&self, tree: &SyntaxTree, matches: &Vec<QueryMatch>) -> (r: Vec<RawCallEdge>)
        requires
            tree.wf(),
            matches_in(tree, matches@),
        ensures
            r@.map_values(|e: RawCallEdge| call_view(e)) == calls_of(tree, matches@),
    {
        self.inner.calls_from_matches(tree, matches)
    }

    /// The imports of a TypeScript file.
    pub fn imports_from_matches(&self, tree: &SyntaxTree, matches: &Vec<QueryMatch>) -> (r: Vec<Import>)
        requires
            tree.wf(),
            matches_in(tree, matches@),
        ensures
            r@.map_values(|i: Import| import_view(i)) == imports_of(&self.inner.config, tree, matches@),
    {
        self.inner.imports_from_matches(tree, matches)
    }
}

/// `fa` is `fa0` with its symbols deduplicated.
pub open spec fn deduped_analysis(fa0: FileAnalysis, fa: FileAnalysis) -> bool {
    &&& views_of(fa.symbols@) == dedup_of(views_of(fa0.symbols@))
    &&& fa.calls@ == fa0.calls@
    &&& fa.types@ == fa0.types@
    &&& fa.imports@ == fa0.imports@
}

/// `fa` is the query-driven analysis of file `path` with bytes `source`,
/// its symbols deduplicated.
pub open spec fn ts_query_analysis(source: Seq<u8>, queries: &QueryTexts, path: Seq<char>, fa: FileAnalysis) -> bool {
    let g = Grammar::TypeScript;
    exists|fa0: FileAnalysis|
        qd_file_analysis(
            &TypeScriptConfig,
            source,
            parsed_rows(g, source)->0,
            caps_for(g, source, queries.symbols@, true)->0,
            caps_for(g, source, queries.calls@, false)->0,
            caps_for(g, source, queries.imports@, false)->0,
            path,
            fa0,
        ) && #[trigger] deduped_analysis(fa0, fa)
}

/// What the TypeScript parser gives for file `path` with bytes `source`:
/// it fails where the query-driven parser fails, and otherwise gives the
/// query-driven analysis with its symbols deduplicated.
pub open spec fn ts_parse_result(source: Seq<u8>, path: Seq<char>, queries: &QueryTexts, r: Result<FileAnalysis, Error>) -> bool {
    let g = Grammar::TypeScript;
    &&& source.len() == 0 ==> (r matches Ok(fa) && empty_analysis(fa))
    &&& source.len() > 0 ==> (r is Ok <==> {
        &&& parsed_rows(g, source) is Some
        &&& rows_ok(parsed_rows(g, source)->0, source.len())
        &&& caps_for(g, source, queries.symbols@, true) is Some
        &&& caps_for(g, source, queries.calls@, false) is Some
        &&& caps_for(g, source, queries.imports@, false) is Some
    })
    &&& r is Err ==> (r matches Err(Error::ParseError(_)))
    &&& source.len() > 0 ==> (r matches Ok(fa) ==> ts_query_analysis(source, queries, path, fa))
}

impl TypeScriptParser {
    /// Parses a TypeScript or JavaScript file's bytes with the query-driven
    /// parser and deduplicates its symbols. Fails as the query-driven parser
    /// does; otherwise the analysis is the query-driven one with nested
    /// symbols removed and duplicate qualified names numbered.
    pub fn parse_file(&self, source: &[u8], file_path: &str, queries: &QueryTexts) -> (r: Result<FileAnalysis, Error>)
        ensures
            ts_parse_result(source@, file_path@, queries, r),
    {
        if source.len() == 0 {
            return Ok(FileAnalysis { symbols: Vec::new(), calls: Vec::new(), types: Vec::new(), imports: Vec::new() });
        }
        match self.inner.parse_file(source, file_path, queries) {
            Ok(fa0) => {
                let ghost f0 = fa0;
                let FileAnalysis { symbols, calls, types, imports } = fa0;
                let fa = FileAnalysis { symbols: TypeScriptParser::dedup_symbols(symbols), calls, types, imports };
                proof {
                    assert(deduped_analysis(f0, fa));
                    assert(ts_query_analysis(source@, queries, file_path@, fa));
                }
                Ok(fa)
            },
            Err(e) => Err(e),
        }
    }
}

} // verus!
