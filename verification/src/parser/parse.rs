//! Parsing source bytes with tree-sitter into a [`SyntaxTree`].
//!
//! tree-sitter hands over a tree's nodes one at a time, in pre-order, each
//! with its depth below the root and the field name its parent gives it.
//! The links of the syntax tree (parent, previous sibling, children, fields)
//! are rebuilt from those depths here, and proved to be what the rows say.

use vstd::prelude::*;
use tree_sitter::Tree;
use streaming_iterator::StreamingIterator;
use crate::parser::syntax::{SyntaxNode, SyntaxTree};
use crate::parser::engine::{QueryCapture, QueryMatch, matches_in};

verus! {

/// The grammars the engine parses with.
#[derive(Clone, Copy, Debug, PartialEq, Eq)]
pub enum Grammar {
    Python,
    /// TypeScript with JSX (`.ts`, `.tsx`, `.js`, `.jsx`).
    TypeScript,
    Bash,
    Haskell,
    Julia,
    Scala,
    Kotlin,
    Rust,
    Go,
    Java,
}

/// tree-sitter's parsed tree, carried as an opaque value.
#[verifier::external_type_specification]
#[verifier::external_body]
pub struct ExTree(tree_sitter::Tree);

/// One node of a parsed tree as tree-sitter reports it.
pub struct NodeRow {
    pub kind: String,
    pub named: bool,
    pub start_byte: usize,
    pub end_byte: usize,
    pub start_row: usize,
    pub end_row: usize,
    /// Levels below the root (the root is at 0).
    pub depth: usize,
    /// The field name under which the parent holds this node.
    pub field: Option<String>,
}

/// A node row as plain values.
pub struct RowV {
    pub kind: Seq<char>,
    pub named: bool,
    pub start_byte: usize,
    pub end_byte: usize,
    pub start_row: usize,
    pub end_row: usize,
    pub depth: usize,
    pub field: Option<Seq<char>>,
}

pub open spec fn opt_view(o: Option<String>) -> Option<Seq<char>> {
    match o {
        Some(s) => Some(s@),
        None => None,
    }
}

impl View for NodeRow {
    type V = RowV;

    open spec fn view(&self) -> RowV {
        RowV {
            kind: self.kind@,
            named: self.named,
            start_byte: self.start_byte,
            end_byte: self.end_byte,
            start_row: self.start_row,
            end_row: self.end_row,
            depth: self.depth,
            field: opt_view(self.field),
        }
    }
}

/// The nodes, in pre-order, of tree-sitter's parse of `source` with grammar
/// `g`; `None` where the parser gives no tree.
pub uninterp spec fn parsed_rows(g: Grammar, source: Seq<u8>) -> Option<Seq<RowV>>;

/// The nodes a parsed tree holds, in pre-order.
pub uninterp spec fn tree_rows(t: Tree) -> Seq<RowV>;

/// The ids of the nodes a parsed tree holds, in pre-order.
pub uninterp spec fn tree_ids(t: Tree) -> Seq<usize>;

/// The captures, match by match, of tree-sitter's query `query` over the
/// parse of `source` with grammar `g`: each capture's name and the
/// pre-order index of the node it captures; `None` where the query does not
/// compile for the grammar.
pub uninterp spec fn query_captures(g: Grammar, source: Seq<u8>, query: Seq<char>) -> Option<Seq<Seq<(Seq<char>, int)>>>;

/// tree-sitter's `Parser::parse` with a fresh parser set to grammar `g`
/// (`Parser::new`, `Parser::set_language`, `Parser::parse` with no old
/// tree). The contract claims that the tree, when there is one, holds the
/// nodes that tree-sitter's parse of these bytes with this grammar gives,
/// that there is none exactly when that parse gives none, and that the
/// tree's node ids are one per node and distinct (`Node::id`: no two nodes
/// of a tree have the same id).
#[verifier::external_body]
fn ts_parse(g: Grammar, source: &[u8]) -> (r: Option<Tree>)
    ensures
        match r {
            Some(t) => parsed_rows(g, source@) == Some(tree_rows(t)) && tree_ids(t).len() == tree_rows(t).len()
                && tree_ids(t).no_duplicates(),
            None => parsed_rows(g, source@) is None,
        },
{
    let lang: tree_sitter::Language = match g {
        Grammar::Python => tree_sitter_python::LANGUAGE.into(),
        Grammar::TypeScript => tree_sitter_typescript::LANGUAGE_TSX.into(),
        Grammar::Bash => tree_sitter_bash::LANGUAGE.into(),
        Grammar::Haskell => tree_sitter_haskell::LANGUAGE.into(),
        Grammar::Julia => tree_sitter_julia::LANGUAGE.into(),
        Grammar::Scala => tree_sitter_scala::LANGUAGE.into(),
        Grammar::Kotlin => tree_sitter_kotlin_codanna::language(),
        Grammar::Rust => tree_sitter_rust::LANGUAGE.into(),
        Grammar::Go => tree_sitter_go::LANGUAGE.into(),
        Grammar::Java => tree_sitter_java::LANGUAGE.into(),
    };
    let mut parser = tree_sitter::Parser::new();
    parser.set_language(&lang).ok()?;
    parser.parse(source, None)
}

/// tree-sitter's `Node::descendant_count` of the root: the number of nodes
/// of the tree, the root included.
#[verifier::external_body]
fn tree_node_count(t: &Tree) -> (r: usize)
    ensures
        r == tree_rows(*t).len(),
{
    t.root_node().descendant_count()
}

/// Node `i` of the tree in pre-order, read through a `TreeCursor` moved by
/// `goto_descendant(i)`: the node's kind, whether it is named, its byte
/// range, its first and last rows, the cursor's depth and field name, and
/// the node's id. The contract claims it is the `i`-th node the tree holds.
#[verifier::external_body]
fn tree_node(t: &Tree, i: usize) -> (r: (NodeRow, usize))
    requires
        i < tree_rows(*t).len(),
    ensures
        r.0@ == tree_rows(*t)[i as int],
        r.1 == tree_ids(*t)[i as int],
{
    let mut c = t.root_node().walk();
    c.goto_descendant(i);
    let n = c.node();
    (NodeRow {
        kind: n.kind().to_string(),
        named: n.is_named(),
        start_byte: n.start_byte(),
        end_byte: n.end_byte(),
        start_row: n.start_position().row,
        end_row: n.end_position().row,
        depth: c.depth() as usize,
        field: c.field_name().map(|f| f.to_string()),
    }, n.id())
}

/// tree-sitter's `Query::new` of `query` for the tree's grammar, run with
/// `QueryCursor::matches` over the whole tree and `source`: for each match,
/// in order, its captures' names (`Query::capture_names`) and node ids.
/// The contract claims there is no result exactly when the query does not
/// compile, and otherwise that the captures are those tree-sitter's query
/// gives over this parse, each node given by its id in the tree. The tree
/// is the parse of `source` with grammar `_g`, whose language the query is
/// compiled for.
#[verifier::external_body]
fn ts_query(_g: Grammar, t: &Tree, source: &[u8], query: &str) -> (r: Option<Vec<Vec<(String, usize)>>>)
    requires
        parsed_rows(_g, source@) == Some(tree_rows(*t)),
    ensures
        match r {
            None => query_captures(_g, source@, query@) is None,
            Some(ms) => query_captures(_g, source@, query@) matches Some(qs) && ms@.len() == qs.len()
                && forall|m: int| 0 <= m < ms@.len() ==> #[trigger] ms@[m]@.len() == qs[m].len()
                    && forall|c: int| 0 <= c < ms@[m]@.len() ==> {
                        &&& (#[trigger] ms@[m]@[c]).0@ == qs[m][c].0
                        &&& 0 <= qs[m][c].1 < tree_ids(*t).len()
                        &&& tree_ids(*t)[qs[m][c].1] == ms@[m]@[c].1
                    },
        },
{
    let q = tree_sitter::Query::new(&t.language(), query).ok()?;
    let names = q.capture_names();
    let mut cursor = tree_sitter::QueryCursor::new();
    let mut it = cursor.matches(&q, t.root_node(), source);
    let mut out = Vec::new();
    while let Some(m) = it.next() {
        out.push(m.captures().iter().map(|c| (names[c.index as usize].to_string(), c.node.id())).collect());
    }
    Some(out)
}

/// Rows in the shape of a pre-order walk over `len` source bytes: the first
/// is the root at depth 0, each later one lies one level at most below the
/// one before it and below the root, and every byte range lies in the source.
pub open spec fn rows_ok(rows: Seq<RowV>, len: nat) -> bool {
    &&& rows.len() > 0
    &&& rows[0].depth == 0
    &&& forall|i: int| 0 < i < rows.len() ==> 1 <= #[trigger] rows[i].depth <= rows[i - 1].depth + 1
    &&& forall|i: int| 0 <= i < rows.len() ==> #[trigger] rows[i].start_byte <= rows[i].end_byte <= len
}

/// The last row before `i` at depth `d`.
pub open spec fn last_at(rows: Seq<RowV>, i: int, d: int) -> Option<int>
    decreases i,
{
    if i <= 0 {
        None
    } else if rows[i - 1].depth == d {
        Some(i - 1)
    } else {
        last_at(rows, i - 1, d)
    }
}

/// The parent of row `i`: the last row before it one level up.
pub open spec fn row_parent(rows: Seq<RowV>, i: int) -> Option<int> {
    if rows[i].depth == 0 {
        None
    } else {
        last_at(rows, i, rows[i].depth - 1)
    }
}

/// The rows before `n` whose parent is row `p`, in order.
pub open spec fn kids_before(rows: Seq<RowV>, p: int, n: int) -> Seq<usize>
    decreases n,
{
    if n <= 0 {
        Seq::empty()
    } else if row_parent(rows, n - 1) == Some(p) {
        kids_before(rows, p, n - 1).push((n - 1) as usize)
    } else {
        kids_before(rows, p, n - 1)
    }
}

/// The rows before `n` that row `p` holds under a field, with the field's
/// name, in order.
pub open spec fn fields_before(rows: Seq<RowV>, p: int, n: int) -> Seq<(Seq<char>, usize)>
    decreases n,
{
    if n <= 0 {
        Seq::empty()
    } else if row_parent(rows, n - 1) == Some(p) && rows[n - 1].field is Some {
        fields_before(rows, p, n - 1).push((rows[n - 1].field->0, (n - 1) as usize))
    } else {
        fields_before(rows, p, n - 1)
    }
}

/// The previous sibling of row `i`: the last child its parent has before it.
pub open spec fn row_prev(rows: Seq<RowV>, i: int) -> Option<usize> {
    match row_parent(rows, i) {
        Some(p) => {
            let ks = kids_before(rows, p, i);
            if ks.len() == 0 { None } else { Some(ks.last()) }
        },
        None => None,
    }
}

pub open spec fn fields_view(fs: Seq<(String, usize)>) -> Seq<(Seq<char>, usize)> {
    fs.map_values(|f: (String, usize)| (f.0@, f.1))
}

/// Node `i` of `nodes` is row `i` with the links the rows give it, counting
/// rows before `n` as children.
pub open spec fn node_is_row(nodes: Seq<SyntaxNode>, rows: Seq<RowV>, i: int, n: int) -> bool {
    let x = nodes[i];
    let r = rows[i];
    &&& x.kind@ == r.kind
    &&& x.named == r.named
    &&& x.start_byte == r.start_byte
    &&& x.end_byte == r.end_byte
    &&& x.start_row == r.start_row
    &&& x.end_row == r.end_row
    &&& x.parent == (match row_parent(rows, i) { Some(p) => Some(p as usize), None => None::<usize> })
    &&& x.prev_sibling == row_prev(rows, i)
    &&& x.children@ == kids_before(rows, i, n)
    &&& fields_view(x.fields@) == fields_before(rows, i, n)
}

/// The syntax tree of `source` that rows `rows` describe.
pub open spec fn tree_of_rows(t: SyntaxTree, source: Seq<u8>, rows: Seq<RowV>) -> bool {
    &&& t.source@ == source
    &&& t.nodes@.len() == rows.len()
    &&& forall|i: int| 0 <= i < rows.len() ==> #[trigger] node_is_row(t.nodes@, rows, i, rows.len() as int)
}

proof fn lemma_last_at_before(rows: Seq<RowV>, i: int, d: int)
    ensures
        last_at(rows, i, d) matches Some(j) ==> 0 <= j < i && rows[j].depth == d,
    decreases i,
{
    if i > 0 && rows[i - 1].depth != d {
        lemma_last_at_before(rows, i - 1, d);
    }
}

proof fn lemma_kids_before_parent(rows: Seq<RowV>, p: int, n: int)
    requires
        n <= p + 1,
    ensures
        kids_before(rows, p, n) == Seq::<usize>::empty(),
        fields_before(rows, p, n) == Seq::<(Seq<char>, usize)>::empty(),
    decreases n,
{
    if n > 0 {
        lemma_last_at_before(rows, n - 1, rows[n - 1].depth - 1);
        lemma_kids_before_parent(rows, p, n - 1);
    }
}

proof fn lemma_kids_bounds(rows: Seq<RowV>, p: int, n: int)
    requires
        n <= usize::MAX,
    ensures
        forall|k: int| 0 <= k < kids_before(rows, p, n).len() ==> p < #[trigger] kids_before(rows, p, n)[k] < n,
        forall|k: int| 0 <= k < fields_before(rows, p, n).len() ==> p < #[trigger] fields_before(rows, p, n)[k].1 < n,
    decreases n,
{
    if n > 0 {
        lemma_kids_bounds(rows, p, n - 1);
        let ks = kids_before(rows, p, n - 1);
        let fs = fields_before(rows, p, n - 1);
        if rows[n - 1].depth != 0 {
            lemma_last_at_before(rows, n - 1, rows[n - 1].depth - 1);
        }
        if row_parent(rows, n - 1) == Some(p) {
            assert(p < n - 1);
            assert(kids_before(rows, p, n) == ks.push((n - 1) as usize));
            assert forall|k: int| 0 <= k < kids_before(rows, p, n).len() implies p < #[trigger] kids_before(rows, p, n)[k] < n by {
                if k < ks.len() {
                    assert(kids_before(rows, p, n)[k] == ks[k]);
                }
            }
            if rows[n - 1].field is Some {
                assert forall|k: int| 0 <= k < fields_before(rows, p, n).len() implies p < #[trigger] fields_before(rows, p, n)[k].1 < n by {
                    if k < fs.len() {
                        assert(fields_before(rows, p, n)[k] == fs[k]);
                    }
                }
            }
        }
    }
}

proof fn lemma_fields_view_push(fs: Seq<(String, usize)>, f: (String, usize))
    ensures
        fields_view(fs.push(f)) == fields_view(fs).push((f.0@, f.1)),
{
    assert(fields_view(fs.push(f)) =~= fields_view(fs).push((f.0@, f.1)));
}

proof fn lemma_row_node_wf(t: SyntaxTree, source: Seq<u8>, rows: Seq<RowV>, i: int)
    requires
        rows.len() <= usize::MAX,
        rows_ok(rows, source.len()),
        tree_of_rows(t, source, rows),
        0 <= i < rows.len(),
    ensures
        t.node_wf(i),
{
    let n = rows.len() as int;
    assert(node_is_row(t.nodes@, rows, i, n));
    assert(rows[i].start_byte <= rows[i].end_byte <= source.len());
    lemma_kids_bounds(rows, i, n);
    match row_parent(rows, i) {
        Some(p) => {
            lemma_last_at_before(rows, i, rows[i].depth - 1);
            lemma_kids_bounds(rows, p, i);
            let ks = kids_before(rows, p, i);
            if ks.len() > 0 {
                assert(ks.last() == ks[ks.len() - 1]);
            }
        },
        None => {},
    }
    let x = t.nodes@[i];
    assert forall|k: int| 0 <= k < x.fields@.len() implies i < #[trigger] x.fields@[k].1 < t.nodes@.len() by {
        assert(fields_view(x.fields@)[k].1 == x.fields@[k].1);
    }
}

/// A syntax tree that rows in the shape of a pre-order walk describe is
/// well formed.
proof fn lemma_rows_tree_wf(t: SyntaxTree, source: Seq<u8>, rows: Seq<RowV>)
    requires
        rows.len() <= usize::MAX,
        rows_ok(rows, source.len()),
        tree_of_rows(t, source, rows),
    ensures
        t.wf(),
{
    assert forall|i: int| 0 <= i < t.nodes@.len() implies #[trigger] t.node_wf(i) by {
        lemma_row_node_wf(t, source, rows, i);
    }
}

/// A source file parsed with tree-sitter: the tree itself, the syntax tree
/// built from it, and the ids of its nodes in pre-order.
pub struct ParsedSource {
    grammar: Grammar,
    syntax: SyntaxTree,
    tree: Tree,
    ids: Vec<usize>,
}

impl ParsedSource {
    pub closed spec fn grammar_v(&self) -> Grammar {
        self.grammar
    }

    pub closed spec fn syntax_v(&self) -> SyntaxTree {
        self.syntax
    }

    /// The syntax tree.
    pub fn syntax(&self) -> (r: &SyntaxTree)
        ensures
            *r == self.syntax_v(),
    {
        &self.syntax
    }

    /// The syntax tree is the one the parse's rows describe, and the ids are
    /// the tree's node ids.
    pub closed spec fn inv(&self) -> bool {
        &&& parsed_rows(self.grammar, self.syntax.source@) == Some(tree_rows(self.tree))
        &&& self.ids@ == tree_ids(self.tree)
        &&& self.ids@.len() == tree_rows(self.tree).len()
        &&& self.ids@.no_duplicates()
        &&& tree_of_rows(self.syntax, self.syntax.source@, tree_rows(self.tree))
        &&& self.syntax.wf()
    }

    /// Parses `source` with grammar `g`. There is no result where
    /// tree-sitter gives no tree, or gives nodes that are not in the shape
    /// of a pre-order walk over the source; otherwise the syntax tree holds
    /// tree-sitter's nodes in pre-order, linked as their depths say.
    #[verifier::rlimit(80)]
    pub fn parse(g: Grammar, source: &[u8]) -> (r: Option<ParsedSource>)
        ensures
            match parsed_rows(g, source@) {
                Some(rows) => if rows_ok(rows, source@.len()) {
                    r matches Some(p) && p.inv() && p.grammar_v() == g && tree_of_rows(p.syntax_v(), source@, rows)
                        && p.syntax_v().wf()
                } else {
                    r is None
                },
                None => r is None,
            },
    {
    let t = match ts_parse(g, source) {
        Some(t) => t,
        None => return None,
    };
    let ghost rows = tree_rows(t);
    let n = tree_node_count(&t);
    if n == 0 {
        return None;
    }
    let mut nodes: Vec<SyntaxNode> = Vec::new();
    let mut ids: Vec<usize> = Vec::new();
    let mut path: Vec<usize> = Vec::new();
    let mut i: usize = 0;
    while i < n
        invariant
            rows == tree_rows(t),
            parsed_rows(g, source@) == Some(rows),
            n == rows.len(),
            i <= n,
            nodes@.len() == i,
            tree_ids(t).len() == rows.len(),
            ids@ == tree_ids(t).subrange(0, i as int),
            i == 0 ==> path@.len() == 0,
            i > 0 ==> path@.len() == rows[i - 1].depth + 1,
            forall|k: int| 0 <= k < path@.len() ==> last_at(rows, i as int, k) == Some(#[trigger] path@[k] as int),
            i > 0 ==> rows[0].depth == 0,
            forall|j: int| 0 < j < i ==> 1 <= #[trigger] rows[j].depth <= rows[j - 1].depth + 1,
            forall|j: int| 0 <= j < i ==> #[trigger] rows[j].start_byte <= rows[j].end_byte <= source@.len(),
            forall|j: int| 0 <= j < i ==> #[trigger] node_is_row(nodes@, rows, j, i as int),
        decreases n - i,
    {
        let (row, id) = tree_node(&t, i);
        let d = row.depth;
        proof {
            assert(rows[i as int] == row@);
            assert(rows[i as int].depth == d);
            assert(rows[i as int].start_byte == row.start_byte);
        }
        if i == 0 {
            if d != 0 {
                return None;
            }
        } else if d == 0 || d > path.len() {
            return None;
        }
        if !(row.start_byte <= row.end_byte && row.end_byte <= source.len()) {
            return None;
        }
        let parent: Option<usize> = if d == 0 { None } else { Some(path[d - 1]) };
        let prev: Option<usize> = match parent {
            Some(p) => {
                proof {
                    lemma_last_at_before(rows, i as int, d - 1);
                    assert(node_is_row(nodes@, rows, p as int, i as int));
                }
                let ks = &nodes[p].children;
                if ks.len() == 0 { None } else { Some(ks[ks.len() - 1]) }
            },
            None => None,
        };
        let ghost old_nodes = nodes@;
        let ghost old_path = path@;
        path.truncate(d);
        path.push(i);
        nodes.push(SyntaxNode {
            kind: row.kind,
            named: row.named,
            start_byte: row.start_byte,
            end_byte: row.end_byte,
            start_row: row.start_row,
            end_row: row.end_row,
            parent: parent,
            prev_sibling: prev,
            children: Vec::new(),
            fields: Vec::new(),
        });
        ids.push(id);
        proof {
            assert(ids@ =~= tree_ids(t).subrange(0, i as int + 1));
        }
        let ghost mid = nodes@;
        match parent {
            Some(p) => {
                nodes[p].children.push(i);
                match row.field {
                    Some(f) => {
                        proof { lemma_fields_view_push(nodes@[p as int].fields@, (f, i)); }
                        nodes[p].fields.push((f, i));
                    },
                    None => {},
                }
            },
            None => {},
        }
        proof {
            let ni = i as int + 1;
            assert(rows[i as int] == row@);
            lemma_kids_before_parent(rows, i as int, i as int);
            assert forall|k: int| 0 <= k < path@.len() implies last_at(rows, ni, k) == Some(#[trigger] path@[k] as int) by {
                if k < d {
                    assert(path@[k] == old_path[k]);
                }
            }
            assert(row_parent(rows, i as int) == (match parent { Some(p) => Some(p as int), None => None::<int> }));
            assert forall|j: int| 0 <= j < ni implies #[trigger] node_is_row(nodes@, rows, j, ni) by {
                if j == i {
                    assert(nodes@[j] == mid[j]);
                    assert(kids_before(rows, j, ni) == kids_before(rows, j, i as int));
                    assert(fields_before(rows, j, ni) == fields_before(rows, j, i as int));
                    assert(fields_view(nodes@[j].fields@) =~= Seq::<(Seq<char>, usize)>::empty());
                } else if parent == Some(j as usize) {
                    assert(node_is_row(old_nodes, rows, j, i as int));
                    assert(mid[j] == old_nodes[j]);
                    assert(kids_before(rows, j, ni) == kids_before(rows, j, i as int).push(i as usize));
                    assert(nodes@[j].children@ == old_nodes[j].children@.push(i));
                } else {
                    assert(node_is_row(old_nodes, rows, j, i as int));
                    assert(nodes@[j] == old_nodes[j]);
                    assert(kids_before(rows, j, ni) == kids_before(rows, j, i as int));
                    assert(fields_before(rows, j, ni) == fields_before(rows, j, i as int));
                }
            }
        }
        i = i + 1;
    }
    let tree = SyntaxTree { source: vstd::slice::slice_to_vec(source), nodes: nodes };
    proof {
        assert(i == n);
        assert(rows.len() > 0);
        assert(rows[0].depth == 0);
        assert(forall|j: int| 0 < j < rows.len() ==> 1 <= #[trigger] rows[j].depth <= rows[j - 1].depth + 1);
        assert(forall|j: int| 0 <= j < rows.len() ==> #[trigger] rows[j].start_byte <= rows[j].end_byte <= source@.len());
        assert(rows_ok(rows, source@.len()));
        assert(tree_of_rows(tree, source@, rows));
        lemma_rows_tree_wf(tree, source@, rows);
        assert(ids@ =~= tree_ids(t));
    }
    Some(ParsedSource { grammar: g, syntax: tree, tree: t, ids: ids })
    }
}

/// Parses `source` with grammar `g` into a syntax tree. There is none where
/// tree-sitter gives no tree, or gives nodes that are not in the shape of a
/// pre-order walk over the source; otherwise the tree holds tree-sitter's
/// nodes in pre-order, linked as their depths say.
pub fn parse_source(g: Grammar, source: &[u8]) -> (r: Option<SyntaxTree>)
    ensures
        match parsed_rows(g, source@) {
            Some(rows) => if rows_ok(rows, source@.len()) {
                r matches Some(t) && tree_of_rows(t, source@, rows) && t.wf()
            } else {
                r is None
            },
            None => r is None,
        },
{
    match ParsedSource::parse(g, source) {
        Some(p) => Some(p.syntax),
        None => None,
    }
}

/// A capture as a name and a node index.
pub open spec fn capture_view(c: QueryCapture) -> (Seq<char>, int) {
    (c.name@, c.node as int)
}

/// The captures of one match as plain values.
pub open spec fn match_view(m: QueryMatch) -> Seq<(Seq<char>, int)> {
    m.captures@.map_values(|c: QueryCapture| capture_view(c))
}

/// The captures of query matches as plain values.
pub open spec fn matches_view(ms: Seq<QueryMatch>) -> Seq<Seq<(Seq<char>, int)>> {
    ms.map_values(|m: QueryMatch| match_view(m))
}

/// The position of `id` in `ids`.
fn index_of_id(ids: &Vec<usize>, id: usize) -> (r: Option<usize>)
    ensures
        match r {
            Some(k) => k < ids@.len() && ids@[k as int] == id,
            None => forall|k: int| 0 <= k < ids@.len() ==> ids@[k] != id,
        },
{
    let mut k: usize = 0;
    while k < ids.len()
        invariant
            k <= ids@.len(),
            forall|j: int| 0 <= j < k ==> ids@[j] != id,
        decreases ids@.len() - k,
    {
        if ids[k] == id {
            return Some(k);
        }
        k = k + 1;
    }
    None
}

impl ParsedSource {
    /// Runs the tree-sitter query `query` over the parsed tree: its matches
    /// in order, each capture naming its node by pre-order index. There is
    /// none where the query does not compile for the grammar.
    pub fn run_query(&self, query: &str) -> (r: Option<Vec<QueryMatch>>)
        requires
            self.inv(),
        ensures
            match query_captures(self.grammar_v(), self.syntax_v().source@, query@) {
                None => r is None,
                Some(qs) => r matches Some(ms) && matches_view(ms@) == qs && matches_in(&self.syntax_v(), ms@),
            },
    {
        let raw = match ts_query(self.grammar, &self.tree, self.syntax.source.as_slice(), query) {
            Some(v) => v,
            None => return None,
        };
        let ghost qs = query_captures(self.grammar, self.syntax.source@, query@)->0;
        let ghost len = self.syntax.nodes@.len();
        let mut out: Vec<QueryMatch> = Vec::new();
        let mut m: usize = 0;
        while m < raw.len()
            invariant
                self.inv(),
                query_captures(self.grammar, self.syntax.source@, query@) == Some(qs),
                len == self.syntax.nodes@.len(),
                raw@.len() == qs.len(),
                forall|j: int| 0 <= j < raw@.len() ==> #[trigger] raw@[j]@.len() == qs[j].len()
                    && forall|c: int| 0 <= c < raw@[j]@.len() ==> {
                        &&& (#[trigger] raw@[j]@[c]).0@ == qs[j][c].0
                        &&& 0 <= qs[j][c].1 < tree_ids(self.tree).len()
                        &&& tree_ids(self.tree)[qs[j][c].1] == raw@[j]@[c].1
                    },
                m <= raw@.len(),
                out@.len() == m,
                forall|j: int| 0 <= j < m ==> #[trigger] match_view(out@[j]) == qs[j],
                forall|j: int, k: int| 0 <= j < m && 0 <= k < out@[j].captures@.len()
                    ==> #[trigger] out@[j].captures@[k].node < len,
            decreases raw@.len() - m,
        {
            let caps = &raw[m];
            let mut cs: Vec<QueryCapture> = Vec::new();
            let mut c: usize = 0;
            proof {
                assert(raw@[m as int]@.len() == qs[m as int].len());
            }
            while c < caps.len()
                invariant
                    self.inv(),
                    len == self.syntax.nodes@.len(),
                    caps@ == raw@[m as int]@,
                    caps@.len() == qs[m as int].len(),
                    forall|c2: int| 0 <= c2 < caps@.len() ==> {
                        &&& (#[trigger] caps@[c2]).0@ == qs[m as int][c2].0
                        &&& 0 <= qs[m as int][c2].1 < tree_ids(self.tree).len()
                        &&& tree_ids(self.tree)[qs[m as int][c2].1] == caps@[c2].1
                    },
                    c <= caps@.len(),
                    cs@.len() == c,
                    forall|k: int| 0 <= k < c ==> #[trigger] capture_view(cs@[k]) == qs[m as int][k],
                    forall|k: int| 0 <= k < c ==> #[trigger] cs@[k].node < len,
                decreases caps@.len() - c,
            {
                let id = caps[c].1;
                let ghost want = qs[m as int][c as int].1;
                proof {
                    assert(caps@[c as int].0@ == qs[m as int][c as int].0);
                    assert(tree_ids(self.tree)[want] == id);
                }
                let k = match index_of_id(&self.ids, id) {
                    Some(k) => k,
                    None => {
                        proof {
                            assert(self.ids@[want] == id);
                        }
                        return None;
                    },
                };
                proof {
                    assert(self.ids@[k as int] == self.ids@[want]);
                    assert(k as int == want);
                    assert(tree_of_rows(self.syntax, self.syntax.source@, tree_rows(self.tree)));
                    assert(tree_rows(self.tree).len() == len);
                    assert(self.ids@.len() == len);
                    assert(k < len);
                }
                cs.push(QueryCapture { name: caps[c].0.clone(), node: k });
                c = c + 1;
            }
            proof {
                assert(match_view(QueryMatch { captures: cs }) =~= qs[m as int]);
            }
            out.push(QueryMatch { captures: cs });
            m = m + 1;
        }
        proof {
            assert(matches_view(out@) =~= qs);
        }
        Some(out)
    }
}

} // verus!
