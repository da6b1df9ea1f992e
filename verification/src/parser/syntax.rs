//! A parsed syntax tree held as plain values.
//!
//! Nodes are numbered in pre-order: a node's parent and previous sibling come
//! before it, its children after it. Each node keeps its grammar kind, its
//! byte range in the source, its first and last rows, and its links.

use vstd::prelude::*;
use vstd::utf8::{valid_utf8, decode_utf8};
use crate::text::str_eq;
use crate::workspace::conflict::utf8_decode;

verus! {

broadcast use vstd::utf8::decode_utf8_encode_utf8;

/// One node of a syntax tree.
pub struct SyntaxNode {
    /// Grammar kind, such as `function_definition`.
    pub kind: String,
    /// Whether the grammar names this node (as opposed to punctuation).
    pub named: bool,
    pub start_byte: usize,
    pub end_byte: usize,
    pub start_row: usize,
    pub end_row: usize,
    pub parent: Option<usize>,
    pub prev_sibling: Option<usize>,
    /// All children, in source order.
    pub children: Vec<usize>,
    /// Children reachable by a field name, in source order.
    pub fields: Vec<(String, usize)>,
}

/// A syntax tree over the source bytes it was parsed from; node 0 is the root.
pub struct SyntaxTree {
    pub source: Vec<u8>,
    pub nodes: Vec<SyntaxNode>,
}

/// The first child that a field list reaches under `f`.
pub open spec fn first_field(fs: Seq<(String, usize)>, f: Seq<char>) -> Option<usize>
    decreases fs.len(),
{
    if fs.len() == 0 {
        None
    } else if fs[0].0@ == f {
        Some(fs[0].1)
    } else {
        first_field(fs.drop_first(), f)
    }
}

impl SyntaxTree {
    pub open spec fn size(&self) -> int {
        self.nodes@.len() as int
    }

    /// Node `i` lies inside the source, and its links point to earlier nodes
    /// (parent, previous sibling) or to later ones (children, fields).
    pub open spec fn node_wf(&self, i: int) -> bool {
        let n = self.nodes@[i];
        &&& n.start_byte <= n.end_byte <= self.source@.len()
        &&& (n.parent matches Some(p) ==> p < i)
        &&& (n.prev_sibling matches Some(s) ==> s < i)
        &&& forall|k: int| 0 <= k < n.children@.len() ==> i < #[trigger] n.children@[k] < self.nodes@.len()
        &&& forall|k: int| 0 <= k < n.fields@.len() ==> i < #[trigger] n.fields@[k].1 < self.nodes@.len()
    }

    pub open spec fn wf(&self) -> bool {
        forall|i: int| 0 <= i < self.nodes@.len() ==> #[trigger] self.node_wf(i)
    }

    pub open spec fn kind_of(&self, i: int) -> Seq<char> {
        self.nodes@[i].kind@
    }

    /// The source text of node `i`; empty where its bytes are not UTF-8.
    pub open spec fn text_of(&self, i: int) -> Seq<char> {
        let n = self.nodes@[i];
        let b = self.source@.subrange(n.start_byte as int, n.end_byte as int);
        if valid_utf8(b) {
            decode_utf8(b)
        } else {
            Seq::empty()
        }
    }

    pub open spec fn field_of(&self, i: int, f: Seq<char>) -> Option<usize> {
        first_field(self.nodes@[i].fields@, f)
    }

    pub open spec fn parent_of(&self, i: int) -> Option<usize> {
        self.nodes@[i].parent
    }

    pub open spec fn prev_of(&self, i: int) -> Option<usize> {
        self.nodes@[i].prev_sibling
    }

    pub open spec fn children_of(&self, i: int) -> Seq<usize> {
        self.nodes@[i].children@
    }

    /// The `k`-th child of node `i`, if it has one.
    pub open spec fn child_at(&self, i: int, k: int) -> Option<usize> {
        if 0 <= k < self.children_of(i).len() {
            Some(self.children_of(i)[k])
        } else {
            None
        }
    }

    /// The first named child among `cs`.
    pub open spec fn first_named(&self, cs: Seq<usize>) -> Option<usize>
        decreases cs.len(),
    {
        if cs.len() == 0 {
            None
        } else if 0 <= cs[0] < self.nodes@.len() && self.nodes@[cs[0] as int].named {
            Some(cs[0])
        } else {
            self.first_named(cs.drop_first())
        }
    }

    /// The text of node `i`.
    pub fn node_text(&self, i: usize) -> (r: String)
        requires
            self.wf(),
            i < self.nodes@.len(),
        ensures
            r@ == self.text_of(i as int),
    {
        assert(self.node_wf(i as int));
        let n = &self.nodes[i];
        let b = vstd::slice::slice_subrange(self.source.as_slice(), n.start_byte, n.end_byte);
        match utf8_decode(b) {
            Ok(s) => String::from_str(s),
            Err(_) => String::new(),
        }
    }

    /// Whether node `i` has kind `k`.
    pub fn kind_is(&self, i: usize, k: &str) -> (r: bool)
        requires
            i < self.nodes@.len(),
        ensures
            r == (self.kind_of(i as int) == k@),
    {
        str_eq(self.nodes[i].kind.as_str(), k)
    }

    /// The first child of node `i` under field `f`.
    pub fn child_by_field(&self, i: usize, f: &str) -> (r: Option<usize>)
        requires
            self.wf(),
            i < self.nodes@.len(),
        ensures
            r == self.field_of(i as int, f@),
            r matches Some(c) ==> i < c < self.nodes@.len(),
    {
        assert(self.node_wf(i as int));
        let fs = &self.nodes[i].fields;
        let mut k: usize = 0;
        assert(fs@.skip(0) =~= fs@);
        while k < fs.len()
            invariant
                self.wf(),
                i < self.nodes@.len(),
                k <= fs@.len(),
                fs@ == self.nodes@[i as int].fields@,
                first_field(fs@, f@) == first_field(fs@.skip(k as int), f@),
            decreases fs@.len() - k,
        {
            assert(fs@.skip(k as int)[0] == fs@[k as int]);
            assert(fs@.skip(k as int).drop_first() =~= fs@.skip(k as int + 1));
            if str_eq(fs[k].0.as_str(), f) {
                assert(self.node_wf(i as int));
                assert(i < fs@[k as int].1);
                return Some(fs[k].1);
            }
            k = k + 1;
        }
        assert(first_field(fs@.skip(k as int), f@) == None::<usize>);
        None
    }

    /// The `k`-th child of node `i`.
    pub fn child(&self, i: usize, k: usize) -> (r: Option<usize>)
        requires
            self.wf(),
            i < self.nodes@.len(),
        ensures
            r == self.child_at(i as int, k as int),
            r matches Some(c) ==> i < c < self.nodes@.len(),
    {
        assert(self.node_wf(i as int));
        if k < self.nodes[i].children.len() {
            Some(self.nodes[i].children[k])
        } else {
            None
        }
    }

    /// The first named child of node `i`.
    pub fn first_named_child(&self, i: usize) -> (r: Option<usize>)
        requires
            self.wf(),
            i < self.nodes@.len(),
        ensures
            r == self.first_named(self.children_of(i as int)),
            r matches Some(c) ==> i < c < self.nodes@.len(),
    {
        assert(self.node_wf(i as int));
        let cs = &self.nodes[i].children;
        let mut k: usize = 0;
        assert(cs@.skip(0) =~= cs@);
        while k < cs.len()
            invariant
                self.wf(),
                i < self.nodes@.len(),
                k <= cs@.len(),
                cs@ == self.children_of(i as int),
                self.first_named(cs@) == self.first_named(cs@.skip(k as int)),
            decreases cs@.len() - k,
        {
            assert(self.node_wf(i as int));
            assert(cs@.skip(k as int)[0] == cs@[k as int]);
            assert(cs@.skip(k as int).drop_first() =~= cs@.skip(k as int + 1));
            let c = cs[k];
            if self.nodes[c].named {
                return Some(c);
            }
            k = k + 1;
        }
        None
    }
}

impl SyntaxTree {
    fn node_ok(&self, i: usize) -> (r: bool)
        requires
            i < self.nodes@.len(),
        ensures
            r == self.node_wf(i as int),
    {
        let n = &self.nodes[i];
        if !(n.start_byte <= n.end_byte && n.end_byte <= self.source.len()) {
            return false;
        }
        match n.parent {
            Some(p) => if p >= i { return false; },
            None => {},
        }
        match n.prev_sibling {
            Some(q) => if q >= i { return false; },
            None => {},
        }
        let len = self.nodes.len();
        let mut k: usize = 0;
        while k < n.children.len()
            invariant
                n == self.nodes@[i as int],
                len == self.nodes@.len(),
                k <= n.children@.len(),
                forall|j: int| 0 <= j < k ==> i < #[trigger] n.children@[j] < len,
            decreases n.children@.len() - k,
        {
            let c = n.children[k];
            if !(i < c && c < len) {
                return false;
            }
            k = k + 1;
        }
        let mut f: usize = 0;
        while f < n.fields.len()
            invariant
                n == self.nodes@[i as int],
                len == self.nodes@.len(),
                f <= n.fields@.len(),
                forall|j: int| 0 <= j < f ==> i < #[trigger] n.fields@[j].1 < len,
            decreases n.fields@.len() - f,
        {
            let c = n.fields[f].1;
            if !(i < c && c < len) {
                return false;
            }
            f = f + 1;
        }
        true
    }

    /// Whether the tree is well formed: every node lies inside the source,
    /// and every link points the way pre-order numbering has it.
    pub fn is_wf(&self) -> (r: bool)
        ensures
            r == self.wf(),
    {
        let mut i: usize = 0;
        while i < self.nodes.len()
            invariant
                i <= self.nodes@.len(),
                forall|j: int| 0 <= j < i ==> #[trigger] self.node_wf(j),
            decreases self.nodes@.len() - i,
        {
            if !self.node_ok(i) {
                return false;
            }
            i = i + 1;
        }
        true
    }
}

} // verus!
