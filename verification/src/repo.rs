//! Repository-level logic: codebase summaries, which files get indexed,
//! and how parsed call edges are resolved to symbols.

use vstd::prelude::*;
use crate::domain::{CallEdge, CallKind, RawCallEdge, Symbol, SymbolId};
use crate::ids::fresh_id;
use crate::parser::registry::{ParserRegistry, path_extension};
use crate::text::{str_eq, texts_of, to_chars};

verus! {

/// High-level summary of a repository's indexed codebase.
#[derive(Debug, Clone)]
pub struct CodebaseSummary {
    pub languages: Vec<String>,
    pub total_symbols: u64,
    pub total_files: u64,
}

// ── Which files get indexed ──────────────────────────────────────────

/// Some directory on path `p` (a component before the last) is hidden:
/// its name starts with a dot.
pub open spec fn under_hidden_dir(p: Seq<char>) -> bool {
    exists|i: int| #[trigger] dot_component_at(p, i) && sep_after(p, i)
}

/// A path component starting with a dot begins at `i`.
pub open spec fn dot_component_at(p: Seq<char>, i: int) -> bool {
    0 <= i < p.len() && p[i] == '.' && (i == 0 || p[i - 1] == '/')
}

/// A separator follows position `i`: the component at `i` is a directory.
pub open spec fn sep_after(p: Seq<char>, i: int) -> bool {
    exists|j: int| i < j < p.len() && #[trigger] p[j] == '/'
}

/// Whether some directory on `path` is hidden.
fn in_hidden_dir(path: &str) -> (r: bool)
    ensures
        r == under_hidden_dir(path@),
{
    let chars = to_chars(path);
    let n = chars.len();
    // the last separator, if any: components after it are not directories
    let mut last_sep: usize = n;
    let mut k: usize = 0;
    while k < n
        invariant
            n == chars@.len(),
            chars@ == path@,
            k <= n,
            last_sep <= n,
            last_sep == n ==> forall|j: int| 0 <= j < k ==> chars@[j] != '/',
            last_sep < n ==> last_sep < k && chars@[last_sep as int] == '/'
                && forall|j: int| last_sep < j < k ==> chars@[j] != '/',
        decreases n - k,
    {
        if chars[k] == '/' {
            last_sep = k;
        }
        k = k + 1;
    }
    if last_sep == n {
        assert forall|x: int| #[trigger] dot_component_at(path@, x) implies !sep_after(path@, x) by {
            if sep_after(path@, x) {
                let j = choose|j: int| x < j < path@.len() && #[trigger] path@[j] == '/';
                assert(chars@[j] != '/');
            }
        }
        return false;
    }
    let mut i: usize = 0;
    while i < last_sep
        invariant
            n == chars@.len(),
            chars@ == path@,
            i <= last_sep,
            last_sep < n,
            chars@[last_sep as int] == '/',
            forall|j: int| last_sep < j < n ==> chars@[j] != '/',
            forall|x: int| 0 <= x < i ==> !#[trigger] dot_component_at(path@, x),
        decreases last_sep - i,
    {
        if chars[i] == '.' && (i == 0 || chars[i - 1] == '/') {
            assert(path@[last_sep as int] == '/');
            assert(dot_component_at(path@, i as int) && sep_after(path@, i as int));
            return true;
        }
        i = i + 1;
    }
    assert forall|x: int| #[trigger] dot_component_at(path@, x) implies !sep_after(path@, x) by {
        if x >= last_sep && sep_after(path@, x) {
            let j = choose|j: int| x < j < path@.len() && #[trigger] path@[j] == '/';
            assert(chars@[j] != '/');
        }
    }
    false
}

/// The files to index among `paths` (relative to the repository root, in
/// the order they were found): those a parser supports that do not lie in
/// a hidden directory (such as `.git`).
pub fn collect_files(paths: &Vec<String>, parser: &ParserRegistry) -> (r: Vec<String>)
    ensures
        texts_of(r@) == texts_of(paths@).filter(|p: Seq<char>| !under_hidden_dir(p)
            && (path_extension(p) matches Some(e) && parser@.contains(e))),
{
    let ghost pv = texts_of(paths@);
    let ghost keep = |p: Seq<char>| !under_hidden_dir(p) && (path_extension(p) matches Some(e) && parser@.contains(e));
    let mut out: Vec<String> = Vec::new();
    let mut i: usize = 0;
    while i < paths.len()
        invariant
            i <= paths@.len(),
            pv == texts_of(paths@),
            keep == (|p: Seq<char>| !under_hidden_dir(p) && (path_extension(p) matches Some(e) && parser@.contains(e))),
            texts_of(out@) == pv.take(i as int).filter(keep),
        decreases paths@.len() - i,
    {
        let p = &paths[i];
        proof {
            reveal(Seq::filter);
            assert(pv.take(i as int + 1).drop_last() =~= pv.take(i as int));
            assert(pv.take(i as int + 1).last() == p@);
        }
        if !in_hidden_dir(p.as_str()) && parser.supports_file(p.as_str()) {
            let ghost prior = texts_of(out@);
            out.push(p.clone());
            assert(texts_of(out@) =~= prior.push(p@));
        }
        i = i + 1;
    }
    assert(pv.take(paths@.len() as int) =~= pv);
    out
}

// ── Call edges ───────────────────────────────────────────────────────

/// The id a name resolves to among `syms`: the last symbol whose name or
/// qualified name it is.
pub open spec fn resolve_name(syms: Seq<Symbol>, n: Seq<char>) -> Option<SymbolId>
    decreases syms.len(),
{
    if syms.len() == 0 {
        None
    } else if syms.last().name@ == n || syms.last().qualified_name@ == n {
        Some(syms.last().id)
    } else {
        resolve_name(syms.drop_last(), n)
    }
}

/// The resolved edges of `raw` (each as repository, caller, callee and
/// kind): raw edges whose caller and callee both resolve, in order.
pub open spec fn resolved_edges(raw: Seq<RawCallEdge>, syms: Seq<Symbol>, repo: u128) -> Seq<(u128, SymbolId, SymbolId, CallKind)>
    decreases raw.len(),
{
    if raw.len() == 0 {
        Seq::empty()
    } else {
        let e = raw.last();
        resolved_edges(raw.drop_last(), syms, repo) + match (resolve_name(syms, e.caller_name@), resolve_name(syms, e.callee_name@)) {
            (Some(a), Some(b)) => seq![(repo, a, b, e.kind)],
            _ => Seq::empty(),
        }
    }
}

pub open spec fn edges_view(v: Seq<CallEdge>) -> Seq<(u128, SymbolId, SymbolId, CallKind)> {
    v.map_values(|e: CallEdge| (e.repo_id, e.caller, e.callee, e.kind))
}

/// Looks a name up among the symbols (see `resolve_name`).
fn lookup_name(syms: &[Symbol], n: &str) -> (r: Option<SymbolId>)
    ensures
        r == resolve_name(syms@, n@),
{
    let mut k: usize = syms.len();
    assert(syms@.take(k as int) =~= syms@);
    while k > 0
        invariant
            k <= syms@.len(),
            resolve_name(syms@, n@) == resolve_name(syms@.take(k as int), n@),
        decreases k,
    {
        assert(syms@.take(k as int).drop_last() =~= syms@.take(k as int - 1));
        let s = &syms[k - 1];
        if str_eq(s.name.as_str(), n) || str_eq(s.qualified_name.as_str(), n) {
            return Some(s.id);
        }
        k = k - 1;
    }
    None
}

/// Resolves parsed call edges (which name their ends) into call edges
/// between symbol ids, each with a fresh id; an edge whose caller or callee
/// resolves to no symbol is dropped.
pub fn resolve_call_edges(raw_edges: &[RawCallEdge], symbols: &[Symbol], repo_id: u128) -> (r: Vec<CallEdge>)
    ensures
        edges_view(r@) == resolved_edges(raw_edges@, symbols@, repo_id),
{
    let mut out: Vec<CallEdge> = Vec::new();
    let mut i: usize = 0;
    while i < raw_edges.len()
        invariant
            i <= raw_edges@.len(),
            edges_view(out@) == resolved_edges(raw_edges@.take(i as int), symbols@, repo_id),
        decreases raw_edges@.len() - i,
    {
        assert(raw_edges@.take(i as int + 1).drop_last() =~= raw_edges@.take(i as int));
        let raw = &raw_edges[i];
        let caller = lookup_name(symbols, raw.caller_name.as_str());
        let callee = lookup_name(symbols, raw.callee_name.as_str());
        let ghost prior = edges_view(out@);
        match (caller, callee) {
            (Some(a), Some(b)) => {
                let e = CallEdge { id: fresh_id(), repo_id, caller: a, callee: b, kind: raw.kind };
                out.push(e);
                assert(edges_view(out@) =~= prior + seq![(repo_id, a, b, raw.kind)]);
            },
            _ => {
                assert(edges_view(out@) =~= prior + Seq::<(u128, SymbolId, SymbolId, CallKind)>::empty());
            },
        }
        i = i + 1;
    }
    assert(raw_edges@.take(raw_edges@.len() as int) =~= raw_edges@);
    out
}

} // verus!
