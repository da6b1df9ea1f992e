//! Delta-based semantic graph of a session, layered on a shared base.
//!
//! The shared base symbol table can be swapped atomically when the
//! repository is re-indexed. Each session keeps its own deltas (added,
//! modified and removed symbols and edges) in concurrent maps and sets.
//! Lookups resolve in order: removed, modified, added, base.

use vstd::prelude::*;
use std::collections::HashMap;
use std::sync::Arc;
use arc_swap::ArcSwap;
use dashmap::{DashMap, DashSet};
use crate::domain::{CallEdge, Symbol, SymbolId, SymbolV};
use crate::text::{same_path, same_path_str, str_eq};

verus! {

/// The shared, atomically replaceable base symbol table a session forks
/// from. Its table is opaque: `ArcSwap`'s default strategy is a type that
/// `arc_swap` keeps private, so the swappable pointer cannot be declared to
/// the verifier, and what the table holds may change through any handle.
#[verifier::external_body]
pub struct SharedBase {
    table: Arc<ArcSwap<HashMap<SymbolId, Symbol>>>,
}

impl SharedBase {
    /// `ArcSwap::from_pointee`: a shared base holding `table`.
    #[verifier::external_body]
    pub fn new(table: HashMap<SymbolId, Symbol>) -> (r: SharedBase) {
        SharedBase { table: Arc::new(ArcSwap::from_pointee(table)) }
    }

    /// `ArcSwap::store`: swaps in a new table for every session sharing this
    /// base.
    #[verifier::external_body]
    pub fn replace(&self, table: HashMap<SymbolId, Symbol>) {
        self.table.store(Arc::new(table))
    }

    /// `Arc::clone`: another handle on the same shared base.
    #[verifier::external_body]
    pub fn share(&self) -> (r: SharedBase) {
        SharedBase { table: self.table.clone() }
    }
}

/// `ArcSwap::load` and `HashMap::get` on the base as it stands at the call:
/// the symbol held under `id`, cloned. What the base holds is up to whoever
/// swaps tables in, so nothing is stated of the result.
#[verifier::external_body]
fn base_lookup(base: &SharedBase, id: SymbolId) -> (r: Option<Symbol>) {
    base.table.load().get(&id).cloned()
}

// ── Symbol tables ────────────────────────────────────────────────────

pub type SymbolMap = DashMap<SymbolId, Symbol>;

pub type SymbolsV = Map<SymbolId, SymbolV>;

/// The symbols a symbol map holds, by id.
pub uninterp spec fn symbols_held(m: SymbolMap) -> SymbolsV;

#[verifier::external_body]
fn symbols_new() -> (m: SymbolMap)
    ensures
        symbols_held(m) == SymbolsV::empty(),
{
    DashMap::new()
}

/// `DashMap::get`, the symbol cloned out of the read guard.
#[verifier::external_body]
fn symbols_get(m: &SymbolMap, id: SymbolId) -> (r: Option<Symbol>)
    ensures
        r is Some <==> symbols_held(*m).dom().contains(id),
        r matches Some(s) ==> s@ == symbols_held(*m)[id],
{
    match m.get(&id) {
        Some(entry) => Some(entry.value().clone()),
        None => None,
    }
}

/// `DashMap::contains_key`.
#[verifier::external_body]
fn symbols_contains(m: &SymbolMap, id: SymbolId) -> (r: bool)
    ensures
        r == symbols_held(*m).dom().contains(id),
{
    m.contains_key(&id)
}

/// `DashMap::insert`.
#[verifier::external_body]
fn symbols_insert(m: &mut SymbolMap, id: SymbolId, s: Symbol)
    ensures
        symbols_held(*final(m)) == symbols_held(*old(m)).insert(id, s@),
{
    m.insert(id, s);
}

/// `DashMap::remove`, returning the removed symbol.
#[verifier::external_body]
fn symbols_remove(m: &mut SymbolMap, id: SymbolId) -> (r: Option<Symbol>)
    ensures
        symbols_held(*final(m)) == symbols_held(*old(m)).remove(id),
        r is Some <==> symbols_held(*old(m)).dom().contains(id),
        r matches Some(s) ==> s@ == symbols_held(*old(m))[id],
{
    match m.remove(&id) {
        Some((_, s)) => Some(s),
        None => None,
    }
}

/// `DashMap::len`.
#[verifier::external_body]
fn symbols_len(m: &SymbolMap) -> (r: usize)
    ensures
        r == symbols_held(*m).dom().len(),
{
    m.len()
}

/// `DashMap::iter`, keeping each entry's id: every id exactly once, in an
/// order the map's hashing decides.
#[verifier::external_body]
fn symbols_ids(m: &SymbolMap) -> (r: Vec<SymbolId>)
    ensures
        r@.no_duplicates(),
        r@.to_set() == symbols_held(*m).dom(),
{
    m.iter().map(|entry| *entry.key()).collect()
}

// ── Id sets ──────────────────────────────────────────────────────────

pub type IdSet = DashSet<u128>;

/// The ids an id set holds.
pub uninterp spec fn ids_held(s: IdSet) -> Set<u128>;

#[verifier::external_body]
fn ids_new() -> (s: IdSet)
    ensures
        ids_held(s) == Set::<u128>::empty(),
{
    DashSet::new()
}

/// `DashSet::insert`.
#[verifier::external_body]
fn ids_insert(s: &mut IdSet, id: u128)
    ensures
        ids_held(*final(s)) == ids_held(*old(s)).insert(id),
{
    s.insert(id);
}

/// `DashSet::contains`.
#[verifier::external_body]
fn ids_contains(s: &IdSet, id: u128) -> (r: bool)
    ensures
        r == ids_held(*s).contains(id),
{
    s.contains(&id)
}

/// `DashSet::len`.
#[verifier::external_body]
fn ids_len(s: &IdSet) -> (r: usize)
    ensures
        r == ids_held(*s).len(),
{
    s.len()
}

/// `DashSet::iter`: every id exactly once, in an order the set's hashing
/// decides.
#[verifier::external_body]
fn ids_list(s: &IdSet) -> (r: Vec<u128>)
    ensures
        r@.no_duplicates(),
        r@.to_set() == ids_held(*s),
{
    s.iter().map(|entry| *entry.key()).collect()
}

// ── Removed-symbol names ─────────────────────────────────────────────

pub type NameMap = DashMap<SymbolId, String>;

pub type NamesV = Map<SymbolId, Seq<char>>;

/// The names a name map holds, by symbol id.
pub uninterp spec fn names_held(m: NameMap) -> NamesV;

#[verifier::external_body]
fn names_new() -> (m: NameMap)
    ensures
        names_held(m) == NamesV::empty(),
{
    DashMap::new()
}

/// `DashMap::insert`.
#[verifier::external_body]
fn names_insert(m: &mut NameMap, id: SymbolId, name: String)
    ensures
        names_held(*final(m)) == names_held(*old(m)).insert(id, name@),
{
    m.insert(id, name);
}

/// `DashMap::get`, the name cloned out of the read guard.
#[verifier::external_body]
fn names_get(m: &NameMap, id: SymbolId) -> (r: Option<String>)
    ensures
        r is Some <==> names_held(*m).dom().contains(id),
        r matches Some(n) ==> n@ == names_held(*m)[id],
{
    match m.get(&id) {
        Some(entry) => Some(entry.value().clone()),
        None => None,
    }
}

/// `DashMap::iter`, keeping each entry's id: every id exactly once.
#[verifier::external_body]
fn names_ids(m: &NameMap) -> (r: Vec<SymbolId>)
    ensures
        r@.no_duplicates(),
        r@.to_set() == names_held(*m).dom(),
{
    m.iter().map(|entry| *entry.key()).collect()
}

// ── Edges ────────────────────────────────────────────────────────────

pub type EdgeMap = DashMap<u128, CallEdge>;

pub type EdgesV = Map<u128, CallEdge>;

/// The edges an edge map holds, by edge id.
pub uninterp spec fn edges_held(m: EdgeMap) -> EdgesV;

#[verifier::external_body]
fn edges_new() -> (m: EdgeMap)
    ensures
        edges_held(m) == EdgesV::empty(),
{
    DashMap::new()
}

/// `DashMap::insert`.
#[verifier::external_body]
fn edges_insert(m: &mut EdgeMap, id: u128, e: CallEdge)
    ensures
        edges_held(*final(m)) == edges_held(*old(m)).insert(id, e),
{
    m.insert(id, e);
}

/// `DashMap::remove`; whether the edge was there.
#[verifier::external_body]
fn edges_remove(m: &mut EdgeMap, id: u128) -> (r: bool)
    ensures
        edges_held(*final(m)) == edges_held(*old(m)).remove(id),
        r == edges_held(*old(m)).dom().contains(id),
{
    m.remove(&id).is_some()
}

/// `DashMap::get`, the edge copied out of the read guard.
#[verifier::external_body]
fn edges_get(m: &EdgeMap, id: u128) -> (r: Option<CallEdge>)
    ensures
        r is Some <==> edges_held(*m).dom().contains(id),
        r matches Some(e) ==> e == edges_held(*m)[id],
{
    match m.get(&id) {
        Some(entry) => Some(*entry.value()),
        None => None,
    }
}

/// `DashMap::iter`, keeping each entry's id: every id exactly once.
#[verifier::external_body]
fn edges_ids(m: &EdgeMap) -> (r: Vec<u128>)
    ensures
        r@.no_duplicates(),
        r@.to_set() == edges_held(*m).dom(),
{
    m.iter().map(|entry| *entry.key()).collect()
}

// ── The graph ────────────────────────────────────────────────────────

/// Abstract session graph: the session's deltas, and whether it has a
/// shared base to fall back on.
#[verifier::ext_equal]
pub struct GraphV {
    pub added: SymbolsV,
    pub modified: SymbolsV,
    pub removed: Set<u128>,
    pub removed_names: NamesV,
    pub edges: EdgesV,
    pub removed_edges: Set<u128>,
    pub has_base: bool,
}

/// A delta-based semantic graph for a single session workspace.
pub struct SessionGraph {
    base_symbols: Option<SharedBase>,
    modified_symbols: SymbolMap,
    added_symbols: SymbolMap,
    removed_symbols: IdSet,
    removed_symbol_names: NameMap,
    added_edges: EdgeMap,
    removed_edges: IdSet,
}

impl View for SessionGraph {
    type V = GraphV;

    closed spec fn view(&self) -> GraphV {
        GraphV {
            added: symbols_held(self.added_symbols),
            modified: symbols_held(self.modified_symbols),
            removed: ids_held(self.removed_symbols),
            removed_names: names_held(self.removed_symbol_names),
            edges: edges_held(self.added_edges),
            removed_edges: ids_held(self.removed_edges),
            has_base: self.base_symbols is Some,
        }
    }
}

/// A graph with no deltas.
pub open spec fn no_deltas(g: GraphV) -> bool {
    &&& g.added == SymbolsV::empty()
    &&& g.modified == SymbolsV::empty()
    &&& g.removed == Set::<u128>::empty()
    &&& g.removed_names == NamesV::empty()
    &&& g.edges == EdgesV::empty()
    &&& g.removed_edges == Set::<u128>::empty()
}

/// The graph after `add_symbol(s)`.
pub open spec fn add_spec(g: GraphV, s: SymbolV) -> GraphV {
    GraphV { added: g.added.insert(s.id, s), ..g }
}

/// The graph after `modify_symbol(s)`: a symbol added in this session is
/// updated in place; any other is recorded as modified.
pub open spec fn modify_spec(g: GraphV, s: SymbolV) -> GraphV {
    if g.added.dom().contains(s.id) {
        GraphV { added: g.added.insert(s.id, s), ..g }
    } else {
        GraphV { modified: g.modified.insert(s.id, s), ..g }
    }
}

/// The graph after `remove_symbol(id)`, where `looked_up` is the name the
/// shared base gave for `id`, if it was asked: a symbol added in this
/// session is just dropped; any other is marked removed, its name kept
/// from its modified version or else from the base.
pub open spec fn remove_spec(g: GraphV, id: SymbolId, looked_up: Option<Seq<char>>) -> GraphV {
    if g.added.dom().contains(id) {
        GraphV { added: g.added.remove(id), ..g }
    } else {
        let names = if g.modified.dom().contains(id) {
            g.removed_names.insert(id, g.modified[id].qualified_name)
        } else {
            match looked_up {
                Some(n) => g.removed_names.insert(id, n),
                None => g.removed_names,
            }
        };
        GraphV { modified: g.modified.remove(id), removed: g.removed.insert(id), removed_names: names, ..g }
    }
}

/// What the session delta says of symbol `id`: `Some(None)` when it was
/// removed in this session, `Some(Some(s))` for the session's own version
/// (modified before added), `None` when the lookup falls through to the
/// shared base.
pub open spec fn delta_lookup(g: GraphV, id: SymbolId) -> Option<Option<SymbolV>> {
    if g.removed.contains(id) {
        Some(None)
    } else if g.modified.dom().contains(id) {
        Some(Some(g.modified[id]))
    } else if g.added.dom().contains(id) {
        Some(Some(g.added[id]))
    } else {
        None
    }
}

pub open spec fn symbol_opt_view(r: Option<Symbol>) -> Option<SymbolV> {
    match r {
        Some(s) => Some(s@),
        None => None,
    }
}

/// A base lookup can only have answered when there is a base.
pub open spec fn lookup_allowed(g: GraphV, looked_up: Option<Seq<char>>) -> bool {
    looked_up is Some ==> g.has_base
}

/// `ids` lists the ids of `s`, each once.
pub open spec fn lists(ids: Seq<u128>, s: Set<u128>) -> bool {
    ids.no_duplicates() && ids.to_set() == s
}

/// Qualified names of the symbols `ids` of `m`, in order.
pub open spec fn qualified_names_of(m: SymbolsV, ids: Seq<u128>) -> Seq<Seq<char>>
    decreases ids.len(),
{
    if ids.len() == 0 {
        Seq::empty()
    } else {
        qualified_names_of(m, ids.drop_last()).push(m[ids.last()].qualified_name)
    }
}

/// Names of the removed symbols `ids`: what the base gave (`found`), else the
/// cached name, else nothing.
pub open spec fn removed_names_of(g: GraphV, ids: Seq<u128>, found: Seq<Option<Seq<char>>>) -> Seq<Seq<char>>
    decreases ids.len(),
{
    if ids.len() == 0 || found.len() != ids.len() {
        Seq::empty()
    } else {
        removed_names_of(g, ids.drop_last(), found.drop_last()) + match found.last() {
            Some(n) => seq![n],
            None => if g.removed_names.dom().contains(ids.last()) {
                seq![g.removed_names[ids.last()]]
            } else {
                Seq::empty()
            },
        }
    }
}

/// Plain names of the symbols `ids` of `m` that live in file `path`.
pub open spec fn file_names(m: SymbolsV, ids: Seq<u128>, path: Seq<char>) -> Seq<Seq<char>>
    decreases ids.len(),
{
    if ids.len() == 0 {
        Seq::empty()
    } else {
        file_names(m, ids.drop_last(), path) + if same_path(m[ids.last()].file_path, path) {
            seq![m[ids.last()].name]
        } else {
            Seq::empty()
        }
    }
}

/// The graph once every session-owned symbol of file `path` is dropped
/// from the delta: the added and modified symbols of the file go, and
/// nothing else changes (no symbol is marked removed).
pub open spec fn without_file(g: GraphV, path: Seq<char>) -> GraphV {
    GraphV {
        added: Map::new(|id: u128| g.added.dom().contains(id) && !same_path(g.added[id].file_path, path), |id: u128| g.added[id]),
        modified: Map::new(|id: u128| g.modified.dom().contains(id) && !same_path(g.modified[id].file_path, path), |id: u128| g.modified[id]),
        ..g
    }
}

/// The last symbol of `bs` with qualified name `n`.
pub open spec fn last_named(bs: Seq<SymbolV>, n: Seq<char>) -> Option<SymbolV>
    decreases bs.len(),
{
    if bs.len() == 0 {
        None
    } else if bs.last().qualified_name == n {
        Some(bs.last())
    } else {
        last_named(bs.drop_last(), n)
    }
}

/// Whether some symbol of `ss` has qualified name `n`.
pub open spec fn named_in(ss: Seq<SymbolV>, n: Seq<char>) -> bool {
    exists|i: int| 0 <= i < ss.len() && ss[i].qualified_name == n
}

/// A new version of a base symbol that counts as a modification.
pub open spec fn differs(a: SymbolV, b: SymbolV) -> bool {
    a.span != b.span || a.signature != b.signature || a.kind != b.kind || a.visibility != b.visibility
}

/// The graph after the first `n` freshly parsed symbols are classified
/// against the base symbols of their file: unknown names are added, known
/// ones that differ are modified.
pub open spec fn apply_new(g: GraphV, news: Seq<SymbolV>, bases: Seq<SymbolV>, n: int) -> GraphV
    decreases n,
{
    if n <= 0 || n > news.len() {
        g
    } else {
        let g1 = apply_new(g, news, bases, n - 1);
        let s = news[n - 1];
        match last_named(bases, s.qualified_name) {
            Some(b) => if differs(s, b) { modify_spec(g1, s) } else { g1 },
            None => add_spec(g1, s),
        }
    }
}

/// The graph after the first `n` base symbols of a file are checked: those
/// whose name no longer occurs are removed, `looked[i]` being what the
/// shared base gave for the i-th.
pub open spec fn apply_removals(g: GraphV, news: Seq<SymbolV>, bases: Seq<SymbolV>, looked: Seq<Option<Seq<char>>>, n: int) -> GraphV
    decreases n,
{
    if n <= 0 || n > bases.len() {
        g
    } else {
        let g1 = apply_removals(g, news, bases, looked, n - 1);
        let b = bases[n - 1];
        if named_in(news, b.qualified_name) { g1 } else { remove_spec(g1, b.id, looked[n - 1]) }
    }
}

pub open spec fn symbols_view(v: Seq<Symbol>) -> Seq<SymbolV> {
    v.map_values(|s: Symbol| s@)
}

pub open spec fn texts(v: Seq<String>) -> Seq<Seq<char>> {
    v.map_values(|s: String| s@)
}

/// `names` are the names of the symbols of file `path` that graph `g`
/// added, then those it modified, each group in some order of its map.
pub open spec fn changed_in_file(g: GraphV, path: Seq<char>, names: Seq<Seq<char>>) -> bool {
    exists|ka: Seq<u128>, km: Seq<u128>|
        #![trigger lists(ka, g.added.dom()), lists(km, g.modified.dom())]
        lists(ka, g.added.dom()) && lists(km, g.modified.dom())
        && names == file_names(g.added, ka, path) + file_names(g.modified, km, path)
}

proof fn lemma_lists_step(ids: Seq<u128>, s: Set<u128>, i: int)
    requires
        lists(ids, s),
        0 <= i < ids.len(),
    ensures
        s.contains(ids[i]),
        ids.take(i + 1).drop_last() == ids.take(i),
        ids.take(i + 1).last() == ids[i],
{
    assert(ids.to_set().contains(ids[i]));
    assert(ids.take(i + 1).drop_last() =~= ids.take(i));
}

proof fn lemma_take_contains(s: Seq<u128>, i: int, x: u128)
    requires
        0 <= i < s.len(),
    ensures
        s.take(i + 1).contains(x) <==> (s.take(i).contains(x) || x == s[i]),
{
    let post = s.take(i + 1);
    let pre = s.take(i);
    if post.contains(x) {
        let j = choose|j: int| 0 <= j < post.len() && post[j] == x;
        if j < i {
            assert(pre[j] == x);
        }
    }
    if pre.contains(x) {
        let j = choose|j: int| 0 <= j < pre.len() && pre[j] == x;
        assert(post[j] == x);
    }
    if x == s[i] {
        assert(post[i] == x);
    }
}

/// Dropping a deleted file's session symbols takes them out of the delta
/// without marking anything removed: a symbol of the file that the session
/// had modified is looked up in the base again, and one it had added is
/// gone.
pub proof fn lemma_dropped_file_falls_back(g: GraphV, path: Seq<char>, id: u128)
    requires
        !g.removed.contains(id),
        (g.modified.dom().contains(id) && same_path(g.modified[id].file_path, path))
            || (g.added.dom().contains(id) && same_path(g.added[id].file_path, path)),
        !(g.modified.dom().contains(id) && g.added.dom().contains(id)),
    ensures
        delta_lookup(without_file(g, path), id) is None,
        without_file(g, path).removed == g.removed,
{
}

/// A symbol added in this session is what a lookup of its id gives, unless
/// the id was already removed or modified in this session.
pub proof fn lemma_add_then_lookup(g: GraphV, s: SymbolV)
    requires
        !g.removed.contains(s.id),
        !g.modified.dom().contains(s.id),
    ensures
        delta_lookup(add_spec(g, s), s.id) == Some(Some(s)),
{
}

/// Modifying a symbol added in this session updates it in place: the
/// lookup gives the new version, and nothing is recorded as modified.
pub proof fn lemma_modify_added_in_place(g: GraphV, s: SymbolV, s2: SymbolV)
    requires
        s2.id == s.id,
        !g.removed.contains(s.id),
        !g.modified.dom().contains(s.id),
    ensures
        delta_lookup(modify_spec(add_spec(g, s), s2), s.id) == Some(Some(s2)),
        modify_spec(add_spec(g, s), s2).modified == g.modified,
{
}

/// Removing a symbol the session did not add hides it, whatever the base
/// holds: the lookup answers that it is gone.
pub proof fn lemma_remove_hides(g: GraphV, id: SymbolId, n: Option<Seq<char>>)
    requires
        !g.added.dom().contains(id),
    ensures
        delta_lookup(remove_spec(g, id, n), id) == Some(None::<SymbolV>),
{
}

/// Removing a symbol the session added undoes the addition: the session
/// delta is as before the addition.
pub proof fn lemma_remove_undoes_add(g: GraphV, s: SymbolV, n: Option<Seq<char>>)
    requires
        !g.added.dom().contains(s.id),
    ensures
        remove_spec(add_spec(g, s), s.id, n) == g,
{
    assert(remove_spec(add_spec(g, s), s.id, n).added =~= g.added);
    assert(remove_spec(add_spec(g, s), s.id, n) =~= g);
}

/// The session delta flattened into lists, ready to be serialised; the
/// shared base is not part of it.
pub struct GraphSnapshot {
    pub modified_symbols: Vec<(SymbolId, Symbol)>,
    pub added_symbols: Vec<(SymbolId, Symbol)>,
    pub removed_symbols: Vec<SymbolId>,
    pub removed_symbol_names: Vec<(SymbolId, String)>,
    pub added_edges: Vec<(u128, CallEdge)>,
    pub removed_edges: Vec<u128>,
}

pub open spec fn symbol_pairs_view(v: Seq<(SymbolId, Symbol)>) -> Seq<(SymbolId, SymbolV)> {
    v.map_values(|p: (SymbolId, Symbol)| (p.0, p.1@))
}

pub open spec fn name_pairs_view(v: Seq<(SymbolId, String)>) -> Seq<(SymbolId, Seq<char>)> {
    v.map_values(|p: (SymbolId, String)| (p.0, p.1@))
}

/// The map built by inserting `pairs` in order (a later key wins).
pub open spec fn map_from<V>(pairs: Seq<(u128, V)>) -> Map<u128, V>
    decreases pairs.len(),
{
    if pairs.len() == 0 {
        Map::empty()
    } else {
        map_from(pairs.drop_last()).insert(pairs.last().0, pairs.last().1)
    }
}

/// `pairs` lists map `m`: every key once, each with its value.
pub open spec fn lists_map<V>(pairs: Seq<(u128, V)>, m: Map<u128, V>) -> bool {
    &&& lists(pairs.map_values(|p: (u128, V)| p.0), m.dom())
    &&& forall|i: int| 0 <= i < pairs.len() ==> m[(#[trigger] pairs[i]).0] == pairs[i].1
}

proof fn lemma_lists_map_step<V>(pairs: Seq<(u128, V)>, m: Map<u128, V>, i: int)
    requires
        lists_map(pairs, m),
        0 <= i < pairs.len(),
    ensures
        m.dom().contains(pairs[i].0),
        m[pairs[i].0] == pairs[i].1,
{
    let ks = pairs.map_values(|p: (u128, V)| p.0);
    assert(ks[i] == pairs[i].0);
    assert(ks.to_set().contains(ks[i]));
}

/// Inserting, in order, pairs that list a map rebuilds that map.
proof fn lemma_map_from_listed<V>(pairs: Seq<(u128, V)>, m: Map<u128, V>)
    requires
        lists_map(pairs, m),
    ensures
        map_from(pairs) == m,
    decreases pairs.len(),
{
    let ks = pairs.map_values(|p: (u128, V)| p.0);
    if pairs.len() == 0 {
        assert(m.dom() =~= Set::<u128>::empty()) by {
            assert(ks =~= Seq::<u128>::empty());
        }
        assert(m =~= Map::<u128, V>::empty());
    } else {
        let last = pairs.last();
        let init = pairs.drop_last();
        let m2 = m.remove(last.0);
        let ki = init.map_values(|p: (u128, V)| p.0);
        assert(ki =~= ks.drop_last());
        assert(ks[ks.len() - 1] == last.0);
        assert forall|a: int, b: int| 0 <= a < b < ki.len() implies ki[a] != ki[b] by {
            assert(ks[a] == ki[a] && ks[b] == ki[b]);
        }
        assert forall|x: u128| ki.to_set().contains(x) <==> m2.dom().contains(x) by {
            if ki.to_set().contains(x) {
                let j = choose|j: int| 0 <= j < ki.len() && ki[j] == x;
                assert(ks[j] == x);
                assert(ks.to_set().contains(x));
                assert(j != ks.len() - 1);
            }
            if m2.dom().contains(x) {
                assert(ks.to_set().contains(x));
                let j = choose|j: int| 0 <= j < ks.len() && ks[j] == x;
                assert(j != ks.len() - 1);
                assert(ki[j] == x);
            }
        }
        assert(ki.to_set() =~= m2.dom());
        assert forall|i: int| 0 <= i < init.len() implies m2[(#[trigger] init[i]).0] == init[i].1 by {
            assert(ks[i] == init[i].0);
            assert(pairs[i] == init[i]);
        }
        lemma_map_from_listed(init, m2);
        lemma_lists_map_step(pairs, m, pairs.len() - 1);
        assert(map_from(pairs) =~= m);
    }
}

/// A snapshot of a session graph restores its delta: the maps and sets that
/// `from_snapshot` builds from what `to_snapshot` listed are the graph's own.
pub proof fn lemma_snapshot_roundtrip(g: GraphV, s: GraphSnapshot)
    requires
        lists_map(symbol_pairs_view(s.modified_symbols@), g.modified),
        lists_map(symbol_pairs_view(s.added_symbols@), g.added),
        lists(s.removed_symbols@, g.removed),
        lists_map(name_pairs_view(s.removed_symbol_names@), g.removed_names),
        lists_map(s.added_edges@, g.edges),
        lists(s.removed_edges@, g.removed_edges),
    ensures
        map_from(symbol_pairs_view(s.modified_symbols@)) == g.modified,
        map_from(symbol_pairs_view(s.added_symbols@)) == g.added,
        s.removed_symbols@.to_set() == g.removed,
        map_from(name_pairs_view(s.removed_symbol_names@)) == g.removed_names,
        map_from(s.added_edges@) == g.edges,
        s.removed_edges@.to_set() == g.removed_edges,
{
    lemma_map_from_listed(symbol_pairs_view(s.modified_symbols@), g.modified);
    lemma_map_from_listed(symbol_pairs_view(s.added_symbols@), g.added);
    lemma_map_from_listed(name_pairs_view(s.removed_symbol_names@), g.removed_names);
    lemma_map_from_listed(s.added_edges@, g.edges);
}

proof fn lemma_apply_removals_prefix(g: GraphV, news: Seq<SymbolV>, bases: Seq<SymbolV>, looked: Seq<Option<Seq<char>>>, n: int)
    requires
        0 <= n < bases.len(),
        n < looked.len(),
    ensures
        apply_removals(g, news, bases, looked, n) == apply_removals(g, news, bases, looked.take(n), n),
    decreases n,
{
    if n > 0 {
        lemma_apply_removals_prefix(g, news, bases, looked, n - 1);
        lemma_apply_removals_prefix(g, news, bases, looked.take(n), n - 1);
        assert(looked.take(n).take(n - 1) =~= looked.take(n - 1));
    }
}

/// Qualified-name equality of two optional texts.
fn opt_text_eq(a: &Option<String>, b: &Option<String>) -> (r: bool)
    ensures
        r == (crate::domain::opt_text(*a) == crate::domain::opt_text(*b)),
{
    match (a, b) {
        (Some(x), Some(y)) => str_eq(x.as_str(), y.as_str()),
        (None, None) => true,
        _ => false,
    }
}

/// The index of the last symbol of `bs` named `name`.
fn find_last_named(bs: &[Symbol], name: &str) -> (r: Option<usize>)
    ensures
        match r {
            Some(j) => j < bs@.len() && last_named(symbols_view(bs@), name@) == Some(bs@[j as int]@),
            None => last_named(symbols_view(bs@), name@) is None,
        },
{
    let ghost bv = symbols_view(bs@);
    let mut k: usize = bs.len();
    assert(bv.take(k as int) =~= bv);
    while k > 0
        invariant
            k <= bs@.len(),
            bv == symbols_view(bs@),
            last_named(bv, name@) == last_named(bv.take(k as int), name@),
        decreases k,
    {
        assert(bv.take(k as int).drop_last() =~= bv.take(k as int - 1));
        assert(bv.take(k as int).last() == bs@[k as int - 1]@);
        if str_eq(bs[k - 1].qualified_name.as_str(), name) {
            return Some(k - 1);
        }
        k = k - 1;
    }
    None
}

/// Whether some symbol of `ss` is named `name`.
fn has_named(ss: &Vec<Symbol>, name: &str) -> (r: bool)
    ensures
        r == named_in(symbols_view(ss@), name@),
{
    let ghost sv = symbols_view(ss@);
    let mut i: usize = 0;
    while i < ss.len()
        invariant
            i <= ss@.len(),
            sv == symbols_view(ss@),
            forall|j: int| 0 <= j < i ==> sv[j].qualified_name != name@,
        decreases ss@.len() - i,
    {
        if str_eq(ss[i].qualified_name.as_str(), name) {
            assert(sv[i as int].qualified_name == name@);
            return true;
        }
        i = i + 1;
    }
    false
}

/// The ids of the symbols of `m` that live in file `path`, each once.
fn ids_in_file(m: &SymbolMap, path: &str) -> (r: Vec<u128>)
    ensures
        r@.no_duplicates(),
        r@.to_set() == Set::new(|id: u128| symbols_held(*m).dom().contains(id) && same_path(symbols_held(*m)[id].file_path, path@)),
{
    let ids = symbols_ids(m);
    let ghost h = symbols_held(*m);
    let mut out: Vec<u128> = Vec::new();
    let mut i: usize = 0;
    while i < ids.len()
        invariant
            i <= ids@.len(),
            h == symbols_held(*m),
            lists(ids@, h.dom()),
            out@.no_duplicates(),
            forall|x: u128| out@.contains(x) <==> (ids@.take(i as int).contains(x) && same_path(h[x].file_path, path@)),
        decreases ids@.len() - i,
    {
        let id = ids[i];
        proof {
            lemma_lists_step(ids@, h.dom(), i as int);
            assert forall|x: u128| ids@.take(i as int + 1).contains(x) <==> (ids@.take(i as int).contains(x) || x == id) by {
                lemma_take_contains(ids@, i as int, x);
            }
            assert(!ids@.take(i as int).contains(id)) by {
                if ids@.take(i as int).contains(id) {
                    let j = choose|j: int| 0 <= j < i && ids@.take(i as int)[j] == id;
                    assert(ids@[j] == ids@[i as int]);
                }
            }
        }
        let ghost prior0 = out@;
        match symbols_get(m, id) {
            Some(sym) => {
                assert(sym@ == h[id]);
                if same_path_str(sym.file_path.as_str(), path) {
                    let ghost prior = out@;
                    assert(!prior.contains(id));
                    out.push(id);
                    assert(out@.no_duplicates()) by {
                        assert forall|a: int, b: int| 0 <= a < out@.len() && 0 <= b < out@.len() && a != b implies out@[a] != out@[b] by {
                            if a < prior.len() && b < prior.len() {
                                assert(prior[a] != prior[b]);
                            } else if a < prior.len() {
                                assert(prior.contains(prior[a]));
                            } else if b < prior.len() {
                                assert(prior.contains(prior[b]));
                            }
                        }
                    }
                    assert forall|x: u128| out@.contains(x) <==> (prior.contains(x) || x == id) by {
                        if out@.contains(x) {
                            let j = choose|j: int| 0 <= j < out@.len() && out@[j] == x;
                            if j < prior.len() {
                                assert(prior[j] == x);
                            }
                        }
                        if prior.contains(x) {
                            let j = choose|j: int| 0 <= j < prior.len() && prior[j] == x;
                            assert(out@[j] == x);
                        }
                        if x == id {
                            assert(out@[prior.len() as int] == x);
                        }
                    }
                } else {
                    assert(!same_path(h[id].file_path, path@));
                }
            },
            None => {
                assert(false);
            },
        }
        assert forall|x: u128| out@.contains(x) <==> (prior0.contains(x) || (x == id && same_path(h[id].file_path, path@))) by {
            if out@.contains(x) {
                let j = choose|j: int| 0 <= j < out@.len() && out@[j] == x;
                if j < prior0.len() {
                    assert(prior0[j] == x);
                }
            }
            if prior0.contains(x) {
                let j = choose|j: int| 0 <= j < prior0.len() && prior0[j] == x;
                assert(out@[j] == x);
            }
        }
        assert forall|x: u128| out@.contains(x) <==> (ids@.take(i as int + 1).contains(x) && same_path(h[x].file_path, path@)) by {
            lemma_take_contains(ids@, i as int, x);
            assert(prior0.contains(x) <==> (ids@.take(i as int).contains(x) && same_path(h[x].file_path, path@)));
        }
        i = i + 1;
    }
    assert(ids@.take(ids@.len() as int) =~= ids@);
    assert(out@.to_set() =~= Set::new(|id: u128| h.dom().contains(id) && same_path(h[id].file_path, path@))) by {
        assert forall|x: u128| out@.to_set().contains(x) implies h.dom().contains(x) by {
            assert(ids@.contains(x));
            assert(ids@.to_set().contains(x));
        }
        assert forall|x: u128| h.dom().contains(x) && same_path(h[x].file_path, path@) implies out@.contains(x) by {
            assert(ids@.to_set().contains(x));
        }
    }
    out
}

impl SessionGraph {
    /// An empty session graph with no shared base.
    pub fn empty() -> (g: Self)
        ensures
            no_deltas(g@),
            !g@.has_base,
    {
        SessionGraph {
            base_symbols: None,
            modified_symbols: symbols_new(),
            added_symbols: symbols_new(),
            removed_symbols: ids_new(),
            removed_symbol_names: names_new(),
            added_edges: edges_new(),
            removed_edges: ids_new(),
        }
    }

    /// A graph forked from a shared base symbol table, with no deltas yet.
    pub fn fork_from(base: SharedBase) -> (g: Self)
        ensures
            no_deltas(g@),
            g@.has_base,
    {
        SessionGraph {
            base_symbols: Some(base),
            modified_symbols: symbols_new(),
            added_symbols: symbols_new(),
            removed_symbols: ids_new(),
            removed_symbol_names: names_new(),
            added_edges: edges_new(),
            removed_edges: ids_new(),
        }
    }

    /// Looks up a symbol through the session delta: removed in this session
    /// gives `None`; then the modified version, then the added one; then the
    /// shared base, if any.
    pub fn get_symbol(&self, id: SymbolId) -> (r: Option<Symbol>)
        ensures
            match delta_lookup(self@, id) {
                Some(v) => symbol_opt_view(r) == v,
                None => !self@.has_base ==> r is None,
            },
    {
        if ids_contains(&self.removed_symbols, id) {
            return None;
        }
        match symbols_get(&self.modified_symbols, id) {
            Some(s) => return Some(s),
            None => {},
        }
        match symbols_get(&self.added_symbols, id) {
            Some(s) => return Some(s),
            None => {},
        }
        match &self.base_symbols {
            Some(base) => base_lookup(base, id),
            None => None,
        }
    }

    /// Adds a new symbol to this session.
    pub fn add_symbol(&mut self, symbol: Symbol)
        ensures
            final(self)@ == add_spec(old(self)@, symbol@),
    {
        let id = symbol.id;
        symbols_insert(&mut self.added_symbols, id, symbol);
    }

    /// Modifies an existing symbol (from the base or added earlier).
    pub fn modify_symbol(&mut self, symbol: Symbol)
        ensures
            final(self)@ == modify_spec(old(self)@, symbol@),
    {
        let id = symbol.id;
        if symbols_contains(&self.added_symbols, id) {
            symbols_insert(&mut self.added_symbols, id, symbol);
        } else {
            symbols_insert(&mut self.modified_symbols, id, symbol);
        }
    }

    /// Removes a symbol from the session view (see `remove_spec`); the name
    /// of a base symbol is cached as the base gives it at the call.
    pub fn remove_symbol(&mut self, id: SymbolId)
        ensures
            exists|n: Option<Seq<char>>| lookup_allowed(old(self)@, n) && final(self)@ == remove_spec(old(self)@, id, n),
    {
        let ghost g0 = self@;
        if symbols_remove(&mut self.added_symbols, id).is_some() {
            assert(self@ =~= remove_spec(g0, id, None));
            assert(lookup_allowed(g0, None));
            return;
        }
        let mut looked: Option<String> = None;
        match symbols_remove(&mut self.modified_symbols, id) {
            Some(sym) => {
                names_insert(&mut self.removed_symbol_names, id, sym.qualified_name);
            },
            None => {
                match &self.base_symbols {
                    Some(base) => {
                        match base_lookup(base, id) {
                            Some(sym) => {
                                looked = Some(sym.qualified_name.clone());
                                names_insert(&mut self.removed_symbol_names, id, sym.qualified_name);
                            },
                            None => {},
                        }
                    },
                    None => {},
                }
            },
        }
        ids_insert(&mut self.removed_symbols, id);
        let ghost n = match looked { Some(s) => Some(s@), None => None };
        assert(lookup_allowed(g0, n));
        assert(self@ =~= remove_spec(g0, id, n));
    }

    /// Adds a call edge.
    pub fn add_edge(&mut self, edge: CallEdge)
        ensures
            final(self)@ == (GraphV { edges: old(self)@.edges.insert(edge.id, edge), ..old(self)@ }),
    {
        edges_insert(&mut self.added_edges, edge.id, edge);
    }

    /// Removes a call edge: one added in this session is dropped, any other
    /// is marked removed.
    pub fn remove_edge(&mut self, edge_id: u128)
        ensures
            final(self)@ == (if old(self)@.edges.dom().contains(edge_id) {
                GraphV { edges: old(self)@.edges.remove(edge_id), ..old(self)@ }
            } else {
                GraphV { removed_edges: old(self)@.removed_edges.insert(edge_id), ..old(self)@ }
            }),
    {
        let ghost g0 = self@;
        if edges_remove(&mut self.added_edges, edge_id) {
            assert(self@ =~= GraphV { edges: g0.edges.remove(edge_id), ..g0 });
            return;
        }
        assert(self@.edges =~= g0.edges);
        ids_insert(&mut self.removed_edges, edge_id);
        assert(self@ =~= GraphV { removed_edges: g0.removed_edges.insert(edge_id), ..g0 });
    }

    /// The edge added in this session under `edge_id`, unless it is marked
    /// removed.
    pub fn get_edge(&self, edge_id: u128) -> (r: Option<CallEdge>)
        ensures
            r == (if !self@.removed_edges.contains(edge_id) && self@.edges.dom().contains(edge_id) {
                Some(self@.edges[edge_id])
            } else {
                None
            }),
    {
        if ids_contains(&self.removed_edges, edge_id) {
            return None;
        }
        edges_get(&self.added_edges, edge_id)
    }

    /// Whether the edge is marked removed in this session.
    pub fn is_edge_removed(&self, edge_id: u128) -> (r: bool)
        ensures
            r == self@.removed_edges.contains(edge_id),
    {
        ids_contains(&self.removed_edges, edge_id)
    }

    /// The qualified names of the symbols of `m`, in an order the map
    /// decides, with that order.
    fn qualified_names(m: &SymbolMap) -> (r: (Vec<String>, Ghost<Seq<u128>>))
        ensures
            lists(r.1@, symbols_held(*m).dom()),
            texts(r.0@) == qualified_names_of(symbols_held(*m), r.1@),
    {
        let ids = symbols_ids(m);
        let ghost h = symbols_held(*m);
        let mut out: Vec<String> = Vec::new();
        let mut i: usize = 0;
        while i < ids.len()
            invariant
                i <= ids@.len(),
                h == symbols_held(*m),
                lists(ids@, h.dom()),
                texts(out@) == qualified_names_of(h, ids@.take(i as int)),
            decreases ids@.len() - i,
        {
            proof {
                lemma_lists_step(ids@, h.dom(), i as int);
            }
            match symbols_get(m, ids[i]) {
                Some(sym) => {
                    let ghost prior = out@;
                    out.push(sym.qualified_name);
                    assert(texts(out@) =~= texts(prior).push(h[ids@[i as int]].qualified_name));
                },
                None => {},
            }
            i = i + 1;
        }
        assert(ids@.take(ids@.len() as int) =~= ids@);
        (out, Ghost(ids@))
    }

    /// The names of all symbols changed in this session: added ones, then
    /// modified ones, then removed ones (named by the base when it knows
    /// them, else by the name cached at removal). Within each group the
    /// order is the one the maps hand out.
    pub fn changed_symbol_names(&self) -> (r: Vec<String>)
        ensures
            exists|ka: Seq<u128>, km: Seq<u128>, kr: Seq<u128>, found: Seq<Option<Seq<char>>>|
                #![trigger lists(ka, self@.added.dom()), lists(km, self@.modified.dom()), removed_names_of(self@, kr, found)]
                lists(ka, self@.added.dom()) && lists(km, self@.modified.dom()) && lists(kr, self@.removed)
                && found.len() == kr.len()
                && (!self@.has_base ==> forall|i: int| 0 <= i < found.len() ==> found[i] is None)
                && texts(r@) == qualified_names_of(self@.added, ka) + qualified_names_of(self@.modified, km)
                    + removed_names_of(self@, kr, found),
    {
        let (mut names, Ghost(ka)) = Self::qualified_names(&self.added_symbols);
        let (mut more, Ghost(km)) = Self::qualified_names(&self.modified_symbols);
        let ghost head = texts(names@) + texts(more@);
        names.append(&mut more);
        assert(texts(names@) =~= head);
        let kr = ids_list(&self.removed_symbols);
        let ghost g = self@;
        let ghost mut found: Seq<Option<Seq<char>>> = Seq::empty();
        let mut i: usize = 0;
        while i < kr.len()
            invariant
                i <= kr@.len(),
                g == self@,
                lists(kr@, g.removed),
                found.len() == i,
                !g.has_base ==> forall|j: int| 0 <= j < found.len() ==> found[j] is None,
                texts(names@) == head + removed_names_of(g, kr@.take(i as int), found),
            decreases kr@.len() - i,
        {
            let id = kr[i];
            proof {
                lemma_lists_step(kr@, g.removed, i as int);
            }
            let from_base = match &self.base_symbols {
                Some(base) => match base_lookup(base, id) {
                    Some(sym) => Some(sym.qualified_name),
                    None => None,
                },
                None => None,
            };
            let ghost prior = texts(names@);
            let ghost f = match &from_base { Some(n) => Some(n@), None => None };
            match from_base {
                Some(n) => {
                    let ghost nv = n@;
                    names.push(n);
                    assert(texts(names@) =~= prior.push(nv));
                },
                None => {
                    match names_get(&self.removed_symbol_names, id) {
                        Some(n) => {
                            let ghost nv = n@;
                            names.push(n);
                            assert(texts(names@) =~= prior.push(nv));
                        },
                        None => {},
                    }
                },
            }
            proof {
                let old_found = found;
                found = found.push(f);
                assert(found.drop_last() =~= old_found);
            }
            assert(texts(names@) =~= head + removed_names_of(g, kr@.take(i as int + 1), found));
            i = i + 1;
        }
        assert(kr@.take(kr@.len() as int) =~= kr@);
        assert(lists(ka, g.added.dom()) && lists(km, g.modified.dom()) && lists(kr@, g.removed)
            && found.len() == kr@.len()
            && (!g.has_base ==> forall|i: int| 0 <= i < found.len() ==> found[i] is None)
            && texts(names@) == qualified_names_of(g.added, ka) + qualified_names_of(g.modified, km)
                + removed_names_of(g, kr@, found));
        names
    }

    /// The plain names of the symbols of `m` that live in file `path`, in
    /// an order the map decides, with that order.
    fn names_in_file(m: &SymbolMap, path: &str) -> (r: (Vec<String>, Ghost<Seq<u128>>))
        ensures
            lists(r.1@, symbols_held(*m).dom()),
            texts(r.0@) == file_names(symbols_held(*m), r.1@, path@),
    {
        let ids = symbols_ids(m);
        let ghost h = symbols_held(*m);
        let mut out: Vec<String> = Vec::new();
        let mut i: usize = 0;
        while i < ids.len()
            invariant
                i <= ids@.len(),
                h == symbols_held(*m),
                lists(ids@, h.dom()),
                texts(out@) == file_names(h, ids@.take(i as int), path@),
            decreases ids@.len() - i,
        {
            proof {
                lemma_lists_step(ids@, h.dom(), i as int);
            }
            match symbols_get(m, ids[i]) {
                Some(sym) => {
                    if same_path_str(sym.file_path.as_str(), path) {
                        let ghost prior = out@;
                        out.push(sym.name);
                        assert(texts(out@) =~= texts(prior).push(h[ids@[i as int]].name));
                    }
                },
                None => {},
            }
            assert(texts(out@) =~= file_names(h, ids@.take(i as int + 1), path@));
            i = i + 1;
        }
        assert(ids@.take(ids@.len() as int) =~= ids@);
        (out, Ghost(ids@))
    }

    /// The names of the symbols this session added or modified in file
    /// `file_path`: added ones first, then modified ones, each group in the
    /// order its map hands out.
    pub fn changed_symbols_for_file(&self, file_path: &str) -> (r: Vec<String>)
        ensures
            changed_in_file(self@, file_path@, texts(r@)),
    {
        let (mut names, Ghost(ka)) = Self::names_in_file(&self.added_symbols, file_path);
        let (mut more, Ghost(km)) = Self::names_in_file(&self.modified_symbols, file_path);
        let ghost want = texts(names@) + texts(more@);
        names.append(&mut more);
        assert(texts(names@) =~= want);
        assert(lists(ka, self@.added.dom()) && lists(km, self@.modified.dom())
            && texts(names@) == file_names(self@.added, ka, file_path@) + file_names(self@.modified, km, file_path@));
        names
    }

    /// Drops every session-owned (added or modified) symbol of file
    /// `file_path` from the delta; nothing is marked removed, so a lookup of
    /// a formerly modified symbol falls back to the base.
    pub fn remove_session_symbols_for_file(&mut self, file_path: &str)
        ensures
            final(self)@ == without_file(old(self)@, file_path@),
    {
        let ghost g0 = self@;
        let added_ids = ids_in_file(&self.added_symbols, file_path);
        let modified_ids = ids_in_file(&self.modified_symbols, file_path);
        let mut i: usize = 0;
        while i < added_ids.len()
            invariant
                i <= added_ids@.len(),
                added_ids@.no_duplicates(),
                added_ids@.to_set() == Set::new(|id: u128| g0.added.dom().contains(id) && same_path(g0.added[id].file_path, file_path@)),
                self@ == (GraphV {
                    added: Map::new(|id: u128| g0.added.dom().contains(id) && !added_ids@.take(i as int).contains(id), |id: u128| g0.added[id]),
                    ..g0
                }),
            decreases added_ids@.len() - i,
        {
            let id = added_ids[i];
            let _ = symbols_remove(&mut self.added_symbols, id);
            proof {
                assert forall|x: u128| added_ids@.take(i as int + 1).contains(x) <==> (added_ids@.take(i as int).contains(x) || x == id) by {
                    lemma_take_contains(added_ids@, i as int, x);
                }
            }
            assert(self@ =~= GraphV {
                added: Map::new(|x: u128| g0.added.dom().contains(x) && !added_ids@.take(i as int + 1).contains(x), |x: u128| g0.added[x]),
                ..g0
            });
            i = i + 1;
        }
        assert(added_ids@.take(added_ids@.len() as int) =~= added_ids@);
        let ghost g1 = GraphV {
            added: Map::new(|id: u128| g0.added.dom().contains(id) && !same_path(g0.added[id].file_path, file_path@), |id: u128| g0.added[id]),
            ..g0
        };
        assert(self@ =~= g1) by {
            assert forall|x: u128| added_ids@.contains(x) <==> (g0.added.dom().contains(x) && same_path(g0.added[x].file_path, file_path@)) by {
                assert(added_ids@.contains(x) == added_ids@.to_set().contains(x));
            }
            assert(self@.added =~= g1.added);
        }
        let mut j: usize = 0;
        while j < modified_ids.len()
            invariant
                j <= modified_ids@.len(),
                modified_ids@.no_duplicates(),
                modified_ids@.to_set() == Set::new(|id: u128| g0.modified.dom().contains(id) && same_path(g0.modified[id].file_path, file_path@)),
                g1.modified == g0.modified,
                self@ == (GraphV {
                    modified: Map::new(|id: u128| g0.modified.dom().contains(id) && !modified_ids@.take(j as int).contains(id), |id: u128| g0.modified[id]),
                    ..g1
                }),
            decreases modified_ids@.len() - j,
        {
            let id = modified_ids[j];
            let _ = symbols_remove(&mut self.modified_symbols, id);
            proof {
                assert forall|x: u128| modified_ids@.take(j as int + 1).contains(x) <==> (modified_ids@.take(j as int).contains(x) || x == id) by {
                    lemma_take_contains(modified_ids@, j as int, x);
                }
            }
            assert(self@ =~= GraphV {
                modified: Map::new(|x: u128| g0.modified.dom().contains(x) && !modified_ids@.take(j as int + 1).contains(x), |x: u128| g0.modified[x]),
                ..g1
            });
            j = j + 1;
        }
        assert(modified_ids@.take(modified_ids@.len() as int) =~= modified_ids@);
        assert(self@ =~= without_file(g0, file_path@)) by {
            assert forall|x: u128| modified_ids@.contains(x) <==> (g0.modified.dom().contains(x) && same_path(g0.modified[x].file_path, file_path@)) by {
                assert(modified_ids@.contains(x) == modified_ids@.to_set().contains(x));
            }
            assert(self@.modified =~= without_file(g0, file_path@).modified);
            assert(self@.added =~= without_file(g0, file_path@).added);
        }
    }

    /// Folds a fresh parse of one file into the session delta: a new symbol
    /// whose name the file's base symbols lack is added; one whose base
    /// version (the last of that name) differs in span, signature, kind or
    /// visibility is modified; a base symbol whose name no longer occurs is
    /// removed.
    pub fn update_from_parse(&mut self, file_path: &str, new_symbols: Vec<Symbol>, base_symbols_for_file: &[Symbol])
        ensures
            exists|looked: Seq<Option<Seq<char>>>|
                looked.len() == base_symbols_for_file@.len()
                && (!old(self)@.has_base ==> forall|i: int| 0 <= i < looked.len() ==> looked[i] is None)
                && final(self)@ == apply_removals(
                    apply_new(old(self)@, symbols_view(new_symbols@), symbols_view(base_symbols_for_file@), new_symbols@.len() as int),
                    symbols_view(new_symbols@), symbols_view(base_symbols_for_file@), looked, base_symbols_for_file@.len() as int),
    {
        let ghost g0 = self@;
        let ghost news = symbols_view(new_symbols@);
        let ghost bases = symbols_view(base_symbols_for_file@);
        let mut i: usize = 0;
        while i < new_symbols.len()
            invariant
                i <= new_symbols@.len(),
                news == symbols_view(new_symbols@),
                bases == symbols_view(base_symbols_for_file@),
                self@ == apply_new(g0, news, bases, i as int),
                self@.has_base == g0.has_base,
            decreases new_symbols@.len() - i,
        {
            let sym = &new_symbols[i];
            assert(news[i as int] == sym@);
            match find_last_named(base_symbols_for_file, sym.qualified_name.as_str()) {
                Some(j) => {
                    let b = &base_symbols_for_file[j];
                    let changed = !(sym.span == b.span) || !opt_text_eq(&sym.signature, &b.signature)
                        || !(sym.kind == b.kind) || !(sym.visibility == b.visibility);
                    if changed {
                        self.modify_symbol(sym.copied());
                    }
                },
                None => {
                    self.add_symbol(sym.copied());
                },
            }
            i = i + 1;
        }
        let ghost g1 = self@;
        let ghost mut looked: Seq<Option<Seq<char>>> = Seq::empty();
        let mut j: usize = 0;
        while j < base_symbols_for_file.len()
            invariant
                j <= base_symbols_for_file@.len(),
                news == symbols_view(new_symbols@),
                bases == symbols_view(base_symbols_for_file@),
                looked.len() == j,
                !g1.has_base ==> forall|k: int| 0 <= k < looked.len() ==> looked[k] is None,
                self@.has_base == g1.has_base,
                self@ == apply_removals(g1, news, bases, looked, j as int),
            decreases base_symbols_for_file@.len() - j,
        {
            let b = &base_symbols_for_file[j];
            assert(bases[j as int] == b@);
            let ghost before = self@;
            let ghost prior_looked = looked;
            if !has_named(&new_symbols, b.qualified_name.as_str()) {
                self.remove_symbol(b.id);
                proof {
                    let n = choose|n: Option<Seq<char>>| lookup_allowed(before, n) && self@ == remove_spec(before, b.id, n);
                    looked = looked.push(n);
                }
            } else {
                proof {
                    looked = looked.push(None);
                }
            }
            proof {
                assert(looked.take(j as int) =~= prior_looked);
                lemma_apply_removals_prefix(g1, news, bases, looked, j as int);
            }
            j = j + 1;
        }
        assert(looked.len() == bases.len());
    }

    /// The symbols of `m` with their ids, each once.
    fn symbol_pairs(m: &SymbolMap) -> (r: Vec<(SymbolId, Symbol)>)
        ensures
            lists_map(symbol_pairs_view(r@), symbols_held(*m)),
    {
        let ids = symbols_ids(m);
        let ghost h = symbols_held(*m);
        let mut out: Vec<(SymbolId, Symbol)> = Vec::new();
        let mut i: usize = 0;
        while i < ids.len()
            invariant
                i <= ids@.len(),
                h == symbols_held(*m),
                lists(ids@, h.dom()),
                symbol_pairs_view(out@).map_values(|p: (u128, SymbolV)| p.0) == ids@.take(i as int),
                forall|j: int| 0 <= j < out@.len() ==> h[(#[trigger] symbol_pairs_view(out@)[j]).0] == symbol_pairs_view(out@)[j].1,
            decreases ids@.len() - i,
        {
            proof {
                lemma_lists_step(ids@, h.dom(), i as int);
            }
            match symbols_get(m, ids[i]) {
                Some(sym) => {
                    let ghost prior = symbol_pairs_view(out@);
                    out.push((ids[i], sym));
                    assert(symbol_pairs_view(out@) =~= prior.push((ids@[i as int], h[ids@[i as int]])));
                    assert(symbol_pairs_view(out@).map_values(|p: (u128, SymbolV)| p.0)
                        =~= prior.map_values(|p: (u128, SymbolV)| p.0).push(ids@[i as int]));
                },
                None => {
                    assert(false);
                },
            }
            i = i + 1;
        }
        assert(ids@.take(ids@.len() as int) =~= ids@);
        out
    }

    /// The session delta as plain lists, each map's entries once (in the
    /// order the map hands them out).
    pub fn to_snapshot(&self) -> (r: GraphSnapshot)
        ensures
            lists_map(symbol_pairs_view(r.modified_symbols@), self@.modified),
            lists_map(symbol_pairs_view(r.added_symbols@), self@.added),
            lists(r.removed_symbols@, self@.removed),
            lists_map(name_pairs_view(r.removed_symbol_names@), self@.removed_names),
            lists_map(r.added_edges@, self@.edges),
            lists(r.removed_edges@, self@.removed_edges),
    {
        let name_ids = names_ids(&self.removed_symbol_names);
        let ghost nh = names_held(self.removed_symbol_names);
        let mut names: Vec<(SymbolId, String)> = Vec::new();
        let mut i: usize = 0;
        while i < name_ids.len()
            invariant
                i <= name_ids@.len(),
                nh == names_held(self.removed_symbol_names),
                name_ids@.no_duplicates(),
                name_ids@.to_set() == nh.dom(),
                name_pairs_view(names@).map_values(|p: (u128, Seq<char>)| p.0) == name_ids@.take(i as int),
                forall|j: int| 0 <= j < names@.len() ==> nh[(#[trigger] name_pairs_view(names@)[j]).0] == name_pairs_view(names@)[j].1,
            decreases name_ids@.len() - i,
        {
            assert(name_ids@.to_set().contains(name_ids@[i as int]));
            assert(name_ids@.take(i as int + 1) =~= name_ids@.take(i as int).push(name_ids@[i as int]));
            match names_get(&self.removed_symbol_names, name_ids[i]) {
                Some(n) => {
                    let ghost prior = name_pairs_view(names@);
                    names.push((name_ids[i], n));
                    assert(name_pairs_view(names@) =~= prior.push((name_ids@[i as int], nh[name_ids@[i as int]])));
                    assert(name_pairs_view(names@).map_values(|p: (u128, Seq<char>)| p.0)
                        =~= prior.map_values(|p: (u128, Seq<char>)| p.0).push(name_ids@[i as int]));
                },
                None => {
                    assert(false);
                },
            }
            i = i + 1;
        }
        assert(name_ids@.take(name_ids@.len() as int) =~= name_ids@);
        let edge_ids = edges_ids(&self.added_edges);
        let ghost eh = edges_held(self.added_edges);
        let mut edges: Vec<(u128, CallEdge)> = Vec::new();
        let mut k: usize = 0;
        while k < edge_ids.len()
            invariant
                k <= edge_ids@.len(),
                eh == edges_held(self.added_edges),
                edge_ids@.no_duplicates(),
                edge_ids@.to_set() == eh.dom(),
                edges@.map_values(|p: (u128, CallEdge)| p.0) == edge_ids@.take(k as int),
                forall|j: int| 0 <= j < edges@.len() ==> eh[(#[trigger] edges@[j]).0] == edges@[j].1,
            decreases edge_ids@.len() - k,
        {
            assert(edge_ids@.to_set().contains(edge_ids@[k as int]));
            assert(edge_ids@.take(k as int + 1) =~= edge_ids@.take(k as int).push(edge_ids@[k as int]));
            match edges_get(&self.added_edges, edge_ids[k]) {
                Some(e) => {
                    let ghost prior = edges@;
                    edges.push((edge_ids[k], e));
                    assert(edges@.map_values(|p: (u128, CallEdge)| p.0)
                        =~= prior.map_values(|p: (u128, CallEdge)| p.0).push(edge_ids@[k as int]));
                },
                None => {
                    assert(false);
                },
            }
            k = k + 1;
        }
        assert(edge_ids@.take(edge_ids@.len() as int) =~= edge_ids@);
        GraphSnapshot {
            modified_symbols: Self::symbol_pairs(&self.modified_symbols),
            added_symbols: Self::symbol_pairs(&self.added_symbols),
            removed_symbols: ids_list(&self.removed_symbols),
            removed_symbol_names: names,
            added_edges: edges,
            removed_edges: ids_list(&self.removed_edges),
        }
    }

    /// A graph with no shared base holding the delta of a snapshot; entries
    /// are inserted in list order, so a repeated key keeps its last value.
    pub fn from_snapshot(snapshot: GraphSnapshot) -> (g: Self)
        ensures
            !g@.has_base,
            g@.modified == map_from(symbol_pairs_view(snapshot.modified_symbols@)),
            g@.added == map_from(symbol_pairs_view(snapshot.added_symbols@)),
            g@.removed == snapshot.removed_symbols@.to_set(),
            g@.removed_names == map_from(name_pairs_view(snapshot.removed_symbol_names@)),
            g@.edges == map_from(snapshot.added_edges@),
            g@.removed_edges == snapshot.removed_edges@.to_set(),
    {
        let mut g = SessionGraph::empty();
        let GraphSnapshot { modified_symbols, added_symbols, removed_symbols, removed_symbol_names, added_edges, removed_edges } = snapshot;
        g.modified_symbols = Self::symbols_from_pairs(modified_symbols);
        g.added_symbols = Self::symbols_from_pairs(added_symbols);
        g.removed_symbols = Self::ids_from_list(&removed_symbols);
        g.removed_edges = Self::ids_from_list(&removed_edges);
        let mut names = names_new();
        let ghost nv = name_pairs_view(removed_symbol_names@);
        let mut i: usize = 0;
        while i < removed_symbol_names.len()
            invariant
                i <= removed_symbol_names@.len(),
                nv == name_pairs_view(removed_symbol_names@),
                names_held(names) == map_from(nv.take(i as int)),
            decreases removed_symbol_names@.len() - i,
        {
            let (id, n) = (removed_symbol_names[i].0, removed_symbol_names[i].1.clone());
            names_insert(&mut names, id, n);
            assert(nv.take(i as int + 1).drop_last() =~= nv.take(i as int));
            i = i + 1;
        }
        assert(nv.take(nv.len() as int) =~= nv);
        g.removed_symbol_names = names;
        let mut edges = edges_new();
        let mut k: usize = 0;
        while k < added_edges.len()
            invariant
                k <= added_edges@.len(),
                edges_held(edges) == map_from(added_edges@.take(k as int)),
            decreases added_edges@.len() - k,
        {
            edges_insert(&mut edges, added_edges[k].0, added_edges[k].1);
            assert(added_edges@.take(k as int + 1).drop_last() =~= added_edges@.take(k as int));
            k = k + 1;
        }
        assert(added_edges@.take(added_edges@.len() as int) =~= added_edges@);
        g.added_edges = edges;
        g
    }

    fn symbols_from_pairs(pairs: Vec<(SymbolId, Symbol)>) -> (m: SymbolMap)
        ensures
            symbols_held(m) == map_from(symbol_pairs_view(pairs@)),
    {
        let mut m = symbols_new();
        let ghost pv = symbol_pairs_view(pairs@);
        let mut i: usize = 0;
        while i < pairs.len()
            invariant
                i <= pairs@.len(),
                pv == symbol_pairs_view(pairs@),
                symbols_held(m) == map_from(pv.take(i as int)),
            decreases pairs@.len() - i,
        {
            let sym = pairs[i].1.copied();
            symbols_insert(&mut m, pairs[i].0, sym);
            assert(pv.take(i as int + 1).drop_last() =~= pv.take(i as int));
            i = i + 1;
        }
        assert(pv.take(pv.len() as int) =~= pv);
        m
    }

    fn ids_from_list(ids: &Vec<u128>) -> (s: IdSet)
        ensures
            ids_held(s) == ids@.to_set(),
    {
        let mut s = ids_new();
        let mut i: usize = 0;
        while i < ids.len()
            invariant
                i <= ids@.len(),
                ids_held(s) == ids@.take(i as int).to_set(),
            decreases ids@.len() - i,
        {
            ids_insert(&mut s, ids[i]);
            assert(ids@.take(i as int + 1).to_set() =~= ids@.take(i as int).to_set().insert(ids@[i as int])) by {
                assert forall|x: u128| ids@.take(i as int + 1).to_set().contains(x)
                    <==> ids@.take(i as int).to_set().insert(ids@[i as int]).contains(x) by {
                    lemma_take_contains(ids@, i as int, x);
                }
            }
            i = i + 1;
        }
        assert(ids@.take(ids@.len() as int) =~= ids@);
        s
    }

    /// Number of symbols changed (added + modified + removed).
    pub fn change_count(&self) -> (r: usize)
        requires
            self@.added.dom().len() + self@.modified.dom().len() + self@.removed.len() <= usize::MAX,
        ensures
            r == self@.added.dom().len() + self@.modified.dom().len() + self@.removed.len(),
    {
        symbols_len(&self.added_symbols) + symbols_len(&self.modified_symbols) + ids_len(&self.removed_symbols)
    }
}

} // verus!
