//! Workspace merge decisions: the fast path when HEAD still equals the
//! workspace's base commit, and the per-file rebase when HEAD has advanced.

use vstd::prelude::*;
use crate::domain::{Error, FileAnalysis, Symbol};
use crate::conflict::ast_merge::spans_ok;
use crate::text::str_eq;
use crate::parser::registry::{ParserRegistry, QueryLibrary, registry_result};
use crate::workspace::conflict::{analyze_file_conflict_parsed, analyze_spec, analysis_view, MergeAnalysis,
    SemanticConflict, SemanticConflictV, SymbolChangeKind, semantic_view, parsed_view, parsed_well_formed, parsed_of};

verus! {

/// Outcome of attempting to merge a workspace into the repository.
#[derive(Debug)]
pub enum WorkspaceMergeResult {
    /// HEAD == base_commit: the overlay was committed directly.
    FastMerge { commit_hash: String },
    /// HEAD != base_commit, but all files auto-rebased successfully.
    RebaseMerge { commit_hash: String, auto_rebased_files: Vec<String> },
    /// At least one file has semantic conflicts that need resolution.
    Conflicts { conflicts: Vec<SemanticConflict> },
}

/// How a workspace's overlay is to be committed.
#[derive(Debug, Clone, Copy, PartialEq, Eq, Structural)]
pub enum MergeStrategy {
    /// Empty repository and a workspace based on "initial": a root commit.
    InitialCommit,
    /// HEAD equals the base commit: commit the overlay on top of it.
    FastForward,
    /// HEAD has advanced: rebase each overlay file onto HEAD.
    Rebase,
}

/// Choose how to commit a workspace's overlay, given the repository's HEAD
/// (`None` for an empty repository) and the workspace's base commit.
pub fn choose_strategy(overlay_is_empty: bool, head: &Option<String>, base_commit: &str) -> (r: Result<MergeStrategy, Error>)
    ensures
        overlay_is_empty ==> (r matches Err(Error::Internal(m)) && m@ == "workspace has no changes to merge"@),
        !overlay_is_empty ==> match head {
            None => if base_commit@ == "initial"@ {
                r == Ok::<MergeStrategy, Error>(MergeStrategy::InitialCommit)
            } else {
                (r matches Err(Error::Git(m)) && m@ == "repository has no HEAD"@)
            },
            Some(h) => if h@ == base_commit@ {
                r == Ok::<MergeStrategy, Error>(MergeStrategy::FastForward)
            } else {
                r == Ok::<MergeStrategy, Error>(MergeStrategy::Rebase)
            },
        },
{
    if overlay_is_empty {
        return Err(Error::Internal(String::from_str("workspace has no changes to merge")));
    }
    match head {
        None => {
            if str_eq(base_commit, "initial") {
                Ok(MergeStrategy::InitialCommit)
            } else {
                Err(Error::Git(String::from_str("repository has no HEAD")))
            }
        },
        Some(h) => {
            if str_eq(h.as_str(), base_commit) {
                Ok(MergeStrategy::FastForward)
            } else {
                Ok(MergeStrategy::Rebase)
            }
        },
    }
}

/// One overlay entry: a path and its new content (`None` for a deletion).
pub type OverlayItem = (String, Option<Vec<u8>>);

/// Abstract value of an overlay entry.
pub type OverlayItemV = (Seq<char>, Option<Seq<u8>>);

pub open spec fn opt_bytes(o: Option<Vec<u8>>) -> Option<Seq<u8>> {
    match o {
        Some(v) => Some(v@),
        None => None,
    }
}

pub open spec fn items_view(v: Seq<OverlayItem>) -> Seq<OverlayItemV> {
    v.map_values(|it: OverlayItem| (it.0@, opt_bytes(it.1)))
}

pub open spec fn whole_file(path: Seq<char>, ours: SymbolChangeKind, theirs: SymbolChangeKind) -> SemanticConflictV {
    (path, "<entire file>"@, ours, theirs)
}

/// What rebasing one overlay file onto HEAD yields: the rebased entry (if
/// any), the conflicts (if any), and whether the file was auto-merged.
pub open spec fn rebase_step(
    registry: Seq<Seq<char>>,
    path: Seq<char>, ours: Option<Seq<u8>>, base: Option<Seq<u8>>, head: Option<Seq<u8>>,
    parsed: Option<(Seq<Symbol>, Seq<Symbol>, Seq<Symbol>)>,
) -> (Option<OverlayItemV>, Seq<SemanticConflictV>, bool) {
    match ours {
        None => match (base, head) {
            (Some(b), Some(h)) => if b == h {
                (Some((path, None)), Seq::empty(), false)
            } else {
                (None, seq![whole_file(path, SymbolChangeKind::Removed, SymbolChangeKind::Modified)], false)
            },
            _ => (Some((path, None)), Seq::empty(), false),
        },
        Some(o) => match (base, head) {
            (Some(b), Some(h)) => if b == h {
                (Some((path, Some(o))), Seq::empty(), false)
            } else {
                match analyze_spec(registry, path, b, h, o, parsed) {
                    Ok(m) => (Some((path, Some(m))), Seq::empty(), true),
                    Err(cs) => (None, cs, false),
                }
            },
            (None, Some(h)) => if h == o {
                (Some((path, Some(o))), Seq::empty(), false)
            } else {
                (None, seq![whole_file(path, SymbolChangeKind::Added, SymbolChangeKind::Added)], false)
            },
            (None, None) => (Some((path, Some(o))), Seq::empty(), false),
            (Some(_), None) => (None, seq![whole_file(path, SymbolChangeKind::Modified, SymbolChangeKind::Removed)], false),
        },
    }
}

/// The rebase of overlay entries `0..n`: rebased entries, conflicts and
/// auto-merged paths, each in overlay order.
pub open spec fn rebase_spec(
    registry: Seq<Seq<char>>,
    overlay: Seq<OverlayItemV>, base: Seq<Option<Seq<u8>>>, head: Seq<Option<Seq<u8>>>,
    parsed: Seq<Option<(Seq<Symbol>, Seq<Symbol>, Seq<Symbol>)>>, n: int,
) -> (Seq<OverlayItemV>, Seq<SemanticConflictV>, Seq<Seq<char>>)
    decreases n,
{
    if n <= 0 {
        (Seq::empty(), Seq::empty(), Seq::empty())
    } else {
        let prev = rebase_spec(registry, overlay, base, head, parsed, n - 1);
        let k = n - 1;
        let step = rebase_step(registry, overlay[k].0, overlay[k].1, base[k], head[k], parsed[k]);
        (
            prev.0 + match step.0 { Some(e) => seq![e], None => Seq::empty() },
            prev.1 + step.1,
            prev.2 + if step.2 { seq![overlay[k].0] } else { Seq::empty() },
        )
    }
}

/// The plan a rebase produces.
pub struct RebasePlan {
    pub conflicts: Vec<SemanticConflict>,
    pub rebased_overlay: Vec<OverlayItem>,
    pub auto_rebased: Vec<String>,
}

pub open spec fn opt_bytes_view(v: Seq<Option<Vec<u8>>>) -> Seq<Option<Seq<u8>>> {
    v.map_values(|o: Option<Vec<u8>>| opt_bytes(o))
}

pub open spec fn parsed_seq_view(v: Seq<Option<(Vec<Symbol>, Vec<Symbol>, Vec<Symbol>)>>)
    -> Seq<Option<(Seq<Symbol>, Seq<Symbol>, Seq<Symbol>)>>
{
    v.map_values(|o: Option<(Vec<Symbol>, Vec<Symbol>, Vec<Symbol>)>| parsed_view(o))
}

fn clone_bytes(v: &Vec<u8>) -> (r: Vec<u8>)
    ensures
        r@ == v@,
{
    vstd::slice::slice_to_vec(v.as_slice())
}

fn same_bytes(a: &Vec<u8>, b: &Vec<u8>) -> (r: bool)
    ensures
        r == (a@ == b@),
{
    if a.len() != b.len() {
        return false;
    }
    let mut i: usize = 0;
    while i < a.len()
        invariant
            a@.len() == b@.len(),
            i <= a@.len(),
            forall|j: int| 0 <= j < i ==> a@[j] == b@[j],
        decreases a@.len() - i,
    {
        if a[i] != b[i] {
            return false;
        }
        i = i + 1;
    }
    assert(a@ =~= b@);
    true
}

fn whole_file_conflict(path: &String, ours: SymbolChangeKind, theirs: SymbolChangeKind) -> (r: SemanticConflict)
    ensures
        r@ == whole_file(path@, ours, theirs),
{
    SemanticConflict {
        file_path: path.clone(),
        symbol_name: String::from_str("<entire file>"),
        our_change: ours,
        their_change: theirs,
    }
}

/// Rebase the overlay onto HEAD, file by file.
///
/// `base_entries[i]` and `head_entries[i]` are the contents of the i-th
/// overlay path at the workspace's base commit and at HEAD (`None` when the
/// path is absent there); `parsed[i]` are the symbols parsed from base, head
/// and overlay contents of that path, or `None` when parsing was not possible.
pub fn rebase_overlay(
    overlay: &Vec<OverlayItem>,
    base_entries: &Vec<Option<Vec<u8>>>,
    head_entries: &Vec<Option<Vec<u8>>>,
    parsed: &Vec<Option<(Vec<Symbol>, Vec<Symbol>, Vec<Symbol>)>>,
    parser: &ParserRegistry,
) -> (r: RebasePlan)
    requires
        base_entries@.len() == overlay@.len(),
        head_entries@.len() == overlay@.len(),
        parsed@.len() == overlay@.len(),
        forall|i: int| 0 <= i < overlay@.len() ==> ({
            &&& #[trigger] base_entries@[i] is Some
            &&& head_entries@[i] is Some
            &&& overlay@[i].1 is Some
        }) ==> parsed_well_formed(base_entries@[i]->0@, head_entries@[i]->0@, overlay@[i].1->0@, parsed_view(parsed@[i])),
    ensures
        (items_view(r.rebased_overlay@), semantic_view(r.conflicts@), r.auto_rebased@.map_values(|s: String| s@))
            == rebase_spec(parser@, items_view(overlay@), opt_bytes_view(base_entries@), opt_bytes_view(head_entries@),
                parsed_seq_view(parsed@), overlay@.len() as int),
{
    let ghost ov = items_view(overlay@);
    let ghost bv = opt_bytes_view(base_entries@);
    let ghost hv = opt_bytes_view(head_entries@);
    let ghost pv = parsed_seq_view(parsed@);
    let mut conflicts: Vec<SemanticConflict> = Vec::new();
    let mut rebased: Vec<OverlayItem> = Vec::new();
    let mut auto: Vec<String> = Vec::new();
    let mut i: usize = 0;
    while i < overlay.len()
        invariant
            i <= overlay@.len(),
            base_entries@.len() == overlay@.len(),
            head_entries@.len() == overlay@.len(),
            parsed@.len() == overlay@.len(),
            forall|i: int| 0 <= i < overlay@.len() ==> ({
                &&& #[trigger] base_entries@[i] is Some
                &&& head_entries@[i] is Some
                &&& overlay@[i].1 is Some
            }) ==> parsed_well_formed(base_entries@[i]->0@, head_entries@[i]->0@, overlay@[i].1->0@, parsed_view(parsed@[i])),
            ov == items_view(overlay@),
            bv == opt_bytes_view(base_entries@),
            hv == opt_bytes_view(head_entries@),
            pv == parsed_seq_view(parsed@),
            (items_view(rebased@), semantic_view(conflicts@), auto@.map_values(|s: String| s@))
                == rebase_spec(parser@, ov, bv, hv, pv, i as int),
        decreases overlay@.len() - i,
    {
        let path = &overlay[i].0;
        let ghost r0 = items_view(rebased@);
        let ghost c0 = semantic_view(conflicts@);
        let ghost a0 = auto@.map_values(|s: String| s@);
        let ghost step = rebase_step(parser@, ov[i as int].0, ov[i as int].1, bv[i as int], hv[i as int], pv[i as int]);
        match &overlay[i].1 {
            None => {
                let keep = match (&base_entries[i], &head_entries[i]) {
                    (Some(b), Some(h)) => same_bytes(b, h),
                    _ => true,
                };
                if keep {
                    rebased.push((path.clone(), None));
                    assert(items_view(rebased@) =~= r0.push((path@, None)));
                } else {
                    let c = whole_file_conflict(path, SymbolChangeKind::Removed, SymbolChangeKind::Modified);
                    conflicts.push(c);
                    assert(semantic_view(conflicts@) =~= c0 + seq![c@]);
                }
            },
            Some(ours) => {
                match (&base_entries[i], &head_entries[i]) {
                    (Some(b), Some(h)) => {
                        if same_bytes(b, h) {
                            rebased.push((path.clone(), Some(clone_bytes(ours))));
                            assert(items_view(rebased@) =~= r0.push((path@, Some(ours@))));
                        } else {
                            let analysis = analyze_file_conflict_parsed(path.as_str(), b.as_slice(), h.as_slice(),
                                ours.as_slice(), parser, &parsed[i]);
                            match analysis {
                                MergeAnalysis::AutoMerge { merged_content } => {
                                    let ghost mc = merged_content@;
                                    rebased.push((path.clone(), Some(merged_content)));
                                    assert(items_view(rebased@) =~= r0.push((path@, Some(mc))));
                                    auto.push(path.clone());
                                    assert(auto@.map_values(|s: String| s@) =~= a0.push(path@));
                                },
                                MergeAnalysis::Conflict { conflicts: cs } => {
                                    let ghost csv = semantic_view(cs@);
                                    let mut cs = cs;
                                    conflicts.append(&mut cs);
                                    assert(semantic_view(conflicts@) =~= c0 + csv);
                                },
                            }
                        }
                    },
                    (None, Some(h)) => {
                        if same_bytes(h, ours) {
                            rebased.push((path.clone(), Some(clone_bytes(ours))));
                            assert(items_view(rebased@) =~= r0.push((path@, Some(ours@))));
                        } else {
                            let c = whole_file_conflict(path, SymbolChangeKind::Added, SymbolChangeKind::Added);
                            conflicts.push(c);
                            assert(semantic_view(conflicts@) =~= c0 + seq![c@]);
                        }
                    },
                    (None, None) => {
                        rebased.push((path.clone(), Some(clone_bytes(ours))));
                        assert(items_view(rebased@) =~= r0.push((path@, Some(ours@))));
                    },
                    (Some(_), None) => {
                        let c = whole_file_conflict(path, SymbolChangeKind::Modified, SymbolChangeKind::Removed);
                        conflicts.push(c);
                        assert(semantic_view(conflicts@) =~= c0 + seq![c@]);
                    },
                }
            },
        }
        assert(items_view(rebased@) =~= r0 + match step.0 { Some(e) => seq![e], None => Seq::empty() });
        assert(semantic_view(conflicts@) =~= c0 + step.1);
        assert(auto@.map_values(|s: String| s@) =~= a0 + if step.2 { seq![ov[i as int].0] } else { Seq::empty() });
        i = i + 1;
    }
    RebasePlan { conflicts, rebased_overlay: rebased, auto_rebased: auto }
}

/// `p` is what the registry's parses of an overlay path's three versions
/// give: for a path present at base, at HEAD and in the overlay, the
/// symbol lists of three parses (or none where one failed); otherwise none.
pub open spec fn versions_parsed(
    exts: Seq<Seq<char>>, path: Seq<char>, b: Option<Seq<u8>>, h: Option<Seq<u8>>, o: Option<Seq<u8>>,
    queries: &QueryLibrary, p: Option<(Seq<Symbol>, Seq<Symbol>, Seq<Symbol>)>,
) -> bool {
    match (b, h, o) {
        (Some(b), Some(h), Some(o)) => exists|pb: Result<FileAnalysis, Error>, ph: Result<FileAnalysis, Error>, po: Result<FileAnalysis, Error>|
            registry_result(exts, path, b, queries, pb) && registry_result(exts, path, h, queries, ph)
                && registry_result(exts, path, o, queries, po) && #[trigger] parsed_of(b, h, o, pb, ph, po) == p,
        _ => p is None,
    }
}

/// Parses the three versions of every overlay path that has all three.
pub fn parse_overlay_versions(
    overlay: &Vec<OverlayItem>,
    base_entries: &Vec<Option<Vec<u8>>>,
    head_entries: &Vec<Option<Vec<u8>>>,
    parser: &ParserRegistry,
    queries: &QueryLibrary,
) -> (r: Vec<Option<(Vec<Symbol>, Vec<Symbol>, Vec<Symbol>)>>)
    requires
        base_entries@.len() == overlay@.len(),
        head_entries@.len() == overlay@.len(),
    ensures
        r@.len() == overlay@.len(),
        forall|i: int| 0 <= i < overlay@.len() ==> #[trigger] versions_parsed(
            parser@,
            overlay@[i].0@,
            opt_bytes(base_entries@[i]),
            opt_bytes(head_entries@[i]),
            opt_bytes(overlay@[i].1),
            queries,
            parsed_view(r@[i]),
        ),
        forall|i: int| 0 <= i < overlay@.len() ==> ({
            &&& #[trigger] base_entries@[i] is Some
            &&& head_entries@[i] is Some
            &&& overlay@[i].1 is Some
        }) ==> parsed_well_formed(base_entries@[i]->0@, head_entries@[i]->0@, overlay@[i].1->0@, parsed_view(r@[i])),
{
    let mut out: Vec<Option<(Vec<Symbol>, Vec<Symbol>, Vec<Symbol>)>> = Vec::new();
    let mut i: usize = 0;
    while i < overlay.len()
        invariant
            base_entries@.len() == overlay@.len(),
            head_entries@.len() == overlay@.len(),
            i <= overlay@.len(),
            out@.len() == i,
            forall|k: int| 0 <= k < i ==> #[trigger] versions_parsed(
                parser@,
                overlay@[k].0@,
                opt_bytes(base_entries@[k]),
                opt_bytes(head_entries@[k]),
                opt_bytes(overlay@[k].1),
                queries,
                parsed_view(out@[k]),
            ),
            forall|k: int| 0 <= k < i ==> ({
                &&& #[trigger] base_entries@[k] is Some
                &&& head_entries@[k] is Some
                &&& overlay@[k].1 is Some
            }) ==> parsed_well_formed(base_entries@[k]->0@, head_entries@[k]->0@, overlay@[k].1->0@, parsed_view(out@[k])),
        decreases overlay@.len() - i,
    {
        let path = overlay[i].0.as_str();
        let entry: Option<(Vec<Symbol>, Vec<Symbol>, Vec<Symbol>)> = match (&base_entries[i], &head_entries[i], &overlay[i].1) {
            (Some(b), Some(h), Some(o)) => {
                let pb = parser.parse_file(path, b.as_slice(), queries);
                let ph = parser.parse_file(path, h.as_slice(), queries);
                let po = parser.parse_file(path, o.as_slice(), queries);
                let ghost (gb, gh, go) = (pb, ph, po);
                let e: Option<(Vec<Symbol>, Vec<Symbol>, Vec<Symbol>)> = match (pb, ph, po) {
                    (Ok(fb), Ok(fh), Ok(fo)) => {
                        if spans_ok(b.len(), fb.symbols.as_slice()) && spans_ok(h.len(), fh.symbols.as_slice())
                            && spans_ok(o.len(), fo.symbols.as_slice()) {
                            Some((fb.symbols, fh.symbols, fo.symbols))
                        } else {
                            None
                        }
                    },
                    _ => None,
                };
                proof {
                    assert(parsed_view(e) == parsed_of(b@, h@, o@, gb, gh, go));
                }
                e
            },
            _ => None,
        };
        out.push(entry);
        i = i + 1;
    }
    out
}

/// `r` is the rebase that the registry's parses of the overlay paths give.
pub open spec fn rebase_by_parses(
    exts: Seq<Seq<char>>, overlay: Seq<OverlayItem>, base_entries: Seq<Option<Vec<u8>>>, head_entries: Seq<Option<Vec<u8>>>,
    queries: &QueryLibrary, r: RebasePlan,
) -> bool {
    exists|ps: Seq<Option<(Seq<Symbol>, Seq<Symbol>, Seq<Symbol>)>>| {
        &&& ps.len() == overlay.len()
        &&& forall|i: int| 0 <= i < overlay.len() ==> versions_parsed(
            exts,
            overlay[i].0@,
            opt_bytes(base_entries[i]),
            opt_bytes(head_entries[i]),
            opt_bytes(overlay[i].1),
            queries,
            #[trigger] ps[i],
        )
        &&& #[trigger] rebase_plan_is(exts, overlay, base_entries, head_entries, ps, r)
    }
}

/// `r` is the rebase plan for parsed symbols `ps`.
pub open spec fn rebase_plan_is(
    exts: Seq<Seq<char>>, overlay: Seq<OverlayItem>, base_entries: Seq<Option<Vec<u8>>>, head_entries: Seq<Option<Vec<u8>>>,
    ps: Seq<Option<(Seq<Symbol>, Seq<Symbol>, Seq<Symbol>)>>, r: RebasePlan,
) -> bool {
    (items_view(r.rebased_overlay@), semantic_view(r.conflicts@), r.auto_rebased@.map_values(|s: String| s@))
        == rebase_spec(exts, items_view(overlay), opt_bytes_view(base_entries), opt_bytes_view(head_entries), ps, overlay.len() as int)
}

/// Rebase the overlay onto HEAD, file by file, parsing each path's three
/// versions with the registry.
pub fn rebase_overlay_parsing(
    overlay: &Vec<OverlayItem>,
    base_entries: &Vec<Option<Vec<u8>>>,
    head_entries: &Vec<Option<Vec<u8>>>,
    parser: &ParserRegistry,
    queries: &QueryLibrary,
) -> (r: RebasePlan)
    requires
        base_entries@.len() == overlay@.len(),
        head_entries@.len() == overlay@.len(),
    ensures
        rebase_by_parses(parser@, overlay@, base_entries@, head_entries@, queries, r),
{
    let parsed = parse_overlay_versions(overlay, base_entries, head_entries, parser, queries);
    let r = rebase_overlay(overlay, base_entries, head_entries, &parsed, parser);
    proof {
        let ps = parsed_seq_view(parsed@);
        assert forall|i: int| 0 <= i < overlay@.len() implies versions_parsed(
            parser@,
            overlay@[i].0@,
            opt_bytes(base_entries@[i]),
            opt_bytes(head_entries@[i]),
            opt_bytes(overlay@[i].1),
            queries,
            #[trigger] ps[i],
        ) by {
            assert(ps[i] == parsed_view(parsed@[i]));
        }
        assert(rebase_plan_is(parser@, overlay@, base_entries@, head_entries@, ps, r));
    }
    r
}

/// A file the session edited and that HEAD has not changed since the base
/// commit is carried onto HEAD with the session's own content: the rebase
/// never replaces a session-only edit by older bytes.
pub proof fn lemma_rebase_keeps_session_edit(
    registry: Seq<Seq<char>>,
    overlay: Seq<OverlayItemV>, base: Seq<Option<Seq<u8>>>, head: Seq<Option<Seq<u8>>>,
    parsed: Seq<Option<(Seq<Symbol>, Seq<Symbol>, Seq<Symbol>)>>, n: int, k: int,
)
    requires
        0 <= k < n,
        base[k] is Some,
        base[k] == head[k],
        overlay[k].1 is Some,
    ensures
        rebase_spec(registry, overlay, base, head, parsed, n).0.contains((overlay[k].0, overlay[k].1)),
        !rebase_spec(registry, overlay, base, head, parsed, n).2.contains(overlay[k].0) || exists|j: int|
            0 <= j < n && j != k && overlay[j].0 == overlay[k].0,
    decreases n,
{
    let prev = rebase_spec(registry, overlay, base, head, parsed, n - 1);
    let r = rebase_spec(registry, overlay, base, head, parsed, n);
    let step = rebase_step(registry, overlay[n - 1].0, overlay[n - 1].1, base[n - 1], head[n - 1], parsed[n - 1]);
    if k < n - 1 {
        lemma_rebase_keeps_session_edit(registry, overlay, base, head, parsed, n - 1, k);
        let i = choose|i: int| 0 <= i < prev.0.len() && prev.0[i] == (overlay[k].0, overlay[k].1);
        assert(r.0[i] == prev.0[i]);
        if r.2.contains(overlay[k].0) && !prev.2.contains(overlay[k].0) {
            let j = choose|j: int| 0 <= j < r.2.len() && r.2[j] == overlay[k].0;
            if j < prev.2.len() {
                assert(prev.2[j] == r.2[j]);
            } else {
                assert(step.2);
                assert(overlay[n - 1].0 == overlay[k].0);
            }
        }
        if prev.2.contains(overlay[k].0) {
            let j = choose|j: int| 0 <= j < n - 1 && j != k && overlay[j].0 == overlay[k].0;
            assert(0 <= j < n && j != k && overlay[j].0 == overlay[k].0);
        }
    } else {
        assert(step.0 == Some((overlay[k].0, overlay[k].1)));
        assert(r.0[prev.0.len() as int] == (overlay[k].0, overlay[k].1));
        assert(!step.2);
        if r.2.contains(overlay[k].0) {
            let j = choose|j: int| 0 <= j < r.2.len() && r.2[j] == overlay[k].0;
            assert(j < prev.2.len());
            assert(prev.2.contains(overlay[k].0));
            lemma_auto_paths_from(registry, overlay, base, head, parsed, n - 1, j);
        }
    }
}

/// Every auto-merged path is the path of an earlier overlay entry.
proof fn lemma_auto_paths_from(
    registry: Seq<Seq<char>>,
    overlay: Seq<OverlayItemV>, base: Seq<Option<Seq<u8>>>, head: Seq<Option<Seq<u8>>>,
    parsed: Seq<Option<(Seq<Symbol>, Seq<Symbol>, Seq<Symbol>)>>, n: int, j: int,
)
    requires
        0 <= j < rebase_spec(registry, overlay, base, head, parsed, n).2.len(),
    ensures
        exists|i: int| 0 <= i < n && overlay[i].0 == rebase_spec(registry, overlay, base, head, parsed, n).2[j],
    decreases n,
{
    let prev = rebase_spec(registry, overlay, base, head, parsed, n - 1);
    let r = rebase_spec(registry, overlay, base, head, parsed, n);
    if n > 0 {
        if j < prev.2.len() {
            lemma_auto_paths_from(registry, overlay, base, head, parsed, n - 1, j);
            assert(r.2[j] == prev.2[j]);
        } else {
            assert(r.2[j] == overlay[n - 1].0);
        }
    }
}

} // verus!
