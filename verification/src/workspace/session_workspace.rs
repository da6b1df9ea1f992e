//! The isolated workspace of a single agent session.
//!
//! Each workspace owns a file overlay and a session graph, pinned to a base
//! commit. Reads go through the overlay first and fall back to the base
//! tree; writes go to the overlay only.

use vstd::prelude::*;
use dashmap::DashMap;
use crate::domain::Error;
use crate::ids::{fresh_id, now_micros, now_millis};
use crate::parser::registry::{ParserRegistry, path_extension};
use crate::text::{has_prefix, push_text, sort_unique, starts_with, strictly_sorted, texts_of};
use crate::workspace::conflict::{utf8_decode, utf8_error_text};
use crate::workspace::merge::{OverlayItem, OverlayItemV, items_view};
use crate::workspace::overlay::{
    content_hash, entry_content, lists_paths, paths_view, sha256_hex, EntryV, FileOverlay, OverlayEntry, OverlayV,
};
use crate::workspace::session_graph::{no_deltas, SessionGraph};
use vstd::utf8::{valid_utf8, decode_utf8};

verus! {

/// Lifetime semantics of a workspace.
#[derive(Debug, Clone)]
pub enum WorkspaceMode {
    /// Destroyed when the session disconnects.
    Ephemeral,
    /// Survives disconnection; optionally expires at a deadline
    /// (milliseconds since the Unix epoch).
    Persistent { expires_at: Option<i64> },
}

impl WorkspaceMode {
    /// The stored label of the mode.
    pub fn as_str(&self) -> (s: &'static str)
        ensures
            s@ == (match self {
                WorkspaceMode::Ephemeral => "ephemeral"@,
                WorkspaceMode::Persistent { .. } => "persistent"@,
            }),
    {
        match self {
            WorkspaceMode::Ephemeral => "ephemeral",
            WorkspaceMode::Persistent { .. } => "persistent",
        }
    }
}

/// Lifecycle state of a workspace.
#[derive(Debug, Clone, Copy, PartialEq, Eq, Structural)]
pub enum WorkspaceState {
    Active,
    Submitted,
    Merged,
    Expired,
    Abandoned,
}

/// The stored label of each workspace state.
pub open spec fn workspace_state_label(s: WorkspaceState) -> Seq<char> {
    match s {
        WorkspaceState::Active => "active"@,
        WorkspaceState::Submitted => "submitted"@,
        WorkspaceState::Merged => "merged"@,
        WorkspaceState::Expired => "expired"@,
        WorkspaceState::Abandoned => "abandoned"@,
    }
}

impl WorkspaceState {
    /// The stored label of the state.
    pub fn as_str(&self) -> (s: &'static str)
        ensures
            s@ == workspace_state_label(*self),
    {
        match self {
            WorkspaceState::Active => "active",
            WorkspaceState::Submitted => "submitted",
            WorkspaceState::Merged => "merged",
            WorkspaceState::Expired => "expired",
            WorkspaceState::Abandoned => "abandoned",
        }
    }
}

/// Result of reading a file through the workspace layer.
#[derive(Debug, Clone)]
pub struct FileReadResult {
    pub content: Vec<u8>,
    pub hash: String,
    pub modified_in_session: bool,
}

// ── Read log ─────────────────────────────────────────────────────────

/// When each path was last read in a session (microseconds since the Unix
/// epoch), by path.
pub type ReadLog = DashMap<String, i64>;

pub type ReadLogV = Map<Seq<char>, i64>;

/// The read times a read log holds, by path.
pub uninterp spec fn reads_held(m: ReadLog) -> ReadLogV;

#[verifier::external_body]
fn reads_new() -> (m: ReadLog)
    ensures
        reads_held(m) == ReadLogV::empty(),
{
    DashMap::new()
}

/// `DashMap::insert`.
#[verifier::external_body]
fn reads_insert(m: &mut ReadLog, path: String, at: i64)
    ensures
        reads_held(*final(m)) == reads_held(*old(m)).insert(path@, at),
{
    m.insert(path, at);
}

/// `DashMap::get`, the time copied out of the read guard.
#[verifier::external_body]
fn reads_get(m: &ReadLog, path: &str) -> (r: Option<i64>)
    ensures
        r == (if reads_held(*m).dom().contains(path@) { Some(reads_held(*m)[path@]) } else { None }),
{
    match m.get(path) {
        Some(entry) => Some(*entry.value()),
        None => None,
    }
}

// ── Specifications ───────────────────────────────────────────────────

/// `p` passes the optional prefix filter.
pub open spec fn prefix_ok(p: Seq<char>, prefix: Option<Seq<char>>) -> bool {
    match prefix {
        Some(x) => has_prefix(p, x),
        None => true,
    }
}

pub open spec fn opt_text(o: Option<&str>) -> Option<Seq<char>> {
    match o {
        Some(s) => Some(s@),
        None => None,
    }
}

/// The paths of `ps` that pass the prefix filter, in order.
pub open spec fn keep_prefixed(ps: Seq<Seq<char>>, prefix: Option<Seq<char>>) -> Seq<Seq<char>>
    decreases ps.len(),
{
    if ps.len() == 0 {
        Seq::empty()
    } else {
        keep_prefixed(ps.drop_last(), prefix) + if prefix_ok(ps.last(), prefix) { seq![ps.last()] } else { Seq::empty() }
    }
}

/// The files visible in a workspace: the base tree's files with the
/// overlay applied (a live entry adds its path, a deletion hides it), all
/// passing the prefix filter.
pub open spec fn visible_files(entries: OverlayV, base: Seq<Seq<char>>, prefix: Option<Seq<char>>) -> Set<Seq<char>> {
    Set::new(|p: Seq<char>| prefix_ok(p, prefix) && if entries.dom().contains(p) {
        !(entries[p] is Deleted)
    } else {
        base.contains(p)
    })
}

/// The base files of `bs` that pass the prefix filter and that the overlay
/// does not cover, in order.
pub open spec fn base_kept(bs: Seq<Seq<char>>, entries: OverlayV, prefix: Option<Seq<char>>) -> Seq<Seq<char>>
    decreases bs.len(),
{
    if bs.len() == 0 {
        Seq::empty()
    } else {
        base_kept(bs.drop_last(), entries, prefix) + if prefix_ok(bs.last(), prefix) && !entries.dom().contains(bs.last()) {
            seq![bs.last()]
        } else {
            Seq::empty()
        }
    }
}

/// The paths of the live (not deleted) overlay changes `cs` that pass the
/// prefix filter, in order.
pub open spec fn live_paths(cs: Seq<(Seq<char>, EntryV)>, prefix: Option<Seq<char>>) -> Seq<Seq<char>>
    decreases cs.len(),
{
    if cs.len() == 0 {
        Seq::empty()
    } else {
        live_paths(cs.drop_last(), prefix) + if prefix_ok(cs.last().0, prefix) && !(cs.last().1 is Deleted) {
            seq![cs.last().0]
        } else {
            Seq::empty()
        }
    }
}

pub open spec fn changes_view(v: Seq<(String, OverlayEntry)>) -> Seq<(Seq<char>, EntryV)> {
    v.map_values(|p: (String, OverlayEntry)| (p.0@, p.1@))
}

proof fn lemma_base_kept_contains(bs: Seq<Seq<char>>, entries: OverlayV, prefix: Option<Seq<char>>, x: Seq<char>)
    ensures
        base_kept(bs, entries, prefix).contains(x) <==> (bs.contains(x) && prefix_ok(x, prefix) && !entries.dom().contains(x)),
    decreases bs.len(),
{
    if bs.len() > 0 {
        lemma_base_kept_contains(bs.drop_last(), entries, prefix, x);
        lemma_seq_push_contains(bs.drop_last(), bs.last(), x);
        assert(bs =~= bs.drop_last().push(bs.last()));
        let prev = base_kept(bs.drop_last(), entries, prefix);
        if prefix_ok(bs.last(), prefix) && !entries.dom().contains(bs.last()) {
            assert(prev + seq![bs.last()] =~= prev.push(bs.last()));
            lemma_seq_push_contains(prev, bs.last(), x);
        } else {
            assert(prev + Seq::<Seq<char>>::empty() =~= prev);
        }
    }
}

proof fn lemma_live_paths_contains(cs: Seq<(Seq<char>, EntryV)>, prefix: Option<Seq<char>>, x: Seq<char>)
    ensures
        live_paths(cs, prefix).contains(x) <==> exists|j: int| 0 <= j < cs.len() && #[trigger] cs[j].0 == x
            && prefix_ok(x, prefix) && !(cs[j].1 is Deleted),
    decreases cs.len(),
{
    if cs.len() > 0 {
        let init = cs.drop_last();
        lemma_live_paths_contains(init, prefix, x);
        let prev = live_paths(init, prefix);
        let last = cs.last();
        if prefix_ok(last.0, prefix) && !(last.1 is Deleted) {
            assert(prev + seq![last.0] =~= prev.push(last.0));
            lemma_seq_push_contains(prev, last.0, x);
        } else {
            assert(prev + Seq::<Seq<char>>::empty() =~= prev);
        }
        if exists|j: int| 0 <= j < cs.len() && #[trigger] cs[j].0 == x && prefix_ok(x, prefix) && !(cs[j].1 is Deleted) {
            let j = choose|j: int| 0 <= j < cs.len() && #[trigger] cs[j].0 == x && prefix_ok(x, prefix) && !(cs[j].1 is Deleted);
            if j < init.len() {
                assert(init[j].0 == x);
            }
        }
        if exists|j: int| 0 <= j < init.len() && #[trigger] init[j].0 == x && prefix_ok(x, prefix) && !(init[j].1 is Deleted) {
            let j = choose|j: int| 0 <= j < init.len() && #[trigger] init[j].0 == x && prefix_ok(x, prefix) && !(init[j].1 is Deleted);
            assert(cs[j].0 == x);
        }
    }
}

/// What the candidate list of `list_files` holds is the visible set.
proof fn lemma_visible(
    entries: OverlayV,
    bv: Seq<Seq<char>>,
    pre: Option<Seq<char>>,
    changes: Seq<(String, OverlayEntry)>,
    candidates: Seq<Seq<char>>,
    from_base: Seq<Seq<char>>,
)
    requires
        lists_paths(crate::workspace::overlay::change_paths(changes), entries),
        forall|j: int| 0 <= j < changes.len() ==> entries[(#[trigger] changes[j]).0@] == changes[j].1@,
        from_base == base_kept(bv, entries, pre),
        candidates == from_base + live_paths(changes_view(changes), pre),
    ensures
        candidates.to_set() == visible_files(entries, bv, pre),
{
    let cv = changes_view(changes);
    let ps = crate::workspace::overlay::change_paths(changes);
    assert forall|x: Seq<char>| candidates.to_set().contains(x) <==> visible_files(entries, bv, pre).contains(x) by {
        lemma_base_kept_contains(bv, entries, pre, x);
        lemma_live_paths_contains(cv, pre, x);
        assert(candidates.contains(x) <==> (from_base.contains(x) || live_paths(cv, pre).contains(x))) by {
            let lp = live_paths(cv, pre);
            if candidates.contains(x) {
                let k = choose|k: int| 0 <= k < candidates.len() && candidates[k] == x;
                if k < from_base.len() {
                    assert(from_base[k] == x);
                } else {
                    assert(lp[k - from_base.len()] == x);
                }
            }
            if from_base.contains(x) {
                let k = choose|k: int| 0 <= k < from_base.len() && from_base[k] == x;
                assert(candidates[k] == x);
            }
            if lp.contains(x) {
                let k = choose|k: int| 0 <= k < lp.len() && lp[k] == x;
                assert(candidates[from_base.len() + k] == x);
            }
        }
        if entries.dom().contains(x) {
            assert(ps.to_set().contains(x));
            let j = choose|j: int| 0 <= j < ps.len() && ps[j] == x;
            assert(cv[j].0 == x);
            assert(entries[changes[j].0@] == changes[j].1@);
            if exists|j2: int| 0 <= j2 < cv.len() && #[trigger] cv[j2].0 == x && prefix_ok(x, pre) && !(cv[j2].1 is Deleted) {
                let j2 = choose|j2: int| 0 <= j2 < cv.len() && #[trigger] cv[j2].0 == x && prefix_ok(x, pre) && !(cv[j2].1 is Deleted);
                assert(entries[changes[j2].0@] == changes[j2].1@);
            }
        } else {
            if exists|j2: int| 0 <= j2 < cv.len() && #[trigger] cv[j2].0 == x && prefix_ok(x, pre) && !(cv[j2].1 is Deleted) {
                let j2 = choose|j2: int| 0 <= j2 < cv.len() && #[trigger] cv[j2].0 == x && prefix_ok(x, pre) && !(cv[j2].1 is Deleted);
                assert(ps[j2] == x);
                assert(ps.to_set().contains(x));
            }
        }
    }
    assert(candidates.to_set() =~= visible_files(entries, bv, pre));
}

/// The error a read of a file deleted in this session gives.
pub open spec fn deleted_read_error(path: Seq<char>) -> Seq<char> {
    "file '"@ + path + "' has been deleted in this session"@
}

/// One step of rebuilding the session graph from the overlay.
pub enum ReindexStep {
    /// The file was deleted: drop the session's symbols of it.
    ClearFile { path: String },
    /// The file has content in a supported language: parse it and fold the
    /// symbols in as session additions.
    Parse { path: String, source: String },
}

/// Abstract reindex step: the path, and the source to parse (`None` for a
/// deletion).
pub open spec fn step_view(s: ReindexStep) -> (Seq<char>, Option<Seq<char>>) {
    match s {
        ReindexStep::ClearFile { path } => (path@, None),
        ReindexStep::Parse { path, source } => (path@, Some(source@)),
    }
}

/// The reindex steps for the overlay entries at paths `ps`, and the error
/// that stops the walk, if any: deletions clear, unsupported files are
/// skipped, content in a supported language must be valid UTF-8.
pub open spec fn reindex_spec(entries: OverlayV, exts: Seq<Seq<char>>, ps: Seq<Seq<char>>)
    -> (Seq<(Seq<char>, Option<Seq<char>>)>, Option<Seq<char>>)
    decreases ps.len(),
{
    if ps.len() == 0 {
        (Seq::empty(), None)
    } else {
        let prev = reindex_spec(entries, exts, ps.drop_last());
        let p = ps.last();
        if prev.1 is Some {
            prev
        } else {
            match entry_content(entries[p]) {
                None => (prev.0.push((p, None)), None),
                Some(c) => if !(path_extension(p) matches Some(e) && exts.contains(e)) {
                    prev
                } else if valid_utf8(c) {
                    (prev.0.push((p, Some(decode_utf8(c)))), None)
                } else {
                    (prev.0, Some("reindex_from_overlay: non-utf8 in "@ + p + ": "@ + utf8_error_text(c)))
                },
            }
        }
    }
}

// ── The workspace ────────────────────────────────────────────────────

/// An isolated workspace for a single agent session.
pub struct SessionWorkspace {
    pub id: u128,
    pub session_id: u128,
    pub repo_id: u128,
    pub agent_id: String,
    pub agent_name: String,
    pub changeset_id: u128,
    pub intent: String,
    pub base_commit: String,
    pub overlay: FileOverlay,
    pub graph: SessionGraph,
    pub mode: WorkspaceMode,
    pub state: WorkspaceState,
    /// Milliseconds since the Unix epoch.
    pub created_at: i64,
    /// Milliseconds since the Unix epoch.
    pub last_active: i64,
    /// When each path was last read in this session.
    pub files_read: ReadLog,
}

impl SessionWorkspace {
    /// The read times this workspace has logged, by path.
    pub closed spec fn reads(&self) -> ReadLogV {
        reads_held(self.files_read)
    }

    /// A workspace over existing state, under the given workspace id: an
    /// empty overlay and graph, active, created now.
    pub fn rehydrate(
        workspace_id: u128,
        session_id: u128,
        repo_id: u128,
        agent_id: String,
        changeset_id: u128,
        intent: String,
        base_commit: String,
        mode: WorkspaceMode,
        agent_name: String,
    ) -> (w: Self)
        ensures
            w.id == workspace_id,
            w.session_id == session_id,
            w.repo_id == repo_id,
            w.agent_id == agent_id,
            w.changeset_id == changeset_id,
            w.intent == intent,
            w.base_commit == base_commit,
            w.mode == mode,
            w.agent_name == agent_name,
            w.state == WorkspaceState::Active,
            w.created_at == w.last_active,
            w.overlay.entries() == OverlayV::empty(),
            w.overlay.owner() == workspace_id,
            no_deltas(w.graph@),
            !w.graph@.has_base,
            w.reads() == ReadLogV::empty(),
    {
        let now = now_millis();
        SessionWorkspace {
            id: workspace_id,
            session_id,
            repo_id,
            agent_id,
            agent_name,
            changeset_id,
            intent,
            base_commit,
            overlay: FileOverlay::new(workspace_id),
            graph: SessionGraph::empty(),
            mode,
            state: WorkspaceState::Active,
            created_at: now,
            last_active: now,
            files_read: reads_new(),
        }
    }

    /// A workspace with fresh workspace and changeset ids and an empty agent
    /// name, held in memory only.
    pub fn new_test(
        session_id: u128,
        repo_id: u128,
        agent_id: String,
        intent: String,
        base_commit: String,
        mode: WorkspaceMode,
    ) -> (w: Self)
        ensures
            w.session_id == session_id,
            w.repo_id == repo_id,
            w.agent_id == agent_id,
            w.intent == intent,
            w.base_commit == base_commit,
            w.mode == mode,
            w.agent_name@ == Seq::<char>::empty(),
            w.state == WorkspaceState::Active,
            w.overlay.entries() == OverlayV::empty(),
            w.overlay.owner() == w.id,
            no_deltas(w.graph@),
            !w.graph@.has_base,
            w.reads() == ReadLogV::empty(),
    {
        let id = fresh_id();
        let changeset_id = fresh_id();
        Self::rehydrate(id, session_id, repo_id, agent_id, changeset_id, intent, base_commit, mode, String::new())
    }

    /// Reads a file from the overlay: its content when the session wrote it,
    /// an error when the session deleted it, `None` when the overlay has no
    /// entry and the read falls through to the base tree.
    pub fn read_overlay(&self, path: &str) -> (r: Option<Result<FileReadResult, Error>>)
        ensures
            !self.overlay.entries().dom().contains(path@) ==> r is None,
            self.overlay.entries().dom().contains(path@) ==> match self.overlay.entries()[path@] {
                EntryV::Deleted => r matches Some(Err(Error::Git(m))) && m@ == deleted_read_error(path@),
                EntryV::Modified { content, hash } => r matches Some(Ok(f))
                    && f.content@ == content && f.hash@ == hash && f.modified_in_session,
                EntryV::Added { content, hash } => r matches Some(Ok(f))
                    && f.content@ == content && f.hash@ == hash && f.modified_in_session,
            },
    {
        match self.overlay.get(path) {
            None => None,
            Some(OverlayEntry::Modified { content, hash }) => Some(Ok(FileReadResult { content, hash, modified_in_session: true })),
            Some(OverlayEntry::Added { content, hash }) => Some(Ok(FileReadResult { content, hash, modified_in_session: true })),
            Some(OverlayEntry::Deleted) => {
                let mut m = String::from_str("file '");
                push_text(&mut m, path);
                push_text(&mut m, "' has been deleted in this session");
                Some(Err(Error::Git(m)))
            },
        }
    }

    /// A read that fell through to the base tree: the content with its hash,
    /// not modified in this session.
    pub fn base_read(content: Vec<u8>) -> (r: FileReadResult)
        ensures
            r.content@ == content@,
            r.hash@ == sha256_hex(content@),
            !r.modified_in_session,
    {
        let hash = content_hash(content.as_slice());
        FileReadResult { content, hash, modified_in_session: false }
    }

    /// Lists the files visible in this workspace under the optional prefix.
    /// With `only_modified`, the overlay's paths alone (deletions included),
    /// in the order the overlay hands them out; otherwise the base tree's
    /// files (`base_files`) with the overlay applied, sorted, each once.
    pub fn list_files(&self, base_files: &Vec<String>, only_modified: bool, prefix: Option<&str>) -> (r: Vec<String>)
        ensures
            only_modified ==> exists|ps: Seq<Seq<char>>| lists_paths(ps, self.overlay.entries())
                && texts_of(r@) == keep_prefixed(ps, opt_text(prefix)),
            !only_modified ==> strictly_sorted(texts_of(r@))
                && texts_of(r@).to_set() == visible_files(self.overlay.entries(), texts_of(base_files@), opt_text(prefix)),
    {
        let ghost pre = opt_text(prefix);
        let ghost entries = self.overlay.entries();
        if only_modified {
            let paths = self.overlay.list_paths();
            let ghost pv = paths_view(paths@);
            let mut out: Vec<String> = Vec::new();
            let mut i: usize = 0;
            while i < paths.len()
                invariant
                    i <= paths@.len(),
                    pv == paths_view(paths@),
                    pre == opt_text(prefix),
                    texts_of(out@) == keep_prefixed(pv.take(i as int), pre),
                decreases paths@.len() - i,
            {
                let p = &paths[i];
                assert(pv.take(i as int + 1).drop_last() =~= pv.take(i as int));
                assert(pv.take(i as int + 1).last() == p@);
                if Self::passes(p.as_str(), prefix) {
                    let ghost prior = texts_of(out@);
                    out.push(p.clone());
                    assert(texts_of(out@) =~= prior + seq![p@]);
                } else {
                    assert(keep_prefixed(pv.take(i as int + 1), pre) =~= keep_prefixed(pv.take(i as int), pre));
                }
                i = i + 1;
            }
            assert(pv.take(paths@.len() as int) =~= pv);
            return out;
        }
        let ghost bv = texts_of(base_files@);
        let mut candidates: Vec<String> = Vec::new();
        let mut i: usize = 0;
        while i < base_files.len()
            invariant
                i <= base_files@.len(),
                bv == texts_of(base_files@),
                pre == opt_text(prefix),
                entries == self.overlay.entries(),
                texts_of(candidates@) == base_kept(bv.take(i as int), entries, pre),
            decreases base_files@.len() - i,
        {
            let f = &base_files[i];
            assert(bv[i as int] == f@);
            assert(bv.take(i as int + 1).drop_last() =~= bv.take(i as int));
            assert(bv.take(i as int + 1).last() == f@);
            let ghost prior = texts_of(candidates@);
            let keep = Self::passes(f.as_str(), prefix) && !self.overlay.contains(f.as_str());
            if keep {
                candidates.push(f.clone());
                assert(texts_of(candidates@) =~= prior + seq![f@]);
            } else {
                assert(texts_of(candidates@) =~= prior + Seq::<Seq<char>>::empty());
            }
            i = i + 1;
        }
        assert(bv.take(base_files@.len() as int) =~= bv);
        let ghost from_base = texts_of(candidates@);
        let changes = self.overlay.list_changes();
        let ghost cv = changes_view(changes@);
        let mut k: usize = 0;
        while k < changes.len()
            invariant
                k <= changes@.len(),
                pre == opt_text(prefix),
                cv == changes_view(changes@),
                texts_of(candidates@) == from_base + live_paths(cv.take(k as int), pre),
            decreases changes@.len() - k,
        {
            let (p, e) = (&changes[k].0, &changes[k].1);
            assert(cv[k as int] == (p@, e@));
            assert(cv.take(k as int + 1).drop_last() =~= cv.take(k as int));
            assert(cv.take(k as int + 1).last() == cv[k as int]);
            let ghost prior = texts_of(candidates@);
            let live = match e {
                OverlayEntry::Deleted => false,
                _ => true,
            };
            if live && Self::passes(p.as_str(), prefix) {
                candidates.push(p.clone());
                assert(texts_of(candidates@) =~= prior.push(p@));
                assert(texts_of(candidates@) =~= from_base + live_paths(cv.take(k as int + 1), pre));
            } else {
                assert(texts_of(candidates@) =~= from_base + live_paths(cv.take(k as int + 1), pre));
            }
            k = k + 1;
        }
        assert(cv.take(changes@.len() as int) =~= cv);
        let sorted = sort_unique(candidates);
        proof {
            lemma_visible(entries, bv, pre, changes@, texts_of(candidates@), from_base);
        }
        sorted
    }

    /// Whether `p` passes the optional prefix filter.
    fn passes(p: &str, prefix: Option<&str>) -> (r: bool)
        ensures
            r == prefix_ok(p@, opt_text(prefix)),
    {
        match prefix {
            Some(x) => starts_with(p, x),
            None => true,
        }
    }

    /// Marks the workspace active now: `last_active` takes the clock's
    /// reading and nothing else changes.
    pub fn touch(&mut self)
        ensures
            *final(self) == (SessionWorkspace { last_active: final(self).last_active, ..*old(self) }),
            final(self).reads() == old(self).reads(),
    {
        self.last_active = now_millis();
    }

    /// Records that this session just read `path`.
    pub fn mark_read(&mut self, path: &str)
        ensures
            exists|at: i64| final(self).reads() == old(self).reads().insert(path@, at),
    {
        let at = now_micros();
        reads_insert(&mut self.files_read, String::from_str(path), at);
        assert(self.reads() == old(self).reads().insert(path@, at));
    }

    /// When this session last read `path`, if it ever did.
    pub fn last_read(&self, path: &str) -> (r: Option<i64>)
        ensures
            r == (if self.reads().dom().contains(path@) { Some(self.reads()[path@]) } else { None }),
    {
        reads_get(&self.files_read, path)
    }

    /// The overlay as the tree commit wants it: each changed path with its
    /// new content, `None` for deletions, in the order the overlay hands
    /// them out.
    pub fn overlay_for_tree(&self) -> (r: Vec<OverlayItem>)
        ensures
            lists_paths(items_view(r@).map_values(|it: OverlayItemV| it.0), self.overlay.entries()),
            forall|i: int| 0 <= i < r@.len() ==>
                entry_content(self.overlay.entries()[(#[trigger] items_view(r@)[i]).0]) == items_view(r@)[i].1,
    {
        let changes = self.overlay.list_changes();
        let ghost entries = self.overlay.entries();
        let mut out: Vec<OverlayItem> = Vec::new();
        let mut i: usize = 0;
        while i < changes.len()
            invariant
                i <= changes@.len(),
                entries == self.overlay.entries(),
                forall|j: int| 0 <= j < changes@.len() ==> entries[(#[trigger] changes@[j]).0@] == changes@[j].1@,
                items_view(out@).map_values(|it: OverlayItemV| it.0)
                    == crate::workspace::overlay::change_paths(changes@).take(i as int),
                forall|j: int| 0 <= j < out@.len() ==>
                    entry_content(entries[(#[trigger] items_view(out@)[j]).0]) == items_view(out@)[j].1,
            decreases changes@.len() - i,
        {
            let path = changes[i].0.clone();
            let data = match changes[i].1.content() {
                Some(c) => Some(vstd::slice::slice_to_vec(c)),
                None => None,
            };
            assert(entries[changes@[i as int].0@] == changes@[i as int].1@);
            let ghost prior = items_view(out@);
            out.push((path, data));
            assert(items_view(out@) =~= prior.push(items_view(out@).last()));
            assert(items_view(out@).map_values(|it: OverlayItemV| it.0)
                =~= prior.map_values(|it: OverlayItemV| it.0).push(changes@[i as int].0@));
            assert(crate::workspace::overlay::change_paths(changes@).take(i as int + 1)
                =~= crate::workspace::overlay::change_paths(changes@).take(i as int).push(changes@[i as int].0@));
            i = i + 1;
        }
        assert(crate::workspace::overlay::change_paths(changes@).take(changes@.len() as int)
            =~= crate::workspace::overlay::change_paths(changes@));
        out
    }

    /// The steps that rebuild the session graph from the overlay, entry by
    /// entry in the order the overlay hands them out: a deletion clears the
    /// file's session symbols, content in a language `registry` supports is
    /// to be parsed, anything else is skipped. Content that is not UTF-8
    /// stops the walk; the steps before it still stand, and the error comes
    /// with them.
    pub fn reindex_plan(&self, registry: &ParserRegistry) -> (r: (Vec<ReindexStep>, Option<Error>))
        ensures
            exists|ps: Seq<Seq<char>>| lists_paths(ps, self.overlay.entries()) && ({
                let want = reindex_spec(self.overlay.entries(), registry@, ps);
                &&& r.0@.map_values(|s: ReindexStep| step_view(s)) == want.0
                &&& match want.1 {
                    Some(m) => r.1 matches Some(Error::Internal(e)) && e@ == m,
                    None => r.1 is None,
                }
            }),
    {
        let changes = self.overlay.list_changes();
        let ghost entries = self.overlay.entries();
        let ghost ps = crate::workspace::overlay::change_paths(changes@);
        let mut steps: Vec<ReindexStep> = Vec::new();
        let mut i: usize = 0;
        while i < changes.len()
            invariant
                i <= changes@.len(),
                entries == self.overlay.entries(),
                ps == crate::workspace::overlay::change_paths(changes@),
                lists_paths(ps, entries),
                forall|j: int| 0 <= j < changes@.len() ==> entries[(#[trigger] changes@[j]).0@] == changes@[j].1@,
                reindex_spec(entries, registry@, ps.take(i as int)).1 is None,
                steps@.map_values(|s: ReindexStep| step_view(s)) == reindex_spec(entries, registry@, ps.take(i as int)).0,
            decreases changes@.len() - i,
        {
            let path = &changes[i].0;
            let ghost prior = steps@.map_values(|s: ReindexStep| step_view(s));
            assert(ps.take(i as int + 1).drop_last() =~= ps.take(i as int));
            assert(ps.take(i as int + 1).last() == path@);
            assert(entries[path@] == changes@[i as int].1@);
            match changes[i].1.content() {
                None => {
                    steps.push(ReindexStep::ClearFile { path: path.clone() });
                    assert(steps@.map_values(|s: ReindexStep| step_view(s)) =~= prior.push((path@, None)));
                },
                Some(content) => {
                    if registry.supports_file(path.as_str()) {
                        match utf8_decode(content) {
                            Ok(text) => {
                                let source = String::from_str(text);
                                let ghost sv = source@;
                                steps.push(ReindexStep::Parse { path: path.clone(), source });
                                assert(steps@.map_values(|s: ReindexStep| step_view(s)) =~= prior.push((path@, Some(sv))));
                            },
                            Err(e) => {
                                let mut m = String::from_str("reindex_from_overlay: non-utf8 in ");
                                push_text(&mut m, path.as_str());
                                push_text(&mut m, ": ");
                                push_text(&mut m, e.as_str());
                                proof {
                                    assert(ps.take(i as int + 1) =~= ps.take(i as int).push(path@));
                                }
                                assert(lists_paths(ps, entries));
                                proof {
                                    lemma_reindex_stops(entries, registry@, ps, i as int + 1);
                                }
                                return (steps, Some(Error::Internal(m)));
                            },
                        }
                    }
                },
            }
            i = i + 1;
        }
        assert(ps.take(changes@.len() as int) =~= ps);
        assert(lists_paths(ps, entries));
        (steps, None)
    }
}

/// Once the reindex walk stops on an error, later entries change nothing.
proof fn lemma_reindex_stops(entries: OverlayV, exts: Seq<Seq<char>>, ps: Seq<Seq<char>>, n: int)
    requires
        0 < n <= ps.len(),
        reindex_spec(entries, exts, ps.take(n)).1 is Some,
    ensures
        reindex_spec(entries, exts, ps) == reindex_spec(entries, exts, ps.take(n)),
    decreases ps.len() - n,
{
    if n < ps.len() {
        assert(ps.take(n + 1).drop_last() =~= ps.take(n));
        lemma_reindex_stops(entries, exts, ps, n + 1);
    } else {
        assert(ps.take(n) =~= ps);
    }
}

proof fn lemma_seq_push_contains(s: Seq<Seq<char>>, v: Seq<char>, x: Seq<char>)
    ensures
        s.push(v).contains(x) <==> (s.contains(x) || x == v),
{
    let t = s.push(v);
    if t.contains(x) {
        let k = choose|k: int| 0 <= k < t.len() && t[k] == x;
        if k < s.len() {
            assert(s[k] == x);
        }
    }
    if s.contains(x) {
        let k = choose|k: int| 0 <= k < s.len() && s[k] == x;
        assert(t[k] == x);
    }
    if x == v {
        assert(t[s.len() as int] == x);
    }
}

} // verus!
