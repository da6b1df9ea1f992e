//! The decisions of the workspace manager: pinning, stranding, garbage
//! collection, resume and lock re-acquisition, and the notes it gives about
//! other sessions' changes.

use vstd::prelude::*;
use dashmap::DashMap;
use crate::changeset::{ChangesetState, lemma_labels_parse, parse_state, state_is_terminal};
use crate::conflict::claim_tracker::{
    acquire_spec, release_one_spec, AcquireOutcome, HeldV, LocalClaimTracker, SymbolClaim, ClaimV,
};
use crate::domain::{Error, SymbolKind};
use crate::text::{join_with, join_texts, decimal, decimal_text, is_whitespace, is_ws, push_char, push_text, str_eq, texts_of, trim_left, trim_right,
    lemma_trim_left_from, lemma_trim_right_to};
use crate::workspace::overlay::{lists_paths, paths_view};
use crate::workspace::session_graph::{changed_in_file, lists};
use crate::workspace::session_workspace::{SessionWorkspace, WorkspaceMode, workspace_state_label};

verus! {

// ── Reasons and outcomes ─────────────────────────────────────────────

/// Why a workspace was stranded.
#[derive(Debug, Clone, Copy, PartialEq, Eq, Structural)]
pub enum StrandReason {
    IdleTtl,
    CleanupDisconnected,
    StartupReconcile,
    Explicit,
}

impl StrandReason {
    /// The stored label of the reason.
    pub fn as_str(self) -> (s: &'static str)
        ensures
            s@ == (match self {
                StrandReason::IdleTtl => "idle_ttl"@,
                StrandReason::CleanupDisconnected => "cleanup_disconnected"@,
                StrandReason::StartupReconcile => "startup_reconcile"@,
                StrandReason::Explicit => "explicit"@,
            }),
    {
        match self {
            StrandReason::IdleTtl => "idle_ttl",
            StrandReason::CleanupDisconnected => "cleanup_disconnected",
            StrandReason::StartupReconcile => "startup_reconcile",
            StrandReason::Explicit => "explicit",
        }
    }
}

/// Why a workspace was permanently abandoned.
#[derive(Debug, Clone)]
pub enum AbandonReason {
    AutoTtl,
    Explicit { caller: String },
    Admin { operator: String },
}

impl AbandonReason {
    /// The stored label of the reason.
    pub fn as_str(&self) -> (s: &'static str)
        ensures
            s@ == (match self {
                AbandonReason::AutoTtl => "auto_ttl"@,
                AbandonReason::Explicit { .. } => "explicit"@,
                AbandonReason::Admin { .. } => "admin"@,
            }),
    {
        match self {
            AbandonReason::AutoTtl => "auto_ttl",
            AbandonReason::Explicit { .. } => "explicit",
            AbandonReason::Admin { .. } => "admin",
        }
    }
}

/// Outcome of resuming a stranded workspace.
#[derive(Debug)]
pub enum ResumeResult {
    /// Rehydrated under the given new session id.
    Resumed(u128),
    /// Symbols are held by other live sessions.
    Contended(Vec<ConflictingSymbol>),
    /// An earlier resume already succeeded; the session that won it.
    AlreadyResumed(u128),
    /// The workspace was permanently abandoned.
    Abandoned,
    /// The session does not map to a stranded workspace.
    NotStranded,
}

/// A symbol held by a competing session that prevents lock re-acquire.
#[derive(Debug, Clone)]
pub struct ConflictingSymbol {
    pub qualified_name: String,
    pub file_path: String,
    pub claimant_session: u128,
    pub claimant_agent: String,
}

/// Lightweight snapshot of a session workspace.
#[derive(Debug, Clone)]
pub struct SessionInfo {
    pub session_id: u128,
    pub agent_id: String,
    pub agent_name: String,
    pub intent: String,
    pub repo_id: u128,
    pub changeset_id: u128,
    pub state: String,
    pub elapsed_secs: u64,
}

// ── Pinning ──────────────────────────────────────────────────────────

pub open spec fn ascii_lower(c: char) -> char {
    if 'A' <= c && c <= 'Z' { ((c as u32) + 32) as char } else { c }
}

/// The text of `s` between its leading and trailing white space.
pub open spec fn trimmed(s: Seq<char>) -> Seq<char> {
    trim_right(trim_left(s))
}

/// Whether the pin flag's setting turns pinning off: one of "0", "false",
/// "off", "no", ignoring surrounding white space and ASCII case.
pub open spec fn pin_disabled_by(v: Seq<char>) -> bool {
    let t = trimmed(v).map_values(|c: char| ascii_lower(c));
    t == "0"@ || t == "false"@ || t == "off"@ || t == "no"@
}

fn lower_char(c: char) -> (r: char)
    ensures
        r == ascii_lower(c),
{
    if 'A' <= c && c <= 'Z' {
        let code: u8 = (c as u8) + 32;
        code as char
    } else {
        c
    }
}

/// Whether pinning of non-terminal workspaces is on, given the setting of
/// its flag (`None` when unset): on unless the setting turns it off.
pub fn pin_flag_from(setting: Option<&str>) -> (r: bool)
    ensures
        r == match setting {
            Some(v) => !pin_disabled_by(v@),
            None => true,
        },
{
    let v = match setting {
        Some(v) => v,
        None => return true,
    };
    let chars = crate::text::to_chars(v);
    let n = chars.len();
    let mut lo: usize = 0;
    while lo < n && is_whitespace(chars[lo])
        invariant
            n == chars@.len(),
            chars@ == v@,
            lo <= n,
            forall|j: int| 0 <= j < lo ==> is_ws(chars@[j]),
        decreases n - lo,
    {
        lo = lo + 1;
    }
    let mut hi: usize = n;
    while hi > lo && is_whitespace(chars[hi - 1])
        invariant
            n == chars@.len(),
            lo <= hi <= n,
            forall|j: int| hi <= j < n ==> is_ws(chars@[j]),
        decreases hi,
    {
        hi = hi - 1;
    }
    let mut lowered: Vec<char> = Vec::new();
    let mut i = lo;
    while i < hi
        invariant
            lo <= i <= hi <= n,
            n == chars@.len(),
            lowered@ == chars@.subrange(lo as int, i as int).map_values(|c: char| ascii_lower(c)),
        decreases hi - i,
    {
        lowered.push(lower_char(chars[i]));
        assert(chars@.subrange(lo as int, i + 1).map_values(|c: char| ascii_lower(c))
            =~= chars@.subrange(lo as int, i as int).map_values(|c: char| ascii_lower(c)).push(ascii_lower(chars@[i as int])));
        i = i + 1;
    }
    proof {
        let s = v@;
        lemma_trim_left_from(s, lo as int);
        let t = s.subrange(lo as int, n as int);
        assert forall|k: int| hi - lo <= k < t.len() implies is_ws(t[k]) by {
            assert(t[k] == s[lo + k]);
        }
        lemma_trim_right_to(t, hi - lo);
        assert(t.subrange(0, hi - lo) =~= chars@.subrange(lo as int, hi as int));
    }
    let off = eq_chars(&lowered, "0") || eq_chars(&lowered, "false") || eq_chars(&lowered, "off") || eq_chars(&lowered, "no");
    !off
}

fn eq_chars(v: &Vec<char>, w: &str) -> (r: bool)
    ensures
        r == (v@ == w@),
{
    let n = w.unicode_len();
    if v.len() != n {
        return false;
    }
    let mut i: usize = 0;
    while i < n
        invariant
            n == w@.len(),
            n == v@.len(),
            i <= n,
            forall|j: int| 0 <= j < i ==> v@[j] == w@[j],
        decreases n - i,
    {
        if v[i] != w.get_char(i) {
            return false;
        }
        i = i + 1;
    }
    assert(v@ =~= w@);
    true
}

/// Whether a workspace whose changeset is in state `state` (`None` when no
/// changeset row was found) is pinned: its changeset is known and not
/// terminal.
pub fn pin_decision(state: Option<&str>) -> (r: bool)
    ensures
        r == match state {
            Some(s) => parse_state(s@) matches Some(cs) && !state_is_terminal(cs),
            None => false,
        },
{
    match state {
        Some(s) => match ChangesetState::parse(s) {
            Some(cs) => !cs.is_terminal(),
            None => false,
        },
        None => false,
    }
}

/// What garbage collection does with a candidate workspace.
#[derive(Debug, Clone, Copy, PartialEq, Eq, Structural)]
pub enum GcAction {
    /// Pinned: the workspace stays.
    Skip,
    /// Non-terminal but pinning is off: strand it so it can be resumed.
    Strand,
    /// Terminal: evict it.
    Evict,
}

/// The garbage-collection action for a candidate whose changeset is
/// non-terminal or not, with pinning on or off.
pub fn gc_action(flag_on: bool, non_terminal: bool) -> (r: GcAction)
    ensures
        r == (if flag_on && non_terminal {
            GcAction::Skip
        } else if non_terminal {
            GcAction::Strand
        } else {
            GcAction::Evict
        }),
{
    if flag_on && non_terminal {
        GcAction::Skip
    } else if non_terminal {
        GcAction::Strand
    } else {
        GcAction::Evict
    }
}

/// Time from `then` to `now`, zero when `then` is later.
pub open spec fn elapsed(now: i64, then: i64) -> int {
    if now > then { now - then } else { 0 }
}

/// Whether a workspace idle since `last_active` and alive since
/// `created_at` has outlived `idle_ttl` or `max_ttl` at `now` (all in
/// milliseconds).
pub fn idle_expired(now: i64, last_active: i64, created_at: i64, idle_ttl: u64, max_ttl: u64) -> (r: bool)
    ensures
        r == (elapsed(now, last_active) > idle_ttl || elapsed(now, created_at) > max_ttl),
{
    let idle: i128 = if now > last_active { now as i128 - last_active as i128 } else { 0 };
    let total: i128 = if now > created_at { now as i128 - created_at as i128 } else { 0 };
    idle > idle_ttl as i128 || total > max_ttl as i128
}

/// Whether a workspace in `mode` has reached its expiry deadline at `now`.
pub fn deadline_passed(mode: &WorkspaceMode, now: i64) -> (r: bool)
    ensures
        r == (*mode matches WorkspaceMode::Persistent { expires_at: Some(d) } && now >= d),
{
    match mode {
        WorkspaceMode::Persistent { expires_at: Some(d) } => now >= *d,
        _ => false,
    }
}

// ── Resume ───────────────────────────────────────────────────────────

/// The stored row of a workspace being resumed.
#[derive(Debug, Clone)]
pub struct ResumeRow {
    pub workspace_id: u128,
    pub repo_id: u128,
    pub changeset_id: Option<u128>,
    pub agent_id: String,
    pub intent: String,
    pub base_commit: String,
    pub mode: String,
    pub agent_name: String,
    pub stranded: bool,
    pub abandoned: bool,
    pub superseded_by: Option<u128>,
    pub changeset_state: Option<String>,
}

/// What resume does once it has read the workspace's row.
#[derive(Debug)]
pub enum ResumeStep {
    /// Stop with this result (the row is left as it is).
    Finish(ResumeResult),
    /// Refuse the caller.
    Refuse(Error),
    /// Rotate the row to the new session and rehydrate.
    Rotate,
}

/// The error a resume by another agent gives.
pub open spec fn unauthorized_message(orig: Seq<char>) -> Seq<char> {
    "resume unauthorized: requires original agent_id '"@ + orig + "'"@
}

/// Decides what resume does with the row read for the dead session: no row
/// is not stranded; an abandoned workspace or a merged, rejected or closed
/// changeset is
/// abandoned; a row no longer stranded was resumed already (by the stored
/// successor) or is simply live; another agent is refused; otherwise the
/// workspace is rotated to the new session.
/// The changeset states that end a workspace for good, so that it cannot be
/// resumed: merged, rejected and closed. (A draft changeset can still be
/// resumed.)
pub open spec fn resume_terminal(cs: ChangesetState) -> bool {
    cs == ChangesetState::Merged || cs == ChangesetState::Rejected || cs == ChangesetState::Closed
}

pub fn resume_decision(row: &Option<ResumeRow>, agent_id: &str) -> (r: ResumeStep)
    ensures
        row matches Some(w) && w.changeset_state matches Some(st) && (st@ == "merged"@ || st@ == "rejected"@
            || st@ == "closed"@) ==> r matches ResumeStep::Finish(ResumeResult::Abandoned),
        r matches ResumeStep::Rotate ==> row matches Some(w) && w.stranded && !w.abandoned && w.agent_id@ == agent_id@
            && !(w.changeset_state matches Some(st) && (st@ == "merged"@ || st@ == "rejected"@ || st@ == "closed"@)),
        match row {
            None => r matches ResumeStep::Finish(ResumeResult::NotStranded),
            Some(w) => if w.abandoned {
                r matches ResumeStep::Finish(ResumeResult::Abandoned)
            } else if w.changeset_state matches Some(st) && parse_state(st@) matches Some(cs) && resume_terminal(cs) {
                r matches ResumeStep::Finish(ResumeResult::Abandoned)
            } else if !w.stranded {
                match w.superseded_by {
                    Some(s) => r matches ResumeStep::Finish(ResumeResult::AlreadyResumed(x)) && x == s,
                    None => r matches ResumeStep::Finish(ResumeResult::NotStranded),
                }
            } else if !(w.agent_id@ == agent_id@) {
                r matches ResumeStep::Refuse(Error::Internal(m)) && m@ == unauthorized_message(w.agent_id@)
            } else {
                r matches ResumeStep::Rotate
            },
        },
{
    proof {
        lemma_labels_parse(ChangesetState::Merged);
        lemma_labels_parse(ChangesetState::Rejected);
        lemma_labels_parse(ChangesetState::Closed);
    }
    let w = match row {
        None => return ResumeStep::Finish(ResumeResult::NotStranded),
        Some(w) => w,
    };
    if w.abandoned {
        return ResumeStep::Finish(ResumeResult::Abandoned);
    }
    match &w.changeset_state {
        Some(st) => match ChangesetState::parse(st.as_str()) {
            Some(cs) => {
                if cs == ChangesetState::Merged || cs == ChangesetState::Rejected || cs == ChangesetState::Closed {
                    return ResumeStep::Finish(ResumeResult::Abandoned);
                }
            },
            None => {},
        },
        None => {},
    }
    if !w.stranded {
        return match w.superseded_by {
            Some(s) => ResumeStep::Finish(ResumeResult::AlreadyResumed(s)),
            None => ResumeStep::Finish(ResumeResult::NotStranded),
        };
    }
    if !str_eq(w.agent_id.as_str(), agent_id) {
        let mut m = String::from_str("resume unauthorized: requires original agent_id '");
        push_text(&mut m, w.agent_id.as_str());
        push_text(&mut m, "'");
        return ResumeStep::Refuse(Error::Internal(m));
    }
    ResumeStep::Rotate
}

/// The mode a stored label names: "persistent" (with no deadline) or, for
/// any other label, ephemeral.
pub fn mode_from_label(label: &str) -> (r: WorkspaceMode)
    ensures
        r == (if label@ == "persistent"@ {
            WorkspaceMode::Persistent { expires_at: None }
        } else {
            WorkspaceMode::Ephemeral
        }),
{
    if str_eq(label, "persistent") {
        WorkspaceMode::Persistent { expires_at: None }
    } else {
        WorkspaceMode::Ephemeral
    }
}

/// Abstract lock target: (file path, qualified name).
pub type TargetV = (Seq<char>, Seq<char>);

pub open spec fn targets_view(v: Seq<(String, String)>) -> Seq<TargetV> {
    v.map_values(|p: (String, String)| (p.0@, p.1@))
}

/// The (file, symbol) pairs of files `ps`, file `ps[i]` with symbols
/// `ns[i]`, in order.
pub open spec fn pairs_of(ps: Seq<Seq<char>>, ns: Seq<Seq<Seq<char>>>) -> Seq<TargetV>
    decreases ps.len(),
{
    if ps.len() == 0 || ns.len() != ps.len() {
        Seq::empty()
    } else {
        pairs_of(ps.drop_last(), ns.drop_last()) + ns.last().map_values(|n: Seq<char>| (ps.last(), n))
    }
}

/// The (file, symbol) pairs whose locks a resumed workspace re-acquires:
/// file by file over its overlay, every symbol its graph reports changed in
/// the file.
pub fn lock_targets(ws: &SessionWorkspace) -> (r: Vec<(String, String)>)
    ensures
        exists|ps: Seq<Seq<char>>, ns: Seq<Seq<Seq<char>>>|
            #![trigger lists_paths(ps, ws.overlay.entries()), pairs_of(ps, ns)]
            lists_paths(ps, ws.overlay.entries()) && ns.len() == ps.len()
            && (forall|i: int| 0 <= i < ps.len() ==> changed_in_file(ws.graph@, ps[i], #[trigger] ns[i]))
            && targets_view(r@) == pairs_of(ps, ns),
{
    let paths = ws.overlay.list_paths();
    let ghost ps = paths_view(paths@);
    let ghost mut ns: Seq<Seq<Seq<char>>> = Seq::empty();
    let mut out: Vec<(String, String)> = Vec::new();
    let mut i: usize = 0;
    while i < paths.len()
        invariant
            i <= paths@.len(),
            ps == paths_view(paths@),
            ns.len() == i,
            forall|k: int| 0 <= k < i ==> changed_in_file(ws.graph@, ps[k], #[trigger] ns[k]),
            targets_view(out@) == pairs_of(ps.take(i as int), ns),
        decreases paths@.len() - i,
    {
        let path = &paths[i];
        let names = ws.graph.changed_symbols_for_file(path.as_str());
        let ghost nv = texts_of(names@);
        let ghost before = targets_view(out@);
        let mut j: usize = 0;
        while j < names.len()
            invariant
                j <= names@.len(),
                nv == texts_of(names@),
                targets_view(out@) == before + nv.take(j as int).map_values(|n: Seq<char>| (path@, n)),
            decreases names@.len() - j,
        {
            let ghost prior = targets_view(out@);
            out.push((path.clone(), names[j].clone()));
            assert(targets_view(out@) =~= prior.push((path@, names@[j as int]@)));
            assert(nv.take(j as int + 1) =~= nv.take(j as int).push(nv[j as int]));
            assert(targets_view(out@) =~= before + nv.take(j as int + 1).map_values(|n: Seq<char>| (path@, n)));
            j = j + 1;
        }
        assert(nv.take(names@.len() as int) =~= nv);
        proof {
            assert(ps[i as int] == path@);
            let old_ns = ns;
            ns = ns.push(nv);
            assert(ns.drop_last() =~= old_ns);
            assert(ps.take(i as int + 1).drop_last() =~= ps.take(i as int));
            assert(texts_of(names@) == crate::workspace::session_graph::texts(names@));
        }
        i = i + 1;
    }
    assert(ps.take(paths@.len() as int) =~= ps);
    out
}

// ── Lock re-acquisition ──────────────────────────────────────────────

/// A contended target: the target and the session and agent holding it.
pub type ContendedV = (TargetV, u128, Seq<char>);

/// The claim map, the freshly acquired targets and the contended ones after
/// session `session` tries to lock the first `n` targets (the i-th with
/// a claim made at `ats[i]`).
pub open spec fn reacquire_spec(
    h: HeldV, repo: u128, session: u128, agent: Seq<char>, ats: Seq<i64>, ts: Seq<TargetV>, n: int,
) -> (HeldV, Seq<TargetV>, Seq<ContendedV>)
    decreases n,
{
    if n <= 0 || n > ts.len() || n > ats.len() {
        (h, Seq::empty(), Seq::empty())
    } else {
        let prev = reacquire_spec(h, repo, session, agent, ats, ts, n - 1);
        let t = ts[n - 1];
        let c: ClaimV = (session, agent, t.1, SymbolKind::Function, ats[n - 1]);
        let step = acquire_spec(prev.0, (repo, t.0), c);
        match step.1 {
            Ok(AcquireOutcome::Fresh) => (step.0, prev.1.push(t), prev.2),
            Ok(AcquireOutcome::ReAcquired) => (step.0, prev.1, prev.2),
            Err(l) => (step.0, prev.1, prev.2.push((t, l.2, l.3))),
        }
    }
}

/// The outcome of trying to lock all the targets `ts`.
pub open spec fn reacquire_all(
    h: HeldV, repo: u128, session: u128, agent: Seq<char>, ats: Seq<i64>, ts: Seq<TargetV>,
) -> (HeldV, Seq<TargetV>, Seq<ContendedV>) {
    reacquire_spec(h, repo, session, agent, ats, ts, ts.len() as int)
}

/// The claim map after session `session` releases the first `n` of the
/// targets `acq`.
pub open spec fn rollback_spec(h: HeldV, repo: u128, session: u128, acq: Seq<TargetV>, n: int) -> HeldV
    decreases n,
{
    if n <= 0 || n > acq.len() {
        h
    } else {
        release_one_spec(rollback_spec(h, repo, session, acq, n - 1), (repo, acq[n - 1].0), session, acq[n - 1].1)
    }
}

pub open spec fn conflicting_view(v: Seq<ConflictingSymbol>) -> Seq<ContendedV> {
    v.map_values(|c: ConflictingSymbol| ((c.file_path@, c.qualified_name@), c.claimant_session, c.claimant_agent@))
}

/// Session `s` holds no claim anywhere in `h`.
pub open spec fn holds_nothing(h: HeldV, s: u128) -> bool {
    forall|k: (u128, Seq<char>), i: int| h.dom().contains(k) && 0 <= i < h[k].len() ==> #[trigger] h[k][i].0 != s
}

/// Re-acquires the locks of a resumed session on `targets` (file, symbol),
/// in order. When some are held by other sessions, every lock this call
/// freshly took is released again and the contended targets are returned;
/// otherwise the session keeps them all and nothing is returned.
pub fn reacquire_locks(
    tracker: &mut LocalClaimTracker,
    repo_id: u128,
    session: u128,
    agent_name: &str,
    targets: &Vec<(String, String)>,
) -> (r: Vec<ConflictingSymbol>)
    ensures
        exists|ats: Seq<i64>| #![trigger reacquire_all(old(tracker).held(), repo_id, session, agent_name@, ats, targets_view(targets@))]
            ats.len() == targets@.len() && ({
            let s = reacquire_all(old(tracker).held(), repo_id, session, agent_name@, ats, targets_view(targets@));
            &&& conflicting_view(r@) == s.2
            &&& final(tracker).held() == if s.2.len() == 0 { s.0 } else { rollback_spec(s.0, repo_id, session, s.1, s.1.len() as int) }
        }),
{
    let ghost h0 = tracker.held();
    let ghost tv = targets_view(targets@);
    let ghost mut ats: Seq<i64> = Seq::empty();
    let mut acquired: Vec<(String, String)> = Vec::new();
    let mut conflicts: Vec<ConflictingSymbol> = Vec::new();
    let mut i: usize = 0;
    while i < targets.len()
        invariant
            i <= targets@.len(),
            tv == targets_view(targets@),
            ats.len() == i,
            ({
                let s = reacquire_spec(h0, repo_id, session, agent_name@, ats, tv, i as int);
                &&& tracker.held() == s.0
                &&& targets_view(acquired@) == s.1
                &&& conflicting_view(conflicts@) == s.2
            }),
        decreases targets@.len() - i,
    {
        let (path, name) = (&targets[i].0, &targets[i].1);
        let at = crate::ids::now_micros();
        let claim = SymbolClaim {
            session_id: session,
            agent_name: String::from_str(agent_name),
            qualified_name: name.clone(),
            kind: SymbolKind::Function,
            first_touched_at: at,
        };
        let ghost prev_ats = ats;
        proof {
            ats = ats.push(at);
            lemma_reacquire_prefix(h0, repo_id, session, agent_name@, ats, tv, i as int);
            assert(ats.take(i as int) =~= prev_ats);
        }
        let ghost cl = claim@;
        assert(cl == (session, agent_name@, name@, SymbolKind::Function, ats[i as int]));
        let ghost prev = reacquire_spec(h0, repo_id, session, agent_name@, ats, tv, i as int);
        assert(tv[i as int] == (path@, name@));
        let ghost before_acq = targets_view(acquired@);
        let ghost before_con = conflicting_view(conflicts@);
        match tracker.acquire_lock(repo_id, path.as_str(), claim) {
            Ok(AcquireOutcome::Fresh) => {
                acquired.push((path.clone(), name.clone()));
                assert(targets_view(acquired@) =~= before_acq.push((path@, name@)));
            },
            Ok(AcquireOutcome::ReAcquired) => {},
            Err(locked) => {
                let item = ConflictingSymbol {
                    qualified_name: name.clone(),
                    file_path: path.clone(),
                    claimant_session: locked.locked_by_session,
                    claimant_agent: locked.locked_by_agent.clone(),
                };
                conflicts.push(item);
                assert(conflicting_view(conflicts@) =~= before_con.push(((path@, name@), locked@.2, locked@.3)));
            },
        }
        assert({
            let s = reacquire_spec(h0, repo_id, session, agent_name@, ats, tv, i as int + 1);
            &&& tracker.held() == s.0
            &&& targets_view(acquired@) == s.1
            &&& conflicting_view(conflicts@) == s.2
        });
        i = i + 1;
    }
    let ghost s = reacquire_all(h0, repo_id, session, agent_name@, ats, tv);
    if conflicts.len() > 0 {
        let mut k: usize = 0;
        while k < acquired.len()
            invariant
                k <= acquired@.len(),
                targets_view(acquired@) == s.1,
                tracker.held() == rollback_spec(s.0, repo_id, session, s.1, k as int),
            decreases acquired@.len() - k,
        {
            assert(s.1[k as int] == (acquired@[k as int].0@, acquired@[k as int].1@));
            tracker.release_lock(repo_id, acquired[k].0.as_str(), session, acquired[k].1.as_str());
            k = k + 1;
        }
    }
    conflicts
}

/// Every claim `session` holds in `h` is on a target of `acq` (file,
/// symbol) in repository `repo`.
pub open spec fn claims_within(h: HeldV, repo: u128, session: u128, acq: Seq<TargetV>) -> bool {
    forall|k: (u128, Seq<char>), i: int| h.dom().contains(k) && 0 <= i < h[k].len() && #[trigger] h[k][i].0 == session
        ==> k.0 == repo && acq.contains((k.1, h[k][i].2))
}

proof fn lemma_reacquire_within(
    h: HeldV, repo: u128, session: u128, agent: Seq<char>, ats: Seq<i64>, ts: Seq<TargetV>, n: int,
)
    requires
        holds_nothing(h, session),
        0 <= n <= ts.len(),
        n <= ats.len(),
    ensures
        ({
            let s = reacquire_spec(h, repo, session, agent, ats, ts, n);
            claims_within(s.0, repo, session, s.1)
        }),
    decreases n,
{
    if n > 0 {
        lemma_reacquire_within(h, repo, session, agent, ats, ts, n - 1);
        let prev = reacquire_spec(h, repo, session, agent, ats, ts, n - 1);
        let t = ts[n - 1];
        let key = (repo, t.0);
        let c: ClaimV = (session, agent, t.1, SymbolKind::Function, ats[n - 1]);
        let step = acquire_spec(prev.0, key, c);
        let s = reacquire_spec(h, repo, session, agent, ats, ts, n);
        let cs = crate::conflict::claim_tracker::entry_of(prev.0, key);
        if step.1 is Ok {
            crate::conflict::claim_tracker::lemma_record_into_shape(cs, c);
            let rec = crate::conflict::claim_tracker::record_into(cs, c);
            assert(s.0 == prev.0.insert(key, rec));
            assert forall|k: (u128, Seq<char>), i: int| s.0.dom().contains(k) && 0 <= i < s.0[k].len() && #[trigger] s.0[k][i].0 == session
                implies k.0 == repo && s.1.contains((k.1, s.0[k][i].2)) by {
                if k == key {
                    let x = rec[i];
                    if x.0 == c.0 && x.2 == c.2 {
                        if step.1 == Ok::<AcquireOutcome, crate::conflict::claim_tracker::LockedV>(AcquireOutcome::Fresh) {
                            assert(s.1 == prev.1.push(t));
                            assert(s.1[prev.1.len() as int] == (k.1, x.2));
                        } else {
                            let fw = crate::conflict::claim_tracker::first_where(cs, crate::conflict::claim_tracker::own(c.0, c.2));
                            assert(fw is Some);
                            crate::conflict::claim_tracker::lemma_first_where_hit(cs, crate::conflict::claim_tracker::own(c.0, c.2));
                            let j = fw->0;
                            assert(prev.0.dom().contains(key));
                            assert(prev.0[key][j].0 == session);
                            assert(prev.1.contains((key.1, prev.0[key][j].2)));
                            assert(s.1 == prev.1);
                        }
                    } else {
                        assert(i < cs.len() && x == cs[i]);
                        assert(prev.0.dom().contains(key));
                        assert(prev.0[key][i].0 == session);
                        assert(prev.1.contains((k.1, prev.0[key][i].2)));
                        if step.1 == Ok::<AcquireOutcome, crate::conflict::claim_tracker::LockedV>(AcquireOutcome::Fresh) {
                            let j = choose|j: int| 0 <= j < prev.1.len() && prev.1[j] == (k.1, x.2);
                            assert(s.1[j] == (k.1, x.2));
                        }
                    }
                } else {
                    assert(s.0[k] == prev.0[k]);
                    assert(prev.0[k][i].0 == session);
                    assert(prev.1.contains((k.1, prev.0[k][i].2)));
                    if step.1 == Ok::<AcquireOutcome, crate::conflict::claim_tracker::LockedV>(AcquireOutcome::Fresh) {
                        let j = choose|j: int| 0 <= j < prev.1.len() && prev.1[j] == (k.1, s.0[k][i].2);
                        assert(s.1[j] == (k.1, s.0[k][i].2));
                    }
                }
            }
        }
    }
}

proof fn lemma_rollback_within(h: HeldV, repo: u128, session: u128, acq: Seq<TargetV>, m: int)
    requires
        claims_within(h, repo, session, acq),
        0 <= m <= acq.len(),
    ensures
        claims_within(rollback_spec(h, repo, session, acq, m), repo, session, acq.skip(m)),
    decreases m,
{
    broadcast use vstd::seq_lib::group_filter_ensures;
    if m == 0 {
        assert(acq.skip(0) =~= acq);
    } else {
        lemma_rollback_within(h, repo, session, acq, m - 1);
        let r0 = rollback_spec(h, repo, session, acq, m - 1);
        let t = acq[m - 1];
        let key = (repo, t.0);
        let r1 = rollback_spec(h, repo, session, acq, m);
        assert(r1 == release_one_spec(r0, key, session, t.1));
        assert forall|k: (u128, Seq<char>), i: int| r1.dom().contains(k) && 0 <= i < r1[k].len() && #[trigger] r1[k][i].0 == session
            implies k.0 == repo && acq.skip(m).contains((k.1, r1[k][i].2)) by {
            let x = r1[k][i];
            let prior = acq.skip(m - 1);
            if k == key {
                let f = r0[key].filter(crate::conflict::claim_tracker::not_own(session, t.1));
                assert(r1[k] == f);
                assert(f.contains(x));
                r0[key].lemma_filter_contains_rev(crate::conflict::claim_tracker::not_own(session, t.1), x);
                let j = choose|j: int| 0 <= j < r0[key].len() && r0[key][j] == x;
                assert(r0[key][j].0 == session);
                assert(prior.contains((k.1, x.2)));
                assert(crate::conflict::claim_tracker::not_own(session, t.1)(x));
                assert(x.2 != t.1);
                let q = choose|q: int| 0 <= q < prior.len() && prior[q] == (k.1, x.2);
                assert(q != 0);
                assert(acq.skip(m)[q - 1] == (k.1, x.2));
            } else {
                assert(r1[k] == r0[k]);
                assert(r0[k][i].0 == session);
                assert(prior.contains((k.1, x.2)));
                let q = choose|q: int| 0 <= q < prior.len() && prior[q] == (k.1, x.2);
                assert(prior[0] == t);
                assert(q != 0);
                assert(acq.skip(m)[q - 1] == (k.1, x.2));
            }
        }
    }
}

/// A contended re-acquisition takes nothing: a session that held no claim
/// before `reacquire_locks` rolls back every lock it took when some target
/// is held by another session, and holds no claim after.
pub proof fn lemma_contended_reacquire_leaves_nothing(
    h: HeldV, repo: u128, session: u128, agent: Seq<char>, ats: Seq<i64>, ts: Seq<TargetV>,
)
    requires
        holds_nothing(h, session),
        ats.len() == ts.len(),
    ensures
        ({
            let s = reacquire_all(h, repo, session, agent, ats, ts);
            holds_nothing(rollback_spec(s.0, repo, session, s.1, s.1.len() as int), session)
        }),
{
    let s = reacquire_all(h, repo, session, agent, ats, ts);
    lemma_reacquire_within(h, repo, session, agent, ats, ts, ts.len() as int);
    lemma_rollback_within(s.0, repo, session, s.1, s.1.len() as int);
    let r = rollback_spec(s.0, repo, session, s.1, s.1.len() as int);
    assert(s.1.skip(s.1.len() as int) =~= Seq::<TargetV>::empty());
    assert forall|k: (u128, Seq<char>), i: int| r.dom().contains(k) && 0 <= i < r[k].len() implies #[trigger] r[k][i].0 != session by {
        if r[k][i].0 == session {
            assert(s.1.skip(s.1.len() as int).contains((k.1, r[k][i].2)));
        }
    }
}

proof fn lemma_reacquire_prefix(
    h: HeldV, repo: u128, session: u128, agent: Seq<char>, ats: Seq<i64>, ts: Seq<TargetV>, n: int,
)
    requires
        0 <= n < ats.len(),
    ensures
        reacquire_spec(h, repo, session, agent, ats, ts, n) == reacquire_spec(h, repo, session, agent, ats.take(n), ts, n),
    decreases n,
{
    if n > 0 {
        lemma_reacquire_prefix(h, repo, session, agent, ats, ts, n - 1);
        lemma_reacquire_prefix(h, repo, session, agent, ats.take(n), ts, n - 1);
        assert(ats.take(n).take(n - 1) =~= ats.take(n - 1));
    }
}

// ── Notes about other sessions ───────────────────────────────────────

/// The note for one other session's change to a file: up to three of the
/// changed symbols (with ",..." when there are more), then "modified by"
/// and the agent.
pub open spec fn modifier_note(agent: Seq<char>, symbols: Seq<Seq<char>>) -> Seq<char> {
    if symbols.len() == 0 {
        "modified by "@ + agent
    } else if symbols.len() > 3 {
        join_with(symbols.take(3), ", "@) + ",... modified by "@ + agent
    } else {
        join_with(symbols, ", "@) + " modified by "@ + agent
    }
}

/// The note `ws` contributes about file `file_path` of repository
/// `repo_id`, unless it belongs to session `exclude_session`, another
/// repository, or has not touched the file.
pub fn peer_modifier_note(ws: &SessionWorkspace, file_path: &str, repo_id: u128, exclude_session: u128) -> (r: Option<String>)
    ensures
        (ws.repo_id != repo_id || ws.session_id == exclude_session || !ws.overlay.entries().dom().contains(file_path@))
            ==> r is None,
        !(ws.repo_id != repo_id || ws.session_id == exclude_session || !ws.overlay.entries().dom().contains(file_path@))
            ==> (r matches Some(n) && exists|names: Seq<Seq<char>>|
                changed_in_file(ws.graph@, file_path@, names) && n@ == modifier_note(ws.agent_name@, names)),
{
    if ws.repo_id != repo_id || ws.session_id == exclude_session {
        return None;
    }
    if !ws.overlay.contains(file_path) {
        return None;
    }
    let symbols = ws.graph.changed_symbols_for_file(file_path);
    let ghost sv = texts_of(symbols@);
    assert(sv == crate::workspace::session_graph::texts(symbols@));
    let mut note = String::new();
    if symbols.len() == 0 {
        push_text(&mut note, "modified by ");
    } else {
        let mut shown: Vec<String> = Vec::new();
        let mut i: usize = 0;
        while i < symbols.len() && i < 3
            invariant
                i <= symbols@.len(),
                i <= 3,
                sv == texts_of(symbols@),
                texts_of(shown@) == sv.take(i as int),
            decreases 3 - i,
        {
            let ghost prior = texts_of(shown@);
            shown.push(symbols[i].clone());
            assert(texts_of(shown@) =~= prior.push(sv[i as int]));
            assert(sv.take(i as int + 1) =~= sv.take(i as int).push(sv[i as int]));
            i = i + 1;
        }
        let joined = join_texts(&shown, ", ");
        push_text(&mut note, joined.as_str());
        if symbols.len() > 3 {
            push_text(&mut note, ",... modified by ");
        } else {
            assert(sv.take(i as int) =~= sv);
            push_text(&mut note, " modified by ");
        }
    }
    push_text(&mut note, ws.agent_name.as_str());
    assert(note@ =~= modifier_note(ws.agent_name@, sv));
    Some(note)
}

/// The notes of all other sessions, joined with "; " (empty when none).
pub fn join_notes(notes: &Vec<String>) -> (r: String)
    ensures
        r@ == join_with(texts_of(notes@), "; "@),
{
    join_texts(notes, "; ")
}

// ── Agent names ──────────────────────────────────────────────────────

pub type CounterMap = DashMap<u128, u32>;

pub type CountsV = Map<u128, u32>;

/// The counts a counter map holds, by repository.
pub uninterp spec fn counts_held(m: CounterMap) -> Map<u128, u32>;

#[verifier::external_body]
fn counts_new() -> (m: CounterMap)
    ensures
        counts_held(m) == CountsV::empty(),
{
    DashMap::new()
}

/// `DashMap::get`, the count copied out of the read guard.
#[verifier::external_body]
fn counts_get(m: &CounterMap, repo: u128) -> (r: Option<u32>)
    ensures
        r == (if counts_held(*m).dom().contains(repo) { Some(counts_held(*m)[repo]) } else { None }),
{
    match m.get(&repo) {
        Some(entry) => Some(*entry.value()),
        None => None,
    }
}

/// `DashMap::insert`.
#[verifier::external_body]
fn counts_insert(m: &mut CounterMap, repo: u128, n: u32)
    ensures
        counts_held(*final(m)) == counts_held(*old(m)).insert(repo, n),
{
    m.insert(repo, n);
}

/// Per-repository counters of the agent names handed out.
pub struct AgentCounters {
    counts: CounterMap,
}

/// The name of the `n`-th agent of a repository.
pub open spec fn agent_label(n: nat) -> Seq<char> {
    "agent-"@ + decimal(n)
}

impl AgentCounters {
    /// How many names each repository has handed out.
    pub closed spec fn issued(&self) -> Map<u128, u32> {
        counts_held(self.counts)
    }

    /// How many names repository `repo` has handed out.
    pub open spec fn issued_for(&self, repo: u128) -> nat {
        if self.issued().dom().contains(repo) { self.issued()[repo] as nat } else { 0 }
    }

    /// Counters with no name handed out.
    pub fn new() -> (c: Self)
        ensures
            c.issued() == CountsV::empty(),
    {
        AgentCounters { counts: counts_new() }
    }

    /// How many names repository `repo_id` has handed out.
    pub fn issued_count(&self, repo_id: u128) -> (r: u32)
        ensures
            r == self.issued_for(repo_id),
    {
        match counts_get(&self.counts, repo_id) {
            Some(n) => n,
            None => 0,
        }
    }

    /// The next agent name of a repository: "agent-1", "agent-2", ...,
    /// counting per repository.
    pub fn next_agent_name(&mut self, repo_id: u128) -> (r: String)
        requires
            old(self).issued_for(repo_id) < u32::MAX,
        ensures
            final(self).issued() == old(self).issued().insert(repo_id, (old(self).issued_for(repo_id) + 1) as u32),
            r@ == agent_label(old(self).issued_for(repo_id) + 1),
    {
        let n: u32 = match counts_get(&self.counts, repo_id) {
            Some(n) => n,
            None => 0,
        };
        let next = n + 1;
        counts_insert(&mut self.counts, repo_id, next);
        let mut name = String::from_str("agent-");
        let digits = decimal_text(next as u64);
        push_text(&mut name, digits.as_str());
        name
    }
}

/// Names handed out for one repository do not depend on another: each
/// repository counts from 1 on its own.
pub proof fn lemma_agent_counts_independent(issued: Map<u128, u32>, a: u128, b: u128, n: u32)
    requires
        a != b,
    ensures
        issued.insert(a, n).dom().contains(b) == issued.dom().contains(b),
        issued.dom().contains(b) ==> issued.insert(a, n)[b] == issued[b],
{
}

/// The snapshot of a workspace that session listings show, `now` being
/// milliseconds since the Unix epoch.
pub fn session_info(ws: &SessionWorkspace, now: i64) -> (r: SessionInfo)
    ensures
        r.session_id == ws.session_id,
        r.agent_id@ == ws.agent_id@,
        r.agent_name@ == ws.agent_name@,
        r.intent@ == ws.intent@,
        r.repo_id == ws.repo_id,
        r.changeset_id == ws.changeset_id,
        r.state@ == workspace_state_label(ws.state),
        r.elapsed_secs == elapsed(now, ws.created_at) / 1000,
{
    let elapsed_ms: u64 = if now > ws.created_at { (now as i128 - ws.created_at as i128) as u64 } else { 0 };
    SessionInfo {
        session_id: ws.session_id,
        agent_id: ws.agent_id.clone(),
        agent_name: ws.agent_name.clone(),
        intent: ws.intent.clone(),
        repo_id: ws.repo_id,
        changeset_id: ws.changeset_id,
        state: String::from_str(ws.state.as_str()),
        elapsed_secs: elapsed_ms / 1000,
    }
}

/// A changeset that has ended (merged, rejected or closed, the terminal
/// states other than draft) ends its workspace for good, and a draft or a
/// changeset still in flight does not.
pub proof fn lemma_resume_terminal_states(cs: ChangesetState)
    ensures
        resume_terminal(cs) <==> (state_is_terminal(cs) && cs != ChangesetState::Draft),
        resume_terminal(ChangesetState::Merged),
        resume_terminal(ChangesetState::Rejected),
        resume_terminal(ChangesetState::Closed),
        !resume_terminal(ChangesetState::Draft),
        !resume_terminal(ChangesetState::Submitted),
        !resume_terminal(ChangesetState::Verifying),
        !resume_terminal(ChangesetState::Approved),
{
}

} // verus!
