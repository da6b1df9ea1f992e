//! Symbol-level claim tracking across sessions.
//!
//! Two sessions modifying different symbols of the same file do not
//! conflict; only the same symbol touched by two sessions does. Claims are
//! kept per `(repo, file)` in a concurrent map, each entry holding the list of
//! claims on that file in the order they were first made.

use vstd::prelude::*;
use dashmap::DashMap;
use crate::domain::SymbolKind;
use crate::text::str_eq;

verus! {

/// A claim that a particular session has touched a symbol.
#[derive(Debug, Clone)]
pub struct SymbolClaim {
    pub session_id: u128,
    pub agent_name: String,
    pub qualified_name: String,
    pub kind: SymbolKind,
    /// Microseconds since the Unix epoch.
    pub first_touched_at: i64,
}

impl SymbolClaim {
    /// A field-by-field copy of this claim.
    pub fn copied(&self) -> (r: SymbolClaim)
        ensures
            r@ == self@,
    {
        SymbolClaim {
            session_id: self.session_id,
            agent_name: self.agent_name.clone(),
            qualified_name: self.qualified_name.clone(),
            kind: self.kind,
            first_touched_at: self.first_touched_at,
        }
    }
}

/// Abstract claim: (session, agent, qualified name, kind, first touched at).
pub type ClaimV = (u128, Seq<char>, Seq<char>, SymbolKind, i64);

impl View for SymbolClaim {
    type V = ClaimV;

    open spec fn view(&self) -> ClaimV {
        (self.session_id, self.agent_name@, self.qualified_name@, self.kind, self.first_touched_at)
    }
}

/// Information about a detected conflict: another session already claims a
/// symbol that the current session wants to modify.
#[derive(Debug, Clone)]
pub struct ConflictInfo {
    pub qualified_name: String,
    pub kind: SymbolKind,
    pub conflicting_session: u128,
    pub conflicting_agent: String,
    pub first_touched_at: i64,
}

/// Abstract conflict: (qualified name, kind, conflicting session, conflicting
/// agent, first touched at).
pub type ConflictV = (Seq<char>, SymbolKind, u128, Seq<char>, i64);

impl View for ConflictInfo {
    type V = ConflictV;

    open spec fn view(&self) -> ConflictV {
        (self.qualified_name@, self.kind, self.conflicting_session, self.conflicting_agent@, self.first_touched_at)
    }
}

/// A symbol lock held by another session, reported when `acquire_lock` finds
/// the symbol taken.
#[derive(Debug, Clone)]
pub struct SymbolLocked {
    pub qualified_name: String,
    pub kind: SymbolKind,
    pub locked_by_session: u128,
    pub locked_by_agent: String,
    pub locked_since: i64,
    pub file_path: String,
}

/// Abstract lock report: (qualified name, kind, holding session, holding
/// agent, held since, file path).
pub type LockedV = (Seq<char>, SymbolKind, u128, Seq<char>, i64, Seq<char>);

impl View for SymbolLocked {
    type V = LockedV;

    open spec fn view(&self) -> LockedV {
        (self.qualified_name@, self.kind, self.locked_by_session, self.locked_by_agent@, self.locked_since, self.file_path@)
    }
}

/// Outcome of a successful `acquire_lock`.
#[derive(Debug, Clone, Copy, PartialEq, Eq, Structural)]
pub enum AcquireOutcome {
    /// Lock freshly acquired: it belongs in a rollback list.
    Fresh,
    /// The session already held this lock: it stays out of a rollback list.
    ReAcquired,
}

/// A lock given up by a session, so that callers can announce its release.
#[derive(Debug, Clone)]
pub struct ReleasedLock {
    pub file_path: String,
    pub qualified_name: String,
    pub kind: SymbolKind,
    pub agent_name: String,
}

/// Abstract released lock: (file path, qualified name, kind, agent).
pub type ReleasedV = (Seq<char>, Seq<char>, SymbolKind, Seq<char>);

impl View for ReleasedLock {
    type V = ReleasedV;

    open spec fn view(&self) -> ReleasedV {
        (self.file_path@, self.qualified_name@, self.kind, self.agent_name@)
    }
}

/// Key of a claim list: repository and file path.
pub type ClaimKey = (u128, String);

/// Abstract key: repository and file path.
pub type ClaimKeyV = (u128, Seq<char>);

pub open spec fn key_view(k: ClaimKey) -> ClaimKeyV {
    (k.0, k.1@)
}

pub open spec fn keys_view(ks: Seq<ClaimKey>) -> Seq<ClaimKeyV> {
    ks.map_values(|k: ClaimKey| key_view(k))
}

pub open spec fn claims_view(cs: Seq<SymbolClaim>) -> Seq<ClaimV> {
    cs.map_values(|c: SymbolClaim| c@)
}

/// Abstract claim lists by repository and file path.
pub type HeldV = Map<ClaimKeyV, Seq<ClaimV>>;

/// Claim lists by repository and file path.
pub type ClaimMap = DashMap<ClaimKey, Vec<SymbolClaim>>;

/// The claim lists a claim map holds, by repository and file path.
pub uninterp spec fn claims_held(m: ClaimMap) -> HeldV;

/// `DashMap::new`: a map holding nothing.
#[verifier::external_body]
fn claims_new() -> (m: ClaimMap)
    ensures
        claims_held(m) == HeldV::empty(),
{
    DashMap::new()
}

/// `DashMap::get`, with the claim list cloned out of the read guard: the list
/// held under `key`, if there is one.
#[verifier::external_body]
fn claims_get(m: &ClaimMap, key: &ClaimKey) -> (r: Option<Vec<SymbolClaim>>)
    ensures
        r is Some <==> claims_held(*m).dom().contains(key_view(*key)),
        r matches Some(v) ==> claims_view(v@) == claims_held(*m)[key_view(*key)],
{
    match m.get(key) {
        Some(entry) => Some(entry.value().clone()),
        None => None,
    }
}

/// `DashMap::insert`: `key` now holds `value`; every other key is unchanged.
#[verifier::external_body]
fn claims_insert(m: &mut ClaimMap, key: ClaimKey, value: Vec<SymbolClaim>)
    ensures
        claims_held(*final(m)) == claims_held(*old(m)).insert(key_view(key), claims_view(value@)),
{
    m.insert(key, value);
}

/// `DashMap::remove`: takes the list held under `key` out of the map.
#[verifier::external_body]
fn claims_remove(m: &mut ClaimMap, key: &ClaimKey) -> (r: Option<Vec<SymbolClaim>>)
    ensures
        claims_held(*final(m)) == claims_held(*old(m)).remove(key_view(*key)),
        r is Some <==> claims_held(*old(m)).dom().contains(key_view(*key)),
        r matches Some(v) ==> claims_view(v@) == claims_held(*old(m))[key_view(*key)],
{
    match m.remove(key) {
        Some((_, v)) => Some(v),
        None => None,
    }
}

/// `DashMap::iter`, keeping each entry's key: every key of the map exactly
/// once, in an order the map's hashing decides.
#[verifier::external_body]
fn claims_keys(m: &ClaimMap) -> (r: Vec<ClaimKey>)
    ensures
        keys_view(r@).no_duplicates(),
        keys_view(r@).to_set() == claims_held(*m).dom(),
{
    m.iter().map(|entry| entry.key().clone()).collect()
}

/// The index of the first claim that satisfies `f`, if any.
pub open spec fn first_where(cs: Seq<ClaimV>, f: spec_fn(ClaimV) -> bool) -> Option<int> {
    if exists|i: int| 0 <= i < cs.len() && f(cs[i]) && (forall|j: int| 0 <= j < i ==> !f(cs[j])) {
        Some(choose|i: int| 0 <= i < cs.len() && f(cs[i]) && (forall|j: int| 0 <= j < i ==> !f(cs[j])))
    } else {
        None
    }
}

/// A claim by session `s` on symbol `n`.
pub open spec fn own(s: u128, n: Seq<char>) -> spec_fn(ClaimV) -> bool {
    |c: ClaimV| c.0 == s && c.2 == n
}

/// A claim on symbol `n` by a session other than `s`.
pub open spec fn foreign(s: u128, n: Seq<char>) -> spec_fn(ClaimV) -> bool {
    |c: ClaimV| c.0 != s && c.2 == n
}

proof fn lemma_first_where_at(cs: Seq<ClaimV>, f: spec_fn(ClaimV) -> bool, i: int)
    requires
        0 <= i < cs.len(),
        f(cs[i]),
        forall|j: int| 0 <= j < i ==> !f(cs[j]),
    ensures
        first_where(cs, f) == Some(i),
{
    let k = choose|k: int| 0 <= k < cs.len() && f(cs[k]) && (forall|j: int| 0 <= j < k ==> !f(cs[j]));
    assert(0 <= k < cs.len() && f(cs[k]) && (forall|j: int| 0 <= j < k ==> !f(cs[j])));
    if k < i {
        assert(!f(cs[k]));
    } else if k > i {
        assert(!f(cs[i]));
    }
}

/// Finds the first claim in `cs` on symbol `name` that belongs to `session`
/// (when `mine`) or to any other session (when not).
fn find_claim(cs: &Vec<SymbolClaim>, session: u128, name: &str, mine: bool) -> (r: Option<usize>)
    ensures
        match r {
            Some(i) => first_where(claims_view(cs@), if mine { own(session, name@) } else { foreign(session, name@) }) == Some(i as int),
            None => first_where(claims_view(cs@), if mine { own(session, name@) } else { foreign(session, name@) }) is None,
        },
{
    let ghost f = if mine { own(session, name@) } else { foreign(session, name@) };
    let ghost cv = claims_view(cs@);
    let mut i: usize = 0;
    while i < cs.len()
        invariant
            i <= cs@.len(),
            cv == claims_view(cs@),
            f == (if mine { own(session, name@) } else { foreign(session, name@) }),
            forall|j: int| 0 <= j < i ==> !f(#[trigger] cv[j]),
        decreases cs@.len() - i,
    {
        let c = &cs[i];
        let hit = str_eq(c.qualified_name.as_str(), name) && (if mine { c.session_id == session } else { c.session_id != session });
        assert(cv[i as int] == c@);
        if hit {
            proof {
                lemma_first_where_at(cv, f, i as int);
            }
            return Some(i);
        }
        i = i + 1;
    }
    assert(!(exists|i: int| 0 <= i < cv.len() && f(cv[i]) && (forall|j: int| 0 <= j < i ==> !f(cv[j])))) by {
        assert(forall|j: int| 0 <= j < cv.len() ==> !f(#[trigger] cv[j]));
    }
    None
}

/// A claim by a session other than `s`.
pub open spec fn not_session(s: u128) -> spec_fn(ClaimV) -> bool {
    |c: ClaimV| c.0 != s
}

/// A claim by session `s`.
pub open spec fn of_session(s: u128) -> spec_fn(ClaimV) -> bool {
    |c: ClaimV| c.0 == s
}

/// Any claim but session `s`'s claim on symbol `n`.
pub open spec fn not_own(s: u128, n: Seq<char>) -> spec_fn(ClaimV) -> bool {
    |c: ClaimV| !(c.0 == s && c.2 == n)
}

/// The claims held on file `k`, empty when there are none.
pub open spec fn entry_of(h: HeldV, k: ClaimKeyV) -> Seq<ClaimV> {
    if h.dom().contains(k) { h[k] } else { Seq::empty() }
}

/// A claim list after recording claim `c`: a claim by the same session on the
/// same symbol takes the new kind and agent name; otherwise `c` is appended.
pub open spec fn record_into(cs: Seq<ClaimV>, c: ClaimV) -> Seq<ClaimV> {
    match first_where(cs, own(c.0, c.2)) {
        Some(i) => cs.update(i, (cs[i].0, c.1, cs[i].2, c.3, cs[i].4)),
        None => cs.push(c),
    }
}

/// The claim map after `record_claim` of `c` on file `k`.
pub open spec fn record_spec(h: HeldV, k: ClaimKeyV, c: ClaimV) -> HeldV {
    h.insert(k, record_into(entry_of(h, k), c))
}

/// The claim map and the answer after `acquire_lock` of `c` on file `k`: the
/// first claim on the symbol by another session refuses the lock and leaves
/// the map as it was; otherwise the claim is recorded.
pub open spec fn acquire_spec(h: HeldV, k: ClaimKeyV, c: ClaimV) -> (HeldV, Result<AcquireOutcome, LockedV>) {
    let cs = entry_of(h, k);
    match first_where(cs, foreign(c.0, c.2)) {
        Some(i) => (h, Err((c.2, cs[i].3, cs[i].0, cs[i].1, cs[i].4, k.1))),
        None => (
            record_spec(h, k, c),
            Ok(if first_where(cs, own(c.0, c.2)) is Some { AcquireOutcome::ReAcquired } else { AcquireOutcome::Fresh }),
        ),
    }
}

/// The claim map after session `s` releases its lock on symbol `n` in file
/// `k`; an entry left without claims is dropped.
pub open spec fn release_one_spec(h: HeldV, k: ClaimKeyV, s: u128, n: Seq<char>) -> HeldV {
    if h.dom().contains(k) {
        let rest = h[k].filter(not_own(s, n));
        if rest.len() == 0 { h.remove(k) } else { h.insert(k, rest) }
    } else {
        h
    }
}

/// Whether file `k` lies in the scope of a release: the repository `repo`,
/// or every repository when `repo` is `None`.
pub open spec fn picked(repo: Option<u128>, k: ClaimKeyV) -> bool {
    match repo {
        Some(r) => k.0 == r,
        None => true,
    }
}

/// The claim map once session `s` has given up its claims on the picked
/// files among `done`; entries left without claims are dropped.
pub open spec fn without_session_on(h: HeldV, done: Set<ClaimKeyV>, repo: Option<u128>, s: u128) -> HeldV {
    Map::new(
        |k: ClaimKeyV| h.dom().contains(k) && !(done.contains(k) && picked(repo, k) && h[k].filter(not_session(s)).len() == 0),
        |k: ClaimKeyV| if done.contains(k) && picked(repo, k) { h[k].filter(not_session(s)) } else { h[k] },
    )
}

/// The claim map once session `s` has given up all its claims on the picked
/// files.
pub open spec fn without_session(h: HeldV, repo: Option<u128>, s: u128) -> HeldV {
    without_session_on(h, h.dom(), repo, s)
}

pub open spec fn released_of(path: Seq<char>, c: ClaimV) -> ReleasedV {
    (path, c.2, c.3, c.1)
}

/// The locks session `s` gives up, file by file in the order `ks`, each
/// file's in claim order.
pub open spec fn released_in(h: HeldV, ks: Seq<ClaimKeyV>, repo: Option<u128>, s: u128) -> Seq<ReleasedV>
    decreases ks.len(),
{
    if ks.len() == 0 {
        Seq::empty()
    } else {
        let k = ks.last();
        released_in(h, ks.drop_last(), repo, s) + if picked(repo, k) && h.dom().contains(k) {
            h[k].filter(of_session(s)).map_values(|c: ClaimV| released_of(k.1, c))
        } else {
            Seq::empty()
        }
    }
}

/// `ks` lists the files of `h`, each once.
pub open spec fn enumerates(ks: Seq<ClaimKeyV>, h: HeldV) -> bool {
    ks.no_duplicates() && ks.to_set() == h.dom()
}

pub open spec fn conflict_with(name: Seq<char>, kind: SymbolKind, other: ClaimV) -> ConflictV {
    (name, kind, other.0, other.1, other.4)
}

/// Conflicts reported by `check_conflicts` for the first `n` names: for each
/// name in turn, the first claim on it by another session.
pub open spec fn check_spec(cs: Seq<ClaimV>, names: Seq<Seq<char>>, n: int, s: u128) -> Seq<ConflictV>
    decreases n,
{
    if n <= 0 {
        Seq::empty()
    } else {
        let prev = check_spec(cs, names, n - 1, s);
        let nm = names[n - 1];
        match first_where(cs, foreign(s, nm)) {
            Some(j) => prev.push(conflict_with(nm, cs[j].3, cs[j])),
            None => prev,
        }
    }
}

/// Conflicts of session `s` among the first `n` claims of one file's list
/// `all`: each of its own claims that another session also holds, paired with
/// the first such claim.
pub open spec fn mine_conflicts(path: Seq<char>, all: Seq<ClaimV>, n: int, s: u128) -> Seq<(Seq<char>, ConflictV)>
    decreases n,
{
    if n <= 0 {
        Seq::empty()
    } else {
        let prev = mine_conflicts(path, all, n - 1, s);
        let c = all[n - 1];
        if c.0 == s {
            match first_where(all, foreign(s, c.2)) {
                Some(j) => prev.push((path, conflict_with(c.2, c.3, all[j]))),
                None => prev,
            }
        } else {
            prev
        }
    }
}

/// Conflicts of session `s` in repository `repo`, file by file in the order `ks`.
pub open spec fn conflicts_in(h: HeldV, ks: Seq<ClaimKeyV>, repo: u128, s: u128) -> Seq<(Seq<char>, ConflictV)>
    decreases ks.len(),
{
    if ks.len() == 0 {
        Seq::empty()
    } else {
        let k = ks.last();
        conflicts_in(h, ks.drop_last(), repo, s) + if k.0 == repo && h.dom().contains(k) {
            mine_conflicts(k.1, h[k], h[k].len() as int, s)
        } else {
            Seq::empty()
        }
    }
}

pub open spec fn released_view(v: Seq<ReleasedLock>) -> Seq<ReleasedV> {
    v.map_values(|r: ReleasedLock| r@)
}

pub open spec fn conflicts_view(v: Seq<ConflictInfo>) -> Seq<ConflictV> {
    v.map_values(|c: ConflictInfo| c@)
}

pub open spec fn file_conflicts_view(v: Seq<(String, ConflictInfo)>) -> Seq<(Seq<char>, ConflictV)> {
    v.map_values(|p: (String, ConflictInfo)| (p.0@, p.1@))
}

pub open spec fn acquire_view(r: Result<AcquireOutcome, SymbolLocked>) -> Result<AcquireOutcome, LockedV> {
    match r {
        Ok(o) => Ok(o),
        Err(l) => Err(l@),
    }
}

proof fn lemma_filter_step(cs: Seq<ClaimV>, f: spec_fn(ClaimV) -> bool, i: int)
    requires
        0 <= i < cs.len(),
    ensures
        cs.take(i + 1).filter(f) == if f(cs[i]) { cs.take(i).filter(f).push(cs[i]) } else { cs.take(i).filter(f) },
{
    reveal(Seq::filter);
    assert(cs.take(i + 1).drop_last() =~= cs.take(i));
}

/// Splits a claim list into the claims of other sessions and those of
/// `session`, each in list order.
fn split_session(cs: &Vec<SymbolClaim>, session: u128) -> (r: (Vec<SymbolClaim>, Vec<SymbolClaim>))
    ensures
        claims_view(r.0@) == claims_view(cs@).filter(not_session(session)),
        claims_view(r.1@) == claims_view(cs@).filter(of_session(session)),
{
    let ghost cv = claims_view(cs@);
    let mut kept: Vec<SymbolClaim> = Vec::new();
    let mut gone: Vec<SymbolClaim> = Vec::new();
    let mut i: usize = 0;
    while i < cs.len()
        invariant
            i <= cs@.len(),
            cv == claims_view(cs@),
            claims_view(kept@) == cv.take(i as int).filter(not_session(session)),
            claims_view(gone@) == cv.take(i as int).filter(of_session(session)),
        decreases cs@.len() - i,
    {
        proof {
            lemma_filter_step(cv, not_session(session), i as int);
            lemma_filter_step(cv, of_session(session), i as int);
        }
        let c = cs[i].copied();
        assert(c@ == cv[i as int]);
        if c.session_id != session {
            kept.push(c);
            assert(claims_view(kept@) =~= cv.take(i as int).filter(not_session(session)).push(cv[i as int]));
        } else {
            gone.push(c);
            assert(claims_view(gone@) =~= cv.take(i as int).filter(of_session(session)).push(cv[i as int]));
        }
        i = i + 1;
    }
    assert(cv.take(cs@.len() as int) =~= cv);
    (kept, gone)
}

/// Drops session `session`'s claim on symbol `name` from a claim list.
fn drop_own(cs: &Vec<SymbolClaim>, session: u128, name: &str) -> (r: Vec<SymbolClaim>)
    ensures
        claims_view(r@) == claims_view(cs@).filter(not_own(session, name@)),
{
    let ghost cv = claims_view(cs@);
    let mut kept: Vec<SymbolClaim> = Vec::new();
    let mut i: usize = 0;
    while i < cs.len()
        invariant
            i <= cs@.len(),
            cv == claims_view(cs@),
            claims_view(kept@) == cv.take(i as int).filter(not_own(session, name@)),
        decreases cs@.len() - i,
    {
        proof {
            lemma_filter_step(cv, not_own(session, name@), i as int);
        }
        let c = cs[i].copied();
        assert(c@ == cv[i as int]);
        if !(c.session_id == session && str_eq(c.qualified_name.as_str(), name)) {
            kept.push(c);
            assert(claims_view(kept@) =~= cv.take(i as int).filter(not_own(session, name@)).push(cv[i as int]));
        }
        i = i + 1;
    }
    assert(cv.take(cs@.len() as int) =~= cv);
    kept
}

/// Records `claim` in a claim list (see `record_into`); whether the session
/// already had a claim on the symbol there.
fn record_in_list(cs: &mut Vec<SymbolClaim>, claim: SymbolClaim) -> (found: bool)
    ensures
        claims_view(final(cs)@) == record_into(claims_view(old(cs)@), claim@),
        found == first_where(claims_view(old(cs)@), own(claim.session_id, claim.qualified_name@)) is Some,
{
    let ghost cv = claims_view(cs@);
    let ghost cl = claim@;
    match find_claim(cs, claim.session_id, claim.qualified_name.as_str(), true) {
        Some(i) => {
            let updated = SymbolClaim {
                session_id: cs[i].session_id,
                agent_name: claim.agent_name,
                qualified_name: cs[i].qualified_name.clone(),
                kind: claim.kind,
                first_touched_at: cs[i].first_touched_at,
            };
            cs.set(i, updated);
            assert(claims_view(cs@) =~= record_into(cv, cl));
            true
        },
        None => {
            cs.push(claim);
            assert(claims_view(cs@) =~= record_into(cv, cl));
            false
        },
    }
}

/// Thread-safe tracker of symbol-level claims across sessions, keyed by
/// repository and file path.
pub struct LocalClaimTracker {
    claims: ClaimMap,
}

impl LocalClaimTracker {
    /// The claim lists this tracker holds, by repository and file path.
    pub closed spec fn held(&self) -> HeldV {
        claims_held(self.claims)
    }

    /// A tracker holding no claims.
    pub fn new() -> (t: Self)
        ensures
            t.held() == HeldV::empty(),
    {
        LocalClaimTracker { claims: claims_new() }
    }

    /// Takes the claim list of file `key` out of the map (empty when absent).
    fn take_entry(&mut self, key: &ClaimKey) -> (r: Vec<SymbolClaim>)
        ensures
            final(self).held() == old(self).held().remove(key_view(*key)),
            claims_view(r@) == entry_of(old(self).held(), key_view(*key)),
    {
        match claims_remove(&mut self.claims, key) {
            Some(v) => v,
            None => {
                let v: Vec<SymbolClaim> = Vec::new();
                assert(claims_view(v@) =~= Seq::<ClaimV>::empty());
                v
            },
        }
    }

    /// Records that a session has touched a symbol. This never refuses: a
    /// claim already made by the same session on the same symbol takes the
    /// new kind and agent name, any other claim is appended to the file's list.
    pub fn record_claim(&mut self, repo_id: u128, file_path: &str, claim: SymbolClaim)
        ensures
            final(self).held() == record_spec(old(self).held(), (repo_id, file_path@), claim@),
    {
        let key: ClaimKey = (repo_id, String::from_str(file_path));
        let mut cs = self.take_entry(&key);
        record_in_list(&mut cs, claim);
        claims_insert(&mut self.claims, key, cs);
        assert(self.held() =~= record_spec(old(self).held(), (repo_id, file_path@), claim@));
    }

    /// Attempts to take the lock on a symbol. Another session's claim on the
    /// same symbol in the same file refuses it, reporting the first such
    /// claim; otherwise the claim is recorded, `ReAcquired` when the session
    /// already held it and `Fresh` when not.
    pub fn acquire_lock(&mut self, repo_id: u128, file_path: &str, claim: SymbolClaim) -> (r: Result<AcquireOutcome, SymbolLocked>)
        ensures
            (final(self).held(), acquire_view(r)) == acquire_spec(old(self).held(), (repo_id, file_path@), claim@),
    {
        let key: ClaimKey = (repo_id, String::from_str(file_path));
        let ghost h0 = self.held();
        let ghost k = (repo_id, file_path@);
        let cs = self.take_entry(&key);
        let ghost cv = claims_view(cs@);
        match find_claim(&cs, claim.session_id, claim.qualified_name.as_str(), false) {
            Some(i) => {
                let locked = SymbolLocked {
                    qualified_name: claim.qualified_name,
                    kind: cs[i].kind,
                    locked_by_session: cs[i].session_id,
                    locked_by_agent: cs[i].agent_name.clone(),
                    locked_since: cs[i].first_touched_at,
                    file_path: String::from_str(file_path),
                };
                assert(cv[i as int] == cs@[i as int]@);
                claims_insert(&mut self.claims, key, cs);
                assert(self.held() =~= h0);
                Err(locked)
            },
            None => {
                let ghost cl = claim@;
                let mut cs = cs;
                let outcome = if record_in_list(&mut cs, claim) {
                    AcquireOutcome::ReAcquired
                } else {
                    AcquireOutcome::Fresh
                };
                claims_insert(&mut self.claims, key, cs);
                assert(self.held() =~= record_spec(h0, k, cl));
                Ok(outcome)
            },
        }
    }

    /// Whether any claim is held on file `file_path` of repository `repo_id`.
    pub fn has_claims_on(&self, repo_id: u128, file_path: &str) -> (r: bool)
        ensures
            r == self.held().dom().contains((repo_id, file_path@)),
    {
        let key: ClaimKey = (repo_id, String::from_str(file_path));
        claims_get(&self.claims, &key).is_some()
    }

    /// Gives up every claim of `session` on the files `repo` picks, dropping
    /// files left without claims; the released locks come file by file, in
    /// the order the map hands its files out.
    fn release_where(&mut self, repo: Option<u128>, session: u128) -> (r: Vec<ReleasedLock>)
        ensures
            final(self).held() == without_session(old(self).held(), repo, session),
            exists|ks: Seq<ClaimKeyV>| enumerates(ks, old(self).held())
                && released_view(r@) == released_in(old(self).held(), ks, repo, session),
    {
        let keys = claims_keys(&self.claims);
        let ghost h0 = self.held();
        let ghost ks = keys_view(keys@);
        let mut released: Vec<ReleasedLock> = Vec::new();
        let mut i: usize = 0;
        while i < keys.len()
            invariant
                i <= keys@.len(),
                ks == keys_view(keys@),
                enumerates(ks, h0),
                self.held() == without_session_on(h0, ks.take(i as int).to_set(), repo, session),
                released_view(released@) == released_in(h0, ks.take(i as int), repo, session),
            decreases keys@.len() - i,
        {
            let key = &keys[i];
            let ghost k = ks[i as int];
            let ghost done = ks.take(i as int).to_set();
            let ghost before = released_view(released@);
            assert(key_view(*key) == k);
            assert(h0.dom().contains(k)) by {
                assert(ks.to_set().contains(k));
            }
            assert(!done.contains(k)) by {
                if done.contains(k) {
                    let j = choose|j: int| 0 <= j < i && ks.take(i as int)[j] == k;
                    assert(ks[j] == ks[i as int]);
                }
            }
            assert(ks.take(i as int + 1).to_set() =~= done.insert(k)) by {
                let pre = ks.take(i as int);
                let post = ks.take(i as int + 1);
                assert(post =~= pre.push(k));
                assert forall|x: ClaimKeyV| post.contains(x) <==> (pre.contains(x) || x == k) by {
                    if post.contains(x) {
                        let j = choose|j: int| 0 <= j < post.len() && post[j] == x;
                        if j < i {
                            assert(pre[j] == x);
                        }
                    }
                    if pre.contains(x) {
                        let j = choose|j: int| 0 <= j < pre.len() && pre[j] == x;
                        assert(post[j] == x);
                    }
                    if x == k {
                        assert(post[i as int] == x);
                    }
                }
            }
            assert(ks.take(i as int + 1).drop_last() =~= ks.take(i as int));
            let pick = match repo {
                Some(r) => key.0 == r,
                None => true,
            };
            if pick {
                let ghost cur = self.held();
                match claims_remove(&mut self.claims, key) {
                    Some(cs) => {
                        let (kept, gone) = split_session(&cs, session);
                        let ghost gv = claims_view(gone@);
                        let mut j: usize = 0;
                        while j < gone.len()
                            invariant
                                j <= gone@.len(),
                                gv == claims_view(gone@),
                                key_view(*key) == k,
                                released_view(released@) == before + gv.take(j as int).map_values(|c: ClaimV| released_of(k.1, c)),
                            decreases gone@.len() - j,
                        {
                            let c = &gone[j];
                            assert(c@ == gv[j as int]);
                            let item = ReleasedLock {
                                file_path: key.1.clone(),
                                qualified_name: c.qualified_name.clone(),
                                kind: c.kind,
                                agent_name: c.agent_name.clone(),
                            };
                            assert(item@ == released_of(k.1, gv[j as int]));
                            let ghost prior = released@;
                            released.push(item);
                            assert(released_view(released@) =~= released_view(prior).push(item@));
                            assert(gv.take(j as int + 1) =~= gv.take(j as int).push(gv[j as int]));
                            assert(released_view(released@) =~= before + gv.take(j as int).map_values(|c: ClaimV| released_of(k.1, c)).push(released_of(k.1, gv[j as int])));
                            assert(gv.take(j as int + 1).map_values(|c: ClaimV| released_of(k.1, c)) =~= gv.take(j as int).map_values(|c: ClaimV| released_of(k.1, c)).push(released_of(k.1, gv[j as int])));
                            assert(released_view(released@) =~= before + gv.take(j as int + 1).map_values(|c: ClaimV| released_of(k.1, c)));
                            j = j + 1;
                        }
                        assert(gv.take(gone@.len() as int) =~= gv);
                        if kept.len() > 0 {
                            claims_insert(&mut self.claims, (key.0, key.1.clone()), kept);
                        }
                    },
                    None => {},
                }
            }
            assert(self.held() =~= without_session_on(h0, ks.take(i as int + 1).to_set(), repo, session));
            assert(released_view(released@) =~= released_in(h0, ks.take(i as int + 1), repo, session));
            i = i + 1;
        }
        assert(ks.take(keys@.len() as int) =~= ks);
        assert(self.held() =~= without_session(h0, repo, session));
        assert(enumerates(ks, h0) && released_view(released@) == released_in(h0, ks, repo, session));
        released
    }

    /// Releases every lock `session_id` holds in repository `repo_id`.
    pub fn release_locks(&mut self, repo_id: u128, session_id: u128) -> (r: Vec<ReleasedLock>)
        ensures
            final(self).held() == without_session(old(self).held(), Some(repo_id), session_id),
            exists|ks: Seq<ClaimKeyV>| enumerates(ks, old(self).held())
                && released_view(r@) == released_in(old(self).held(), ks, Some(repo_id), session_id),
    {
        self.release_where(Some(repo_id), session_id)
    }

    /// Removes every claim of `session_id`, in every repository.
    pub fn clear_session(&mut self, session_id: u128) -> (r: Vec<ReleasedLock>)
        ensures
            final(self).held() == without_session(old(self).held(), None, session_id),
            exists|ks: Seq<ClaimKeyV>| enumerates(ks, old(self).held())
                && released_view(r@) == released_in(old(self).held(), ks, None, session_id),
    {
        self.release_where(None, session_id)
    }

    /// The claim list of file `key` (empty when there is none).
    fn entry(&self, key: &ClaimKey) -> (r: Vec<SymbolClaim>)
        ensures
            claims_view(r@) == entry_of(self.held(), key_view(*key)),
    {
        match claims_get(&self.claims, key) {
            Some(v) => v,
            None => {
                let v: Vec<SymbolClaim> = Vec::new();
                assert(claims_view(v@) =~= Seq::<ClaimV>::empty());
                v
            },
        }
    }

    /// For each of `qualified_names` in turn, the first claim on it in file
    /// `file_path` by a session other than `session_id`, if any.
    pub fn check_conflicts(&self, repo_id: u128, file_path: &str, session_id: u128, qualified_names: &[String]) -> (r: Vec<ConflictInfo>)
        ensures
            conflicts_view(r@) == check_spec(entry_of(self.held(), (repo_id, file_path@)),
                qualified_names@.map_values(|n: String| n@), qualified_names@.len() as int, session_id),
            forall|i: int| 0 <= i < r@.len() ==> #[trigger] r@[i].conflicting_session != session_id,
    {
        let key: ClaimKey = (repo_id, String::from_str(file_path));
        let cs = self.entry(&key);
        let ghost cv = claims_view(cs@);
        let ghost nv = qualified_names@.map_values(|n: String| n@);
        let mut out: Vec<ConflictInfo> = Vec::new();
        let mut i: usize = 0;
        while i < qualified_names.len()
            invariant
                i <= qualified_names@.len(),
                cv == claims_view(cs@),
                nv == qualified_names@.map_values(|n: String| n@),
                conflicts_view(out@) == check_spec(cv, nv, i as int, session_id),
                forall|j: int| 0 <= j < out@.len() ==> #[trigger] out@[j].conflicting_session != session_id,
            decreases qualified_names@.len() - i,
        {
            let name = &qualified_names[i];
            assert(nv[i as int] == name@);
            match find_claim(&cs, session_id, name.as_str(), false) {
                Some(j) => {
                    let other = &cs[j];
                    assert(cv[j as int] == other@);
                    let info = ConflictInfo {
                        qualified_name: name.clone(),
                        kind: other.kind,
                        conflicting_session: other.session_id,
                        conflicting_agent: other.agent_name.clone(),
                        first_touched_at: other.first_touched_at,
                    };
                    let ghost prior = out@;
                    out.push(info);
                    assert(conflicts_view(out@) =~= conflicts_view(prior).push(info@));
                },
                None => {},
            }
            i = i + 1;
        }
        out
    }

    /// Every conflict of `session_id` in repository `repo_id`: for each file,
    /// each of the session's claims that another session also holds, paired
    /// with the first such claim. Files come in the order the map hands them
    /// out.
    pub fn get_all_conflicts_for_session(&self, repo_id: u128, session_id: u128) -> (r: Vec<(String, ConflictInfo)>)
        ensures
            exists|ks: Seq<ClaimKeyV>| enumerates(ks, self.held())
                && file_conflicts_view(r@) == conflicts_in(self.held(), ks, repo_id, session_id),
            forall|i: int| 0 <= i < r@.len() ==> #[trigger] r@[i].1.conflicting_session != session_id,
    {
        let keys = claims_keys(&self.claims);
        let ghost h = self.held();
        let ghost ks = keys_view(keys@);
        let mut out: Vec<(String, ConflictInfo)> = Vec::new();
        let mut i: usize = 0;
        while i < keys.len()
            invariant
                i <= keys@.len(),
                ks == keys_view(keys@),
                h == self.held(),
                enumerates(ks, h),
                file_conflicts_view(out@) == conflicts_in(h, ks.take(i as int), repo_id, session_id),
                forall|j: int| 0 <= j < out@.len() ==> #[trigger] out@[j].1.conflicting_session != session_id,
            decreases keys@.len() - i,
        {
            let key = &keys[i];
            let ghost k = ks[i as int];
            let ghost before = file_conflicts_view(out@);
            assert(key_view(*key) == k);
            assert(h.dom().contains(k)) by {
                assert(ks.to_set().contains(k));
            }
            assert(ks.take(i as int + 1).drop_last() =~= ks.take(i as int));
            if key.0 == repo_id {
                let cs = self.entry(key);
                let ghost cv = claims_view(cs@);
                let mut j: usize = 0;
                while j < cs.len()
                    invariant
                        j <= cs@.len(),
                        cv == claims_view(cs@),
                        key_view(*key) == k,
                        file_conflicts_view(out@) == before + mine_conflicts(k.1, cv, j as int, session_id),
                        forall|x: int| 0 <= x < out@.len() ==> #[trigger] out@[x].1.conflicting_session != session_id,
                    decreases cs@.len() - j,
                {
                    let mine = &cs[j];
                    assert(cv[j as int] == mine@);
                    if mine.session_id == session_id {
                        match find_claim(&cs, session_id, mine.qualified_name.as_str(), false) {
                            Some(o) => {
                                let other = &cs[o];
                                assert(cv[o as int] == other@);
                                let info = ConflictInfo {
                                    qualified_name: mine.qualified_name.clone(),
                                    kind: mine.kind,
                                    conflicting_session: other.session_id,
                                    conflicting_agent: other.agent_name.clone(),
                                    first_touched_at: other.first_touched_at,
                                };
                                let item = (key.1.clone(), info);
                                let ghost prior = out@;
                                out.push(item);
                                assert(file_conflicts_view(out@) =~= file_conflicts_view(prior).push((item.0@, item.1@)));
                            },
                            None => {},
                        }
                    }
                    j = j + 1;
                }
            }
            assert(file_conflicts_view(out@) =~= conflicts_in(h, ks.take(i as int + 1), repo_id, session_id));
            i = i + 1;
        }
        assert(ks.take(keys@.len() as int) =~= ks);
        assert(enumerates(ks, h) && file_conflicts_view(out@) == conflicts_in(h, ks, repo_id, session_id));
        out
    }

    /// Releases session `session_id`'s lock on one symbol of one file; a file
    /// left without claims is dropped from the map.
    pub fn release_lock(&mut self, repo_id: u128, file_path: &str, session_id: u128, qualified_name: &str)
        ensures
            final(self).held() == release_one_spec(old(self).held(), (repo_id, file_path@), session_id, qualified_name@),
    {
        let key: ClaimKey = (repo_id, String::from_str(file_path));
        let ghost h0 = self.held();
        match claims_remove(&mut self.claims, &key) {
            Some(cs) => {
                let rest = drop_own(&cs, session_id, qualified_name);
                if rest.len() > 0 {
                    claims_insert(&mut self.claims, key, rest);
                }
            },
            None => {
                assert(self.held() =~= h0);
            },
        }
    }
}

/// No file is kept without claims.
pub open spec fn no_empty_entries(h: HeldV) -> bool {
    forall|k: ClaimKeyV| #[trigger] h.dom().contains(k) ==> h[k].len() > 0
}

/// Within each file, all claims on a symbol belong to one session.
pub open spec fn exclusive(h: HeldV) -> bool {
    forall|k: ClaimKeyV, i: int, j: int|
        h.dom().contains(k) && 0 <= i < h[k].len() && 0 <= j < h[k].len() && #[trigger] h[k][i].2 == #[trigger] h[k][j].2
            ==> h[k][i].0 == h[k][j].0
}

proof fn lemma_first_where_some(cs: Seq<ClaimV>, f: spec_fn(ClaimV) -> bool, i: int)
    requires
        0 <= i < cs.len(),
        f(cs[i]),
    ensures
        first_where(cs, f) is Some,
    decreases i,
{
    if forall|j: int| 0 <= j < i ==> !f(cs[j]) {
        lemma_first_where_at(cs, f, i);
    } else {
        let j = choose|j: int| 0 <= j < i && f(cs[j]);
        lemma_first_where_some(cs, f, j);
    }
}

pub proof fn lemma_first_where_hit(cs: Seq<ClaimV>, f: spec_fn(ClaimV) -> bool)
    requires
        first_where(cs, f) is Some,
    ensures
        0 <= first_where(cs, f)->0 < cs.len(),
        f(cs[first_where(cs, f)->0]),
{
}

pub proof fn lemma_record_into_shape(cs: Seq<ClaimV>, c: ClaimV)
    ensures
        record_into(cs, c).len() > 0,
        forall|i: int| 0 <= i < record_into(cs, c).len() ==> {
            let r = #[trigger] record_into(cs, c)[i];
            (r.0 == c.0 && r.2 == c.2) || (i < cs.len() && r == cs[i])
        },
{
    match first_where(cs, own(c.0, c.2)) {
        Some(i) => {
            lemma_first_where_hit(cs, own(c.0, c.2));
        },
        None => {},
    }
}

/// Locks are exclusive: once session `a` holds the lock on a symbol in a
/// file, another session's attempt on the same symbol there is refused, and
/// the refusal names `a` as the holder.
pub proof fn lemma_lock_excludes_other_sessions(h: HeldV, k: ClaimKeyV, a: ClaimV, b: ClaimV)
    requires
        acquire_spec(h, k, a).1 is Ok,
        b.2 == a.2,
        b.0 != a.0,
    ensures
        acquire_spec(acquire_spec(h, k, a).0, k, b).1 matches Err(l) && l.0 == a.2 && l.2 == a.0,
{
    let cs = entry_of(h, k);
    let h1 = acquire_spec(h, k, a).0;
    let cs1 = record_into(cs, a);
    assert(h1 == record_spec(h, k, a));
    assert(entry_of(h1, k) == cs1);
    lemma_record_into_shape(cs, a);
    assert(first_where(cs, foreign(a.0, a.2)) is None);
    // every claim on the symbol in the new list is `a`'s
    assert forall|i: int| 0 <= i < cs1.len() && #[trigger] cs1[i].2 == a.2 implies cs1[i].0 == a.0 by {
        if !(cs1[i].0 == a.0 && cs1[i].2 == a.2) {
            assert(i < cs.len() && cs1[i] == cs[i]);
            if cs[i].0 != a.0 {
                lemma_first_where_some(cs, foreign(a.0, a.2), i);
            }
        }
    };
    // `a`'s claim is there, and it is foreign to `b`
    let w = choose|i: int| 0 <= i < cs1.len() && cs1[i].0 == a.0 && cs1[i].2 == a.2;
    assert(exists|i: int| 0 <= i < cs1.len() && cs1[i].0 == a.0 && cs1[i].2 == a.2) by {
        match first_where(cs, own(a.0, a.2)) {
            Some(i) => {
                lemma_first_where_hit(cs, own(a.0, a.2));
                assert(cs1[i].0 == a.0 && cs1[i].2 == a.2);
            },
            None => {
                assert(cs1[cs.len() as int] == a);
            },
        }
    };
    lemma_first_where_some(cs1, foreign(b.0, b.2), w);
    lemma_first_where_hit(cs1, foreign(b.0, b.2));
}

/// Releasing a session's locks in a repository leaves it no claim on any
/// file of that repository.
pub proof fn lemma_release_locks_clears_session(h: HeldV, repo: u128, s: u128, k: ClaimKeyV)
    requires
        without_session(h, Some(repo), s).dom().contains(k),
        k.0 == repo,
    ensures
        forall|i: int| 0 <= i < without_session(h, Some(repo), s)[k].len()
            ==> #[trigger] without_session(h, Some(repo), s)[k][i].0 != s,
{
    broadcast use vstd::seq_lib::group_filter_ensures;
    assert(without_session(h, Some(repo), s)[k] == h[k].filter(not_session(s)));
}

/// Releasing a session's locks unblocks the symbols it alone held: any
/// session may then take them.
pub proof fn lemma_release_unblocks(h: HeldV, k: ClaimKeyV, a: u128, c: ClaimV)
    requires
        forall|i: int| 0 <= i < entry_of(h, k).len() && (#[trigger] entry_of(h, k)[i]).2 == c.2 ==> entry_of(h, k)[i].0 == a,
    ensures
        acquire_spec(without_session(h, Some(k.0), a), k, c).1 is Ok,
{
    broadcast use vstd::seq_lib::group_filter_ensures;
    let h1 = without_session(h, Some(k.0), a);
    let cs1 = entry_of(h1, k);
    if h1.dom().contains(k) {
        assert(cs1 == h[k].filter(not_session(a)));
        assert forall|i: int| 0 <= i < cs1.len() implies #[trigger] cs1[i].2 != c.2 by {
            assert(not_session(a)(cs1[i]));
            assert(cs1.contains(cs1[i]));
            h[k].lemma_filter_contains_rev(not_session(a), cs1[i]);
            let j = choose|j: int| 0 <= j < h[k].len() && h[k][j] == cs1[i];
            assert(entry_of(h, k)[j] == cs1[i]);
        };
    }
    if first_where(cs1, foreign(c.0, c.2)) is Some {
        lemma_first_where_hit(cs1, foreign(c.0, c.2));
    }
}

/// Releasing one lock frees its symbol: once session `a`, the only holder of
/// symbol `c.2` in file `k`, releases it, another session's acquire of that
/// symbol there is granted as a fresh lock.
pub proof fn lemma_release_lock_frees_symbol(h: HeldV, k: ClaimKeyV, a: u128, c: ClaimV)
    requires
        forall|i: int| 0 <= i < entry_of(h, k).len() && (#[trigger] entry_of(h, k)[i]).2 == c.2 ==> entry_of(h, k)[i].0 == a,
    ensures
        acquire_spec(release_one_spec(h, k, a, c.2), k, c).1 == Ok::<AcquireOutcome, LockedV>(AcquireOutcome::Fresh),
{
    broadcast use vstd::seq_lib::group_filter_ensures;
    let h1 = release_one_spec(h, k, a, c.2);
    let cs1 = entry_of(h1, k);
    if h1.dom().contains(k) {
        assert(cs1 == h[k].filter(not_own(a, c.2)));
        assert forall|i: int| 0 <= i < cs1.len() implies #[trigger] cs1[i].2 != c.2 by {
            assert(not_own(a, c.2)(cs1[i]));
            assert(cs1.contains(cs1[i]));
            h[k].lemma_filter_contains_rev(not_own(a, c.2), cs1[i]);
            let j = choose|j: int| 0 <= j < h[k].len() && h[k][j] == cs1[i];
            assert(entry_of(h, k)[j] == cs1[i]);
        };
    }
    if first_where(cs1, foreign(c.0, c.2)) is Some {
        lemma_first_where_hit(cs1, foreign(c.0, c.2));
    }
    if first_where(cs1, own(c.0, c.2)) is Some {
        lemma_first_where_hit(cs1, own(c.0, c.2));
    }
}

/// Releasing one lock touches only that claim: the file keeps every other
/// claim in order and loses the session's claim on the symbol (the file is
/// dropped once it has none left), and every other file keeps its claims.
pub proof fn lemma_release_lock_effect(h: HeldV, k: ClaimKeyV, s: u128, n: Seq<char>)
    requires
        no_empty_entries(h),
    ensures
        entry_of(release_one_spec(h, k, s, n), k) == entry_of(h, k).filter(not_own(s, n)),
        forall|i: int| 0 <= i < entry_of(release_one_spec(h, k, s, n), k).len()
            ==> !((#[trigger] entry_of(release_one_spec(h, k, s, n), k)[i]).0 == s
                && entry_of(release_one_spec(h, k, s, n), k)[i].2 == n),
        forall|k2: ClaimKeyV| k2 != k ==> #[trigger] entry_of(release_one_spec(h, k, s, n), k2) == entry_of(h, k2),
        no_empty_entries(release_one_spec(h, k, s, n)),
{
    broadcast use vstd::seq_lib::group_filter_ensures;
    let h1 = release_one_spec(h, k, s, n);
    if !h.dom().contains(k) {
        assert(entry_of(h, k).filter(not_own(s, n)) =~= Seq::<ClaimV>::empty());
    } else if h[k].filter(not_own(s, n)).len() == 0 {
        assert(entry_of(h1, k) =~= h[k].filter(not_own(s, n)));
    }
    let e = entry_of(h1, k);
    assert forall|i: int| 0 <= i < e.len() implies !((#[trigger] e[i]).0 == s && e[i].2 == n) by {
        assert(not_own(s, n)(e[i]));
    }
}

/// Releasing a session's locks in a repository leaves each file of it with
/// the other sessions' claims, in order (a file left with none is dropped),
/// and every file of other repositories as it was.
pub proof fn lemma_release_locks_effect(h: HeldV, repo: u128, s: u128)
    requires
        no_empty_entries(h),
    ensures
        forall|k: ClaimKeyV| k.0 == repo ==> #[trigger] entry_of(without_session(h, Some(repo), s), k)
            == entry_of(h, k).filter(not_session(s)),
        forall|k: ClaimKeyV| k.0 != repo ==> #[trigger] entry_of(without_session(h, Some(repo), s), k) == entry_of(h, k),
        no_empty_entries(without_session(h, Some(repo), s)),
{
    let h1 = without_session(h, Some(repo), s);
    assert forall|k: ClaimKeyV| k.0 == repo implies #[trigger] entry_of(h1, k) == entry_of(h, k).filter(not_session(s)) by {
        if !h.dom().contains(k) {
            assert(entry_of(h, k).filter(not_session(s)) =~= Seq::<ClaimV>::empty());
        } else if h[k].filter(not_session(s)).len() == 0 {
            assert(entry_of(h1, k) =~= h[k].filter(not_session(s)));
        }
    }
}

/// Acquiring locks keeps them exclusive: if every symbol of every file is
/// claimed by at most one session, it stays so after any `acquire_lock`.
pub proof fn lemma_acquire_keeps_exclusive(h: HeldV, k: ClaimKeyV, c: ClaimV)
    requires
        exclusive(h),
    ensures
        exclusive(acquire_spec(h, k, c).0),
{
    let cs = entry_of(h, k);
    if first_where(cs, foreign(c.0, c.2)) is None {
        let h1 = acquire_spec(h, k, c).0;
        let cs1 = record_into(cs, c);
        lemma_record_into_shape(cs, c);
        assert forall|k2: ClaimKeyV, i: int, j: int|
            h1.dom().contains(k2) && 0 <= i < h1[k2].len() && 0 <= j < h1[k2].len() && #[trigger] h1[k2][i].2 == #[trigger] h1[k2][j].2
            implies h1[k2][i].0 == h1[k2][j].0 by {
            if k2 == k {
                assert(h1[k2] == cs1);
                let x = cs1[i];
                let y = cs1[j];
                if !(x.0 == c.0 && x.2 == c.2) && !(y.0 == c.0 && y.2 == c.2) {
                    assert(x == cs[i] && y == cs[j]);
                    assert(h.dom().contains(k));
                    assert(h[k][i].2 == h[k][j].2);
                } else if x.0 == c.0 && x.2 == c.2 && !(y.0 == c.0 && y.2 == c.2) {
                    assert(y == cs[j]);
                    if y.0 != c.0 {
                        lemma_first_where_some(cs, foreign(c.0, c.2), j);
                    }
                } else if !(x.0 == c.0 && x.2 == c.2) && y.0 == c.0 && y.2 == c.2 {
                    assert(x == cs[i]);
                    if x.0 != c.0 {
                        lemma_first_where_some(cs, foreign(c.0, c.2), i);
                    }
                }
            } else {
                assert(h1[k2] == h[k2]);
            }
        };
    }
}

/// Claim lists never go empty: every operation that leaves a file without
/// claims drops the file from the map.
pub proof fn lemma_entries_never_empty(h: HeldV, k: ClaimKeyV, c: ClaimV, s: u128, n: Seq<char>, repo: Option<u128>)
    requires
        no_empty_entries(h),
    ensures
        no_empty_entries(record_spec(h, k, c)),
        no_empty_entries(acquire_spec(h, k, c).0),
        no_empty_entries(release_one_spec(h, k, s, n)),
        no_empty_entries(without_session(h, repo, s)),
{
    lemma_record_into_shape(entry_of(h, k), c);
    let w = without_session(h, repo, s);
    assert forall|k2: ClaimKeyV| #[trigger] w.dom().contains(k2) implies w[k2].len() > 0 by {
        if picked(repo, k2) {
            assert(w[k2] == h[k2].filter(not_session(s)));
        }
    };
}

/// A recorded claim is seen by every other session: after session `c.0`
/// records a claim on a symbol of a file, another session's check of that
/// symbol in that file reports one conflict, and never one with itself.
pub proof fn lemma_claim_seen_by_others(h: HeldV, k: ClaimKeyV, c: ClaimV, s: u128)
    requires
        s != c.0,
    ensures
        check_spec(entry_of(record_spec(h, k, c), k), seq![c.2], 1, s).len() == 1,
        check_spec(entry_of(record_spec(h, k, c), k), seq![c.2], 1, s)[0].2 != s,
{
    let cs = record_into(entry_of(h, k), c);
    assert(entry_of(record_spec(h, k, c), k) == cs);
    lemma_record_into_shape(entry_of(h, k), c);
    let i: int = match first_where(entry_of(h, k), own(c.0, c.2)) {
        Some(j) => {
            lemma_first_where_hit(entry_of(h, k), own(c.0, c.2));
            j
        },
        None => entry_of(h, k).len() as int,
    };
    assert(cs[i].0 == c.0 && cs[i].2 == c.2);
    assert(foreign(s, c.2)(cs[i]));
    lemma_first_where_some(cs, foreign(s, c.2), i);
    lemma_first_where_hit(cs, foreign(s, c.2));
    let names = seq![c.2];
    assert(names[0] == c.2);
    assert(check_spec(cs, names, 0, s) == Seq::<ConflictV>::empty());
    let j = first_where(cs, foreign(s, c.2))->0;
    assert(cs[j].0 != s);
    assert(check_spec(cs, names, 1, s) == Seq::<ConflictV>::empty().push(conflict_with(c.2, cs[j].3, cs[j])));
}

impl Default for LocalClaimTracker {
    fn default() -> (t: Self)
        ensures
            t.held() == HeldV::empty(),
    {
        LocalClaimTracker::new()
    }
}

} // verus!
