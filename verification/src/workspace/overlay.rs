//! In-memory file overlay of a session workspace.
//!
//! Every write lands in a concurrent map keyed by file path; the database
//! copy of each entry is kept by the caller, which persists an entry before
//! putting it here.

use vstd::prelude::*;
use dashmap::DashMap;
use sha2::{Digest, Sha256};
use crate::text::str_eq;

verus! {

/// A single file change within a session overlay.
#[derive(Debug, Clone)]
pub enum OverlayEntry {
    /// File was modified (or newly created with content from the session).
    Modified { content: Vec<u8>, hash: String },
    /// File was added (did not exist in the base commit).
    Added { content: Vec<u8>, hash: String },
    /// File was deleted from the base tree.
    Deleted,
}

/// Abstract overlay entry.
pub enum EntryV {
    Modified { content: Seq<u8>, hash: Seq<char> },
    Added { content: Seq<u8>, hash: Seq<char> },
    Deleted,
}

impl View for OverlayEntry {
    type V = EntryV;

    open spec fn view(&self) -> EntryV {
        match self {
            OverlayEntry::Modified { content, hash } => EntryV::Modified { content: content@, hash: hash@ },
            OverlayEntry::Added { content, hash } => EntryV::Added { content: content@, hash: hash@ },
            OverlayEntry::Deleted => EntryV::Deleted,
        }
    }
}

/// The content an entry carries, `None` for a deletion.
pub open spec fn entry_content(e: EntryV) -> Option<Seq<u8>> {
    match e {
        EntryV::Modified { content, .. } => Some(content),
        EntryV::Added { content, .. } => Some(content),
        EntryV::Deleted => None,
    }
}

/// The content hash an entry carries, `None` for a deletion.
pub open spec fn entry_hash(e: EntryV) -> Option<Seq<char>> {
    match e {
        EntryV::Modified { hash, .. } => Some(hash),
        EntryV::Added { hash, .. } => Some(hash),
        EntryV::Deleted => None,
    }
}

/// The stored `change_type` label of an entry.
pub open spec fn change_type_label(e: EntryV) -> Seq<char> {
    match e {
        EntryV::Modified { .. } => "modified"@,
        EntryV::Added { .. } => "added"@,
        EntryV::Deleted => "deleted"@,
    }
}

/// The entry a write of `content` with hash `hash` produces: `Added` for a
/// file that is not in the base tree, `Modified` otherwise.
pub open spec fn written(content: Seq<u8>, hash: Seq<char>, is_new: bool) -> EntryV {
    if is_new {
        EntryV::Added { content, hash }
    } else {
        EntryV::Modified { content, hash }
    }
}

impl OverlayEntry {
    /// The content bytes, if this entry carries data.
    pub fn content(&self) -> (r: Option<&[u8]>)
        ensures
            match r {
                Some(c) => entry_content(self@) == Some(c@),
                None => entry_content(self@) is None,
            },
    {
        match self {
            OverlayEntry::Modified { content, .. } => Some(content.as_slice()),
            OverlayEntry::Added { content, .. } => Some(content.as_slice()),
            OverlayEntry::Deleted => None,
        }
    }

    /// The content hash, or `None` for deletions.
    pub fn hash(&self) -> (r: Option<&str>)
        ensures
            match r {
                Some(h) => entry_hash(self@) == Some(h@),
                None => entry_hash(self@) is None,
            },
    {
        match self {
            OverlayEntry::Modified { hash, .. } => Some(hash.as_str()),
            OverlayEntry::Added { hash, .. } => Some(hash.as_str()),
            OverlayEntry::Deleted => None,
        }
    }

    /// The stored `change_type` label.
    pub fn change_type_str(&self) -> (r: &'static str)
        ensures
            r@ == change_type_label(self@),
    {
        match self {
            OverlayEntry::Modified { .. } => "modified",
            OverlayEntry::Added { .. } => "added",
            OverlayEntry::Deleted => "deleted",
        }
    }

    /// A field-by-field copy of this entry.
    pub fn copied(&self) -> (r: OverlayEntry)
        ensures
            r@ == self@,
    {
        match self {
            OverlayEntry::Modified { content, hash } => OverlayEntry::Modified {
                content: vstd::slice::slice_to_vec(content.as_slice()),
                hash: hash.clone(),
            },
            OverlayEntry::Added { content, hash } => OverlayEntry::Added {
                content: vstd::slice::slice_to_vec(content.as_slice()),
                hash: hash.clone(),
            },
            OverlayEntry::Deleted => OverlayEntry::Deleted,
        }
    }

    /// The entry a stored row describes: its `change_type` label decides the
    /// variant, any label but "added" and "deleted" meaning a modification.
    pub fn from_row(content: Vec<u8>, hash: String, change_type: &str) -> (r: OverlayEntry)
        ensures
            r@ == (if change_type@ == "added"@ {
                EntryV::Added { content: content@, hash: hash@ }
            } else if change_type@ == "deleted"@ {
                EntryV::Deleted
            } else {
                EntryV::Modified { content: content@, hash: hash@ }
            }),
    {
        if str_eq(change_type, "added") {
            OverlayEntry::Added { content, hash }
        } else if str_eq(change_type, "deleted") {
            OverlayEntry::Deleted
        } else {
            OverlayEntry::Modified { content, hash }
        }
    }
}

/// The lowercase hexadecimal SHA-256 digest of some bytes.
pub uninterp spec fn sha256_hex(content: Seq<u8>) -> Seq<char>;

/// `sha2::Sha256::digest` of `content`, formatted as lowercase hexadecimal.
#[verifier::external_body]
pub(crate) fn content_hash(content: &[u8]) -> (h: String)
    ensures
        h@ == sha256_hex(content@),
{
    format!("{:x}", Sha256::digest(content))
}

/// Overlay entries by file path.
pub type EntryMap = DashMap<String, OverlayEntry>;

/// Abstract overlay: entries by file path.
pub type OverlayV = Map<Seq<char>, EntryV>;

/// The entries an overlay map holds, by file path.
pub uninterp spec fn overlay_held(m: EntryMap) -> OverlayV;

/// `DashMap::new`: a map holding nothing.
#[verifier::external_body]
fn entries_new() -> (m: EntryMap)
    ensures
        overlay_held(m) == OverlayV::empty(),
{
    DashMap::new()
}

/// `DashMap::get`, with the entry cloned out of the read guard.
#[verifier::external_body]
fn entries_get(m: &EntryMap, path: &str) -> (r: Option<OverlayEntry>)
    ensures
        r is Some <==> overlay_held(*m).dom().contains(path@),
        r matches Some(e) ==> e@ == overlay_held(*m)[path@],
{
    match m.get(path) {
        Some(entry) => Some(entry.value().clone()),
        None => None,
    }
}

/// `DashMap::contains_key`.
#[verifier::external_body]
fn entries_contains(m: &EntryMap, path: &str) -> (r: bool)
    ensures
        r == overlay_held(*m).dom().contains(path@),
{
    m.contains_key(path)
}

/// `DashMap::insert`: `path` now holds `entry`; every other path is unchanged.
#[verifier::external_body]
fn entries_insert(m: &mut EntryMap, path: String, entry: OverlayEntry)
    ensures
        overlay_held(*final(m)) == overlay_held(*old(m)).insert(path@, entry@),
{
    m.insert(path, entry);
}

/// `DashMap::remove`: `path` no longer holds an entry.
#[verifier::external_body]
fn entries_remove(m: &mut EntryMap, path: &str)
    ensures
        overlay_held(*final(m)) == overlay_held(*old(m)).remove(path@),
{
    m.remove(path);
}

/// `DashMap::len`: the number of paths held.
#[verifier::external_body]
fn entries_len(m: &EntryMap) -> (r: usize)
    ensures
        r == overlay_held(*m).dom().len(),
{
    m.len()
}

/// `DashMap::iter`, keeping each entry's path: every path of the map exactly
/// once, in an order the map's hashing decides.
#[verifier::external_body]
fn entries_paths(m: &EntryMap) -> (r: Vec<String>)
    ensures
        paths_view(r@).no_duplicates(),
        paths_view(r@).to_set() == overlay_held(*m).dom(),
{
    m.iter().map(|entry| entry.key().clone()).collect()
}

pub open spec fn paths_view(v: Seq<String>) -> Seq<Seq<char>> {
    v.map_values(|s: String| s@)
}

pub open spec fn change_paths(v: Seq<(String, OverlayEntry)>) -> Seq<Seq<char>> {
    v.map_values(|p: (String, OverlayEntry)| p.0@)
}

/// `ps` lists the paths of overlay `h`, each once.
pub open spec fn lists_paths(ps: Seq<Seq<char>>, h: OverlayV) -> bool {
    ps.no_duplicates() && ps.to_set() == h.dom()
}

/// The content bytes of the entries at paths `ps`.
pub open spec fn bytes_in(h: OverlayV, ps: Seq<Seq<char>>) -> int
    decreases ps.len(),
{
    if ps.len() == 0 {
        0
    } else {
        bytes_in(h, ps.drop_last()) + match entry_content(h[ps.last()]) {
            Some(c) => c.len() as int,
            None => 0,
        }
    }
}

/// Concurrent, overlay-based file store for a single workspace.
pub struct FileOverlay {
    entries: EntryMap,
    workspace_id: u128,
}

impl FileOverlay {
    /// The overlay's entries by file path.
    pub closed spec fn entries(&self) -> OverlayV {
        overlay_held(self.entries)
    }

    /// The workspace this overlay belongs to.
    pub closed spec fn owner(&self) -> u128 {
        self.workspace_id
    }

    /// A new, empty overlay for the given workspace.
    pub fn new(workspace_id: u128) -> (o: Self)
        ensures
            o.entries() == OverlayV::empty(),
            o.owner() == workspace_id,
    {
        FileOverlay { entries: entries_new(), workspace_id }
    }

    /// The workspace this overlay belongs to.
    pub fn workspace_id(&self) -> (r: u128)
        ensures
            r == self.owner(),
    {
        self.workspace_id
    }

    /// The entry for `path`, if the overlay has one.
    pub fn get(&self, path: &str) -> (r: Option<OverlayEntry>)
        ensures
            r is Some <==> self.entries().dom().contains(path@),
            r matches Some(e) ==> e@ == self.entries()[path@],
    {
        entries_get(&self.entries, path)
    }

    /// Whether the overlay has an entry for `path`.
    pub fn contains(&self, path: &str) -> (r: bool)
        ensures
            r == self.entries().dom().contains(path@),
    {
        entries_contains(&self.entries, path)
    }

    /// The entry a write of `content` produces, with its content hash:
    /// `Added` when the file is not in the base tree, `Modified` otherwise.
    pub fn entry_for_write(content: Vec<u8>, is_new: bool) -> (r: (OverlayEntry, String))
        ensures
            r.1@ == sha256_hex(content@),
            r.0@ == written(content@, r.1@, is_new),
    {
        let hash = content_hash(content.as_slice());
        let entry = if is_new {
            OverlayEntry::Added { content, hash: hash.clone() }
        } else {
            OverlayEntry::Modified { content, hash: hash.clone() }
        };
        (entry, hash)
    }

    /// Puts `entry` at `path`, replacing what was there.
    pub fn put(&mut self, path: &str, entry: OverlayEntry)
        ensures
            final(self).entries() == old(self).entries().insert(path@, entry@),
            final(self).owner() == old(self).owner(),
    {
        entries_insert(&mut self.entries, String::from_str(path), entry);
    }

    /// Writes (or overwrites) a file in the overlay; returns the content's
    /// hash.
    pub fn write_local(&mut self, path: &str, content: Vec<u8>, is_new: bool) -> (h: String)
        ensures
            h@ == sha256_hex(content@),
            final(self).entries() == old(self).entries().insert(path@, written(content@, h@, is_new)),
            final(self).owner() == old(self).owner(),
    {
        let (entry, hash) = Self::entry_for_write(content, is_new);
        self.put(path, entry);
        hash
    }

    /// Marks a file as deleted in the overlay.
    pub fn delete_local(&mut self, path: &str)
        ensures
            final(self).entries() == old(self).entries().insert(path@, EntryV::Deleted),
            final(self).owner() == old(self).owner(),
    {
        self.put(path, OverlayEntry::Deleted);
    }

    /// Reverts a file: the overlay forgets it.
    pub fn revert_local(&mut self, path: &str)
        ensures
            final(self).entries() == old(self).entries().remove(path@),
            final(self).owner() == old(self).owner(),
    {
        entries_remove(&mut self.entries, path);
    }

    /// Every changed path with its entry, each path once.
    pub fn list_changes(&self) -> (r: Vec<(String, OverlayEntry)>)
        ensures
            lists_paths(change_paths(r@), self.entries()),
            forall|i: int| 0 <= i < r@.len() ==> self.entries()[(#[trigger] r@[i]).0@] == r@[i].1@,
    {
        let paths = entries_paths(&self.entries);
        let ghost pv = paths_view(paths@);
        let mut out: Vec<(String, OverlayEntry)> = Vec::new();
        let mut i: usize = 0;
        while i < paths.len()
            invariant
                i <= paths@.len(),
                pv == paths_view(paths@),
                lists_paths(pv, self.entries()),
                change_paths(out@) == pv.take(i as int),
                forall|j: int| 0 <= j < out@.len() ==> self.entries()[(#[trigger] out@[j]).0@] == out@[j].1@,
            decreases paths@.len() - i,
        {
            let path = &paths[i];
            assert(pv[i as int] == path@);
            assert(self.entries().dom().contains(path@)) by {
                assert(pv.to_set().contains(pv[i as int]));
            }
            match entries_get(&self.entries, path.as_str()) {
                Some(e) => {
                    let ghost prior = out@;
                    out.push((path.clone(), e));
                    assert(change_paths(out@) =~= change_paths(prior).push(path@));
                    assert(pv.take(i as int + 1) =~= pv.take(i as int).push(path@));
                },
                None => {},
            }
            i = i + 1;
        }
        assert(pv.take(paths@.len() as int) =~= pv);
        out
    }

    /// Every changed path, each once.
    pub fn list_paths(&self) -> (r: Vec<String>)
        ensures
            lists_paths(paths_view(r@), self.entries()),
    {
        entries_paths(&self.entries)
    }

    /// Number of entries (files touched) in the overlay.
    pub fn len(&self) -> (r: usize)
        ensures
            r == self.entries().dom().len(),
    {
        entries_len(&self.entries)
    }

    /// Whether the overlay has no entries.
    pub fn is_empty(&self) -> (r: bool)
        ensures
            r == (self.entries().dom().len() == 0),
    {
        entries_len(&self.entries) == 0
    }

    /// Total bytes of content stored in the overlay (deleted entries carry
    /// none).
    pub fn total_bytes(&self) -> (r: usize)
        requires
            forall|ps: Seq<Seq<char>>| lists_paths(ps, self.entries()) ==> bytes_in(self.entries(), ps) <= usize::MAX,
        ensures
            exists|ps: Seq<Seq<char>>| lists_paths(ps, self.entries()) && r == bytes_in(self.entries(), ps),
    {
        let paths = entries_paths(&self.entries);
        let ghost pv = paths_view(paths@);
        assert(lists_paths(pv, self.entries()));
        let mut total: usize = 0;
        let mut i: usize = 0;
        while i < paths.len()
            invariant
                i <= paths@.len(),
                pv == paths_view(paths@),
                lists_paths(pv, self.entries()),
                bytes_in(self.entries(), pv) <= usize::MAX,
                total == bytes_in(self.entries(), pv.take(i as int)),
            decreases paths@.len() - i,
        {
            let path = &paths[i];
            assert(pv[i as int] == path@);
            assert(pv.take(i as int + 1).drop_last() =~= pv.take(i as int));
            proof {
                lemma_bytes_in_prefix(self.entries(), pv, i as int + 1);
            }
            match entries_get(&self.entries, path.as_str()) {
                Some(e) => {
                    match e.content() {
                        Some(c) => {
                            total = total + c.len();
                        },
                        None => {},
                    }
                },
                None => {},
            }
            i = i + 1;
        }
        assert(pv.take(paths@.len() as int) =~= pv);
        total
    }
}

proof fn lemma_bytes_in_prefix(h: OverlayV, ps: Seq<Seq<char>>, n: int)
    requires
        0 <= n <= ps.len(),
    ensures
        bytes_in(h, ps.take(n)) <= bytes_in(h, ps),
    decreases ps.len(),
{
    if n < ps.len() {
        assert(ps.drop_last().take(n) =~= ps.take(n));
        lemma_bytes_in_prefix(h, ps.drop_last(), n);
    } else {
        assert(ps.take(n) =~= ps);
    }
}

/// A read gives back what the last write put: after `write_local` of
/// `content` at `p`, the overlay holds that content at `p` (with its hash),
/// and every other path keeps its entry.
pub proof fn lemma_read_after_write(h: OverlayV, p: Seq<char>, q: Seq<char>, content: Seq<u8>, is_new: bool)
    ensures
        entry_content(h.insert(p, written(content, sha256_hex(content), is_new))[p]) == Some(content),
        entry_hash(h.insert(p, written(content, sha256_hex(content), is_new))[p]) == Some(sha256_hex(content)),
        q != p ==> h.insert(p, written(content, sha256_hex(content), is_new)).dom().contains(q) == h.dom().contains(q),
        q != p && h.dom().contains(q) ==> h.insert(p, written(content, sha256_hex(content), is_new))[q] == h[q],
{
}

/// A deletion hides the file: after `delete_local` at `p` the overlay still
/// has an entry there, and it carries no content.
pub proof fn lemma_delete_hides(h: OverlayV, p: Seq<char>)
    ensures
        h.insert(p, EntryV::Deleted).dom().contains(p),
        entry_content(h.insert(p, EntryV::Deleted)[p]) is None,
{
}

/// A revert undoes a write: reverting `p` after writing it leaves the
/// overlay as it was when `p` had no entry.
pub proof fn lemma_revert_undoes_write(h: OverlayV, p: Seq<char>, e: EntryV)
    requires
        !h.dom().contains(p),
    ensures
        h.insert(p, e).remove(p) == h,
{
    assert(h.insert(p, e).remove(p) =~= h);
}

} // verus!
