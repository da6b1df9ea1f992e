//! The rules of the tool operations (connect, context, read, write,
//! submit, status, list, verify, merge): which inputs they accept and how
//! their results are made.

use vstd::prelude::*;
use crate::conflict::ast_merge::{lossy_string, utf8_lossy};
use crate::domain::{Error, Symbol, SymbolKind};
use crate::repo::CodebaseSummary;
use crate::storage::{path_problem, path_problem_of, PathProblem};
use crate::text::{push_text, str_eq, texts_of};
use crate::workspace::conflict::{SemanticConflict, SymbolChangeKind};
use crate::workspace::merge::WorkspaceMergeResult;
use crate::workspace::session_workspace::FileReadResult;

verus! {

// ── Paths ────────────────────────────────────────────────────────────

/// The message refusing a file path for a problem.
pub open spec fn path_message(p: PathProblem) -> Seq<char> {
    match p {
        PathProblem::Empty => "file path cannot be empty"@,
        PathProblem::Absolute => "file path must be relative"@,
        PathProblem::NulByte => "file path contains null byte"@,
        PathProblem::Traversal => "file path contains '..' traversal"@,
    }
}

/// Checks a file path for safety: non-empty and relative, without NUL
/// characters or ".." components (split on both slash kinds).
pub fn validate_path(path: &str) -> (r: Result<(), Error>)
    ensures
        match path_problem_of(path@) {
            Some(p) => r matches Err(Error::InvalidInput(m)) && m@ == path_message(p),
            None => r is Ok,
        },
{
    match path_problem(path) {
        Some(PathProblem::Empty) => Err(Error::InvalidInput(String::from_str("file path cannot be empty"))),
        Some(PathProblem::Absolute) => Err(Error::InvalidInput(String::from_str("file path must be relative"))),
        Some(PathProblem::NulByte) => Err(Error::InvalidInput(String::from_str("file path contains null byte"))),
        Some(PathProblem::Traversal) => Err(Error::InvalidInput(String::from_str("file path contains '..' traversal"))),
        None => Ok(()),
    }
}

// ── Result types ─────────────────────────────────────────────────────

#[derive(Debug)]
pub struct ToolConnectResult {
    pub session_id: String,
    pub base_commit: String,
    pub codebase_summary: ToolCodebaseSummary,
    pub active_sessions: u32,
}

#[derive(Debug)]
pub struct ToolCodebaseSummary {
    pub languages: Vec<String>,
    pub total_symbols: u64,
    pub total_files: u64,
}

impl From<CodebaseSummary> for ToolCodebaseSummary {
    fn from(s: CodebaseSummary) -> (r: Self) {
        ToolCodebaseSummary { languages: s.languages, total_symbols: s.total_symbols, total_files: s.total_files }
    }
}

impl vstd::std_specs::convert::FromSpecImpl<CodebaseSummary> for ToolCodebaseSummary {
    open spec fn obeys_from_spec() -> bool {
        true
    }

    open spec fn from_spec(s: CodebaseSummary) -> Self {
        ToolCodebaseSummary { languages: s.languages, total_symbols: s.total_symbols, total_files: s.total_files }
    }
}

#[derive(Debug)]
pub struct ToolContextSymbol {
    pub name: String,
    pub qualified_name: String,
    pub kind: String,
    pub file_path: String,
    pub signature: Option<String>,
    pub source: Option<String>,
    pub callers: Vec<String>,
    pub callees: Vec<String>,
}

#[derive(Debug)]
pub struct ToolContextResult {
    pub symbols: Vec<ToolContextSymbol>,
    pub token_count: u32,
    pub freshness: String,
}

#[derive(Debug)]
pub struct ToolFileReadResult {
    pub content: String,
    pub hash: String,
    pub modified_in_session: bool,
}

#[derive(Debug)]
pub struct ToolFileWriteResult {
    pub new_hash: String,
    pub detected_changes: Vec<ToolDetectedChange>,
}

#[derive(Debug)]
pub struct ToolDetectedChange {
    pub symbol_name: String,
    pub change_type: String,
}

#[derive(Debug)]
pub struct ToolSubmitResult {
    pub status: String,
    pub version: Option<String>,
    pub changeset_id: String,
    pub failures: Vec<ToolVerifyFailure>,
    pub conflicts: Vec<ToolConflict>,
}

#[derive(Debug)]
pub struct ToolVerifyFailure {
    pub gate: String,
    pub test_name: String,
    pub error: String,
    pub suggestion: Option<String>,
}

#[derive(Debug)]
pub struct ToolConflict {
    pub file: String,
    pub symbol: String,
    pub our_change: String,
    pub their_change: String,
}

#[derive(Debug)]
pub struct ToolStatusResult {
    pub session_id: String,
    pub base_commit: String,
    pub files_modified: Vec<String>,
    pub symbols_modified: Vec<String>,
    pub overlay_size_bytes: u64,
    pub active_other_sessions: u32,
}

#[derive(Debug)]
pub struct ToolFileListEntry {
    pub path: String,
    pub modified_in_session: bool,
    /// Which other sessions modified this file and what symbols; empty when
    /// no other session has touched it.
    pub modified_by_other: String,
}

#[derive(Debug)]
pub struct ToolFileListResult {
    pub files: Vec<ToolFileListEntry>,
    pub total: usize,
}

#[derive(Debug)]
pub struct ToolVerifyStepResult {
    pub step_name: String,
    pub status: String,
    pub output: String,
    pub required: bool,
}

#[derive(Debug)]
pub struct ToolVerifyResult {
    pub changeset_id: String,
    pub passed: bool,
    pub steps: Vec<ToolVerifyStepResult>,
}

#[derive(Debug)]
pub struct ToolMergeResult {
    pub commit_hash: String,
    pub merged_version: String,
    pub auto_rebased: bool,
    pub auto_rebased_files: Vec<String>,
    pub conflicts: Vec<ToolConflict>,
}

// ── Context ──────────────────────────────────────────────────────────

/// What a context request of `depth` includes: (source, call graph). The
/// default depth is "signatures"; "full" adds source, "call_graph" adds
/// both.
pub fn context_depth(depth: Option<&str>) -> (r: (bool, bool))
    ensures
        r == (match depth {
            Some(d) => (d@ == "full"@ || d@ == "call_graph"@, d@ == "call_graph"@),
            None => (false, false),
        }),
{
    match depth {
        Some(d) => {
            let graph = str_eq(d, "call_graph");
            (str_eq(d, "full") || graph, graph)
        },
        None => {
            proof {
                reveal_strlit("signatures");
                reveal_strlit("full");
                reveal_strlit("call_graph");
            }
            (false, false)
        },
    }
}

/// The source of a symbol spanning `start..end` of a file's content: the
/// bytes decoded (invalid sequences replaced), when the span starts inside
/// the content and ends within it.
pub fn symbol_source(content: &Option<Vec<u8>>, start: u32, end: u32) -> (r: Option<String>)
    requires
        start <= end,
    ensures
        match (content, r) {
            (Some(c), Some(s)) => (start as int) < c@.len() && (end as int) <= c@.len()
                && s@ == utf8_lossy(c@.subrange(start as int, end as int)),
            (Some(c), None) => !((start as int) < c@.len() && (end as int) <= c@.len()),
            (None, r) => r is None,
        },
{
    match content {
        Some(c) => {
            let s = start as usize;
            let e = end as usize;
            if s < c.len() && e <= c.len() {
                Some(lossy_string(vstd::slice::slice_subrange(c.as_slice(), s, e)))
            } else {
                None
            }
        },
        None => None,
    }
}

/// The debug name of a symbol kind, as context results show it.
pub open spec fn kind_debug_name(k: SymbolKind) -> Seq<char> {
    match k {
        SymbolKind::Function => "Function"@,
        SymbolKind::Class => "Class"@,
        SymbolKind::Struct => "Struct"@,
        SymbolKind::Enum => "Enum"@,
        SymbolKind::Trait => "Trait"@,
        SymbolKind::Impl => "Impl"@,
        SymbolKind::Interface => "Interface"@,
        SymbolKind::TypeAlias => "TypeAlias"@,
        SymbolKind::Const => "Const"@,
        SymbolKind::Static => "Static"@,
        SymbolKind::Module => "Module"@,
        SymbolKind::Variable => "Variable"@,
    }
}

/// The debug name of a symbol kind.
pub fn kind_debug(k: SymbolKind) -> (r: &'static str)
    ensures
        r@ == kind_debug_name(k),
{
    match k {
        SymbolKind::Function => "Function",
        SymbolKind::Class => "Class",
        SymbolKind::Struct => "Struct",
        SymbolKind::Enum => "Enum",
        SymbolKind::Trait => "Trait",
        SymbolKind::Impl => "Impl",
        SymbolKind::Interface => "Interface",
        SymbolKind::TypeAlias => "TypeAlias",
        SymbolKind::Const => "Const",
        SymbolKind::Static => "Static",
        SymbolKind::Module => "Module",
        SymbolKind::Variable => "Variable",
    }
}

/// Total length in bytes (UTF-8) of the sources present among `sources`.
pub open spec fn source_bytes(sources: Seq<Option<String>>) -> int
    decreases sources.len(),
{
    if sources.len() == 0 {
        0
    } else {
        source_bytes(sources.drop_last()) + match sources.last() {
            Some(s) => vstd::utf8::encode_utf8(s@).len() as int,
            None => 0,
        }
    }
}

/// The tokens a context answer of `chars` characters is estimated at: a
/// quarter, kept to 32 bits.
pub open spec fn token_estimate(chars: int) -> u32 {
    ((chars / 4) % 0x1_0000_0000) as u32
}

/// A context answer entry for a symbol, with its source (if included) and
/// the qualified names of its callers and callees.
pub fn context_symbol(sym: &Symbol, source: Option<String>, callers: Vec<String>, callees: Vec<String>) -> (r: ToolContextSymbol)
    ensures
        r.name@ == sym.name@,
        r.qualified_name@ == sym.qualified_name@,
        r.kind@ == kind_debug_name(sym.kind),
        r.file_path@ == sym.file_path@,
        crate::domain::opt_text(r.signature) == crate::domain::opt_text(sym.signature),
        r.source == source,
        r.callers == callers,
        r.callees == callees,
{
    ToolContextSymbol {
        name: sym.name.clone(),
        qualified_name: sym.qualified_name.clone(),
        kind: String::from_str(kind_debug(sym.kind)),
        file_path: sym.file_path.clone(),
        signature: crate::domain::copy_opt_text(&sym.signature),
        source,
        callers,
        callees,
    }
}

/// The context answer: the entries, a token estimate from the total length
/// of the included sources, and "live" freshness.
pub fn context_result(entries: Vec<ToolContextSymbol>) -> (r: ToolContextResult)
    requires
        source_bytes(entries@.map_values(|e: ToolContextSymbol| e.source)) <= u64::MAX,
    ensures
        r.symbols == entries,
        r.token_count == token_estimate(source_bytes(entries@.map_values(|e: ToolContextSymbol| e.source))),
        r.freshness@ == "live"@,
{
    let ghost sv = entries@.map_values(|e: ToolContextSymbol| e.source);
    let mut total: u64 = 0;
    let mut i: usize = 0;
    while i < entries.len()
        invariant
            i <= entries@.len(),
            sv == entries@.map_values(|e: ToolContextSymbol| e.source),
            source_bytes(sv) <= u64::MAX,
            total == source_bytes(sv.take(i as int)),
        decreases entries@.len() - i,
    {
        assert(sv.take(i as int + 1).drop_last() =~= sv.take(i as int));
        assert(sv[i as int] == entries@[i as int].source);
        proof {
            lemma_source_bytes_prefix(sv, i as int + 1);
        }
        match &entries[i].source {
            Some(s) => {
                total = total + s.as_str().as_bytes().len() as u64;
            },
            None => {},
        }
        i = i + 1;
    }
    assert(sv.take(entries@.len() as int) =~= sv);
    let quarter = total / 4;
    let tokens = (quarter % 0x1_0000_0000) as u32;
    ToolContextResult { symbols: entries, token_count: tokens, freshness: String::from_str("live") }
}

proof fn lemma_source_bytes_prefix(v: Seq<Option<String>>, n: int)
    requires
        0 <= n <= v.len(),
    ensures
        source_bytes(v.take(n)) <= source_bytes(v),
        0 <= source_bytes(v),
    decreases v.len(),
{
    if n < v.len() {
        assert(v.drop_last().take(n) =~= v.take(n));
        lemma_source_bytes_prefix(v.drop_last(), n);
    } else {
        assert(v.take(n) =~= v);
        if v.len() > 0 {
            lemma_source_bytes_prefix(v.drop_last(), 0);
        }
    }
}

// ── Read, write, submit, verify ──────────────────────────────────────

/// The answer to a file read: the content decoded (invalid sequences
/// replaced), its hash, and whether the session changed it.
pub fn file_read_result(r: FileReadResult) -> (t: ToolFileReadResult)
    ensures
        t.content@ == utf8_lossy(r.content@),
        t.hash == r.hash,
        t.modified_in_session == r.modified_in_session,
{
    ToolFileReadResult { content: lossy_string(r.content.as_slice()), hash: r.hash, modified_in_session: r.modified_in_session }
}

/// The changes a write reports: every symbol parsed from the new content,
/// by qualified name, as modified.
pub fn detected_changes(symbols: &[Symbol]) -> (r: Vec<ToolDetectedChange>)
    ensures
        r@.len() == symbols@.len(),
        forall|i: int| 0 <= i < r@.len() ==> (#[trigger] r@[i]).symbol_name@ == symbols@[i].qualified_name@
            && r@[i].change_type@ == "modified"@,
{
    let mut out: Vec<ToolDetectedChange> = Vec::new();
    let mut i: usize = 0;
    while i < symbols.len()
        invariant
            i <= symbols@.len(),
            out@.len() == i,
            forall|j: int| 0 <= j < i ==> (#[trigger] out@[j]).symbol_name@ == symbols@[j].qualified_name@
                && out@[j].change_type@ == "modified"@,
        decreases symbols@.len() - i,
    {
        out.push(ToolDetectedChange {
            symbol_name: symbols[i].qualified_name.clone(),
            change_type: String::from_str("modified"),
        });
        i = i + 1;
    }
    out
}

/// The answer to a submit: accepted, with no version, failures or
/// conflicts.
pub fn submit_result(changeset_id: String) -> (r: ToolSubmitResult)
    ensures
        r.status@ == "accepted"@,
        r.version is None,
        r.changeset_id == changeset_id,
        r.failures@.len() == 0,
        r.conflicts@.len() == 0,
{
    ToolSubmitResult {
        status: String::from_str("accepted"),
        version: None,
        changeset_id,
        failures: Vec::new(),
        conflicts: Vec::new(),
    }
}

/// The status a changeset takes once verification has run: "approved" when
/// every step passed, "rejected" otherwise.
pub fn finalize_status(passed: bool) -> (r: &'static str)
    ensures
        r@ == (if passed { "approved"@ } else { "rejected"@ }),
{
    if passed { "approved" } else { "rejected" }
}

/// The file list answer: each visible file with whether this session
/// changed it (`modified`) and the note about other sessions' changes to it
/// (`notes[i]` for the i-th file).
pub fn file_list_result(all_files: Vec<String>, modified: &Vec<String>, notes: Vec<String>) -> (r: ToolFileListResult)
    requires
        notes@.len() == all_files@.len(),
    ensures
        r.total == all_files@.len(),
        r.files@.len() == all_files@.len(),
        forall|i: int| 0 <= i < r.files@.len() ==> {
            &&& (#[trigger] r.files@[i]).path@ == all_files@[i]@
            &&& r.files@[i].modified_in_session == texts_of(modified@).contains(all_files@[i]@)
            &&& r.files@[i].modified_by_other@ == notes@[i]@
        },
{
    let total = all_files.len();
    let mut files: Vec<ToolFileListEntry> = Vec::new();
    let mut i: usize = 0;
    while i < all_files.len()
        invariant
            i <= all_files@.len(),
            notes@.len() == all_files@.len(),
            files@.len() == i,
            forall|j: int| 0 <= j < i ==> {
                &&& (#[trigger] files@[j]).path@ == all_files@[j]@
                &&& files@[j].modified_in_session == texts_of(modified@).contains(all_files@[j]@)
                &&& files@[j].modified_by_other@ == notes@[j]@
            },
        decreases all_files@.len() - i,
    {
        let path = &all_files[i];
        let mut found = false;
        let mut k: usize = 0;
        while k < modified.len()
            invariant
                k <= modified@.len(),
                found == exists|x: int| 0 <= x < k && texts_of(modified@)[x] == path@,
            decreases modified@.len() - k,
        {
            if str_eq(modified[k].as_str(), path.as_str()) {
                assert(texts_of(modified@)[k as int] == path@);
                found = true;
            } else {
                assert(texts_of(modified@)[k as int] != path@);
                assert forall|x: int| 0 <= x < k + 1 && texts_of(modified@)[x] == path@ implies 0 <= x < k by {}
            }
            k = k + 1;
        }
        files.push(ToolFileListEntry {
            path: path.clone(),
            modified_in_session: found,
            modified_by_other: notes[i].clone(),
        });
        i = i + 1;
    }
    ToolFileListResult { files, total }
}

// ── Merge ────────────────────────────────────────────────────────────

/// The error refusing to merge a changeset in `state`.
pub open spec fn not_approved_message(state: Seq<char>) -> Seq<char> {
    "changeset is '"@ + state + "', must be 'approved' to merge"@
}

/// A changeset may be merged only once approved.
pub fn merge_gate(state: &str) -> (r: Result<(), Error>)
    ensures
        state@ == "approved"@ ==> r is Ok,
        !(state@ == "approved"@) ==> (r matches Err(Error::InvalidInput(m)) && m@ == not_approved_message(state@)),
{
    if str_eq(state, "approved") {
        return Ok(());
    }
    let mut m = String::from_str("changeset is '");
    push_text(&mut m, state);
    push_text(&mut m, "', must be 'approved' to merge");
    Err(Error::InvalidInput(m))
}

/// The commit message, author name and author email of a merge: the given
/// message or "merge changeset"; the given name and email, each falling
/// back to the agent identity (the changeset's agent, or "agent") when
/// empty.
pub fn merge_identity(message: Option<&str>, agent_id: &Option<String>, author_name: &str, author_email: &str)
    -> (r: (String, String, String))
    ensures
        r.0@ == (match message { Some(m) => m@, None => "merge changeset"@ }),
        r.1@ == (if author_name@.len() == 0 {
            match agent_id { Some(a) => a@, None => "agent"@ }
        } else {
            author_name@
        }),
        r.2@ == (if author_email@.len() == 0 {
            match agent_id { Some(a) => a@, None => "agent"@ }
        } else {
            author_email@
        }),
{
    let commit_message = match message {
        Some(m) => String::from_str(m),
        None => String::from_str("merge changeset"),
    };
    let agent = match agent_id {
        Some(a) => a.clone(),
        None => String::from_str("agent"),
    };
    let name = if author_name.unicode_len() == 0 { agent.clone() } else { String::from_str(author_name) };
    let email = if author_email.unicode_len() == 0 { agent } else { String::from_str(author_email) };
    (commit_message, name, email)
}

/// The debug name of a change kind.
pub open spec fn change_kind_name(k: SymbolChangeKind) -> Seq<char> {
    match k {
        SymbolChangeKind::Added => "Added"@,
        SymbolChangeKind::Modified => "Modified"@,
        SymbolChangeKind::Removed => "Removed"@,
    }
}

fn change_kind_text(k: SymbolChangeKind) -> (r: String)
    ensures
        r@ == change_kind_name(k),
{
    match k {
        SymbolChangeKind::Added => String::from_str("Added"),
        SymbolChangeKind::Modified => String::from_str("Modified"),
        SymbolChangeKind::Removed => String::from_str("Removed"),
    }
}

/// A merge conflict as the merge answer reports it.
pub fn tool_conflict(c: &SemanticConflict) -> (r: ToolConflict)
    ensures
        r.file@ == c.file_path@,
        r.symbol@ == c.symbol_name@,
        r.our_change@ == change_kind_name(c.our_change),
        r.their_change@ == change_kind_name(c.their_change),
{
    ToolConflict {
        file: c.file_path.clone(),
        symbol: c.symbol_name.clone(),
        our_change: change_kind_text(c.our_change),
        their_change: change_kind_text(c.their_change),
    }
}

/// The merge answer for a workspace merge outcome, with the commit to
/// record on the changeset (none for conflicts): a fast merge or a rebase
/// merge reports its commit (the rebase with its auto-rebased files); a
/// conflict reports the conflicts and no commit.
pub fn merge_answer(outcome: WorkspaceMergeResult) -> (r: (ToolMergeResult, Option<String>))
    ensures
        match outcome {
            WorkspaceMergeResult::FastMerge { commit_hash } => r.1 == Some(commit_hash)
                && r.0.commit_hash@ == commit_hash@ && r.0.merged_version@ == commit_hash@
                && !r.0.auto_rebased && r.0.auto_rebased_files@.len() == 0 && r.0.conflicts@.len() == 0,
            WorkspaceMergeResult::RebaseMerge { commit_hash, auto_rebased_files } => r.1 == Some(commit_hash)
                && r.0.commit_hash@ == commit_hash@ && r.0.merged_version@ == commit_hash@
                && r.0.auto_rebased && r.0.auto_rebased_files == auto_rebased_files && r.0.conflicts@.len() == 0,
            WorkspaceMergeResult::Conflicts { conflicts } => r.1 is None
                && r.0.commit_hash@.len() == 0 && r.0.merged_version@.len() == 0
                && !r.0.auto_rebased && r.0.auto_rebased_files@.len() == 0
                && r.0.conflicts@.len() == conflicts@.len()
                && forall|i: int| 0 <= i < conflicts@.len() ==> {
                    &&& (#[trigger] r.0.conflicts@[i]).file@ == conflicts@[i].file_path@
                    &&& r.0.conflicts@[i].symbol@ == conflicts@[i].symbol_name@
                    &&& r.0.conflicts@[i].our_change@ == change_kind_name(conflicts@[i].our_change)
                    &&& r.0.conflicts@[i].their_change@ == change_kind_name(conflicts@[i].their_change)
                },
        },
{
    match outcome {
        WorkspaceMergeResult::FastMerge { commit_hash } => {
            let answer = ToolMergeResult {
                commit_hash: commit_hash.clone(),
                merged_version: commit_hash.clone(),
                auto_rebased: false,
                auto_rebased_files: Vec::new(),
                conflicts: Vec::new(),
            };
            (answer, Some(commit_hash))
        },
        WorkspaceMergeResult::RebaseMerge { commit_hash, auto_rebased_files } => {
            let answer = ToolMergeResult {
                commit_hash: commit_hash.clone(),
                merged_version: commit_hash.clone(),
                auto_rebased: true,
                auto_rebased_files,
                conflicts: Vec::new(),
            };
            (answer, Some(commit_hash))
        },
        WorkspaceMergeResult::Conflicts { conflicts } => {
            let mut out: Vec<ToolConflict> = Vec::new();
            let mut i: usize = 0;
            while i < conflicts.len()
                invariant
                    i <= conflicts@.len(),
                    out@.len() == i,
                    forall|j: int| 0 <= j < i ==> {
                        &&& (#[trigger] out@[j]).file@ == conflicts@[j].file_path@
                        &&& out@[j].symbol@ == conflicts@[j].symbol_name@
                        &&& out@[j].our_change@ == change_kind_name(conflicts@[j].our_change)
                        &&& out@[j].their_change@ == change_kind_name(conflicts@[j].their_change)
                    },
                decreases conflicts@.len() - i,
            {
                out.push(tool_conflict(&conflicts[i]));
                i = i + 1;
            }
            let answer = ToolMergeResult {
                commit_hash: String::new(),
                merged_version: String::new(),
                auto_rebased: false,
                auto_rebased_files: Vec::new(),
                conflicts: out,
            };
            (answer, None)
        },
    }
}

} // verus!
