//! Semantic conflict detection for three-way merge.
//!
//! The three versions of a file (base, head, overlay) are compared symbol by
//! symbol; conflicts arise when both sides modify, add or remove the same
//! symbol. Files that cannot be merged that way are compared byte for byte.

use vstd::prelude::*;
use vstd::string::StringSliceAdditionalSpecFns;
use vstd::utf8::{valid_utf8, decode_utf8};
use crate::domain::{Error, FileAnalysis, Symbol};
use crate::conflict::ast_merge::{ast_merge_parsed, spans_ok, same_but_ids, lemma_unchanged_side_merges_clean, lemma_same_but_ids_refl, ast_merge_spec, spans_well_formed, ConflictV, MergeStatus,
    SymbolConflict, conflicts_view};
use crate::parser::registry::{ParserRegistry, QueryLibrary, path_extension, registry_result};

verus! {

broadcast use vstd::utf8::decode_utf8_encode_utf8;

/// Classification of a symbol change relative to the base version.
#[derive(Debug, Clone, Copy, PartialEq, Eq, Structural)]
pub enum SymbolChangeKind {
    Added,
    Modified,
    Removed,
}

/// Describes a single semantic conflict within a file.
#[derive(Debug, Clone)]
pub struct SemanticConflict {
    /// Path of the conflicting file.
    pub file_path: String,
    /// Qualified name of the symbol that conflicts.
    pub symbol_name: String,
    /// What our side (overlay) did to this symbol.
    pub our_change: SymbolChangeKind,
    /// What their side (head) did to this symbol.
    pub their_change: SymbolChangeKind,
}

/// Abstract value of a semantic conflict.
pub type SemanticConflictV = (Seq<char>, Seq<char>, SymbolChangeKind, SymbolChangeKind);

impl View for SemanticConflict {
    type V = SemanticConflictV;

    open spec fn view(&self) -> SemanticConflictV {
        (self.file_path@, self.symbol_name@, self.our_change, self.their_change)
    }
}

pub open spec fn semantic_view(v: Seq<SemanticConflict>) -> Seq<SemanticConflictV> {
    v.map_values(|c: SemanticConflict| c@)
}

/// Result of analyzing a file for three-way merge.
#[derive(Debug)]
pub enum MergeAnalysis {
    /// No overlapping symbol changes: the file can be auto-merged.
    AutoMerge { merged_content: Vec<u8> },
    /// Overlapping symbol changes that require manual resolution.
    Conflict { conflicts: Vec<SemanticConflict> },
}

/// Abstract value of an analysis: `Ok(merged bytes)` or `Err(conflicts)`.
pub open spec fn analysis_view(m: MergeAnalysis) -> Result<Seq<u8>, Seq<SemanticConflictV>> {
    match m {
        MergeAnalysis::AutoMerge { merged_content } => Ok(merged_content@),
        MergeAnalysis::Conflict { conflicts } => Err(semantic_view(conflicts@)),
    }
}

/// The change a symbol underwent, judged from its base and current texts
/// (an empty text means the symbol is absent from that version).
pub open spec fn change_kind(base: Seq<char>, current: Seq<char>) -> SymbolChangeKind {
    if base.len() == 0 && current.len() > 0 {
        SymbolChangeKind::Added
    } else if base.len() > 0 && current.len() == 0 {
        SymbolChangeKind::Removed
    } else {
        SymbolChangeKind::Modified
    }
}

/// Infer the change kind of a symbol from its base and current texts.
pub fn infer_change_kind(base: &str, current: &str) -> (r: SymbolChangeKind)
    ensures
        r == change_kind(base@, current@),
{
    let be = base.unicode_len() == 0;
    let ce = current.unicode_len() == 0;
    if be && !ce {
        SymbolChangeKind::Added
    } else if !be && ce {
        SymbolChangeKind::Removed
    } else {
        SymbolChangeKind::Modified
    }
}

/// Byte-level decision: a conflict on the entire file when both sides
/// changed it to different bytes; otherwise the overlay's bytes when the
/// overlay changed the file, else the head's bytes.
pub open spec fn byte_level_spec(path: Seq<char>, base: Seq<u8>, head: Seq<u8>, overlay: Seq<u8>)
    -> Result<Seq<u8>, Seq<SemanticConflictV>>
{
    if base != head && base != overlay && head != overlay {
        Err(seq![(path, "<entire file>"@, SymbolChangeKind::Modified, SymbolChangeKind::Modified)])
    } else if base != overlay {
        Ok(overlay)
    } else {
        Ok(head)
    }
}

fn bytes_eq(a: &[u8], b: &[u8]) -> (r: bool)
    ensures
        r == (a@ == b@),
{
    if a.len() != b.len() {
        return false;
    }
    let mut i: usize = 0;
    while i < a.len()
        invariant
            a@.len() == b@.len(),
            i <= a@.len(),
            forall|j: int| 0 <= j < i ==> a@[j] == b@[j],
        decreases a@.len() - i,
    {
        if a[i] != b[i] {
            return false;
        }
        i = i + 1;
    }
    assert(a@ =~= b@);
    true
}

/// Byte-level fallback when symbol-level merging is not available.
pub fn byte_level_analysis(file_path: &str, base_content: &[u8], head_content: &[u8], overlay_content: &[u8])
    -> (r: MergeAnalysis)
    ensures
        analysis_view(r) == byte_level_spec(file_path@, base_content@, head_content@, overlay_content@),
{
    let head_changed = !bytes_eq(base_content, head_content);
    let overlay_changed = !bytes_eq(base_content, overlay_content);
    if head_changed && overlay_changed && !bytes_eq(head_content, overlay_content) {
        let c = SemanticConflict {
            file_path: String::from_str(file_path),
            symbol_name: String::from_str("<entire file>"),
            our_change: SymbolChangeKind::Modified,
            their_change: SymbolChangeKind::Modified,
        };
        let mut conflicts: Vec<SemanticConflict> = Vec::new();
        conflicts.push(c);
        assert(semantic_view(conflicts@) =~= seq![c@]);
        MergeAnalysis::Conflict { conflicts }
    } else if overlay_changed {
        MergeAnalysis::AutoMerge { merged_content: vstd::slice::slice_to_vec(overlay_content) }
    } else {
        MergeAnalysis::AutoMerge { merged_content: vstd::slice::slice_to_vec(head_content) }
    }
}

/// The text std gives for the error of decoding invalid UTF-8 bytes.
pub uninterp spec fn utf8_error_text(b: Seq<u8>) -> Seq<char>;

/// `std::str::from_utf8`: the decoded text when the bytes are valid UTF-8,
/// else the error's display text.
#[verifier::external_body]
pub(crate) fn utf8_decode(b: &[u8]) -> (r: Result<&str, String>)
    ensures
        r is Ok <==> valid_utf8(b@),
        r matches Ok(s) ==> s@ == decode_utf8(b@),
        r matches Err(e) ==> e@ == utf8_error_text(b@),
{
    match std::str::from_utf8(b) {
        Ok(s) => Ok(s),
        Err(e) => Err(e.to_string()),
    }
}

/// Decodes bytes as UTF-8 when they are valid UTF-8.
fn utf8_str(b: &[u8]) -> (r: Option<&str>)
    ensures
        r is Some <==> valid_utf8(b@),
        r matches Some(s) ==> s@ == decode_utf8(b@),
{
    match utf8_decode(b) {
        Ok(s) => Some(s),
        Err(_) => None,
    }
}

/// Semantic conflicts for symbol-level conflicts between head (A) and overlay (B).
pub open spec fn semantic_of(path: Seq<char>, cs: Seq<ConflictV>) -> Seq<SemanticConflictV> {
    cs.map_values(|c: ConflictV| (path, c.0, change_kind(c.4, c.3), change_kind(c.4, c.2)))
}

/// Whether the symbol-level merge of the three versions applies: all three are
/// valid UTF-8, a parser handles the file, and each version was parsed.
pub open spec fn symbol_merge_applies(
    registry: Seq<Seq<char>>, path: Seq<char>, base: Seq<u8>, head: Seq<u8>, overlay: Seq<u8>,
    parsed: Option<(Seq<Symbol>, Seq<Symbol>, Seq<Symbol>)>,
) -> bool {
    &&& valid_utf8(base) && valid_utf8(head) && valid_utf8(overlay)
    &&& path_extension(path) matches Some(e) && registry.contains(e)
    &&& parsed is Some
}

/// The three symbol lists were parsed from the three versions: each symbol
/// that ends inside its file starts no later than it ends.
pub open spec fn parsed_well_formed(
    base: Seq<u8>, head: Seq<u8>, overlay: Seq<u8>,
    parsed: Option<(Seq<Symbol>, Seq<Symbol>, Seq<Symbol>)>,
) -> bool {
    parsed matches Some(p) ==> {
        &&& spans_well_formed(base.len() as int, p.0)
        &&& spans_well_formed(head.len() as int, p.1)
        &&& spans_well_formed(overlay.len() as int, p.2)
    }
}

pub open spec fn parsed_view(parsed: Option<(Vec<Symbol>, Vec<Symbol>, Vec<Symbol>)>)
    -> Option<(Seq<Symbol>, Seq<Symbol>, Seq<Symbol>)>
{
    match parsed {
        Some(p) => Some((p.0@, p.1@, p.2@)),
        None => None,
    }
}

/// The analysis of one file.
pub open spec fn analyze_spec(
    registry: Seq<Seq<char>>, path: Seq<char>, base: Seq<u8>, head: Seq<u8>, overlay: Seq<u8>,
    parsed: Option<(Seq<Symbol>, Seq<Symbol>, Seq<Symbol>)>,
) -> Result<Seq<u8>, Seq<SemanticConflictV>> {
    if symbol_merge_applies(registry, path, base, head, overlay, parsed) {
        let p = parsed->0;
        let merged = ast_merge_spec(decode_utf8(base), decode_utf8(head), decode_utf8(overlay), p.0, p.1, p.2);
        let merged_bytes = vstd::utf8::encode_utf8(merged.1);
        let min_len = if head.len() <= overlay.len() { head.len() } else { overlay.len() };
        match merged.0 {
            MergeStatus::Clean => if min_len > 0 && merged_bytes.len() * 5 < min_len * 4 {
                byte_level_spec(path, base, head, overlay)
            } else {
                Ok(merged_bytes)
            },
            MergeStatus::Conflict => Err(semantic_of(path, merged.2)),
        }
    } else {
        byte_level_spec(path, base, head, overlay)
    }
}

fn to_semantic(file_path: &str, cs: Vec<SymbolConflict>) -> (r: Vec<SemanticConflict>)
    ensures
        semantic_view(r@) == semantic_of(file_path@, conflicts_view(cs@)),
{
    let mut out: Vec<SemanticConflict> = Vec::new();
    let mut i: usize = 0;
    while i < cs.len()
        invariant
            i <= cs@.len(),
            semantic_view(out@) == semantic_of(file_path@, conflicts_view(cs@)).take(i as int),
        decreases cs@.len() - i,
    {
        let c = &cs[i];
        let their_change = infer_change_kind(c.base.as_str(), c.version_a.as_str());
        let our_change = infer_change_kind(c.base.as_str(), c.version_b.as_str());
        let sc = SemanticConflict {
            file_path: String::from_str(file_path),
            symbol_name: c.qualified_name.clone(),
            our_change,
            their_change,
        };
        let ghost before = semantic_view(out@);
        out.push(sc);
        assert(semantic_view(out@) =~= before.push(sc@));
        assert(semantic_of(file_path@, conflicts_view(cs@)).take(i + 1) =~= semantic_of(file_path@, conflicts_view(cs@)).take(i as int).push(sc@));
        i = i + 1;
    }
    assert(semantic_of(file_path@, conflicts_view(cs@)).take(cs@.len() as int) =~= semantic_of(file_path@, conflicts_view(cs@)));
    out
}

/// Analyze a single file for semantic conflicts across three versions,
/// given what a parser extracted from them.
///
/// `parsed` holds the symbols a parser extracted from the base, head and
/// overlay versions, or `None` when one of them could not be parsed. When
/// the symbol-level merge applies, the merge of base, head (as side A) and
/// overlay (as side B) decides; a clean merge whose output is shorter than
/// four fifths of the smaller agent version is distrusted and the byte-level
/// comparison decides instead. Otherwise the byte-level comparison decides.
pub fn analyze_file_conflict_parsed(
    file_path: &str,
    base_content: &[u8],
    head_content: &[u8],
    overlay_content: &[u8],
    parser: &ParserRegistry,
    parsed: &Option<(Vec<Symbol>, Vec<Symbol>, Vec<Symbol>)>,
) -> (r: MergeAnalysis)
    requires
        parsed_well_formed(base_content@, head_content@, overlay_content@, parsed_view(*parsed)),
    ensures
        analysis_view(r) == analyze_spec(parser@, file_path@, base_content@, head_content@, overlay_content@,
            parsed_view(*parsed)),
{
    match parsed {
        Some(p) => analyze_with(file_path, base_content, head_content, overlay_content, parser,
            Some((p.0.as_slice(), p.1.as_slice(), p.2.as_slice()))),
        None => analyze_with(file_path, base_content, head_content, overlay_content, parser, None),
    }
}

pub open spec fn slices_view(parsed: Option<(&[Symbol], &[Symbol], &[Symbol])>) -> Option<(Seq<Symbol>, Seq<Symbol>, Seq<Symbol>)> {
    match parsed {
        Some(p) => Some((p.0@, p.1@, p.2@)),
        None => None,
    }
}

fn analyze_with(
    file_path: &str,
    base_content: &[u8],
    head_content: &[u8],
    overlay_content: &[u8],
    parser: &ParserRegistry,
    parsed: Option<(&[Symbol], &[Symbol], &[Symbol])>,
) -> (r: MergeAnalysis)
    requires
        parsed_well_formed(base_content@, head_content@, overlay_content@, slices_view(parsed)),
    ensures
        analysis_view(r) == analyze_spec(parser@, file_path@, base_content@, head_content@, overlay_content@,
            slices_view(parsed)),
{
    let base_str = utf8_str(base_content);
    let head_str = utf8_str(head_content);
    let overlay_str = utf8_str(overlay_content);
    match (base_str, head_str, overlay_str, parsed) {
        (Some(base), Some(head), Some(overlay), Some(p)) => {
            proof {
                vstd::utf8::decode_utf8_encode_utf8(base_content@);
                vstd::utf8::decode_utf8_encode_utf8(head_content@);
                vstd::utf8::decode_utf8_encode_utf8(overlay_content@);
            }
            assert(symbol_merge_applies(parser@, file_path@, base_content@, head_content@, overlay_content@, slices_view(parsed))
                == (path_extension(file_path@) matches Some(e) && parser@.contains(e)));
            let ghost pv = slices_view(parsed)->0;
            assert(pv == (p.0@, p.1@, p.2@));
            let ghost m = ast_merge_spec(decode_utf8(base_content@), decode_utf8(head_content@), decode_utf8(overlay_content@), pv.0, pv.1, pv.2);
            match ast_merge_parsed(parser, file_path, base, head, overlay, p.0, p.1, p.2) {
                Ok(result) => {
                    assert((result.status, result.merged_content@, conflicts_view(result.conflicts@)) == m);
                    match result.status {
                        MergeStatus::Clean => {
                            let merged_len = result.merged_content.as_str().as_bytes().len();
                            let hl = head_content.len();
                            let ol = overlay_content.len();
                            let min_agent_len = if hl <= ol { hl } else { ol };
                            assert(merged_len == vstd::utf8::encode_utf8(m.1).len());
                            if min_agent_len > 0 && (merged_len as u128) * 5 < (min_agent_len as u128) * 4 {
                                byte_level_analysis(file_path, base_content, head_content, overlay_content)
                            } else {
                                let merged = vstd::slice::slice_to_vec(result.merged_content.as_str().as_bytes());
                                assert(merged@ == vstd::utf8::encode_utf8(m.1));
                                MergeAnalysis::AutoMerge { merged_content: merged }
                            }
                        },
                        MergeStatus::Conflict => {
                            MergeAnalysis::Conflict { conflicts: to_semantic(file_path, result.conflicts) }
                        },
                    }
                },
                Err(_) => byte_level_analysis(file_path, base_content, head_content, overlay_content),
            }
        },
        _ => byte_level_analysis(file_path, base_content, head_content, overlay_content),
    }
}

/// The symbol lists of three parses, when all three succeeded and gave
/// symbols that end inside their version no earlier than they start.
pub open spec fn parsed_of(
    base: Seq<u8>, head: Seq<u8>, overlay: Seq<u8>,
    pb: Result<FileAnalysis, Error>, ph: Result<FileAnalysis, Error>, po: Result<FileAnalysis, Error>,
) -> Option<(Seq<Symbol>, Seq<Symbol>, Seq<Symbol>)> {
    match (pb, ph, po) {
        (Ok(b), Ok(h), Ok(o)) => if spans_well_formed(base.len() as int, b.symbols@)
            && spans_well_formed(head.len() as int, h.symbols@) && spans_well_formed(overlay.len() as int, o.symbols@) {
            Some((b.symbols@, h.symbols@, o.symbols@))
        } else {
            None
        },
        _ => None,
    }
}

/// A parse of its own, or else the base's.
pub open spec fn parse_or(own: Option<Result<FileAnalysis, Error>>, base: Result<FileAnalysis, Error>) -> Result<FileAnalysis, Error> {
    match own {
        Some(p) => p,
        None => base,
    }
}

/// `r` is the analysis that the parses `pb`, `ph` and `po` give.
pub open spec fn analysis_from(
    exts: Seq<Seq<char>>, path: Seq<char>, base: Seq<u8>, head: Seq<u8>, overlay: Seq<u8>,
    pb: Result<FileAnalysis, Error>, ph: Result<FileAnalysis, Error>, po: Result<FileAnalysis, Error>,
    r: MergeAnalysis,
) -> bool {
    analysis_view(r) == analyze_spec(exts, path, base, head, overlay, parsed_of(base, head, overlay, pb, ph, po))
}

/// `r` is the analysis that the registry's parses of the three versions give.
pub open spec fn analysis_by_parses(
    exts: Seq<Seq<char>>, path: Seq<char>, base: Seq<u8>, head: Seq<u8>, overlay: Seq<u8>,
    queries: &QueryLibrary, r: MergeAnalysis,
) -> bool {
    exists|pb: Result<FileAnalysis, Error>, ph: Result<FileAnalysis, Error>, po: Result<FileAnalysis, Error>|
        registry_result(exts, path, base, queries, pb) && registry_result(exts, path, head, queries, ph)
            && registry_result(exts, path, overlay, queries, po)
            && #[trigger] analysis_from(exts, path, base, head, overlay, pb, ph, po, r)
}

/// Analyze a single file for semantic conflicts across three versions.
///
/// The three versions are parsed with the registry; when the symbol-level
/// merge applies (all three are UTF-8, a parser handles the file, and each
/// parse succeeded), the merge of base, head (as side A) and overlay (as
/// side B) decides, a clean merge whose output is shorter than four fifths
/// of the smaller agent version being distrusted. Otherwise the byte-level
/// comparison decides.
pub fn analyze_file_conflict(
    file_path: &str,
    base_content: &[u8],
    head_content: &[u8],
    overlay_content: &[u8],
    parser: &ParserRegistry,
    queries: &QueryLibrary,
) -> (r: MergeAnalysis)
    ensures
        analysis_by_parses(parser@, file_path@, base_content@, head_content@, overlay_content@, queries, r),
        head_content@ == base_content@ || overlay_content@ == base_content@ ==> r is AutoMerge,
{
    let head_same = bytes_eq(head_content, base_content);
    let overlay_same = bytes_eq(overlay_content, base_content);
    // a version equal to the base has the base's parse
    let pb = parser.parse_file(file_path, base_content, queries);
    let ph_own: Option<Result<FileAnalysis, Error>> = if head_same {
        None
    } else {
        Some(parser.parse_file(file_path, head_content, queries))
    };
    let po_own: Option<Result<FileAnalysis, Error>> = if overlay_same {
        None
    } else {
        Some(parser.parse_file(file_path, overlay_content, queries))
    };
    let ghost gb = pb;
    let ghost gh = parse_or(ph_own, pb);
    let ghost go = parse_or(po_own, pb);
    let r = match &pb {
        Ok(b) => {
            let hs: Option<&[Symbol]> = match &ph_own {
                None => Some(b.symbols.as_slice()),
                Some(Ok(h)) => Some(h.symbols.as_slice()),
                Some(Err(_)) => None,
            };
            let os: Option<&[Symbol]> = match &po_own {
                None => Some(b.symbols.as_slice()),
                Some(Ok(o)) => Some(o.symbols.as_slice()),
                Some(Err(_)) => None,
            };
            match (hs, os) {
                (Some(h), Some(o)) => {
                    if spans_ok(base_content.len(), b.symbols.as_slice()) && spans_ok(head_content.len(), h)
                        && spans_ok(overlay_content.len(), o) {
                        let parsed = Some((b.symbols.as_slice(), h, o));
                        assert(slices_view(parsed) == parsed_of(base_content@, head_content@, overlay_content@, gb, gh, go));
                        analyze_with(file_path, base_content, head_content, overlay_content, parser, parsed)
                    } else {
                        assert(parsed_of(base_content@, head_content@, overlay_content@, gb, gh, go) is None);
                        analyze_with(file_path, base_content, head_content, overlay_content, parser, None)
                    }
                },
                _ => {
                    assert(parsed_of(base_content@, head_content@, overlay_content@, gb, gh, go) is None);
                    analyze_with(file_path, base_content, head_content, overlay_content, parser, None)
                },
            }
        },
        Err(_) => analyze_with(file_path, base_content, head_content, overlay_content, parser, None),
    };
    proof {
        let pv = parsed_of(base_content@, head_content@, overlay_content@, gb, gh, go);
        assert(analysis_from(parser@, file_path@, base_content@, head_content@, overlay_content@, gb, gh, go, r));
        if head_content@ == base_content@ || overlay_content@ == base_content@ {
            if pv is Some {
                lemma_same_but_ids_refl((pv->0).0);
            }
            lemma_one_side_change_auto_merges(parser@, file_path@, base_content@, head_content@, overlay_content@, pv);
        }
    }
    r
}

/// A file that only one side changed never yields a conflict: when head or
/// overlay equals the base, and the parse of the unchanged side gave the
/// base's symbols up to their ids (as parsing the same text does) or the
/// parses are not used, the analysis is an automatic merge.
pub proof fn lemma_one_side_change_auto_merges(
    exts: Seq<Seq<char>>, path: Seq<char>, base: Seq<u8>, head: Seq<u8>, overlay: Seq<u8>,
    parsed: Option<(Seq<Symbol>, Seq<Symbol>, Seq<Symbol>)>,
)
    requires
        head == base || overlay == base,
        parsed matches Some(p) ==> (head == base ==> same_but_ids(p.1, p.0)) && (overlay == base ==> same_but_ids(p.2, p.0)),
    ensures
        analyze_spec(exts, path, base, head, overlay, parsed) is Ok,
{
    if symbol_merge_applies(exts, path, base, head, overlay, parsed) {
        let p = parsed->0;
        if head == base {
            lemma_unchanged_side_merges_clean(decode_utf8(base), decode_utf8(overlay), p.0, p.1, p.2);
        } else {
            lemma_unchanged_side_merges_clean(decode_utf8(base), decode_utf8(head), p.0, p.2, p.1);
        }
    }
}

} // verus!
