//! Self-contained conflict payloads: when two sessions touch the same
//! symbol, the base version, their version and your version of it, with a
//! description of each change.

use vstd::prelude::*;
use vstd::string::StringSliceAdditionalSpecFns;
use crate::conflict::ast_merge::{lossy_string, utf8_lossy};
use crate::domain::{Error, Symbol, symbol_kind_label};
use crate::parser::registry::{ParserRegistry, path_extension};
use crate::text::{decimal, decimal_text, join_texts, join_with, push_char, push_text, str_eq, texts_of, trim_left,
    trim_right, lemma_trim_left_from, lemma_trim_right_to, is_whitespace, is_ws, to_chars, string_of,
    lemma_push_to_set};

verus! {

/// A block of conflicts to include in a submit response.
#[derive(Debug, Clone)]
pub struct ConflictBlock {
    pub conflicting_symbols: Vec<SymbolConflictDetail>,
    pub message: String,
}

/// Full detail about a single symbol conflict.
#[derive(Debug, Clone)]
pub struct SymbolConflictDetail {
    pub file_path: String,
    pub qualified_name: String,
    pub kind: String,
    pub conflicting_agent: String,
    pub their_change: SymbolVersion,
    pub your_change: SymbolVersion,
    pub base_version: SymbolVersion,
}

/// A specific version of a symbol's source.
#[derive(Debug, Clone)]
pub struct SymbolVersion {
    pub description: String,
    pub signature: String,
    pub body: String,
    /// One of: "modified", "added", "deleted", "base".
    pub change_type: String,
}

/// Abstract symbol version: (description, signature, body, change type).
pub type VersionV = (Seq<char>, Seq<char>, Seq<char>, Seq<char>);

impl View for SymbolVersion {
    type V = VersionV;

    open spec fn view(&self) -> VersionV {
        (self.description@, self.signature@, self.body@, self.change_type@)
    }
}

// ── Text measures ────────────────────────────────────────────────────

/// The index of the first newline of `s`, or its length.
pub open spec fn first_newline(s: Seq<char>) -> int
    decreases s.len(),
{
    if s.len() == 0 {
        0
    } else if s[0] == '\n' {
        0
    } else {
        1 + first_newline(s.drop_first())
    }
}

/// The first line of a symbol's source, trimmed: its signature.
pub open spec fn signature_of(s: Seq<char>) -> Seq<char> {
    trim_right(trim_left(s.take(first_newline(s))))
}

/// Number of newlines in `s`.
pub open spec fn newlines(s: Seq<char>) -> nat
    decreases s.len(),
{
    if s.len() == 0 {
        0
    } else {
        newlines(s.drop_last()) + if s.last() == '\n' { 1nat } else { 0nat }
    }
}

/// Number of lines of `s`: none when empty; a final newline ends the last
/// line rather than starting another.
pub open spec fn lines_in(s: Seq<char>) -> nat {
    if s.len() == 0 {
        0
    } else if s.last() == '\n' {
        newlines(s)
    } else {
        newlines(s) + 1
    }
}

/// The signature of a symbol: the first line of its source, trimmed.
pub fn extract_signature(source: &str) -> (r: String)
    ensures
        r@ == signature_of(source@),
{
    let chars = to_chars(source);
    let n = chars.len();
    let mut end: usize = 0;
    assert(source@.skip(0) =~= source@);
    while end < n && chars[end] != '\n'
        invariant
            n == chars@.len(),
            chars@ == source@,
            end <= n,
            first_newline(source@) == end + first_newline(source@.skip(end as int)),
        decreases n - end,
    {
        assert(source@.skip(end as int).drop_first() =~= source@.skip(end as int + 1));
        end = end + 1;
    }
    let mut lo: usize = 0;
    while lo < end && is_whitespace(chars[lo])
        invariant
            end <= n,
            n == chars@.len(),
            lo <= end,
            forall|j: int| 0 <= j < lo ==> is_ws(chars@[j]),
        decreases end - lo,
    {
        lo = lo + 1;
    }
    let mut hi: usize = end;
    while hi > lo && is_whitespace(chars[hi - 1])
        invariant
            end <= n,
            n == chars@.len(),
            lo <= hi <= end,
            forall|j: int| hi <= j < end ==> is_ws(chars@[j]),
        decreases hi,
    {
        hi = hi - 1;
    }
    proof {
        let line = source@.take(end as int);
        assert(first_newline(source@) == end) by {
            if end < n {
                assert(source@.skip(end as int)[0] == '\n');
            } else {
                assert(source@.skip(end as int).len() == 0);
            }
        }
        assert forall|j: int| 0 <= j < lo implies is_ws(line[j]) by {
            assert(line[j] == chars@[j]);
        }
        lemma_trim_left_from(line, lo as int);
        let t = line.subrange(lo as int, end as int);
        assert forall|k: int| hi - lo <= k < t.len() implies is_ws(t[k]) by {
            assert(t[k] == chars@[lo + k]);
        }
        if hi > lo {
            assert(t[hi - lo - 1] == chars@[hi - 1]);
        }
        lemma_trim_right_to(t, hi - lo);
        assert(t.subrange(0, hi - lo) =~= chars@.subrange(lo as int, hi as int));
    }
    string_of(&chars, lo, hi)
}

proof fn lemma_newlines_bound(s: Seq<char>)
    ensures
        newlines(s) <= s.len(),
    decreases s.len(),
{
    if s.len() > 0 {
        lemma_newlines_bound(s.drop_last());
    }
}

/// The number of lines of a source text.
pub fn line_count(source: &str) -> (r: usize)
    ensures
        r == lines_in(source@),
{
    let n = source.unicode_len();
    if n == 0 {
        return 0;
    }
    let mut count: usize = 0;
    let mut i: usize = 0;
    while i < n
        invariant
            n == source@.len(),
            i <= n,
            count == newlines(source@.take(i as int)),
            count <= i,
        decreases n - i,
    {
        assert(source@.take(i as int + 1).drop_last() =~= source@.take(i as int));
        if source.get_char(i) == '\n' {
            count = count + 1;
        }
        i = i + 1;
    }
    assert(source@.take(n as int) =~= source@);
    proof {
        lemma_newlines_bound(source@.drop_last());
        assert(source@.drop_last().push(source@.last()) =~= source@);
    }
    if source.get_char(n - 1) == '\n' {
        count
    } else {
        count + 1
    }
}

// ── Descriptions ─────────────────────────────────────────────────────

/// The parts of the description of a change in place: the signature
/// change, then the change in line count (or in the body alone).
pub open spec fn change_parts(base_sig: Seq<char>, base_body: Seq<char>, sig: Seq<char>, body: Seq<char>) -> Seq<Seq<char>> {
    let p1: Seq<Seq<char>> = if base_sig != sig {
        seq!["Signature changed from `"@ + base_sig + "` to `"@ + sig + "`"@]
    } else {
        Seq::empty()
    };
    let bl = lines_in(base_body);
    let cl = lines_in(body);
    let p2: Seq<Seq<char>> = if cl > bl {
        seq!["Added "@ + decimal((cl - bl) as nat) + " lines"@]
    } else if cl < bl {
        seq!["Removed "@ + decimal((bl - cl) as nat) + " lines"@]
    } else if base_body != body {
        seq!["Body modified (same line count)"@]
    } else {
        Seq::empty()
    };
    p1 + p2
}

/// A human-readable description of a change of a symbol against its base.
pub open spec fn change_description(base_sig: Seq<char>, base_body: Seq<char>, sig: Seq<char>, body: Seq<char>, change_type: Seq<char>) -> Seq<char> {
    if change_type == "added"@ {
        "New symbol added"@
    } else if change_type == "deleted"@ {
        "Symbol deleted"@
    } else if change_parts(base_sig, base_body, sig, body).len() == 0 {
        "No visible changes"@
    } else {
        join_with(change_parts(base_sig, base_body, sig, body), "; "@)
    }
}

/// Describes how a symbol changed against its base version.
pub fn describe_change(base_sig: &str, base_body: &str, changed_sig: &str, changed_body: &str, change_type: &str) -> (r: String)
    ensures
        r@ == change_description(base_sig@, base_body@, changed_sig@, changed_body@, change_type@),
{
    if str_eq(change_type, "added") {
        return String::from_str("New symbol added");
    }
    if str_eq(change_type, "deleted") {
        return String::from_str("Symbol deleted");
    }
    let mut parts: Vec<String> = Vec::new();
    if !str_eq(base_sig, changed_sig) {
        let mut p = String::from_str("Signature changed from `");
        push_text(&mut p, base_sig);
        push_text(&mut p, "` to `");
        push_text(&mut p, changed_sig);
        push_text(&mut p, "`");
        parts.push(p);
    }
    let ghost first = texts_of(parts@);
    let base_lines = line_count(base_body);
    let changed_lines = line_count(changed_body);
    if changed_lines > base_lines {
        let mut p = String::from_str("Added ");
        let d = decimal_text((changed_lines - base_lines) as u64);
        push_text(&mut p, d.as_str());
        push_text(&mut p, " lines");
        parts.push(p);
    } else if changed_lines < base_lines {
        let mut p = String::from_str("Removed ");
        let d = decimal_text((base_lines - changed_lines) as u64);
        push_text(&mut p, d.as_str());
        push_text(&mut p, " lines");
        parts.push(p);
    } else if !str_eq(base_body, changed_body) {
        parts.push(String::from_str("Body modified (same line count)"));
    }
    assert(texts_of(parts@) =~= change_parts(base_sig@, base_body@, changed_sig@, changed_body@));
    if parts.len() == 0 {
        String::from_str("No visible changes")
    } else {
        join_texts(&parts, "; ")
    }
}

// ── Finding symbols ──────────────────────────────────────────────────

/// `s` without its NUL characters.
pub open spec fn without_nul(s: Seq<char>) -> Seq<char>
    decreases s.len(),
{
    if s.len() == 0 {
        s
    } else {
        without_nul(s.drop_last()) + if s.last() == '\0' { Seq::empty() } else { seq![s.last()] }
    }
}

/// Drops the NUL characters of a text.
fn strip_nul(s: &str) -> (r: String)
    ensures
        r@ == without_nul(s@),
{
    let n = s.unicode_len();
    let mut out = String::new();
    let mut i: usize = 0;
    while i < n
        invariant
            n == s@.len(),
            i <= n,
            out@ == without_nul(s@.take(i as int)),
        decreases n - i,
    {
        assert(s@.take(i as int + 1).drop_last() =~= s@.take(i as int));
        let c = s.get_char(i);
        if c != '\0' {
            push_char(&mut out, c);
        }
        assert(out@ =~= without_nul(s@.take(i as int + 1)));
        i = i + 1;
    }
    assert(s@.take(n as int) =~= s@);
    out
}

/// The protobuf-safe form of a text: without NUL characters.
pub open spec fn proto_safe(s: Seq<char>) -> Seq<char> {
    without_nul(s)
}

/// A text made safe for a protobuf message: NUL characters are dropped.
pub fn sanitize_for_proto(s: &str) -> (r: String)
    ensures
        r@ == proto_safe(s@),
{
    strip_nul(s)
}

/// Byte ranges of symbols run forwards.
pub open spec fn spans_ordered(syms: Seq<Symbol>) -> bool {
    forall|i: int| 0 <= i < syms.len() ==> (#[trigger] syms[i]).span.start_byte <= syms[i].span.end_byte
}

/// The first symbol of `syms` named `name` whose source lies within the
/// content.
pub open spec fn found_at(content: Seq<u8>, syms: Seq<Symbol>, name: Seq<char>) -> Option<int>
    decreases syms.len(),
{
    if syms.len() == 0 {
        None
    } else {
        match found_at(content, syms.drop_last(), name) {
            Some(i) => Some(i),
            None => if syms.last().qualified_name@ == name && syms.last().span.end_byte <= content.len() {
                Some(syms.len() - 1)
            } else {
                None
            },
        }
    }
}

/// The source text of a symbol: its bytes decoded (invalid sequences
/// replaced), without NUL characters.
pub open spec fn source_of(content: Seq<u8>, sym: Symbol) -> Seq<char> {
    without_nul(utf8_lossy(content.subrange(sym.span.start_byte as int, sym.span.end_byte as int)))
}

/// Finds the symbol named `qualified_name` among the symbols parsed from
/// `content`, with its source text.
fn find_symbol(content: &str, symbols: &Vec<Symbol>, qualified_name: &str) -> (r: Option<(usize, String)>)
    requires
        spans_ordered(symbols@),
    ensures
        match r {
            Some((i, text)) => found_at(content.spec_bytes(), symbols@, qualified_name@) == Some(i as int)
                && i < symbols@.len() && text@ == source_of(content.spec_bytes(), symbols@[i as int]),
            None => found_at(content.spec_bytes(), symbols@, qualified_name@) is None,
        },
{
    let bytes = content.as_bytes();
    let mut i: usize = 0;
    while i < symbols.len()
        invariant
            i <= symbols@.len(),
            bytes@ == content.spec_bytes(),
            spans_ordered(symbols@),
            found_at(bytes@, symbols@.take(i as int), qualified_name@) is None,
        decreases symbols@.len() - i,
    {
        assert(symbols@.take(i as int + 1).drop_last() =~= symbols@.take(i as int));
        let sym = &symbols[i];
        let start = sym.span.start_byte as usize;
        let end = sym.span.end_byte as usize;
        if str_eq(sym.qualified_name.as_str(), qualified_name) && end <= bytes.len() {
            let raw = lossy_string(vstd::slice::slice_subrange(bytes, start, end));
            let text = strip_nul(raw.as_str());
            proof {
                lemma_found_at_prefix(bytes@, symbols@, qualified_name@, i as int + 1);
            }
            return Some((i, text));
        }
        i = i + 1;
    }
    assert(symbols@.take(symbols@.len() as int) =~= symbols@);
    None
}

proof fn lemma_found_at_prefix(content: Seq<u8>, syms: Seq<Symbol>, name: Seq<char>, n: int)
    requires
        0 < n <= syms.len(),
        found_at(content, syms.take(n), name) is Some,
    ensures
        found_at(content, syms, name) == found_at(content, syms.take(n), name),
    decreases syms.len() - n,
{
    if n < syms.len() {
        assert(syms.take(n + 1).drop_last() =~= syms.take(n));
        lemma_found_at_prefix(content, syms, name, n + 1);
    } else {
        assert(syms.take(n) =~= syms);
    }
}

/// The version of a symbol found (or not) in one side's content, measured
/// against the base signature and body.
pub open spec fn version_spec(
    content: Seq<u8>, syms: Seq<Symbol>, name: Seq<char>, base_sig: Seq<char>, base_body: Seq<char>, label: Seq<char>,
) -> VersionV {
    match found_at(content, syms, name) {
        Some(i) => {
            let text = source_of(content, syms[i]);
            let sig = signature_of(text);
            let ct = if label == "base"@ { "base"@ } else if base_body.len() == 0 { "added"@ } else { "modified"@ };
            (change_description(base_sig, base_body, sig, text, ct), sig, text, ct)
        },
        None => {
            let ct = if label == "base"@ { "base"@ } else { "deleted"@ };
            (change_description(base_sig, base_body, Seq::empty(), Seq::empty(), ct), Seq::empty(), Seq::empty(), ct)
        },
    }
}

/// Builds the version of a symbol in `content`, or an empty version when
/// the symbol is not there.
pub fn build_symbol_version(
    file_path: &str,
    content: &str,
    symbols: &Vec<Symbol>,
    qualified_name: &str,
    base_sig: &str,
    base_body: &str,
    label: &str,
) -> (r: SymbolVersion)
    requires
        spans_ordered(symbols@),
    ensures
        r@ == version_spec(content.spec_bytes(), symbols@, qualified_name@, base_sig@, base_body@, label@),
{
    match find_symbol(content, symbols, qualified_name) {
        Some((_i, text)) => {
            let sig = extract_signature(text.as_str());
            let change_type = if str_eq(label, "base") {
                String::from_str("base")
            } else if base_body.unicode_len() == 0 {
                String::from_str("added")
            } else {
                String::from_str("modified")
            };
            let desc = describe_change(base_sig, base_body, sig.as_str(), text.as_str(), change_type.as_str());
            let v = SymbolVersion { description: desc, signature: sig, body: text, change_type };
            assert(v@.3 == version_spec(content.spec_bytes(), symbols@, qualified_name@, base_sig@, base_body@, label@).3);
            assert(v@.2 == version_spec(content.spec_bytes(), symbols@, qualified_name@, base_sig@, base_body@, label@).2);
            assert(v@.1 == version_spec(content.spec_bytes(), symbols@, qualified_name@, base_sig@, base_body@, label@).1);
            v
        },
        None => {
            let change_type = if str_eq(label, "base") {
                String::from_str("base")
            } else {
                String::from_str("deleted")
            };
            proof {
                reveal_strlit("");
            }
            let desc = describe_change(base_sig, base_body, "", "", change_type.as_str());
            assert(""@ =~= Seq::<char>::empty());
            let v = SymbolVersion { description: desc, signature: String::new(), body: String::new(), change_type };
            assert(v@.3 == version_spec(content.spec_bytes(), symbols@, qualified_name@, base_sig@, base_body@, label@).3);
            assert(v@.0 == version_spec(content.spec_bytes(), symbols@, qualified_name@, base_sig@, base_body@, label@).0);
            v
        },
    }
}

/// The error for a file no parser handles.
pub open spec fn unsupported_message(path: Seq<char>) -> Seq<char> {
    "Unsupported file: "@ + path
}

/// Abstract conflict detail: (file, qualified name, kind, agent, their
/// version, your version, base version).
pub type DetailV = (Seq<char>, Seq<char>, Seq<char>, Seq<char>, VersionV, VersionV, VersionV);

impl View for SymbolConflictDetail {
    type V = DetailV;

    open spec fn view(&self) -> DetailV {
        (self.file_path@, self.qualified_name@, self.kind@, self.conflicting_agent@,
            self.their_change@, self.your_change@, self.base_version@)
    }
}

/// The detail of one symbol conflict, from the three contents and the
/// symbols parsed from each.
pub open spec fn detail_spec(
    path: Seq<char>, name: Seq<char>, agent: Seq<char>,
    base: Seq<u8>, theirs: Seq<u8>, yours: Seq<u8>,
    base_syms: Seq<Symbol>, their_syms: Seq<Symbol>, your_syms: Seq<Symbol>,
) -> DetailV {
    let (base_sig, base_body, kind) = match found_at(base, base_syms, name) {
        Some(i) => {
            let text = source_of(base, base_syms[i]);
            (signature_of(text), text, symbol_kind_label(base_syms[i].kind))
        },
        None => (Seq::empty(), Seq::empty(), "unknown"@),
    };
    let base_version: VersionV = (
        if base_body.len() == 0 { "Symbol does not exist in base"@ } else { "Base version"@ },
        base_sig, base_body, "base"@,
    );
    (
        proto_safe(path), proto_safe(name), proto_safe(kind), proto_safe(agent),
        version_spec(theirs, their_syms, name, base_sig, base_body, "their"@),
        version_spec(yours, your_syms, name, base_sig, base_body, "your"@),
        base_version,
    )
}

/// The detail of one symbol conflict: base version, their version and
/// your version of the symbol, from the three contents of the file and the
/// symbols parsed from each. A file no parser handles is refused.
pub fn build_conflict_detail(
    registry: &ParserRegistry,
    file_path: &str,
    qualified_name: &str,
    conflicting_agent: &str,
    base_content: &str,
    their_content: &str,
    your_content: &str,
    parsed: &(Vec<Symbol>, Vec<Symbol>, Vec<Symbol>),
) -> (r: Result<SymbolConflictDetail, Error>)
    requires
        spans_ordered(parsed.0@),
        spans_ordered(parsed.1@),
        spans_ordered(parsed.2@),
    ensures
        !(path_extension(file_path@) matches Some(e) && registry@.contains(e))
            ==> (r matches Err(Error::UnsupportedLanguage(m)) && m@ == unsupported_message(file_path@)),
        (path_extension(file_path@) matches Some(e) && registry@.contains(e))
            ==> (r matches Ok(d) && d@ == detail_spec(file_path@, qualified_name@, conflicting_agent@,
                base_content.spec_bytes(), their_content.spec_bytes(), your_content.spec_bytes(),
                parsed.0@, parsed.1@, parsed.2@)),
{
    if !registry.supports_file(file_path) {
        let mut m = String::from_str("Unsupported file: ");
        push_text(&mut m, file_path);
        return Err(Error::UnsupportedLanguage(m));
    }
    let (base_sig, base_body, kind) = match find_symbol(base_content, &parsed.0, qualified_name) {
        Some((i, text)) => {
            let sig = extract_signature(text.as_str());
            let kind = String::from_str(parsed.0[i].kind.as_str());
            (sig, text, kind)
        },
        None => (String::new(), String::new(), String::from_str("unknown")),
    };
    let base_version = SymbolVersion {
        description: if base_body.unicode_len() == 0 {
            String::from_str("Symbol does not exist in base")
        } else {
            String::from_str("Base version")
        },
        signature: base_sig.clone(),
        body: base_body.clone(),
        change_type: String::from_str("base"),
    };
    let their_change = build_symbol_version(file_path, their_content, &parsed.1, qualified_name,
        base_sig.as_str(), base_body.as_str(), "their");
    let your_change = build_symbol_version(file_path, your_content, &parsed.2, qualified_name,
        base_sig.as_str(), base_body.as_str(), "your");
    Ok(SymbolConflictDetail {
        file_path: sanitize_for_proto(file_path),
        qualified_name: sanitize_for_proto(qualified_name),
        kind: sanitize_for_proto(kind.as_str()),
        conflicting_agent: sanitize_for_proto(conflicting_agent),
        their_change,
        your_change,
        base_version,
    })
}

/// The message of a conflict block: the one file of a single conflict,
/// or the number of conflicts and of distinct files.
pub open spec fn block_message(paths: Seq<Seq<char>>) -> Seq<char> {
    if paths.len() == 1 {
        "1 symbol conflict detected in "@ + paths[0]
    } else {
        decimal(paths.len()) + " symbol conflicts detected across "@ + decimal(paths.to_set().len())
            + " file(s)"@
    }
}

/// The detail of the `k`-th conflict.
pub open spec fn detail_at(cs: Seq<ConflictInput>, parsed: Seq<(Vec<Symbol>, Vec<Symbol>, Vec<Symbol>)>, k: int) -> DetailV {
    detail_spec(cs[k].0@, cs[k].1@, cs[k].2@, cs[k].3.spec_bytes(), cs[k].4.spec_bytes(), cs[k].5.spec_bytes(),
        parsed[k].0@, parsed[k].1@, parsed[k].2@)
}

pub open spec fn details_view(v: Seq<SymbolConflictDetail>) -> Seq<DetailV> {
    v.map_values(|d: SymbolConflictDetail| d@)
}

/// One conflict to describe: (file, qualified name, agent, base content,
/// their content, your content).
pub type ConflictInput<'a> = (&'a str, &'a str, &'a str, &'a str, &'a str, &'a str);

/// Builds the conflict block of a submit response from the conflicting
/// symbols, each with the symbols parsed from its three contents. The
/// first conflict in a file no parser handles refuses the block.
pub fn build_conflict_block(
    registry: &ParserRegistry,
    conflicts: &[ConflictInput],
    parsed: &Vec<(Vec<Symbol>, Vec<Symbol>, Vec<Symbol>)>,
) -> (r: Result<ConflictBlock, Error>)
    requires
        parsed@.len() == conflicts@.len(),
        forall|i: int| 0 <= i < parsed@.len() ==> spans_ordered((#[trigger] parsed@[i]).0@)
            && spans_ordered(parsed@[i].1@) && spans_ordered(parsed@[i].2@),
    ensures
        (exists|i: int| 0 <= i < conflicts@.len() && !(path_extension((#[trigger] conflicts@[i]).0@) matches Some(e) && registry@.contains(e)))
            ==> r is Err,
        (forall|i: int| 0 <= i < conflicts@.len() ==> (path_extension((#[trigger] conflicts@[i]).0@) matches Some(e) && registry@.contains(e)))
            ==> (r matches Ok(b)
                && b.conflicting_symbols@.len() == conflicts@.len()
                && (forall|k: int| 0 <= k < conflicts@.len() ==> (#[trigger] b.conflicting_symbols@[k])@ == detail_at(conflicts@, parsed@, k))
                && b.message@ == block_message(details_view(b.conflicting_symbols@).map_values(|d: DetailV| d.0))),
{
    let mut details: Vec<SymbolConflictDetail> = Vec::new();
    let mut i: usize = 0;
    while i < conflicts.len()
        invariant
            i <= conflicts@.len(),
            parsed@.len() == conflicts@.len(),
            forall|j: int| 0 <= j < parsed@.len() ==> spans_ordered((#[trigger] parsed@[j]).0@)
                && spans_ordered(parsed@[j].1@) && spans_ordered(parsed@[j].2@),
            forall|j: int| 0 <= j < i ==> (path_extension((#[trigger] conflicts@[j]).0@) matches Some(e) && registry@.contains(e)),
            details@.len() == i,
            forall|k: int| 0 <= k < i ==> (#[trigger] details@[k])@ == detail_at(conflicts@, parsed@, k),
        decreases conflicts@.len() - i,
    {
        let (file_path, qualified_name, agent, base, theirs, yours) = conflicts[i];
        let ghost prior = details_view(details@);
        match build_conflict_detail(registry, file_path, qualified_name, agent, base, theirs, yours, &parsed[i]) {
            Ok(d) => {
                assert(d@ == detail_at(conflicts@, parsed@, i as int));
                details.push(d);
            },
            Err(e) => {
                return Err(e);
            },
        }
        i = i + 1;
    }
    let count = details.len();
    let ghost paths = details_view(details@).map_values(|d: DetailV| d.0);
    let message = if count == 1 {
        let mut m = String::from_str("1 symbol conflict detected in ");
        push_text(&mut m, details[0].file_path.as_str());
        m
    } else {
        let mut files: Vec<String> = Vec::new();
        let mut j: usize = 0;
        while j < count
            invariant
                j <= count,
                count == details@.len(),
                paths == details_view(details@).map_values(|d: DetailV| d.0),
                texts_of(files@).no_duplicates(),
                texts_of(files@).to_set() == paths.take(j as int).to_set(),
            decreases count - j,
        {
            let p = &details[j].file_path;
            assert(paths[j as int] == p@);
            let mut seen = false;
            let mut k: usize = 0;
            while k < files.len()
                invariant
                    k <= files@.len(),
                    !seen ==> forall|x: int| 0 <= x < k ==> texts_of(files@)[x] != p@,
                    seen ==> texts_of(files@).contains(p@),
                decreases files@.len() - k,
            {
                if str_eq(files[k].as_str(), p.as_str()) {
                    assert(texts_of(files@)[k as int] == p@);
                    seen = true;
                }
                k = k + 1;
            }
            let ghost before = texts_of(files@);
            assert(paths.take(j as int + 1) =~= paths.take(j as int).push(p@));
            proof {
                lemma_push_to_set(paths.take(j as int), p@);
            }
            if !seen {
                files.push(p.clone());
                assert(texts_of(files@) =~= before.push(p@));
                proof {
                    lemma_push_to_set(before, p@);
                }
            } else {
                assert(before.to_set().contains(p@));
                assert(before.to_set().insert(p@) =~= before.to_set());
            }
            j = j + 1;
        }
        assert(paths.take(count as int) =~= paths);
        proof {
            texts_of(files@).unique_seq_to_set();
        }
        let mut m = decimal_text(count as u64);
        push_text(&mut m, " symbol conflicts detected across ");
        let n = decimal_text(files.len() as u64);
        push_text(&mut m, n.as_str());
        push_text(&mut m, " file(s)");
        m
    };
    Ok(ConflictBlock { conflicting_symbols: details, message })
}

} // verus!
