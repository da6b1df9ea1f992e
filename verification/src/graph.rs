//! The semantic graph's stored forms: the labels symbols, visibilities
//! and call edges are stored under, and how stored rows become values.

use vstd::prelude::*;
use crate::domain::{CallEdge, CallKind, Span, Symbol, SymbolKind, Visibility, symbol_kind_label};
use crate::text::str_eq;

verus! {

/// The stored label of each call kind.
pub open spec fn call_kind_label(k: CallKind) -> Seq<char> {
    match k {
        CallKind::DirectCall => "direct_call"@,
        CallKind::MethodCall => "method_call"@,
        CallKind::Import => "import"@,
        CallKind::Implements => "implements"@,
        CallKind::Inherits => "inherits"@,
        CallKind::MacroInvocation => "macro_invocation"@,
    }
}

/// The call kind a stored label names; an unknown label is a direct call.
pub open spec fn call_kind_of(s: Seq<char>) -> CallKind {
    if s == "direct_call"@ {
        CallKind::DirectCall
    } else if s == "method_call"@ {
        CallKind::MethodCall
    } else if s == "import"@ {
        CallKind::Import
    } else if s == "implements"@ {
        CallKind::Implements
    } else if s == "inherits"@ {
        CallKind::Inherits
    } else if s == "macro_invocation"@ {
        CallKind::MacroInvocation
    } else {
        CallKind::DirectCall
    }
}

/// The stored label of a call kind.
pub fn call_kind_str(k: CallKind) -> (r: &'static str)
    ensures
        r@ == call_kind_label(k),
{
    match k {
        CallKind::DirectCall => "direct_call",
        CallKind::MethodCall => "method_call",
        CallKind::Import => "import",
        CallKind::Implements => "implements",
        CallKind::Inherits => "inherits",
        CallKind::MacroInvocation => "macro_invocation",
    }
}

/// Reads a stored call kind; an unknown label is taken for a direct call.
pub fn parse_call_kind(s: &str) -> (r: CallKind)
    ensures
        r == call_kind_of(s@),
{
    if str_eq(s, "direct_call") {
        CallKind::DirectCall
    } else if str_eq(s, "method_call") {
        CallKind::MethodCall
    } else if str_eq(s, "import") {
        CallKind::Import
    } else if str_eq(s, "implements") {
        CallKind::Implements
    } else if str_eq(s, "inherits") {
        CallKind::Inherits
    } else if str_eq(s, "macro_invocation") {
        CallKind::MacroInvocation
    } else {
        CallKind::DirectCall
    }
}

/// Every call kind reads back from its stored label.
pub proof fn lemma_call_kind_roundtrip(k: CallKind)
    ensures
        call_kind_of(call_kind_label(k)) == k,
{
    reveal_strlit("direct_call");
    reveal_strlit("method_call");
    reveal_strlit("import");
    reveal_strlit("implements");
    reveal_strlit("inherits");
    reveal_strlit("macro_invocation");
    let ls = seq!["direct_call"@, "method_call"@, "import"@, "implements"@, "inherits"@, "macro_invocation"@];
    assert(ls[0].len() == 11 && ls[1].len() == 11 && ls[2].len() == 6 && ls[3].len() == 10 && ls[4].len() == 8
        && ls[5].len() == 16);
    assert(ls[0][0] == 'd' && ls[1][0] == 'm');
    assert(ls[2][1] == 'm' && ls[3][1] == 'm');
}

/// The symbol kind a stored label names, if any.
pub open spec fn symbol_kind_of(s: Seq<char>) -> Option<SymbolKind> {
    if s == "function"@ { Some(SymbolKind::Function) }
    else if s == "class"@ { Some(SymbolKind::Class) }
    else if s == "struct"@ { Some(SymbolKind::Struct) }
    else if s == "enum"@ { Some(SymbolKind::Enum) }
    else if s == "trait"@ { Some(SymbolKind::Trait) }
    else if s == "impl"@ { Some(SymbolKind::Impl) }
    else if s == "interface"@ { Some(SymbolKind::Interface) }
    else if s == "type_alias"@ { Some(SymbolKind::TypeAlias) }
    else if s == "const"@ { Some(SymbolKind::Const) }
    else if s == "static"@ { Some(SymbolKind::Static) }
    else if s == "module"@ { Some(SymbolKind::Module) }
    else if s == "variable"@ { Some(SymbolKind::Variable) }
    else { None }
}

/// Reads a stored symbol kind.
pub fn parse_symbol_kind(s: &str) -> (r: Option<SymbolKind>)
    ensures
        r == symbol_kind_of(s@),
{
    if str_eq(s, "function") { Some(SymbolKind::Function) }
    else if str_eq(s, "class") { Some(SymbolKind::Class) }
    else if str_eq(s, "struct") { Some(SymbolKind::Struct) }
    else if str_eq(s, "enum") { Some(SymbolKind::Enum) }
    else if str_eq(s, "trait") { Some(SymbolKind::Trait) }
    else if str_eq(s, "impl") { Some(SymbolKind::Impl) }
    else if str_eq(s, "interface") { Some(SymbolKind::Interface) }
    else if str_eq(s, "type_alias") { Some(SymbolKind::TypeAlias) }
    else if str_eq(s, "const") { Some(SymbolKind::Const) }
    else if str_eq(s, "static") { Some(SymbolKind::Static) }
    else if str_eq(s, "module") { Some(SymbolKind::Module) }
    else if str_eq(s, "variable") { Some(SymbolKind::Variable) }
    else { None }
}

/// The stored label of each visibility.
pub open spec fn visibility_label(v: Visibility) -> Seq<char> {
    match v {
        Visibility::Public => "public"@,
        Visibility::Crate => "crate"@,
        Visibility::Private => "private"@,
    }
}

/// The visibility a stored label names, if any.
pub open spec fn visibility_of(s: Seq<char>) -> Option<Visibility> {
    if s == "public"@ {
        Some(Visibility::Public)
    } else if s == "crate"@ {
        Some(Visibility::Crate)
    } else if s == "private"@ {
        Some(Visibility::Private)
    } else {
        None
    }
}

/// The stored label of a visibility.
pub fn visibility_str(v: Visibility) -> (r: &'static str)
    ensures
        r@ == visibility_label(v),
{
    match v {
        Visibility::Public => "public",
        Visibility::Crate => "crate",
        Visibility::Private => "private",
    }
}

/// Reads a stored visibility.
pub fn parse_visibility(s: &str) -> (r: Option<Visibility>)
    ensures
        r == visibility_of(s@),
{
    if str_eq(s, "public") {
        Some(Visibility::Public)
    } else if str_eq(s, "crate") {
        Some(Visibility::Crate)
    } else if str_eq(s, "private") {
        Some(Visibility::Private)
    } else {
        None
    }
}

/// A stored symbol row.
#[derive(Debug, Clone)]
pub struct SymbolRow {
    pub id: u128,
    pub repo_id: u128,
    pub name: String,
    pub qualified_name: String,
    pub kind: String,
    pub visibility: String,
    pub file_path: String,
    pub start_byte: i32,
    pub end_byte: i32,
    pub signature: Option<String>,
    pub doc_comment: Option<String>,
    pub parent_id: Option<u128>,
    pub last_modified_by: Option<String>,
    pub last_modified_intent: Option<String>,
}

/// A stored byte offset as an unsigned offset (two's-complement
/// reinterpretation of a negative value).
pub open spec fn offset_of(v: i32) -> u32 {
    if v >= 0 { v as u32 } else { (v + 0x1_0000_0000) as u32 }
}

fn offset_from(v: i32) -> (r: u32)
    ensures
        r == offset_of(v),
{
    if v >= 0 {
        v as u32
    } else {
        let w: i64 = v as i64 + 0x1_0000_0000;
        w as u32
    }
}

impl SymbolRow {
    /// The symbol a row stores; an unknown kind reads as a variable and an
    /// unknown visibility as private.
    pub fn into_symbol(self) -> (s: Symbol)
        ensures
            s.id == self.id,
            s.name == self.name,
            s.qualified_name == self.qualified_name,
            s.kind == (match symbol_kind_of(self.kind@) { Some(k) => k, None => SymbolKind::Variable }),
            s.visibility == (match visibility_of(self.visibility@) { Some(v) => v, None => Visibility::Private }),
            s.file_path == self.file_path,
            s.span == (Span { start_byte: offset_of(self.start_byte), end_byte: offset_of(self.end_byte) }),
            s.signature == self.signature,
            s.doc_comment == self.doc_comment,
            s.parent == self.parent_id,
            s.last_modified_by == self.last_modified_by,
            s.last_modified_intent == self.last_modified_intent,
    {
        let kind = match parse_symbol_kind(self.kind.as_str()) {
            Some(k) => k,
            None => SymbolKind::Variable,
        };
        let visibility = match parse_visibility(self.visibility.as_str()) {
            Some(v) => v,
            None => Visibility::Private,
        };
        Symbol {
            id: self.id,
            name: self.name,
            qualified_name: self.qualified_name,
            kind,
            visibility,
            file_path: self.file_path,
            span: Span { start_byte: offset_from(self.start_byte), end_byte: offset_from(self.end_byte) },
            signature: self.signature,
            doc_comment: self.doc_comment,
            parent: self.parent_id,
            last_modified_by: self.last_modified_by,
            last_modified_intent: self.last_modified_intent,
        }
    }
}

/// A stored call edge row.
#[derive(Debug, Clone)]
pub struct CallEdgeRow {
    pub id: u128,
    pub repo_id: u128,
    pub caller_id: u128,
    pub callee_id: u128,
    pub kind: String,
}

impl CallEdgeRow {
    /// The call edge a row stores.
    pub fn into_call_edge(self) -> (e: CallEdge)
        ensures
            e == (CallEdge { id: self.id, repo_id: self.repo_id, caller: self.caller_id, callee: self.callee_id,
                kind: call_kind_of(self.kind@) }),
    {
        CallEdge {
            id: self.id,
            repo_id: self.repo_id,
            caller: self.caller_id,
            callee: self.callee_id,
            kind: parse_call_kind(self.kind.as_str()),
        }
    }
}

/// Every symbol kind reads back from its stored label.
pub proof fn lemma_symbol_kind_roundtrip(k: SymbolKind)
    ensures
        symbol_kind_of(symbol_kind_label(k)) == Some(k),
{
    reveal_strlit("function");
    reveal_strlit("class");
    reveal_strlit("struct");
    reveal_strlit("enum");
    reveal_strlit("trait");
    reveal_strlit("impl");
    reveal_strlit("interface");
    reveal_strlit("type_alias");
    reveal_strlit("const");
    reveal_strlit("static");
    reveal_strlit("module");
    reveal_strlit("variable");
    let ls = seq!["function"@, "class"@, "struct"@, "enum"@, "trait"@, "impl"@, "interface"@, "type_alias"@,
        "const"@, "static"@, "module"@, "variable"@];
    assert(ls[0].len() == 8 && ls[1].len() == 5 && ls[2].len() == 6 && ls[3].len() == 4 && ls[4].len() == 5
        && ls[5].len() == 4 && ls[6].len() == 9 && ls[7].len() == 10 && ls[8].len() == 5 && ls[9].len() == 6
        && ls[10].len() == 6 && ls[11].len() == 8);
    assert(ls[0][0] == 'f' && ls[11][0] == 'v');
    assert(ls[1][0] == 'c' && ls[4][0] == 't' && ls[8][1] == 'o');
    assert(ls[3][0] == 'e' && ls[5][0] == 'i');
    assert(ls[2][2] == 'r' && ls[9][2] == 'a' && ls[10][0] == 'm' && ls[2][0] == 's');
}

/// Every visibility reads back from its stored label.
pub proof fn lemma_visibility_roundtrip(v: Visibility)
    ensures
        visibility_of(visibility_label(v)) == Some(v),
{
    reveal_strlit("public");
    reveal_strlit("crate");
    reveal_strlit("private");
    assert("public"@.len() == 6 && "crate"@.len() == 5 && "private"@.len() == 7);
}

} // verus!
