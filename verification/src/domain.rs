//! Core value types shared by every part of the engine: symbols, spans,
//! call edges, parse results and the engine's error type.

use vstd::prelude::*;

verus! {

/// Identifier of a repository (a UUID held as its 128-bit value).
pub type RepoId = u128;

/// Identifier of a symbol (a UUID held as its 128-bit value).
pub type SymbolId = u128;

/// Identifier of an agent.
pub type AgentId = String;

/// Byte range of a symbol inside its source file.
#[derive(Debug, Clone, Copy, PartialEq, Eq, Structural)]
pub struct Span {
    pub start_byte: u32,
    pub end_byte: u32,
}

/// Kind of a code symbol.
#[derive(Debug, Clone, Copy, PartialEq, Eq, Structural)]
pub enum SymbolKind {
    Function,
    Class,
    Struct,
    Enum,
    Trait,
    Impl,
    Interface,
    TypeAlias,
    Const,
    Static,
    Module,
    Variable,
}

/// Visibility of a code symbol.
#[derive(Debug, Clone, Copy, PartialEq, Eq, Structural)]
pub enum Visibility {
    Public,
    Crate,
    Private,
}

/// Kind of a call edge.
#[derive(Debug, Clone, Copy, PartialEq, Eq, Structural)]
pub enum CallKind {
    DirectCall,
    MethodCall,
    Import,
    Implements,
    Inherits,
    MacroInvocation,
}

/// Text label of each symbol kind.
pub open spec fn symbol_kind_label(k: SymbolKind) -> Seq<char> {
    match k {
        SymbolKind::Function => "function"@,
        SymbolKind::Class => "class"@,
        SymbolKind::Struct => "struct"@,
        SymbolKind::Enum => "enum"@,
        SymbolKind::Trait => "trait"@,
        SymbolKind::Impl => "impl"@,
        SymbolKind::Interface => "interface"@,
        SymbolKind::TypeAlias => "type_alias"@,
        SymbolKind::Const => "const"@,
        SymbolKind::Static => "static"@,
        SymbolKind::Module => "module"@,
        SymbolKind::Variable => "variable"@,
    }
}

impl SymbolKind {
    /// The text label of this kind, as stored and displayed.
    pub fn as_str(&self) -> (s: &'static str)
        ensures
            s@ == symbol_kind_label(*self),
    {
        match self {
            SymbolKind::Function => "function",
            SymbolKind::Class => "class",
            SymbolKind::Struct => "struct",
            SymbolKind::Enum => "enum",
            SymbolKind::Trait => "trait",
            SymbolKind::Impl => "impl",
            SymbolKind::Interface => "interface",
            SymbolKind::TypeAlias => "type_alias",
            SymbolKind::Const => "const",
            SymbolKind::Static => "static",
            SymbolKind::Module => "module",
            SymbolKind::Variable => "variable",
        }
    }
}

/// A named code symbol extracted from a source file.
#[derive(Debug, Clone)]
pub struct Symbol {
    pub id: SymbolId,
    pub name: String,
    pub qualified_name: String,
    pub kind: SymbolKind,
    pub visibility: Visibility,
    pub file_path: String,
    pub span: Span,
    pub signature: Option<String>,
    pub doc_comment: Option<String>,
    pub parent: Option<SymbolId>,
    pub last_modified_by: Option<String>,
    pub last_modified_intent: Option<String>,
}

/// Abstract symbol: the symbol's fields, text as character sequences.
pub struct SymbolV {
    pub id: SymbolId,
    pub name: Seq<char>,
    pub qualified_name: Seq<char>,
    pub kind: SymbolKind,
    pub visibility: Visibility,
    pub file_path: Seq<char>,
    pub span: Span,
    pub signature: Option<Seq<char>>,
    pub doc_comment: Option<Seq<char>>,
    pub parent: Option<SymbolId>,
    pub last_modified_by: Option<Seq<char>>,
    pub last_modified_intent: Option<Seq<char>>,
}

pub open spec fn opt_text(o: Option<String>) -> Option<Seq<char>> {
    match o {
        Some(s) => Some(s@),
        None => None,
    }
}

impl View for Symbol {
    type V = SymbolV;

    open spec fn view(&self) -> SymbolV {
        SymbolV {
            id: self.id,
            name: self.name@,
            qualified_name: self.qualified_name@,
            kind: self.kind,
            visibility: self.visibility,
            file_path: self.file_path@,
            span: self.span,
            signature: opt_text(self.signature),
            doc_comment: opt_text(self.doc_comment),
            parent: self.parent,
            last_modified_by: opt_text(self.last_modified_by),
            last_modified_intent: opt_text(self.last_modified_intent),
        }
    }
}

/// A copy of an optional text.
pub fn copy_opt_text(o: &Option<String>) -> (r: Option<String>)
    ensures
        opt_text(r) == opt_text(*o),
{
    match o {
        Some(s) => Some(s.clone()),
        None => None,
    }
}

impl Symbol {
    /// A field-by-field copy of this symbol.
    pub fn copied(&self) -> (r: Symbol)
        ensures
            r@ == self@,
    {
        Symbol {
            id: self.id,
            name: self.name.clone(),
            qualified_name: self.qualified_name.clone(),
            kind: self.kind,
            visibility: self.visibility,
            file_path: self.file_path.clone(),
            span: self.span,
            signature: copy_opt_text(&self.signature),
            doc_comment: copy_opt_text(&self.doc_comment),
            parent: self.parent,
            last_modified_by: copy_opt_text(&self.last_modified_by),
            last_modified_intent: copy_opt_text(&self.last_modified_intent),
        }
    }
}

/// A resolved call edge between two symbols.
#[derive(Debug, Clone, Copy, PartialEq, Eq, Structural)]
pub struct CallEdge {
    pub id: u128,
    pub repo_id: RepoId,
    pub caller: SymbolId,
    pub callee: SymbolId,
    pub kind: CallKind,
}

/// A call edge whose ends are still names, as produced by a parser.
#[derive(Debug, Clone)]
pub struct RawCallEdge {
    pub caller_name: String,
    pub callee_name: String,
    pub call_site: Span,
    pub kind: CallKind,
}

/// An import statement extracted from a source file.
#[derive(Debug, Clone)]
pub struct Import {
    pub module_name: String,
    pub imported_name: String,
    pub alias: Option<String>,
    pub is_external: bool,
}

/// Type information attached to a symbol.
#[derive(Debug, Clone)]
pub struct TypeInfo {
    pub symbol_id: SymbolId,
    pub params: Vec<(String, String)>,
    pub return_type: Option<String>,
    pub fields: Vec<(String, String)>,
    pub implements: Vec<String>,
}

/// Everything a parser extracts from one source file.
#[derive(Debug, Clone)]
pub struct FileAnalysis {
    pub symbols: Vec<Symbol>,
    pub calls: Vec<RawCallEdge>,
    pub types: Vec<TypeInfo>,
    pub imports: Vec<Import>,
}

/// Errors reported by the engine.
#[derive(Debug, Clone)]
pub enum Error {
    Internal(String),
    InvalidInput(String),
    Git(String),
    UnsupportedLanguage(String),
    ParseError(String),
    SessionNotFound(String),
    RepoNotFound(String),
    AmbiguousRepoName(String),
    Io(String),
}

} // verus!
