//! Per-language configuration for the query-driven parser engine.
//!
//! Each supported language implements [`LanguageConfig`] to give its file
//! extensions, comment style, visibility rule and any fixups of extracted
//! symbols. Every rule is also stated as a spec function of the trait, so the
//! engine's contracts speak of the rules of whichever language runs it.

use vstd::prelude::*;
use crate::parser::parse::Grammar;
use crate::domain::{Symbol, SymbolKind, SymbolV, Visibility};
use crate::parser::syntax::SyntaxTree;
use crate::text::{contains_str, has_prefix, has_substring, starts_with, str_eq, to_chars};

verus! {

/// How doc-comments are written in a given language.
#[derive(Debug, Clone, Copy, PartialEq, Eq, Structural)]
pub enum CommentStyle {
    /// Rust-style `///` doc comments.
    TripleSlash,
    /// Python / Ruby / shell `#` comments.
    Hash,
    /// Go / Java / TypeScript / C `//` comments.
    SlashSlash,
    /// Haskell `--` comments.
    DashDash,
}

/// The prefix that starts a doc-comment line in each style.
pub open spec fn prefix_of(style: CommentStyle) -> Seq<char> {
    match style {
        CommentStyle::TripleSlash => "///"@,
        CommentStyle::Hash => "#"@,
        CommentStyle::SlashSlash => "//"@,
        CommentStyle::DashDash => "--"@,
    }
}

impl CommentStyle {
    /// The prefix that starts a doc-comment line.
    pub fn prefix(&self) -> (r: &'static str)
        ensures
            r@ == prefix_of(*self),
    {
        match self {
            CommentStyle::TripleSlash => "///",
            CommentStyle::Hash => "#",
            CommentStyle::SlashSlash => "//",
            CommentStyle::DashDash => "--",
        }
    }
}

/// The text an optional string slice holds.
pub open spec fn opt_str(o: Option<&str>) -> Option<Seq<char>> {
    match o {
        Some(s) => Some(s@),
        None => None,
    }
}

/// The texts of a list of string slices.
pub open spec fn strs_of(v: Seq<&'static str>) -> Seq<Seq<char>> {
    v.map_values(|s: &'static str| s@)
}

/// The symbol kind a capture-name suffix names by default.
pub open spec fn default_kind_of(s: Seq<char>) -> Option<SymbolKind> {
    if s == "function"@ || s == "method"@ {
        Some(SymbolKind::Function)
    } else if s == "class"@ {
        Some(SymbolKind::Class)
    } else if s == "struct"@ {
        Some(SymbolKind::Struct)
    } else if s == "enum"@ {
        Some(SymbolKind::Enum)
    } else if s == "trait"@ {
        Some(SymbolKind::Trait)
    } else if s == "impl"@ {
        Some(SymbolKind::Impl)
    } else if s == "interface"@ {
        Some(SymbolKind::Interface)
    } else if s == "type_alias"@ || s == "type"@ {
        Some(SymbolKind::TypeAlias)
    } else if s == "const"@ || s == "expression"@ {
        Some(SymbolKind::Const)
    } else if s == "static"@ {
        Some(SymbolKind::Static)
    } else if s == "module"@ {
        Some(SymbolKind::Module)
    } else if s == "variable"@ {
        Some(SymbolKind::Variable)
    } else {
        None
    }
}

/// Map a capture-name suffix (such as `function`) to a symbol kind.
pub fn default_kind_mapping(capture_suffix: &str) -> (r: Option<SymbolKind>)
    ensures
        r == default_kind_of(capture_suffix@),
{
    let s = capture_suffix;
    if str_eq(s, "function") || str_eq(s, "method") {
        Some(SymbolKind::Function)
    } else if str_eq(s, "class") {
        Some(SymbolKind::Class)
    } else if str_eq(s, "struct") {
        Some(SymbolKind::Struct)
    } else if str_eq(s, "enum") {
        Some(SymbolKind::Enum)
    } else if str_eq(s, "trait") {
        Some(SymbolKind::Trait)
    } else if str_eq(s, "impl") {
        Some(SymbolKind::Impl)
    } else if str_eq(s, "interface") {
        Some(SymbolKind::Interface)
    } else if str_eq(s, "type_alias") || str_eq(s, "type") {
        Some(SymbolKind::TypeAlias)
    } else if str_eq(s, "const") || str_eq(s, "expression") {
        Some(SymbolKind::Const)
    } else if str_eq(s, "static") {
        Some(SymbolKind::Static)
    } else if str_eq(s, "module") {
        Some(SymbolKind::Module)
    } else if str_eq(s, "variable") {
        Some(SymbolKind::Variable)
    } else {
        None
    }
}

/// By default a module path is internal when it starts with `.`, `crate`,
/// `self` or `super`.
pub open spec fn default_external(p: Seq<char>) -> bool {
    !has_prefix(p, "."@) && !has_prefix(p, "crate"@) && !has_prefix(p, "self"@) && !has_prefix(p, "super"@)
}

/// What a language supplies to the query-driven parser, besides its grammar
/// and queries.
pub trait LanguageConfig {
    /// The grammar the language parses with.
    spec fn grammar_rule(&self) -> Grammar;

    /// The grammar the language parses with.
    fn parse_grammar(&self) -> (r: Grammar)
        ensures
            r == self.grammar_rule(),
    ;

    /// The file extensions the language handles (without leading dot).
    spec fn extension_list(&self) -> Seq<Seq<char>>;

    /// The comment style of doc-comments.
    spec fn style(&self) -> CommentStyle;

    /// The visibility of a symbol given its modifier text and name.
    spec fn visibility_rule(&self, modifiers: Option<Seq<char>>, name: Seq<char>) -> Visibility;

    /// The symbol kind of a capture-name suffix.
    spec fn kind_rule(&self, suffix: Seq<char>) -> Option<SymbolKind>;

    /// The symbol after the language's fixups, given its definition node.
    spec fn adjust_rule(&self, sym: SymbolV, tree: &SyntaxTree, node: int) -> SymbolV;

    /// Whether a module path names an outside dependency.
    spec fn external_rule(&self, import_path: Seq<char>) -> bool;

    /// File extensions this language handles (without leading dot).
    fn extensions(&self) -> (r: Vec<&'static str>)
        ensures
            strs_of(r@) == self.extension_list(),
    ;

    /// The comment style used for doc-comments.
    fn comment_style(&self) -> (r: CommentStyle)
        ensures
            r == self.style(),
    ;

    /// Resolve the visibility of a symbol from its modifier keywords and name.
    fn resolve_visibility(&self, modifiers: Option<&str>, name: &str) -> (r: Visibility)
        ensures
            r == self.visibility_rule(opt_str(modifiers), name@),
    ;

    /// Map a capture suffix (such as `function`) to a symbol kind.
    fn map_capture_to_kind(&self, capture_suffix: &str) -> (r: Option<SymbolKind>)
        ensures
            r == self.kind_rule(capture_suffix@),
    ;

    /// Fix up a symbol after extraction, given its definition node.
    fn adjust_symbol(&self, sym: &mut Symbol, tree: &SyntaxTree, node: usize)
        requires
            tree.wf(),
            node < tree.nodes@.len(),
        ensures
            final(sym)@ == self.adjust_rule(old(sym)@, tree, node as int),
    ;

    /// Whether `import_path` refers to an external dependency.
    fn is_external_import(&self, import_path: &str) -> (r: bool)
        ensures
            r == self.external_rule(import_path@),
    ;
}

/// The default test for an outside dependency.
pub fn default_is_external_import(import_path: &str) -> (r: bool)
    ensures
        r == default_external(import_path@),
{
    !starts_with(import_path, ".") && !starts_with(import_path, "crate")
        && !starts_with(import_path, "self") && !starts_with(import_path, "super")
}

/// Whether the modifiers text holds `word`.
pub open spec fn mods_have(modifiers: Option<Seq<char>>, word: Seq<char>) -> bool {
    modifiers matches Some(t) && has_substring(t, word)
}

/// Whether the modifiers text holds `word`.
pub fn modifiers_have(modifiers: Option<&str>, word: &str) -> (r: bool)
    ensures
        r == mods_have(opt_str(modifiers), word@),
{
    match modifiers {
        Some(m) => contains_str(&to_chars(m), &to_chars(word)),
        None => false,
    }
}

} // verus!
