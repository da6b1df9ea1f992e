//! Java language configuration for the query-driven parser.

use vstd::prelude::*;
use crate::parser::parse::Grammar;
use crate::domain::{Symbol, SymbolKind, SymbolV, Visibility};
use crate::parser::lang_config::{CommentStyle, LanguageConfig, default_external, default_is_external_import,
    default_kind_mapping, default_kind_of, modifiers_have, mods_have, opt_str, strs_of};
use crate::parser::syntax::SyntaxTree;

verus! {

/// Java language configuration.
pub struct JavaConfig;

/// `public` is public, `private` private, and anything else (package or
/// `protected` access) visible within the package.
pub open spec fn java_visibility(modifiers: Option<Seq<char>>) -> Visibility {
    if mods_have(modifiers, "public"@) {
        Visibility::Public
    } else if mods_have(modifiers, "private"@) {
        Visibility::Private
    } else {
        Visibility::Crate
    }
}

impl LanguageConfig for JavaConfig {
    open spec fn grammar_rule(&self) -> Grammar {
        Grammar::Java
    }

    fn parse_grammar(&self) -> (r: Grammar) {
        Grammar::Java
    }

    open spec fn extension_list(&self) -> Seq<Seq<char>> {
        seq!["java"@]
    }

    open spec fn style(&self) -> CommentStyle {
        CommentStyle::SlashSlash
    }

    open spec fn visibility_rule(&self, modifiers: Option<Seq<char>>, name: Seq<char>) -> Visibility {
        java_visibility(modifiers)
    }

    open spec fn kind_rule(&self, suffix: Seq<char>) -> Option<SymbolKind> {
        default_kind_of(suffix)
    }

    open spec fn adjust_rule(&self, sym: SymbolV, tree: &SyntaxTree, node: int) -> SymbolV {
        sym
    }

    open spec fn external_rule(&self, import_path: Seq<char>) -> bool {
        default_external(import_path)
    }

    fn extensions(&self) -> (r: Vec<&'static str>) {
        let mut r: Vec<&'static str> = Vec::new();
        r.push("java");
        assert(strs_of(r@) =~= self.extension_list());
        r
    }

    fn comment_style(&self) -> (r: CommentStyle) {
        CommentStyle::SlashSlash
    }

    fn resolve_visibility(&self, modifiers: Option<&str>, name: &str) -> (r: Visibility) {
        if modifiers_have(modifiers, "public") {
            Visibility::Public
        } else if modifiers_have(modifiers, "private") {
            Visibility::Private
        } else {
            Visibility::Crate
        }
    }

    fn map_capture_to_kind(&self, capture_suffix: &str) -> (r: Option<SymbolKind>) {
        default_kind_mapping(capture_suffix)
    }

    fn adjust_symbol(&self, sym: &mut Symbol, tree: &SyntaxTree, node: usize) {
    }

    fn is_external_import(&self, import_path: &str) -> (r: bool) {
        default_is_external_import(import_path)
    }
}

} // verus!
