//! Julia language configuration for the query-driven parser.

use vstd::prelude::*;
use crate::parser::parse::Grammar;
use crate::domain::{Symbol, SymbolKind, SymbolV, Visibility};
use crate::parser::lang_config::{CommentStyle, LanguageConfig, default_kind_mapping, default_kind_of, opt_str,
    strs_of};
use crate::parser::syntax::SyntaxTree;
use crate::text::{has_prefix, starts_with};

verus! {

/// Julia language configuration.
pub struct JuliaConfig;

impl LanguageConfig for JuliaConfig {
    open spec fn grammar_rule(&self) -> Grammar {
        Grammar::Julia
    }

    fn parse_grammar(&self) -> (r: Grammar) {
        Grammar::Julia
    }

    open spec fn extension_list(&self) -> Seq<Seq<char>> {
        seq!["jl"@]
    }

    open spec fn style(&self) -> CommentStyle {
        CommentStyle::Hash
    }

    open spec fn visibility_rule(&self, modifiers: Option<Seq<char>>, name: Seq<char>) -> Visibility {
        if has_prefix(name, "_"@) { Visibility::Private } else { Visibility::Public }
    }

    open spec fn kind_rule(&self, suffix: Seq<char>) -> Option<SymbolKind> {
        default_kind_of(suffix)
    }

    open spec fn adjust_rule(&self, sym: SymbolV, tree: &SyntaxTree, node: int) -> SymbolV {
        sym
    }

    open spec fn external_rule(&self, import_path: Seq<char>) -> bool {
        true
    }

    fn extensions(&self) -> (r: Vec<&'static str>) {
        let mut r: Vec<&'static str> = Vec::new();
        r.push("jl");
        assert(strs_of(r@) =~= self.extension_list());
        r
    }

    fn comment_style(&self) -> (r: CommentStyle) {
        CommentStyle::Hash
    }

    fn resolve_visibility(&self, modifiers: Option<&str>, name: &str) -> (r: Visibility) {
        if starts_with(name, "_") { Visibility::Private } else { Visibility::Public }
    }

    fn map_capture_to_kind(&self, capture_suffix: &str) -> (r: Option<SymbolKind>) {
        default_kind_mapping(capture_suffix)
    }

    fn adjust_symbol(&self, sym: &mut Symbol, tree: &SyntaxTree, node: usize) {
        
    }

    fn is_external_import(&self, import_path: &str) -> (r: bool) {
        true
    }
}

} // verus!
