//! Haskell language configuration for the query-driven parser.

use vstd::prelude::*;
use crate::parser::parse::Grammar;
use crate::domain::{Symbol, SymbolKind, SymbolV, Visibility};
use crate::parser::lang_config::{CommentStyle, LanguageConfig, default_kind_mapping, default_kind_of, opt_str,
    strs_of};
use crate::parser::syntax::SyntaxTree;

verus! {

/// Haskell language configuration.
pub struct HaskellConfig;

impl LanguageConfig for HaskellConfig {
    open spec fn grammar_rule(&self) -> Grammar {
        Grammar::Haskell
    }

    fn parse_grammar(&self) -> (r: Grammar) {
        Grammar::Haskell
    }

    open spec fn extension_list(&self) -> Seq<Seq<char>> {
        seq!["hs"@]
    }

    open spec fn style(&self) -> CommentStyle {
        CommentStyle::DashDash
    }

    open spec fn visibility_rule(&self, modifiers: Option<Seq<char>>, name: Seq<char>) -> Visibility {
        Visibility::Public
    }

    open spec fn kind_rule(&self, suffix: Seq<char>) -> Option<SymbolKind> {
        default_kind_of(suffix)
    }

    open spec fn adjust_rule(&self, sym: SymbolV, tree: &SyntaxTree, node: int) -> SymbolV {
        sym
    }

    open spec fn external_rule(&self, import_path: Seq<char>) -> bool {
        true
    }

    fn extensions(&self) -> (r: Vec<&'static str>) {
        let mut r: Vec<&'static str> = Vec::new();
        r.push("hs");
        assert(strs_of(r@) =~= self.extension_list());
        r
    }

    fn comment_style(&self) -> (r: CommentStyle) {
        CommentStyle::DashDash
    }

    fn resolve_visibility(&self, modifiers: Option<&str>, name: &str) -> (r: Visibility) {
        Visibility::Public
    }

    fn map_capture_to_kind(&self, capture_suffix: &str) -> (r: Option<SymbolKind>) {
        default_kind_mapping(capture_suffix)
    }

    fn adjust_symbol(&self, sym: &mut Symbol, tree: &SyntaxTree, node: usize) {
        
    }

    fn is_external_import(&self, import_path: &str) -> (r: bool) {
        true
    }
}

} // verus!
