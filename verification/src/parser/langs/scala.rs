//! Scala language configuration for the query-driven parser.

use vstd::prelude::*;
use crate::parser::parse::Grammar;
use crate::domain::{Symbol, SymbolKind, SymbolV, Visibility};
use crate::parser::lang_config::{CommentStyle, LanguageConfig, default_kind_mapping, default_kind_of, opt_str,
    strs_of};
use crate::parser::syntax::SyntaxTree;
use crate::text::{contains_str, has_substring, to_chars};

verus! {

/// Scala language configuration.
pub struct ScalaConfig;

/// Child `c` is an access modifier (or modifier list) that says `private`
/// or `protected`.
pub open spec fn restricts(t: &SyntaxTree, c: int) -> bool {
    (t.kind_of(c) == "access_modifier"@ || t.kind_of(c) == "modifiers"@) && (has_substring(
        t.text_of(c),
        "private"@,
    ) || has_substring(t.text_of(c), "protected"@))
}

/// A definition with a restricting modifier child is private.
pub open spec fn scala_adjust(t: &SyntaxTree, sym: SymbolV, node: int) -> SymbolV {
    if exists|k: int| 0 <= k < t.children_of(node).len() && #[trigger] restricts(t, t.children_of(node)[k] as int) {
        SymbolV { visibility: Visibility::Private, ..sym }
    } else {
        sym
    }
}

impl LanguageConfig for ScalaConfig {
    open spec fn grammar_rule(&self) -> Grammar {
        Grammar::Scala
    }

    fn parse_grammar(&self) -> (r: Grammar) {
        Grammar::Scala
    }

    open spec fn extension_list(&self) -> Seq<Seq<char>> {
        seq!["scala"@, "sc"@]
    }

    open spec fn style(&self) -> CommentStyle {
        CommentStyle::SlashSlash
    }

    open spec fn visibility_rule(&self, modifiers: Option<Seq<char>>, name: Seq<char>) -> Visibility {
        Visibility::Public
    }

    open spec fn kind_rule(&self, suffix: Seq<char>) -> Option<SymbolKind> {
        default_kind_of(suffix)
    }

    open spec fn adjust_rule(&self, sym: SymbolV, tree: &SyntaxTree, node: int) -> SymbolV {
        scala_adjust(tree, sym, node)
    }

    open spec fn external_rule(&self, import_path: Seq<char>) -> bool {
        true
    }

    fn extensions(&self) -> (r: Vec<&'static str>) {
        let mut r: Vec<&'static str> = Vec::new();
        r.push("scala");
        r.push("sc");
        assert(strs_of(r@) =~= self.extension_list());
        r
    }

    fn comment_style(&self) -> (r: CommentStyle) {
        CommentStyle::SlashSlash
    }

    fn resolve_visibility(&self, modifiers: Option<&str>, name: &str) -> (r: Visibility) {
        Visibility::Public
    }

    fn map_capture_to_kind(&self, capture_suffix: &str) -> (r: Option<SymbolKind>) {
        default_kind_mapping(capture_suffix)
    }

    fn adjust_symbol(&self, sym: &mut Symbol, tree: &SyntaxTree, node: usize) {
        assert(tree.node_wf(node as int));
        let cs = &tree.nodes[node].children;
        let private_word = to_chars("private");
        let protected_word = to_chars("protected");
        let mut k: usize = 0;
        while k < cs.len()
            invariant
                tree.wf(),
                node < tree.nodes@.len(),
                cs@ == tree.children_of(node as int),
                k <= cs@.len(),
                private_word@ == "private"@,
                protected_word@ == "protected"@,
                sym@ == old(sym)@,
                forall|i: int| 0 <= i < k ==> !restricts(tree, cs@[i] as int),
            decreases cs@.len() - k,
        {
            assert(tree.node_wf(node as int));
            let c = cs[k];
            if tree.kind_is(c, "access_modifier") || tree.kind_is(c, "modifiers") {
                let text = to_chars(tree.node_text(c).as_str());
                if contains_str(&text, &private_word) || contains_str(&text, &protected_word) {
                    sym.visibility = Visibility::Private;
                    assert(restricts(tree, cs@[k as int] as int));
                    return;
                }
            }
            k = k + 1;
        }
    }

    fn is_external_import(&self, import_path: &str) -> (r: bool) {
        true
    }
}

} // verus!
