//! Kotlin language configuration for the query-driven parser.

use vstd::prelude::*;
use crate::parser::parse::Grammar;
use crate::domain::{Symbol, SymbolKind, SymbolV, Visibility};
use crate::parser::lang_config::{CommentStyle, LanguageConfig, default_kind_mapping, default_kind_of, opt_str,
    strs_of};
use crate::parser::syntax::SyntaxTree;
use crate::text::{str_eq, trim_text, trimmed};

verus! {

/// Kotlin language configuration.
pub struct KotlinConfig;

/// The visibility a Kotlin visibility modifier gives, if it names one.
pub open spec fn kotlin_visibility(text: Seq<char>) -> Option<Visibility> {
    if text == "private"@ || text == "internal"@ || text == "protected"@ {
        Some(Visibility::Private)
    } else if text == "public"@ {
        Some(Visibility::Public)
    } else {
        None
    }
}

/// The symbol after the modifiers `ms` of one `modifiers` node, in order: a
/// visibility modifier sets the visibility, an `enum` class modifier the kind.
pub open spec fn kotlin_modifiers(t: &SyntaxTree, sym: SymbolV, ms: Seq<usize>) -> SymbolV
    decreases ms.len(),
{
    if ms.len() == 0 {
        sym
    } else {
        let s = kotlin_modifiers(t, sym, ms.drop_last());
        let m = ms.last() as int;
        let text = trimmed(t.text_of(m));
        let s2 = if t.kind_of(m) == "visibility_modifier"@ && kotlin_visibility(text) is Some {
            SymbolV { visibility: kotlin_visibility(text)->0, ..s }
        } else {
            s
        };
        if t.kind_of(m) == "class_modifier"@ && text == "enum"@ {
            SymbolV { kind: SymbolKind::Enum, ..s2 }
        } else {
            s2
        }
    }
}

/// The symbol after the `modifiers` children among `cs`, in order.
pub open spec fn kotlin_children(t: &SyntaxTree, sym: SymbolV, cs: Seq<usize>) -> SymbolV
    decreases cs.len(),
{
    if cs.len() == 0 {
        sym
    } else {
        let s = kotlin_children(t, sym, cs.drop_last());
        let c = cs.last() as int;
        if t.kind_of(c) == "modifiers"@ {
            kotlin_modifiers(t, s, t.children_of(c))
        } else {
            s
        }
    }
}

/// Some child among `cs` has the text `interface`.
pub open spec fn has_interface_keyword(t: &SyntaxTree, cs: Seq<usize>) -> bool {
    exists|k: int| 0 <= k < cs.len() && #[trigger] t.text_of(cs[k] as int) == "interface"@
}

pub open spec fn kotlin_adjust(t: &SyntaxTree, sym: SymbolV, node: int) -> SymbolV {
    let s = kotlin_children(t, sym, t.children_of(node));
    if t.kind_of(node) == "class_declaration"@ && s.kind == SymbolKind::Class && has_interface_keyword(
        t,
        t.children_of(node),
    ) {
        SymbolV { kind: SymbolKind::Interface, ..s }
    } else {
        s
    }
}

/// Applies the modifiers of one `modifiers` node.
fn apply_modifiers(sym: &mut Symbol, tree: &SyntaxTree, node: usize)
    requires
        tree.wf(),
        node < tree.nodes@.len(),
    ensures
        final(sym)@ == kotlin_modifiers(tree, old(sym)@, tree.children_of(node as int)),
{
    assert(tree.node_wf(node as int));
    let ms = &tree.nodes[node].children;
    let mut k: usize = 0;
    while k < ms.len()
        invariant
            tree.wf(),
            node < tree.nodes@.len(),
            ms@ == tree.children_of(node as int),
            k <= ms@.len(),
            sym@ == kotlin_modifiers(tree, old(sym)@, ms@.take(k as int)),
        decreases ms@.len() - k,
    {
        assert(ms@.take(k + 1).drop_last() =~= ms@.take(k as int));
        assert(tree.node_wf(node as int));
        let m = ms[k];
        let text = trim_text(tree.node_text(m).as_str());
        if tree.kind_is(m, "visibility_modifier") {
            let t = text.as_str();
            if str_eq(t, "private") || str_eq(t, "internal") || str_eq(t, "protected") {
                sym.visibility = Visibility::Private;
            } else if str_eq(t, "public") {
                sym.visibility = Visibility::Public;
            }
        }
        if tree.kind_is(m, "class_modifier") && str_eq(text.as_str(), "enum") {
            sym.kind = SymbolKind::Enum;
        }
        k = k + 1;
    }
    assert(ms@.take(ms@.len() as int) =~= ms@);
}

impl LanguageConfig for KotlinConfig {
    open spec fn grammar_rule(&self) -> Grammar {
        Grammar::Kotlin
    }

    fn parse_grammar(&self) -> (r: Grammar) {
        Grammar::Kotlin
    }

    open spec fn extension_list(&self) -> Seq<Seq<char>> {
        seq!["kt"@, "kts"@]
    }

    open spec fn style(&self) -> CommentStyle {
        CommentStyle::SlashSlash
    }

    open spec fn visibility_rule(&self, modifiers: Option<Seq<char>>, name: Seq<char>) -> Visibility {
        Visibility::Public
    }

    open spec fn kind_rule(&self, suffix: Seq<char>) -> Option<SymbolKind> {
        default_kind_of(suffix)
    }

    open spec fn adjust_rule(&self, sym: SymbolV, tree: &SyntaxTree, node: int) -> SymbolV {
        kotlin_adjust(tree, sym, node)
    }

    open spec fn external_rule(&self, import_path: Seq<char>) -> bool {
        true
    }

    fn extensions(&self) -> (r: Vec<&'static str>) {
        let mut r: Vec<&'static str> = Vec::new();
        r.push("kt");
        r.push("kts");
        assert(strs_of(r@) =~= self.extension_list());
        r
    }

    fn comment_style(&self) -> (r: CommentStyle) {
        CommentStyle::SlashSlash
    }

    fn resolve_visibility(&self, modifiers: Option<&str>, name: &str) -> (r: Visibility) {
        Visibility::Public
    }

    fn map_capture_to_kind(&self, capture_suffix: &str) -> (r: Option<SymbolKind>) {
        default_kind_mapping(capture_suffix)
    }

    fn adjust_symbol(&self, sym: &mut Symbol, tree: &SyntaxTree, node: usize) {
        assert(tree.node_wf(node as int));
        let cs = &tree.nodes[node].children;
        let ghost start = sym@;
        let mut k: usize = 0;
        while k < cs.len()
            invariant
                tree.wf(),
                node < tree.nodes@.len(),
                cs@ == tree.children_of(node as int),
                k <= cs@.len(),
                sym@ == kotlin_children(tree, start, cs@.take(k as int)),
            decreases cs@.len() - k,
        {
            assert(cs@.take(k + 1).drop_last() =~= cs@.take(k as int));
            assert(tree.node_wf(node as int));
            let c = cs[k];
            if tree.kind_is(c, "modifiers") {
                apply_modifiers(sym, tree, c);
            }
            k = k + 1;
        }
        assert(cs@.take(cs@.len() as int) =~= cs@);
        let is_class = match sym.kind {
            SymbolKind::Class => true,
            _ => false,
        };
        if tree.kind_is(node, "class_declaration") && is_class {
            let mut j: usize = 0;
            while j < cs.len()
                invariant
                    tree.wf(),
                    node < tree.nodes@.len(),
                    cs@ == tree.children_of(node as int),
                    j <= cs@.len(),
                    sym@ == kotlin_children(tree, start, cs@),
                    start == old(sym)@,
                    sym@.kind == SymbolKind::Class,
                    tree.kind_of(node as int) == "class_declaration"@,
                    forall|i: int| 0 <= i < j ==> tree.text_of(cs@[i] as int) != "interface"@,
                decreases cs@.len() - j,
            {
                assert(tree.node_wf(node as int));
                let c = cs[j];
                if str_eq(tree.node_text(c).as_str(), "interface") {
                    sym.kind = SymbolKind::Interface;
                    assert(tree.text_of(cs@[j as int] as int) == "interface"@);
                    return;
                }
                j = j + 1;
            }
        }
    }

    fn is_external_import(&self, import_path: &str) -> (r: bool) {
        true
    }
}

/// Node `m` is a visibility modifier.
pub open spec fn is_visibility_modifier(t: &SyntaxTree, m: int) -> bool {
    t.kind_of(m) == "visibility_modifier"@
}

/// Every visibility modifier among `ms` reads `private`.
pub open spec fn all_private(t: &SyntaxTree, ms: Seq<usize>) -> bool {
    forall|j: int| 0 <= j < ms.len() && #[trigger] is_visibility_modifier(t, ms[j] as int)
        ==> trimmed(t.text_of(ms[j] as int)) == "private"@
}

/// Some node among `ms` is a visibility modifier.
pub open spec fn has_visibility_modifier(t: &SyntaxTree, ms: Seq<usize>) -> bool {
    exists|j: int| 0 <= j < ms.len() && #[trigger] is_visibility_modifier(t, ms[j] as int)
}

/// Node `c` is a `modifiers` node.
pub open spec fn is_modifiers(t: &SyntaxTree, c: int) -> bool {
    t.kind_of(c) == "modifiers"@
}

proof fn lemma_modifiers_private(t: &SyntaxTree, sym: SymbolV, ms: Seq<usize>)
    requires
        all_private(t, ms),
    ensures
        kotlin_modifiers(t, sym, ms).visibility == (if has_visibility_modifier(t, ms) {
            Visibility::Private
        } else {
            sym.visibility
        }),
    decreases ms.len(),
{
    if ms.len() > 0 {
        let p = ms.drop_last();
        assert(all_private(t, p)) by {
            assert forall|j: int| 0 <= j < p.len() && #[trigger] is_visibility_modifier(t, p[j] as int)
                implies trimmed(t.text_of(p[j] as int)) == "private"@ by {
                assert(p[j] == ms[j]);
            }
        }
        lemma_modifiers_private(t, sym, p);
        let m = ms.last() as int;
        assert(ms[ms.len() - 1] as int == m);
        if is_visibility_modifier(t, m) {
            assert(trimmed(t.text_of(m)) == "private"@);
            assert(has_visibility_modifier(t, ms));
        } else {
            assert(has_visibility_modifier(t, ms) == has_visibility_modifier(t, p)) by {
                if has_visibility_modifier(t, ms) {
                    let j = choose|j: int| 0 <= j < ms.len() && #[trigger] is_visibility_modifier(t, ms[j] as int);
                    assert(j < p.len() && p[j] == ms[j]);
                }
                if has_visibility_modifier(t, p) {
                    let j = choose|j: int| 0 <= j < p.len() && #[trigger] is_visibility_modifier(t, p[j] as int);
                    assert(ms[j] == p[j]);
                }
            }
        }
    }
}

/// Every visibility modifier under the `modifiers` nodes among `cs` reads
/// `private`.
pub open spec fn children_private(t: &SyntaxTree, cs: Seq<usize>) -> bool {
    forall|k: int| 0 <= k < cs.len() && #[trigger] is_modifiers(t, cs[k] as int) ==> all_private(t, t.children_of(cs[k] as int))
}

/// Some `modifiers` node among `cs` holds a visibility modifier.
pub open spec fn children_have_visibility(t: &SyntaxTree, cs: Seq<usize>) -> bool {
    exists|k: int| 0 <= k < cs.len() && #[trigger] is_modifiers(t, cs[k] as int)
        && has_visibility_modifier(t, t.children_of(cs[k] as int))
}

proof fn lemma_children_private(t: &SyntaxTree, sym: SymbolV, cs: Seq<usize>)
    requires
        children_private(t, cs),
    ensures
        kotlin_children(t, sym, cs).visibility == (if children_have_visibility(t, cs) {
            Visibility::Private
        } else {
            sym.visibility
        }),
    decreases cs.len(),
{
    if cs.len() > 0 {
        let p = cs.drop_last();
        assert(children_private(t, p)) by {
            assert forall|k: int| 0 <= k < p.len() && #[trigger] is_modifiers(t, p[k] as int)
                implies all_private(t, t.children_of(p[k] as int)) by {
                assert(p[k] == cs[k]);
            }
        }
        lemma_children_private(t, sym, p);
        let c = cs.last() as int;
        assert(cs[cs.len() - 1] as int == c);
        let s0 = kotlin_children(t, sym, p);
        assert(children_have_visibility(t, p) ==> children_have_visibility(t, cs)) by {
            if children_have_visibility(t, p) {
                let k = choose|k: int| 0 <= k < p.len() && #[trigger] is_modifiers(t, p[k] as int)
                    && has_visibility_modifier(t, t.children_of(p[k] as int));
                assert(cs[k] == p[k]);
            }
        }
        if is_modifiers(t, c) {
            lemma_modifiers_private(t, s0, t.children_of(c));
            if !has_visibility_modifier(t, t.children_of(c)) {
                assert(children_have_visibility(t, cs) ==> children_have_visibility(t, p)) by {
                    if children_have_visibility(t, cs) {
                        let k = choose|k: int| 0 <= k < cs.len() && #[trigger] is_modifiers(t, cs[k] as int)
                            && has_visibility_modifier(t, t.children_of(cs[k] as int));
                        assert(k < p.len() && p[k] == cs[k]);
                    }
                }
            }
        } else {
            assert(children_have_visibility(t, cs) ==> children_have_visibility(t, p)) by {
                if children_have_visibility(t, cs) {
                    let k = choose|k: int| 0 <= k < cs.len() && #[trigger] is_modifiers(t, cs[k] as int)
                        && has_visibility_modifier(t, t.children_of(cs[k] as int));
                    assert(k < p.len() && p[k] == cs[k]);
                }
            }
        }
    }
}

/// A Kotlin declaration marked `private` is private: when its modifiers
/// hold a visibility modifier and every one of them reads `private`, the
/// symbol's visibility is `Private`, whatever it was before.
pub proof fn lemma_private_modifier_makes_private(t: &SyntaxTree, sym: SymbolV, node: int)
    requires
        children_private(t, t.children_of(node)),
        children_have_visibility(t, t.children_of(node)),
    ensures
        KotlinConfig.adjust_rule(sym, t, node).visibility == Visibility::Private,
{
    lemma_children_private(t, sym, t.children_of(node));
}

} // verus!
