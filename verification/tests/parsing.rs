use std::collections::HashMap;

use dk_engine::conflict::ast_merge::{ast_merge, MergeStatus};
use dk_engine::domain::{Error, Span, Symbol, SymbolKind, Visibility};
use dk_engine::parser::engine::{QueryDrivenParser, QueryTexts};
use dk_engine::parser::langs::python::PythonConfig;
use dk_engine::parser::parse::{parse_source, Grammar, ParsedSource};
use dk_engine::parser::python_parser::PythonParser;
use dk_engine::parser::registry::{extension_of, ParserRegistry, QueryLibrary};
use dk_engine::parser::typescript_parser::TypeScriptParser;
use dk_engine::workspace::conflict::{analyze_file_conflict, MergeAnalysis};
use dk_engine::text::same_path_str;
use dk_engine::workspace::merge::rebase_overlay_parsing;
use dk_engine::workspace::session_graph::{SessionGraph, SharedBase};

const RS_SYMBOLS: &str = "(function_item (visibility_modifier)? @modifiers name: (identifier) @name) @definition.function";
const PY_SYMBOLS: &str = "(function_definition name: (identifier) @name) @definition.function";

fn texts(symbols: &str) -> QueryTexts {
    QueryTexts { symbols: symbols.to_string(), calls: String::new(), imports: String::new() }
}

fn library() -> QueryLibrary {
    QueryLibrary {
        rust: texts(RS_SYMBOLS),
        python: texts(PY_SYMBOLS),
        go: texts("(function_declaration name: (identifier) @name) @definition.function"),
        java: texts("(method_declaration (modifiers)? @modifiers name: (identifier) @name) @definition.method"),
        typescript: texts("(function_declaration name: (identifier) @name) @definition.function"),
        bash: texts(""),
        haskell: texts(""),
        julia: texts(""),
        scala: texts(""),
        kotlin: texts(""),
    }
}

#[test]
fn parse_source_builds_linked_tree() {
    let src = b"def foo():\n    pass\n";
    let t = parse_source(Grammar::Python, src).unwrap();
    assert!(t.is_wf());
    assert_eq!(t.source, src.to_vec());
    assert_eq!(t.nodes[0].kind, "module");
    assert_eq!(t.nodes[0].parent, None);
    let f = t.nodes[0].children[0];
    assert_eq!(t.nodes[f].kind, "function_definition");
    assert_eq!(t.nodes[f].parent, Some(0));
    let name = t.child_by_field(f, "name").unwrap();
    assert_eq!(t.node_text(name), "foo");
    assert_eq!(t.nodes[f].start_row, 0);
    assert_eq!(t.nodes[f].end_row, 1);
}

#[test]
fn parse_source_links_siblings() {
    let t = parse_source(Grammar::Python, b"x = 1\ny = 2\n").unwrap();
    let cs = t.nodes[0].children.clone();
    assert_eq!(cs.len(), 2);
    assert_eq!(t.nodes[cs[0]].prev_sibling, None);
    assert_eq!(t.nodes[cs[1]].prev_sibling, Some(cs[0]));
}

#[test]
fn python_parser_parses_bytes() {
    let fa = PythonParser::new().parse_file(b"def foo():\n    pass\n\nbar = 1\n", "m.py").unwrap();
    let names: Vec<&str> = fa.symbols.iter().map(|s| s.name.as_str()).collect();
    assert_eq!(names, vec!["foo", "bar"]);
    assert_eq!(fa.symbols[0].kind, SymbolKind::Function);
    assert_eq!(fa.symbols[0].span, Span { start_byte: 0, end_byte: 19 });
    let empty = PythonParser::new().parse_file(b"", "m.py").unwrap();
    assert!(empty.symbols.is_empty() && empty.calls.is_empty() && empty.imports.is_empty());
}

#[test]
fn typescript_tree_parser_parses_bytes() {
    let fa = TypeScriptParser::new().parse_file(b"export function f() {}\nimport { x } from './y';\n", "a.ts").unwrap();
    assert_eq!(fa.symbols.len(), 1);
    assert_eq!(fa.symbols[0].name, "f");
    assert_eq!(fa.symbols[0].visibility, Visibility::Public);
    assert_eq!(fa.imports.len(), 1);
    assert_eq!(fa.imports[0].module_name, "./y");
}

#[test]
fn query_runs_over_parsed_source() {
    let p = ParsedSource::parse(Grammar::Python, b"def foo():\n    pass\n").unwrap();
    let ms = p.run_query(PY_SYMBOLS).unwrap();
    assert_eq!(ms.len(), 1);
    let names: Vec<&str> = ms[0].captures.iter().map(|c| c.name.as_str()).collect();
    assert!(names.contains(&"name") && names.contains(&"definition.function"));
    let name_node = ms[0].captures.iter().find(|c| c.name == "name").unwrap().node;
    assert_eq!(p.syntax().node_text(name_node), "foo");
    assert!(p.run_query("(no_such_node) @x").is_none());
}

#[test]
fn query_driven_parser_parses_bytes() {
    let q = QueryDrivenParser::new(PythonConfig);
    let fa = q.parse_file(b"def foo():\n    pass\n", "m.py", &texts(PY_SYMBOLS)).unwrap();
    assert_eq!(fa.symbols.len(), 1);
    assert_eq!(fa.symbols[0].name, "foo");
    assert_eq!(fa.symbols[0].qualified_name, "foo");
    assert_eq!(fa.symbols[0].kind, SymbolKind::Function);
    assert_eq!(fa.symbols[0].file_path, "m.py");
    match q.parse_file(b"def foo():\n    pass\n", "m.py", &texts("(broken")) {
        Err(Error::ParseError(_)) => {}
        _ => panic!("expected a parse error"),
    }
    assert!(q.parse_file(b"", "m.py", &texts("(broken")).unwrap().symbols.is_empty());
}

#[test]
fn registry_parses_by_extension() {
    let r = ParserRegistry::new();
    let fa = r.parse_file("pkg/m.py", b"def foo():\n    pass\n", &library()).unwrap();
    assert_eq!(fa.symbols[0].name, "foo");
    let empty = r.parse_file("x.py", b"", &library()).unwrap();
    assert!(empty.symbols.is_empty() && empty.calls.is_empty() && empty.types.is_empty() && empty.imports.is_empty());
    let ts = r.parse_file("a.ts", b"function g() {}\n", &library()).unwrap();
    assert_eq!(ts.symbols[0].name, "g");
    match r.parse_file("notes.txt", b"hello", &library()) {
        Err(Error::UnsupportedLanguage(m)) => assert_eq!(m, "txt"),
        _ => panic!("expected unsupported"),
    }
    match r.parse_file("Makefile", b"all:", &library()) {
        Err(Error::UnsupportedLanguage(m)) => assert_eq!(m, "no extension"),
        _ => panic!("expected unsupported"),
    }
}

#[test]
fn ast_merge_parses_its_versions() {
    let base = "def a():\n    return 1\n\ndef b():\n    return 2\n";
    let va = "def a():\n    return 10\n\ndef b():\n    return 2\n";
    let vb = "def a():\n    return 1\n\ndef b():\n    return 20\n";
    let r = ast_merge(&ParserRegistry::new(), "m.py", base, va, vb, &library()).unwrap();
    assert_eq!(r.status, MergeStatus::Clean);
    assert!(r.conflicts.is_empty());
    assert_eq!(r.merged_content, "def a():\n    return 10\n\ndef b():\n    return 20\n");
    let c = ast_merge(&ParserRegistry::new(), "m.py", "def a():\n    return 1\n", "def a():\n    return 2\n",
        "def a():\n    return 3\n", &library()).unwrap();
    assert_eq!(c.status, MergeStatus::Conflict);
    assert_eq!(c.conflicts.len(), 1);
    assert_eq!(c.conflicts[0].qualified_name, "a");
    assert_eq!(c.conflicts[0].base, "def a():\n    return 1");
    assert_eq!(c.conflicts[0].version_a, "def a():\n    return 2");
    assert_eq!(c.conflicts[0].version_b, "def a():\n    return 3");
    match ast_merge(&ParserRegistry::new(), "notes.txt", "", "", "", &library()) {
        Err(Error::UnsupportedLanguage(m)) => assert_eq!(m, "AST merge not supported for file: notes.txt"),
        _ => panic!("expected unsupported"),
    }
}

#[test]
fn ast_merge_unchanged_side_with_fresh_ids_is_clean() {
    let base = "def a():\n    return 1\n";
    let other = "def a():\n    return 5\n\ndef c():\n    return 3\n";
    let r = ast_merge(&ParserRegistry::new(), "m.py", base, base, other, &library()).unwrap();
    assert_eq!(r.status, MergeStatus::Clean);
    assert!(r.conflicts.is_empty());
}

#[test]
fn analysis_parses_its_versions() {
    let base = b"def a():\n    return 1\n\ndef b():\n    return 2\n";
    let head = b"def a():\n    return 10\n\ndef b():\n    return 2\n";
    let ours = b"def a():\n    return 1\n\ndef b():\n    return 20\n";
    match analyze_file_conflict("m.py", base, head, ours, &ParserRegistry::new(), &library()) {
        MergeAnalysis::AutoMerge { merged_content } => {
            assert_eq!(merged_content, b"def a():\n    return 10\n\ndef b():\n    return 20\n".to_vec());
        }
        MergeAnalysis::Conflict { .. } => panic!("expected an automatic merge"),
    }
    match analyze_file_conflict("m.py", base, base, ours, &ParserRegistry::new(), &library()) {
        MergeAnalysis::AutoMerge { .. } => {}
        MergeAnalysis::Conflict { .. } => panic!("one side unchanged never conflicts"),
    }
}

#[test]
fn extension_skips_trailing_separators() {
    assert_eq!(extension_of("x.py/").as_deref(), Some("py"));
    assert_eq!(extension_of("x.py/.").as_deref(), Some("py"));
    assert_eq!(extension_of("a/.."), None);
    assert!(ParserRegistry::new().supports_file("x.py/"));
}

fn sym(id: u128, name: &str, path: &str) -> Symbol {
    Symbol {
        id,
        name: name.to_string(),
        qualified_name: name.to_string(),
        kind: SymbolKind::Function,
        visibility: Visibility::Public,
        file_path: path.to_string(),
        span: Span { start_byte: 0, end_byte: 10 },
        signature: None,
        doc_comment: None,
        parent: None,
        last_modified_by: None,
        last_modified_intent: None,
    }
}

#[test]
fn dropping_a_file_falls_back_to_base() {
    let mut base = HashMap::new();
    base.insert(1, sym(1, "base_fn", "a.py"));
    let mut g = SessionGraph::fork_from(SharedBase::new(base));
    g.modify_symbol(sym(1, "edited_fn", "a.py"));
    g.add_symbol(sym(20, "new_fn", "a.py"));
    g.add_symbol(sym(30, "other_fn", "b.py"));
    assert_eq!(g.change_count(), 3);
    g.remove_session_symbols_for_file("a.py");
    assert_eq!(g.get_symbol(1).unwrap().name, "base_fn");
    assert!(g.get_symbol(20).is_none());
    assert_eq!(g.get_symbol(30).unwrap().name, "other_fn");
    assert_eq!(g.change_count(), 1);
    assert!(g.changed_symbols_for_file("a.py").is_empty());
}

#[test]
fn rebase_parses_each_overlay_path() {
    let base = b"def a():\n    return 1\n\ndef b():\n    return 2\n".to_vec();
    let head = b"def a():\n    return 10\n\ndef b():\n    return 2\n".to_vec();
    let ours = b"def a():\n    return 1\n\ndef b():\n    return 20\n".to_vec();
    let overlay = vec![("m.py".to_string(), Some(ours))];
    let plan = rebase_overlay_parsing(&overlay, &vec![Some(base)], &vec![Some(head)], &ParserRegistry::new(), &library());
    assert!(plan.conflicts.is_empty());
    assert_eq!(plan.rebased_overlay.len(), 1);
    assert_eq!(plan.rebased_overlay[0].1, Some(b"def a():\n    return 10\n\ndef b():\n    return 20\n".to_vec()));
    assert_eq!(plan.auto_rebased, vec!["m.py".to_string()]);
}

#[test]
fn registry_supports_rust_files() {
    let r = ParserRegistry::new();
    for p in ["src/main.rs", "x.py", "a.ts", "a.tsx", "a.js", "a.jsx", "main.go", "A.java"] {
        assert!(r.supports_file(p), "{p}");
    }
    assert!(!r.supports_file("notes.txt"));
}

#[test]
fn rust_merge_keeps_edits_to_different_functions() {
    let base = "fn a() -> i32 { 1 }\n\nfn b() -> i32 { 2 }\n";
    let va = "fn a() -> i32 { 10 }\n\nfn b() -> i32 { 2 }\n";
    let vb = "fn a() -> i32 { 1 }\n\nfn b() -> i32 { 20 }\n";
    let r = ast_merge(&ParserRegistry::new(), "lib.rs", base, va, vb, &library()).unwrap();
    assert_eq!(r.status, MergeStatus::Clean);
    assert!(r.conflicts.is_empty());
    assert_eq!(r.merged_content, "fn a() -> i32 { 10 }\n\nfn b() -> i32 { 20 }\n");
}

#[test]
fn rust_merge_reports_one_conflict() {
    let r = ast_merge(&ParserRegistry::new(), "lib.rs", "fn a() -> i32 { 1 }\n", "fn a() -> i32 { 2 }\n",
        "fn a() -> i32 { 3 }\n", &library()).unwrap();
    assert_eq!(r.status, MergeStatus::Conflict);
    assert_eq!(r.conflicts.len(), 1);
    assert_eq!(r.conflicts[0].base, "fn a() -> i32 { 1 }");
    assert_eq!(r.conflicts[0].version_a, "fn a() -> i32 { 2 }");
    assert_eq!(r.conflicts[0].version_b, "fn a() -> i32 { 3 }");
}

#[test]
fn rust_visibility_follows_modifiers() {
    let fa = ParserRegistry::new()
        .parse_file("lib.rs", b"pub fn a() {}\npub(crate) fn b() {}\nfn c() {}\n", &library())
        .unwrap();
    let vis: Vec<Visibility> = fa.symbols.iter().map(|s| s.visibility).collect();
    assert_eq!(vis, vec![Visibility::Public, Visibility::Crate, Visibility::Private]);
}

#[test]
fn go_and_java_parse() {
    let r = ParserRegistry::new();
    let go = r.parse_file("m.go", b"package p\nfunc Foo() {}\nfunc bar() {}\n", &library()).unwrap();
    let names: Vec<(&str, Visibility)> = go.symbols.iter().map(|s| (s.name.as_str(), s.visibility)).collect();
    assert_eq!(names, vec![("Foo", Visibility::Public), ("bar", Visibility::Private)]);
    let java = r.parse_file("A.java", b"class A { public void f() {} private void g() {} }\n", &library()).unwrap();
    let names: Vec<(&str, Visibility)> = java.symbols.iter().map(|s| (s.name.as_str(), s.visibility)).collect();
    assert_eq!(names, vec![("f", Visibility::Public), ("g", Visibility::Private)]);
}

#[test]
fn paths_compare_by_components() {
    assert!(same_path_str("src//a.rs", "src/a.rs"));
    assert!(same_path_str("src/./a.rs", "src/a.rs"));
    assert!(same_path_str("src/a.rs/", "src/a.rs"));
    assert!(!same_path_str("./a.rs", "a.rs"));
    assert!(!same_path_str("/a.rs", "a.rs"));
    assert!(!same_path_str("src/b.rs", "src/a.rs"));
}

#[test]
fn dropping_a_file_matches_equivalent_paths() {
    let mut g = SessionGraph::empty();
    g.add_symbol(sym(20, "new_fn", "src//a.py"));
    assert_eq!(g.changed_symbols_for_file("src/a.py"), vec!["new_fn".to_string()]);
    g.remove_session_symbols_for_file("src/a.py");
    assert!(g.get_symbol(20).is_none());
}
