use dk_engine::domain::{CallKind, Span, Symbol, SymbolKind, Visibility};
use dk_engine::parser::engine::{matches_fit, QueryCapture, QueryDrivenParser, QueryMatch};
use dk_engine::parser::lang_config::{default_kind_mapping, CommentStyle, LanguageConfig};
use dk_engine::parser::langs::bash::BashConfig;
use dk_engine::parser::langs::julia::JuliaConfig;
use dk_engine::parser::langs::python::PythonConfig;
use dk_engine::parser::langs::typescript::{TypeScriptConfig, TypeScriptParser as TsQueryParser};
use dk_engine::parser::python_parser::PythonParser;
use dk_engine::parser::syntax::{SyntaxNode, SyntaxTree};
use dk_engine::parser::typescript_parser::TypeScriptParser;

/// One node as written in a test: kind, named, byte range, rows, parent and
/// the field the parent reaches it by.
struct N(&'static str, bool, usize, usize, usize, usize, Option<usize>, Option<&'static str>);

fn tree(source: &str, spec: Vec<N>) -> SyntaxTree {
    let mut nodes: Vec<SyntaxNode> = spec
        .iter()
        .map(|n| SyntaxNode {
            kind: n.0.to_string(),
            named: n.1,
            start_byte: n.2,
            end_byte: n.3,
            start_row: n.4,
            end_row: n.5,
            parent: n.6,
            prev_sibling: None,
            children: vec![],
            fields: vec![],
        })
        .collect();
    for (i, n) in spec.iter().enumerate() {
        if let Some(p) = n.6 {
            nodes[i].prev_sibling = nodes[p].children.last().copied();
            nodes[p].children.push(i);
            if let Some(f) = n.7 {
                nodes[p].fields.push((f.to_string(), i));
            }
        }
    }
    SyntaxTree { source: source.as_bytes().to_vec(), nodes }
}

const PY: &str = "# helper\ndef foo(x):\n    bar(x)\n";

fn python_tree() -> SyntaxTree {
    tree(
        PY,
        vec![
            N("module", true, 0, 32, 0, 3, None, None),
            N("comment", true, 0, 8, 0, 0, Some(0), None),
            N("function_definition", true, 9, 31, 1, 2, Some(0), None),
            N("identifier", true, 13, 16, 1, 1, Some(2), Some("name")),
            N("parameters", true, 16, 19, 1, 1, Some(2), Some("parameters")),
            N("block", true, 25, 31, 2, 2, Some(2), Some("body")),
            N("expression_statement", true, 25, 31, 2, 2, Some(5), None),
            N("call", true, 25, 31, 2, 2, Some(6), None),
            N("identifier", true, 25, 28, 2, 2, Some(7), Some("function")),
            N("argument_list", true, 28, 31, 2, 2, Some(7), Some("arguments")),
        ],
    )
}

#[test]
fn tree_checks_find_bad_links() {
    let t = python_tree();
    assert!(t.is_wf());
    let mut bad = python_tree();
    bad.nodes[3].parent = Some(7);
    assert!(!bad.is_wf());
    let mut past_end = python_tree();
    past_end.nodes[1].end_byte = 40;
    assert!(!past_end.is_wf());
    let inside = vec![QueryMatch { captures: vec![QueryCapture { name: "name".to_string(), node: 9 }] }];
    assert!(matches_fit(&t, &inside));
    let outside = vec![QueryMatch { captures: vec![QueryCapture { name: "name".to_string(), node: 10 }] }];
    assert!(!matches_fit(&t, &outside));
}

#[test]
fn python_parser_extracts_definition_with_comment() {
    let t = python_tree();
    let syms = PythonParser::new().extract_symbols(&t, "src/a.py");
    assert_eq!(syms.len(), 1);
    let s = &syms[0];
    assert_eq!(s.name, "foo");
    assert_eq!(s.qualified_name, "foo");
    assert_eq!(s.kind, SymbolKind::Function);
    assert_eq!(s.visibility, Visibility::Public);
    assert_eq!(s.file_path, "src/a.py");
    assert_eq!(s.span, Span { start_byte: 9, end_byte: 31 });
    assert_eq!(s.signature.as_deref(), Some("def foo(x):"));
    assert_eq!(s.doc_comment.as_deref(), Some("# helper"));
}

#[test]
fn python_parser_extracts_calls_with_caller() {
    let t = python_tree();
    let calls = PythonParser::new().extract_calls(&t);
    assert_eq!(calls.len(), 1);
    assert_eq!(calls[0].caller_name, "foo");
    assert_eq!(calls[0].callee_name, "bar");
    assert_eq!(calls[0].kind, CallKind::DirectCall);
    assert_eq!(calls[0].call_site, Span { start_byte: 25, end_byte: 31 });
}

#[test]
fn python_parser_empty_source_gives_nothing() {
    let t = SyntaxTree { source: vec![], nodes: vec![] };
    assert!(PythonParser::new().extract_symbols(&t, "x.py").is_empty());
    assert!(PythonParser::new().extract_calls(&t).is_empty());
    assert!(PythonParser::new().extract_imports(&t).is_empty());
}

#[test]
fn python_parser_private_assignment() {
    // _LIMIT = 3
    let t = tree(
        "_LIMIT = 3\n",
        vec![
            N("module", true, 0, 11, 0, 1, None, None),
            N("expression_statement", true, 0, 10, 0, 0, Some(0), None),
            N("assignment", true, 0, 10, 0, 0, Some(1), None),
            N("identifier", true, 0, 6, 0, 0, Some(2), Some("left")),
            N("integer", true, 9, 10, 0, 0, Some(2), Some("right")),
        ],
    );
    let syms = PythonParser::new().extract_symbols(&t, "m.py");
    assert_eq!(syms.len(), 1);
    assert_eq!(syms[0].name, "_LIMIT");
    assert_eq!(syms[0].kind, SymbolKind::Variable);
    assert_eq!(syms[0].visibility, Visibility::Private);
    assert_eq!(syms[0].signature.as_deref(), Some("_LIMIT = 3"));
}

#[test]
fn python_parser_imports() {
    // import os as o
    // from .pkg import a
    let src = "import os as o\nfrom .pkg import a\n";
    let t = tree(
        src,
        vec![
            N("module", true, 0, 34, 0, 2, None, None),
            N("import_statement", true, 0, 14, 0, 0, Some(0), None),
            N("import", false, 0, 6, 0, 0, Some(1), None),
            N("aliased_import", true, 7, 14, 0, 0, Some(1), Some("name")),
            N("dotted_name", true, 7, 9, 0, 0, Some(3), Some("name")),
            N("identifier", true, 13, 14, 0, 0, Some(3), Some("alias")),
            N("import_from_statement", true, 15, 33, 1, 1, Some(0), None),
            N("from", false, 15, 19, 1, 1, Some(6), None),
            N("relative_import", true, 20, 24, 1, 1, Some(6), Some("module_name")),
            N("import", false, 25, 31, 1, 1, Some(6), None),
            N("dotted_name", true, 32, 33, 1, 1, Some(6), Some("name")),
        ],
    );
    let imports = PythonParser::new().extract_imports(&t);
    assert_eq!(imports.len(), 2);
    assert_eq!(imports[0].module_name, "os");
    assert_eq!(imports[0].imported_name, "os");
    assert_eq!(imports[0].alias.as_deref(), Some("o"));
    assert!(imports[0].is_external);
    assert_eq!(imports[1].module_name, ".pkg");
    assert_eq!(imports[1].imported_name, "a");
    assert!(!imports[1].is_external);
}

#[test]
fn engine_symbols_from_matches_uses_config() {
    let t = python_tree();
    let parser = QueryDrivenParser::new(PythonConfig);
    let matches = vec![QueryMatch {
        captures: vec![
            QueryCapture { name: "definition.function".to_string(), node: 2 },
            QueryCapture { name: "name".to_string(), node: 3 },
        ],
    }];
    let syms = parser.symbols_from_matches(&t, &matches, "src/a.py");
    assert_eq!(syms.len(), 1);
    assert_eq!(syms[0].name, "foo");
    assert_eq!(syms[0].kind, SymbolKind::Function);
    assert_eq!(syms[0].doc_comment.as_deref(), Some("# helper"));
    assert_eq!(syms[0].signature.as_deref(), Some("def foo(x):"));
}

#[test]
fn engine_skips_match_without_known_kind() {
    let t = python_tree();
    let parser = QueryDrivenParser::new(PythonConfig);
    let matches = vec![QueryMatch {
        captures: vec![
            QueryCapture { name: "definition.widget".to_string(), node: 2 },
            QueryCapture { name: "name".to_string(), node: 3 },
        ],
    }];
    assert!(parser.symbols_from_matches(&t, &matches, "a.py").is_empty());
}

#[test]
fn engine_calls_from_matches() {
    let t = python_tree();
    let parser = QueryDrivenParser::new(PythonConfig);
    let matches = vec![QueryMatch {
        captures: vec![
            QueryCapture { name: "call".to_string(), node: 7 },
            QueryCapture { name: "callee".to_string(), node: 8 },
        ],
    }];
    let calls = parser.calls_from_matches(&t, &matches);
    assert_eq!(calls.len(), 1);
    assert_eq!(calls[0].callee_name, "bar");
    assert_eq!(calls[0].caller_name, "foo");
    assert_eq!(calls[0].kind, CallKind::DirectCall);
}

#[test]
fn engine_imports_from_matches_strip_quotes_and_derive_name() {
    let src = "import \"./util/strings\"\n";
    let t = tree(
        src,
        vec![
            N("program", true, 0, 24, 0, 1, None, None),
            N("import_statement", true, 0, 23, 0, 0, Some(0), None),
            N("string", true, 7, 23, 0, 0, Some(1), Some("source")),
        ],
    );
    let parser = QueryDrivenParser::new(TypeScriptConfig);
    let matches = vec![QueryMatch { captures: vec![QueryCapture { name: "module".to_string(), node: 2 }] }];
    let imports = parser.imports_from_matches(&t, &matches);
    assert_eq!(imports.len(), 1);
    assert_eq!(imports[0].module_name, "./util/strings");
    assert_eq!(imports[0].imported_name, "strings");
    assert!(imports[0].alias.is_none());
    assert!(!imports[0].is_external);
}

#[test]
fn default_kind_mapping_table() {
    assert_eq!(default_kind_mapping("method"), Some(SymbolKind::Function));
    assert_eq!(default_kind_mapping("type"), Some(SymbolKind::TypeAlias));
    assert_eq!(default_kind_mapping("expression"), Some(SymbolKind::Const));
    assert_eq!(default_kind_mapping("gizmo"), None);
}

#[test]
fn language_rules() {
    assert_eq!(PythonConfig.resolve_visibility(None, "_x"), Visibility::Private);
    assert_eq!(JuliaConfig.resolve_visibility(None, "f"), Visibility::Public);
    assert_eq!(TypeScriptConfig.resolve_visibility(Some("export"), "f"), Visibility::Public);
    assert_eq!(TypeScriptConfig.resolve_visibility(None, "f"), Visibility::Private);
    assert!(!PythonConfig.is_external_import(".local"));
    assert!(PythonConfig.is_external_import("os"));
    assert!(!TypeScriptConfig.is_external_import("/abs"));
    assert!(BashConfig.is_external_import("./x"));
    assert_eq!(BashConfig.extensions(), vec!["sh", "bash"]);
    assert_eq!(BashConfig.comment_style(), CommentStyle::Hash);
    assert_eq!(CommentStyle::DashDash.prefix(), "--");
}

fn sym(id: u128, qn: &str, start: u32, end: u32) -> Symbol {
    Symbol {
        id,
        name: qn.to_string(),
        qualified_name: qn.to_string(),
        kind: SymbolKind::Const,
        visibility: Visibility::Private,
        file_path: "app.ts".to_string(),
        span: Span { start_byte: start, end_byte: end },
        signature: None,
        doc_comment: None,
        parent: None,
        last_modified_by: None,
        last_modified_intent: None,
    }
}

#[test]
fn dedup_drops_nested_and_numbers_duplicates() {
    let syms = vec![
        sym(1, "app.use", 0, 10),
        sym(2, "router", 20, 100),
        sym(3, "res.json", 30, 40),
        sym(4, "app.use", 110, 120),
        sym(5, "app.use", 130, 140),
    ];
    let out = TsQueryParser::dedup_symbols(syms);
    let names: Vec<&str> = out.iter().map(|s| s.qualified_name.as_str()).collect();
    assert_eq!(names, vec!["app.use", "router", "app.use#2", "app.use#3"]);
    assert_eq!(out[2].name, "app.use#2");
    assert_eq!(out[2].id, 4);
}

#[test]
fn typescript_parser_imports() {
    // import D, { A, B as C } from './mod';
    let src = "import D, { A, B as C } from './mod';";
    let t = tree(
        src,
        vec![
            N("program", true, 0, 37, 0, 0, None, None),
            N("import_statement", true, 0, 37, 0, 0, Some(0), None),
            N("import", false, 0, 6, 0, 0, Some(1), None),
            N("import_clause", true, 7, 23, 0, 0, Some(1), None),
            N("identifier", true, 7, 8, 0, 0, Some(3), None),
            N("named_imports", true, 10, 23, 0, 0, Some(3), None),
            N("import_specifier", true, 12, 13, 0, 0, Some(5), None),
            N("identifier", true, 12, 13, 0, 0, Some(6), Some("name")),
            N("import_specifier", true, 15, 21, 0, 0, Some(5), None),
            N("identifier", true, 15, 16, 0, 0, Some(8), Some("name")),
            N("identifier", true, 20, 21, 0, 0, Some(8), Some("alias")),
            N("from", false, 24, 28, 0, 0, Some(1), None),
            N("string", true, 29, 36, 0, 0, Some(1), Some("source")),
        ],
    );
    let imports = TypeScriptParser::new().extract_imports(&t);
    let got: Vec<(&str, &str, Option<&str>, bool)> = imports
        .iter()
        .map(|i| (i.module_name.as_str(), i.imported_name.as_str(), i.alias.as_deref(), i.is_external))
        .collect();
    assert_eq!(
        got,
        vec![("./mod", "D", None, false), ("./mod", "A", None, false), ("./mod", "B", Some("C"), false)]
    );
}

#[test]
fn typescript_parser_side_effect_import() {
    let src = "import 'polyfill';";
    let t = tree(
        src,
        vec![
            N("program", true, 0, 18, 0, 0, None, None),
            N("import_statement", true, 0, 18, 0, 0, Some(0), None),
            N("import", false, 0, 6, 0, 0, Some(1), None),
            N("string", true, 7, 17, 0, 0, Some(1), Some("source")),
        ],
    );
    let imports = TypeScriptParser::new().extract_imports(&t);
    assert_eq!(imports.len(), 1);
    assert_eq!(imports[0].module_name, "polyfill");
    assert_eq!(imports[0].imported_name, "*");
    assert!(imports[0].is_external);
}

#[test]
fn typescript_parser_numbers_repeated_expression_names() {
    // app.use(a);
    // app.use(b);
    let src = "app.use(a);\napp.use(b);\n";
    let t = tree(
        src,
        vec![
            N("program", true, 0, 24, 0, 2, None, None),
            N("expression_statement", true, 0, 11, 0, 0, Some(0), None),
            N("call_expression", true, 0, 10, 0, 0, Some(1), None),
            N("member_expression", true, 0, 7, 0, 0, Some(2), Some("function")),
            N("arguments", true, 7, 10, 0, 0, Some(2), Some("arguments")),
            N("expression_statement", true, 12, 23, 1, 1, Some(0), None),
            N("call_expression", true, 12, 22, 1, 1, Some(5), None),
            N("member_expression", true, 12, 19, 1, 1, Some(6), Some("function")),
            N("arguments", true, 19, 22, 1, 1, Some(6), Some("arguments")),
        ],
    );
    let p = TypeScriptParser::new();
    let syms = p.extract_symbols(&t, "app.ts");
    let names: Vec<&str> = syms.iter().map(|s| s.qualified_name.as_str()).collect();
    assert_eq!(names, vec!["app.use", "app.use#2"]);
    assert!(syms.iter().all(|s| s.kind == SymbolKind::Const && s.visibility == Visibility::Private));
    let calls = p.extract_calls(&t);
    assert_eq!(calls.len(), 2);
    assert_eq!(calls[0].callee_name, "app.use");
    assert_eq!(calls[0].kind, CallKind::MethodCall);
}
