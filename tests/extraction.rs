use overdoc::config::{Config, LanguageConfig};
use overdoc::dependencies::build_dependency_graph;
use overdoc::exports::{extract_exports, extract_imports, scan_repository};
use overdoc::text::{chars_of, lines_exec};
use overdoc::traversal::RepoFile;

fn strings(v: &[&str]) -> Vec<String> {
    v.iter().map(|s| s.to_string()).collect()
}

#[test]
fn exports_take_last_group_and_line_kind() {
    let patterns = strings(&[r"pub fn (\w+)", r"pub struct (\w+)"]);
    let found = extract_exports(&"lib.rs".to_string(), "pub fn alpha() {}\npub struct Beta;\n", &patterns);
    assert_eq!(found.len(), 2);
    assert_eq!(found[0].name, "alpha");
    assert_eq!(found[0].line_number, 1);
    assert_eq!(found[0].export_type, "function");
    assert_eq!(found[0].file_path, "lib.rs");
    assert_eq!(found[0].usage_count, 0);
    assert_eq!(found[1].name, "Beta");
    assert_eq!(found[1].line_number, 2);
    assert_eq!(found[1].export_type, "struct");
}

#[test]
fn invalid_pattern_is_skipped() {
    let patterns = strings(&["(", r"const (\w+)"]);
    let found = extract_exports(&"a.js".to_string(), "export const LIMIT = 3;", &patterns);
    assert_eq!(found.len(), 1);
    assert_eq!(found[0].name, "LIMIT");
    assert_eq!(found[0].export_type, "constant");
}

#[test]
fn export_kind_falls_back_to_unknown() {
    let patterns = strings(&[r"^(\w+)$"]);
    let found = extract_exports(&"a.txt".to_string(), "thing", &patterns);
    assert_eq!(found[0].export_type, "unknown");
    let classes = extract_exports(&"a.ts".to_string(), "export class Shape {", &strings(&[r"class (\w+)"]));
    assert_eq!(classes[0].export_type, "class");
}

#[test]
fn extraction_is_repeatable() {
    let patterns = strings(&[r"fn (\w+)"]);
    let text = "fn a() {}\nfn b() {}\nuse crate::x::{y, z};";
    let first = extract_exports(&"r.rs".to_string(), text, &patterns);
    let second = extract_exports(&"r.rs".to_string(), text, &patterns);
    let names1: Vec<_> = first.iter().map(|e| (e.name.clone(), e.line_number)).collect();
    let names2: Vec<_> = second.iter().map(|e| (e.name.clone(), e.line_number)).collect();
    assert_eq!(names1, names2);
    let i1 = extract_imports(&"r.rs".to_string(), text, &vec![]);
    let i2 = extract_imports(&"r.rs".to_string(), text, &vec![]);
    let n1: Vec<_> = i1.iter().map(|i| i.name.clone()).collect();
    let n2: Vec<_> = i2.iter().map(|i| i.name.clone()).collect();
    assert_eq!(n1, n2);
}

#[test]
fn rust_use_statements() {
    let text = "use crate::graph::{Node, Edge};\nuse std::collections::HashMap;\n// use skipped::Thing;\n  use crate::single;\n";
    let found = extract_imports(&"m.rs".to_string(), text, &vec![]);
    let names: Vec<_> = found.iter().map(|i| i.name.as_str()).collect();
    assert_eq!(names, vec!["Node", "Edge", "HashMap", "single"]);
    assert_eq!(found[0].line_number, 1);
    assert_eq!(found[0].import_statement, "use crate::graph::{Node, Edge};");
    assert_eq!(found[2].line_number, 2);
    assert_eq!(found[3].line_number, 4);
    assert_eq!(found[3].import_statement, "use crate::single;");
    assert_eq!(found[0].file_path, "m.rs");
}

#[test]
fn rust_brace_group_outside_crate() {
    let found = extract_imports(&"m.rs".to_string(), "use std::io::{self, Read, };", &vec![]);
    let names: Vec<_> = found.iter().map(|i| i.name.as_str()).collect();
    assert_eq!(names, vec!["self", "Read"]);
}

#[test]
fn rust_file_without_use_falls_back_to_patterns() {
    let patterns = strings(&[r"mod (\w+);"]);
    let found = extract_imports(&"m.rs".to_string(), "mod parser;\nmod lexer;", &patterns);
    let names: Vec<_> = found.iter().map(|i| i.name.as_str()).collect();
    assert_eq!(names, vec!["parser", "lexer"]);
}

#[test]
fn generic_imports_split_at_commas() {
    let patterns = strings(&[r"import\s+(.+)"]);
    let found = extract_imports(&"a.py".to_string(), "from os import path, sep ,\n", &patterns);
    let names: Vec<_> = found.iter().map(|i| i.name.as_str()).collect();
    assert_eq!(names, vec!["path", "sep"]);
    assert_eq!(found[0].import_statement, "from os import path, sep ,");
}

#[test]
fn non_rust_file_ignores_use_grammar() {
    let found = extract_imports(&"a.py".to_string(), "use crate::x;", &vec![]);
    assert!(found.is_empty());
}

#[test]
fn lines_follow_str_lines() {
    let text = chars_of("a\r\nb\n");
    let lines = lines_exec(&text);
    assert_eq!(lines, vec![vec!['a'], vec!['b']]);
    assert_eq!(lines_exec(&chars_of("a\r")), vec![vec!['a', '\r']]);
    assert!(lines_exec(&chars_of("")).is_empty());
    assert_eq!(lines_exec(&chars_of("\n")), vec![Vec::<char>::new()]);
}

fn rust_config() -> Config {
    let mut config = Config::default();
    let rust = LanguageConfig {
        extensions: strings(&["rs"]),
        ignore_files: vec![],
        ignore_directories: vec![],
        import_patterns: vec![],
        export_patterns: strings(&[r"pub fn (\w+)"]),
    };
    config.languages.push(("rust".to_string(), rust));
    config
}

#[test]
fn scan_then_link() {
    let config = rust_config();
    let files = vec![
        (RepoFile::new("m/a.rs", 20), "pub fn alpha() {}\n".to_string()),
        (RepoFile::new("m/b.rs", 22), "use crate::a::alpha;\n".to_string()),
        (RepoFile::new("m/c.txt", 5), "pub fn hidden() {}".to_string()),
    ];
    let (mut exports, imports) = scan_repository(&files, &config);
    assert_eq!(exports.len(), 1);
    assert_eq!(exports[0].name, "alpha");
    assert_eq!(exports[0].file_path, "m/a.rs");
    assert_eq!(imports.len(), 1);
    assert_eq!(imports[0].name, "alpha");
    assert_eq!(imports[0].file_path, "m/b.rs");
    let graph = build_dependency_graph(&mut exports, &imports);
    assert_eq!(graph.get_dependencies("m/b.rs"), vec!["m/a.rs".to_string()]);
    assert_eq!(exports[0].usage_count, 1);
}

#[test]
fn captures_become_exports() {
    let caps = vec![
        vec![Some(chars_of("fn  run ")), Some(chars_of(" run "))],
        vec![Some(chars_of("x"))],
        vec![Some(chars_of("fn a")), None],
    ];
    let line = chars_of("fn run() {}");
    let found = overdoc::exports::exports_from_captures(&caps, &"function".to_string(), &line, 7, &"f.rs".to_string());
    assert_eq!(found.len(), 1);
    assert_eq!(found[0].name, "run");
    assert_eq!(found[0].line_number, 7);
    assert_eq!(found[0].export_type, "function");
}

#[test]
fn captures_become_imports() {
    let caps = vec![
        vec![Some(chars_of("import a, b")), Some(chars_of(" a, ,b "))],
        vec![Some(chars_of("import"))],
    ];
    let stmt = chars_of("import a, ,b");
    let found = overdoc::exports::imports_from_captures(&caps, 3, &"g.py".to_string(), &stmt);
    let names: Vec<_> = found.iter().map(|i| i.name.as_str()).collect();
    assert_eq!(names, vec!["a", "b"]);
    assert_eq!(found[1].import_statement, "import a, ,b");
    assert_eq!(found[1].line_number, 3);
}
