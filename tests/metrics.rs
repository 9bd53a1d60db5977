use overdoc::metrics::{analyze_file, analyze_file_complexity, language_for, summarize_repository, Language};
use overdoc::numbers::parses_as_float_exec;
use overdoc::text::chars_of;

#[test]
fn two_function_file() {
    let m = analyze_file("a.rs", "fn a(){} \n fn b(){ if true {} }", 31);
    assert_eq!(m.line_count, 2);
    assert_eq!(m.function_count, 2);
    assert_eq!(m.code_lines, 2);
    let c = m.complexity_metrics.unwrap();
    assert_eq!(c.cyclomatic_complexity, 2);
}

#[test]
fn line_classification_with_block_comment() {
    let m = analyze_file("x.rs", "// c\n/* a\n b */\n\nlet x = 1;\n", 40);
    assert_eq!(m.line_count, 5);
    assert_eq!(m.comment_lines, 3);
    assert_eq!(m.blank_lines, 1);
    assert_eq!(m.code_lines, 1);
    assert_eq!(m.function_count, 0);
    assert_eq!(m.path, "x.rs");
    assert_eq!(m.file_size_bytes, 40);
}

#[test]
fn other_language_comments() {
    let m = analyze_file("run.sh", "# setup\necho hi\n// note\n", 25);
    assert_eq!(m.comment_lines, 2);
    assert_eq!(m.code_lines, 1);
}

#[test]
fn declarations_are_counted_by_kind() {
    let m = analyze_file("d.rs", "struct A {\n}\nenum B {\n}\nstruct C;\nimpl A {\n}\n", 50);
    assert_eq!(
        m.declaration_count,
        vec![("struct".to_string(), 1), ("enum".to_string(), 1), ("impl".to_string(), 1)]
    );
    assert_eq!(m.total_declarations(), 3);
}

#[test]
fn script_functions() {
    let m = analyze_file("a.js", "function f() {\n}\nconst g = () => {\n}\nconst h = 1;\n", 60);
    assert_eq!(m.function_count, 2);
}

#[test]
fn complexity_of_nested_branches() {
    let text = "fn f() {\n    if a && b {\n        x();\n    } else {\n    }\n}\n";
    let c = analyze_file_complexity("f.rs", text);
    assert_eq!(c.cyclomatic_complexity, 3);
    assert_eq!(c.max_nesting_depth, 2);
    assert_eq!(c.cognitive_complexity_halves, 5);
}

#[test]
fn statement_lines_do_not_branch() {
    let c = analyze_file_complexity("g.rs", "let y = if a { 1 } else { 2 };\n");
    assert_eq!(c.cyclomatic_complexity, 1);
}

#[test]
fn nesting_can_go_negative() {
    let c = analyze_file_complexity("n.rs", "}\n}\n");
    assert_eq!(c.max_nesting_depth, -1);
    let e = analyze_file_complexity("n.rs", ")");
    assert_eq!(e.max_nesting_depth, -1);
    let d = analyze_file_complexity("n.rs", "((\n");
    assert_eq!(d.max_nesting_depth, 2);
}

#[test]
fn halstead_counts_of_one_statement() {
    let c = analyze_file_complexity("h.rs", "let x = 1;");
    assert_eq!(c.halstead.unique_operators, 2);
    assert_eq!(c.halstead.total_operators, 2);
    assert_eq!(c.halstead.unique_operands, 3);
    assert_eq!(c.halstead.total_operands, 3);
}

#[test]
fn halstead_repeated_operand() {
    let c = analyze_file_complexity("h.rs", "x = x + x;\n// x x x\n/* x\nx x */\n");
    assert_eq!(c.halstead.unique_operands, 1);
    assert_eq!(c.halstead.total_operands, 3);
    assert_eq!(c.halstead.unique_operators, 3);
    assert_eq!(c.halstead.total_operators, 3);
}

#[test]
fn empty_file() {
    let m = analyze_file("e.rs", "", 0);
    assert_eq!(m.line_count, 0);
    let c = m.complexity_metrics.unwrap();
    assert_eq!(c.cyclomatic_complexity, 1);
    assert_eq!(c.max_nesting_depth, 0);
    assert_eq!(c.cognitive_complexity_halves, 0);
    assert_eq!(c.halstead.total_operators, 0);
    assert_eq!(c.halstead.total_operands, 0);
}

#[test]
fn oversized_file_has_no_complexity() {
    let m = analyze_file("big.rs", "fn a() {}\n", 2 * 1024 * 1024);
    assert!(m.complexity_metrics.is_none());
    assert_eq!(m.function_count, 1);
}

#[test]
fn languages_by_extension() {
    assert_eq!(language_for("rs"), Language::Rust);
    assert_eq!(language_for("tsx"), Language::Script);
    assert_eq!(language_for("py"), Language::Other);
    let upper = analyze_file("A.RS", "fn a() {}", 9);
    assert_eq!(upper.function_count, 1);
}

#[test]
fn float_grammar() {
    for ok in ["1", "1e5", "1E+5", "inf", "NaN", "Infinity", "+.5", "5.", "-2.5e-3"] {
        assert!(parses_as_float_exec(&chars_of(ok)), "{}", ok);
    }
    for bad in ["", ".", "e5", "1e", "1.2.3", "abc", "1_0", "infinit"] {
        assert!(!parses_as_float_exec(&chars_of(bad)), "{}", bad);
    }
}

#[test]
fn repository_totals() {
    let files = vec![
        analyze_file("a/x.rs", "fn a() {}\n\n// c\n", 18),
        analyze_file("a/y.RS", "fn b() {}\n", 10),
        analyze_file("README", "hello\n", 6),
    ];
    let t = summarize_repository(&files);
    assert_eq!(t.total_files, 3);
    assert_eq!(t.total_lines, 5);
    assert_eq!(t.total_code_lines, 3);
    assert_eq!(t.total_comment_lines, 1);
    assert_eq!(t.total_blank_lines, 1);
    assert_eq!(t.total_size_bytes, 34);
    assert_eq!(t.avg_file_size, 11);
    assert_eq!(t.avg_lines_per_file, 1);
    let mut dist = t.language_distribution.clone();
    dist.sort();
    assert_eq!(dist, vec![("rs".to_string(), 2), ("unknown".to_string(), 1)]);
}

#[test]
fn numbers_are_operands_in_every_language() {
    let c = analyze_file_complexity("a.py", "x = 42");
    assert_eq!(c.halstead.unique_operators, 1);
    assert_eq!(c.halstead.total_operators, 1);
    assert_eq!(c.halstead.unique_operands, 2);
    assert_eq!(c.halstead.total_operands, 2);
}

#[test]
fn export_kind_of_a_line() {
    let kind = overdoc::exports::determine_export_type(&chars_of("  pub trait Shape {"));
    assert_eq!(kind, "trait");
    let none = overdoc::exports::determine_export_type(&chars_of("x"));
    assert_eq!(none, "unknown");
}
