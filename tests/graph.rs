use overdoc::config::Config;
use overdoc::dependencies::{build_dependency_graph, calculate_directory_importance, linking_fits, DependencyGraph};
use overdoc::exports::{find_export_by_name, ExportedEntity, ImportReference};

fn export(name: &str, file: &str) -> ExportedEntity {
    ExportedEntity {
        name: name.to_string(),
        file_path: file.to_string(),
        line_number: 1,
        export_type: "function".to_string(),
        usage_count: 0,
    }
}

fn import(name: &str, file: &str) -> ImportReference {
    ImportReference {
        name: name.to_string(),
        file_path: file.to_string(),
        line_number: 1,
        import_statement: format!("use {};", name),
    }
}

#[test]
fn single_import_links_two_files() {
    let mut exports = vec![export("foo", "X")];
    let imports = vec![import("foo", "Y")];
    let graph = build_dependency_graph(&mut exports, &imports);
    assert_eq!(exports[0].usage_count, 1);
    assert_eq!(graph.get_dependencies("Y"), vec!["X".to_string()]);
    assert_eq!(graph.get_dependent_files("X"), vec!["Y".to_string()]);
    assert!(graph.get_dependencies("X").is_empty());
    assert_eq!(graph.get_file_importance("X"), 3);
    assert_eq!(graph.get_file_importance("Y"), 0);
}

#[test]
fn self_import_counts_usage_but_adds_no_edge() {
    let mut exports = vec![export("foo", "X")];
    let imports = vec![import("foo", "X")];
    let graph = build_dependency_graph(&mut exports, &imports);
    assert_eq!(exports[0].usage_count, 1);
    assert!(graph.get_dependencies("X").is_empty());
    assert!(graph.get_dependent_files("X").is_empty());
    assert_eq!(graph.get_file_importance("X"), 1);
}

#[test]
fn usage_sum_equals_matching_references() {
    let mut exports = vec![export("foo", "X"), export("bar", "X"), export("qux", "Q")];
    let imports = vec![
        import("foo", "Y"),
        import("foo", "Z"),
        import("bar", "Z"),
        import("baz", "W"),
    ];
    let graph = build_dependency_graph(&mut exports, &imports);
    let sum: usize = exports.iter().filter(|e| e.file_path == "X").map(|e| e.usage_count).sum();
    assert_eq!(sum, 3);
    assert_eq!(exports[2].usage_count, 0);
    let mut dependents = graph.get_dependent_files("X");
    dependents.sort();
    assert_eq!(dependents, vec!["Y".to_string(), "Z".to_string()]);
    assert_eq!(graph.get_file_importance("X"), 3 + 2 * 2);
    assert_eq!(graph.get_file_importance("Q"), 0);
}

#[test]
fn same_name_in_two_files_links_both() {
    let mut exports = vec![export("run", "A"), export("run", "B")];
    let imports = vec![import("run", "C")];
    let graph = build_dependency_graph(&mut exports, &imports);
    assert_eq!(exports[0].usage_count, 1);
    assert_eq!(exports[1].usage_count, 1);
    let mut deps = graph.get_dependencies("C");
    deps.sort();
    assert_eq!(deps, vec!["A".to_string(), "B".to_string()]);
}

#[test]
fn files_sorted_by_importance() {
    let mut exports = vec![export("a", "low"), export("b", "high"), export("c", "mid")];
    let imports = vec![
        import("b", "u1"),
        import("b", "u2"),
        import("b", "u3"),
        import("c", "u1"),
    ];
    let graph = build_dependency_graph(&mut exports, &imports);
    let ranked = graph.get_files_by_importance();
    assert_eq!(
        ranked,
        vec![("high".to_string(), 9), ("mid".to_string(), 3), ("low".to_string(), 0)]
    );
}

#[test]
fn empty_graph_has_nothing() {
    let graph = DependencyGraph::new();
    assert!(graph.get_files_by_importance().is_empty());
    assert_eq!(graph.get_file_importance("any"), 0);
    assert!(graph.get_dependencies("any").is_empty());
}

#[test]
fn single_file_directory_takes_file_importance() {
    let mut exports = vec![export("foo", "src/x.rs")];
    let imports = vec![import("foo", "main.rs")];
    let graph = build_dependency_graph(&mut exports, &imports);
    let dirs = calculate_directory_importance(&graph, &exports);
    assert_eq!(dirs, vec![("src".to_string(), graph.get_file_importance("src/x.rs"))]);
    assert_eq!(dirs[0].1, 3);
}

#[test]
fn nested_file_adds_full_score_to_every_ancestor() {
    let mut exports = vec![export("foo", "a/b/c.rs"), export("bar", "a/d.rs")];
    let imports = vec![import("foo", "m.rs"), import("bar", "m.rs")];
    let graph = build_dependency_graph(&mut exports, &imports);
    let mut dirs = calculate_directory_importance(&graph, &exports);
    dirs.sort();
    assert_eq!(dirs, vec![("a".to_string(), 6), ("a/b".to_string(), 3)]);
}

#[test]
fn linking_fits_checks_the_counts() {
    let exports = vec![export("foo", "X")];
    let imports = vec![import("foo", "Y")];
    assert!(linking_fits(&exports, &imports));
    let mut big = export("foo", "X");
    big.usage_count = usize::MAX;
    assert!(!linking_fits(&vec![big], &imports));
}

#[test]
fn find_export_returns_first_match() {
    let exports = vec![export("a", "one"), export("b", "two"), export("b", "three")];
    let found = find_export_by_name(&exports, "b").unwrap();
    assert_eq!(found.0, "two");
    assert_eq!(found.1.name, "b");
    assert!(find_export_by_name(&exports, "zzz").is_none());
}

#[test]
fn default_config_values() {
    let config = Config::default();
    assert_eq!(config.ignore_patterns, vec!["*.min.*", "*.map", "*.lock", ".gitignore", ".git/*"]);
    assert_eq!(config.ignore_directories, vec!["node_modules", "target", "dist", "build", ".git"]);
    assert!(config.languages.is_empty());
    assert!(!config.default_settings.include_no_extension);
    assert_eq!(config.default_settings.max_file_size_kb, 1024);
}

#[test]
fn credit_directories_adds_and_appends() {
    let mut dirs = vec![("a".to_string(), 4), ("b".to_string(), 1)];
    let ancestors = vec!["a/x".to_string(), "a".to_string()];
    overdoc::dependencies::credit_directories(&mut dirs, &ancestors, 5);
    assert_eq!(
        dirs,
        vec![("a".to_string(), 9), ("b".to_string(), 1), ("a/x".to_string(), 5)]
    );
}
