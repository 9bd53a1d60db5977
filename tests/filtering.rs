use overdoc::config::{Config, LanguageConfig};
use overdoc::filter::apply_filters;
use overdoc::traversal::{is_ignored_by_default, RepoFile};

fn paths(files: &[RepoFile]) -> Vec<String> {
    files.iter().map(|f| f.path.clone()).collect()
}

#[test]
fn repo_file_reads_its_path() {
    let f = RepoFile::new("proj/.git/config", 10);
    assert!(f.in_dot_directory);
    assert_eq!(f.extension, None);
    let g = RepoFile::new("proj/src/Main.RS", 12);
    assert!(!g.in_dot_directory);
    assert_eq!(g.extension, Some("rs".to_string()));
    assert_eq!(g.size, 12);
}

#[test]
fn default_rules() {
    let config = Config::default();
    let files = vec![
        RepoFile::new("proj/src/a.rs", 10),
        RepoFile::new("proj/.hidden/x.txt", 10),
        RepoFile::new("proj/app.min.js", 10),
        RepoFile::new("proj/data.lock", 10),
        RepoFile::new("proj/README", 10),
        RepoFile::new("proj/big.txt", 2 * 1024 * 1024),
        RepoFile::new("proj/notes.txt", 10),
        RepoFile::new("proj/node_modules/lib.js", 10),
    ];
    let kept = apply_filters(files, &config);
    assert_eq!(
        paths(&kept),
        vec!["proj/src/a.rs", "proj/app.min.js", "proj/notes.txt", "proj/node_modules/lib.js"]
    );
}

#[test]
fn language_rules() {
    let mut config = Config::default();
    config.default_settings.max_file_size_kb = 0;
    config.languages.push((
        "rust".to_string(),
        LanguageConfig {
            extensions: vec!["rs".to_string()],
            ignore_files: vec!["build.rs".to_string()],
            ignore_directories: vec!["generated".to_string()],
            import_patterns: vec![],
            export_patterns: vec![],
        },
    ));
    let files = vec![
        RepoFile::new("proj/generated/x.rs", 10),
        RepoFile::new("proj/build.rs", 10),
        RepoFile::new("proj/lib.rs", 10),
        RepoFile::new("proj/huge.txt", 5 * 1024 * 1024),
    ];
    let kept = apply_filters(files, &config);
    assert_eq!(paths(&kept), vec!["proj/lib.rs", "proj/huge.txt"]);
}

#[test]
fn wildcard_patterns() {
    let mut config = Config::default();
    config.ignore_patterns = vec!["*".to_string()];
    let kept = apply_filters(vec![RepoFile::new("a/b.txt", 1)], &config);
    assert!(kept.is_empty());
    config.ignore_patterns = vec!["a/*".to_string(), "*temp*".to_string(), "exact.md".to_string()];
    let files = vec![
        RepoFile::new("a/b.txt", 1),
        RepoFile::new("x/tempfile.txt", 1),
        RepoFile::new("exact.md", 1),
        RepoFile::new("y/exact.md", 1),
    ];
    let kept = apply_filters(files, &config);
    assert_eq!(paths(&kept), vec!["y/exact.md"]);
}

#[test]
fn directories_ignored_by_default() {
    let config = Config::default();
    assert!(is_ignored_by_default("node_modules", true, &config));
    assert!(!is_ignored_by_default("node_modules", false, &config));
    assert!(!is_ignored_by_default("src", true, &config));
}

#[test]
fn language_ignores_by_name_or_directory() {
    let mut config = Config::default();
    config.languages.push((
        "rust".to_string(),
        LanguageConfig {
            extensions: vec!["rs".to_string()],
            ignore_files: vec!["build.rs".to_string()],
            ignore_directories: vec!["gen".to_string()],
            import_patterns: vec![],
            export_patterns: vec![],
        },
    ));
    let name: Vec<char> = "build.rs".chars().collect();
    let other: Vec<char> = "lib.rs".chars().collect();
    let comps = vec!["a".to_string(), "gen".to_string()];
    let plain = vec!["a".to_string()];
    let rs = "rs".to_string();
    assert!(overdoc::filter::ignored_by_languages_exec(&config, &rs, &name, &plain));
    assert!(overdoc::filter::ignored_by_languages_exec(&config, &rs, &other, &comps));
    assert!(!overdoc::filter::ignored_by_languages_exec(&config, &rs, &other, &plain));
    assert!(!overdoc::filter::ignored_by_languages_exec(&config, &"py".to_string(), &name, &comps));
}
