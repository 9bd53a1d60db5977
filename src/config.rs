//! Analysis settings: ignore rules and the per-language pattern tables.
use vstd::prelude::*;

verus! {

/// The settings of an analysis.
#[derive(Debug)]
pub struct Config {
    /// Global ignore patterns for all languages
    pub ignore_patterns: Vec<String>,
    /// Directory names to ignore (e.g., node_modules, target)
    pub ignore_directories: Vec<String>,
    /// Each language's name and settings, in order
    pub languages: Vec<(String, LanguageConfig)>,
    /// Settings that apply where no language gives its own
    pub default_settings: DefaultSettings,
}

/// The settings of one programming language.
#[derive(Debug)]
pub struct LanguageConfig {
    /// File extensions for this language
    pub extensions: Vec<String>,
    /// Language-specific file names to ignore
    pub ignore_files: Vec<String>,
    /// Language-specific directory names to ignore
    pub ignore_directories: Vec<String>,
    /// Patterns whose first capture group names what a line imports
    pub import_patterns: Vec<String>,
    /// Patterns whose last capture group names what a line exports
    pub export_patterns: Vec<String>,
}

/// Settings used where a language gives none of its own.
#[derive(Debug)]
pub struct DefaultSettings {
    /// Whether to include files with no extension
    pub include_no_extension: bool,
    /// File size limit in KB (0 means no limit)
    pub max_file_size_kb: usize,
}

/// The default of `include_no_extension`.
pub fn default_as_false() -> (r: bool)
    ensures
        r == false,
{
    false
}

impl Default for DefaultSettings {
    fn default() -> (r: Self)
        ensures
            r.include_no_extension == false,
            r.max_file_size_kb == 1024,
    {
        DefaultSettings { include_no_extension: default_as_false(), max_file_size_kb: 1024 }
    }
}

impl Default for LanguageConfig {
    fn default() -> (r: Self)
        ensures
            r.extensions@.len() == 0,
            r.ignore_files@.len() == 0,
            r.ignore_directories@.len() == 0,
            r.import_patterns@.len() == 0,
            r.export_patterns@.len() == 0,
    {
        LanguageConfig {
            extensions: Vec::new(),
            ignore_files: Vec::new(),
            ignore_directories: Vec::new(),
            import_patterns: Vec::new(),
            export_patterns: Vec::new(),
        }
    }
}

impl Default for Config {
    fn default() -> (r: Self)
        ensures
            r.ignore_patterns@.map_values(|s: String| s@) == seq![
                "*.min.*"@,
                "*.map"@,
                "*.lock"@,
                ".gitignore"@,
                ".git/*"@,
            ],
            r.ignore_directories@.map_values(|s: String| s@) == seq![
                "node_modules"@,
                "target"@,
                "dist"@,
                "build"@,
                ".git"@,
            ],
            r.languages@.len() == 0,
            r.default_settings.include_no_extension == false,
            r.default_settings.max_file_size_kb == 1024,
    {
        let ignore_patterns = vec![
            "*.min.*".to_owned(),
            "*.map".to_owned(),
            "*.lock".to_owned(),
            ".gitignore".to_owned(),
            ".git/*".to_owned(),
        ];
        let ignore_directories = vec![
            "node_modules".to_owned(),
            "target".to_owned(),
            "dist".to_owned(),
            "build".to_owned(),
            ".git".to_owned(),
        ];
        assert(ignore_patterns@.map_values(|s: String| s@) =~= seq![
            "*.min.*"@,
            "*.map"@,
            "*.lock"@,
            ".gitignore"@,
            ".git/*"@,
        ]);
        assert(ignore_directories@.map_values(|s: String| s@) =~= seq![
            "node_modules"@,
            "target"@,
            "dist"@,
            "build"@,
            ".git"@,
        ]);
        Config {
            ignore_patterns,
            ignore_directories,
            languages: Vec::new(),
            default_settings: DefaultSettings::default(),
        }
    }
}

} // verus!
