//! Which of the files found in a source tree are analyzed.
use vstd::prelude::*;
use crate::config::{Config, LanguageConfig};
use crate::exports::string_views;
use crate::paths::{file_name_of, normal_components, path_file_name, path_normal_components};
use crate::text::{contains, contains_str, ends_with, same_chars, starts_with, chars_of, sub_chars};
use crate::traversal::RepoFile;

verus! {

/// A path matches a pattern: `*` matches everything, `*x*` paths that hold
/// `x`, `*x` paths that end with `x`, `x*` paths that start with `x`, and
/// any other pattern only the path equal to it.
pub open spec fn pattern_matches_spec(path: Seq<char>, pattern: Seq<char>) -> bool {
    if pattern == "*"@ {
        true
    } else if pattern.len() >= 2 && pattern[0] == '*' && pattern.last() == '*' {
        contains(path, pattern.subrange(1, pattern.len() - 1))
    } else if pattern.len() >= 1 && pattern[0] == '*' {
        ends_with(path, pattern.subrange(1, pattern.len() as int))
    } else if pattern.len() >= 1 && pattern.last() == '*' {
        starts_with(path, pattern.subrange(0, pattern.len() - 1))
    } else {
        path == pattern
    }
}

/// Whether the path matches the wildcard pattern.
fn pattern_matches(path: &[char], pattern: &[char]) -> (r: bool)
    ensures
        r == pattern_matches_spec(path@, pattern@),
{
    let star: Vec<char> = vec!['*'];
    proof {
        reveal_strlit("*");
        assert(star@ =~= "*"@);
    }
    if same_chars(pattern, &star) {
        return true;
    }
    let n = pattern.len();
    if n >= 2 && pattern[0] == '*' && pattern[n - 1] == '*' {
        let inner = sub_chars(pattern, 1, n - 1);
        crate::text::contains_chars(path, &inner)
    } else if n >= 1 && pattern[0] == '*' {
        let suffix = sub_chars(pattern, 1, n);
        if suffix.len() > path.len() {
            false
        } else {
            crate::text::matches_at_exec(path, &suffix, path.len() - suffix.len())
        }
    } else if n >= 1 && pattern[n - 1] == '*' {
        let prefix = sub_chars(pattern, 0, n - 1);
        crate::text::matches_at_exec(path, &prefix, 0)
    } else {
        same_chars(path, pattern)
    }
}

pub open spec fn matches_any_spec(path: Seq<char>, patterns: Seq<Seq<char>>) -> bool {
    exists|i: int| 0 <= i < patterns.len() && #[trigger] pattern_matches_spec(path, patterns[i])
}

/// Whether the path matches one of the patterns.
fn matches_any_pattern(path: &[char], patterns: &Vec<String>) -> (r: bool)
    ensures
        r == matches_any_spec(path@, string_views(patterns@)),
{
    let ghost pv = string_views(patterns@);
    let mut i: usize = 0;
    while i < patterns.len()
        invariant
            i <= patterns@.len(),
            pv == string_views(patterns@),
            forall|m: int| 0 <= m < i ==> !#[trigger] pattern_matches_spec(path@, pv[m]),
        decreases patterns.len() - i,
    {
        let pc = chars_of(patterns[i].as_str());
        assert(pv[i as int] == pc@);
        if pattern_matches(path, &pc) {
            return true;
        }
        i = i + 1;
    }
    false
}

/// Language `lang` ignores a file of this name with these path components.
pub open spec fn language_ignores(lang: LanguageConfig, name: Seq<char>, comps: Seq<Seq<char>>) -> bool {
    string_views(lang.ignore_files@).contains(name) || exists|d: int|
        0 <= d < lang.ignore_directories@.len() && comps.contains(
            #[trigger] lang.ignore_directories@[d]@,
        )
}

/// Some language that lists the extension ignores the file.
pub open spec fn ignored_by_languages(
    langs: Seq<(String, LanguageConfig)>,
    ext: Seq<char>,
    name: Seq<char>,
    comps: Seq<Seq<char>>,
) -> bool {
    exists|k: int|
        0 <= k < langs.len() && string_views(langs[k].1.extensions@).contains(ext)
            && #[trigger] language_ignores(langs[k].1, name, comps)
}

pub open spec fn has_ext(f: RepoFile, e: Seq<char>) -> bool {
    f.extension matches Some(x) && x@ == e
}

/// The ignore rules, in order: sources under a `src` path and script files
/// outside dependency directories are kept; then files in dot directories,
/// files over the size limit, files matching a global pattern, files that a
/// language of their extension ignores by name or directory, and files
/// without extension (unless these are included) are ignored.
pub open spec fn ignored(f: RepoFile, config: Config) -> bool {
    let path = f.path@;
    let name = match path_file_name(path) {
        Some(n) => n,
        None => seq![],
    };
    if contains(path, "src"@) && has_ext(f, "rs"@) {
        false
    } else if (has_ext(f, "py"@) || has_ext(f, "ts"@) || has_ext(f, "tsx"@) || has_ext(f, "js"@))
        && !contains(path, "node_modules"@) && !contains(path, "venv"@) && !contains(
        path,
        ".venv"@,
    ) {
        false
    } else if f.in_dot_directory {
        true
    } else if config.default_settings.max_file_size_kb > 0 && f.size / 1024
        > config.default_settings.max_file_size_kb {
        true
    } else if matches_any_spec(path, string_views(config.ignore_patterns@)) {
        true
    } else {
        match f.extension {
            Some(ext) => ignored_by_languages(
                config.languages@,
                ext@,
                name,
                path_normal_components(path),
            ),
            None => !config.default_settings.include_no_extension,
        }
    }
}

fn ext_is(f: &RepoFile, e: &str) -> (r: bool)
    ensures
        r == has_ext(*f, e@),
{
    match &f.extension {
        Some(x) => {
            let xc = chars_of(x.as_str());
            let ec = chars_of(e);
            same_chars(&xc, &ec)
        },
        None => false,
    }
}

fn contains_view(list: &Vec<String>, s: &Vec<char>) -> (r: bool)
    ensures
        r == string_views(list@).contains(s@),
{
    let ghost lv = string_views(list@);
    let mut i: usize = 0;
    while i < list.len()
        invariant
            i <= list@.len(),
            lv == string_views(list@),
            forall|m: int| 0 <= m < i ==> lv[m] != s@,
        decreases list.len() - i,
    {
        let c = chars_of(list[i].as_str());
        assert(lv[i as int] == c@);
        if same_chars(&c, s) {
            return true;
        }
        i = i + 1;
    }
    false
}

fn language_ignores_exec(lang: &LanguageConfig, name: &Vec<char>, comps: &Vec<String>) -> (r: bool)
    ensures
        r == language_ignores(*lang, name@, string_views(comps@)),
{
    if contains_view(&lang.ignore_files, name) {
        return true;
    }
    let mut d: usize = 0;
    while d < lang.ignore_directories.len()
        invariant
            d <= lang.ignore_directories@.len(),
            forall|m: int|
                0 <= m < d ==> !string_views(comps@).contains(
                    #[trigger] lang.ignore_directories@[m]@,
                ),
        decreases lang.ignore_directories.len() - d,
    {
        let dc = chars_of(lang.ignore_directories[d].as_str());
        if contains_view(comps, &dc) {
            return true;
        }
        d = d + 1;
    }
    false
}

/// Whether some language that lists the extension ignores a file of this
/// name with these path components.
pub fn ignored_by_languages_exec(config: &Config, ext: &String, name: &Vec<char>, comps: &Vec<String>) -> (r: bool)
    ensures
        r == ignored_by_languages(config.languages@, ext@, name@, string_views(comps@)),
{
    let langs = &config.languages;
    let mut k: usize = 0;
    while k < langs.len()
        invariant
            k <= langs@.len(),
            langs@ == config.languages@,
            forall|m: int|
                0 <= m < k ==> !(string_views(langs@[m].1.extensions@).contains(ext@)
                    && #[trigger] language_ignores(langs@[m].1, name@, string_views(comps@))),
        decreases langs.len() - k,
    {
        let ec = chars_of(ext.as_str());
        if contains_view(&langs[k].1.extensions, &ec) && language_ignores_exec(
            &langs[k].1,
            name,
            comps,
        ) {
            assert(string_views(langs@[k as int].1.extensions@).contains(ext@));
            assert(language_ignores(langs@[k as int].1, name@, string_views(comps@)));
            return true;
        }
        k = k + 1;
    }
    false
}

/// Whether the file is left out of the analysis.
fn should_ignore_file(file: &RepoFile, config: &Config) -> (r: bool)
    ensures
        r == ignored(*file, *config),
{
    let path = chars_of(file.path.as_str());
    let name: Vec<char> = match file_name_of(file.path.as_str()) {
        Some(n) => chars_of(n.as_str()),
        None => Vec::new(),
    };
    proof {
        if path_file_name(file.path@) is None {
            assert(name@ =~= Seq::<char>::empty());
        }
        assert(name@ == match path_file_name(file.path@) {
            Some(n) => n,
            None => seq![],
        });
        assert(path@ == file.path@);
    }
    if contains_str(&path, "src") && ext_is(file, "rs") {
        return false;
    }
    if (ext_is(file, "py") || ext_is(file, "ts") || ext_is(file, "tsx") || ext_is(file, "js"))
        && !contains_str(&path, "node_modules") && !contains_str(&path, "venv")
        && !contains_str(&path, ".venv") {
        return false;
    }
    if file.in_dot_directory {
        return true;
    }
    if config.default_settings.max_file_size_kb > 0 {
        let size_kb = file.size / 1024;
        if size_kb > config.default_settings.max_file_size_kb as u64 {
            return true;
        }
    }
    if matches_any_pattern(&path, &config.ignore_patterns) {
        return true;
    }
    match &file.extension {
        Some(ext) => {
            let comps = normal_components(file.path.as_str());
            ignored_by_languages_exec(config, ext, &name, &comps)
        },
        None => !config.default_settings.include_no_extension,
    }
}

fn copy_file(f: &RepoFile) -> (r: RepoFile)
    ensures
        r == *f,
{
    RepoFile {
        path: f.path.clone(),
        extension: match &f.extension {
            Some(e) => Some(e.clone()),
            None => None,
        },
        size: f.size,
        in_dot_directory: f.in_dot_directory,
    }
}

/// The files that the rules keep, in order.
pub open spec fn kept_files(files: Seq<RepoFile>, config: Config) -> Seq<RepoFile>
    decreases files.len(),
{
    if files.len() == 0 {
        seq![]
    } else {
        let prev = kept_files(files.drop_last(), config);
        if ignored(files.last(), config) {
            prev
        } else {
            prev.push(files.last())
        }
    }
}

/// Keeps the files that no ignore rule leaves out, in order.
pub fn apply_filters(files: Vec<RepoFile>, config: &Config) -> (r: Vec<RepoFile>)
    ensures
        r@ == kept_files(files@, *config),
{
    let mut r: Vec<RepoFile> = Vec::new();
    let mut k: usize = 0;
    while k < files.len()
        invariant
            k <= files@.len(),
            r@ == kept_files(files@.subrange(0, k as int), *config),
        decreases files.len() - k,
    {
        assert(files@.subrange(0, k + 1).drop_last() =~= files@.subrange(0, k as int));
        assert(files@.subrange(0, k + 1).last() == files@[k as int]);
        if !should_ignore_file(&files[k], config) {
            r.push(copy_file(&files[k]));
        }
        k = k + 1;
    }
    assert(files@.subrange(0, k as int) =~= files@);
    r
}

} // verus!
