//! Files found in a source tree.
use vstd::prelude::*;
use crate::config::Config;
use crate::exports::string_views;
use crate::paths::{extension_of, lower_of, normal_components, path_extension, path_normal_components, to_lower};

verus! {

/// A file found while walking a source tree.
#[derive(Debug, Clone)]
pub struct RepoFile {
    /// Path of the file
    pub path: String,
    /// File extension in lower case, if any
    pub extension: Option<String>,
    /// File size in bytes
    pub size: u64,
    /// Whether some component of the path starts with a dot
    pub in_dot_directory: bool,
}

/// Some ordinary component of the path starts with a dot.
pub open spec fn in_dot_directory_spec(path: Seq<char>) -> bool {
    exists|i: int|
        0 <= i < path_normal_components(path).len() && #[trigger] path_normal_components(path)[i].len()
            > 0 && path_normal_components(path)[i][0] == '.'
}

impl RepoFile {
    /// The record of a file at `path` of `size` bytes.
    pub fn new(path: &str, size: u64) -> (r: RepoFile)
        ensures
            r.path@ == path@,
            r.size == size,
            r.in_dot_directory == in_dot_directory_spec(path@),
            match path_extension(path@) {
                Some(e) => r.extension matches Some(x) && x@ == lower_of(e),
                None => r.extension is None,
            },
    {
        let comps = normal_components(path);
        let ghost cv = comps@.map_values(|s: String| s@);
        let mut dot = false;
        let mut i: usize = 0;
        while i < comps.len()
            invariant
                i <= comps@.len(),
                cv == comps@.map_values(|s: String| s@),
                cv == path_normal_components(path@),
                dot == exists|m: int| 0 <= m < i && #[trigger] cv[m].len() > 0 && cv[m][0] == '.',
            decreases comps.len() - i,
        {
            let c = crate::text::chars_of(comps[i].as_str());
            assert(cv[i as int] == c@);
            if c.len() > 0 && c[0] == '.' {
                dot = true;
            }
            i = i + 1;
        }
        let extension = match extension_of(path) {
            Some(e) => Some(to_lower(e.as_str())),
            None => None,
        };
        RepoFile { path: path.to_owned(), extension, size, in_dot_directory: dot }
    }
}

/// A directory whose name is one of the configured ignored directories is
/// not walked.
pub fn is_ignored_by_default(file_name: &str, is_dir: bool, config: &Config) -> (r: bool)
    ensures
        r == (is_dir && string_views(config.ignore_directories@).contains(file_name@)),
{
    if !is_dir {
        return false;
    }
    let name: String = file_name.to_owned();
    let ghost dv = string_views(config.ignore_directories@);
    let mut i: usize = 0;
    while i < config.ignore_directories.len()
        invariant
            i <= config.ignore_directories@.len(),
            name@ == file_name@,
            dv == string_views(config.ignore_directories@),
            is_dir,
            forall|m: int| 0 <= m < i ==> dv[m] != file_name@,
        decreases config.ignore_directories.len() - i,
    {
        assert(dv[i as int] == config.ignore_directories@[i as int]@);
        if config.ignore_directories[i] == name {
            assert(dv[i as int] == file_name@);
            assert(dv.contains(file_name@));
            return true;
        }
        i = i + 1;
    }
    false
}

} // verus!
