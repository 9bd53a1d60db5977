//! File paths, as `std::path::Path` reads them.
use vstd::prelude::*;

verus! {

/// What `Path::parent` gives for a path: the path without its final
/// component, or `None` for a root or an empty path.
pub uninterp spec fn path_parent(p: Seq<char>) -> Option<Seq<char>>;

/// Relies on `std::path::Path::parent`: the path without its final
/// component. The result is a leading part of the path that leaves out at
/// least that component, so it is shorter.
#[verifier::external_body]
pub fn parent_of(p: &str) -> (r: Option<String>)
    ensures
        r matches Some(q) ==> path_parent(p@) == Some(q@) && q@.len() < p@.len(),
        r is None ==> path_parent(p@) is None,
{
    std::path::Path::new(p).parent().map(|q| q.to_string_lossy().to_string())
}

/// The ancestor directories of a path, nearest first, up to the last one that
/// is not empty.
pub open spec fn ancestors(p: Seq<char>) -> Seq<Seq<char>>
    decreases p.len(),
{
    match path_parent(p) {
        Some(q) => if q.len() == 0 || q.len() >= p.len() {
            seq![]
        } else {
            seq![q] + ancestors(q)
        },
        None => seq![],
    }
}

pub proof fn lemma_ancestors_shorter(p: Seq<char>)
    ensures
        forall|i: int| 0 <= i < ancestors(p).len() ==> #[trigger] ancestors(p)[i].len() < p.len(),
        forall|i: int, j: int|
            0 <= i < j < ancestors(p).len() ==> ancestors(p)[j].len() < ancestors(p)[i].len(),
        ancestors(p).no_duplicates(),
    decreases p.len(),
{
    match path_parent(p) {
        Some(q) => {
            if q.len() == 0 || q.len() >= p.len() {
            } else {
                lemma_ancestors_shorter(q);
                let a = ancestors(p);
                assert(a == seq![q] + ancestors(q));
                assert forall|i: int| 0 <= i < a.len() implies #[trigger] a[i].len() < p.len() by {
                    if i > 0 {
                        assert(a[i] == ancestors(q)[i - 1]);
                    }
                }
                assert forall|i: int, j: int| 0 <= i < j < a.len() implies a[j].len() < a[i].len() by {
                    assert(a[j] == ancestors(q)[j - 1]);
                    if i > 0 {
                        assert(a[i] == ancestors(q)[i - 1]);
                    }
                }
            }
        },
        None => {},
    }
}

/// The ancestor directories of a path, nearest first.
pub fn ancestor_dirs(p: &String) -> (r: Vec<String>)
    ensures
        r@.map_values(|s: String| s@) == ancestors(p@),
{
    let mut r: Vec<String> = Vec::new();
    let mut current: String = p.clone();
    loop
        invariant
            r@.map_values(|s: String| s@) + ancestors(current@) == ancestors(p@),
        decreases current@.len(),
    {
        match parent_of(current.as_str()) {
            Some(q) => {
                if q.as_str().is_empty() {
                    assert(r@.map_values(|s: String| s@) =~= ancestors(p@));
                    return r;
                }
                proof {
                    assert(q@.len() != 0);
                    assert(ancestors(current@) == seq![q@] + ancestors(q@));
                }
                let next = q.clone();
                let ghost before = r@;
                r.push(q);
                assert(r@.map_values(|s: String| s@) =~= before.map_values(|s: String| s@).push(
                    next@,
                ));
                assert(r@.map_values(|s: String| s@) + ancestors(next@) =~= ancestors(p@));
                current = next;
            },
            None => {
                assert(r@.map_values(|s: String| s@) =~= ancestors(p@));
                return r;
            },
        }
    }
}

/// What `Path::extension` gives for a path: the text after the last `.` of
/// the file name, if the name has one that does not start it.
pub uninterp spec fn path_extension(p: Seq<char>) -> Option<Seq<char>>;

/// Relies on `std::path::Path::extension`: the extension of the file name.
#[verifier::external_body]
pub fn extension_of(p: &str) -> (r: Option<String>)
    ensures
        r matches Some(e) ==> path_extension(p@) == Some(e@),
        r is None ==> path_extension(p@) is None,
{
    std::path::Path::new(p).extension().map(|e| e.to_string_lossy().to_string())
}

/// What `str::to_lowercase` gives for the text.
pub uninterp spec fn lower_of(s: Seq<char>) -> Seq<char>;

/// Relies on `str::to_lowercase`: the text in lower case, which depends on
/// the characters alone.
#[verifier::external_body]
pub fn to_lower(s: &str) -> (r: String)
    ensures
        r@ == lower_of(s@),
{
    s.to_lowercase()
}

/// What `Path::file_name` gives for a path: its final component, unless
/// that is `..` or there is none.
pub uninterp spec fn path_file_name(p: Seq<char>) -> Option<Seq<char>>;

/// Relies on `std::path::Path::file_name`: the final component of the path.
#[verifier::external_body]
pub fn file_name_of(p: &str) -> (r: Option<String>)
    ensures
        r matches Some(n) ==> path_file_name(p@) == Some(n@),
        r is None ==> path_file_name(p@) is None,
{
    std::path::Path::new(p).file_name().map(|n| n.to_string_lossy().to_string())
}

/// The names of the ordinary components of a path (`Path::components`
/// without the root, prefix, `.` and `..` components), in order.
pub uninterp spec fn path_normal_components(p: Seq<char>) -> Seq<Seq<char>>;

/// Relies on `std::path::Path::components`: the path's components, of which
/// the ordinary ones are kept.
#[verifier::external_body]
pub fn normal_components(p: &str) -> (r: Vec<String>)
    ensures
        r@.map_values(|s: String| s@) == path_normal_components(p@),
{
    std::path::Path::new(p).components().filter_map(|c| match c {
        std::path::Component::Normal(n) => Some(n.to_string_lossy().to_string()),
        _ => None,
    }).collect()
}

} // verus!
