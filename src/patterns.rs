//! Configured regular expressions, compiled once and applied line by line.
use vstd::prelude::*;

verus! {

#[verifier::external_type_specification]
#[verifier::external_body]
pub struct ExRegex(regex::Regex);

/// Whether `regex::Regex::new` accepts the pattern.
pub uninterp spec fn regex_compiles(pattern: Seq<char>) -> bool;

/// What `regex::Regex::captures_iter` yields for the pattern on the text: for
/// each successive non-overlapping match, the text of every capture group
/// (group 0 is the whole match), `None` for a group that took no part.
pub uninterp spec fn regex_captures(pattern: Seq<char>, text: Seq<char>) -> Seq<
    Seq<Option<Seq<char>>>,
>;

/// A pattern together with the regular expression compiled from it. Only
/// `compile` builds one, so `regex` is always compiled from `source`.
pub struct CompiledPattern {
    source: String,
    regex: regex::Regex,
}

impl CompiledPattern {
    pub closed spec fn source(&self) -> Seq<char> {
        self.source@
    }
}

pub open spec fn group_views(g: Seq<Option<Vec<char>>>) -> Seq<Option<Seq<char>>> {
    g.map_values(|o: Option<Vec<char>>| match o {
        Some(v) => Some(v@),
        None => None,
    })
}

pub open spec fn capture_views(c: Seq<Vec<Option<Vec<char>>>>) -> Seq<Seq<Option<Seq<char>>>> {
    c.map_values(|g: Vec<Option<Vec<char>>>| group_views(g@))
}

/// Relies on `regex::Regex::new`: it accepts exactly the patterns that
/// compile.
#[verifier::external_body]
pub fn compile(p: &String) -> (r: Option<CompiledPattern>)
    ensures
        r is Some <==> regex_compiles(p@),
        r matches Some(c) ==> c.source() == p@,
{
    regex::Regex::new(p).ok().map(|regex| CompiledPattern { source: p.clone(), regex })
}

/// Relies on `regex::Regex::captures_iter` and `regex::Captures::iter`: the
/// capture groups of every successive match in the text.
#[verifier::external_body]
pub fn captures(c: &CompiledPattern, text: &[char]) -> (r: Vec<Vec<Option<Vec<char>>>>)
    ensures
        capture_views(r@) == regex_captures(c.source(), text@),
{
    let haystack: String = text.iter().collect();
    c.regex.captures_iter(&haystack).map(
        |caps| caps.iter().map(|m| m.map(|m| m.as_str().chars().collect())).collect(),
    ).collect()
}

/// The patterns that compile, in order.
pub open spec fn compiling(patterns: Seq<Seq<char>>) -> Seq<Seq<char>>
    decreases patterns.len(),
{
    if patterns.len() == 0 {
        seq![]
    } else if regex_compiles(patterns.last()) {
        compiling(patterns.drop_last()).push(patterns.last())
    } else {
        compiling(patterns.drop_last())
    }
}

pub open spec fn sources(c: Seq<CompiledPattern>) -> Seq<Seq<char>> {
    c.map_values(|p: CompiledPattern| p.source())
}

/// Compiles each pattern, leaving out those that do not compile.
pub fn compile_all(patterns: &Vec<String>) -> (r: Vec<CompiledPattern>)
    ensures
        sources(r@) == compiling(patterns@.map_values(|s: String| s@)),
{
    let ghost pv = patterns@.map_values(|s: String| s@);
    let mut r: Vec<CompiledPattern> = Vec::new();
    let mut k: usize = 0;
    while k < patterns.len()
        invariant
            k <= patterns@.len(),
            pv == patterns@.map_values(|s: String| s@),
            sources(r@) == compiling(pv.subrange(0, k as int)),
        decreases patterns.len() - k,
    {
        assert(pv.subrange(0, k + 1).drop_last() =~= pv.subrange(0, k as int));
        assert(pv.subrange(0, k + 1).last() == patterns@[k as int]@);
        match compile(&patterns[k]) {
            Some(c) => {
                let ghost before = r@;
                r.push(c);
                assert(sources(r@) =~= sources(before).push(patterns@[k as int]@));
            },
            None => {},
        }
        k = k + 1;
    }
    assert(pv.subrange(0, k as int) =~= pv);
    r
}

} // verus!
