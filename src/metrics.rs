//! Per-file metrics: line classification, declaration counts, cyclomatic and
//! cognitive complexity, nesting depth and Halstead tallies. All are counts;
//! the formulas that take logarithms of them are left to the caller.
use vstd::prelude::*;
use crate::paths::{extension_of, lower_of, path_extension, to_lower};
use crate::numbers::{char_alphanumeric, is_alphanumeric, is_ascii_digit, is_ascii_digit_exec, parses_as_float, parses_as_float_exec};
use crate::text::{
    chars_of, contains, contains_any, contains_any_exec, contains_str, count_char,
    count_char_exec, count_matches, count_matches_exec, ends_with, lemma_count_char_le,
    lemma_count_from_le, lemma_lines_bounds, lines_exec, lines_of, literal_list, starts_with,
    starts_with_str, trim, trim_chars, views,
};

verus! {

/// Language families whose heuristics differ.
#[derive(Debug, Clone, Copy, PartialEq, Eq, Structural)]
pub enum Language {
    /// `rs` files
    Rust,
    /// `js`, `ts`, `tsx` and `jsx` files
    Script,
    /// everything else
    Other,
}

/// The family of a lower-case file extension.
pub open spec fn language_of(ext: Seq<char>) -> Language {
    if ext == "rs"@ {
        Language::Rust
    } else if ext == "js"@ || ext == "ts"@ || ext == "tsx"@ || ext == "jsx"@ {
        Language::Script
    } else {
        Language::Other
    }
}

/// The family of a lower-case file extension.
pub fn language_for(ext: &str) -> (r: Language)
    ensures
        r == language_of(ext@),
{
    let e: String = ext.to_owned();
    if e == "rs".to_owned() {
        Language::Rust
    } else if e == "js".to_owned() || e == "ts".to_owned() || e == "tsx".to_owned() || e
        == "jsx".to_owned() {
        Language::Script
    } else {
        Language::Other
    }
}

/// Keywords whose lines count as declarations, per family.
pub open spec fn decl_keywords(lang: Language) -> Seq<Seq<char>> {
    match lang {
        Language::Rust => seq!["struct "@, "enum "@, "trait "@, "impl "@, "type "@],
        Language::Script => seq!["class "@, "interface "@, "type "@, "enum "@],
        Language::Other => seq![],
    }
}

/// Keywords that make a line a branch for cyclomatic complexity.
pub open spec fn branch_keywords(lang: Language) -> Seq<Seq<char>> {
    match lang {
        Language::Rust => seq!["if "@, "else "@, "match "@, "for "@, "while "@],
        Language::Script => seq!["if "@, "else "@, "switch "@, "case "@, "for "@, "while "@, "? "@],
        Language::Other => seq!["if "@, "else "@, "for "@, "while "@],
    }
}

fn decl_keywords_exec(lang: Language) -> (r: Vec<Vec<char>>)
    ensures
        views(r@) == decl_keywords(lang),
{
    match lang {
        Language::Rust => {
            let a = ["struct ", "enum ", "trait ", "impl ", "type "];
            let r = literal_list(&a);
            assert(views(r@) =~= decl_keywords(lang));
            r
        },
        Language::Script => {
            let a = ["class ", "interface ", "type ", "enum "];
            let r = literal_list(&a);
            assert(views(r@) =~= decl_keywords(lang));
            r
        },
        Language::Other => {
            let r: Vec<Vec<char>> = Vec::new();
            assert(views(r@) =~= decl_keywords(lang));
            r
        },
    }
}

fn branch_keywords_exec(lang: Language) -> (r: Vec<Vec<char>>)
    ensures
        views(r@) == branch_keywords(lang),
{
    match lang {
        Language::Rust => {
            let a = ["if ", "else ", "match ", "for ", "while "];
            let r = literal_list(&a);
            assert(views(r@) =~= branch_keywords(lang));
            r
        },
        Language::Script => {
            let a = ["if ", "else ", "switch ", "case ", "for ", "while ", "? "];
            let r = literal_list(&a);
            assert(views(r@) =~= branch_keywords(lang));
            r
        },
        Language::Other => {
            let a = ["if ", "else ", "for ", "while "];
            let r = literal_list(&a);
            assert(views(r@) =~= branch_keywords(lang));
            r
        },
    }
}

/// A code line that defines a function.
pub open spec fn is_function_line(lang: Language, t: Seq<char>) -> bool {
    match lang {
        Language::Rust => contains(t, "fn "@) && !contains(t, ";"@),
        Language::Script => (contains(t, "function "@) || contains(t, "=>"@)) && !contains(t, ";"@),
        Language::Other => false,
    }
}

/// What the line classification has counted so far.
pub struct LineState {
    pub in_block: bool,
    pub code: nat,
    pub comment: nat,
    pub blank: nat,
    pub functions: nat,
    /// one count per declaration keyword
    pub decls: Seq<nat>,
    /// code lines that branch and do not end a statement
    pub branches: nat,
}

pub open spec fn code_step(lang: Language, s: LineState, t: Seq<char>) -> LineState {
    let kws = decl_keywords(lang);
    LineState {
        code: s.code + 1,
        functions: s.functions + if is_function_line(lang, t) {
            1nat
        } else {
            0nat
        },
        decls: Seq::new(
            s.decls.len(),
            |i: int|
                s.decls[i] + if contains(t, kws[i]) && !contains(t, ";"@) {
                    1nat
                } else {
                    0nat
                },
        ),
        branches: s.branches + if contains_any(t, branch_keywords(lang)) && !ends_with(t, ";"@) {
            1nat
        } else {
            0nat
        },
        ..s
    }
}

/// One line's effect on the classification: blank, comment (tracking block
/// comments), or code.
pub open spec fn line_step(lang: Language, s: LineState, line: Seq<char>) -> LineState {
    let t = trim(line);
    if t.len() == 0 {
        LineState { blank: s.blank + 1, ..s }
    } else if lang == Language::Other {
        if starts_with(t, "#"@) || starts_with(t, "//"@) {
            LineState { comment: s.comment + 1, ..s }
        } else {
            code_step(lang, s, t)
        }
    } else if s.in_block {
        LineState { comment: s.comment + 1, in_block: !contains(t, "*/"@), ..s }
    } else if starts_with(t, "//"@) {
        LineState { comment: s.comment + 1, ..s }
    } else if starts_with(t, "/*"@) {
        LineState { comment: s.comment + 1, in_block: !contains(t, "*/"@), ..s }
    } else {
        code_step(lang, s, t)
    }
}

/// The classification of the lines, in order.
pub open spec fn line_tally(lang: Language, lines: Seq<Seq<char>>) -> LineState
    decreases lines.len(),
{
    if lines.len() == 0 {
        LineState {
            in_block: false,
            code: 0,
            comment: 0,
            blank: 0,
            functions: 0,
            decls: Seq::new(decl_keywords(lang).len(), |i: int| 0nat),
            branches: 0,
        }
    } else {
        line_step(lang, line_tally(lang, lines.drop_last()), lines.last())
    }
}

/// Line counts of a file, with its function and declaration counts and the
/// number of branching code lines.
#[derive(Debug)]
pub struct LineCounts {
    pub code_lines: usize,
    pub comment_lines: usize,
    pub blank_lines: usize,
    pub function_count: usize,
    /// one count per declaration keyword of the file's family
    pub declarations: Vec<usize>,
    pub branch_lines: usize,
}

pub open spec fn counts_match(c: LineCounts, s: LineState) -> bool {
    &&& c.code_lines == s.code
    &&& c.comment_lines == s.comment
    &&& c.blank_lines == s.blank
    &&& c.function_count == s.functions
    &&& c.declarations@.len() == s.decls.len()
    &&& forall|i: int| 0 <= i < s.decls.len() ==> #[trigger] c.declarations@[i] == s.decls[i]
    &&& c.branch_lines == s.branches
}

/// Classifies each line as blank, comment or code, counting functions,
/// declarations and branching code lines on the way.
pub fn classify_lines(lang: Language, lines: &Vec<Vec<char>>) -> (r: LineCounts)
    ensures
        counts_match(r, line_tally(lang, views(lines@))),
        r.branch_lines <= lines@.len(),
        r.declarations@.len() == decl_keywords(lang).len(),
{
    let ghost lv = views(lines@);
    let kws = decl_keywords_exec(lang);
    let branch = branch_keywords_exec(lang);
    let mut decls: Vec<usize> = Vec::new();
    let mut d: usize = 0;
    while d < kws.len()
        invariant
            d <= kws@.len(),
            decls@.len() == d,
            forall|i: int| 0 <= i < d ==> decls@[i] == 0,
        decreases kws.len() - d,
    {
        decls.push(0);
        d = d + 1;
    }
    let mut c = LineCounts {
        code_lines: 0,
        comment_lines: 0,
        blank_lines: 0,
        function_count: 0,
        declarations: decls,
        branch_lines: 0,
    };
    let mut in_block = false;
    let mut k: usize = 0;
    proof {
        assert(lv.subrange(0, 0) =~= Seq::<Seq<char>>::empty());
    }
    while k < lines.len()
        invariant
            k <= lines@.len(),
            lv == views(lines@),
            views(kws@) == decl_keywords(lang),
            views(branch@) == branch_keywords(lang),
            counts_match(c, line_tally(lang, lv.subrange(0, k as int))),
            in_block == line_tally(lang, lv.subrange(0, k as int)).in_block,
            c.declarations@.len() == kws@.len(),
            c.code_lines <= k,
            c.comment_lines <= k,
            c.blank_lines <= k,
            c.function_count <= k,
            c.branch_lines <= k,
            forall|i: int| 0 <= i < c.declarations@.len() ==> #[trigger] c.declarations@[i] <= k,
        decreases lines.len() - k,
    {
        let ghost prev = line_tally(lang, lv.subrange(0, k as int));
        assert(lv.subrange(0, k + 1).drop_last() =~= lv.subrange(0, k as int));
        assert(lv.subrange(0, k + 1).last() == lines@[k as int]@);
        let t = trim_chars(&lines[k]);
        if t.len() == 0 {
            c.blank_lines = c.blank_lines + 1;
        } else if (lang == Language::Other && !(starts_with_str(&t, "#") || starts_with_str(&t, "//")))
            || (lang != Language::Other && !in_block && !starts_with_str(&t, "//")
            && !starts_with_str(&t, "/*")) {
            c.code_lines = c.code_lines + 1;
            let semi = contains_str(&t, ";");
            let is_fn = match lang {
                Language::Rust => contains_str(&t, "fn ") && !semi,
                Language::Script => (contains_str(&t, "function ") || contains_str(&t, "=>"))
                    && !semi,
                Language::Other => false,
            };
            if is_fn {
                c.function_count = c.function_count + 1;
            }
            add_declarations(&mut c.declarations, &kws, &t, semi, k, lang);
            if contains_any_exec(&t, &branch) && !ends_with_str(&t, ";") {
                c.branch_lines = c.branch_lines + 1;
            }
            proof {
                let next = line_tally(lang, lv.subrange(0, k + 1));
                assert(next == code_step(lang, prev, t@));
                assert(c.declarations@.len() == next.decls.len());
            }
        } else {
            c.comment_lines = c.comment_lines + 1;
            let opens = starts_with_str(&t, "/*");
            proof {
                reveal_strlit("//");
                reveal_strlit("/*");
                if starts_with(t@, "//"@) && opens {
                    assert(t@.subrange(0, 2)[1] == '/');
                    assert(t@.subrange(0, 2)[1] == '*');
                }
            }
            if lang != Language::Other && (in_block || opens) {
                in_block = !contains_str(&t, "*/");
            }
            proof {
                let next = line_tally(lang, lv.subrange(0, k + 1));
                assert(next == line_step(lang, prev, lines@[k as int]@));
                assert(in_block == next.in_block);
            }
        }
        k = k + 1;
    }
    assert(lv.subrange(0, k as int) =~= lv);
    c
}

fn add_declarations(decls: &mut Vec<usize>, kws: &Vec<Vec<char>>, t: &Vec<char>, semi: bool, k: usize, lang: Language)
    requires
        views(kws@) == decl_keywords(lang),
        old(decls)@.len() == kws@.len(),
        semi == contains(t@, ";"@),
        k < usize::MAX,
        forall|m: int| 0 <= m < old(decls)@.len() ==> #[trigger] old(decls)@[m] <= k,
    ensures
        final(decls)@.len() == old(decls)@.len(),
        forall|m: int| 0 <= m < final(decls)@.len() ==> #[trigger] final(decls)@[m] <= k + 1,
        forall|m: int|
            0 <= m < final(decls)@.len() ==> #[trigger] final(decls)@[m] == old(decls)@[m] + if contains(
                t@,
                decl_keywords(lang)[m],
            ) && !semi {
                1int
            } else {
                0int
            },
{
    let ghost old_decls = decls@;
    let mut i: usize = 0;
    while i < kws.len()
        invariant
            i <= kws@.len(),
            k < usize::MAX,
            views(kws@) == decl_keywords(lang),
            decls@.len() == kws@.len(),
            old_decls.len() == kws@.len(),
            old_decls == old(decls)@,
            semi == contains(t@, ";"@),
            forall|m: int| 0 <= m < old_decls.len() ==> #[trigger] old_decls[m] <= k,
            forall|m: int|
                0 <= m < i ==> #[trigger] decls@[m] == old_decls[m] + if contains(
                    t@,
                    decl_keywords(lang)[m],
                ) && !semi {
                    1int
                } else {
                    0int
                },
            forall|m: int| i <= m < kws@.len() ==> #[trigger] decls@[m] == old_decls[m],
        decreases kws.len() - i,
    {
        assert(views(kws@)[i as int] == kws@[i as int]@);
        if !semi && contains_chars_vec(t, &kws[i]) {
            let v = decls[i];
            assert(v == old_decls[i as int]);
            decls.set(i, v + 1);
        }
        i = i + 1;
    }
}

fn contains_chars_vec(t: &Vec<char>, p: &Vec<char>) -> (r: bool)
    ensures
        r == contains(t@, p@),
{
    crate::text::contains_chars(t, p)
}

fn ends_with_str(t: &Vec<char>, p: &str) -> (r: bool)
    ensures
        r == ends_with(t@, p@),
{
    let pc = chars_of(p);
    if pc.len() > t.len() {
        return false;
    }
    crate::text::matches_at_exec(t, &pc, t.len() - pc.len())
}

/// Files of this many characters or more get no complexity analysis.
pub const COMPLEXITY_SIZE_LIMIT: usize = 1048576;

/// The lines are those of a text under the complexity size limit.
pub open spec fn lines_in_limit(lines: Seq<Seq<char>>) -> bool {
    lines.len() <= COMPLEXITY_SIZE_LIMIT + 1 && forall|i: int|
        0 <= i < lines.len() ==> #[trigger] lines[i].len() <= COMPLEXITY_SIZE_LIMIT
}

pub open spec fn bracket_opens(t: Seq<char>) -> int {
    (count_char(t, '{') + count_char(t, '(') + count_char(t, '[')) as int
}

pub open spec fn bracket_closes(t: Seq<char>) -> int {
    (count_char(t, '}') + count_char(t, ')') + count_char(t, ']')) as int
}

/// Brackets opened minus brackets closed, over the lines.
pub open spec fn depth_after(lines: Seq<Seq<char>>) -> int
    decreases lines.len(),
{
    if lines.len() == 0 {
        0
    } else {
        depth_after(lines.drop_last()) + bracket_opens(trim(lines.last())) - bracket_closes(
            trim(lines.last()),
        )
    }
}

/// The deepest bracket nesting seen at the end of any line, which may be
/// negative; 0 for a text without lines.
pub open spec fn max_depth(lines: Seq<Seq<char>>) -> int
    decreases lines.len(),
{
    if lines.len() == 0 {
        0
    } else if lines.len() == 1 {
        depth_after(lines)
    } else {
        let m = max_depth(lines.drop_last());
        let d = depth_after(lines);
        if d > m {
            d
        } else {
            m
        }
    }
}

/// The deepest bracket nesting over the lines.
pub fn calculate_max_nesting(lines: &Vec<Vec<char>>) -> (r: i64)
    requires
        lines_in_limit(views(lines@)),
    ensures
        r == max_depth(views(lines@)),
{
    let ghost lv = views(lines@);
    let mut depth: i64 = 0;
    let mut best: i64 = 0;
    let mut k: usize = 0;
    proof {
        assert(lv.subrange(0, 0) =~= Seq::<Seq<char>>::empty());
    }
    while k < lines.len()
        invariant
            k <= lines@.len(),
            lv == views(lines@),
            lines_in_limit(lv),
            depth == depth_after(lv.subrange(0, k as int)),
            best == max_depth(lv.subrange(0, k as int)),
            0 <= depth + 3 * COMPLEXITY_SIZE_LIMIT * k,
            depth <= 3 * COMPLEXITY_SIZE_LIMIT * k,
            0 <= best + 3 * COMPLEXITY_SIZE_LIMIT * k,
            best <= 3 * COMPLEXITY_SIZE_LIMIT * k,
        decreases lines.len() - k,
    {
        assert(lv.subrange(0, k + 1).drop_last() =~= lv.subrange(0, k as int));
        assert(lv.subrange(0, k + 1).last() == lines@[k as int]@);
        assert(lv[k as int] == lines@[k as int]@);
        let t = trim_chars(&lines[k]);
        proof {
            lemma_trim_len(lines@[k as int]@);
            lemma_count_char_le(t@, '{');
            lemma_count_char_le(t@, '(');
            lemma_count_char_le(t@, '[');
            lemma_count_char_le(t@, '}');
            lemma_count_char_le(t@, ')');
            lemma_count_char_le(t@, ']');
        }
        assert(lv[k as int].len() <= COMPLEXITY_SIZE_LIMIT);
        assert(k <= COMPLEXITY_SIZE_LIMIT);
        assert(3 * COMPLEXITY_SIZE_LIMIT * k <= 3 * COMPLEXITY_SIZE_LIMIT * COMPLEXITY_SIZE_LIMIT)
            by (nonlinear_arith)
            requires
                k <= COMPLEXITY_SIZE_LIMIT,
        ;
        let o = count_char_exec(&t, '{') + count_char_exec(&t, '(') + count_char_exec(&t, '[');
        let c = count_char_exec(&t, '}') + count_char_exec(&t, ')') + count_char_exec(&t, ']');
        assert(t@.len() <= COMPLEXITY_SIZE_LIMIT);
        assert(o <= 3 * COMPLEXITY_SIZE_LIMIT);
        assert(c <= 3 * COMPLEXITY_SIZE_LIMIT);
        assert(3 * COMPLEXITY_SIZE_LIMIT * (k + 1) == 3 * COMPLEXITY_SIZE_LIMIT * k + 3
            * COMPLEXITY_SIZE_LIMIT) by (nonlinear_arith);
        let oi = o as i64;
        let ci = c as i64;
        assert(oi == o && ci == c);
        assert(depth + oi <= 3 * COMPLEXITY_SIZE_LIMIT * (k + 1));
        assert(3 * COMPLEXITY_SIZE_LIMIT * (k + 1) <= 3 * COMPLEXITY_SIZE_LIMIT * (
        COMPLEXITY_SIZE_LIMIT + 1)) by (nonlinear_arith)
            requires
                k <= COMPLEXITY_SIZE_LIMIT,
        ;
        assert(depth + oi - ci >= -(3 * COMPLEXITY_SIZE_LIMIT * (k + 1)));
        depth = depth + oi;
        depth = depth - ci;
        if k == 0 || depth > best {
            best = depth;
        }
        k = k + 1;
    }
    assert(lv.subrange(0, k as int) =~= lv);
    best
}

pub proof fn lemma_trim_len(s: Seq<char>)
    ensures
        trim(s).len() <= s.len(),
{
    lemma_trim_start_len(s);
    lemma_trim_end_len(crate::text::trim_start(s));
}

proof fn lemma_trim_start_len(s: Seq<char>)
    ensures
        crate::text::trim_start(s).len() <= s.len(),
    decreases s.len(),
{
    if s.len() > 0 && crate::text::is_white_space(s[0]) {
        lemma_trim_start_len(s.drop_first());
    }
}

proof fn lemma_trim_end_len(s: Seq<char>)
    ensures
        crate::text::trim_end(s).len() <= s.len(),
    decreases s.len(),
{
    if s.len() > 0 && crate::text::is_white_space(s.last()) {
        lemma_trim_end_len(s.drop_last());
    }
}

/// Keywords of control structures that add to cognitive complexity with
/// their nesting.
pub open spec fn primary_keywords(lang: Language) -> Seq<Seq<char>> {
    match lang {
        Language::Rust => seq!["if "@, "match "@, "for "@, "while "@],
        Language::Script => seq!["if "@, "for "@, "while "@, "switch "@],
        Language::Other => seq!["if "@, "for "@, "while "@],
    }
}

/// Keywords of alternative branches, which add a flat increment.
pub open spec fn secondary_keywords(lang: Language) -> Seq<Seq<char>> {
    match lang {
        Language::Script => seq!["else "@, "case "@],
        _ => seq!["else "@],
    }
}

fn primary_keywords_exec(lang: Language) -> (r: Vec<Vec<char>>)
    ensures
        views(r@) == primary_keywords(lang),
{
    match lang {
        Language::Rust => {
            let a = ["if ", "match ", "for ", "while "];
            let r = literal_list(&a);
            assert(views(r@) =~= primary_keywords(lang));
            r
        },
        Language::Script => {
            let a = ["if ", "for ", "while ", "switch "];
            let r = literal_list(&a);
            assert(views(r@) =~= primary_keywords(lang));
            r
        },
        Language::Other => {
            let a = ["if ", "for ", "while "];
            let r = literal_list(&a);
            assert(views(r@) =~= primary_keywords(lang));
            r
        },
    }
}

fn secondary_keywords_exec(lang: Language) -> (r: Vec<Vec<char>>)
    ensures
        views(r@) == secondary_keywords(lang),
{
    match lang {
        Language::Script => {
            let a = ["else ", "case "];
            let r = literal_list(&a);
            assert(views(r@) =~= secondary_keywords(lang));
            r
        },
        _ => {
            let a = ["else "];
            let r = literal_list(&a);
            assert(views(r@) =~= secondary_keywords(lang));
            r
        },
    }
}

/// A line that opens a closure or a function literal.
pub open spec fn opens_closure(lang: Language, t: Seq<char>) -> bool {
    match lang {
        Language::Rust => contains(t, "|"@) && contains(t, "| {"@),
        Language::Script => (contains(t, "=>"@) && contains(t, "{"@)) || (contains(t, "function"@)
            && contains(t, "{"@)),
        Language::Other => false,
    }
}

/// Cognitive complexity so far, in halves, and the current nesting level.
pub struct CognitiveState {
    pub halves: nat,
    pub nesting: nat,
}

/// One line's effect on cognitive complexity, counted in halves: a control
/// structure adds one plus the nesting level, an alternative branch, a
/// closure or a conditional expression one, each `&&` or `||` a half; an
/// opened block nests, closing braces unnest down to 0.
pub open spec fn cognitive_step(lang: Language, s: CognitiveState, line: Seq<char>) -> CognitiveState {
    let t = trim(line);
    let logical = count_matches(t, "&&"@) + count_matches(t, "||"@);
    let opens_block: nat = if contains(t, "{"@) {
        1
    } else {
        0
    };
    let base = if contains_any(t, primary_keywords(lang)) {
        CognitiveState { halves: s.halves + 2 * (1 + s.nesting), nesting: s.nesting + opens_block }
    } else if contains_any(t, secondary_keywords(lang)) {
        CognitiveState {
            halves: s.halves + 2,
            nesting: s.nesting + if contains(t, "{"@) && !contains(t, "if "@) {
                1nat
            } else {
                0nat
            },
        }
    } else if opens_closure(lang, t) {
        CognitiveState { halves: s.halves + 2, nesting: s.nesting + 1 }
    } else if lang == Language::Script && contains(t, " ? "@) {
        CognitiveState { halves: s.halves + 2, nesting: s.nesting }
    } else if contains(t, "}"@) {
        CognitiveState {
            halves: s.halves,
            nesting: if s.nesting >= count_char(t, '}') {
                (s.nesting - count_char(t, '}')) as nat
            } else {
                0
            },
        }
    } else {
        s
    };
    CognitiveState { halves: base.halves + logical, nesting: base.nesting }
}

pub open spec fn cognitive_tally(lang: Language, lines: Seq<Seq<char>>) -> CognitiveState
    decreases lines.len(),
{
    if lines.len() == 0 {
        CognitiveState { halves: 0, nesting: 0 }
    } else {
        cognitive_step(lang, cognitive_tally(lang, lines.drop_last()), lines.last())
    }
}

/// Cognitive complexity of the lines, in halves.
pub fn calculate_cognitive_complexity(lines: &Vec<Vec<char>>, lang: Language) -> (r: u64)
    requires
        lines_in_limit(views(lines@)),
    ensures
        r == cognitive_tally(lang, views(lines@)).halves,
{
    let ghost lv = views(lines@);
    let primary = primary_keywords_exec(lang);
    let secondary = secondary_keywords_exec(lang);
    let and_op = chars_of("&&");
    let or_op = chars_of("||");
    proof {
        reveal_strlit("&&");
        reveal_strlit("||");
        assert(lv.subrange(0, 0) =~= Seq::<Seq<char>>::empty());
    }
    let mut halves: u64 = 0;
    let mut nesting: usize = 0;
    let mut k: usize = 0;
    while k < lines.len()
        invariant
            k <= lines@.len(),
            lv == views(lines@),
            lines_in_limit(lv),
            views(primary@) == primary_keywords(lang),
            views(secondary@) == secondary_keywords(lang),
            and_op@ == "&&"@,
            or_op@ == "||"@,
            and_op@.len() == 2,
            or_op@.len() == 2,
            halves == cognitive_tally(lang, lv.subrange(0, k as int)).halves,
            nesting == cognitive_tally(lang, lv.subrange(0, k as int)).nesting,
            nesting <= k,
            halves <= k * (4 * COMPLEXITY_SIZE_LIMIT + 8),
        decreases lines.len() - k,
    {
        assert(lv.subrange(0, k + 1).drop_last() =~= lv.subrange(0, k as int));
        assert(lv.subrange(0, k + 1).last() == lines@[k as int]@);
        assert(lv[k as int] == lines@[k as int]@);
        let t = trim_chars(&lines[k]);
        proof {
            lemma_trim_len(lines@[k as int]@);
            lemma_count_from_le(t@, "&&"@, 0);
            lemma_count_from_le(t@, "||"@, 0);
        }
        assert(lv[k as int].len() <= COMPLEXITY_SIZE_LIMIT);
        assert(k <= COMPLEXITY_SIZE_LIMIT);
        assert(k * (4 * COMPLEXITY_SIZE_LIMIT + 8) <= COMPLEXITY_SIZE_LIMIT * (4
            * COMPLEXITY_SIZE_LIMIT + 8)) by (nonlinear_arith)
            requires
                k <= COMPLEXITY_SIZE_LIMIT,
        ;
        assert((k + 1) * (4 * COMPLEXITY_SIZE_LIMIT + 8) == k * (4 * COMPLEXITY_SIZE_LIMIT + 8) + (4
            * COMPLEXITY_SIZE_LIMIT + 8)) by (nonlinear_arith);
        let logical = count_matches_exec(&t, &and_op) + count_matches_exec(&t, &or_op);
        let block = contains_str(&t, "{");
        if contains_any_exec(&t, &primary) {
            halves = halves + 2 * (1 + nesting as u64);
            if block {
                nesting = nesting + 1;
            }
        } else if contains_any_exec(&t, &secondary) {
            halves = halves + 2;
            if block && !contains_str(&t, "if ") {
                nesting = nesting + 1;
            }
        } else if opens_closure_exec(lang, &t) {
            halves = halves + 2;
            nesting = nesting + 1;
        } else if lang == Language::Script && contains_str(&t, " ? ") {
            halves = halves + 2;
        } else if contains_str(&t, "}") {
            let closing = count_char_exec(&t, '}');
            nesting = nesting.saturating_sub(closing);
        }
        halves = halves + logical as u64;
        k = k + 1;
    }
    assert(lv.subrange(0, k as int) =~= lv);
    halves
}

fn opens_closure_exec(lang: Language, t: &Vec<char>) -> (r: bool)
    ensures
        r == opens_closure(lang, t@),
{
    match lang {
        Language::Rust => contains_str(t, "|") && contains_str(t, "| {"),
        Language::Script => (contains_str(t, "=>") && contains_str(t, "{")) || (contains_str(
            t,
            "function",
        ) && contains_str(t, "{")),
        Language::Other => false,
    }
}

/// A character that separates words (`numeric` false) or number literals
/// (`numeric` true).
pub open spec fn is_separator(c: char, numeric: bool) -> bool {
    if numeric {
        !is_ascii_digit(c) && c != '.'
    } else {
        !char_alphanumeric(c) && c != '_'
    }
}

/// The pieces between separators, as `str::split` with a character
/// predicate yields them (empty pieces included).
pub open spec fn pieces(s: Seq<char>, numeric: bool) -> Seq<Seq<char>>
    decreases s.len(),
{
    if s.len() == 0 {
        seq![seq![]]
    } else {
        let p = pieces(s.drop_last(), numeric);
        if is_separator(s.last(), numeric) {
            p.push(seq![])
        } else {
            p.update(p.len() - 1, p.last().push(s.last()))
        }
    }
}

pub proof fn lemma_pieces_nonempty(s: Seq<char>, numeric: bool)
    ensures
        pieces(s, numeric).len() >= 1,
        pieces(s, numeric).len() <= s.len() + 1,
        forall|i: int| 0 <= i < pieces(s, numeric).len() ==> #[trigger] pieces(s, numeric)[i].len() <= s.len(),
    decreases s.len(),
{
    if s.len() > 0 {
        lemma_pieces_nonempty(s.drop_last(), numeric);
        let p = pieces(s.drop_last(), numeric);
        let q = pieces(s, numeric);
        assert forall|i: int| 0 <= i < q.len() implies #[trigger] q[i].len() <= s.len() by {
            if i < p.len() && !(i == p.len() - 1 && !is_separator(s.last(), numeric)) {
                assert(q[i] == p[i]);
            }
        }
    }
}

fn pieces_exec(s: &[char], numeric: bool) -> (r: Vec<Vec<char>>)
    ensures
        views(r@) == pieces(s@, numeric),
{
    let mut done: Vec<Vec<char>> = Vec::new();
    let mut current: Vec<char> = Vec::new();
    let mut i: usize = 0;
    proof {
        assert(s@.subrange(0, 0) =~= Seq::<char>::empty());
        assert(views(done@).push(current@) =~= pieces(s@.subrange(0, 0), numeric));
    }
    while i < s.len()
        invariant
            i <= s@.len(),
            views(done@).push(current@) == pieces(s@.subrange(0, i as int), numeric),
        decreases s.len() - i,
    {
        let c = s[i];
        let sep = if numeric {
            !is_ascii_digit_exec(c) && c != '.'
        } else {
            !is_alphanumeric(c) && c != '_'
        };
        let ghost prev = views(done@).push(current@);
        assert(s@.subrange(0, i + 1).drop_last() =~= s@.subrange(0, i as int));
        assert(s@.subrange(0, i + 1).last() == c);
        if sep {
            let piece = current;
            current = Vec::new();
            let ghost dv = done@;
            done.push(piece);
            assert(views(done@) =~= views(dv).push(piece@));
            assert(views(done@).push(current@) =~= prev.push(seq![]));
        } else {
            let ghost cv = current@;
            current.push(c);
            assert(views(done@).push(current@) =~= prev.update(prev.len() - 1, cv.push(c)));
        }
        i = i + 1;
    }
    let ghost dv = done@;
    done.push(current);
    assert(views(done@) =~= views(dv).push(current@));
    assert(s@.subrange(0, i as int) =~= s@);
    done
}

/// Operators and keywords that Halstead counts as operators, per family.
pub open spec fn operator_vocabulary(lang: Language) -> Seq<Seq<char>> {
    match lang {
        Language::Rust => seq![
            "+"@, "-"@, "*"@, "/"@, "%"@, "=="@, "!="@, "<"@, ">"@, "<="@, ">="@, "&&"@, "||"@,
            "!"@, "&"@, "|"@, "^"@, "<<"@, ">>"@, "="@, "+="@, "-="@, "*="@, "/="@, "%="@, "&="@,
            "|="@, "^="@, "<<="@, ">>="@, "."@, "->"@, "=>"@, "::"@, ";"@, ","@, "if"@, "else"@,
            "match"@, "for"@, "while"@, "loop"@, "break"@, "continue"@, "return"@, "fn"@,
            "struct"@, "enum"@, "impl"@, "trait"@,
        ],
        Language::Script => seq![
            "+"@, "-"@, "*"@, "/"@, "%"@, "=="@, "==="@, "!="@, "!=="@, "<"@, ">"@, "<="@, ">="@,
            "&&"@, "||"@, "!"@, "&"@, "|"@, "^"@, "<<"@, ">>"@, ">>>"@, "="@, "+="@, "-="@, "*="@,
            "/="@, "%="@, "&="@, "|="@, "^="@, "<<="@, ">>="@, ">>>="@, "."@, "=>"@, "++"@, "--"@,
            "?"@, ":"@, ";"@, ","@, "if"@, "else"@, "switch"@, "case"@, "for"@, "while"@, "do"@,
            "break"@, "continue"@, "return"@, "function"@, "class"@, "new"@, "this"@, "super"@,
        ],
        Language::Other => seq![
            "+"@, "-"@, "*"@, "/"@, "%"@, "=="@, "!="@, "<"@, ">"@, "<="@, ">="@, "&&"@, "||"@,
            "!"@, "&"@, "|"@, "="@, "."@, ";"@, ","@, "if"@, "else"@, "for"@, "while"@, "return"@,
        ],
    }
}

fn operator_vocabulary_exec(lang: Language) -> (r: Vec<Vec<char>>)
    ensures
        views(r@) == operator_vocabulary(lang),
{
    match lang {
        Language::Rust => {
            let a = [
                "+", "-", "*", "/", "%", "==", "!=", "<", ">", "<=", ">=", "&&", "||", "!", "&",
                "|", "^", "<<", ">>", "=", "+=", "-=", "*=", "/=", "%=", "&=", "|=", "^=", "<<=",
                ">>=", ".", "->", "=>", "::", ";", ",", "if", "else", "match", "for", "while",
                "loop", "break", "continue", "return", "fn", "struct", "enum", "impl", "trait",
            ];
            let r = literal_list(&a);
            assert(views(r@) =~= operator_vocabulary(lang));
            r
        },
        Language::Script => {
            let a = [
                "+", "-", "*", "/", "%", "==", "===", "!=", "!==", "<", ">", "<=", ">=", "&&",
                "||", "!", "&", "|", "^", "<<", ">>", ">>>", "=", "+=", "-=", "*=", "/=", "%=",
                "&=", "|=", "^=", "<<=", ">>=", ">>>=", ".", "=>", "++", "--", "?", ":", ";", ",",
                "if", "else", "switch", "case", "for", "while", "do", "break", "continue",
                "return", "function", "class", "new", "this", "super",
            ];
            let r = literal_list(&a);
            assert(views(r@) =~= operator_vocabulary(lang));
            r
        },
        Language::Other => {
            let a = [
                "+", "-", "*", "/", "%", "==", "!=", "<", ">", "<=", ">=", "&&", "||", "!", "&",
                "|", "=", ".", ";", ",", "if", "else", "for", "while", "return",
            ];
            let r = literal_list(&a);
            assert(views(r@) =~= operator_vocabulary(lang));
            r
        },
    }
}

/// Lines that the Halstead count passes over: those that the line
/// classification does not count as code (blank lines, comment lines, and
/// lines inside a block comment, given whether one is open).
pub open spec fn halstead_skipped(lang: Language, in_block: bool, t: Seq<char>) -> bool {
    if t.len() == 0 {
        true
    } else if lang == Language::Other {
        starts_with(t, "#"@) || starts_with(t, "//"@)
    } else {
        in_block || starts_with(t, "//"@) || starts_with(t, "/*"@)
    }
}

/// Operand occurrences among the words of a line: non-empty words that are
/// not operators and do not read as numbers, trimmed.
pub open spec fn word_operands(words: Seq<Seq<char>>, vocab: Seq<Seq<char>>) -> Seq<Seq<char>>
    decreases words.len(),
{
    if words.len() == 0 {
        seq![]
    } else {
        let prev = word_operands(words.drop_last(), vocab);
        let w = words.last();
        if w.len() > 0 && !vocab.contains(w) && trim(w).len() > 0 && !parses_as_float(trim(w)) {
            prev.push(trim(w))
        } else {
            prev
        }
    }
}

/// Operand occurrences among the number-like pieces of a line: those that
/// read as numbers.
pub open spec fn number_operands(parts: Seq<Seq<char>>) -> Seq<Seq<char>>
    decreases parts.len(),
{
    if parts.len() == 0 {
        seq![]
    } else {
        let prev = number_operands(parts.drop_last());
        let p = parts.last();
        if p.len() > 0 && parses_as_float(p) {
            prev.push(p)
        } else {
            prev
        }
    }
}

/// The operand occurrences of a trimmed line, in order.
pub open spec fn line_operands(lang: Language, t: Seq<char>) -> Seq<Seq<char>> {
    word_operands(pieces(t, false), operator_vocabulary(lang)) + number_operands(pieces(t, true))
}

/// Operator and operand occurrences counted so far.
pub struct HalsteadState {
    /// occurrences of each vocabulary entry
    pub operator_counts: Seq<nat>,
    /// every operand occurrence, in order
    pub operands: Seq<Seq<char>>,
}

pub open spec fn halstead_tally(lang: Language, lines: Seq<Seq<char>>) -> HalsteadState
    decreases lines.len(),
{
    let vocab = operator_vocabulary(lang);
    if lines.len() == 0 {
        HalsteadState { operator_counts: Seq::new(vocab.len(), |i: int| 0nat), operands: seq![] }
    } else {
        let s = halstead_tally(lang, lines.drop_last());
        let t = trim(lines.last());
        if halstead_skipped(lang, line_tally(lang, lines.drop_last()).in_block, t) {
            s
        } else {
            HalsteadState {
                operator_counts: Seq::new(
                    vocab.len(),
                    |i: int| s.operator_counts[i] + count_matches(t, vocab[i]),
                ),
                operands: s.operands + line_operands(lang, t),
            }
        }
    }
}

pub open spec fn seq_sum(s: Seq<nat>) -> nat
    decreases s.len(),
{
    if s.len() == 0 {
        0
    } else {
        seq_sum(s.drop_last()) + s.last()
    }
}

pub open spec fn positive_count(s: Seq<nat>) -> nat
    decreases s.len(),
{
    if s.len() == 0 {
        0
    } else {
        positive_count(s.drop_last()) + if s.last() > 0 {
            1nat
        } else {
            0nat
        }
    }
}

/// Halstead's four counts: distinct and total operators (n1, N1), distinct
/// and total operands (n2, N2).
#[derive(Debug, Clone, Copy)]
pub struct HalsteadData {
    pub unique_operators: usize,
    pub total_operators: u64,
    pub unique_operands: usize,
    pub total_operands: u64,
}

fn vocab_contains(vocab: &Vec<Vec<char>>, w: &Vec<char>) -> (r: bool)
    ensures
        r == views(vocab@).contains(w@),
{
    let ghost vv = views(vocab@);
    let mut i: usize = 0;
    while i < vocab.len()
        invariant
            i <= vocab@.len(),
            vv == views(vocab@),
            forall|m: int| 0 <= m < i ==> vv[m] != w@,
        decreases vocab.len() - i,
    {
        assert(vv[i as int] == vocab@[i as int]@);
        if crate::text::same_chars(&vocab[i], w) {
            return true;
        }
        i = i + 1;
    }
    false
}

fn line_operands_exec(lang: Language, vocab: &Vec<Vec<char>>, t: &Vec<char>) -> (r: Vec<Vec<char>>)
    requires
        views(vocab@) == operator_vocabulary(lang),
    ensures
        views(r@) == line_operands(lang, t@),
        r@.len() <= 2 * t@.len() + 2,
{
    let words = pieces_exec(t, false);
    proof {
        lemma_pieces_nonempty(t@, false);
        lemma_pieces_nonempty(t@, true);
    }
    let ghost wv = views(words@);
    let mut r: Vec<Vec<char>> = Vec::new();
    let mut k: usize = 0;
    while k < words.len()
        invariant
            k <= words@.len(),
            wv == views(words@),
            wv == pieces(t@, false),
            wv.len() <= t@.len() + 1,
            views(vocab@) == operator_vocabulary(lang),
            views(r@) == word_operands(wv.subrange(0, k as int), operator_vocabulary(lang)),
            r@.len() <= k,
        decreases words.len() - k,
    {
        assert(wv.subrange(0, k + 1).drop_last() =~= wv.subrange(0, k as int));
        assert(wv.subrange(0, k + 1).last() == words@[k as int]@);
        let w = &words[k];
        if w.len() > 0 && !vocab_contains(vocab, w) {
            let tw = trim_chars(w);
            if tw.len() > 0 && !parses_as_float_exec(&tw) {
                let ghost before = r@;
                r.push(tw);
                assert(views(r@) =~= views(before).push(tw@));
            }
        }
        k = k + 1;
    }
    assert(wv.subrange(0, k as int) =~= wv);
    {
        let parts = pieces_exec(t, true);
        let ghost pv = views(parts@);
        let ghost wr = views(r@);
        let mut j: usize = 0;
        assert(number_operands(pv.subrange(0, 0)) =~= Seq::<Seq<char>>::empty());
        while j < parts.len()
            invariant
                j <= parts@.len(),
                pv == views(parts@),
                pv == pieces(t@, true),
                pv.len() <= t@.len() + 1,
                wr.len() <= t@.len() + 1,
                views(r@) == wr + number_operands(pv.subrange(0, j as int)),
                r@.len() <= wr.len() + j,
            decreases parts.len() - j,
        {
            assert(pv.subrange(0, j + 1).drop_last() =~= pv.subrange(0, j as int));
            assert(pv.subrange(0, j + 1).last() == parts@[j as int]@);
            let p = &parts[j];
            if p.len() > 0 && parses_as_float_exec(p) {
                let ghost before = r@;
                let copy = crate::text::sub_chars(p, 0, p.len());
                assert(copy@ =~= p@);
                r.push(copy);
                assert(views(r@) =~= views(before).push(p@));
            }
            j = j + 1;
        }
        assert(pv.subrange(0, j as int) =~= pv);
    }
    r
}

/// Adds an operand to the list of distinct operands.
fn add_operand(distinct: &mut Vec<Vec<char>>, tok: Vec<char>)
    requires
        views(old(distinct)@).no_duplicates(),
    ensures
        views(final(distinct)@).no_duplicates(),
        views(final(distinct)@).to_set() == views(old(distinct)@).to_set().insert(tok@),
{
    let ghost dv = views(distinct@);
    let mut i: usize = 0;
    while i < distinct.len()
        invariant
            i <= distinct@.len(),
            dv == views(distinct@),
            dv.no_duplicates(),
            *distinct == *old(distinct),
            forall|m: int| 0 <= m < i ==> dv[m] != tok@,
        decreases distinct.len() - i,
    {
        assert(dv[i as int] == distinct@[i as int]@);
        if crate::text::same_chars(&distinct[i], &tok) {
            assert(dv.to_set().insert(tok@) =~= dv.to_set()) by {
                assert(dv[i as int] == tok@);
            }
            return;
        }
        i = i + 1;
    }
    let ghost t = tok@;
    distinct.push(tok);
    proof {
        assert(views(distinct@) =~= dv.push(t));
        assert(dv.push(t).to_set() =~= dv.to_set().insert(t)) by {
            assert forall|x| dv.push(t).to_set().contains(x) <==> dv.to_set().insert(t).contains(x) by {
                if dv.push(t).to_set().contains(x) {
                    let m = choose|m: int| 0 <= m < dv.push(t).len() && dv.push(t)[m] == x;
                    if m < dv.len() {
                        assert(dv[m] == x);
                    }
                }
                if dv.to_set().contains(x) {
                    let m = choose|m: int| 0 <= m < dv.len() && dv[m] == x;
                    assert(dv.push(t)[m] == x);
                }
                if x == t {
                    assert(dv.push(t)[dv.len() as int] == x);
                }
            }
        }
    }
}

pub open spec fn nat_views(v: Seq<u64>) -> Seq<nat> {
    v.map_values(|x: u64| x as nat)
}

fn add_operator_counts(counts: &mut Vec<u64>, vocab: &Vec<Vec<char>>, t: &Vec<char>, k: usize)
    requires
        old(counts)@.len() == vocab@.len(),
        t@.len() <= COMPLEXITY_SIZE_LIMIT,
        k <= COMPLEXITY_SIZE_LIMIT,
        forall|m: int| 0 <= m < old(counts)@.len() ==> #[trigger] old(counts)@[m] <= k * COMPLEXITY_SIZE_LIMIT,
    ensures
        final(counts)@.len() == old(counts)@.len(),
        forall|m: int| 0 <= m < final(counts)@.len() ==> #[trigger] final(counts)@[m] <= (k + 1) * COMPLEXITY_SIZE_LIMIT,
        forall|m: int|
            0 <= m < final(counts)@.len() ==> #[trigger] final(counts)@[m] == old(counts)@[m] + count_matches(
                t@,
                views(vocab@)[m],
            ),
{
    let ghost old_counts = counts@;
    let mut i: usize = 0;
    assert((k + 1) * COMPLEXITY_SIZE_LIMIT == k * COMPLEXITY_SIZE_LIMIT + COMPLEXITY_SIZE_LIMIT) by (nonlinear_arith);
    assert(k * COMPLEXITY_SIZE_LIMIT <= COMPLEXITY_SIZE_LIMIT * COMPLEXITY_SIZE_LIMIT) by (nonlinear_arith)
        requires
            k <= COMPLEXITY_SIZE_LIMIT,
    ;
    while i < vocab.len()
        invariant
            i <= vocab@.len(),
            counts@.len() == vocab@.len(),
            old_counts.len() == vocab@.len(),
            old_counts == old(counts)@,
            t@.len() <= COMPLEXITY_SIZE_LIMIT,
            k <= COMPLEXITY_SIZE_LIMIT,
            (k + 1) * COMPLEXITY_SIZE_LIMIT == k * COMPLEXITY_SIZE_LIMIT + COMPLEXITY_SIZE_LIMIT,
            k * COMPLEXITY_SIZE_LIMIT <= COMPLEXITY_SIZE_LIMIT * COMPLEXITY_SIZE_LIMIT,
            forall|m: int| 0 <= m < old_counts.len() ==> #[trigger] old_counts[m] <= k * COMPLEXITY_SIZE_LIMIT,
            forall|m: int|
                0 <= m < i ==> #[trigger] counts@[m] == old_counts[m] + count_matches(
                    t@,
                    views(vocab@)[m],
                ),
            forall|m: int| i <= m < counts@.len() ==> #[trigger] counts@[m] == old_counts[m],
            forall|m: int| 0 <= m < i ==> #[trigger] counts@[m] <= (k + 1) * COMPLEXITY_SIZE_LIMIT,
        decreases vocab.len() - i,
    {
        assert(views(vocab@)[i as int] == vocab@[i as int]@);
        let n: usize = if vocab[i].len() > 0 {
            count_matches_exec(t, &vocab[i])
        } else {
            0
        };
        proof {
            lemma_count_from_le(t@, vocab@[i as int]@, 0);
        }
        assert(n <= COMPLEXITY_SIZE_LIMIT);
        let v = counts[i];
        assert(v == old_counts[i as int]);
        assert(v <= k * COMPLEXITY_SIZE_LIMIT);
        assert(v + n <= (k + 1) * COMPLEXITY_SIZE_LIMIT);
        counts.set(i, v + n as u64);
        i = i + 1;
    }
}

/// Halstead's counts over the lines: each vocabulary entry's occurrences
/// (repeated search) on lines that are not comments, and the operands among
/// the words and number literals of those lines.
pub fn calculate_halstead_data(lines: &Vec<Vec<char>>, lang: Language) -> (r: HalsteadData)
    requires
        lines_in_limit(views(lines@)),
    ensures
        r.unique_operators == positive_count(halstead_tally(lang, views(lines@)).operator_counts),
        r.total_operators == seq_sum(halstead_tally(lang, views(lines@)).operator_counts),
        r.unique_operands == halstead_tally(lang, views(lines@)).operands.to_set().len(),
        r.total_operands == halstead_tally(lang, views(lines@)).operands.len(),
{
    let ghost lv = views(lines@);
    let vocab = operator_vocabulary_exec(lang);
    let mut counts: Vec<u64> = Vec::new();
    let mut d: usize = 0;
    while d < vocab.len()
        invariant
            d <= vocab@.len(),
            counts@.len() == d,
            forall|i: int| 0 <= i < d ==> counts@[i] == 0,
        decreases vocab.len() - d,
    {
        counts.push(0);
        d = d + 1;
    }
    let mut distinct: Vec<Vec<char>> = Vec::new();
    let mut total_operands: u64 = 0;
    let mut in_block = false;
    let mut k: usize = 0;
    proof {
        assert(lv.subrange(0, 0) =~= Seq::<Seq<char>>::empty());
        assert(nat_views(counts@) =~= halstead_tally(lang, lv.subrange(0, 0)).operator_counts);
        assert(views(distinct@) =~= Seq::<Seq<char>>::empty());
        assert(views(distinct@).to_set() =~= halstead_tally(lang, lv.subrange(0, 0)).operands.to_set());
    }
    while k < lines.len()
        invariant
            k <= lines@.len(),
            lv == views(lines@),
            lines_in_limit(lv),
            views(vocab@) == operator_vocabulary(lang),
            counts@.len() == vocab@.len(),
            nat_views(counts@) == halstead_tally(lang, lv.subrange(0, k as int)).operator_counts,
            forall|m: int| 0 <= m < counts@.len() ==> #[trigger] counts@[m] <= k * COMPLEXITY_SIZE_LIMIT,
            views(distinct@).no_duplicates(),
            views(distinct@).to_set() == halstead_tally(lang, lv.subrange(0, k as int)).operands.to_set(),
            total_operands == halstead_tally(lang, lv.subrange(0, k as int)).operands.len(),
            total_operands <= k * (2 * COMPLEXITY_SIZE_LIMIT + 2),
            in_block == line_tally(lang, lv.subrange(0, k as int)).in_block,
        decreases lines.len() - k,
    {
        let ghost prev = halstead_tally(lang, lv.subrange(0, k as int));
        assert(lv.subrange(0, k + 1).drop_last() =~= lv.subrange(0, k as int));
        assert(lv.subrange(0, k + 1).last() == lines@[k as int]@);
        assert(lv[k as int] == lines@[k as int]@);
        assert(lv[k as int].len() <= COMPLEXITY_SIZE_LIMIT);
        assert(k <= COMPLEXITY_SIZE_LIMIT);
        let t = trim_chars(&lines[k]);
        proof {
            lemma_trim_len(lines@[k as int]@);
        }
        let empty = t.len() == 0;
        let line_comment = starts_with_str(&t, "//");
        let block_opens = starts_with_str(&t, "/*");
        let skipped = if empty {
            true
        } else if lang == Language::Other {
            starts_with_str(&t, "#") || line_comment
        } else {
            in_block || line_comment || block_opens
        };
        let ghost was_in_block = in_block;
        if !empty && lang != Language::Other {
            if in_block {
                in_block = !contains_str(&t, "*/");
            } else if !line_comment && block_opens {
                in_block = !contains_str(&t, "*/");
            }
        }
        proof {
            let next = line_tally(lang, lv.subrange(0, k + 1));
            assert(next == line_step(lang, line_tally(lang, lv.subrange(0, k as int)), lines@[k as int]@));
            assert(in_block == next.in_block);
            assert(skipped == halstead_skipped(lang, was_in_block, t@));
        }
        if !skipped {
            let ghost old_counts = counts@;
            add_operator_counts(&mut counts, &vocab, &t, k);
            proof {
                let next = halstead_tally(lang, lv.subrange(0, k + 1));
                assert(nat_views(counts@) =~= next.operator_counts);
            }
            let ops = line_operands_exec(lang, &vocab, &t);
            let ghost ov = views(ops@);
            let ghost base = prev.operands;
            let mut j: usize = 0;
            assert(base + ov.subrange(0, 0) =~= base);
            while j < ops.len()
                invariant
                    j <= ops@.len(),
                    ov == views(ops@),
                    views(distinct@).no_duplicates(),
                    views(distinct@).to_set() == (base + ov.subrange(0, j as int)).to_set(),
                decreases ops.len() - j,
            {
                let tok = crate::text::sub_chars(&ops[j], 0, ops[j].len());
                assert(tok@ =~= ov[j as int]);
                add_operand(&mut distinct, tok);
                proof {
                    assert(base + ov.subrange(0, j + 1) =~= (base + ov.subrange(0, j as int)).push(ov[j as int]));
                    (base + ov.subrange(0, j as int)).lemma_push_to_set_commute(ov[j as int]);
                }
                j = j + 1;
            }
            assert(ov.subrange(0, j as int) =~= ov);
            assert((k + 1) * (2 * COMPLEXITY_SIZE_LIMIT + 2) == k * (2 * COMPLEXITY_SIZE_LIMIT + 2) + (2
                * COMPLEXITY_SIZE_LIMIT + 2)) by (nonlinear_arith);
            assert(k * (2 * COMPLEXITY_SIZE_LIMIT + 2) <= COMPLEXITY_SIZE_LIMIT * (2 * COMPLEXITY_SIZE_LIMIT + 2))
                by (nonlinear_arith)
                requires
                    k <= COMPLEXITY_SIZE_LIMIT,
            ;
            total_operands = total_operands + ops.len() as u64;
        } else {
            proof {
                assert((k + 1) * (2 * COMPLEXITY_SIZE_LIMIT + 2) >= k * (2 * COMPLEXITY_SIZE_LIMIT + 2)) by (nonlinear_arith);
                assert((k + 1) * COMPLEXITY_SIZE_LIMIT >= k * COMPLEXITY_SIZE_LIMIT) by (nonlinear_arith);
            }
        }
        k = k + 1;
    }
    assert(lv.subrange(0, k as int) =~= lv);
    let ghost fc = nat_views(counts@);
    let mut unique_operators: usize = 0;
    let mut total_operators: u64 = 0;
    let mut i: usize = 0;
    assert(k <= COMPLEXITY_SIZE_LIMIT + 1);
    assert(k * COMPLEXITY_SIZE_LIMIT <= (COMPLEXITY_SIZE_LIMIT + 1) * COMPLEXITY_SIZE_LIMIT) by (nonlinear_arith)
        requires
            k <= COMPLEXITY_SIZE_LIMIT + 1,
    ;
    assert(fc.subrange(0, 0) =~= Seq::<nat>::empty());
    while i < counts.len()
        invariant
            i <= counts@.len(),
            counts@.len() == vocab@.len(),
            vocab@.len() == operator_vocabulary(lang).len(),
            operator_vocabulary(lang).len() <= 64,
            fc == nat_views(counts@),
            forall|m: int| 0 <= m < counts@.len() ==> #[trigger] counts@[m] <= (COMPLEXITY_SIZE_LIMIT + 1) * COMPLEXITY_SIZE_LIMIT,
            unique_operators == positive_count(fc.subrange(0, i as int)),
            unique_operators <= i,
            total_operators == seq_sum(fc.subrange(0, i as int)),
            total_operators <= i * ((COMPLEXITY_SIZE_LIMIT + 1) * COMPLEXITY_SIZE_LIMIT),
        decreases counts.len() - i,
    {
        assert(fc.subrange(0, i + 1).drop_last() =~= fc.subrange(0, i as int));
        assert((i + 1) * ((COMPLEXITY_SIZE_LIMIT + 1) * COMPLEXITY_SIZE_LIMIT) == i * ((COMPLEXITY_SIZE_LIMIT + 1)
            * COMPLEXITY_SIZE_LIMIT) + (COMPLEXITY_SIZE_LIMIT + 1) * COMPLEXITY_SIZE_LIMIT) by (nonlinear_arith);
        assert(i * ((COMPLEXITY_SIZE_LIMIT + 1) * COMPLEXITY_SIZE_LIMIT) <= 64 * ((COMPLEXITY_SIZE_LIMIT + 1)
            * COMPLEXITY_SIZE_LIMIT)) by (nonlinear_arith)
            requires
                i <= 64,
        ;
        if counts[i] > 0 {
            unique_operators = unique_operators + 1;
        }
        total_operators = total_operators + counts[i];
        i = i + 1;
    }
    assert(fc.subrange(0, i as int) =~= fc);
    proof {
        views(distinct@).unique_seq_to_set();
    }
    HalsteadData {
        unique_operators,
        total_operators,
        unique_operands: distinct.len(),
        total_operands,
    }
}

/// The family of a file, from its extension in lower case.
pub open spec fn file_language(path: Seq<char>) -> Language {
    match path_extension(path) {
        Some(e) => language_of(lower_of(e)),
        None => Language::Other,
    }
}

pub fn file_language_exec(path: &str) -> (r: Language)
    ensures
        r == file_language(path@),
{
    match extension_of(path) {
        Some(e) => {
            let lower = to_lower(e.as_str());
            language_for(lower.as_str())
        },
        None => Language::Other,
    }
}

/// Complexity measures of one file, as counts.
#[derive(Debug, Clone, Copy)]
pub struct ComplexityMetrics {
    /// 1 plus the number of branching code lines that do not end a statement
    pub cyclomatic_complexity: usize,
    /// deepest bracket nesting at the end of a line
    pub max_nesting_depth: i64,
    /// cognitive complexity in halves
    pub cognitive_complexity_halves: u64,
    pub halstead: HalsteadData,
}

impl ComplexityMetrics {
    /// Measures that are all zero.
    pub fn new() -> (r: Self)
        ensures
            r.cyclomatic_complexity == 0,
            r.max_nesting_depth == 0,
            r.cognitive_complexity_halves == 0,
            r.halstead.unique_operators == 0,
            r.halstead.total_operators == 0,
            r.halstead.unique_operands == 0,
            r.halstead.total_operands == 0,
    {
        ComplexityMetrics {
            cyclomatic_complexity: 0,
            max_nesting_depth: 0,
            cognitive_complexity_halves: 0,
            halstead: HalsteadData {
                unique_operators: 0,
                total_operators: 0,
                unique_operands: 0,
                total_operands: 0,
            },
        }
    }
}

/// The measures are those of the lines, read as family `lang`.
pub open spec fn complexity_of(lang: Language, lines: Seq<Seq<char>>, c: ComplexityMetrics) -> bool {
    let h = halstead_tally(lang, lines);
    &&& c.cyclomatic_complexity == 1 + line_tally(lang, lines).branches
    &&& c.max_nesting_depth == max_depth(lines)
    &&& c.cognitive_complexity_halves == cognitive_tally(lang, lines).halves
    &&& c.halstead.unique_operators == positive_count(h.operator_counts)
    &&& c.halstead.total_operators == seq_sum(h.operator_counts)
    &&& c.halstead.unique_operands == h.operands.to_set().len()
    &&& c.halstead.total_operands == h.operands.len()
}

fn complexity_of_lines(lang: Language, lines: &Vec<Vec<char>>) -> (r: ComplexityMetrics)
    requires
        lines_in_limit(views(lines@)),
    ensures
        complexity_of(lang, views(lines@), r),
{
    let counts = classify_lines(lang, lines);
    let nesting = calculate_max_nesting(lines);
    let cognitive = calculate_cognitive_complexity(lines, lang);
    let halstead = calculate_halstead_data(lines, lang);
    assert(counts.branch_lines <= lines@.len());
    ComplexityMetrics {
        cyclomatic_complexity: 1 + counts.branch_lines,
        max_nesting_depth: nesting,
        cognitive_complexity_halves: cognitive,
        halstead,
    }
}

/// Complexity measures of a file's text, read by the family of its
/// extension.
pub fn analyze_file_complexity(file_path: &str, content: &str) -> (r: ComplexityMetrics)
    requires
        content@.len() < COMPLEXITY_SIZE_LIMIT,
    ensures
        complexity_of(file_language(file_path@), lines_of(content@), r),
{
    let lang = file_language_exec(file_path);
    let text = chars_of(content);
    let lines = lines_exec(&text);
    proof {
        lemma_lines_bounds(content@);
    }
    complexity_of_lines(lang, &lines)
}

/// The declaration kinds that occur, each with its count, in keyword order.
pub open spec fn decl_histogram(kws: Seq<Seq<char>>, counts: Seq<nat>) -> Seq<(Seq<char>, nat)>
    decreases kws.len(),
{
    if kws.len() == 0 || counts.len() < kws.len() {
        seq![]
    } else {
        let prev = decl_histogram(kws.drop_last(), counts.subrange(0, kws.len() - 1));
        let c = counts[kws.len() - 1];
        if c > 0 {
            prev.push((trim(kws.last()), c))
        } else {
            prev
        }
    }
}

pub open spec fn histogram_views(v: Seq<(String, usize)>) -> Seq<(Seq<char>, nat)> {
    v.map_values(|e: (String, usize)| (e.0@, e.1 as nat))
}

/// Basic metrics of one file, and its complexity measures where it is small
/// enough.
#[derive(Debug)]
pub struct FileMetrics {
    pub path: String,
    pub line_count: usize,
    pub code_lines: usize,
    pub comment_lines: usize,
    pub blank_lines: usize,
    pub file_size_bytes: u64,
    pub function_count: usize,
    /// each declaration kind that occurs, with its count
    pub declaration_count: Vec<(String, usize)>,
    pub complexity_metrics: Option<ComplexityMetrics>,
}

impl FileMetrics {
    /// Number of declarations of every kind.
    pub fn total_declarations(&self) -> (r: usize)
        requires
            seq_sum(histogram_views(self.declaration_count@).map_values(|e: (Seq<char>, nat)| e.1))
                <= usize::MAX,
        ensures
            r == seq_sum(histogram_views(self.declaration_count@).map_values(|e: (Seq<char>, nat)| e.1)),
    {
        let ghost hv = histogram_views(self.declaration_count@).map_values(|e: (Seq<char>, nat)| e.1);
        let mut total: usize = 0;
        let mut i: usize = 0;
        while i < self.declaration_count.len()
            invariant
                i <= self.declaration_count@.len(),
                hv == histogram_views(self.declaration_count@).map_values(|e: (Seq<char>, nat)| e.1),
                seq_sum(hv) <= usize::MAX,
                total == seq_sum(hv.subrange(0, i as int)),
            decreases self.declaration_count.len() - i,
        {
            assert(hv.subrange(0, i + 1).drop_last() =~= hv.subrange(0, i as int));
            proof {
                lemma_seq_sum_prefix(hv, i + 1);
            }
            total = total + self.declaration_count[i].1;
            i = i + 1;
        }
        assert(hv.subrange(0, i as int) =~= hv);
        total
    }
}

pub proof fn lemma_seq_sum_prefix(s: Seq<nat>, i: int)
    requires
        0 <= i <= s.len(),
    ensures
        seq_sum(s.subrange(0, i)) <= seq_sum(s),
    decreases s.len(),
{
    if i == s.len() {
        assert(s.subrange(0, i) =~= s);
    } else {
        assert(s.drop_last().subrange(0, i) =~= s.subrange(0, i));
        lemma_seq_sum_prefix(s.drop_last(), i);
    }
}

fn declaration_histogram(kws: &Vec<Vec<char>>, counts: &Vec<usize>) -> (r: Vec<(String, usize)>)
    requires
        counts@.len() == kws@.len(),
    ensures
        histogram_views(r@) == decl_histogram(views(kws@), counts@.map_values(|c: usize| c as nat)),
{
    let ghost kv = views(kws@);
    let ghost cv = counts@.map_values(|c: usize| c as nat);
    let mut r: Vec<(String, usize)> = Vec::new();
    let mut i: usize = 0;
    while i < kws.len()
        invariant
            i <= kws@.len(),
            counts@.len() == kws@.len(),
            kv == views(kws@),
            cv == counts@.map_values(|c: usize| c as nat),
            histogram_views(r@) == decl_histogram(kv.subrange(0, i as int), cv.subrange(0, i as int)),
        decreases kws.len() - i,
    {
        assert(kv.subrange(0, i + 1).drop_last() =~= kv.subrange(0, i as int));
        assert(cv.subrange(0, i + 1).subrange(0, i as int) =~= cv.subrange(0, i as int));
        assert(kv.subrange(0, i + 1).last() == kws@[i as int]@);
        assert(cv.subrange(0, i + 1)[i as int] == counts@[i as int]);
        if counts[i] > 0 {
            let key = trim_chars(&kws[i]);
            let item = (crate::text::string_of(&key), counts[i]);
            let ghost before = r@;
            r.push(item);
            assert(histogram_views(r@) =~= histogram_views(before).push((key@, counts@[i as int] as nat)));
        }
        i = i + 1;
    }
    assert(kv.subrange(0, i as int) =~= kv);
    assert(cv.subrange(0, i as int) =~= cv);
    r
}

/// The metrics are those of a file at `path` of `size` bytes with this text.
pub open spec fn file_metrics_of(path: Seq<char>, content: Seq<char>, size: u64, m: FileMetrics) -> bool {
    let lang = file_language(path);
    let lines = lines_of(content);
    let t = line_tally(lang, lines);
    &&& m.path@ == path
    &&& m.line_count == lines.len()
    &&& m.code_lines == t.code
    &&& m.comment_lines == t.comment
    &&& m.blank_lines == t.blank
    &&& m.file_size_bytes == size
    &&& m.function_count == t.functions
    &&& histogram_views(m.declaration_count@) == decl_histogram(decl_keywords(lang), t.decls)
    &&& (m.complexity_metrics is Some <==> (size < COMPLEXITY_SIZE_LIMIT && content.len()
        < COMPLEXITY_SIZE_LIMIT))
    &&& (m.complexity_metrics matches Some(c) ==> complexity_of(lang, lines, c))
}

/// Line classification, function and declaration counts of a file, with its
/// complexity measures unless the file reaches the size ceiling (in bytes or
/// characters).
pub fn analyze_file(file_path: &str, content: &str, file_size: u64) -> (r: FileMetrics)
    ensures
        file_metrics_of(file_path@, content@, file_size, r),
{
    let lang = file_language_exec(file_path);
    let text = chars_of(content);
    let lines = lines_exec(&text);
    let counts = classify_lines(lang, &lines);
    let kws = decl_keywords_exec(lang);
    let ghost t = line_tally(lang, views(lines@));
    proof {
        assert(counts.declarations@.map_values(|c: usize| c as nat) =~= t.decls);
    }
    let declaration_count = declaration_histogram(&kws, &counts.declarations);
    let complexity = if file_size < COMPLEXITY_SIZE_LIMIT as u64 && text.len() < COMPLEXITY_SIZE_LIMIT {
        proof {
            lemma_lines_bounds(content@);
        }
        Some(complexity_of_lines(lang, &lines))
    } else {
        None
    };
    FileMetrics {
        path: file_path.to_owned(),
        line_count: lines.len(),
        code_lines: counts.code_lines,
        comment_lines: counts.comment_lines,
        blank_lines: counts.blank_lines,
        file_size_bytes: file_size,
        function_count: counts.function_count,
        declaration_count,
        complexity_metrics: complexity,
    }
}

/// The key under which a file counts in the language histogram: its
/// extension in lower case, or `unknown`.
pub open spec fn language_key(path: Seq<char>) -> Seq<char> {
    match path_extension(path) {
        Some(e) => lower_of(e),
        None => "unknown"@,
    }
}

pub open spec fn key_count(keys: Seq<Seq<char>>, k: Seq<char>) -> nat
    decreases keys.len(),
{
    if keys.len() == 0 {
        0
    } else {
        key_count(keys.drop_last(), k) + if keys.last() == k {
            1nat
        } else {
            0nat
        }
    }
}

pub open spec fn file_keys(files: Seq<FileMetrics>) -> Seq<Seq<char>> {
    files.map_values(|f: FileMetrics| language_key(f.path@))
}

pub open spec fn sum_lines(files: Seq<FileMetrics>) -> nat
    decreases files.len(),
{
    if files.len() == 0 {
        0
    } else {
        sum_lines(files.drop_last()) + files.last().line_count as nat
    }
}

pub open spec fn sum_code(files: Seq<FileMetrics>) -> nat
    decreases files.len(),
{
    if files.len() == 0 {
        0
    } else {
        sum_code(files.drop_last()) + files.last().code_lines as nat
    }
}

pub open spec fn sum_comments(files: Seq<FileMetrics>) -> nat
    decreases files.len(),
{
    if files.len() == 0 {
        0
    } else {
        sum_comments(files.drop_last()) + files.last().comment_lines as nat
    }
}

pub open spec fn sum_blank(files: Seq<FileMetrics>) -> nat
    decreases files.len(),
{
    if files.len() == 0 {
        0
    } else {
        sum_blank(files.drop_last()) + files.last().blank_lines as nat
    }
}

pub open spec fn sum_size(files: Seq<FileMetrics>) -> nat
    decreases files.len(),
{
    if files.len() == 0 {
        0
    } else {
        sum_size(files.drop_last()) + files.last().file_size_bytes as nat
    }
}

/// The totals of the files fit their machine integers.
pub open spec fn totals_fit(files: Seq<FileMetrics>) -> bool {
    sum_lines(files) <= usize::MAX && sum_code(files) <= usize::MAX && sum_comments(files)
        <= usize::MAX && sum_blank(files) <= usize::MAX && sum_size(files) <= u64::MAX
}

/// Totals and averages over the analyzed files, and how many files each
/// language has.
#[derive(Debug)]
pub struct RepositoryTotals {
    pub total_files: usize,
    pub total_lines: usize,
    pub total_code_lines: usize,
    pub total_comment_lines: usize,
    pub total_blank_lines: usize,
    pub total_size_bytes: u64,
    /// each lower-case extension (or `unknown`) with its number of files
    pub language_distribution: Vec<(String, usize)>,
    pub avg_file_size: u64,
    pub avg_lines_per_file: usize,
}

proof fn lemma_sums_prefix(files: Seq<FileMetrics>, i: int)
    requires
        0 <= i <= files.len(),
    ensures
        sum_lines(files.subrange(0, i)) <= sum_lines(files),
        sum_code(files.subrange(0, i)) <= sum_code(files),
        sum_comments(files.subrange(0, i)) <= sum_comments(files),
        sum_blank(files.subrange(0, i)) <= sum_blank(files),
        sum_size(files.subrange(0, i)) <= sum_size(files),
    decreases files.len(),
{
    if i == files.len() {
        assert(files.subrange(0, i) =~= files);
    } else {
        assert(files.drop_last().subrange(0, i) =~= files.subrange(0, i));
        lemma_sums_prefix(files.drop_last(), i);
    }
}

proof fn lemma_key_count_absent(keys: Seq<Seq<char>>, k: Seq<char>)
    ensures
        !keys.contains(k) ==> key_count(keys, k) == 0,
        key_count(keys, k) <= keys.len(),
    decreases keys.len(),
{
    if keys.len() > 0 {
        lemma_key_count_absent(keys.drop_last(), k);
        if !keys.contains(k) {
            assert forall|i: int| 0 <= i < keys.drop_last().len() implies keys.drop_last()[i] != k by {
                assert(keys.drop_last()[i] == keys[i]);
            }
            assert(keys[keys.len() - 1] != k);
        }
    }
}

/// Totals, averages and the language histogram of the analyzed files.
pub fn summarize_repository(files: &Vec<FileMetrics>) -> (r: RepositoryTotals)
    requires
        totals_fit(files@),
    ensures
        r.total_files == files@.len(),
        r.total_lines == sum_lines(files@),
        r.total_code_lines == sum_code(files@),
        r.total_comment_lines == sum_comments(files@),
        r.total_blank_lines == sum_blank(files@),
        r.total_size_bytes == sum_size(files@),
        r.avg_file_size == if files@.len() > 0 {
            sum_size(files@) / files@.len() as nat
        } else {
            0
        },
        r.avg_lines_per_file == if files@.len() > 0 {
            sum_lines(files@) / files@.len() as nat
        } else {
            0
        },
        crate::dependencies::dir_keys(r.language_distribution@).no_duplicates(),
        forall|k: Seq<char>|
            crate::dependencies::dir_keys(r.language_distribution@).contains(k) <==> file_keys(
                files@,
            ).contains(k),
        forall|m: int|
            0 <= m < r.language_distribution@.len() ==> #[trigger] r.language_distribution@[m].1
                == key_count(file_keys(files@), r.language_distribution@[m].0@),
{
    let ghost fv = files@;
    let ghost keys = file_keys(fv);
    let mut lines: usize = 0;
    let mut code: usize = 0;
    let mut comments: usize = 0;
    let mut blank: usize = 0;
    let mut size: u64 = 0;
    let mut dist: Vec<(String, usize)> = Vec::new();
    let mut i: usize = 0;
    proof {
        assert(crate::dependencies::dir_keys(dist@) =~= Seq::<Seq<char>>::empty());
        assert(keys.subrange(0, 0) =~= Seq::<Seq<char>>::empty());
    }
    while i < files.len()
        invariant
            i <= fv.len(),
            fv == files@,
            keys == file_keys(fv),
            totals_fit(fv),
            lines == sum_lines(fv.subrange(0, i as int)),
            code == sum_code(fv.subrange(0, i as int)),
            comments == sum_comments(fv.subrange(0, i as int)),
            blank == sum_blank(fv.subrange(0, i as int)),
            size == sum_size(fv.subrange(0, i as int)),
            crate::dependencies::dir_keys(dist@).no_duplicates(),
            forall|k: Seq<char>|
                crate::dependencies::dir_keys(dist@).contains(k) <==> keys.subrange(0, i as int).contains(k),
            forall|m: int|
                0 <= m < dist@.len() ==> #[trigger] dist@[m].1 == key_count(
                    keys.subrange(0, i as int),
                    dist@[m].0@,
                ),
        decreases files.len() - i,
    {
        let ghost prefix = keys.subrange(0, i as int);
        assert(fv.subrange(0, i + 1).drop_last() =~= fv.subrange(0, i as int));
        assert(fv.subrange(0, i + 1).last() == files@[i as int]);
        assert(keys.subrange(0, i + 1) =~= prefix.push(keys[i as int]));
        assert(keys.subrange(0, i + 1).drop_last() =~= prefix);
        proof {
            lemma_sums_prefix(fv, i + 1);
        }
        let f = &files[i];
        lines = lines + f.line_count;
        code = code + f.code_lines;
        comments = comments + f.comment_lines;
        blank = blank + f.blank_lines;
        size = size + f.file_size_bytes;
        let key: String = match extension_of(f.path.as_str()) {
            Some(e) => to_lower(e.as_str()),
            None => "unknown".to_owned(),
        };
        assert(key@ == keys[i as int]);
        let ghost old_dist = dist@;
        let ghost ok = crate::dependencies::dir_keys(old_dist);
        proof {
            lemma_key_count_absent(prefix, key@);
            assert forall|m: int|
                0 <= m < old_dist.len() && old_dist[m].0@ == key@ implies old_dist[m].1 + 1
                <= usize::MAX by {
                assert(old_dist[m].1 == key_count(prefix, key@));
            }
        }
        let found = crate::dependencies::add_to_dir(&mut dist, &key, 1);
        proof {
            let next = prefix.push(key@);
            let nk = crate::dependencies::dir_keys(dist@);
            if found {
                assert(nk =~= ok);
            } else {
                assert(dist@[old_dist.len() as int].0@ == key@);
                assert(nk =~= ok.push(key@));
                assert(!prefix.contains(key@));
            }
            assert(next.drop_last() =~= prefix);
            assert forall|k: Seq<char>| nk.contains(k) <==> next.contains(k) by {
                assert(ok.contains(k) <==> prefix.contains(k));
                if ok.contains(k) {
                    let m = choose|m: int| 0 <= m < ok.len() && ok[m] == k;
                    assert(nk[m] == k);
                }
                if prefix.contains(k) {
                    let m = choose|m: int| 0 <= m < prefix.len() && prefix[m] == k;
                    assert(next[m] == k);
                }
                if next.contains(k) && k != key@ {
                    let m = choose|m: int| 0 <= m < next.len() && next[m] == k;
                    assert(prefix[m] == k);
                }
                if k == key@ {
                    assert(next[prefix.len() as int] == k);
                    if !found {
                        assert(nk[old_dist.len() as int] == k);
                    }
                }
                if nk.contains(k) && !ok.contains(k) {
                    let m = choose|m: int| 0 <= m < nk.len() && nk[m] == k;
                    if m < ok.len() {
                        assert(ok[m] == k);
                    }
                }
            }
            assert forall|m: int| 0 <= m < dist@.len() implies #[trigger] dist@[m].1 == key_count(
                next,
                dist@[m].0@,
            ) by {
                if m < old_dist.len() {
                    assert(dist@[m].0@ == old_dist[m].0@);
                }
            }
            assert(crate::dependencies::dir_keys(dist@) == nk);
            assert(keys.subrange(0, i + 1) == next);
        }
        i = i + 1;
    }
    assert(fv.subrange(0, i as int) =~= fv);
    assert(keys.subrange(0, i as int) =~= keys);
    let n = files.len();
    let avg_file_size: u64 = if n > 0 {
        size / n as u64
    } else {
        0
    };
    let avg_lines_per_file: usize = if n > 0 {
        lines / n
    } else {
        0
    };
    RepositoryTotals {
        total_files: n,
        total_lines: lines,
        total_code_lines: code,
        total_comment_lines: comments,
        total_blank_lines: blank,
        total_size_bytes: size,
        language_distribution: dist,
        avg_file_size,
        avg_lines_per_file,
    }
}

} // verus!
