//! Exported entities and import references, and how they are read out of a
//! file's text.
use vstd::prelude::*;
use crate::patterns::{
    capture_views, captures, compile_all, compiling, regex_captures, sources, CompiledPattern,
};
use crate::config::{Config, LanguageConfig};
use crate::paths::{extension_of, path_extension};
use crate::traversal::RepoFile;
use crate::text::{
    chars_of, contains, contains_str, first_from, first_from_exec, is_white_space,
    is_white_space_char, lemma_first_from_bounds, lemma_split_from_nonempty, lines_exec, lines_of,
    matches_at, matches_at_exec, split, split_chars, starts_with, starts_with_str, string_of,
    sub_chars, trim, trim_chars, views,
};

verus! {

/// A named declaration that a file offers for use elsewhere.
#[derive(Debug, Clone)]
pub struct ExportedEntity {
    /// Name of the exported entity
    pub name: String,
    /// Path of the file that holds the export
    pub file_path: String,
    /// Line where the export is defined, counted from 1
    pub line_number: usize,
    /// Kind of export (function, class, struct, ...)
    pub export_type: String,
    /// How many import references name this export
    pub usage_count: usize,
}

/// A reference to an entity by name from an importing file.
#[derive(Debug, Clone)]
pub struct ImportReference {
    /// Name of the imported entity
    pub name: String,
    /// Path of the file that imports the entity
    pub file_path: String,
    /// Line where the import occurs, counted from 1
    pub line_number: usize,
    /// The import statement as written
    pub import_statement: String,
}

/// Whether some entity is named `name`.
pub open spec fn has_export_named(exports: Seq<ExportedEntity>, name: Seq<char>) -> bool {
    exists|k: int| 0 <= k < exports.len() && exports[k].name@ == name
}

/// The first entity named `name` and the path of its file, if any entity has
/// that name.
pub fn find_export_by_name<'a>(exports: &'a Vec<ExportedEntity>, name: &str) -> (r: Option<
    (&'a String, &'a ExportedEntity),
>)
    ensures
        r is None <==> !has_export_named(exports@, name@),
        r matches Some((p, e)) ==> exists|k: int|
            0 <= k < exports@.len() && *e == exports@[k] && *p == exports@[k].file_path
                && e.name@ == name@ && forall|m: int| 0 <= m < k ==> exports@[m].name@ != name@,
{
    let target: String = name.to_owned();
    let mut k: usize = 0;
    while k < exports.len()
        invariant
            target@ == name@,
            k <= exports@.len(),
            forall|m: int| 0 <= m < k ==> exports@[m].name@ != name@,
        decreases exports.len() - k,
    {
        let e = &exports[k];
        if e.name == target {
            return Some((&e.file_path, e));
        }
        k = k + 1;
    }
    None
}

/// An export as values: name, file, line, kind, usage count.
pub open spec fn export_view(e: ExportedEntity) -> (Seq<char>, Seq<char>, int, Seq<char>, int) {
    (e.name@, e.file_path@, e.line_number as int, e.export_type@, e.usage_count as int)
}

pub open spec fn export_views(v: Seq<ExportedEntity>) -> Seq<(Seq<char>, Seq<char>, int, Seq<char>, int)> {
    v.map_values(|e: ExportedEntity| export_view(e))
}

/// The kind of declaration a line makes, by the first keyword found in
/// priority order.
pub open spec fn export_kind(line: Seq<char>) -> Seq<char> {
    let t = trim(line);
    if contains(t, "function "@) || contains(t, "fn "@) {
        "function"@
    } else if contains(t, "class "@) {
        "class"@
    } else if contains(t, "interface "@) {
        "interface"@
    } else if contains(t, "struct "@) {
        "struct"@
    } else if contains(t, "enum "@) {
        "enum"@
    } else if contains(t, "trait "@) {
        "trait"@
    } else if contains(t, "const "@) {
        "constant"@
    } else if contains(t, "let "@) || contains(t, "var "@) {
        "variable"@
    } else if contains(t, "type "@) {
        "type"@
    } else if contains(t, "mod "@) {
        "module"@
    } else {
        "unknown"@
    }
}

/// The kind of declaration a line makes.
pub fn determine_export_type(line: &[char]) -> (r: String)
    ensures
        r@ == export_kind(line@),
{
    let t = trim_chars(line);
    if contains_str(&t, "function ") || contains_str(&t, "fn ") {
        "function".to_owned()
    } else if contains_str(&t, "class ") {
        "class".to_owned()
    } else if contains_str(&t, "interface ") {
        "interface".to_owned()
    } else if contains_str(&t, "struct ") {
        "struct".to_owned()
    } else if contains_str(&t, "enum ") {
        "enum".to_owned()
    } else if contains_str(&t, "trait ") {
        "trait".to_owned()
    } else if contains_str(&t, "const ") {
        "constant".to_owned()
    } else if contains_str(&t, "let ") || contains_str(&t, "var ") {
        "variable".to_owned()
    } else if contains_str(&t, "type ") {
        "type".to_owned()
    } else if contains_str(&t, "mod ") {
        "module".to_owned()
    } else {
        "unknown".to_owned()
    }
}

/// The exports that matches of one pattern on a line yield: for each match
/// with at least one capture group, the trimmed text of its last group.
pub open spec fn capture_exports(
    caps: Seq<Seq<Option<Seq<char>>>>,
    line: Seq<char>,
    ln: int,
    file: Seq<char>,
) -> Seq<(Seq<char>, Seq<char>, int, Seq<char>, int)>
    decreases caps.len(),
{
    if caps.len() == 0 {
        seq![]
    } else {
        let prev = capture_exports(caps.drop_last(), line, ln, file);
        let g = caps.last();
        if g.len() > 1 && g.last() is Some {
            prev.push((trim(g.last()->Some_0), file, ln, export_kind(line), 0))
        } else {
            prev
        }
    }
}

/// The exports that the patterns find on line number `ln`.
pub open spec fn line_exports(pats: Seq<Seq<char>>, line: Seq<char>, ln: int, file: Seq<char>) -> Seq<
    (Seq<char>, Seq<char>, int, Seq<char>, int),
>
    decreases pats.len(),
{
    if pats.len() == 0 {
        seq![]
    } else {
        line_exports(pats.drop_last(), line, ln, file) + capture_exports(
            regex_captures(pats.last(), line),
            line,
            ln,
            file,
        )
    }
}

/// The exports that the patterns find in the lines, numbered from 1.
pub open spec fn text_exports(pats: Seq<Seq<char>>, lines: Seq<Seq<char>>, file: Seq<char>) -> Seq<
    (Seq<char>, Seq<char>, int, Seq<char>, int),
>
    decreases lines.len(),
{
    if lines.len() == 0 {
        seq![]
    } else {
        text_exports(pats, lines.drop_last(), file) + line_exports(
            pats,
            lines.last(),
            lines.len() as int,
            file,
        )
    }
}

/// The exports found in a file's text with the export patterns that compile.
pub open spec fn exports_of(file: Seq<char>, content: Seq<char>, patterns: Seq<Seq<char>>) -> Seq<
    (Seq<char>, Seq<char>, int, Seq<char>, int),
> {
    text_exports(compiling(patterns), lines_of(content), file)
}

/// The exports that one pattern's matches on a line yield.
pub fn exports_from_captures(
    caps: &Vec<Vec<Option<Vec<char>>>>,
    kind: &String,
    line: &Vec<char>,
    ln: usize,
    file: &String,
) -> (r: Vec<ExportedEntity>)
    requires
        kind@ == export_kind(line@),
    ensures
        export_views(r@) == capture_exports(capture_views(caps@), line@, ln as int, file@),
{
    let ghost cv = capture_views(caps@);
    let mut r: Vec<ExportedEntity> = Vec::new();
    let mut k: usize = 0;
    while k < caps.len()
        invariant
            k <= caps@.len(),
            cv == capture_views(caps@),
            kind@ == export_kind(line@),
            export_views(r@) == capture_exports(cv.subrange(0, k as int), line@, ln as int, file@),
        decreases caps.len() - k,
    {
        assert(cv.subrange(0, k + 1).drop_last() =~= cv.subrange(0, k as int));
        let g = &caps[k];
        let ghost gv = cv[k as int];
        assert(gv == crate::patterns::group_views(g@));
        if g.len() > 1 {
            match &g[g.len() - 1] {
                Some(name) => {
                    let t = trim_chars(name);
                    let e = ExportedEntity {
                        name: string_of(&t),
                        file_path: file.clone(),
                        line_number: ln,
                        export_type: kind.clone(),
                        usage_count: 0,
                    };
                    let ghost before = r@;
                    r.push(e);
                    assert(export_views(r@) =~= export_views(before).push(export_view(e)));
                },
                None => {},
            }
        }
        k = k + 1;
    }
    assert(cv.subrange(0, k as int) =~= cv);
    r
}

fn exports_from_line(pats: &Vec<CompiledPattern>, line: &Vec<char>, ln: usize, file: &String) -> (r: Vec<ExportedEntity>)
    ensures
        export_views(r@) == line_exports(sources(pats@), line@, ln as int, file@),
{
    let ghost sv = sources(pats@);
    let kind = determine_export_type(line);
    let mut r: Vec<ExportedEntity> = Vec::new();
    let mut k: usize = 0;
    while k < pats.len()
        invariant
            k <= pats@.len(),
            sv == sources(pats@),
            kind@ == export_kind(line@),
            export_views(r@) == line_exports(sv.subrange(0, k as int), line@, ln as int, file@),
        decreases pats.len() - k,
    {
        assert(sv.subrange(0, k + 1).drop_last() =~= sv.subrange(0, k as int));
        assert(sv.subrange(0, k + 1).last() == pats@[k as int].source());
        let caps = captures(&pats[k], line.as_slice());
        let mut found = exports_from_captures(&caps, &kind, line, ln, file);
        let ghost before = r@;
        let ghost fv = found@;
        r.append(&mut found);
        assert(export_views(r@) =~= export_views(before) + export_views(fv));
        k = k + 1;
    }
    assert(sv.subrange(0, k as int) =~= sv);
    r
}

/// Exports found in a file's text: for every line and every pattern that
/// compiles, each match's last capture group, trimmed, named after its line
/// (from 1) and the line's kind, with a usage count of 0.
pub fn extract_exports(file_path: &String, content: &str, patterns: &Vec<String>) -> (r: Vec<ExportedEntity>)
    ensures
        export_views(r@) == exports_of(file_path@, content@, patterns@.map_values(|s: String| s@)),
{
    let pats = compile_all(patterns);
    let text = chars_of(content);
    let lines = lines_exec(&text);
    let ghost lv = views(lines@);
    let mut r: Vec<ExportedEntity> = Vec::new();
    let mut k: usize = 0;
    while k < lines.len()
        invariant
            k <= lines@.len(),
            lv == views(lines@),
            lv == lines_of(content@),
            sources(pats@) == compiling(patterns@.map_values(|s: String| s@)),
            export_views(r@) == text_exports(sources(pats@), lv.subrange(0, k as int), file_path@),
        decreases lines.len() - k,
    {
        assert(lv.subrange(0, k + 1).drop_last() =~= lv.subrange(0, k as int));
        assert(lv.subrange(0, k + 1).last() == lines@[k as int]@);
        let mut found = exports_from_line(&pats, &lines[k], k + 1, file_path);
        let ghost before = r@;
        let ghost fv = found@;
        r.append(&mut found);
        assert(export_views(r@) =~= export_views(before) + export_views(fv));
        k = k + 1;
    }
    assert(lv.subrange(0, k as int) =~= lv);
    r
}

/// An import reference as values: name, file, line, statement.
pub open spec fn import_view(i: ImportReference) -> (Seq<char>, Seq<char>, int, Seq<char>) {
    (i.name@, i.file_path@, i.line_number as int, i.import_statement@)
}

pub open spec fn import_views(v: Seq<ImportReference>) -> Seq<(Seq<char>, Seq<char>, int, Seq<char>)> {
    v.map_values(|i: ImportReference| import_view(i))
}

/// One reference for each item of a list, trimmed, leaving out empty ones.
pub open spec fn item_imports(items: Seq<Seq<char>>, ln: int, file: Seq<char>, stmt: Seq<char>) -> Seq<
    (Seq<char>, Seq<char>, int, Seq<char>),
>
    decreases items.len(),
{
    if items.len() == 0 {
        seq![]
    } else {
        let prev = item_imports(items.drop_last(), ln, file, stmt);
        let t = trim(items.last());
        if t.len() > 0 {
            prev.push((t, file, ln, stmt))
        } else {
            prev
        }
    }
}

/// The references that matches of one import pattern on a line yield: the
/// first capture group of each match, split at commas.
pub open spec fn capture_imports(
    caps: Seq<Seq<Option<Seq<char>>>>,
    ln: int,
    file: Seq<char>,
    stmt: Seq<char>,
) -> Seq<(Seq<char>, Seq<char>, int, Seq<char>)>
    decreases caps.len(),
{
    if caps.len() == 0 {
        seq![]
    } else {
        let prev = capture_imports(caps.drop_last(), ln, file, stmt);
        let g = caps.last();
        if g.len() > 1 && g[1] is Some {
            prev + item_imports(split(trim(g[1]->Some_0), ","@), ln, file, stmt)
        } else {
            prev
        }
    }
}

pub open spec fn line_imports(pats: Seq<Seq<char>>, line: Seq<char>, ln: int, file: Seq<char>) -> Seq<
    (Seq<char>, Seq<char>, int, Seq<char>),
>
    decreases pats.len(),
{
    if pats.len() == 0 {
        seq![]
    } else {
        line_imports(pats.drop_last(), line, ln, file) + capture_imports(
            regex_captures(pats.last(), line),
            ln,
            file,
            trim(line),
        )
    }
}

/// The references that the import patterns find in the lines.
pub open spec fn text_imports(pats: Seq<Seq<char>>, lines: Seq<Seq<char>>, file: Seq<char>) -> Seq<
    (Seq<char>, Seq<char>, int, Seq<char>),
>
    decreases lines.len(),
{
    if lines.len() == 0 {
        seq![]
    } else {
        text_imports(pats, lines.drop_last(), file) + line_imports(
            pats,
            lines.last(),
            lines.len() as int,
            file,
        )
    }
}

/// A `{ ... }` group at index `i`: an opening brace, then at least one
/// character, up to the first closing brace.
pub open spec fn brace_at(s: Seq<char>, i: int) -> bool {
    0 <= i < s.len() && s[i] == '{' && first_from(s, '}', i + 1) < s.len() && first_from(
        s,
        '}',
        i + 1,
    ) >= i + 2
}

pub open spec fn brace_search(s: Seq<char>, i: int) -> Option<Seq<char>>
    decreases s.len() - i,
{
    if i < 0 || i >= s.len() {
        None
    } else if brace_at(s, i) {
        Some(s.subrange(i + 1, first_from(s, '}', i + 1)))
    } else {
        brace_search(s, i + 1)
    }
}

/// The inside of the first non-empty brace group of `s`.
pub open spec fn brace_group(s: Seq<char>) -> Option<Seq<char>> {
    brace_search(s, 0)
}

/// A `use` statement at index `i`: the word `use`, whitespace, then a
/// non-empty path up to the next `;`.
pub open spec fn use_at(t: Seq<char>, i: int) -> bool {
    matches_at(t, "use"@, i) && i + 3 < t.len() && is_white_space(t[i + 3]) && first_from(
        t,
        ';',
        i + 3,
    ) < t.len() && first_from(t, ';', i + 3) >= i + 5
}

pub open spec fn use_search(t: Seq<char>, i: int) -> Option<Seq<char>>
    decreases t.len() - i,
{
    if i < 0 || i >= t.len() {
        None
    } else if use_at(t, i) {
        Some(t.subrange(i + 3, first_from(t, ';', i + 3)))
    } else {
        use_search(t, i + 1)
    }
}

/// The text between the first `use` statement's keyword and its `;`.
pub open spec fn use_path(t: Seq<char>) -> Option<Seq<char>> {
    use_search(t, 0)
}

/// The references of a brace group: one per comma-separated item.
pub open spec fn brace_imports(s: Seq<char>, ln: int, file: Seq<char>, stmt: Seq<char>) -> Seq<
    (Seq<char>, Seq<char>, int, Seq<char>),
> {
    match brace_group(s) {
        Some(items) => item_imports(split(items, ","@), ln, file, stmt),
        None => seq![],
    }
}

/// The references of the last segment of a path: the items of a brace group,
/// or the segment itself.
pub open spec fn segment_imports(seg: Seq<char>, ln: int, file: Seq<char>, stmt: Seq<char>) -> Seq<
    (Seq<char>, Seq<char>, int, Seq<char>),
> {
    if contains(seg, "{"@) && contains(seg, "}"@) {
        brace_imports(seg, ln, file, stmt)
    } else {
        seq![(seg, file, ln, stmt)]
    }
}

/// The references of a `use` path. A crate-relative prefix is stripped and
/// the last `::` segment read; other paths with a brace group yield its
/// items, and the rest their last segment.
pub open spec fn path_imports(p: Seq<char>, ln: int, file: Seq<char>, stmt: Seq<char>) -> Seq<
    (Seq<char>, Seq<char>, int, Seq<char>),
> {
    if starts_with(p, "crate::"@) {
        segment_imports(split(p.subrange(7, p.len() as int), "::"@).last(), ln, file, stmt)
    } else if contains(p, "{"@) && contains(p, "}"@) {
        brace_imports(p, ln, file, stmt)
    } else {
        seq![(split(p, "::"@).last(), file, ln, stmt)]
    }
}

/// The references of one line of a file in the `use` language family.
pub open spec fn rust_line_imports(line: Seq<char>, ln: int, file: Seq<char>) -> Seq<
    (Seq<char>, Seq<char>, int, Seq<char>),
> {
    let t = trim(line);
    if starts_with(t, "//"@) {
        seq![]
    } else {
        match use_path(t) {
            Some(g) => path_imports(trim(g), ln, file, t),
            None => seq![],
        }
    }
}

pub open spec fn rust_text_imports(lines: Seq<Seq<char>>, file: Seq<char>) -> Seq<
    (Seq<char>, Seq<char>, int, Seq<char>),
>
    decreases lines.len(),
{
    if lines.len() == 0 {
        seq![]
    } else {
        rust_text_imports(lines.drop_last(), file) + rust_line_imports(
            lines.last(),
            lines.len() as int,
            file,
        )
    }
}

/// The references found in a file's text. Files with the `rs` extension are
/// read with the `use` grammar; where that finds nothing, or for other files,
/// the import patterns that compile are applied.
pub open spec fn imports_of(file: Seq<char>, content: Seq<char>, patterns: Seq<Seq<char>>) -> Seq<
    (Seq<char>, Seq<char>, int, Seq<char>),
> {
    let rust = if path_extension(file) == Some("rs"@) {
        rust_text_imports(lines_of(content), file)
    } else {
        seq![]
    };
    if rust.len() > 0 {
        rust
    } else {
        text_imports(compiling(patterns), lines_of(content), file)
    }
}

fn imports_from_items(items: &Vec<Vec<char>>, ln: usize, file: &String, stmt: &Vec<char>) -> (r: Vec<ImportReference>)
    ensures
        import_views(r@) == item_imports(views(items@), ln as int, file@, stmt@),
{
    let ghost iv = views(items@);
    let statement = string_of(stmt);
    let mut r: Vec<ImportReference> = Vec::new();
    let mut k: usize = 0;
    while k < items.len()
        invariant
            k <= items@.len(),
            iv == views(items@),
            statement@ == stmt@,
            import_views(r@) == item_imports(iv.subrange(0, k as int), ln as int, file@, stmt@),
        decreases items.len() - k,
    {
        assert(iv.subrange(0, k + 1).drop_last() =~= iv.subrange(0, k as int));
        assert(iv.subrange(0, k + 1).last() == items@[k as int]@);
        let t = trim_chars(&items[k]);
        if t.len() > 0 {
            let i = ImportReference {
                name: string_of(&t),
                file_path: file.clone(),
                line_number: ln,
                import_statement: statement.clone(),
            };
            let ghost before = r@;
            r.push(i);
            assert(import_views(r@) =~= import_views(before).push(import_view(i)));
        }
        k = k + 1;
    }
    assert(iv.subrange(0, k as int) =~= iv);
    r
}

/// The references that one import pattern's matches on a line yield.
pub fn imports_from_captures(caps: &Vec<Vec<Option<Vec<char>>>>, ln: usize, file: &String, stmt: &Vec<char>) -> (r: Vec<ImportReference>)
    ensures
        import_views(r@) == capture_imports(capture_views(caps@), ln as int, file@, stmt@),
{
    let ghost cv = capture_views(caps@);
    let comma: Vec<char> = vec![','];
    assert(comma@ =~= ","@) by {
        reveal_strlit(",");
    }
    let mut r: Vec<ImportReference> = Vec::new();
    let mut k: usize = 0;
    while k < caps.len()
        invariant
            k <= caps@.len(),
            cv == capture_views(caps@),
            comma@ == ","@,
            comma@.len() == 1,
            import_views(r@) == capture_imports(cv.subrange(0, k as int), ln as int, file@, stmt@),
        decreases caps.len() - k,
    {
        assert(cv.subrange(0, k + 1).drop_last() =~= cv.subrange(0, k as int));
        let g = &caps[k];
        assert(cv[k as int] == crate::patterns::group_views(g@));
        if g.len() > 1 {
            match &g[1] {
                Some(group) => {
                    let t = trim_chars(group);
                    let items = split_chars(&t, &comma);
                    let mut found = imports_from_items(&items, ln, file, stmt);
                    let ghost before = r@;
                    let ghost fv = found@;
                    r.append(&mut found);
                    assert(import_views(r@) =~= import_views(before) + import_views(fv));
                },
                None => {},
            }
        }
        k = k + 1;
    }
    assert(cv.subrange(0, k as int) =~= cv);
    r
}

fn imports_from_line(pats: &Vec<CompiledPattern>, line: &Vec<char>, ln: usize, file: &String) -> (r: Vec<ImportReference>)
    ensures
        import_views(r@) == line_imports(sources(pats@), line@, ln as int, file@),
{
    let ghost sv = sources(pats@);
    let stmt = trim_chars(line);
    let mut r: Vec<ImportReference> = Vec::new();
    let mut k: usize = 0;
    while k < pats.len()
        invariant
            k <= pats@.len(),
            sv == sources(pats@),
            stmt@ == trim(line@),
            import_views(r@) == line_imports(sv.subrange(0, k as int), line@, ln as int, file@),
        decreases pats.len() - k,
    {
        assert(sv.subrange(0, k + 1).drop_last() =~= sv.subrange(0, k as int));
        assert(sv.subrange(0, k + 1).last() == pats@[k as int].source());
        let caps = captures(&pats[k], line.as_slice());
        let mut found = imports_from_captures(&caps, ln, file, &stmt);
        let ghost before = r@;
        let ghost fv = found@;
        r.append(&mut found);
        assert(import_views(r@) =~= import_views(before) + import_views(fv));
        k = k + 1;
    }
    assert(sv.subrange(0, k as int) =~= sv);
    r
}

fn brace_group_exec(s: &[char]) -> (r: Option<Vec<char>>)
    ensures
        match r {
            Some(v) => brace_group(s@) == Some(v@),
            None => brace_group(s@) is None,
        },
{
    let mut i: usize = 0;
    while i < s.len()
        invariant
            i <= s@.len(),
            brace_group(s@) == brace_search(s@, i as int),
        decreases s.len() - i,
    {
        if s[i] == '{' {
            let p = first_from_exec(s, '}', i + 1);
            proof {
                lemma_first_from_bounds(s@, '}', i + 1);
            }
            if p < s.len() && p >= i + 2 {
                return Some(sub_chars(s, i + 1, p));
            }
        }
        i = i + 1;
    }
    None
}

fn use_path_exec(t: &[char]) -> (r: Option<Vec<char>>)
    ensures
        match r {
            Some(v) => use_path(t@) == Some(v@),
            None => use_path(t@) is None,
        },
{
    let kw = chars_of("use");
    let mut i: usize = 0;
    while i < t.len()
        invariant
            i <= t@.len(),
            kw@ == "use"@,
            use_path(t@) == use_search(t@, i as int),
        decreases t.len() - i,
    {
        if t.len() - i > 3 && matches_at_exec(t, &kw, i) && is_white_space_char(t[i + 3]) {
            let p = first_from_exec(t, ';', i + 3);
            proof {
                lemma_first_from_bounds(t@, ';', i + 3);
            }
            if p < t.len() && p - (i + 3) >= 2 {
                return Some(sub_chars(t, i + 3, p));
            }
        }
        i = i + 1;
    }
    None
}

fn last_segment(s: &[char]) -> (r: Vec<char>)
    ensures
        r@ == split(s@, "::"@).last(),
{
    let sep = chars_of("::");
    proof {
        reveal_strlit("::");
        lemma_split_from_nonempty(s@, sep@, 0, 0);
    }
    let mut parts = split_chars(s, &sep);
    assert(views(parts@).last() == parts@.last()@);
    parts.pop().unwrap()
}

fn brace_imports_exec(s: &[char], ln: usize, file: &String, stmt: &Vec<char>) -> (r: Vec<ImportReference>)
    ensures
        import_views(r@) == brace_imports(s@, ln as int, file@, stmt@),
{
    match brace_group_exec(s) {
        Some(items) => {
            let comma: Vec<char> = vec![','];
            assert(comma@ =~= ","@) by {
                reveal_strlit(",");
            }
            let parts = split_chars(&items, &comma);
            imports_from_items(&parts, ln, file, stmt)
        },
        None => Vec::new(),
    }
}

/// Reads the references out of a `use` path.
fn parse_rust_import_path(import_path: &[char], ln: usize, line: &Vec<char>, file: &String) -> (r: Vec<ImportReference>)
    ensures
        import_views(r@) == path_imports(import_path@, ln as int, file@, line@),
{
    if starts_with_str(import_path, "crate::") {
        proof {
            reveal_strlit("crate::");
        }
        let rest = sub_chars(import_path, 7, import_path.len());
        let seg = last_segment(&rest);
        if contains_str(&seg, "{") && contains_str(&seg, "}") {
            brace_imports_exec(&seg, ln, file, line)
        } else {
            let i = ImportReference {
                name: string_of(&seg),
                file_path: file.clone(),
                line_number: ln,
                import_statement: string_of(line),
            };
            let r = vec![i];
            assert(import_views(r@) =~= seq![import_view(i)]);
            r
        }
    } else if contains_str(import_path, "{") && contains_str(import_path, "}") {
        brace_imports_exec(import_path, ln, file, line)
    } else {
        let seg = last_segment(import_path);
        let i = ImportReference {
            name: string_of(&seg),
            file_path: file.clone(),
            line_number: ln,
            import_statement: string_of(line),
        };
        let r = vec![i];
        assert(import_views(r@) =~= seq![import_view(i)]);
        r
    }
}

/// References found in a file's text with the `use` grammar.
fn extract_rust_imports(file: &String, lines: &Vec<Vec<char>>) -> (r: Vec<ImportReference>)
    ensures
        import_views(r@) == rust_text_imports(views(lines@), file@),
{
    let ghost lv = views(lines@);
    let mut r: Vec<ImportReference> = Vec::new();
    let mut k: usize = 0;
    while k < lines.len()
        invariant
            k <= lines@.len(),
            lv == views(lines@),
            import_views(r@) == rust_text_imports(lv.subrange(0, k as int), file@),
        decreases lines.len() - k,
    {
        assert(lv.subrange(0, k + 1).drop_last() =~= lv.subrange(0, k as int));
        assert(lv.subrange(0, k + 1).last() == lines@[k as int]@);
        let t = trim_chars(&lines[k]);
        if !starts_with_str(&t, "//") {
            match use_path_exec(&t) {
                Some(g) => {
                    let path = trim_chars(&g);
                    let mut found = parse_rust_import_path(&path, k + 1, &t, file);
                    let ghost before = r@;
                    let ghost fv = found@;
                    r.append(&mut found);
                    assert(import_views(r@) =~= import_views(before) + import_views(fv));
                },
                None => {
                    assert(import_views(r@) =~= import_views(r@) + seq![]);
                },
            }
        } else {
            assert(import_views(r@) =~= import_views(r@) + seq![]);
        }
        k = k + 1;
    }
    assert(lv.subrange(0, k as int) =~= lv);
    r
}

/// References found in a file's text: with the `use` grammar for `rs` files,
/// and otherwise, or where that finds none, with the import patterns that
/// compile (the first capture group of each match, split at commas).
pub fn extract_imports(file_path: &String, content: &str, patterns: &Vec<String>) -> (r: Vec<ImportReference>)
    ensures
        import_views(r@) == imports_of(file_path@, content@, patterns@.map_values(|s: String| s@)),
{
    let text = chars_of(content);
    let lines = lines_exec(&text);
    let ghost lv = views(lines@);
    let rs: String = "rs".to_owned();
    let is_rust = match extension_of(file_path.as_str()) {
        Some(e) => e == rs,
        None => false,
    };
    assert(is_rust == (path_extension(file_path@) == Some("rs"@)));
    if is_rust {
        let r = extract_rust_imports(file_path, &lines);
        if r.len() > 0 {
            return r;
        }
        assert(import_views(r@).len() == 0);
    }
    let pats = compile_all(patterns);
    let mut r: Vec<ImportReference> = Vec::new();
    let mut k: usize = 0;
    while k < lines.len()
        invariant
            k <= lines@.len(),
            lv == views(lines@),
            lv == lines_of(content@),
            sources(pats@) == compiling(patterns@.map_values(|s: String| s@)),
            import_views(r@) == text_imports(sources(pats@), lv.subrange(0, k as int), file_path@),
        decreases lines.len() - k,
    {
        assert(lv.subrange(0, k + 1).drop_last() =~= lv.subrange(0, k as int));
        assert(lv.subrange(0, k + 1).last() == lines@[k as int]@);
        let mut found = imports_from_line(&pats, &lines[k], k + 1, file_path);
        let ghost before = r@;
        let ghost fv = found@;
        r.append(&mut found);
        assert(import_views(r@) =~= import_views(before) + import_views(fv));
        k = k + 1;
    }
    assert(lv.subrange(0, k as int) =~= lv);
    r
}

pub open spec fn string_views(v: Seq<String>) -> Seq<Seq<char>> {
    v.map_values(|s: String| s@)
}

/// Index of the first language that lists extension `ext`, from index `k` on.
pub open spec fn language_from(langs: Seq<(String, LanguageConfig)>, ext: Seq<char>, k: int) -> Option<int>
    decreases langs.len() - k,
{
    if k < 0 || k >= langs.len() {
        None
    } else if string_views(langs[k].1.extensions@).contains(ext) {
        Some(k)
    } else {
        language_from(langs, ext, k + 1)
    }
}

/// Index of the first language that lists extension `ext`.
pub open spec fn language_index(langs: Seq<(String, LanguageConfig)>, ext: Seq<char>) -> Option<int> {
    language_from(langs, ext, 0)
}

pub proof fn lemma_language_from_range(langs: Seq<(String, LanguageConfig)>, ext: Seq<char>, k: int)
    requires
        0 <= k,
    ensures
        language_from(langs, ext, k) matches Some(i) ==> k <= i < langs.len(),
    decreases langs.len() - k,
{
    if k < langs.len() && !string_views(langs[k].1.extensions@).contains(ext) {
        lemma_language_from_range(langs, ext, k + 1);
    }
}

/// The exports of a loaded file, read with its language's patterns; none for
/// a file without extension or language.
pub open spec fn file_exports(f: RepoFile, content: Seq<char>, config: Config) -> Seq<
    (Seq<char>, Seq<char>, int, Seq<char>, int),
> {
    match f.extension {
        Some(ext) => match language_index(config.languages@, ext@) {
            Some(k) => exports_of(
                f.path@,
                content,
                string_views(config.languages@[k].1.export_patterns@),
            ),
            None => seq![],
        },
        None => seq![],
    }
}

/// The import references of a loaded file, read with its language's patterns.
pub open spec fn file_imports(f: RepoFile, content: Seq<char>, config: Config) -> Seq<
    (Seq<char>, Seq<char>, int, Seq<char>),
> {
    match f.extension {
        Some(ext) => match language_index(config.languages@, ext@) {
            Some(k) => imports_of(
                f.path@,
                content,
                string_views(config.languages@[k].1.import_patterns@),
            ),
            None => seq![],
        },
        None => seq![],
    }
}

pub open spec fn scan_exports(files: Seq<(RepoFile, String)>, config: Config) -> Seq<
    (Seq<char>, Seq<char>, int, Seq<char>, int),
>
    decreases files.len(),
{
    if files.len() == 0 {
        seq![]
    } else {
        scan_exports(files.drop_last(), config) + file_exports(
            files.last().0,
            files.last().1@,
            config,
        )
    }
}

pub open spec fn scan_imports(files: Seq<(RepoFile, String)>, config: Config) -> Seq<
    (Seq<char>, Seq<char>, int, Seq<char>),
>
    decreases files.len(),
{
    if files.len() == 0 {
        seq![]
    } else {
        scan_imports(files.drop_last(), config) + file_imports(
            files.last().0,
            files.last().1@,
            config,
        )
    }
}

fn find_language(config: &Config, ext: &String) -> (r: Option<usize>)
    ensures
        match r {
            Some(k) => language_index(config.languages@, ext@) == Some(k as int),
            None => language_index(config.languages@, ext@) is None,
        },
{
    let langs = &config.languages;
    let mut k: usize = 0;
    while k < langs.len()
        invariant
            k <= langs@.len(),
            langs@ == config.languages@,
            language_index(langs@, ext@) == language_from(langs@, ext@, k as int),
        decreases langs.len() - k,
    {
        let exts = &langs[k].1.extensions;
        let ghost ev = string_views(exts@);
        let mut found = false;
        let mut i: usize = 0;
        while i < exts.len()
            invariant
                i <= exts@.len(),
                ev == string_views(exts@),
                found == exists|m: int| 0 <= m < i && ev[m] == ext@,
            decreases exts.len() - i,
        {
            assert(ev[i as int] == exts@[i as int]@);
            if exts[i] == *ext {
                found = true;
            }
            i = i + 1;
        }
        if found {
            proof {
                let m = choose|m: int| 0 <= m < i && ev[m] == ext@;
                assert(ev.contains(ext@));
                assert(exts@ == langs@[k as int].1.extensions@);
                assert(language_from(langs@, ext@, k as int) == Some(k as int));
            }
            return Some(k);
        }
        k = k + 1;
    }
    None
}

/// Exports and import references of every loaded file whose extension some
/// language lists, read with the first such language's patterns, in file
/// order.
pub fn scan_repository(files: &Vec<(RepoFile, String)>, config: &Config) -> (r: (Vec<ExportedEntity>, Vec<ImportReference>))
    ensures
        export_views(r.0@) == scan_exports(files@, *config),
        import_views(r.1@) == scan_imports(files@, *config),
{
    let mut exports: Vec<ExportedEntity> = Vec::new();
    let mut imports: Vec<ImportReference> = Vec::new();
    let mut k: usize = 0;
    while k < files.len()
        invariant
            k <= files@.len(),
            export_views(exports@) == scan_exports(files@.subrange(0, k as int), *config),
            import_views(imports@) == scan_imports(files@.subrange(0, k as int), *config),
        decreases files.len() - k,
    {
        assert(files@.subrange(0, k + 1).drop_last() =~= files@.subrange(0, k as int));
        let (file, content) = &files[k];
        assert(files@.subrange(0, k + 1).last() == files@[k as int]);
        match &file.extension {
            Some(ext) => match find_language(config, ext) {
                Some(li) => {
                    proof {
                        lemma_language_from_range(config.languages@, ext@, 0);
                    }
                    let lang = &config.languages[li].1;
                    let mut fe = extract_exports(&file.path, content.as_str(), &lang.export_patterns);
                    let mut fi = extract_imports(&file.path, content.as_str(), &lang.import_patterns);
                    let ghost (be, bi, fev, fiv) = (exports@, imports@, fe@, fi@);
                    exports.append(&mut fe);
                    imports.append(&mut fi);
                    assert(export_views(exports@) =~= export_views(be) + export_views(fev));
                    assert(import_views(imports@) =~= import_views(bi) + import_views(fiv));
                },
                None => {
                    assert(export_views(exports@) =~= export_views(exports@) + seq![]);
                    assert(import_views(imports@) =~= import_views(imports@) + seq![]);
                },
            },
            None => {
                assert(export_views(exports@) =~= export_views(exports@) + seq![]);
                assert(import_views(imports@) =~= import_views(imports@) + seq![]);
            },
        }
        k = k + 1;
    }
    assert(files@.subrange(0, k as int) =~= files@);
    (exports, imports)
}

/// Extraction is repeatable: from the same path, text and patterns it
/// yields the same export and import records every time (usage counts, which
/// only linking changes, start at 0 in both).
pub proof fn lemma_extraction_repeatable(
    file: Seq<char>,
    content: Seq<char>,
    export_patterns: Seq<Seq<char>>,
    import_patterns: Seq<Seq<char>>,
    first_exports: Seq<ExportedEntity>,
    second_exports: Seq<ExportedEntity>,
    first_imports: Seq<ImportReference>,
    second_imports: Seq<ImportReference>,
)
    requires
        export_views(first_exports) == exports_of(file, content, export_patterns),
        export_views(second_exports) == exports_of(file, content, export_patterns),
        import_views(first_imports) == imports_of(file, content, import_patterns),
        import_views(second_imports) == imports_of(file, content, import_patterns),
    ensures
        export_views(first_exports) == export_views(second_exports),
        import_views(first_imports) == import_views(second_imports),
        forall|i: int|
            0 <= i < first_exports.len() ==> #[trigger] first_exports[i].usage_count == 0,
{
    assert forall|i: int| 0 <= i < first_exports.len() implies #[trigger] first_exports[i].usage_count
        == 0 by {
        lemma_exports_unused(
            compiling(export_patterns),
            lines_of(content),
            file,
            i,
        );
        assert(export_views(first_exports)[i] == export_view(first_exports[i]));
    }
}

proof fn lemma_capture_exports_unused(
    caps: Seq<Seq<Option<Seq<char>>>>,
    line: Seq<char>,
    ln: int,
    file: Seq<char>,
)
    ensures
        forall|i: int| 0 <= i < capture_exports(caps, line, ln, file).len() ==> (#[trigger] capture_exports(caps, line, ln, file)[i]).4 == 0,
    decreases caps.len(),
{
    if caps.len() > 0 {
        lemma_capture_exports_unused(caps.drop_last(), line, ln, file);
        let prev = capture_exports(caps.drop_last(), line, ln, file);
        let all = capture_exports(caps, line, ln, file);
        assert forall|i: int| 0 <= i < all.len() implies (#[trigger] all[i]).4 == 0 by {
            if i < prev.len() {
                assert(all[i] == prev[i]);
            }
        }
    }
}

proof fn lemma_line_exports_unused(pats: Seq<Seq<char>>, line: Seq<char>, ln: int, file: Seq<char>)
    ensures
        forall|i: int| 0 <= i < line_exports(pats, line, ln, file).len() ==> (#[trigger] line_exports(pats, line, ln, file)[i]).4 == 0,
    decreases pats.len(),
{
    if pats.len() > 0 {
        lemma_line_exports_unused(pats.drop_last(), line, ln, file);
        lemma_capture_exports_unused(regex_captures(pats.last(), line), line, ln, file);
        let a = line_exports(pats.drop_last(), line, ln, file);
        let b = capture_exports(regex_captures(pats.last(), line), line, ln, file);
        assert forall|i: int| 0 <= i < (a + b).len() implies (#[trigger] (a + b)[i]).4 == 0 by {
            if i >= a.len() {
                assert((a + b)[i] == b[i - a.len()]);
            }
        }
    }
}

proof fn lemma_exports_unused(pats: Seq<Seq<char>>, lines: Seq<Seq<char>>, file: Seq<char>, k: int)
    ensures
        0 <= k < text_exports(pats, lines, file).len() ==> text_exports(pats, lines, file)[k].4 == 0,
    decreases lines.len(),
{
    if lines.len() > 0 && 0 <= k < text_exports(pats, lines, file).len() {
        let a = text_exports(pats, lines.drop_last(), file);
        let b = line_exports(pats, lines.last(), lines.len() as int, file);
        lemma_line_exports_unused(pats, lines.last(), lines.len() as int, file);
        if k < a.len() {
            lemma_exports_unused(pats, lines.drop_last(), file, k);
            assert((a + b)[k] == a[k]);
        } else {
            assert((a + b)[k] == b[k - a.len()]);
        }
    }
}

} // verus!
