//! The file-level dependency graph: links import references to exported
//! entities by name, and scores files by how much other code relies on them.
use vstd::prelude::*;
use crate::exports::{ExportedEntity, ImportReference};
use crate::paths::{ancestor_dirs, ancestors, lemma_ancestors_shorter};

verus! {

/// Number of import references that name `name`.
pub open spec fn name_count(imports: Seq<ImportReference>, name: Seq<char>) -> nat
    decreases imports.len(),
{
    if imports.len() == 0 {
        0
    } else {
        name_count(imports.drop_last(), name) + if imports.last().name@ == name {
            1nat
        } else {
            0nat
        }
    }
}

/// Import `j` names export `k`, and comes from another file.
pub open spec fn links(
    exports: Seq<ExportedEntity>,
    imports: Seq<ImportReference>,
    k: int,
    j: int,
) -> bool {
    0 <= k < exports.len() && 0 <= j < imports.len() && imports[j].name@ == exports[k].name@
        && imports[j].file_path@ != exports[k].file_path@
}

/// The edges (importing file, exporting file) that linking yields from the
/// exports before `k`, and from export `k` with the imports before `j`.
pub open spec fn link_edges_upto(
    exports: Seq<ExportedEntity>,
    imports: Seq<ImportReference>,
    k: int,
    j: int,
) -> Set<(Seq<char>, Seq<char>)> {
    Set::new(
        |p: (Seq<char>, Seq<char>)|
            exists|a: int, b: int|
                #[trigger] links(exports, imports, a, b) && (a < k || (a == k && b < j)) && p == (
                    imports[b].file_path@,
                    exports[a].file_path@,
                ),
    )
}

/// Every edge that linking yields: one from each importing file to each file
/// that exports a name it imports, unless the two are the same file.
pub open spec fn link_edges(exports: Seq<ExportedEntity>, imports: Seq<ImportReference>) -> Set<
    (Seq<char>, Seq<char>),
> {
    Set::new(
        |p: (Seq<char>, Seq<char>)|
            exists|a: int, b: int|
                #[trigger] links(exports, imports, a, b) && p == (
                    imports[b].file_path@,
                    exports[a].file_path@,
                ),
    )
}

/// Sum of the usage counts of the entities that `f` exports.
pub open spec fn usage_sum(exports: Seq<ExportedEntity>, f: Seq<char>) -> nat
    decreases exports.len(),
{
    if exports.len() == 0 {
        0
    } else {
        usage_sum(exports.drop_last(), f) + if exports.last().file_path@ == f {
            exports.last().usage_count as nat
        } else {
            0nat
        }
    }
}

/// Sum of all usage counts.
pub open spec fn total_usage(exports: Seq<ExportedEntity>) -> nat
    decreases exports.len(),
{
    if exports.len() == 0 {
        0
    } else {
        total_usage(exports.drop_last()) + exports.last().usage_count as nat
    }
}

/// The files that hold exports, each once, in order of first appearance.
pub open spec fn distinct_files(exports: Seq<ExportedEntity>) -> Seq<Seq<char>>
    decreases exports.len(),
{
    if exports.len() == 0 {
        seq![]
    } else {
        let prev = distinct_files(exports.drop_last());
        if prev.contains(exports.last().file_path@) {
            prev
        } else {
            prev.push(exports.last().file_path@)
        }
    }
}

/// The targets of the edges that leave `f`, in edge order.
pub open spec fn targets_from(edges: Seq<(Seq<char>, Seq<char>)>, f: Seq<char>) -> Seq<Seq<char>>
    decreases edges.len(),
{
    if edges.len() == 0 {
        seq![]
    } else {
        let prev = targets_from(edges.drop_last(), f);
        if edges.last().0 == f {
            prev.push(edges.last().1)
        } else {
            prev
        }
    }
}

/// The sources of the edges that enter `f`, in edge order.
pub open spec fn sources_to(edges: Seq<(Seq<char>, Seq<char>)>, f: Seq<char>) -> Seq<Seq<char>>
    decreases edges.len(),
{
    if edges.len() == 0 {
        seq![]
    } else {
        let prev = sources_to(edges.drop_last(), f);
        if edges.last().1 == f {
            prev.push(edges.last().0)
        } else {
            prev
        }
    }
}

/// The score recorded for `f`, or 0 where none is.
pub open spec fn lookup_score(scores: Seq<(Seq<char>, nat)>, f: Seq<char>) -> nat
    decreases scores.len(),
{
    if scores.len() == 0 {
        0
    } else if scores[0].0 == f {
        scores[0].1
    } else {
        lookup_score(scores.drop_first(), f)
    }
}

/// Importance of `f`: the usage counts of its exports, plus two for each file
/// that depends on it.
pub open spec fn importance_formula(
    exports: Seq<ExportedEntity>,
    edges: Seq<(Seq<char>, Seq<char>)>,
    f: Seq<char>,
) -> nat {
    usage_sum(exports, f) + 2 * sources_to(edges, f).len()
}

/// Linking fits in machine integers: every usage count and importance score
/// that it can produce stays within `usize`.
pub open spec fn linking_fits_spec(exports: Seq<ExportedEntity>, imports: Seq<ImportReference>) -> bool {
    total_usage(exports) + 3 * exports.len() * imports.len() <= usize::MAX
}

/// Entity `new` is entity `old` with the references that name it added to its
/// usage count.
pub open spec fn relinked(old: ExportedEntity, new: ExportedEntity, imports: Seq<ImportReference>) -> bool {
    new.name@ == old.name@ && new.file_path@ == old.file_path@ && new.line_number
        == old.line_number && new.export_type@ == old.export_type@ && new.usage_count
        == old.usage_count + name_count(imports, old.name@)
}

/// The (file, score) pairs of a list, as values.
pub open spec fn score_entries(v: Seq<(String, usize)>) -> Seq<(Seq<char>, nat)> {
    v.map_values(|e: (String, usize)| (e.0@, e.1 as nat))
}

/// Forward and reverse adjacency between files, and each file's importance.
/// Both adjacencies are read off one list of edges (importing file, exporting
/// file), so an edge A to B is a dependency of A exactly when A is a dependent
/// of B.
#[derive(Debug)]
pub struct DependencyGraph {
    edges: Vec<(String, String)>,
    importance_scores: Vec<(String, usize)>,
}

impl DependencyGraph {
    pub closed spec fn edge_list(&self) -> Seq<(Seq<char>, Seq<char>)> {
        self.edges@.map_values(|e: (String, String)| (e.0@, e.1@))
    }

    pub closed spec fn score_list(&self) -> Seq<(Seq<char>, nat)> {
        score_entries(self.importance_scores@)
    }

    pub open spec fn edge_set(&self) -> Set<(Seq<char>, Seq<char>)> {
        self.edge_list().to_set()
    }

    /// Files that `f` depends on.
    pub open spec fn dependencies_of(&self, f: Seq<char>) -> Seq<Seq<char>> {
        targets_from(self.edge_list(), f)
    }

    /// Files that depend on `f`.
    pub open spec fn dependents_of(&self, f: Seq<char>) -> Seq<Seq<char>> {
        sources_to(self.edge_list(), f)
    }

    pub open spec fn importance_of(&self, f: Seq<char>) -> nat {
        lookup_score(self.score_list(), f)
    }

    /// No edge twice, no edge from a file to itself, one score per file.
    pub open spec fn wf(&self) -> bool {
        &&& self.edge_list().no_duplicates()
        &&& forall|i: int| 0 <= i < self.edge_list().len() ==> #[trigger] self.edge_list()[i].0
            != self.edge_list()[i].1
        &&& self.score_list().map_values(|e: (Seq<char>, nat)| e.0).no_duplicates()
    }

    /// An empty graph.
    pub fn new() -> (r: Self)
        ensures
            r.wf(),
            r.edge_list() == Seq::<(Seq<char>, Seq<char>)>::empty(),
            r.score_list() == Seq::<(Seq<char>, nat)>::empty(),
    {
        let r = DependencyGraph { edges: Vec::new(), importance_scores: Vec::new() };
        assert(r.edge_list() =~= Seq::<(Seq<char>, Seq<char>)>::empty());
        assert(r.score_list() =~= Seq::<(Seq<char>, nat)>::empty());
        assert(r.score_list().map_values(|e: (Seq<char>, nat)| e.0) =~= Seq::<Seq<char>>::empty());
        r
    }

    /// Records the edge `from` to `to` unless it is there already.
    fn add_dependency(&mut self, from: &String, to: &String)
        requires
            old(self).wf(),
            from@ != to@,
        ensures
            final(self).wf(),
            final(self).edge_set() == old(self).edge_set().insert((from@, to@)),
            final(self).edge_list().len() <= old(self).edge_list().len() + 1,
            final(self).score_list() == old(self).score_list(),
    {
        let ghost el = self.edge_list();
        let mut i: usize = 0;
        while i < self.edges.len()
            invariant
                i <= self.edges@.len(),
                el == self.edge_list(),
                *self == *old(self),
                self.wf(),
                forall|m: int| 0 <= m < i ==> el[m] != (from@, to@),
            decreases self.edges.len() - i,
        {
            if self.edges[i].0 == *from && self.edges[i].1 == *to {
                assert(el[i as int] == (from@, to@));
                assert(el.to_set().insert((from@, to@)) =~= el.to_set());
                return;
            }
            i = i + 1;
        }
        self.edges.push((from.clone(), to.clone()));
        proof {
            let nl = self.edge_list();
            assert(nl =~= el.push((from@, to@)));
            assert(!el.contains((from@, to@)));
            assert(nl.to_set() =~= el.to_set().insert((from@, to@))) by {
                assert forall|p| nl.to_set().contains(p) <==> el.to_set().insert(
                    (from@, to@),
                ).contains(p) by {
                    if nl.to_set().contains(p) {
                        let m = choose|m: int| 0 <= m < nl.len() && nl[m] == p;
                        if m < el.len() {
                            assert(el[m] == p);
                        }
                    }
                    if el.to_set().contains(p) {
                        let m = choose|m: int| 0 <= m < el.len() && el[m] == p;
                        assert(nl[m] == p);
                    }
                    if p == (from@, to@) {
                        assert(nl[el.len() as int] == p);
                    }
                }
            }
        }
    }

    /// Every scored file with its score, sorted by score, highest first.
    pub fn get_files_by_importance(&self) -> (r: Vec<(String, usize)>)
        ensures
            r@.len() == self.score_list().len(),
            forall|i: int|
                0 <= i < r@.len() ==> self.score_list().contains(#[trigger] score_entries(r@)[i]),
            forall|i: int|
                0 <= i < self.score_list().len() ==> score_entries(r@).contains(
                    #[trigger] self.score_list()[i],
                ),
            forall|i: int, j: int| 0 <= i < j < r@.len() ==> r@[i].1 >= r@[j].1,
    {
        let ghost sl = self.score_list();
        let mut r: Vec<(String, usize)> = Vec::new();
        let mut k: usize = 0;
        while k < self.importance_scores.len()
            invariant
                k <= sl.len(),
                sl == self.score_list(),
                sl.len() == self.importance_scores@.len(),
                r@.len() == k,
                forall|i: int|
                    0 <= i < r@.len() ==> sl.contains(#[trigger] score_entries(r@)[i]),
                forall|i: int| 0 <= i < k ==> score_entries(r@).contains(#[trigger] sl[i]),
                forall|i: int, j: int| 0 <= i < j < r@.len() ==> r@[i].1 >= r@[j].1,
            decreases self.importance_scores.len() - k,
        {
            let score = self.importance_scores[k].1;
            let mut pos: usize = 0;
            while pos < r.len() && r[pos].1 >= score
                invariant
                    pos <= r@.len(),
                    forall|i: int| 0 <= i < pos ==> r@[i].1 >= score,
                decreases r.len() - pos,
            {
                pos = pos + 1;
            }
            let item = (self.importance_scores[k].0.clone(), score);
            let ghost old_r = r@;
            r.insert(pos, item);
            proof {
                let oe = score_entries(old_r);
                let ne = score_entries(r@);
                assert(r@ == old_r.insert(pos as int, item));
                assert(ne =~= oe.insert(pos as int, (item.0@, item.1 as nat)));
                assert(sl[k as int] == (item.0@, item.1 as nat));
                assert forall|i: int| 0 <= i < ne.len() implies sl.contains(#[trigger] ne[i]) by {
                    if i < pos {
                        assert(ne[i] == oe[i]);
                    } else if i > pos {
                        assert(ne[i] == oe[i - 1]);
                    }
                }
                assert forall|i: int| 0 <= i < k + 1 implies ne.contains(#[trigger] sl[i]) by {
                    if i == k {
                        assert(ne[pos as int] == sl[i]);
                    } else {
                        assert(oe.contains(sl[i]));
                        let m = choose|m: int| 0 <= m < oe.len() && oe[m] == sl[i];
                        if m < pos {
                            assert(ne[m] == oe[m]);
                        } else {
                            assert(ne[m + 1] == oe[m]);
                        }
                    }
                }
                assert forall|i: int, j: int| 0 <= i < j < r@.len() implies r@[i].1 >= r@[j].1 by {
                    if pos < old_r.len() {
                        assert(old_r[pos as int].1 < score);
                    }
                }
            }
            k = k + 1;
        }
        r
    }

    /// The importance score of a file (0 for a file that was not scored).
    pub fn get_file_importance(&self, file_path: &str) -> (r: usize)
        ensures
            r == self.importance_of(file_path@),
    {
        let target: String = file_path.to_owned();
        let ghost sl = self.score_list();
        let n = self.importance_scores.len();
        let mut k: usize = 0;
        assert(sl.subrange(0, n as int) =~= sl);
        while k < n
            invariant
                k <= n,
                n == sl.len(),
                target@ == file_path@,
                sl == self.score_list(),
                lookup_score(sl, file_path@) == lookup_score(sl.subrange(k as int, n as int), file_path@),
            decreases n - k,
        {
            assert(sl.subrange(k as int, n as int).drop_first() =~= sl.subrange(k + 1, n as int));
            if self.importance_scores[k].0 == target {
                return self.importance_scores[k].1;
            }
            k = k + 1;
        }
        0
    }

    /// Files that depend on the given file.
    pub fn get_dependent_files(&self, file_path: &str) -> (r: Vec<String>)
        ensures
            r@.map_values(|s: String| s@) == self.dependents_of(file_path@),
    {
        let target: String = file_path.to_owned();
        let ghost el = self.edge_list();
        let mut r: Vec<String> = Vec::new();
        let mut k: usize = 0;
        while k < self.edges.len()
            invariant
                k <= el.len(),
                el == self.edge_list(),
                target@ == file_path@,
                r@.map_values(|s: String| s@) == sources_to(el.subrange(0, k as int), file_path@),
            decreases self.edges.len() - k,
        {
            assert(el.subrange(0, k + 1).drop_last() =~= el.subrange(0, k as int));
            if self.edges[k].1 == target {
                r.push(self.edges[k].0.clone());
            }
            proof {
                assert(r@.map_values(|s: String| s@) =~= sources_to(el.subrange(0, k + 1), file_path@));
            }
            k = k + 1;
        }
        assert(el.subrange(0, k as int) =~= el);
        r
    }

    /// Files that the given file depends on.
    pub fn get_dependencies(&self, file_path: &str) -> (r: Vec<String>)
        ensures
            r@.map_values(|s: String| s@) == self.dependencies_of(file_path@),
    {
        let target: String = file_path.to_owned();
        let ghost el = self.edge_list();
        let mut r: Vec<String> = Vec::new();
        let mut k: usize = 0;
        while k < self.edges.len()
            invariant
                k <= el.len(),
                el == self.edge_list(),
                target@ == file_path@,
                r@.map_values(|s: String| s@) == targets_from(el.subrange(0, k as int), file_path@),
            decreases self.edges.len() - k,
        {
            assert(el.subrange(0, k + 1).drop_last() =~= el.subrange(0, k as int));
            if self.edges[k].0 == target {
                r.push(self.edges[k].1.clone());
            }
            proof {
                assert(r@.map_values(|s: String| s@) =~= targets_from(el.subrange(0, k + 1), file_path@));
            }
            k = k + 1;
        }
        assert(el.subrange(0, k as int) =~= el);
        r
    }
}

proof fn lemma_link_step(ex: Seq<ExportedEntity>, im: Seq<ImportReference>, k: int, j: int)
    requires
        0 <= k < ex.len(),
        0 <= j < im.len(),
    ensures
        links(ex, im, k, j) ==> link_edges_upto(ex, im, k, j + 1) == link_edges_upto(
            ex,
            im,
            k,
            j,
        ).insert((im[j].file_path@, ex[k].file_path@)),
        !links(ex, im, k, j) ==> link_edges_upto(ex, im, k, j + 1) == link_edges_upto(
            ex,
            im,
            k,
            j,
        ),
{
    let s0 = link_edges_upto(ex, im, k, j);
    let s1 = link_edges_upto(ex, im, k, j + 1);
    if links(ex, im, k, j) {
        assert(s1 =~= s0.insert((im[j].file_path@, ex[k].file_path@))) by {
            assert(s1.contains((im[j].file_path@, ex[k].file_path@)));
        }
    } else {
        assert(s1 =~= s0);
    }
}

proof fn lemma_link_row(ex: Seq<ExportedEntity>, im: Seq<ImportReference>, k: int)
    ensures
        link_edges_upto(ex, im, k, im.len() as int) == link_edges_upto(ex, im, k + 1, 0),
        link_edges_upto(ex, im, k, 0) == link_edges_upto(ex, im, k - 1, im.len() as int) || k
            == 0,
        link_edges_upto(ex, im, ex.len() as int, 0) == link_edges(ex, im),
        link_edges_upto(ex, im, 0, 0) == Set::<(Seq<char>, Seq<char>)>::empty(),
{
    assert(link_edges_upto(ex, im, k, im.len() as int) =~= link_edges_upto(ex, im, k + 1, 0));
    assert(link_edges_upto(ex, im, ex.len() as int, 0) =~= link_edges(ex, im));
    assert(link_edges_upto(ex, im, 0, 0) =~= Set::<(Seq<char>, Seq<char>)>::empty());
    if k > 0 {
        assert(link_edges_upto(ex, im, k, 0) =~= link_edges_upto(ex, im, k - 1, im.len() as int));
    }
}

proof fn lemma_name_count_le(im: Seq<ImportReference>, name: Seq<char>)
    ensures
        name_count(im, name) <= im.len(),
    decreases im.len(),
{
    if im.len() > 0 {
        lemma_name_count_le(im.drop_last(), name);
    }
}

proof fn lemma_usage_le_total(ex: Seq<ExportedEntity>, f: Seq<char>)
    ensures
        usage_sum(ex, f) <= total_usage(ex),
    decreases ex.len(),
{
    if ex.len() > 0 {
        lemma_usage_le_total(ex.drop_last(), f);
    }
}

proof fn lemma_entity_le_total(ex: Seq<ExportedEntity>, k: int)
    requires
        0 <= k < ex.len(),
    ensures
        ex[k].usage_count <= total_usage(ex),
    decreases ex.len(),
{
    if k < ex.len() - 1 {
        lemma_entity_le_total(ex.drop_last(), k);
    }
}

proof fn lemma_total_relinked(old: Seq<ExportedEntity>, new: Seq<ExportedEntity>, m: nat)
    requires
        old.len() == new.len(),
        forall|i: int| 0 <= i < old.len() ==> new[i].usage_count <= old[i].usage_count + m,
    ensures
        total_usage(new) <= total_usage(old) + old.len() * m,
    decreases old.len(),
{
    if old.len() > 0 {
        let n = old.len();
        lemma_total_relinked(old.drop_last(), new.drop_last(), m);
        assert((n - 1) * m + m == n * m) by (nonlinear_arith);
    }
}

proof fn lemma_sources_len(edges: Seq<(Seq<char>, Seq<char>)>, f: Seq<char>)
    ensures
        sources_to(edges, f).len() <= edges.len(),
    decreases edges.len(),
{
    if edges.len() > 0 {
        lemma_sources_len(edges.drop_last(), f);
    }
}

proof fn lemma_usage_prefix(ex: Seq<ExportedEntity>, f: Seq<char>, i: int)
    requires
        0 <= i <= ex.len(),
    ensures
        usage_sum(ex.subrange(0, i), f) <= usage_sum(ex, f),
    decreases ex.len(),
{
    if i == ex.len() {
        assert(ex.subrange(0, i) =~= ex);
    } else {
        assert(ex.drop_last().subrange(0, i) =~= ex.subrange(0, i));
        lemma_usage_prefix(ex.drop_last(), f, i);
    }
}

proof fn lemma_distinct_files_no_dup(ex: Seq<ExportedEntity>)
    ensures
        distinct_files(ex).no_duplicates(),
    decreases ex.len(),
{
    if ex.len() > 0 {
        lemma_distinct_files_no_dup(ex.drop_last());
    }
}

fn usage_sum_exec(exports: &Vec<ExportedEntity>, f: &String) -> (r: usize)
    requires
        usage_sum(exports@, f@) <= usize::MAX,
    ensures
        r == usage_sum(exports@, f@),
{
    let mut sum: usize = 0;
    let mut i: usize = 0;
    while i < exports.len()
        invariant
            i <= exports@.len(),
            usage_sum(exports@, f@) <= usize::MAX,
            sum == usage_sum(exports@.subrange(0, i as int), f@),
        decreases exports.len() - i,
    {
        assert(exports@.subrange(0, i + 1).drop_last() =~= exports@.subrange(0, i as int));
        proof {
            lemma_usage_prefix(exports@, f@, i + 1);
        }
        if exports[i].file_path == *f {
            sum = sum + exports[i].usage_count;
        }
        i = i + 1;
    }
    assert(exports@.subrange(0, i as int) =~= exports@);
    sum
}

impl DependencyGraph {
    fn dependent_count(&self, f: &String) -> (r: usize)
        ensures
            r == sources_to(self.edge_list(), f@).len(),
    {
        let ghost el = self.edge_list();
        let mut cnt: usize = 0;
        let mut k: usize = 0;
        while k < self.edges.len()
            invariant
                k <= el.len(),
                el == self.edge_list(),
                cnt <= k,
                cnt == sources_to(el.subrange(0, k as int), f@).len(),
            decreases self.edges.len() - k,
        {
            assert(el.subrange(0, k + 1).drop_last() =~= el.subrange(0, k as int));
            if self.edges[k].1 == *f {
                cnt = cnt + 1;
            }
            k = k + 1;
        }
        assert(el.subrange(0, k as int) =~= el);
        cnt
    }

    fn has_score_for(&self, f: &String) -> (r: bool)
        ensures
            r == self.score_list().map_values(|e: (Seq<char>, nat)| e.0).contains(f@),
    {
        let ghost keys = self.score_list().map_values(|e: (Seq<char>, nat)| e.0);
        let mut k: usize = 0;
        while k < self.importance_scores.len()
            invariant
                k <= keys.len(),
                keys.len() == self.importance_scores@.len(),
                keys == self.score_list().map_values(|e: (Seq<char>, nat)| e.0),
                forall|m: int| 0 <= m < k ==> keys[m] != f@,
            decreases self.importance_scores.len() - k,
        {
            assert(keys[k as int] == self.importance_scores@[k as int].0@);
            if self.importance_scores[k].0 == *f {
                return true;
            }
            k = k + 1;
        }
        false
    }
}

/// Scores each file that holds exports: the usage counts of its exports plus
/// two for each file that depends on it.
fn calculate_importance_scores(graph: &mut DependencyGraph, exports: &Vec<ExportedEntity>)
    requires
        old(graph).wf(),
        old(graph).score_list() == Seq::<(Seq<char>, nat)>::empty(),
        forall|f: Seq<char>|
            #[trigger] importance_formula(exports@, old(graph).edge_list(), f) <= usize::MAX,
    ensures
        final(graph).wf(),
        final(graph).edge_list() == old(graph).edge_list(),
        final(graph).score_list().len() == distinct_files(exports@).len(),
        forall|i: int|
            0 <= i < final(graph).score_list().len() ==> #[trigger] final(graph).score_list()[i] == (
                distinct_files(exports@)[i],
                importance_formula(exports@, old(graph).edge_list(), distinct_files(exports@)[i]),
            ),
{
    let ghost el = graph.edge_list();
    let n = exports.len();
    let mut k: usize = 0;
    while k < n
        invariant
            k <= n,
            n == exports@.len(),
            el == graph.edge_list(),
            graph.wf(),
            forall|f: Seq<char>| #[trigger] importance_formula(exports@, el, f) <= usize::MAX,
            graph.score_list().map_values(|e: (Seq<char>, nat)| e.0) == distinct_files(
                exports@.subrange(0, k as int),
            ),
            forall|i: int|
                0 <= i < graph.score_list().len() ==> #[trigger] graph.score_list()[i].1
                    == importance_formula(exports@, el, graph.score_list()[i].0),
        decreases n - k,
    {
        let ghost prefix = exports@.subrange(0, k as int);
        assert(exports@.subrange(0, k + 1).drop_last() =~= prefix);
        assert(exports@.subrange(0, k + 1).last() == exports@[k as int]);
        let f = &exports[k].file_path;
        if !graph.has_score_for(f) {
            proof {
                assert(importance_formula(exports@, el, f@) <= usize::MAX);
            }
            let u = usage_sum_exec(exports, f);
            let d = graph.dependent_count(f);
            let ghost old_keys = graph.score_list().map_values(|e: (Seq<char>, nat)| e.0);
            let ghost old_sl = graph.score_list();
            graph.importance_scores.push((f.clone(), u + 2 * d));
            proof {
                assert(graph.score_list() =~= old_sl.push((f@, (u + 2 * d) as nat)));
                assert(graph.score_list().map_values(|e: (Seq<char>, nat)| e.0) =~= old_keys.push(
                    f@,
                ));
                lemma_distinct_files_no_dup(exports@.subrange(0, k + 1));
                assert(graph.edge_list() == el);
            }
        }
        k = k + 1;
    }
    proof {
        assert(exports@.subrange(0, n as int) =~= exports@);
        let keys = graph.score_list().map_values(|e: (Seq<char>, nat)| e.0);
        assert forall|i: int| 0 <= i < graph.score_list().len() implies #[trigger] graph.score_list()[i] == (
            distinct_files(exports@)[i],
            importance_formula(exports@, el, distinct_files(exports@)[i]),
        ) by {
            assert(keys[i] == graph.score_list()[i].0);
        }
    }
}

/// Links every import reference to every export of the same name. Each
/// export's usage count grows by the number of references to its name, and
/// each reference from another file adds an edge from the importing file to
/// the exporting one; then every file that holds exports is scored.
pub fn build_dependency_graph(exports: &mut Vec<ExportedEntity>, imports: &Vec<ImportReference>) -> (graph: DependencyGraph)
    requires
        linking_fits_spec(old(exports)@, imports@),
    ensures
        final(exports)@.len() == old(exports)@.len(),
        forall|k: int|
            0 <= k < old(exports)@.len() ==> relinked(
                #[trigger] old(exports)@[k],
                final(exports)@[k],
                imports@,
            ),
        graph.wf(),
        graph.edge_set() == link_edges(old(exports)@, imports@),
        graph.score_list().len() == distinct_files(final(exports)@).len(),
        forall|i: int|
            0 <= i < graph.score_list().len() ==> #[trigger] graph.score_list()[i] == (
                distinct_files(final(exports)@)[i],
                importance_formula(
                    final(exports)@,
                    graph.edge_list(),
                    distinct_files(final(exports)@)[i],
                ),
            ),
{
    let ghost old_ex = exports@;
    let ni = imports.len();
    let mut graph = DependencyGraph::new();
    let n = exports.len();
    let mut k: usize = 0;
    proof {
        lemma_link_row(old_ex, imports@, 0);
        assert(graph.edge_list().to_set() =~= Set::<(Seq<char>, Seq<char>)>::empty());
    }
    while k < n
        invariant
            k <= n,
            n == exports@.len(),
            n == old_ex.len(),
            ni == imports@.len(),
            linking_fits_spec(old_ex, imports@),
            forall|m: int| 0 <= m < k ==> relinked(#[trigger] old_ex[m], exports@[m], imports@),
            forall|m: int| k <= m < n ==> #[trigger] exports@[m] == old_ex[m],
            graph.wf(),
            graph.score_list() == Seq::<(Seq<char>, nat)>::empty(),
            graph.edge_set() == link_edges_upto(old_ex, imports@, k as int, 0),
            graph.edge_list().len() <= k * ni,
        decreases n - k,
    {
        let mut cnt: usize = 0;
        let mut j: usize = 0;
        assert(imports@.subrange(0, 0) =~= Seq::<ImportReference>::empty());
        while j < ni
            invariant
                k < n,
                j <= ni,
                n == exports@.len(),
                n == old_ex.len(),
                ni == imports@.len(),
                exports@[k as int] == old_ex[k as int],
                cnt <= j,
                cnt == name_count(imports@.subrange(0, j as int), old_ex[k as int].name@),
                graph.wf(),
                graph.score_list() == Seq::<(Seq<char>, nat)>::empty(),
                graph.edge_set() == link_edges_upto(old_ex, imports@, k as int, j as int),
                graph.edge_list().len() <= k * ni + j,
            decreases ni - j,
        {
            assert(imports@.subrange(0, j + 1).drop_last() =~= imports@.subrange(0, j as int));
            proof {
                lemma_link_step(old_ex, imports@, k as int, j as int);
            }
            if imports[j].name == exports[k].name {
                cnt = cnt + 1;
                if imports[j].file_path != exports[k].file_path {
                    graph.add_dependency(&imports[j].file_path, &exports[k].file_path);
                }
            }
            j = j + 1;
        }
        proof {
            assert(imports@.subrange(0, j as int) =~= imports@);
            lemma_name_count_le(imports@, old_ex[k as int].name@);
            lemma_entity_le_total(old_ex, k as int);
            assert(ni <= n * ni) by (nonlinear_arith)
                requires
                    k < n,
            ;
            assert(k * ni + ni == (k + 1) * ni) by (nonlinear_arith);
            assert(3 * n * ni == 3 * (n * ni)) by (nonlinear_arith);
            lemma_link_row(old_ex, imports@, k as int);
        }
        let u = exports[k].usage_count;
        exports[k].usage_count = u + cnt;
        k = k + 1;
    }
    proof {
        lemma_link_row(old_ex, imports@, n as int);
        assert forall|i: int| 0 <= i < n implies exports@[i].usage_count <= old_ex[i].usage_count
            + ni by {
            assert(relinked(old_ex[i], exports@[i], imports@));
            lemma_name_count_le(imports@, old_ex[i].name@);
        }
        lemma_total_relinked(old_ex, exports@, ni as nat);
        assert(3 * n * ni == 3 * (n * ni)) by (nonlinear_arith);
        assert forall|f: Seq<char>| #[trigger]
            importance_formula(exports@, graph.edge_list(), f) <= usize::MAX by {
            lemma_usage_le_total(exports@, f);
            lemma_sources_len(graph.edge_list(), f);
        }
    }
    calculate_importance_scores(&mut graph, exports);
    graph
}

/// The names of a list of (name, score) pairs.
pub open spec fn dir_keys(v: Seq<(String, usize)>) -> Seq<Seq<char>> {
    v.map_values(|e: (String, usize)| e.0@)
}

/// Some file of `files` lies under directory `d`.
pub open spec fn covered(files: Seq<Seq<char>>, d: Seq<char>) -> bool {
    exists|t: int| 0 <= t < files.len() && #[trigger] ancestors(files[t]).contains(d)
}

/// Importance of directory `d`: the full importance of every file of `files`
/// that lies anywhere below it.
pub open spec fn dir_score(graph: DependencyGraph, files: Seq<Seq<char>>, d: Seq<char>) -> nat
    decreases files.len(),
{
    if files.len() == 0 {
        0
    } else {
        dir_score(graph, files.drop_last(), d) + if ancestors(files.last()).contains(d) {
            graph.importance_of(files.last())
        } else {
            0nat
        }
    }
}

/// Sum of the importance of the files.
pub open spec fn importance_total(graph: DependencyGraph, files: Seq<Seq<char>>) -> nat
    decreases files.len(),
{
    if files.len() == 0 {
        0
    } else {
        importance_total(graph, files.drop_last()) + graph.importance_of(files.last())
    }
}

proof fn lemma_dir_score_le_total(graph: DependencyGraph, files: Seq<Seq<char>>, d: Seq<char>)
    ensures
        dir_score(graph, files, d) <= importance_total(graph, files),
        !covered(files, d) ==> dir_score(graph, files, d) == 0,
    decreases files.len(),
{
    if files.len() > 0 {
        lemma_dir_score_le_total(graph, files.drop_last(), d);
        if !covered(files, d) {
            assert forall|t: int| 0 <= t < files.drop_last().len() implies !(#[trigger] ancestors(
                files.drop_last()[t],
            ).contains(d)) by {
                assert(files.drop_last()[t] == files[t]);
            }
            assert(!ancestors(files[files.len() - 1]).contains(d));
        }
    }
}

proof fn lemma_importance_total_prefix(graph: DependencyGraph, files: Seq<Seq<char>>, i: int)
    requires
        0 <= i <= files.len(),
    ensures
        importance_total(graph, files.subrange(0, i)) <= importance_total(graph, files),
    decreases files.len(),
{
    if i == files.len() {
        assert(files.subrange(0, i) =~= files);
    } else {
        assert(files.drop_last().subrange(0, i) =~= files.subrange(0, i));
        lemma_importance_total_prefix(graph, files.drop_last(), i);
    }
}

fn distinct_file_list(exports: &Vec<ExportedEntity>) -> (r: Vec<String>)
    ensures
        r@.map_values(|s: String| s@) == distinct_files(exports@),
{
    let mut r: Vec<String> = Vec::new();
    let mut k: usize = 0;
    while k < exports.len()
        invariant
            k <= exports@.len(),
            r@.map_values(|s: String| s@) == distinct_files(exports@.subrange(0, k as int)),
        decreases exports.len() - k,
    {
        let ghost rv = r@.map_values(|s: String| s@);
        assert(exports@.subrange(0, k + 1).drop_last() =~= exports@.subrange(0, k as int));
        let f = &exports[k].file_path;
        let mut found = false;
        let mut i: usize = 0;
        while i < r.len()
            invariant
                i <= r@.len(),
                rv == r@.map_values(|s: String| s@),
                found == exists|m: int| 0 <= m < i && rv[m] == f@,
            decreases r.len() - i,
        {
            assert(rv[i as int] == r@[i as int]@);
            if r[i] == *f {
                found = true;
            }
            i = i + 1;
        }
        if !found {
            r.push(f.clone());
            assert(r@.map_values(|s: String| s@) =~= rv.push(f@));
        }
        k = k + 1;
    }
    assert(exports@.subrange(0, k as int) =~= exports@);
    r
}

/// Adds `amount` to the score of directory `d`, creating it if absent.
pub(crate) fn add_to_dir(dirs: &mut Vec<(String, usize)>, d: &String, amount: usize) -> (found: bool)
    requires
        dir_keys(old(dirs)@).no_duplicates(),
        forall|m: int|
            0 <= m < old(dirs)@.len() && old(dirs)@[m].0@ == d@ ==> old(dirs)@[m].1 + amount
                <= usize::MAX,
    ensures
        found == dir_keys(old(dirs)@).contains(d@),
        found ==> final(dirs)@.len() == old(dirs)@.len(),
        !found ==> final(dirs)@.len() == old(dirs)@.len() + 1 && final(dirs)@.last().0@ == d@
            && final(dirs)@.last().1 == amount,
        dir_keys(final(dirs)@).no_duplicates(),
        forall|m: int|
            0 <= m < old(dirs)@.len() ==> (#[trigger] final(dirs)@[m]).0@ == old(dirs)@[m].0@ && (
            final(dirs)@[m].1 == if old(dirs)@[m].0@ == d@ {
                old(dirs)@[m].1 + amount
            } else {
                old(dirs)@[m].1 as int
            }),
{
    let ghost keys = dir_keys(old(dirs)@);
    let mut i: usize = 0;
    while i < dirs.len()
        invariant
            i <= dirs@.len(),
            *dirs == *old(dirs),
            keys == dir_keys(dirs@),
            keys.no_duplicates(),
            forall|m: int|
                0 <= m < old(dirs)@.len() && old(dirs)@[m].0@ == d@ ==> old(dirs)@[m].1 + amount
                    <= usize::MAX,
            forall|m: int| 0 <= m < i ==> keys[m] != d@,
        decreases dirs.len() - i,
    {
        assert(keys[i as int] == dirs@[i as int].0@);
        if dirs[i].0 == *d {
            assert(old(dirs)@[i as int].0@ == d@);
            let v = dirs[i].1;
            let name = dirs[i].0.clone();
            dirs.set(i, (name, v + amount));
            proof {
                assert(dirs@ == old(dirs)@.update(i as int, (name, (v + amount) as usize)));
                assert(dir_keys(dirs@) =~= keys);
                assert forall|m: int| 0 <= m < old(dirs)@.len() implies (#[trigger] dirs@[m]).0@
                    == old(dirs)@[m].0@ && (dirs@[m].1 == if old(dirs)@[m].0@ == d@ {
                    old(dirs)@[m].1 + amount
                } else {
                    old(dirs)@[m].1 as int
                }) by {
                    if m != i {
                        assert(keys[m] != keys[i as int]);
                    }
                }
            }
            return true;
        }
        i = i + 1;
    }
    let item = (d.clone(), amount);
    dirs.push(item);
    proof {
        assert(dir_keys(dirs@) =~= keys.push(d@));
        assert forall|m: int| 0 <= m < old(dirs)@.len() implies (#[trigger] dirs@[m]).0@
            == old(dirs)@[m].0@ && (dirs@[m].1 == if old(dirs)@[m].0@ == d@ {
            old(dirs)@[m].1 + amount
        } else {
            old(dirs)@[m].1 as int
        }) by {
            assert(dirs@[m] == old(dirs)@[m]);
            assert(keys[m] != d@);
        }
    }
    false
}

/// Adds `amount` to the score of each directory of `ancestors`, adding the
/// directories not yet listed at the end with a score of `amount`.
pub fn credit_directories(dirs: &mut Vec<(String, usize)>, ancestors: &Vec<String>, amount: usize)
    requires
        dir_keys(old(dirs)@).no_duplicates(),
        ancestors@.map_values(|s: String| s@).no_duplicates(),
        forall|m: int| 0 <= m < old(dirs)@.len() ==> #[trigger] old(dirs)@[m].1 + amount <= usize::MAX,
    ensures
        dir_keys(final(dirs)@).no_duplicates(),
        final(dirs)@.len() >= old(dirs)@.len(),
        forall|d: Seq<char>|
            dir_keys(final(dirs)@).contains(d) <==> (dir_keys(old(dirs)@).contains(d)
                || ancestors@.map_values(|s: String| s@).contains(d)),
        forall|m: int|
            0 <= m < old(dirs)@.len() ==> (#[trigger] final(dirs)@[m]).0@ == old(dirs)@[m].0@ && (
            final(dirs)@[m].1 == old(dirs)@[m].1 + if ancestors@.map_values(|s: String| s@).contains(
                old(dirs)@[m].0@,
            ) {
                amount as int
            } else {
                0int
            }),
        forall|m: int|
            old(dirs)@.len() <= m < final(dirs)@.len() ==> (#[trigger] final(dirs)@[m]).1 == amount
                && ancestors@.map_values(|s: String| s@).contains(final(dirs)@[m].0@)
                && !dir_keys(old(dirs)@).contains(final(dirs)@[m].0@),
{
    let ghost av = ancestors@.map_values(|s: String| s@);
    let ghost old_dirs = dirs@;
    let ghost ok0 = dir_keys(old_dirs);
    let mut j: usize = 0;
    assert(av.subrange(0, 0) =~= Seq::<Seq<char>>::empty());
    while j < ancestors.len()
        invariant
            j <= av.len(),
            av == ancestors@.map_values(|s: String| s@),
            av.no_duplicates(),
            old_dirs == old(dirs)@,
            ok0 == dir_keys(old_dirs),
            ok0.no_duplicates(),
            forall|m: int| 0 <= m < old_dirs.len() ==> #[trigger] old_dirs[m].1 + amount <= usize::MAX,
            dirs@.len() >= old_dirs.len(),
            dir_keys(dirs@).no_duplicates(),
            forall|d: Seq<char>|
                dir_keys(dirs@).contains(d) <==> (ok0.contains(d) || av.subrange(0, j as int).contains(d)),
            forall|m: int|
                0 <= m < old_dirs.len() ==> (#[trigger] dirs@[m]).0@ == old_dirs[m].0@ && (dirs@[m].1
                    == old_dirs[m].1 + if av.subrange(0, j as int).contains(old_dirs[m].0@) {
                    amount as int
                } else {
                    0int
                }),
            forall|m: int|
                old_dirs.len() <= m < dirs@.len() ==> (#[trigger] dirs@[m]).1 == amount
                    && av.subrange(0, j as int).contains(dirs@[m].0@) && !ok0.contains(dirs@[m].0@),
        decreases ancestors.len() - j,
    {
        let a = &ancestors[j];
        let ghost before = dirs@;
        let ghost bk = dir_keys(before);
        let ghost s0 = av.subrange(0, j as int);
        let ghost s1 = av.subrange(0, j + 1);
        proof {
            assert(a@ == av[j as int]);
            assert(s1 =~= s0.push(a@));
            assert(!s0.contains(a@)) by {
                if s0.contains(a@) {
                    let m = choose|m: int| 0 <= m < j && s0[m] == a@;
                    assert(av[m] == av[j as int]);
                }
            }
            assert forall|m: int| 0 <= m < before.len() implies (#[trigger] before[m]).0@ == a@ ==> before[m].1 + amount <= usize::MAX by {
                if m < old_dirs.len() && before[m].0@ == a@ {
                    assert(!s0.contains(old_dirs[m].0@));
                } else if m >= old_dirs.len() && before[m].0@ == a@ {
                    assert(s0.contains(before[m].0@));
                }
            }
        }
        let found = add_to_dir(dirs, a, amount);
        proof {
            let nk = dir_keys(dirs@);
            if found {
                assert(nk =~= bk);
            } else {
                assert(dirs@[before.len() as int].0@ == a@);
                assert(nk =~= bk.push(a@));
            }
            assert forall|d: Seq<char>| nk.contains(d) <==> (ok0.contains(d) || s1.contains(d)) by {
                assert(bk.contains(d) <==> (ok0.contains(d) || s0.contains(d)));
                if bk.contains(d) {
                    let m = choose|m: int| 0 <= m < bk.len() && bk[m] == d;
                    assert(nk[m] == d);
                }
                if s0.contains(d) {
                    let m = choose|m: int| 0 <= m < s0.len() && s0[m] == d;
                    assert(s1[m] == d);
                }
                if s1.contains(d) && d != a@ {
                    let m = choose|m: int| 0 <= m < s1.len() && s1[m] == d;
                    assert(s0[m] == d);
                }
                if d == a@ {
                    assert(s1[j as int] == d);
                    if !found {
                        assert(nk[before.len() as int] == d);
                    }
                }
                if nk.contains(d) && !bk.contains(d) {
                    let m = choose|m: int| 0 <= m < nk.len() && nk[m] == d;
                    if m < bk.len() {
                        assert(bk[m] == d);
                    }
                }
            }
            assert forall|m: int| 0 <= m < old_dirs.len() implies (#[trigger] dirs@[m]).0@ == old_dirs[m].0@ && (dirs@[m].1
                == old_dirs[m].1 + if s1.contains(old_dirs[m].0@) {
                amount as int
            } else {
                0int
            }) by {
                let d = old_dirs[m].0@;
                assert(dirs@[m].0@ == before[m].0@);
                if d != a@ {
                    assert(s1.contains(d) == s0.contains(d)) by {
                        if s1.contains(d) {
                            let q = choose|q: int| 0 <= q < s1.len() && s1[q] == d;
                            assert(s0[q] == d);
                        }
                        if s0.contains(d) {
                            let q = choose|q: int| 0 <= q < s0.len() && s0[q] == d;
                            assert(s1[q] == d);
                        }
                    }
                } else {
                    assert(s1[j as int] == d);
                }
            }
            assert forall|m: int| old_dirs.len() <= m < dirs@.len() implies (#[trigger] dirs@[m]).1 == amount
                && s1.contains(dirs@[m].0@) && !ok0.contains(dirs@[m].0@) by {
                if m < before.len() {
                    assert(dirs@[m].0@ == before[m].0@);
                    assert(s0.contains(before[m].0@));
                    let q = choose|q: int| 0 <= q < s0.len() && s0[q] == before[m].0@;
                    assert(s1[q] == before[m].0@);
                    assert(before[m].0@ != a@);
                } else {
                    assert(m == before.len());
                    assert(s1[j as int] == a@);
                    assert(!ok0.contains(a@)) by {
                        if ok0.contains(a@) {
                            assert(bk.contains(a@));
                        }
                    }
                }
            }
        }
        j = j + 1;
    }
    assert(av.subrange(0, j as int) =~= av);
}

/// Importance of every directory that holds a file with exports: each file's
/// full importance is added to every one of its ancestor directories.
pub fn calculate_directory_importance(graph: &DependencyGraph, exports: &Vec<ExportedEntity>) -> (r: Vec<(String, usize)>)
    requires
        importance_total(*graph, distinct_files(exports@)) <= usize::MAX,
    ensures
        dir_keys(r@).no_duplicates(),
        forall|d: Seq<char>|
            dir_keys(r@).contains(d) <==> covered(
                distinct_files(exports@),
                d,
            ),
        forall|m: int|
            0 <= m < r@.len() ==> #[trigger] r@[m].1 == dir_score(
                *graph,
                distinct_files(exports@),
                r@[m].0@,
            ),
{
    let files = distinct_file_list(exports);
    let ghost fv = distinct_files(exports@);
    let mut dirs: Vec<(String, usize)> = Vec::new();
    let mut i: usize = 0;
    proof {
        assert(dir_keys(dirs@) =~= Seq::<Seq<char>>::empty());
        assert(fv.subrange(0, 0) =~= Seq::<Seq<char>>::empty());
    }
    while i < files.len()
        invariant
            i <= fv.len(),
            fv == files@.map_values(|s: String| s@),
            importance_total(*graph, fv) <= usize::MAX,
            dir_keys(dirs@).no_duplicates(),
            forall|d: Seq<char>|
                dir_keys(dirs@).contains(d) <==> covered(
                    fv.subrange(0, i as int),
                    d,
                ),
            forall|m: int|
                0 <= m < dirs@.len() ==> #[trigger] dirs@[m].1 == dir_score(
                    *graph,
                    fv.subrange(0, i as int),
                    dirs@[m].0@,
                ),
        decreases files.len() - i,
    {
        let ghost prefix = fv.subrange(0, i as int);
        let ghost next = fv.subrange(0, i + 1);
        assert(next.drop_last() =~= prefix);
        let f = &files[i];
        assert(f@ == fv[i as int]);
        let imp = graph.get_file_importance(f.as_str());
        let ancs = ancestor_dirs(f);
        let ghost av = ancs@.map_values(|s: String| s@);
        proof {
            lemma_ancestors_shorter(f@);
            lemma_importance_total_prefix(*graph, fv, i + 1);
        }
        let ghost old_dirs = dirs@;
        proof {
            assert forall|m: int| 0 <= m < old_dirs.len() implies #[trigger] old_dirs[m].1 + imp <= usize::MAX by {
                lemma_dir_score_le_total(*graph, prefix, old_dirs[m].0@);
            }
        }
        credit_directories(&mut dirs, &ancs, imp);
        proof {
            assert forall|m: int| 0 <= m < dirs@.len() implies #[trigger] dirs@[m].1 == dir_score(
                *graph,
                next,
                dirs@[m].0@,
            ) by {
                let d = dirs@[m].0@;
                if m >= old_dirs.len() {
                    assert(!dir_keys(old_dirs).contains(d));
                    assert(!covered(prefix, d));
                    lemma_dir_score_le_total(*graph, prefix, d);
                }
            }
            assert(next.last() == f@);
            assert forall|d: Seq<char>| covered(next, d) <==> (covered(prefix, d) || ancestors(f@).contains(d)) by {
                if covered(next, d) {
                    let t = choose|t: int| 0 <= t < next.len() && #[trigger] ancestors(next[t]).contains(d);
                    if t < prefix.len() {
                        assert(prefix[t] == next[t]);
                    }
                }
                if covered(prefix, d) {
                    let t = choose|t: int| 0 <= t < prefix.len() && #[trigger] ancestors(prefix[t]).contains(d);
                    assert(prefix[t] == next[t]);
                }
                if ancestors(f@).contains(d) {
                    assert(next[i as int] == f@);
                }
            }
        }
        i = i + 1;
    }
    proof {
        assert(fv.subrange(0, i as int) =~= fv);
    }
    dirs
}

/// Number of import references whose name some export of file `f` has.
pub open spec fn refs_to_file(exports: Seq<ExportedEntity>, imports: Seq<ImportReference>, f: Seq<char>) -> nat
    decreases imports.len(),
{
    if imports.len() == 0 {
        0
    } else {
        refs_to_file(exports, imports.drop_last(), f) + if exists|k: int|
            0 <= k < exports.len() && exports[k].file_path@ == f && #[trigger] exports[k].name@
                == imports.last().name@ {
            1nat
        } else {
            0nat
        }
    }
}

/// The exports of file `f` have distinct names.
pub open spec fn distinct_names_in(exports: Seq<ExportedEntity>, f: Seq<char>) -> bool {
    forall|a: int, b: int|
        0 <= a < b < exports.len() && exports[a].file_path@ == f && exports[b].file_path@ == f
            ==> #[trigger] exports[a].name@ != #[trigger] exports[b].name@
}

/// No import of file `f` names one of `f`'s own exports.
pub open spec fn no_self_imports(exports: Seq<ExportedEntity>, imports: Seq<ImportReference>, f: Seq<char>) -> bool {
    forall|k: int, j: int|
        0 <= k < exports.len() && 0 <= j < imports.len() && exports[k].file_path@ == f
            && imports[j].file_path@ == f ==> #[trigger] exports[k].name@ != #[trigger] imports[j].name@
}

proof fn lemma_refs_split(
    exports: Seq<ExportedEntity>,
    imports: Seq<ImportReference>,
    f: Seq<char>,
)
    requires
        exports.len() > 0,
        distinct_names_in(exports, f),
    ensures
        exports.last().file_path@ != f ==> refs_to_file(exports, imports, f) == refs_to_file(
            exports.drop_last(),
            imports,
            f,
        ),
        exports.last().file_path@ == f ==> refs_to_file(exports, imports, f) == refs_to_file(
            exports.drop_last(),
            imports,
            f,
        ) + name_count(imports, exports.last().name@),
    decreases imports.len(),
{
    let e = exports.drop_last();
    let n = exports.len() - 1;
    if imports.len() > 0 {
        lemma_refs_split(exports, imports.drop_last(), f);
        let nm = imports.last().name@;
        let in_all = exists|k: int|
            0 <= k < exports.len() && exports[k].file_path@ == f && #[trigger] exports[k].name@
                == nm;
        let in_prev = exists|k: int|
            0 <= k < e.len() && e[k].file_path@ == f && #[trigger] e[k].name@ == nm;
        if in_prev {
            let k = choose|k: int| 0 <= k < e.len() && e[k].file_path@ == f && #[trigger] e[k].name@ == nm;
            assert(exports[k] == e[k]);
            if exports.last().file_path@ == f {
                assert(exports[k].name@ != exports[n].name@);
            }
        }
        if in_all {
            let k = choose|k: int|
                0 <= k < exports.len() && exports[k].file_path@ == f && #[trigger] exports[k].name@
                    == nm;
            if k < n {
                assert(e[k] == exports[k]);
            }
        }
    }
}

proof fn lemma_refs_empty(exports: Seq<ExportedEntity>, imports: Seq<ImportReference>, f: Seq<char>)
    requires
        exports.len() == 0,
    ensures
        refs_to_file(exports, imports, f) == 0,
    decreases imports.len(),
{
    if imports.len() > 0 {
        lemma_refs_empty(exports, imports.drop_last(), f);
    }
}

proof fn lemma_usage_matches_refs(
    old: Seq<ExportedEntity>,
    new: Seq<ExportedEntity>,
    imports: Seq<ImportReference>,
    f: Seq<char>,
)
    requires
        old.len() == new.len(),
        forall|k: int| 0 <= k < old.len() ==> relinked(#[trigger] old[k], new[k], imports),
        forall|k: int| 0 <= k < old.len() && #[trigger] old[k].file_path@ == f ==> old[k].usage_count == 0,
        distinct_names_in(old, f),
    ensures
        usage_sum(new, f) == refs_to_file(old, imports, f),
    decreases old.len(),
{
    if old.len() == 0 {
        lemma_refs_empty(old, imports, f);
    } else {
        let n = old.len() - 1;
        assert forall|k: int| 0 <= k < n implies relinked(#[trigger] old.drop_last()[k], new.drop_last()[k], imports) by {
            assert(old.drop_last()[k] == old[k]);
            assert(relinked(old[k], new[k], imports));
        }
        assert forall|k: int| 0 <= k < n && #[trigger] old.drop_last()[k].file_path@ == f implies old.drop_last()[k].usage_count == 0 by {
            assert(old.drop_last()[k] == old[k]);
        }
        assert forall|a: int, b: int|
            0 <= a < b < n && old.drop_last()[a].file_path@ == f && old.drop_last()[b].file_path@ == f
                implies #[trigger] old.drop_last()[a].name@ != #[trigger] old.drop_last()[b].name@ by {
            assert(old[a] == old.drop_last()[a]);
            assert(old[b] == old.drop_last()[b]);
        }
        lemma_usage_matches_refs(old.drop_last(), new.drop_last(), imports, f);
        lemma_refs_split(old, imports, f);
        assert(relinked(old[n], new[n], imports));
        if old[n].file_path@ == f {
            assert(old[n].usage_count == 0);
        }
    }
}

/// Linking counts each reference once per export of its name: when file `f`
/// exports distinct names, its exports start unused, and `f` imports none of
/// them itself, the usage counts of `f`'s exports add up to the number of
/// import references that name one of them.
pub proof fn lemma_usage_equals_references(
    old: Seq<ExportedEntity>,
    new: Seq<ExportedEntity>,
    imports: Seq<ImportReference>,
    f: Seq<char>,
)
    requires
        old.len() == new.len(),
        forall|k: int| 0 <= k < old.len() ==> relinked(#[trigger] old[k], new[k], imports),
        forall|k: int| 0 <= k < old.len() && #[trigger] old[k].file_path@ == f ==> old[k].usage_count == 0,
        distinct_names_in(old, f),
        no_self_imports(old, imports, f),
    ensures
        usage_sum(new, f) == refs_to_file(old, imports, f),
{
    lemma_usage_matches_refs(old, new, imports, f);
}

proof fn lemma_targets_sources_witness(edges: Seq<(Seq<char>, Seq<char>)>, f: Seq<char>, t: Seq<char>)
    ensures
        targets_from(edges, f).contains(t) ==> edges.contains((f, t)),
        sources_to(edges, f).contains(t) ==> edges.contains((t, f)),
    decreases edges.len(),
{
    if edges.len() > 0 {
        let prev = edges.drop_last();
        lemma_targets_sources_witness(prev, f, t);
        if prev.contains((f, t)) {
            let i = choose|i: int| 0 <= i < prev.len() && prev[i] == (f, t);
            assert(edges[i] == (f, t));
        }
        if prev.contains((t, f)) {
            let i = choose|i: int| 0 <= i < prev.len() && prev[i] == (t, f);
            assert(edges[i] == (t, f));
        }
        if targets_from(edges, f).contains(t) && !targets_from(prev, f).contains(t) {
            assert(targets_from(edges, f) == targets_from(prev, f).push(edges.last().1));
            assert(edges[edges.len() - 1] == (f, t));
        }
        if sources_to(edges, f).contains(t) && !sources_to(prev, f).contains(t) {
            assert(sources_to(edges, f) == sources_to(prev, f).push(edges.last().0));
            assert(edges[edges.len() - 1] == (t, f));
        }
    }
}

/// A file is never its own dependency nor its own dependent.
pub proof fn lemma_no_self_dependency(graph: DependencyGraph, f: Seq<char>)
    requires
        graph.wf(),
    ensures
        !graph.dependencies_of(f).contains(f),
        !graph.dependents_of(f).contains(f),
{
    lemma_targets_sources_witness(graph.edge_list(), f, f);
    if graph.edge_list().contains((f, f)) {
        let i = choose|i: int| 0 <= i < graph.edge_list().len() && graph.edge_list()[i] == (f, f);
        assert(graph.edge_list()[i].0 != graph.edge_list()[i].1);
    }
}

/// A directory that holds exactly one file with exports, and is that file's
/// only ancestor, is exactly as important as the file.
pub proof fn lemma_single_file_directory(
    graph: DependencyGraph,
    exports: Seq<ExportedEntity>,
    f: Seq<char>,
    d: Seq<char>,
)
    requires
        distinct_files(exports) == seq![f],
        ancestors(f) == seq![d],
    ensures
        dir_score(graph, distinct_files(exports), d) == graph.importance_of(f),
{
    let files = distinct_files(exports);
    assert(files.drop_last() =~= Seq::<Seq<char>>::empty());
    assert(dir_score(graph, files.drop_last(), d) == 0);
    assert(files.last() == f);
    assert(ancestors(f)[0] == d);
    assert(ancestors(f).contains(d));
}

/// Whether linking these exports and imports keeps every usage count and
/// importance score within `usize`.
pub fn linking_fits(exports: &Vec<ExportedEntity>, imports: &Vec<ImportReference>) -> (r: bool)
    ensures
        r == linking_fits_spec(exports@, imports@),
{
    let mut total: usize = 0;
    let mut k: usize = 0;
    while k < exports.len()
        invariant
            k <= exports@.len(),
            total == total_usage(exports@.subrange(0, k as int)),
        decreases exports.len() - k,
    {
        assert(exports@.subrange(0, k + 1).drop_last() =~= exports@.subrange(0, k as int));
        match total.checked_add(exports[k].usage_count) {
            Some(t) => {
                total = t;
            },
            None => {
                proof {
                    lemma_usage_total_prefix(exports@, k + 1);
                }
                return false;
            },
        }
        k = k + 1;
    }
    assert(exports@.subrange(0, k as int) =~= exports@);
    let n = exports.len();
    let ni = imports.len();
    match n.checked_mul(ni) {
        Some(p) => match p.checked_mul(3) {
            Some(q) => {
                assert(3 * n * ni == p * 3) by (nonlinear_arith)
                    requires
                        p == n * ni,
                ;
                total.checked_add(q).is_some()
            },
            None => {
                assert(3 * n * ni == p * 3) by (nonlinear_arith)
                    requires
                        p == n * ni,
                ;
                false
            },
        },
        None => {
            assert(3 * n * ni >= n * ni) by (nonlinear_arith);
            false
        },
    }
}

proof fn lemma_usage_total_prefix(ex: Seq<ExportedEntity>, i: int)
    requires
        0 <= i <= ex.len(),
    ensures
        total_usage(ex.subrange(0, i)) <= total_usage(ex),
    decreases ex.len(),
{
    if i == ex.len() {
        assert(ex.subrange(0, i) =~= ex);
    } else {
        assert(ex.drop_last().subrange(0, i) =~= ex.subrange(0, i));
        lemma_usage_total_prefix(ex.drop_last(), i);
    }
}

} // verus!
