//! Character-sequence helpers shared by the extractors and the analyzers:
//! whitespace trimming, substring search, counting, splitting and line breaking,
//! each stated over `Seq<char>`.
use vstd::prelude::*;

verus! {

/// Unicode `White_Space`, the set that `char::is_whitespace` and `str::trim` use.
pub open spec fn is_white_space(c: char) -> bool {
    let u = c as u32;
    (9 <= u && u <= 13) || u == 32 || u == 0x85 || u == 0xa0 || u == 0x1680 || (0x2000 <= u
        && u <= 0x200a) || u == 0x2028 || u == 0x2029 || u == 0x202f || u == 0x205f || u == 0x3000
}

pub fn is_white_space_char(c: char) -> (r: bool)
    ensures
        r == is_white_space(c),
{
    let u = c as u32;
    (9 <= u && u <= 13) || u == 32 || u == 0x85 || u == 0xa0 || u == 0x1680 || (0x2000 <= u
        && u <= 0x200a) || u == 0x2028 || u == 0x2029 || u == 0x202f || u == 0x205f || u == 0x3000
}

pub open spec fn trim_start(s: Seq<char>) -> Seq<char>
    decreases s.len(),
{
    if s.len() > 0 && is_white_space(s[0]) {
        trim_start(s.drop_first())
    } else {
        s
    }
}

pub open spec fn trim_end(s: Seq<char>) -> Seq<char>
    decreases s.len(),
{
    if s.len() > 0 && is_white_space(s.last()) {
        trim_end(s.drop_last())
    } else {
        s
    }
}

/// What `str::trim` leaves: the text without leading and trailing whitespace.
pub open spec fn trim(s: Seq<char>) -> Seq<char> {
    trim_end(trim_start(s))
}

/// `p` occurs in `s` starting at index `i`.
pub open spec fn matches_at(s: Seq<char>, p: Seq<char>, i: int) -> bool {
    0 <= i && i + p.len() <= s.len() && s.subrange(i, i + p.len()) == p
}

pub open spec fn contains(s: Seq<char>, p: Seq<char>) -> bool {
    exists|i: int| matches_at(s, p, i)
}

pub open spec fn starts_with(s: Seq<char>, p: Seq<char>) -> bool {
    matches_at(s, p, 0)
}

pub open spec fn ends_with(s: Seq<char>, p: Seq<char>) -> bool {
    matches_at(s, p, s.len() - p.len())
}

/// Number of positions of `s` that hold `c`.
pub open spec fn count_char(s: Seq<char>, c: char) -> nat
    decreases s.len(),
{
    if s.len() == 0 {
        0
    } else {
        count_char(s.drop_last(), c) + if s.last() == c {
            1nat
        } else {
            0nat
        }
    }
}

/// Number of non-overlapping occurrences of `p` in `s` from index `i` on,
/// taking each leftmost occurrence and resuming after it.
pub open spec fn count_from(s: Seq<char>, p: Seq<char>, i: int) -> nat
    decreases s.len() - i,
{
    if p.len() == 0 || i < 0 || i + p.len() > s.len() {
        0
    } else if matches_at(s, p, i) {
        1 + count_from(s, p, i + p.len())
    } else {
        count_from(s, p, i + 1)
    }
}

pub open spec fn count_matches(s: Seq<char>, p: Seq<char>) -> nat {
    count_from(s, p, 0)
}

/// The pieces of `s` between non-overlapping occurrences of `p`, scanning from
/// index `i` with the current piece starting at `start`.
pub open spec fn split_from(s: Seq<char>, p: Seq<char>, start: int, i: int) -> Seq<Seq<char>>
    decreases s.len() - i,
{
    if p.len() == 0 || i < 0 || i + p.len() > s.len() {
        seq![s.subrange(start, s.len() as int)]
    } else if matches_at(s, p, i) {
        seq![s.subrange(start, i)] + split_from(s, p, i + p.len(), i + p.len())
    } else {
        split_from(s, p, start, i + 1)
    }
}

/// What `str::split` with a string pattern yields.
pub open spec fn split(s: Seq<char>, p: Seq<char>) -> Seq<Seq<char>> {
    split_from(s, p, 0, 0)
}

pub open spec fn strip_cr(l: Seq<char>) -> Seq<char> {
    if l.len() > 0 && l.last() == '\r' {
        l.drop_last()
    } else {
        l
    }
}

/// What `str::lines` yields: the text split at `\n` (a `\r` right before it is
/// dropped), with no empty line after a final line break.
pub open spec fn lines_of(s: Seq<char>) -> Seq<Seq<char>> {
    let parts = split(s, seq!['\n']);
    let body = parts.drop_last().map_values(|l: Seq<char>| strip_cr(l));
    if parts.last().len() == 0 {
        body
    } else {
        body.push(parts.last())
    }
}

pub proof fn lemma_split_from_nonempty(s: Seq<char>, p: Seq<char>, start: int, i: int)
    ensures
        split_from(s, p, start, i).len() >= 1,
    decreases s.len() - i,
{
    if p.len() == 0 || i < 0 || i + p.len() > s.len() {
    } else if matches_at(s, p, i) {
        lemma_split_from_nonempty(s, p, i + p.len(), i + p.len());
    } else {
        lemma_split_from_nonempty(s, p, start, i + 1);
    }
}

/// Relies on `str::chars`: the characters of the text, in order.
#[verifier::external_body]
pub fn chars_of(s: &str) -> (r: Vec<char>)
    ensures
        r@ == s@,
{
    s.chars().collect()
}

/// Relies on `String: FromIterator<char>`: the text made of these characters.
#[verifier::external_body]
pub fn string_of(v: &[char]) -> (r: String)
    ensures
        r@ == v@,
{
    v.iter().collect()
}

pub fn trim_chars(s: &[char]) -> (r: Vec<char>)
    ensures
        r@ == trim(s@),
{
    let n = s.len();
    let mut i: usize = 0;
    assert(s@.subrange(0, n as int) =~= s@);
    while i < n && is_white_space_char(s[i])
        invariant
            i <= n,
            n == s@.len(),
            trim_start(s@) == trim_start(s@.subrange(i as int, n as int)),
        decreases n - i,
    {
        assert(s@.subrange(i as int, n as int).drop_first() =~= s@.subrange(i + 1, n as int));
        i = i + 1;
    }
    assert(trim_start(s@) == s@.subrange(i as int, n as int));
    let mut j: usize = n;
    while j > i && is_white_space_char(s[j - 1])
        invariant
            i <= j <= n,
            n == s@.len(),
            trim(s@) == trim_end(s@.subrange(i as int, j as int)),
        decreases j,
    {
        assert(s@.subrange(i as int, j as int).drop_last() =~= s@.subrange(i as int, j - 1));
        j = j - 1;
    }
    let mut r: Vec<char> = Vec::new();
    let mut k: usize = i;
    while k < j
        invariant
            i <= k <= j <= n,
            n == s@.len(),
            r@ == s@.subrange(i as int, k as int),
        decreases j - k,
    {
        r.push(s[k]);
        k = k + 1;
        assert(r@ =~= s@.subrange(i as int, k as int));
    }
    assert(trim(s@) == s@.subrange(i as int, j as int));
    r
}

pub fn matches_at_exec(s: &[char], p: &[char], i: usize) -> (r: bool)
    ensures
        r == matches_at(s@, p@, i as int),
{
    if i > s.len() || p.len() > s.len() - i {
        return false;
    }
    let mut k: usize = 0;
    while k < p.len()
        invariant
            i + p.len() <= s.len(),
            k <= p.len(),
            forall|m: int| 0 <= m < k ==> s@[i + m] == p@[m],
        decreases p.len() - k,
    {
        if s[i + k] != p[k] {
            assert(s@.subrange(i as int, i + p.len())[k as int] != p@[k as int]);
            return false;
        }
        k = k + 1;
    }
    assert(s@.subrange(i as int, i + p.len()) =~= p@);
    true
}

pub fn contains_chars(s: &[char], p: &[char]) -> (r: bool)
    ensures
        r == contains(s@, p@),
{
    if p.len() > s.len() {
        return false;
    }
    let last = s.len() - p.len();
    let mut i: usize = 0;
    loop
        invariant
            last + p.len() == s.len(),
            i <= last,
            forall|j: int| 0 <= j < i ==> !matches_at(s@, p@, j),
        decreases last - i,
    {
        if matches_at_exec(s, p, i) {
            return true;
        }
        if i == last {
            assert(forall|j: int| !matches_at(s@, p@, j));
            return false;
        }
        i = i + 1;
    }
}

pub open spec fn views(v: Seq<Vec<char>>) -> Seq<Seq<char>> {
    v.map_values(|x: Vec<char>| x@)
}

pub fn sub_chars(s: &[char], a: usize, b: usize) -> (r: Vec<char>)
    requires
        a <= b <= s@.len(),
    ensures
        r@ == s@.subrange(a as int, b as int),
{
    let mut r: Vec<char> = Vec::new();
    let mut k: usize = a;
    while k < b
        invariant
            a <= k <= b <= s@.len(),
            r@ == s@.subrange(a as int, k as int),
        decreases b - k,
    {
        r.push(s[k]);
        k = k + 1;
        assert(r@ =~= s@.subrange(a as int, k as int));
    }
    r
}

pub fn count_char_exec(s: &[char], c: char) -> (r: usize)
    ensures
        r == count_char(s@, c),
{
    let mut cnt: usize = 0;
    let mut i: usize = 0;
    while i < s.len()
        invariant
            i <= s@.len(),
            cnt <= i,
            cnt == count_char(s@.subrange(0, i as int), c),
        decreases s.len() - i,
    {
        assert(s@.subrange(0, i + 1).drop_last() =~= s@.subrange(0, i as int));
        if s[i] == c {
            cnt = cnt + 1;
        }
        i = i + 1;
    }
    assert(s@.subrange(0, i as int) =~= s@);
    cnt
}

pub fn count_matches_exec(s: &[char], p: &[char]) -> (r: usize)
    requires
        p@.len() > 0,
    ensures
        r == count_matches(s@, p@),
{
    let mut cnt: usize = 0;
    let mut i: usize = 0;
    while i <= s.len() && p.len() <= s.len() - i
        invariant
            i <= s@.len() + 1,
            p@.len() > 0,
            cnt <= i,
            count_matches(s@, p@) == cnt + count_from(s@, p@, i as int),
        decreases s.len() + 1 - i,
    {
        if matches_at_exec(s, p, i) {
            cnt = cnt + 1;
            i = i + p.len();
        } else {
            i = i + 1;
        }
    }
    cnt
}

pub fn split_chars(s: &[char], p: &[char]) -> (r: Vec<Vec<char>>)
    requires
        p@.len() > 0,
    ensures
        views(r@) == split(s@, p@),
{
    let mut segs: Vec<Vec<char>> = Vec::new();
    let mut start: usize = 0;
    let mut i: usize = 0;
    while i <= s.len() && p.len() <= s.len() - i
        invariant
            start <= i <= s@.len() + 1,
            start <= s@.len(),
            p@.len() > 0,
            views(segs@) + split_from(s@, p@, start as int, i as int) == split(s@, p@),
        decreases s.len() + 1 - i,
    {
        if matches_at_exec(s, p, i) {
            let seg = sub_chars(s, start, i);
            proof {
                assert(views(segs@.push(seg)) =~= views(segs@).push(seg@));
                assert(views(segs@) + split_from(s@, p@, start as int, i as int) =~= views(
                    segs@.push(seg),
                ) + split_from(s@, p@, i + p.len(), i + p.len()));
            }
            segs.push(seg);
            i = i + p.len();
            start = i;
        } else {
            i = i + 1;
        }
    }
    let seg = sub_chars(s, start, s.len());
    proof {
        assert(views(segs@.push(seg)) =~= views(segs@).push(seg@));
        assert(views(segs@) + split_from(s@, p@, start as int, i as int) =~= views(segs@.push(seg)));
    }
    segs.push(seg);
    segs
}

pub fn strip_cr_exec(l: Vec<char>) -> (r: Vec<char>)
    ensures
        r@ == strip_cr(l@),
{
    let mut l = l;
    if l.len() > 0 && l[l.len() - 1] == '\r' {
        l.pop();
    }
    l
}

/// The lines of a text, as `str::lines` breaks it.
pub fn lines_exec(s: &[char]) -> (r: Vec<Vec<char>>)
    ensures
        views(r@) == lines_of(s@),
{
    let nl: Vec<char> = vec!['\n'];
    assert(nl@ =~= seq!['\n']);
    let parts = split_chars(s, &nl);
    let ghost parts_v = views(parts@);
    proof {
        lemma_split_from_nonempty(s@, seq!['\n'], 0, 0);
    }
    let n = parts.len();
    let mut r: Vec<Vec<char>> = Vec::new();
    let mut parts = parts;
    let last = parts.pop().unwrap();
    let mut k: usize = 0;
    while k + 1 < n
        invariant
            n == parts_v.len(),
            n >= 1,
            parts@.len() == n - 1,
            last@ == parts_v.last(),
            forall|m: int| 0 <= m < n - 1 ==> parts@[m]@ == parts_v[m],
            k <= n - 1,
            views(r@) == parts_v.drop_last().map_values(|l: Seq<char>| strip_cr(l)).subrange(
                0,
                k as int,
            ),
        decreases n - k,
    {
        let l = strip_cr_exec(sub_chars(&parts[k], 0, parts[k].len()));
        assert(parts@[k as int]@.subrange(0, parts@[k as int]@.len() as int) =~= parts_v[k as int]);
        proof {
            let f = |l: Seq<char>| strip_cr(l);
            assert(views(r@.push(l)) =~= views(r@).push(l@));
            assert(parts_v.drop_last()[k as int] == parts_v[k as int]);
            assert(parts_v.drop_last().map_values(f)[k as int] == l@);
            assert(views(r@.push(l)) =~= parts_v.drop_last().map_values(
                |l: Seq<char>| strip_cr(l),
            ).subrange(0, k + 1));
        }
        r.push(l);
        k = k + 1;
    }
    proof {
        assert(parts_v.drop_last().map_values(|l: Seq<char>| strip_cr(l)).subrange(0, k as int)
            =~= parts_v.drop_last().map_values(|l: Seq<char>| strip_cr(l)));
    }
    if last.len() > 0 {
        proof {
            assert(views(r@.push(last)) =~= views(r@).push(last@));
        }
        r.push(last);
    }
    r
}

/// Whether the text holds the given literal.
pub fn contains_str(s: &[char], p: &str) -> (r: bool)
    ensures
        r == contains(s@, p@),
{
    let pc = chars_of(p);
    contains_chars(s, &pc)
}

/// Whether the text starts with the given literal.
pub fn starts_with_str(s: &[char], p: &str) -> (r: bool)
    ensures
        r == starts_with(s@, p@),
{
    let pc = chars_of(p);
    matches_at_exec(s, &pc, 0)
}

/// Index of the first `c` at or after `k`, or the length where there is none.
pub open spec fn first_from(s: Seq<char>, c: char, k: int) -> int
    decreases s.len() - k,
{
    if k < 0 || k >= s.len() {
        s.len() as int
    } else if s[k] == c {
        k
    } else {
        first_from(s, c, k + 1)
    }
}

pub proof fn lemma_first_from_bounds(s: Seq<char>, c: char, k: int)
    requires
        0 <= k,
    ensures
        first_from(s, c, k) <= s.len(),
        k <= s.len() ==> k <= first_from(s, c, k),
        forall|m: int| k <= m < first_from(s, c, k) ==> s[m] != c,
    decreases s.len() - k,
{
    if k < s.len() && s[k] != c {
        lemma_first_from_bounds(s, c, k + 1);
    }
}

pub fn first_from_exec(s: &[char], c: char, k: usize) -> (r: usize)
    ensures
        r as int == first_from(s@, c, k as int),
{
    let mut i: usize = k;
    if i >= s.len() {
        return s.len();
    }
    while i < s.len() && s[i] != c
        invariant
            k <= i <= s@.len(),
            first_from(s@, c, k as int) == first_from(s@, c, i as int),
        decreases s.len() - i,
    {
        i = i + 1;
    }
    i
}

/// Some word of `kws` occurs in `t`.
pub open spec fn contains_any(t: Seq<char>, kws: Seq<Seq<char>>) -> bool {
    exists|i: int| 0 <= i < kws.len() && #[trigger] contains(t, kws[i])
}

pub fn contains_any_exec(t: &[char], kws: &Vec<Vec<char>>) -> (r: bool)
    ensures
        r == contains_any(t@, views(kws@)),
{
    let ghost kv = views(kws@);
    let mut i: usize = 0;
    while i < kws.len()
        invariant
            i <= kws@.len(),
            kv == views(kws@),
            forall|m: int| 0 <= m < i ==> !#[trigger] contains(t@, kv[m]),
        decreases kws.len() - i,
    {
        assert(kv[i as int] == kws@[i as int]@);
        if contains_chars(t, &kws[i]) {
            return true;
        }
        i = i + 1;
    }
    false
}

/// Characters of a list of literals.
pub fn literal_list(words: &[&str]) -> (r: Vec<Vec<char>>)
    ensures
        views(r@) == words@.map_values(|w: &str| w@),
{
    let ghost wv = words@.map_values(|w: &str| w@);
    let mut r: Vec<Vec<char>> = Vec::new();
    let mut i: usize = 0;
    while i < words.len()
        invariant
            i <= words@.len(),
            wv == words@.map_values(|w: &str| w@),
            views(r@) == wv.subrange(0, i as int),
        decreases words.len() - i,
    {
        let w = chars_of(words[i]);
        let ghost before = r@;
        r.push(w);
        assert(wv[i as int] == words@[i as int]@);
        assert(views(r@) =~= views(before).push(w@));
        assert(views(r@) =~= wv.subrange(0, i + 1));
        i = i + 1;
    }
    assert(wv.subrange(0, i as int) =~= wv);
    r
}

pub proof fn lemma_count_char_le(s: Seq<char>, c: char)
    ensures
        count_char(s, c) <= s.len(),
    decreases s.len(),
{
    if s.len() > 0 {
        lemma_count_char_le(s.drop_last(), c);
    }
}

pub proof fn lemma_count_from_le(s: Seq<char>, p: Seq<char>, i: int)
    requires
        0 <= i <= s.len(),
    ensures
        count_from(s, p, i) <= s.len() - i,
    decreases s.len() - i,
{
    if p.len() == 0 || i + p.len() > s.len() {
    } else if matches_at(s, p, i) {
        lemma_count_from_le(s, p, i + p.len());
    } else {
        lemma_count_from_le(s, p, i + 1);
    }
}

pub proof fn lemma_split_from_lengths(s: Seq<char>, p: Seq<char>, start: int, i: int)
    requires
        0 <= start <= i <= s.len(),
    ensures
        forall|k: int|
            0 <= k < split_from(s, p, start, i).len() ==> #[trigger] split_from(s, p, start, i)[k].len()
                <= s.len(),
        split_from(s, p, start, i).len() <= s.len() - i + 1,
    decreases s.len() - i,
{
    if p.len() == 0 || i + p.len() > s.len() {
    } else if matches_at(s, p, i) {
        lemma_split_from_lengths(s, p, i + p.len(), i + p.len());
        let rest = split_from(s, p, i + p.len(), i + p.len());
        let all = split_from(s, p, start, i);
        assert(all == seq![s.subrange(start, i)] + rest);
        assert forall|k: int| 0 <= k < all.len() implies #[trigger] all[k].len() <= s.len() by {
            if k > 0 {
                assert(all[k] == rest[k - 1]);
            }
        }
    } else {
        lemma_split_from_lengths(s, p, start, i + 1);
    }
}

/// The lines of a text are no longer than the text, and there is at most one
/// more line than characters.
pub proof fn lemma_lines_bounds(s: Seq<char>)
    ensures
        lines_of(s).len() <= s.len() + 1,
        forall|k: int| 0 <= k < lines_of(s).len() ==> #[trigger] lines_of(s)[k].len() <= s.len(),
{
    let parts = split(s, seq!['\n']);
    lemma_split_from_lengths(s, seq!['\n'], 0, 0);
    lemma_split_from_nonempty(s, seq!['\n'], 0, 0);
    let l = lines_of(s);
    assert forall|k: int| 0 <= k < l.len() implies #[trigger] l[k].len() <= s.len() by {
        if k < parts.len() - 1 {
            assert(parts.drop_last()[k] == parts[k]);
        } else {
            assert(l[k] == parts.last());
        }
    }
}

/// Whether two character sequences are equal.
pub fn same_chars(a: &[char], b: &[char]) -> (r: bool)
    ensures
        r == (a@ == b@),
{
    if a.len() != b.len() {
        return false;
    }
    let r = matches_at_exec(a, b, 0);
    assert(a@.subrange(0, b@.len() as int) =~= a@);
    r
}

} // verus!
