//! Which words read as numbers, and which characters make up words.
use vstd::prelude::*;
use crate::text::count_char;

verus! {

/// Whether `char::is_alphanumeric` holds of the character.
pub uninterp spec fn char_alphanumeric(c: char) -> bool;

/// Relies on `char::is_alphanumeric`: the Unicode `Alphabetic` or `Numeric`
/// property.
#[verifier::external_body]
pub fn is_alphanumeric(c: char) -> (r: bool)
    ensures
        r == char_alphanumeric(c),
{
    c.is_alphanumeric()
}

pub open spec fn is_ascii_digit(c: char) -> bool {
    48 <= (c as u32) <= 57
}

pub fn is_ascii_digit_exec(c: char) -> (r: bool)
    ensures
        r == is_ascii_digit(c),
{
    48 <= (c as u32) && (c as u32) <= 57
}

/// `c` is the lower-case ASCII letter `l` in either case.
pub open spec fn same_letter(c: char, l: char) -> bool {
    c == l || (c as u32) + 32 == (l as u32)
}

/// `s` spells the lower-case word `w`, ignoring ASCII case.
pub open spec fn spells(s: Seq<char>, w: Seq<char>) -> bool {
    s.len() == w.len() && forall|i: int| 0 <= i < s.len() ==> #[trigger] same_letter(s[i], w[i])
}

/// Digits with at most one decimal point, and at least one digit.
pub open spec fn mantissa_ok(m: Seq<char>) -> bool {
    (forall|i: int| 0 <= i < m.len() ==> #[trigger] is_ascii_digit(m[i]) || m[i] == '.')
        && count_char(m, '.') <= 1 && m.len() > count_char(m, '.')
}

/// An optional sign followed by at least one digit.
pub open spec fn exponent_ok(e: Seq<char>) -> bool {
    if e.len() > 0 && (e[0] == '+' || e[0] == '-') {
        e.len() > 1 && forall|i: int| 1 <= i < e.len() ==> #[trigger] is_ascii_digit(e[i])
    } else {
        e.len() > 0 && forall|i: int| 0 <= i < e.len() ==> #[trigger] is_ascii_digit(e[i])
    }
}

/// Index of the first `e` or `E` from `k` on, or the length.
pub open spec fn first_exp(s: Seq<char>, k: int) -> int
    decreases s.len() - k,
{
    if k < 0 || k >= s.len() {
        s.len() as int
    } else if s[k] == 'e' || s[k] == 'E' {
        k
    } else {
        first_exp(s, k + 1)
    }
}

pub open spec fn unsigned_float_ok(u: Seq<char>) -> bool {
    let i = first_exp(u, 0);
    spells(u, "inf"@) || spells(u, "infinity"@) || spells(u, "nan"@) || if i >= u.len() {
        mantissa_ok(u)
    } else {
        mantissa_ok(u.subrange(0, i)) && exponent_ok(u.subrange(i + 1, u.len() as int))
    }
}

/// Whether `str::parse` reads the text as a floating-point number: an
/// optional sign, then `inf`, `infinity` or `nan` in any case, or digits
/// with at most one decimal point and at least one digit, optionally
/// followed by `e` or `E`, an optional sign and digits.
pub open spec fn parses_as_float(s: Seq<char>) -> bool {
    if s.len() > 0 && (s[0] == '+' || s[0] == '-') {
        unsigned_float_ok(s.drop_first())
    } else {
        unsigned_float_ok(s)
    }
}

fn spells_exec(s: &[char], w: &str) -> (r: bool)
    ensures
        r == spells(s@, w@),
{
    let wc = crate::text::chars_of(w);
    if s.len() != wc.len() {
        return false;
    }
    let mut i: usize = 0;
    while i < s.len()
        invariant
            i <= s@.len(),
            s@.len() == wc@.len(),
            wc@ == w@,
            forall|m: int| 0 <= m < i ==> #[trigger] same_letter(s@[m], wc@[m]),
        decreases s.len() - i,
    {
        let a = s[i] as u32;
        let b = wc[i] as u32;
        if !(s[i] == wc[i] || (b >= 32 && a == b - 32)) {
            assert(!same_letter(s@[i as int], wc@[i as int]));
            return false;
        }
        i = i + 1;
    }
    true
}

fn mantissa_ok_exec(m: &[char]) -> (r: bool)
    ensures
        r == mantissa_ok(m@),
{
    let mut dots: usize = 0;
    let mut i: usize = 0;
    while i < m.len()
        invariant
            i <= m@.len(),
            dots <= i,
            dots == count_char(m@.subrange(0, i as int), '.'),
            forall|k: int| 0 <= k < i ==> #[trigger] is_ascii_digit(m@[k]) || m@[k] == '.',
        decreases m.len() - i,
    {
        assert(m@.subrange(0, i + 1).drop_last() =~= m@.subrange(0, i as int));
        if m[i] == '.' {
            dots = dots + 1;
        } else if !is_ascii_digit_exec(m[i]) {
            return false;
        }
        i = i + 1;
    }
    assert(m@.subrange(0, i as int) =~= m@);
    dots <= 1 && m.len() > dots
}

fn exponent_ok_exec(e: &[char]) -> (r: bool)
    ensures
        r == exponent_ok(e@),
{
    if e.len() == 0 {
        return false;
    }
    let start: usize = if e[0] == '+' || e[0] == '-' {
        1
    } else {
        0
    };
    if start == 1 && e.len() == 1 {
        return false;
    }
    let mut i: usize = start;
    while i < e.len()
        invariant
            start <= i <= e@.len(),
            start == if e@[0] == '+' || e@[0] == '-' {
                1usize
            } else {
                0usize
            },
            forall|k: int| start <= k < i ==> #[trigger] is_ascii_digit(e@[k]),
        decreases e.len() - i,
    {
        if !is_ascii_digit_exec(e[i]) {
            return false;
        }
        i = i + 1;
    }
    true
}

fn unsigned_float_ok_exec(u: &[char]) -> (r: bool)
    ensures
        r == unsigned_float_ok(u@),
{
    if spells_exec(u, "inf") || spells_exec(u, "infinity") || spells_exec(u, "nan") {
        return true;
    }
    let mut i: usize = 0;
    while i < u.len() && u[i] != 'e' && u[i] != 'E'
        invariant
            i <= u@.len(),
            first_exp(u@, 0) == first_exp(u@, i as int),
        decreases u.len() - i,
    {
        i = i + 1;
    }
    if i >= u.len() {
        mantissa_ok_exec(u)
    } else {
        let head = crate::text::sub_chars(u, 0, i);
        let tail = crate::text::sub_chars(u, i + 1, u.len());
        mantissa_ok_exec(&head) && exponent_ok_exec(&tail)
    }
}

/// Whether the text reads as a floating-point number.
pub fn parses_as_float_exec(s: &[char]) -> (r: bool)
    ensures
        r == parses_as_float(s@),
{
    if s.len() > 0 && (s[0] == '+' || s[0] == '-') {
        let rest = crate::text::sub_chars(s, 1, s.len());
        assert(rest@ =~= s@.drop_first());
        unsigned_float_ok_exec(&rest)
    } else {
        unsigned_float_ok_exec(s)
    }
}

} // verus!
