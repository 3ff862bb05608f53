//! Character-level helpers shared by the path and lock-entry rules.
//!
//! Strings are handled as their `Seq<char>` views. Path components are the
//! maximal non-empty runs of characters between `/` or `\` separators, which is
//! what splitting a rendered path on both separators and dropping the empty
//! pieces yields.
use vstd::prelude::*;

verus! {

/// `/` and `\` both separate path components.
pub open spec fn is_sep(c: char) -> bool {
    c == '/' || c == '\\'
}

/// ASCII lower-casing of a single character; every other character is kept.
pub open spec fn lower_char(c: char) -> char {
    if 'A' <= c && c <= 'Z' {
        ((c as u32) + 32) as char
    } else {
        c
    }
}

/// ASCII lower-casing of a whole string.
pub open spec fn lower_seq(s: Seq<char>) -> Seq<char> {
    s.map_values(|c: char| lower_char(c))
}

/// `s` begins with `p`.
pub open spec fn starts_with(s: Seq<char>, p: Seq<char>) -> bool {
    p.len() <= s.len() && s.subrange(0, p.len() as int) == p
}

/// `s` ends with `p`.
pub open spec fn ends_with(s: Seq<char>, p: Seq<char>) -> bool {
    p.len() <= s.len() && s.subrange(s.len() - p.len(), s.len() as int) == p
}

/// `p` occurs in `s` starting at position `i`.
pub open spec fn occurs_at(s: Seq<char>, p: Seq<char>, i: int) -> bool {
    0 <= i && i + p.len() <= s.len() && s.subrange(i, i + p.len()) == p
}

/// `p` occurs somewhere in `s`.
pub open spec fn contains_seq(s: Seq<char>, p: Seq<char>) -> bool {
    exists|i: int| occurs_at(s, p, i)
}

/// `s[i..j]` is a path component: non-empty, free of separators, and bounded by
/// a separator or an end of `s` on each side.
pub open spec fn is_component(s: Seq<char>, i: int, j: int) -> bool {
    &&& 0 <= i < j <= s.len()
    &&& (i == 0 || is_sep(s[i - 1]))
    &&& (j == s.len() || is_sep(s[j]))
    &&& forall|k: int| i <= k < j ==> !is_sep(#[trigger] s[k])
}

/// The lower-cased text of the component `s[i..j]`.
pub open spec fn component_name(s: Seq<char>, i: int, j: int) -> Seq<char> {
    lower_seq(s.subrange(i, j))
}

/// A component's name is its text with ASCII capitals lower-cased and every
/// other character kept, so the name rules ignore ASCII case.
pub proof fn law_component_names_ignore_ascii_case(s: Seq<char>, i: int, j: int)
    requires
        0 <= i <= j <= s.len(),
    ensures
        component_name(s, i, j).len() == j - i,
        forall|k: int|
            0 <= k < j - i ==> #[trigger] component_name(s, i, j)[k] == if 'A' <= s[i + k]
                && s[i + k] <= 'Z' {
                ((s[i + k] as u32) + 32) as char
            } else {
                s[i + k]
            },
{
}

/// The components of a path are its maximal runs of characters other than
/// `/` and `\`.
pub proof fn law_components_are_runs_between_separators(s: Seq<char>, i: int, j: int)
    ensures
        is_component(s, i, j) <==> {
            &&& 0 <= i < j <= s.len()
            &&& (i == 0 || s[i - 1] == '/' || s[i - 1] == '\\')
            &&& (j == s.len() || s[j] == '/' || s[j] == '\\')
            &&& forall|k: int| i <= k < j ==> #[trigger] s[k] != '/' && s[k] != '\\'
        },
{
}

/// The characters of `s`, in order.
pub fn chars_of(s: &str) -> (v: Vec<char>)
    ensures
        v@ == s@,
{
    let n = s.unicode_len();
    let mut v: Vec<char> = Vec::new();
    let mut i: usize = 0;
    while i < n
        invariant
            i <= n,
            n == s@.len(),
            v@ == s@.subrange(0, i as int),
        decreases n - i,
    {
        let c = s.get_char(i);
        v.push(c);
        i = i + 1;
        assert(v@ =~= s@.subrange(0, i as int));
    }
    assert(v@ =~= s@);
    v
}

/// Whether the ASCII lower-case form of `c` is `p`.
pub fn lower_is(c: char, p: char) -> (r: bool)
    ensures
        r == (lower_char(c) == p),
{
    if 'A' <= c && c <= 'Z' {
        let x: u32 = (c as u32) + 32;
        proof {
            assert((((c as u32) + 32) as char) as u32 == (c as u32) + 32);
        }
        x == (p as u32)
    } else {
        c == p
    }
}

/// Whether the lower-cased `v[a + off..a + off + p.len()]` equals `p`, for a
/// window that lies inside `v[a..b]`.
fn window_matches(v: &Vec<char>, a: usize, b: usize, off: usize, p: &Vec<char>) -> (r: bool)
    requires
        a <= b <= v@.len(),
        off + p@.len() <= b - a,
    ensures
        r == (component_name(v@, a as int, b as int).subrange(
            off as int,
            off + p@.len(),
        ) == p@),
{
    let ghost name = component_name(v@, a as int, b as int);
    let mut k: usize = 0;
    while k < p.len()
        invariant
            a <= b <= v@.len(),
            off + p@.len() <= b - a,
            name == component_name(v@, a as int, b as int),
            k <= p@.len(),
            forall|t: int| 0 <= t < k ==> name[off + t] == p@[t],
        decreases p@.len() - k,
    {
        if !lower_is(v[a + off + k], p[k]) {
            assert(name.subrange(off as int, off + p@.len())[k as int] != p@[k as int]);
            return false;
        }
        k = k + 1;
    }
    assert(name.subrange(off as int, off + p@.len()) =~= p@);
    true
}

/// Whether the lower-cased component `v[a..b]` is exactly `lit`.
pub fn name_is(v: &Vec<char>, a: usize, b: usize, lit: &str) -> (r: bool)
    requires
        a <= b <= v@.len(),
    ensures
        r == (component_name(v@, a as int, b as int) == lit@),
{
    let p = chars_of(lit);
    if p.len() != b - a {
        return false;
    }
    let r = window_matches(v, a, b, 0, &p);
    proof {
        let name = component_name(v@, a as int, b as int);
        assert(name.subrange(0, p@.len() as int) =~= name);
    }
    r
}

/// Whether the lower-cased component `v[a..b]` begins with `lit`.
pub fn name_starts_with(v: &Vec<char>, a: usize, b: usize, lit: &str) -> (r: bool)
    requires
        a <= b <= v@.len(),
    ensures
        r == starts_with(component_name(v@, a as int, b as int), lit@),
{
    let p = chars_of(lit);
    if p.len() > b - a {
        return false;
    }
    window_matches(v, a, b, 0, &p)
}

/// Whether the lower-cased component `v[a..b]` ends with `lit`.
pub fn name_ends_with(v: &Vec<char>, a: usize, b: usize, lit: &str) -> (r: bool)
    requires
        a <= b <= v@.len(),
    ensures
        r == ends_with(component_name(v@, a as int, b as int), lit@),
{
    let p = chars_of(lit);
    if p.len() > b - a {
        return false;
    }
    window_matches(v, a, b, (b - a) - p.len(), &p)
}

/// Whether `lit` occurs in the lower-cased component `v[a..b]`.
pub fn name_contains(v: &Vec<char>, a: usize, b: usize, lit: &str) -> (r: bool)
    requires
        a <= b <= v@.len(),
    ensures
        r == contains_seq(component_name(v@, a as int, b as int), lit@),
{
    let ghost name = component_name(v@, a as int, b as int);
    let p = chars_of(lit);
    if p.len() > b - a {
        proof {
            assert forall|i: int| !occurs_at(name, lit@, i) by {}
        }
        return false;
    }
    if p.len() == 0 {
        assert(name.subrange(0, 0) =~= lit@);
        assert(occurs_at(name, lit@, 0));
        return true;
    }
    let last = (b - a) - p.len();
    let mut off: usize = 0;
    while off <= last
        invariant
            a <= b <= v@.len(),
            p@ == lit@,
            last + p@.len() == b - a,
            p@.len() > 0,
            name == component_name(v@, a as int, b as int),
            forall|i: int| 0 <= i < off ==> !occurs_at(name, lit@, i),
        decreases last + 1 - off,
    {
        if window_matches(v, a, b, off, &p) {
            assert(occurs_at(name, lit@, off as int));
            return true;
        }
        off = off + 1;
    }
    proof {
        assert forall|i: int| !occurs_at(name, lit@, i) by {
            if 0 <= i && i + lit@.len() <= name.len() {
                assert(i < off);
            }
        }
    }
    false
}

/// `parts` joined by `sep`.
pub open spec fn join_with(parts: Seq<Seq<char>>, sep: Seq<char>) -> Seq<char>
    decreases parts.len(),
{
    if parts.len() == 0 {
        Seq::empty()
    } else if parts.len() == 1 {
        parts[0]
    } else {
        join_with(parts.drop_last(), sep) + sep + parts.last()
    }
}

} // verus!
