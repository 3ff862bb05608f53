//! Portable relative paths.
//!
//! A package stores entries under relative paths that every supported system
//! can create: the path is relative (no leading separator, no drive prefix),
//! and each component avoids the characters and device names Windows refuses.
//! The normalised form joins the components with single `/` separators.
use vstd::prelude::*;
use crate::error::{ErrorCode, RehomeError};
use crate::text::{chars_of, component_name, is_component, is_sep, name_is};

verus! {

/// Characters no Windows file name may hold.
pub open spec fn is_reserved_char(c: char) -> bool {
    (c as u32) < 0x20 || c == '<' || c == '>' || c == ':' || c == '"' || c == '|' || c == '?'
        || c == '*'
}

/// Windows device names (compared lower-cased, without extension).
pub open spec fn is_device_name(n: Seq<char>) -> bool {
    ||| n == "con"@ || n == "prn"@ || n == "aux"@ || n == "nul"@
    ||| n == "com1"@ || n == "com2"@ || n == "com3"@ || n == "com4"@ || n == "com5"@
    ||| n == "com6"@ || n == "com7"@ || n == "com8"@ || n == "com9"@
    ||| n == "lpt1"@ || n == "lpt2"@ || n == "lpt3"@ || n == "lpt4"@ || n == "lpt5"@
    ||| n == "lpt6"@ || n == "lpt7"@ || n == "lpt8"@ || n == "lpt9"@
}

/// `d` is where the stem of `s[i..j]` ends: its first `.`, or `j`.
pub open spec fn is_stem_end(s: Seq<char>, i: int, j: int, d: int) -> bool {
    &&& i <= d <= j
    &&& (d == j || s[d] == '.')
    &&& forall|k: int| i <= k < d ==> #[trigger] s[k] != '.'
}

/// The component `s[i..j]` is a device name, with or without an extension.
pub open spec fn is_device_component(s: Seq<char>, i: int, j: int) -> bool {
    exists|d: int| #[trigger] is_stem_end(s, i, j, d) && is_device_name(component_name(s, i, d))
}

/// The component `s[i..j]` can be created on every supported system.
pub open spec fn is_portable_component(s: Seq<char>, i: int, j: int) -> bool {
    &&& forall|k: int| i <= k < j ==> !is_reserved_char(#[trigger] s[k])
    &&& s[j - 1] != '.'
    &&& s[j - 1] != ' '
    &&& !is_device_component(s, i, j)
}

/// `s` is a portable relative path.
pub open spec fn is_portable_relative(s: Seq<char>) -> bool {
    &&& s.len() > 0
    &&& !is_sep(s[0])
    &&& !(s.len() >= 2 && s[1] == ':')
    &&& forall|i: int, j: int| #[trigger] is_component(s, i, j) ==> is_portable_component(s, i, j)
}

/// The components of `s` joined by single `/` separators.
pub open spec fn normalized(s: Seq<char>) -> Seq<char>
    decreases s.len(),
{
    if s.len() == 0 {
        Seq::empty()
    } else {
        let w = s.drop_last();
        let c = s.last();
        let n = normalized(w);
        if is_sep(c) {
            n
        } else if w.len() == 0 || is_sep(w.last()) {
            if n.len() == 0 {
                seq![c]
            } else {
                n + seq!['/', c]
            }
        } else {
            n.push(c)
        }
    }
}

/// A relative path is portable exactly when it is non-empty, starts with
/// neither `/`, `\` nor a drive (`X:`), and each component holds no
/// character below U+0020 nor any of `<>:"|?*`, does not end with `.` or a
/// space, and is not a Windows device name (`con`, `prn`, `aux`, `nul`,
/// `com1`-`com9`, `lpt1`-`lpt9`, in any ASCII case) with or without an
/// extension.
pub proof fn law_portable_relative_paths(s: Seq<char>)
    ensures
        is_portable_relative(s) <==> {
            &&& s.len() > 0
            &&& s[0] != '/' && s[0] != '\\'
            &&& !(s.len() >= 2 && s[1] == ':')
            &&& forall|i: int, j: int|
                #[trigger] is_component(s, i, j) ==> {
                    &&& forall|k: int|
                        i <= k < j ==> {
                            let c = #[trigger] s[k];
                            &&& (c as u32) >= 0x20
                            &&& c != '<' && c != '>' && c != ':' && c != '"'
                            &&& c != '|' && c != '?' && c != '*'
                        }
                    &&& s[j - 1] != '.' && s[j - 1] != ' '
                    &&& forall|d: int|
                        #[trigger] is_stem_end(s, i, j, d) ==> {
                            let n = component_name(s, i, d);
                            !(n == "con"@ || n == "prn"@ || n == "aux"@ || n == "nul"@ || n
                                == "com1"@ || n == "com2"@ || n == "com3"@ || n == "com4"@ || n
                                == "com5"@ || n == "com6"@ || n == "com7"@ || n == "com8"@ || n
                                == "com9"@ || n == "lpt1"@ || n == "lpt2"@ || n == "lpt3"@ || n
                                == "lpt4"@ || n == "lpt5"@ || n == "lpt6"@ || n == "lpt7"@ || n
                                == "lpt8"@ || n == "lpt9"@)
                        }
                }
        },
{
}

/// A stem ends at the first `.` of its component, or at the component's end.
pub proof fn law_stems_end_at_the_first_dot(s: Seq<char>, i: int, j: int, d: int)
    ensures
        is_stem_end(s, i, j, d) <==> (i <= d <= j && (d == j || s[d] == '.') && forall|k: int|
            i <= k < d ==> #[trigger] s[k] != '.'),
{
}

fn device_stem(v: &Vec<char>, a: usize, d: usize) -> (r: bool)
    requires
        a <= d <= v@.len(),
    ensures
        r == is_device_name(component_name(v@, a as int, d as int)),
{
    name_is(v, a, d, "con") || name_is(v, a, d, "prn") || name_is(v, a, d, "aux") || name_is(
        v,
        a,
        d,
        "nul",
    ) || name_is(v, a, d, "com1") || name_is(v, a, d, "com2") || name_is(v, a, d, "com3")
        || name_is(v, a, d, "com4") || name_is(v, a, d, "com5") || name_is(v, a, d, "com6")
        || name_is(v, a, d, "com7") || name_is(v, a, d, "com8") || name_is(v, a, d, "com9")
        || name_is(v, a, d, "lpt1") || name_is(v, a, d, "lpt2") || name_is(v, a, d, "lpt3")
        || name_is(v, a, d, "lpt4") || name_is(v, a, d, "lpt5") || name_is(v, a, d, "lpt6")
        || name_is(v, a, d, "lpt7") || name_is(v, a, d, "lpt8") || name_is(v, a, d, "lpt9")
}

fn reserved_char(c: char) -> (r: bool)
    ensures
        r == is_reserved_char(c),
{
    (c as u32) < 0x20 || c == '<' || c == '>' || c == ':' || c == '"' || c == '|' || c == '?'
        || c == '*'
}

/// Whether the non-empty component `v[a..b]` is portable.
fn portable_component(v: &Vec<char>, a: usize, b: usize) -> (r: bool)
    requires
        a < b <= v@.len(),
    ensures
        r == is_portable_component(v@, a as int, b as int),
{
    let mut k: usize = a;
    let mut d: usize = b;
    while k < b
        invariant
            a <= k <= b <= v@.len(),
            d == b || (a <= d < k && v@[d as int] == '.'),
            forall|t: int| a <= t < k ==> !is_reserved_char(#[trigger] v@[t]),
            forall|t: int| a <= t < (if d == b { k } else { d }) ==> #[trigger] v@[t] != '.',
        decreases b - k,
    {
        if reserved_char(v[k]) {
            return false;
        }
        if d == b && v[k] == '.' {
            d = k;
        }
        k = k + 1;
    }
    assert(is_stem_end(v@, a as int, b as int, d as int));
    if v[b - 1] == '.' || v[b - 1] == ' ' {
        return false;
    }
    let device = device_stem(v, a, d);
    proof {
        if is_device_component(v@, a as int, b as int) {
            let e = choose|e: int|
                #[trigger] is_stem_end(v@, a as int, b as int, e) && is_device_name(
                    component_name(v@, a as int, e),
                );
            if e < d {
                assert(v@[e] != '.');
            }
            if d < e {
                assert(v@[d as int] != '.');
            }
        }
    }
    !device
}

/// Whether `s` is a portable relative path.
pub fn is_portable_relative_path(s: &str) -> (r: bool)
    ensures
        r == is_portable_relative(s@),
{
    let v = chars_of(s);
    let n = v.len();
    if n == 0 || v[0] == '/' || v[0] == '\\' || (n >= 2 && v[1] == ':') {
        return false;
    }
    let mut start: usize = 0;
    let mut i: usize = 0;
    while i < n
        invariant
            n == v@.len(),
            v@ == s@,
            start <= i <= n,
            start == 0 || is_sep(v@[start - 1]),
            forall|k: int| start <= k < i ==> !is_sep(#[trigger] v@[k]),
            forall|a: int, b: int|
                #[trigger] is_component(v@, a, b) && a < start ==> is_portable_component(v@, a, b),
        decreases n - i,
    {
        if v[i] == '/' || v[i] == '\\' {
            if start < i {
                if !portable_component(&v, start, i) {
                    assert(is_component(v@, start as int, i as int));
                    return false;
                }
            }
            proof {
                assert forall|a: int, b: int|
                    #[trigger] is_component(v@, a, b) && a < i + 1 implies is_portable_component(
                    v@,
                    a,
                    b,
                ) by {
                    if a >= start {
                        if a > start {
                            assert(!is_sep(v@[a - 1]));
                        }
                        if b < i {
                            assert(!is_sep(v@[b]));
                        }
                        if b > i {
                            assert(!is_sep(v@[i as int]));
                        }
                    }
                }
            }
            start = i + 1;
        }
        i = i + 1;
    }
    if start < n {
        if !portable_component(&v, start, n) {
            assert(is_component(v@, start as int, n as int));
            return false;
        }
    }
    proof {
        assert forall|a: int, b: int| #[trigger] is_component(v@, a, b) implies is_portable_component(
            v@,
            a,
            b,
        ) by {
            if a >= start {
                if a > start {
                    assert(!is_sep(v@[a - 1]));
                }
                if b < n {
                    assert(!is_sep(v@[b]));
                }
            }
        }
    }
    true
}

/// The normalised form of `s`: its components joined by single `/`.
pub fn normalized_chars(s: &str) -> (r: Vec<char>)
    ensures
        r@ == normalized(s@),
{
    let v = chars_of(s);
    let n = v.len();
    let mut out: Vec<char> = Vec::new();
    let mut i: usize = 0;
    while i < n
        invariant
            n == v@.len(),
            v@ == s@,
            i <= n,
            out@ == normalized(v@.subrange(0, i as int)),
        decreases n - i,
    {
        let ghost w = v@.subrange(0, i as int);
        let c = v[i];
        assert(v@.subrange(0, i + 1).drop_last() =~= w);
        if c == '/' || c == '\\' {
        } else if i == 0 || v[i - 1] == '/' || v[i - 1] == '\\' {
            if out.len() == 0 {
                out.push(c);
            } else {
                out.push('/');
                out.push(c);
                assert(out@ =~= normalized(w) + seq!['/', c]);
            }
        } else {
            out.push(c);
        }
        i = i + 1;
    }
    assert(v@.subrange(0, n as int) =~= v@);
    out
}

/// The normalised form of `s`, as a string.
pub fn normalized_string(s: &str) -> (r: String)
    ensures
        r@ == normalized(s@),
{
    let n = s.unicode_len();
    let mut out = String::new();
    let mut i: usize = 0;
    let mut prev_sep = true;
    proof {
        reveal_strlit("/");
    }
    while i < n
        invariant
            n == s@.len(),
            i <= n,
            prev_sep == (i == 0 || is_sep(s@[i - 1])),
            out@ == normalized(s@.subrange(0, i as int)),
        decreases n - i,
    {
        let ghost w = s@.subrange(0, i as int);
        let c = s.get_char(i);
        assert(s@.subrange(0, i + 1).drop_last() =~= w);
        let is_separator = c == '/' || c == '\\';
        if !is_separator {
            let piece = s.substring_char(i, i + 1);
            assert(piece@ =~= seq![c]);
            let ghost before = out@;
            assert(s@.subrange(0, i + 1).last() == c);
            if prev_sep && out.unicode_len() > 0 {
                proof {
                    reveal_strlit("/");
                }
                out.append("/");
                out.append(piece);
                assert(out@ =~= before + seq!['/', c]);
            } else {
                out.append(piece);
                assert(out@ =~= before.push(c));
            }
            assert(out@ =~= normalized(s@.subrange(0, i + 1)));
        }
        prev_sep = is_separator;
        i = i + 1;
    }
    assert(s@.subrange(0, n as int) =~= s@);
    out
}

/// `s` as a portable relative path in normalised form, or an error naming
/// why it is not portable.
pub fn normalize_entry(s: &str) -> (r: Result<String, RehomeError>)
    ensures
        match r {
            Ok(n) => is_portable_relative(s@) && n@ == normalized(s@),
            Err(e) => !is_portable_relative(s@) && e.code == ErrorCode::PackageInvalid
                && e.message@ == "path is not a portable relative path"@,
        },
{
    if !is_portable_relative_path(s) {
        return Err(RehomeError::new(ErrorCode::PackageInvalid, "path is not a portable relative path"));
    }
    Ok(normalized_string(s))
}


/// The number of UTF-16 code units that encode `s`.
pub open spec fn utf16_len(s: Seq<char>) -> nat
    decreases s.len(),
{
    if s.len() == 0 {
        0
    } else {
        utf16_len(s.drop_last()) + if (s.last() as u32) >= 0x10000 {
            2nat
        } else {
            1nat
        }
    }
}

/// Every component of `s` fits the 255 UTF-16 code units Windows allows.
pub open spec fn components_fit_windows(s: Seq<char>) -> bool {
    forall|i: int, j: int| #[trigger] is_component(s, i, j) ==> utf16_len(s.subrange(i, j)) <= 255
}

/// A path a shared Skill may hold: portable, with no component longer than
/// Windows allows.
pub open spec fn is_portable_skill_path(s: Seq<char>) -> bool {
    is_portable_relative(s) && components_fit_windows(s)
}

fn component_fits(v: &Vec<char>, a: usize, b: usize) -> (r: bool)
    requires
        a <= b <= v@.len(),
    ensures
        r == (utf16_len(v@.subrange(a as int, b as int)) <= 255),
{
    let mut units: usize = 0;
    let mut k: usize = a;
    while k < b
        invariant
            a <= k <= b <= v@.len(),
            units == utf16_len(v@.subrange(a as int, k as int)),
            units <= 2 * (k - a),
            units <= 255,
        decreases b - k,
    {
        assert(v@.subrange(a as int, k + 1).drop_last() =~= v@.subrange(a as int, k as int));
        let more: usize = if (v[k] as u32) >= 0x10000 { 2 } else { 1 };
        units = units + more;
        k = k + 1;
        if units > 255 {
            proof {
                lemma_utf16_len_grows(v@.subrange(a as int, b as int), (k - a) as int);
                assert(v@.subrange(a as int, b as int).take((k - a) as int) =~= v@.subrange(
                    a as int,
                    k as int,
                ));
            }
            return false;
        }
    }
    true
}

/// A longer prefix never needs fewer code units.
proof fn lemma_utf16_len_grows(s: Seq<char>, m: int)
    requires
        0 <= m <= s.len(),
    ensures
        utf16_len(s.take(m)) <= utf16_len(s),
    decreases s.len() - m,
{
    if m < s.len() {
        lemma_utf16_len_grows(s, m + 1);
        assert(s.take(m + 1).drop_last() =~= s.take(m));
    } else {
        assert(s.take(m) =~= s);
    }
}

/// Whether every component of `s` fits Windows' 255 UTF-16 code units.
pub fn fits_windows_components(s: &str) -> (r: bool)
    ensures
        r == components_fit_windows(s@),
{
    let v = chars_of(s);
    let n = v.len();
    let mut start: usize = 0;
    let mut i: usize = 0;
    while i < n
        invariant
            n == v@.len(),
            v@ == s@,
            start <= i <= n,
            start == 0 || is_sep(v@[start - 1]),
            forall|k: int| start <= k < i ==> !is_sep(#[trigger] v@[k]),
            forall|a: int, b: int|
                #[trigger] is_component(v@, a, b) && a < start ==> utf16_len(v@.subrange(a, b))
                    <= 255,
        decreases n - i,
    {
        if v[i] == '/' || v[i] == '\\' {
            if start < i {
                if !component_fits(&v, start, i) {
                    assert(is_component(v@, start as int, i as int));
                    return false;
                }
            }
            proof {
                assert forall|a: int, b: int|
                    #[trigger] is_component(v@, a, b) && a < i + 1 implies utf16_len(
                    v@.subrange(a, b),
                ) <= 255 by {
                    if a >= start {
                        if a > start {
                            assert(!is_sep(v@[a - 1]));
                        }
                        if b < i {
                            assert(!is_sep(v@[b]));
                        }
                        if b > i {
                            assert(!is_sep(v@[i as int]));
                        }
                    }
                }
            }
            start = i + 1;
        }
        i = i + 1;
    }
    if start < n {
        if !component_fits(&v, start, n) {
            assert(is_component(v@, start as int, n as int));
            return false;
        }
    }
    proof {
        assert forall|a: int, b: int| #[trigger] is_component(v@, a, b) implies utf16_len(
            v@.subrange(a, b),
        ) <= 255 by {
            if a >= start {
                if a > start {
                    assert(!is_sep(v@[a - 1]));
                }
                if b < n {
                    assert(!is_sep(v@[b]));
                }
            }
        }
    }
    true
}

/// Why `s` is not a path a shared Skill may hold.
pub open spec fn portable_path_error(s: Seq<char>) -> Seq<char> {
    if !is_portable_relative(s) {
        "path is not a portable relative path"@
    } else {
        "path component exceeds the Windows UTF-16 length limit"@
    }
}

/// `s` in normalised form when it is a path a shared Skill may hold, or an
/// error naming why it is not.
pub fn portable_relative_path(s: &str) -> (r: Result<String, RehomeError>)
    ensures
        match r {
            Ok(n) => is_portable_skill_path(s@) && n@ == normalized(s@),
            Err(e) => !is_portable_skill_path(s@) && e.code == ErrorCode::PackageInvalid
                && e.message@ == portable_path_error(s@),
        },
{
    let normalized_path = normalize_entry(s)?;
    if !fits_windows_components(s) {
        return Err(
            RehomeError::new(
                ErrorCode::PackageInvalid,
                "path component exceeds the Windows UTF-16 length limit",
            ),
        );
    }
    Ok(normalized_path)
}

} // verus!
