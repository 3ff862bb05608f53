//! Which `skills` CLI lock entries may travel in a package.
//!
//! An entry is carried only when every field is short, free of control
//! characters, not a local absolute path, free of credentials, and, for the
//! source, URL, ref and Skill path, of the narrower shape each field needs.
use vstd::prelude::*;
use vstd::utf8::encode_utf8;
use crate::models::{LockEntryView, SkillLockEntryV3};
use crate::paths::{is_portable_relative, is_portable_relative_path};
use crate::secrets::{has_high_confidence_secret, high_confidence_secret_bytes};
use crate::text::{chars_of, contains_seq, occurs_at, starts_with};

verus! {

/// A Unicode control character (general category Cc).
pub open spec fn is_control_char(c: char) -> bool {
    (c as u32) <= 0x1f || (0x7f <= (c as u32) && (c as u32) <= 0x9f)
}

/// An ASCII letter.
pub open spec fn is_ascii_alpha(c: char) -> bool {
    ('a' <= c && c <= 'z') || ('A' <= c && c <= 'Z')
}

/// An ASCII letter or digit.
pub open spec fn is_ascii_alnum(c: char) -> bool {
    is_ascii_alpha(c) || ('0' <= c && c <= '9')
}

/// An ASCII hexadecimal digit.
pub open spec fn is_hex_char(c: char) -> bool {
    ('0' <= c && c <= '9') || ('a' <= c && c <= 'f') || ('A' <= c && c <= 'F')
}

/// `c` occurs in `v`.
pub open spec fn has_char(v: Seq<char>, c: char) -> bool {
    exists|i: int| 0 <= i < v.len() && v[i] == c
}

/// `v` looks like a path on the packing machine: it starts with `/`, `\` or
/// `~`, or with a drive letter and `:`.
pub open spec fn looks_like_absolute(v: Seq<char>) -> bool {
    ||| (v.len() > 0 && (v[0] == '/' || v[0] == '\\' || v[0] == '~'))
    ||| (v.len() >= 2 && is_ascii_alpha(v[0]) && v[1] == ':')
}

/// A non-empty field of at most `max_bytes` UTF-8 bytes, with no control
/// character, not a local absolute path, and holding no credential.
pub open spec fn is_safe_plain(v: Seq<char>, max_bytes: int) -> bool {
    &&& v.len() > 0
    &&& encode_utf8(v).len() <= max_bytes
    &&& forall|i: int| 0 <= i < v.len() ==> !is_control_char(#[trigger] v[i])
    &&& !looks_like_absolute(v)
    &&& !has_high_confidence_secret(encode_utf8(v))
}

/// The authority of a URL, read from `rest` (what follows `://`), is non-empty
/// and holds no `@`: the authority is what precedes the first `/`.
pub open spec fn authority_ok(rest: Seq<char>) -> bool {
    &&& rest.len() > 0
    &&& rest[0] != '/'
    &&& forall|k: int|
        0 <= k < rest.len() && (forall|m: int| 0 <= m < k ==> rest[m] != '/') ==> #[trigger] rest[k]
            != '@'
}

/// Where `://` first occurs in `v`.
pub open spec fn is_first_scheme_sep(v: Seq<char>, i: int) -> bool {
    occurs_at(v, "://"@, i) && forall|j: int| 0 <= j < i ==> !occurs_at(v, "://"@, j)
}

/// A source URL: a safe plain field of at most 4096 bytes without query or
/// fragment, not a `file:` URL, and whose authority (after the first `://`,
/// if any) is present and carries no user information.
pub open spec fn is_safe_source_url(v: Seq<char>) -> bool {
    &&& is_safe_plain(v, 4096)
    &&& !has_char(v, '?')
    &&& !has_char(v, '#')
    &&& !starts_with(v, "file:"@)
    &&& forall|i: int| #[trigger] is_first_scheme_sep(v, i) ==> authority_ok(v.skip(i + 3))
}

/// A source: a safe plain field without `?`, `#` or `@`, and a safe source URL
/// whenever it holds `://`.
pub open spec fn is_safe_source(v: Seq<char>, max_bytes: int) -> bool {
    &&& is_safe_plain(v, max_bytes)
    &&& !has_char(v, '?')
    &&& !has_char(v, '#')
    &&& !has_char(v, '@')
    &&& (contains_seq(v, "://"@) ==> is_safe_source_url(v))
}

/// A character allowed in a git ref.
pub open spec fn is_ref_char(c: char) -> bool {
    is_ascii_alnum(c) || c == '.' || c == '_' || c == '/' || c == '-'
}

/// A git ref: a safe plain field of at most 512 bytes that does not start with
/// `-`, holds no `..`, and is made of ASCII letters, digits and `._/-`.
pub open spec fn is_safe_ref(v: Seq<char>) -> bool {
    &&& is_safe_plain(v, 512)
    &&& !starts_with(v, "-"@)
    &&& !contains_seq(v, ".."@)
    &&& !has_char(v, '?')
    &&& !has_char(v, '#')
    &&& !has_char(v, ':')
    &&& !has_char(v, '\\')
    &&& forall|i: int| 0 <= i < v.len() ==> is_ref_char(#[trigger] v[i])
}

/// A Skill path inside its source: relative and portable.
pub open spec fn is_safe_relative_lock_path(v: Seq<char>) -> bool {
    !looks_like_absolute(v) && is_portable_relative(v)
}

/// A SHA-1 or SHA-256 hex digest.
pub open spec fn is_safe_hash(v: Seq<char>) -> bool {
    (v.len() == 40 || v.len() == 64) && forall|i: int| 0 <= i < v.len() ==> is_hex_char(#[trigger] v[i])
}

/// Every field of a lock entry is safe to carry.
pub open spec fn is_safe_lock_entry(e: LockEntryView) -> bool {
    &&& is_safe_source(e.source, 2048)
    &&& is_safe_plain(e.source_type, 128)
    &&& is_safe_source_url(e.source_url)
    &&& is_safe_hash(e.skill_folder_hash)
    &&& is_safe_plain(e.installed_at, 128)
    &&& is_safe_plain(e.updated_at, 128)
    &&& (e.git_ref matches Some(r) ==> is_safe_ref(r))
    &&& (e.skill_path matches Some(p) ==> is_safe_relative_lock_path(p))
    &&& (e.plugin_name matches Some(p) ==> is_safe_plain(p, 256))
}

fn is_control(c: char) -> (r: bool)
    ensures
        r == is_control_char(c),
{
    (c as u32) <= 0x1f || (0x7f <= (c as u32) && (c as u32) <= 0x9f)
}

fn ascii_alpha(c: char) -> (r: bool)
    ensures
        r == is_ascii_alpha(c),
{
    ('a' <= c && c <= 'z') || ('A' <= c && c <= 'Z')
}

fn find_char(v: &Vec<char>, c: char) -> (r: bool)
    ensures
        r == has_char(v@, c),
{
    let mut i: usize = 0;
    while i < v.len()
        invariant
            i <= v@.len(),
            forall|k: int| 0 <= k < i ==> v@[k] != c,
        decreases v@.len() - i,
    {
        if v[i] == c {
            return true;
        }
        i = i + 1;
    }
    false
}

fn chars_match_at(v: &Vec<char>, p: &Vec<char>, i: usize) -> (r: bool)
    ensures
        r == occurs_at(v@, p@, i as int),
{
    if p.len() > v.len() || i > v.len() - p.len() {
        return false;
    }
    let n = v.len();
    let mut k: usize = 0;
    while k < p.len()
        invariant
            n == v@.len(),
            i + p@.len() <= v@.len(),
            k <= p@.len(),
            forall|t: int| 0 <= t < k ==> v@[i + t] == p@[t],
        decreases p@.len() - k,
    {
        let idx: usize = i + k;
        if v[idx] != p[k] {
            assert(v@.subrange(i as int, i + p@.len())[k as int] != p@[k as int]);
            return false;
        }
        k = k + 1;
    }
    assert(v@.subrange(i as int, i + p@.len()) =~= p@);
    true
}

/// The first position where `lit` occurs in `v`.
fn first_occurrence(v: &Vec<char>, lit: &str) -> (r: Option<usize>)
    requires
        lit@.len() > 0,
    ensures
        match r {
            Some(i) => occurs_at(v@, lit@, i as int) && forall|j: int|
                0 <= j < i ==> !occurs_at(v@, lit@, j),
            None => !contains_seq(v@, lit@),
        },
{
    let p = chars_of(lit);
    let n = v.len();
    let mut i: usize = 0;
    while i < n
        invariant
            n == v@.len(),
            p@ == lit@,
            i <= n,
            forall|j: int| 0 <= j < i ==> !occurs_at(v@, lit@, j),
        decreases n - i,
    {
        if chars_match_at(v, &p, i) {
            return Some(i);
        }
        i = i + 1;
    }
    proof {
        assert forall|j: int| !occurs_at(v@, lit@, j) by {
            if 0 <= j < n {
            }
        }
    }
    None
}

fn absolute_looking(v: &Vec<char>) -> (r: bool)
    ensures
        r == looks_like_absolute(v@),
{
    (v.len() > 0 && (v[0] == '/' || v[0] == '\\' || v[0] == '~')) || (v.len() >= 2 && ascii_alpha(
        v[0],
    ) && v[1] == ':')
}

/// Whether `value` looks like a path on the packing machine (see
/// `looks_like_absolute`).
pub fn looks_like_absolute_local_path(value: &str) -> (r: bool)
    ensures
        r == looks_like_absolute(value@),
{
    let v = chars_of(value);
    absolute_looking(&v)
}

/// Whether `value` is a non-empty field of at most `max_bytes` UTF-8 bytes,
/// with no control character, not a local absolute path, and holding no
/// credential.
pub fn safe_plain_field(value: &str, max_bytes: usize) -> (r: bool)
    ensures
        r == is_safe_plain(value@, max_bytes as int),
{
    let v = chars_of(value);
    let bytes = value.as_bytes();
    if v.len() == 0 || bytes.len() > max_bytes {
        return false;
    }
    let mut i: usize = 0;
    while i < v.len()
        invariant
            v@ == value@,
            bytes@ == encode_utf8(value@),
            i <= v@.len(),
            forall|k: int| 0 <= k < i ==> !is_control_char(#[trigger] v@[k]),
        decreases v@.len() - i,
    {
        if is_control(v[i]) {
            return false;
        }
        i = i + 1;
    }
    !absolute_looking(&v) && !high_confidence_secret_bytes(bytes)
}

fn authority_is_ok(v: &Vec<char>, start: usize) -> (r: bool)
    requires
        start <= v@.len(),
    ensures
        r == authority_ok(v@.skip(start as int)),
{
    let ghost rest = v@.skip(start as int);
    if start == v.len() || v[start] == '/' {
        return false;
    }
    let mut k: usize = start;
    while k < v.len() && v[k] != '/'
        invariant
            start <= k <= v@.len(),
            rest == v@.skip(start as int),
            forall|m: int| 0 <= m < k - start ==> rest[m] != '/' && rest[m] != '@',
        decreases v@.len() - k,
    {
        if v[k] == '@' {
            assert(rest[k - start] == '@');
            return false;
        }
        k = k + 1;
    }
    proof {
        assert forall|q: int|
            0 <= q < rest.len() && (forall|m: int| 0 <= m < q ==> rest[m] != '/') implies #[trigger] rest[q]
            != '@' by {
            if q >= k - start {
                assert(rest[k - start] == '/');
            }
        }
    }
    true
}

/// Whether `value` is a safe source URL (see `is_safe_source_url`).
pub fn safe_source_url(value: &str) -> (r: bool)
    ensures
        r == is_safe_source_url(value@),
{
    if !safe_plain_field(value, 4096) {
        return false;
    }
    let v = chars_of(value);
    if find_char(&v, '?') || find_char(&v, '#') {
        return false;
    }
    let file_prefix = chars_of("file:");
    if chars_match_at(&v, &file_prefix, 0) {
        return false;
    }
    proof {
        if starts_with(value@, "file:"@) {
            assert(occurs_at(v@, file_prefix@, 0));
        }
    }
    proof {
        reveal_strlit("://");
    }
    let n = v.len();
    match first_occurrence(&v, "://") {
        Some(i) => {
            let ok = authority_is_ok(&v, i + 3);
            proof {
                assert forall|j: int| #[trigger] is_first_scheme_sep(value@, j) implies j == i by {
                    if j < i {
                    } else if j > i {
                        assert(occurs_at(value@, "://"@, i as int));
                    }
                }
                assert(is_first_scheme_sep(value@, i as int));
            }
            ok
        },
        None => true,
    }
}

/// Whether `value` is a safe source of at most `max_bytes` bytes (see
/// `is_safe_source`).
pub fn safe_source_field(value: &str, max_bytes: usize) -> (r: bool)
    ensures
        r == is_safe_source(value@, max_bytes as int),
{
    if !safe_plain_field(value, max_bytes) {
        return false;
    }
    let v = chars_of(value);
    if find_char(&v, '?') || find_char(&v, '#') || find_char(&v, '@') {
        return false;
    }
    proof {
        reveal_strlit("://");
    }
    match first_occurrence(&v, "://") {
        Some(_) => safe_source_url(value),
        None => true,
    }
}

/// Whether `value` is a safe git ref (see `is_safe_ref`).
pub fn safe_ref(value: &str) -> (r: bool)
    ensures
        r == is_safe_ref(value@),
{
    if !safe_plain_field(value, 512) {
        return false;
    }
    let v = chars_of(value);
    let dash = chars_of("-");
    let starts_dash = chars_match_at(&v, &dash, 0);
    proof {
        reveal_strlit("-");
        reveal_strlit("..");
        if starts_with(value@, "-"@) {
            assert(v@.subrange(0, 1) == dash@);
        }
        if starts_dash {
            assert(value@.subrange(0, 1) == "-"@);
        }
    }
    if starts_dash {
        return false;
    }
    if first_occurrence(&v, "..").is_some() {
        return false;
    }
    if find_char(&v, '?') || find_char(&v, '#') || find_char(&v, ':') || find_char(&v, '\\') {
        return false;
    }
    let mut i: usize = 0;
    while i < v.len()
        invariant
            v@ == value@,
            i <= v@.len(),
            forall|k: int| 0 <= k < i ==> is_ref_char(#[trigger] v@[k]),
        decreases v@.len() - i,
    {
        let c = v[i];
        if !((('a' <= c && c <= 'z') || ('A' <= c && c <= 'Z') || ('0' <= c && c <= '9')) || c
            == '.' || c == '_' || c == '/' || c == '-') {
            return false;
        }
        i = i + 1;
    }
    true
}

/// Whether `value` is a relative, portable Skill path.
pub fn safe_relative_lock_path(value: &str) -> (r: bool)
    ensures
        r == is_safe_relative_lock_path(value@),
{
    let v = chars_of(value);
    if absolute_looking(&v) {
        return false;
    }
    is_portable_relative_path(value)
}

/// Whether `value` is a 40- or 64-digit hexadecimal digest.
pub fn safe_hash(value: &str) -> (r: bool)
    ensures
        r == is_safe_hash(value@),
{
    let v = chars_of(value);
    if v.len() != 40 && v.len() != 64 {
        return false;
    }
    let mut i: usize = 0;
    while i < v.len()
        invariant
            v@ == value@,
            i <= v@.len(),
            forall|k: int| 0 <= k < i ==> is_hex_char(#[trigger] v@[k]),
        decreases v@.len() - i,
    {
        let c = v[i];
        if !(('0' <= c && c <= '9') || ('a' <= c && c <= 'f') || ('A' <= c && c <= 'F')) {
            return false;
        }
        i = i + 1;
    }
    true
}

/// The entry itself when every field is safe to carry, `None` otherwise.
pub fn sanitize_lock_entry(entry: &SkillLockEntryV3) -> (r: Option<SkillLockEntryV3>)
    ensures
        match r {
            Some(e) => is_safe_lock_entry(entry@) && e@ == entry@,
            None => !is_safe_lock_entry(entry@),
        },
{
    let ref_ok = match &entry.git_ref {
        Some(value) => safe_ref(value.as_str()),
        None => true,
    };
    let path_ok = match &entry.skill_path {
        Some(value) => safe_relative_lock_path(value.as_str()),
        None => true,
    };
    let plugin_ok = match &entry.plugin_name {
        Some(value) => safe_plain_field(value.as_str(), 256),
        None => true,
    };
    if !safe_source_field(entry.source.as_str(), 2048) || !safe_plain_field(
        entry.source_type.as_str(),
        128,
    ) || !safe_source_url(entry.source_url.as_str()) || !safe_hash(
        entry.skill_folder_hash.as_str(),
    ) || !safe_plain_field(entry.installed_at.as_str(), 128) || !safe_plain_field(
        entry.updated_at.as_str(),
        128,
    ) || !ref_ok || !path_ok || !plugin_ok {
        return None;
    }
    Some(entry.copy())
}

/// A field is a safe plain field exactly when it is non-empty, fits in
/// `max_bytes` UTF-8 bytes, holds no control character (U+0000 to U+001F,
/// U+007F to U+009F), does not start with `/`, `\`, `~` or an ASCII letter
/// and `:`, and holds no high-confidence credential.
pub proof fn law_safe_plain_fields(v: Seq<char>, max_bytes: int)
    ensures
        is_safe_plain(v, max_bytes) <==> {
            &&& v.len() > 0
            &&& encode_utf8(v).len() <= max_bytes
            &&& forall|k: int|
                0 <= k < v.len() ==> !((#[trigger] v[k] as u32) <= 0x1f || (0x7f <= (v[k] as u32)
                    && (v[k] as u32) <= 0x9f))
            &&& !(v[0] == '/' || v[0] == '\\' || v[0] == '~')
            &&& !(v.len() >= 2 && (('a' <= v[0] && v[0] <= 'z') || ('A' <= v[0] && v[0] <= 'Z'))
                && v[1] == ':')
            &&& !has_high_confidence_secret(encode_utf8(v))
        },
{
}

/// A git ref travels exactly when it is a safe plain field of at most 512
/// bytes that does not start with `-`, has no two dots in a row, and is made
/// only of ASCII letters, digits, `.`, `_`, `/` and `-` (so `feature-branch`
/// and `release/1.2` do, `../x`, `-x` and `a:b` do not).
pub proof fn law_safe_refs(v: Seq<char>)
    ensures
        is_safe_ref(v) <==> {
            &&& is_safe_plain(v, 512)
            &&& v[0] != '-'
            &&& forall|k: int| 0 <= k < v.len() - 1 ==> !(#[trigger] v[k] == '.' && v[k + 1] == '.')
            &&& forall|k: int|
                0 <= k < v.len() ==> {
                    let c = #[trigger] v[k];
                    ('a' <= c && c <= 'z') || ('A' <= c && c <= 'Z') || ('0' <= c && c <= '9') || c
                        == '.' || c == '_' || c == '/' || c == '-'
                }
        },
{
    reveal_strlit("-");
    reveal_strlit("..");
    let class = forall|k: int|
        0 <= k < v.len() ==> {
            let c = #[trigger] v[k];
            ('a' <= c && c <= 'z') || ('A' <= c && c <= 'Z') || ('0' <= c && c <= '9') || c == '.'
                || c == '_' || c == '/' || c == '-'
        };
    if v.len() > 0 {
        assert(starts_with(v, "-"@) <==> v[0] == '-') by {
            if v[0] == '-' {
                assert(v.subrange(0, 1) =~= "-"@);
            }
            if starts_with(v, "-"@) {
                assert(v.subrange(0, 1)[0] == v[0]);
            }
        }
    }
    assert(contains_seq(v, ".."@) <==> exists|k: int|
        0 <= k < v.len() - 1 && #[trigger] v[k] == '.' && v[k + 1] == '.') by {
        if contains_seq(v, ".."@) {
            let k = choose|k: int| occurs_at(v, ".."@, k);
            assert(v.subrange(k, k + 2)[0] == v[k]);
            assert(v.subrange(k, k + 2)[1] == v[k + 1]);
        }
        if exists|k: int| 0 <= k < v.len() - 1 && #[trigger] v[k] == '.' && v[k + 1] == '.' {
            let k = choose|k: int| 0 <= k < v.len() - 1 && #[trigger] v[k] == '.' && v[k + 1] == '.';
            assert(v.subrange(k, k + 2) =~= ".."@);
            assert(occurs_at(v, ".."@, k));
        }
    }
    if class {
        assert(!has_char(v, '?') && !has_char(v, '#') && !has_char(v, ':') && !has_char(v, '\\')) by {
            if has_char(v, '?') || has_char(v, '#') || has_char(v, ':') || has_char(v, '\\') {
                let k = choose|k: int| 0 <= k < v.len() && (v[k] == '?' || v[k] == '#' || v[k] == ':'
                    || v[k] == '\\');
                assert(v[k] == v[k]);
            }
        }
    }
}

/// A folder hash travels exactly when it is 40 or 64 ASCII hexadecimal
/// digits (either case).
pub proof fn law_safe_hashes(v: Seq<char>)
    ensures
        is_safe_hash(v) <==> {
            &&& v.len() == 40 || v.len() == 64
            &&& forall|k: int|
                0 <= k < v.len() ==> {
                    let c = #[trigger] v[k];
                    ('0' <= c && c <= '9') || ('a' <= c && c <= 'f') || ('A' <= c && c <= 'F')
                }
        },
{
}

/// A lock entry travels in a package exactly when its source is a safe
/// source of at most 2048 bytes, its source type and both timestamps are safe
/// plain fields of at most 128 bytes, its source URL is a safe source URL, its
/// folder hash is a SHA-1 or SHA-256 hex digest, and its optional ref, Skill
/// path and plugin name (at most 256 bytes) are safe when present.
pub proof fn law_safe_entries(e: LockEntryView)
    ensures
        is_safe_lock_entry(e) <==> {
            &&& is_safe_source(e.source, 2048)
            &&& is_safe_plain(e.source_type, 128)
            &&& is_safe_source_url(e.source_url)
            &&& is_safe_hash(e.skill_folder_hash)
            &&& is_safe_plain(e.installed_at, 128)
            &&& is_safe_plain(e.updated_at, 128)
            &&& match e.git_ref {
                Some(r) => is_safe_ref(r),
                None => true,
            }
            &&& match e.skill_path {
                Some(p) => is_safe_relative_lock_path(p),
                None => true,
            }
            &&& match e.plugin_name {
                Some(p) => is_safe_plain(p, 256),
                None => true,
            }
        },
{
}

/// A source URL travels only when it is a safe plain field of at most 4096
/// bytes with no `?` or `#` and not a `file:` URL; one whose authority (what
/// follows the first `://`, up to the next `/`) is empty or holds `@` never
/// does. A source never travels with `?`, `#` or `@` in it.
pub proof fn law_source_urls_carry_no_credentials(v: Seq<char>, i: int, k: int)
    ensures
        is_safe_source_url(v) ==> {
            &&& is_safe_plain(v, 4096)
            &&& forall|m: int| 0 <= m < v.len() ==> #[trigger] v[m] != '?' && v[m] != '#'
            &&& !(v.len() >= 5 && v[0] == 'f' && v[1] == 'i' && v[2] == 'l' && v[3] == 'e' && v[4]
                == ':')
        },
        is_first_scheme_sep(v, i) && i + 3 <= k < v.len() && v[k] == '@' && (forall|m: int|
            i + 3 <= m < k ==> #[trigger] v[m] != '/') ==> !is_safe_source_url(v),
        is_first_scheme_sep(v, i) && (i + 3 == v.len() || (i + 3 < v.len() && v[i + 3] == '/'))
            ==> !is_safe_source_url(v),
        forall|max_bytes: int|
            #[trigger] is_safe_source(v, max_bytes) ==> forall|m: int|
                0 <= m < v.len() ==> #[trigger] v[m] != '?' && v[m] != '#' && v[m] != '@',
{
    reveal_strlit("file:");
    if v.len() >= 5 && v[0] == 'f' && v[1] == 'i' && v[2] == 'l' && v[3] == 'e' && v[4] == ':' {
        assert(v.subrange(0, 5) =~= "file:"@);
    }
    if is_first_scheme_sep(v, i) && i + 3 <= k < v.len() && v[k] == '@' && (forall|m: int|
        i + 3 <= m < k ==> #[trigger] v[m] != '/') {
        let rest = v.skip(i + 3);
        assert(rest[k - i - 3] == '@');
        assert forall|m: int| 0 <= m < k - i - 3 implies rest[m] != '/' by {
            assert(rest[m] == v[i + 3 + m]);
        }
        assert(!authority_ok(rest));
    }
    if is_first_scheme_sep(v, i) && (i + 3 == v.len() || (i + 3 < v.len() && v[i + 3] == '/')) {
        assert(!authority_ok(v.skip(i + 3)));
    }
    assert forall|max_bytes: int| #[trigger] is_safe_source(v, max_bytes) implies forall|m: int|
        0 <= m < v.len() ==> #[trigger] v[m] != '?' && v[m] != '#' && v[m] != '@' by {
        assert forall|m: int| 0 <= m < v.len() implies #[trigger] v[m] != '?' && v[m] != '#' && v[m]
            != '@' by {
            if v[m] == '?' || v[m] == '#' || v[m] == '@' {
                assert(v[m] == v[m]);
            }
        }
    }
    assert forall|m: int| 0 <= m < v.len() && is_safe_source_url(v) implies #[trigger] v[m] != '?'
        && v[m] != '#' by {
        if v[m] == '?' || v[m] == '#' {
            assert(v[m] == v[m]);
        }
    }
}

} // verus!
