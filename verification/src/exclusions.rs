//! Which paths are kept out of a package.
//!
//! A path is judged by its components (see `crate::text`): each component is
//! lower-cased (ASCII only) and checked against fixed name lists, prefixes and
//! suffixes. A single matching component decides for the whole path.
use vstd::prelude::*;
use crate::text::{
    component_name, contains_seq, ends_with, is_component, is_sep, lower_is, name_contains,
    name_ends_with, name_is, name_starts_with, starts_with, chars_of, lower_char,
};

use crate::shared_skills::path_join;

verus! {

/// What the shared-Skill scan does with one file.
#[derive(Debug, Clone, Copy, PartialEq, Eq)]
pub enum SkillPathPolicy {
    /// The file is packaged.
    Include,
    /// The file is left out and counted in the exclusion summary.
    Exclude(&'static str),
    /// The file is left out and the whole Skill is blocked from packaging.
    Block(&'static str),
}

/// Reason reported when a Skill file is blocked.
pub open spec fn block_reason() -> Seq<char> {
    "sensitive credential or private-key path"@
}

/// Reason reported when a Skill file is excluded.
pub open spec fn exclude_reason() -> Seq<char> {
    "dependency, cache, build, or version-control data"@
}

/// Dependency, cache, browser-profile and build directory names.
pub open spec fn is_forbidden_component_name(n: Seq<char>) -> bool {
    n == ".ds_store"@
    || n == ".git"@
    || n == ".tmp"@
    || n == ".venv"@
    || n == "__pycache__"@
    || n == "build"@
    || n == "cache"@
    || n == "caches"@
    || n == "cachestorage"@
    || n == "code cache"@
    || n == "dist"@
    || n == "gpucache"@
    || n == "local storage"@
    || n == "logs"@
    || n == "node_modules"@
    || n == "process_manager"@
    || n == "session storage"@
    || n == "target"@
    || n == "tmp"@
    || n == "vendor_imports"@
    || n == "venv"@
}

/// Credential, cookie and browser-lock file names.
pub open spec fn is_forbidden_file_name(n: Seq<char>) -> bool {
    n == "auth.json"@
    || n == "cookies"@
    || n == "cookies-journal"@
    || n == "id_dsa"@
    || n == "id_ecdsa"@
    || n == "id_ed25519"@
    || n == "id_rsa"@
    || n == "login data"@
    || n == "login data for account"@
    || n == "login data for account-journal"@
    || n == "login data-journal"@
    || n == "runningchromeversion"@
    || n == "singletoncookie"@
    || n == "singletonlock"@
    || n == "singletonsocket"@
}

/// Dependency, cache, build and version-control names left out of a Skill.
pub open spec fn is_skill_excluded_name(n: Seq<char>) -> bool {
    n == ".git"@
    || n == ".tmp"@
    || n == ".venv"@
    || n == "__pycache__"@
    || n == "build"@
    || n == "cache"@
    || n == "caches"@
    || n == "dist"@
    || n == "node_modules"@
    || n == "target"@
    || n == "tmp"@
    || n == "venv"@
}

/// Credential and private-key file names that block a Skill.
pub open spec fn is_skill_sensitive_file_name(n: Seq<char>) -> bool {
    n == ".git-credentials"@
    || n == ".netrc"@
    || n == ".npmrc"@
    || n == ".pypirc"@
    || n == "auth.json"@
    || n == "credentials.json"@
    || n == "id_dsa"@
    || n == "id_ecdsa"@
    || n == "id_ed25519"@
    || n == "id_rsa"@
    || n == "service-account.json"@
    || n == "secrets.json"@
    || n == "token.json"@
    || n == "tokens.json"@
}

/// A component name that blocks a Skill.
pub open spec fn is_skill_sensitive_name(n: Seq<char>) -> bool {
    ||| is_skill_sensitive_file_name(n)
    ||| n == ".env"@
    ||| starts_with(n, ".env."@)
    ||| (starts_with(n, "client_secret"@) && ends_with(n, ".json"@))
    ||| (starts_with(n, "service_account"@) && ends_with(n, ".json"@))
    ||| ends_with(n, ".key"@)
    ||| ends_with(n, ".pem"@)
    ||| ends_with(n, ".p12"@)
    ||| ends_with(n, ".pfx"@)
}

/// A component name that keeps a path out of a package.
pub open spec fn is_forbidden_name(n: Seq<char>) -> bool {
    ||| is_forbidden_component_name(n)
    ||| is_forbidden_file_name(n)
    ||| n == ".env"@
    ||| starts_with(n, ".env."@)
    ||| (starts_with(n, "logs_"@) && contains_seq(n, ".sqlite"@))
    ||| ends_with(n, ".ipc"@)
    ||| ends_with(n, ".key"@)
    ||| ends_with(n, ".pem"@)
    ||| ends_with(n, ".sock"@)
    ||| ends_with(n, ".socket"@)
}

/// The three component rules of this module.
#[derive(Clone, Copy)]
enum NameRule {
    SkillSensitive,
    SkillExcluded,
    Forbidden,
}

spec fn rule_holds(rule: NameRule, n: Seq<char>) -> bool {
    match rule {
        NameRule::SkillSensitive => is_skill_sensitive_name(n),
        NameRule::SkillExcluded => is_skill_excluded_name(n),
        NameRule::Forbidden => is_forbidden_name(n),
    }
}

/// Some component of `s` satisfies `rule`.
spec fn some_component(s: Seq<char>, rule: NameRule) -> bool {
    exists|i: int, j: int| #[trigger] is_component(s, i, j) && rule_holds(rule, component_name(s, i, j))
}

/// Some component of `path` blocks a Skill.
pub open spec fn has_skill_sensitive_component(path: Seq<char>) -> bool {
    exists|i: int, j: int|
        #[trigger] is_component(path, i, j) && is_skill_sensitive_name(component_name(path, i, j))
}

/// Some component of `path` is excluded from a Skill.
pub open spec fn has_skill_excluded_component(path: Seq<char>) -> bool {
    exists|i: int, j: int|
        #[trigger] is_component(path, i, j) && is_skill_excluded_name(component_name(path, i, j))
}

/// Some component of `path` keeps it out of a package.
pub open spec fn has_forbidden_component(path: Seq<char>) -> bool {
    exists|i: int, j: int|
        #[trigger] is_component(path, i, j) && is_forbidden_name(component_name(path, i, j))
}

/// Splitting `s` at the separator `s[k]` splits its components: each
/// component of `s` is a component of the part before `k` or of the part
/// after it, at the same place, and the other way round.
proof fn lemma_split_at_separator(s: Seq<char>, k: int, rule: NameRule)
    requires
        0 <= k < s.len(),
        is_sep(s[k]),
    ensures
        some_component(s, rule) == (some_component(s.subrange(0, k), rule) || some_component(
            s.subrange(k + 1, s.len() as int),
            rule,
        )),
{
    let left = s.subrange(0, k);
    let right = s.subrange(k + 1, s.len() as int);
    let off = k + 1;
    if some_component(s, rule) {
        let (i, j) = choose|i: int, j: int|
            #[trigger] is_component(s, i, j) && rule_holds(rule, component_name(s, i, j));
        if j <= k {
            assert(is_component(left, i, j));
            assert(component_name(left, i, j) =~= component_name(s, i, j));
        } else if i > k {
            assert(is_component(right, i - off, j - off));
            assert(component_name(right, i - off, j - off) =~= component_name(s, i, j));
        } else {
            assert(!is_sep(s[k]));
        }
    }
    if some_component(left, rule) {
        let (i, j) = choose|i: int, j: int|
            #[trigger] is_component(left, i, j) && rule_holds(rule, component_name(left, i, j));
        assert forall|m: int| i <= m < j implies !is_sep(#[trigger] s[m]) by {
            assert(s[m] == left[m]);
            assert(!is_sep(left[m]));
        }
        if i > 0 {
            assert(s[i - 1] == left[i - 1]);
        }
        if j < k {
            assert(s[j] == left[j]);
        }
        assert(is_component(s, i, j));
        assert(component_name(left, i, j) =~= component_name(s, i, j));
    }
    if some_component(right, rule) {
        let (i, j) = choose|i: int, j: int|
            #[trigger] is_component(right, i, j) && rule_holds(rule, component_name(right, i, j));
        assert forall|m: int| i + off <= m < j + off implies !is_sep(#[trigger] s[m]) by {
            assert(s[m] == right[m - off]);
            assert(!is_sep(right[m - off]));
        }
        if i > 0 {
            assert(s[i + off - 1] == right[i - 1]);
        }
        if j < right.len() {
            assert(s[j + off] == right[j]);
        }
        assert(is_component(s, i + off, j + off));
        assert(component_name(right, i, j) =~= component_name(s, i + off, j + off));
    }
}

proof fn lemma_join_components(a: Seq<char>, b: Seq<char>, rule: NameRule)
    ensures
        some_component(path_join(a, b), rule) == (some_component(a, rule) || some_component(
            b,
            rule,
        )),
{
    let s = path_join(a, b);
    if a.len() == 0 {
        assert(s =~= b);
        assert(!some_component(a, rule));
    } else if a.last() == '/' {
        let k = a.len() - 1;
        lemma_split_at_separator(s, k, rule);
        lemma_split_at_separator(a, k, rule);
        assert(s.subrange(0, k) =~= a.subrange(0, k));
        assert(s.subrange(k + 1, s.len() as int) =~= b);
        assert(!some_component(a.subrange(k + 1, a.len() as int), rule)) by {
            assert(a.subrange(k + 1, a.len() as int).len() == 0);
        }
    } else {
        let k = a.len() as int;
        lemma_split_at_separator(s, k, rule);
        assert(s.subrange(0, k) =~= a);
        assert(s.subrange(k + 1, s.len() as int) =~= b);
    }
}

/// Joining paths keeps every forbidden component: `a` joined with `b` is
/// forbidden exactly when `a` or `b` is, so every path below a forbidden
/// directory is forbidden.
pub proof fn law_forbidden_survives_joining(a: Seq<char>, b: Seq<char>)
    ensures
        has_forbidden_component(path_join(a, b)) == (has_forbidden_component(a)
            || has_forbidden_component(b)),
{
    lemma_join_components(a, b, NameRule::Forbidden);
    assert(has_forbidden_component(path_join(a, b)) == some_component(
        path_join(a, b),
        NameRule::Forbidden,
    ));
    assert(has_forbidden_component(a) == some_component(a, NameRule::Forbidden));
    assert(has_forbidden_component(b) == some_component(b, NameRule::Forbidden));
}

/// Joining paths joins their Skill classification: the joined path has a
/// credential component exactly when either part has one, and an excluded
/// component exactly when either part has one. So, by the contract of
/// `classify_skill_path`, the joined path is blocked when either part is,
/// excluded when neither is blocked and either is excluded, and included only
/// when both parts are.
pub proof fn law_skill_classification_survives_joining(a: Seq<char>, b: Seq<char>)
    ensures
        has_skill_sensitive_component(path_join(a, b)) == (has_skill_sensitive_component(a)
            || has_skill_sensitive_component(b)),
        has_skill_excluded_component(path_join(a, b)) == (has_skill_excluded_component(a)
            || has_skill_excluded_component(b)),
{
    lemma_join_components(a, b, NameRule::SkillSensitive);
    lemma_join_components(a, b, NameRule::SkillExcluded);
    let s = path_join(a, b);
    assert(has_skill_sensitive_component(s) == some_component(s, NameRule::SkillSensitive));
    assert(has_skill_sensitive_component(a) == some_component(a, NameRule::SkillSensitive));
    assert(has_skill_sensitive_component(b) == some_component(b, NameRule::SkillSensitive));
    assert(has_skill_excluded_component(s) == some_component(s, NameRule::SkillExcluded));
    assert(has_skill_excluded_component(a) == some_component(a, NameRule::SkillExcluded));
    assert(has_skill_excluded_component(b) == some_component(b, NameRule::SkillExcluded));
}

fn forbidden_component_name(v: &Vec<char>, a: usize, b: usize) -> (r: bool)
    requires
        a <= b <= v@.len(),
    ensures
        r == is_forbidden_component_name(component_name(v@, a as int, b as int)),
{
    name_is(v, a, b, ".ds_store")
        || name_is(v, a, b, ".git")
        || name_is(v, a, b, ".tmp")
        || name_is(v, a, b, ".venv")
        || name_is(v, a, b, "__pycache__")
        || name_is(v, a, b, "build")
        || name_is(v, a, b, "cache")
        || name_is(v, a, b, "caches")
        || name_is(v, a, b, "cachestorage")
        || name_is(v, a, b, "code cache")
        || name_is(v, a, b, "dist")
        || name_is(v, a, b, "gpucache")
        || name_is(v, a, b, "local storage")
        || name_is(v, a, b, "logs")
        || name_is(v, a, b, "node_modules")
        || name_is(v, a, b, "process_manager")
        || name_is(v, a, b, "session storage")
        || name_is(v, a, b, "target")
        || name_is(v, a, b, "tmp")
        || name_is(v, a, b, "vendor_imports")
        || name_is(v, a, b, "venv")
}

fn forbidden_file_name(v: &Vec<char>, a: usize, b: usize) -> (r: bool)
    requires
        a <= b <= v@.len(),
    ensures
        r == is_forbidden_file_name(component_name(v@, a as int, b as int)),
{
    name_is(v, a, b, "auth.json")
        || name_is(v, a, b, "cookies")
        || name_is(v, a, b, "cookies-journal")
        || name_is(v, a, b, "id_dsa")
        || name_is(v, a, b, "id_ecdsa")
        || name_is(v, a, b, "id_ed25519")
        || name_is(v, a, b, "id_rsa")
        || name_is(v, a, b, "login data")
        || name_is(v, a, b, "login data for account")
        || name_is(v, a, b, "login data for account-journal")
        || name_is(v, a, b, "login data-journal")
        || name_is(v, a, b, "runningchromeversion")
        || name_is(v, a, b, "singletoncookie")
        || name_is(v, a, b, "singletonlock")
        || name_is(v, a, b, "singletonsocket")
}

fn skill_excluded_name(v: &Vec<char>, a: usize, b: usize) -> (r: bool)
    requires
        a <= b <= v@.len(),
    ensures
        r == is_skill_excluded_name(component_name(v@, a as int, b as int)),
{
    name_is(v, a, b, ".git")
        || name_is(v, a, b, ".tmp")
        || name_is(v, a, b, ".venv")
        || name_is(v, a, b, "__pycache__")
        || name_is(v, a, b, "build")
        || name_is(v, a, b, "cache")
        || name_is(v, a, b, "caches")
        || name_is(v, a, b, "dist")
        || name_is(v, a, b, "node_modules")
        || name_is(v, a, b, "target")
        || name_is(v, a, b, "tmp")
        || name_is(v, a, b, "venv")
}

fn skill_sensitive_file_name(v: &Vec<char>, a: usize, b: usize) -> (r: bool)
    requires
        a <= b <= v@.len(),
    ensures
        r == is_skill_sensitive_file_name(component_name(v@, a as int, b as int)),
{
    name_is(v, a, b, ".git-credentials")
        || name_is(v, a, b, ".netrc")
        || name_is(v, a, b, ".npmrc")
        || name_is(v, a, b, ".pypirc")
        || name_is(v, a, b, "auth.json")
        || name_is(v, a, b, "credentials.json")
        || name_is(v, a, b, "id_dsa")
        || name_is(v, a, b, "id_ecdsa")
        || name_is(v, a, b, "id_ed25519")
        || name_is(v, a, b, "id_rsa")
        || name_is(v, a, b, "service-account.json")
        || name_is(v, a, b, "secrets.json")
        || name_is(v, a, b, "token.json")
        || name_is(v, a, b, "tokens.json")
}

fn rule_matches(v: &Vec<char>, a: usize, b: usize, rule: NameRule) -> (r: bool)
    requires
        a <= b <= v@.len(),
    ensures
        r == rule_holds(rule, component_name(v@, a as int, b as int)),
{
    match rule {
        NameRule::SkillSensitive => {
            skill_sensitive_file_name(v, a, b)
                || name_is(v, a, b, ".env")
                || name_starts_with(v, a, b, ".env.")
                || (name_starts_with(v, a, b, "client_secret") && name_ends_with(v, a, b, ".json"))
                || (name_starts_with(v, a, b, "service_account") && name_ends_with(v, a, b, ".json"))
                || name_ends_with(v, a, b, ".key")
                || name_ends_with(v, a, b, ".pem")
                || name_ends_with(v, a, b, ".p12")
                || name_ends_with(v, a, b, ".pfx")
        },
        NameRule::SkillExcluded => skill_excluded_name(v, a, b),
        NameRule::Forbidden => {
            forbidden_component_name(v, a, b)
                || forbidden_file_name(v, a, b)
                || name_is(v, a, b, ".env")
                || name_starts_with(v, a, b, ".env.")
                || (name_starts_with(v, a, b, "logs_") && name_contains(v, a, b, ".sqlite"))
                || name_ends_with(v, a, b, ".ipc")
                || name_ends_with(v, a, b, ".key")
                || name_ends_with(v, a, b, ".pem")
                || name_ends_with(v, a, b, ".sock")
                || name_ends_with(v, a, b, ".socket")
        },
    }
}

fn is_separator(c: char) -> (r: bool)
    ensures
        r == is_sep(c),
{
    c == '/' || c == '\\'
}

/// Scans the components of `v` from left to right for one that satisfies `rule`.
fn any_component(v: &Vec<char>, rule: NameRule) -> (r: bool)
    ensures
        r == some_component(v@, rule),
{
    let n = v.len();
    let mut start: usize = 0;
    let mut i: usize = 0;
    while i < n
        invariant
            n == v@.len(),
            start <= i <= n,
            start == 0 || is_sep(v@[start - 1]),
            forall|k: int| start <= k < i ==> !is_sep(#[trigger] v@[k]),
            forall|a: int, b: int|
                #[trigger] is_component(v@, a, b) && a < start ==> !rule_holds(
                    rule,
                    component_name(v@, a, b),
                ),
        decreases n - i,
    {
        if is_separator(v[i]) {
            if start < i {
                if rule_matches(v, start, i, rule) {
                    assert(is_component(v@, start as int, i as int));
                    return true;
                }
            }
            proof {
                assert forall|a: int, b: int|
                    #[trigger] is_component(v@, a, b) && a < i + 1 implies !rule_holds(
                    rule,
                    component_name(v@, a, b),
                ) by {
                    if a >= start {
                        if a > start {
                            assert(!is_sep(v@[a - 1]));
                        }
                        assert(a == start);
                        if b < i {
                            assert(!is_sep(v@[b]));
                        }
                        if b > i {
                            assert(!is_sep(v@[i as int]));
                        }
                        assert(b == i);
                    }
                }
            }
            start = i + 1;
        }
        i = i + 1;
    }
    if start < n {
        if rule_matches(v, start, n, rule) {
            assert(is_component(v@, start as int, n as int));
            return true;
        }
    }
    proof {
        assert forall|a: int, b: int|
            #[trigger] is_component(v@, a, b) implies !rule_holds(rule, component_name(v@, a, b)) by {
            if a >= start {
                if a > start {
                    assert(!is_sep(v@[a - 1]));
                }
                assert(a == start);
                if b < n {
                    assert(!is_sep(v@[b]));
                }
                assert(b == n);
            }
        }
    }
    false
}

/// How the shared-Skill scan treats a file at `path` (relative to its Skill).
///
/// Any component that names a credential or private key blocks the Skill;
/// otherwise any dependency, cache, build or version-control component excludes
/// the file; otherwise it is included. `path` is the rendered path, with either
/// separator.
pub fn classify_skill_path(path: &str) -> (r: SkillPathPolicy)
    ensures
        has_skill_sensitive_component(path@) ==> (r matches SkillPathPolicy::Block(m)
            && m@ == block_reason()),
        !has_skill_sensitive_component(path@) && has_skill_excluded_component(path@) ==> (
        r matches SkillPathPolicy::Exclude(m) && m@ == exclude_reason()),
        !has_skill_sensitive_component(path@) && !has_skill_excluded_component(path@) ==> r
            == SkillPathPolicy::Include,
{
    let v = chars_of(path);
    let sensitive = any_component(&v, NameRule::SkillSensitive);
    assert(sensitive == has_skill_sensitive_component(path@));
    if sensitive {
        return SkillPathPolicy::Block("sensitive credential or private-key path");
    }
    let excluded = any_component(&v, NameRule::SkillExcluded);
    assert(excluded == has_skill_excluded_component(path@));
    if excluded {
        return SkillPathPolicy::Exclude("dependency, cache, build, or version-control data");
    }
    SkillPathPolicy::Include
}

/// Whether `path` must be left out of a package: some component is a
/// dependency, cache, build or browser-profile directory, a credential or lock
/// file, a `.env` file, a Codex log database, or a key, socket or IPC file.
pub fn is_forbidden(path: &str) -> (r: bool)
    ensures
        r == has_forbidden_component(path@),
{
    let v = chars_of(path);
    let r = any_component(&v, NameRule::Forbidden);
    assert(r == has_forbidden_component(path@));
    r
}

/// The component names the package rules leave out, lower-cased: dependency,
/// cache, browser-profile and build directories (`target`, `build`, `dist`,
/// `node_modules`, ...), credential, cookie and browser-lock files, `.env`
/// files, Codex log databases, and key, socket and IPC files.
pub open spec fn package_rule_name(n: Seq<char>) -> bool {
    n == ".ds_store"@
    || n == ".git"@
    || n == ".tmp"@
    || n == ".venv"@
    || n == "__pycache__"@
    || n == "build"@
    || n == "cache"@
    || n == "caches"@
    || n == "cachestorage"@
    || n == "code cache"@
    || n == "dist"@
    || n == "gpucache"@
    || n == "local storage"@
    || n == "logs"@
    || n == "node_modules"@
    || n == "process_manager"@
    || n == "session storage"@
    || n == "target"@
    || n == "tmp"@
    || n == "vendor_imports"@
    || n == "venv"@
    || n == "auth.json"@
    || n == "cookies"@
    || n == "cookies-journal"@
    || n == "id_dsa"@
    || n == "id_ecdsa"@
    || n == "id_ed25519"@
    || n == "id_rsa"@
    || n == "login data"@
    || n == "login data for account"@
    || n == "login data for account-journal"@
    || n == "login data-journal"@
    || n == "runningchromeversion"@
    || n == "singletoncookie"@
    || n == "singletonlock"@
    || n == "singletonsocket"@
    || n == ".env"@
    || starts_with(n, ".env."@)
    || (starts_with(n, "logs_"@) && contains_seq(n, ".sqlite"@))
    || ends_with(n, ".ipc"@)
    || ends_with(n, ".key"@)
    || ends_with(n, ".pem"@)
    || ends_with(n, ".sock"@)
    || ends_with(n, ".socket"@)
}

/// The component names that block a shared Skill, lower-cased: credential
/// and private-key files (`token.json`, `credentials.json`, `id_rsa`,
/// `.npmrc`, ...), `.env` files, client-secret and service-account JSON, and
/// `.key`, `.pem`, `.p12` and `.pfx` files.
pub open spec fn skill_block_rule_name(n: Seq<char>) -> bool {
    n == ".git-credentials"@
    || n == ".netrc"@
    || n == ".npmrc"@
    || n == ".pypirc"@
    || n == "auth.json"@
    || n == "credentials.json"@
    || n == "id_dsa"@
    || n == "id_ecdsa"@
    || n == "id_ed25519"@
    || n == "id_rsa"@
    || n == "service-account.json"@
    || n == "secrets.json"@
    || n == "token.json"@
    || n == "tokens.json"@
    || n == ".env"@
    || starts_with(n, ".env."@)
    || (starts_with(n, "client_secret"@) && ends_with(n, ".json"@))
    || (starts_with(n, "service_account"@) && ends_with(n, ".json"@))
    || ends_with(n, ".key"@)
    || ends_with(n, ".pem"@)
    || ends_with(n, ".p12"@)
    || ends_with(n, ".pfx"@)
}

/// The component names whose files a shared Skill leaves out, lower-cased:
/// version-control, dependency, cache and build directories.
pub open spec fn skill_exclude_rule_name(n: Seq<char>) -> bool {
    n == ".git"@
    || n == ".tmp"@
    || n == ".venv"@
    || n == "__pycache__"@
    || n == "build"@
    || n == "cache"@
    || n == "caches"@
    || n == "dist"@
    || n == "node_modules"@
    || n == "target"@
    || n == "tmp"@
    || n == "venv"@
}

/// A path is left out of a package exactly when one of its components,
/// lower-cased (ASCII only), is a name of `package_rule_name`: every path
/// under `target/`, `node_modules/` or another listed directory, and every
/// listed credential or key file, and nothing else.
pub proof fn law_package_rules_by_component(p: Seq<char>)
    ensures
        has_forbidden_component(p) <==> exists|i: int, j: int|
            #[trigger] is_component(p, i, j) && package_rule_name(component_name(p, i, j)),
{
}

/// A shared Skill's path blocks the Skill exactly when one of its components,
/// lower-cased (ASCII only), is a name of `skill_block_rule_name`; so
/// `classify_skill_path` gives `Block` for those paths and no others.
pub proof fn law_skill_block_rules_by_component(p: Seq<char>)
    ensures
        has_skill_sensitive_component(p) <==> exists|i: int, j: int|
            #[trigger] is_component(p, i, j) && skill_block_rule_name(component_name(p, i, j)),
{
}

/// A shared Skill's path is excluded data exactly when one of its components,
/// lower-cased (ASCII only), is a name of `skill_exclude_rule_name`; so
/// `classify_skill_path` gives `Exclude` for those paths that do not block and
/// `Include` for every path with neither kind of component.
pub proof fn law_skill_exclude_rules_by_component(p: Seq<char>)
    ensures
        has_skill_excluded_component(p) <==> exists|i: int, j: int|
            #[trigger] is_component(p, i, j) && skill_exclude_rule_name(component_name(p, i, j)),
{
}

} // verus!
