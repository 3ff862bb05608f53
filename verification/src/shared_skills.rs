//! Locations and rules for shared user Skills (`~/.agents/skills`).
use vstd::prelude::*;
use unicode_normalization::UnicodeNormalization;
use crate::models::{opt_view, SourceOs};
use crate::text::join_with;
use crate::error::{ErrorCode, RehomeError};
use vstd::utf8::encode_utf8;

verus! {

/// The environment values that locate shared Skills and their lock file.
#[derive(Debug, Clone, Default, PartialEq, Eq)]
pub struct SharedSkillsContext {
    pub user_profile: Option<String>,
    pub home: Option<String>,
    pub xdg_state_home: Option<String>,
}

/// `base` joined with the relative `name`: a `/` is put between them unless
/// `base` is empty or already ends with `/`.
pub open spec fn path_join(base: Seq<char>, name: Seq<char>) -> Seq<char> {
    if base.len() == 0 || base.last() == '/' {
        base + name
    } else {
        base + seq!['/'] + name
    }
}

/// The user's home directory on `source_os`: `USERPROFILE` on Windows,
/// `HOME` on macOS, when set and non-empty.
pub open spec fn user_home(context: SharedSkillsContext, source_os: SourceOs) -> Option<Seq<char>> {
    let value = match source_os {
        SourceOs::Windows => opt_view(context.user_profile),
        SourceOs::Macos => opt_view(context.home),
    };
    match value {
        Some(v) => if v.len() > 0 {
            Some(v)
        } else {
            None
        },
        None => None,
    }
}

/// `<home>/.agents/skills`.
pub open spec fn agents_skills_root(context: SharedSkillsContext, source_os: SourceOs) -> Option<
    Seq<char>,
> {
    match user_home(context, source_os) {
        Some(h) => Some(path_join(path_join(h, ".agents"@), "skills"@)),
        None => None,
    }
}

/// `$XDG_STATE_HOME/skills/.skill-lock.json` when `XDG_STATE_HOME` is set and
/// non-empty, `<home>/.agents/.skill-lock.json` otherwise.
pub open spec fn skill_lock_path(context: SharedSkillsContext, source_os: SourceOs) -> Option<
    Seq<char>,
> {
    match opt_view(context.xdg_state_home) {
        Some(state) if state.len() > 0 => Some(
            path_join(path_join(state, "skills"@), ".skill-lock.json"@),
        ),
        _ => match user_home(context, source_os) {
            Some(h) => Some(path_join(path_join(h, ".agents"@), ".skill-lock.json"@)),
            None => None,
        },
    }
}

/// The shared Skills root is `.agents/skills` under the user's home
/// (`USERPROFILE` on Windows, `HOME` on macOS), and the lock file is
/// `skills/.skill-lock.json` under a non-empty `XDG_STATE_HOME`, else
/// `.agents/.skill-lock.json` under the home.
pub proof fn law_shared_skills_locations(context: SharedSkillsContext, source_os: SourceOs)
    ensures
        match user_home(context, source_os) {
            Some(h) => h.len() > 0 && (h.last() != '/' ==> agents_skills_root(context, source_os)
                == Some(h + "/.agents/skills"@)) && (h.last() == '/' ==> agents_skills_root(
                context,
                source_os,
            ) == Some(h + ".agents/skills"@)),
            None => agents_skills_root(context, source_os) is None,
        },
        match opt_view(context.xdg_state_home) {
            Some(x) if x.len() > 0 && x.last() != '/' => skill_lock_path(context, source_os) == Some(
                x + "/skills/.skill-lock.json"@,
            ),
            Some(x) if x.len() > 0 => skill_lock_path(context, source_os) == Some(
                x + "skills/.skill-lock.json"@,
            ),
            _ => match user_home(context, source_os) {
                Some(h) => h.last() != '/' ==> skill_lock_path(context, source_os) == Some(
                    h + "/.agents/.skill-lock.json"@,
                ),
                None => skill_lock_path(context, source_os) is None,
            },
        },
{
    reveal_strlit("/.agents/skills");
    reveal_strlit(".agents/skills");
    reveal_strlit("/skills/.skill-lock.json");
    reveal_strlit("skills/.skill-lock.json");
    reveal_strlit("/.agents/.skill-lock.json");
    reveal_strlit(".agents");
    reveal_strlit("skills");
    reveal_strlit(".skill-lock.json");
    match user_home(context, source_os) {
        Some(h) => {
            let a = path_join(h, ".agents"@);
            assert(a.last() == 's');
            if h.last() != '/' {
                assert(path_join(a, "skills"@) =~= h + "/.agents/skills"@);
                assert(path_join(a, ".skill-lock.json"@) =~= h + "/.agents/.skill-lock.json"@);
            } else {
                assert(path_join(a, "skills"@) =~= h + ".agents/skills"@);
            }
        },
        None => {},
    }
    match opt_view(context.xdg_state_home) {
        Some(x) => if x.len() > 0 {
            let a = path_join(x, "skills"@);
            assert(a.last() == 's');
            if x.last() != '/' {
                assert(path_join(a, ".skill-lock.json"@) =~= x + "/skills/.skill-lock.json"@);
            } else {
                assert(path_join(a, ".skill-lock.json"@) =~= x + "skills/.skill-lock.json"@);
            }
        },
        None => {},
    }
}

/// `base` joined with the relative `name` (see `path_join`).
pub fn join_path(base: &String, name: &str) -> (r: String)
    ensures
        r@ == path_join(base@, name@),
{
    let mut r = base.clone();
    let n = base.unicode_len();
    if n > 0 && base.as_str().get_char(n - 1) != '/' {
        proof {
            reveal_strlit("/");
        }
        r.append("/");
    }
    r.append(name);
    r
}

/// The user's home directory on `source_os`.
pub fn resolve_user_home(context: &SharedSkillsContext, source_os: SourceOs) -> (r: Option<String>)
    ensures
        opt_view(r) == user_home(*context, source_os),
{
    let value = match source_os {
        SourceOs::Windows => &context.user_profile,
        SourceOs::Macos => &context.home,
    };
    match value {
        Some(v) => if v.unicode_len() > 0 {
            Some(v.clone())
        } else {
            None
        },
        None => None,
    }
}

/// The shared Skills root, `<home>/.agents/skills`.
pub fn resolve_agents_skills_root(context: &SharedSkillsContext, source_os: SourceOs) -> (r: Option<
    String,
>)
    ensures
        opt_view(r) == agents_skills_root(*context, source_os),
{
    match resolve_user_home(context, source_os) {
        Some(home) => Some(join_path(&join_path(&home, ".agents"), "skills")),
        None => None,
    }
}

/// The `skills` CLI lock file: under `$XDG_STATE_HOME/skills` when that is set,
/// under `<home>/.agents` otherwise.
pub fn resolve_skill_lock_path(context: &SharedSkillsContext, source_os: SourceOs) -> (r: Option<
    String,
>)
    ensures
        opt_view(r) == skill_lock_path(*context, source_os),
{
    match &context.xdg_state_home {
        Some(state) => {
            if state.unicode_len() > 0 {
                return Some(join_path(&join_path(state, "skills"), ".skill-lock.json"));
            }
        },
        None => {},
    }
    match resolve_user_home(context, source_os) {
        Some(home) => Some(join_path(&join_path(&home, ".agents"), ".skill-lock.json")),
        None => None,
    }
}


/// The Unicode canonical composition (NFC) of `s`.
pub uninterp spec fn nfc(s: Seq<char>) -> Seq<char>;

/// Collects `unicode_normalization::UnicodeNormalization::nfc` of `value`
/// into a string. The contract claims the result is the NFC form of `value`,
/// named `nfc`.
#[verifier::external_body]
fn nfc_string(value: &str) -> (r: String)
    ensures
        r@ == nfc(value@),
{
    value.nfc().collect::<String>()
}

/// The Unicode lower-case mapping of `s`, as `str::to_lowercase` computes it.
pub uninterp spec fn unicode_lowercase(s: Seq<char>) -> Seq<char>;

/// Calls `str::to_lowercase` on `value`. The contract claims the result is
/// the Unicode lower-case mapping of `value`, named `unicode_lowercase`.
#[verifier::external_body]
fn lowercase_string(value: &str) -> (r: String)
    ensures
        r@ == unicode_lowercase(value@),
{
    value.to_lowercase()
}

/// The key under which two Skill names or paths collide on a case-insensitive,
/// normalising file system: NFC, then lower case.
pub open spec fn collision_key(s: Seq<char>) -> Seq<char> {
    unicode_lowercase(nfc(s))
}

/// The collision key of `value`.
pub fn portable_collision_key(value: &str) -> (r: String)
    ensures
        r@ == collision_key(value@),
{
    let composed = nfc_string(value);
    lowercase_string(composed.as_str())
}

/// The names among the first `m` whose key is `k`, in order.
pub open spec fn names_with_key(
    keys: Seq<Seq<char>>,
    names: Seq<Seq<char>>,
    k: Seq<char>,
    m: int,
) -> Seq<Seq<char>>
    decreases m,
{
    if m <= 0 {
        Seq::empty()
    } else if keys[m - 1] == k {
        names_with_key(keys, names, k, m - 1).push(names[m - 1])
    } else {
        names_with_key(keys, names, k, m - 1)
    }
}

/// The reason recorded for a group of colliding names.
pub open spec fn collision_reason(group: Seq<Seq<char>>) -> Seq<char> {
    "portable Skill-name collision: "@ + join_with(group, ", "@)
}

/// `reason` added to an existing blocked reason, if any.
pub open spec fn add_reason(existing: Option<Seq<char>>, reason: Seq<char>) -> Seq<char> {
    match existing {
        Some(e) => e + "; "@ + reason,
        None => reason,
    }
}

/// The blocked reason entry `i` ends up with once collisions are marked.
pub open spec fn reason_after_collisions(
    names: Seq<Seq<char>>,
    existing: Seq<Option<Seq<char>>>,
    i: int,
) -> Option<Seq<char>> {
    let keys = names.map_values(|n: Seq<char>| collision_key(n));
    let group = names_with_key(keys, names, keys[i], names.len() as int);
    if group.len() > 1 {
        Some(add_reason(existing[i], collision_reason(group)))
    } else {
        existing[i]
    }
}

/// The blocked reasons after marking name collisions: each Skill whose
/// relative path collides with another's (same collision key) gets the reason
/// `portable Skill-name collision: ` followed by all the colliding paths, in
/// order, separated by `, `; it is appended to an existing reason after `; `.
pub fn portable_name_collision_reasons(
    relative_paths: &Vec<String>,
    existing: &Vec<Option<String>>,
) -> (r: Vec<Option<String>>)
    requires
        relative_paths@.len() == existing@.len(),
    ensures
        r@.len() == existing@.len(),
        forall|i: int|
            0 <= i < r@.len() ==> opt_view(#[trigger] r@[i]) == reason_after_collisions(
                relative_paths@.map_values(|p: String| p@),
                existing@.map_values(|o: Option<String>| opt_view(o)),
                i,
            ),
{
    let n = relative_paths.len();
    let ghost names = relative_paths@.map_values(|p: String| p@);
    let ghost olds = existing@.map_values(|o: Option<String>| opt_view(o));
    let ghost keys = names.map_values(|nm: Seq<char>| collision_key(nm));
    let mut key_list: Vec<String> = Vec::new();
    let mut a: usize = 0;
    while a < n
        invariant
            n == relative_paths@.len(),
            names == relative_paths@.map_values(|p: String| p@),
            keys == names.map_values(|nm: Seq<char>| collision_key(nm)),
            a <= n,
            key_list@.len() == a,
            forall|t: int| 0 <= t < a ==> #[trigger] key_list@[t]@ == keys[t],
        decreases n - a,
    {
        key_list.push(portable_collision_key(relative_paths[a].as_str()));
        a = a + 1;
    }
    let mut out: Vec<Option<String>> = Vec::new();
    let mut i: usize = 0;
    while i < n
        invariant
            n == relative_paths@.len(),
            n == existing@.len(),
            names == relative_paths@.map_values(|p: String| p@),
            olds == existing@.map_values(|o: Option<String>| opt_view(o)),
            keys == names.map_values(|nm: Seq<char>| collision_key(nm)),
            key_list@.len() == n,
            forall|t: int| 0 <= t < n ==> #[trigger] key_list@[t]@ == keys[t],
            i <= n,
            out@.len() == i,
            forall|t: int|
                0 <= t < i ==> opt_view(#[trigger] out@[t]) == reason_after_collisions(
                    names,
                    olds,
                    t,
                ),
        decreases n - i,
    {
        let ghost k = keys[i as int];
        let mut joined = String::new();
        let mut count: usize = 0;
        let mut j: usize = 0;
        proof {
            reveal_strlit(", ");
        }
        while j < n
            invariant
                n == relative_paths@.len(),
                names == relative_paths@.map_values(|p: String| p@),
                keys == names.map_values(|nm: Seq<char>| collision_key(nm)),
                key_list@.len() == n,
                forall|t: int| 0 <= t < n ==> #[trigger] key_list@[t]@ == keys[t],
                i < n,
                k == keys[i as int],
                j <= n,
                count == names_with_key(keys, names, k, j as int).len(),
                count <= j,
                joined@ == join_with(names_with_key(keys, names, k, j as int), ", "@),
            decreases n - j,
        {
            let ghost g = names_with_key(keys, names, k, j as int);
            if key_list[j] == key_list[i] {
                proof {
                    reveal_strlit(", ");
                    assert(g.push(names[j as int]).drop_last() =~= g);
                    assert(names[j as int] == relative_paths@[j as int]@);
                }
                if count > 0 {
                    joined.append(", ");
                }
                joined.append(relative_paths[j].as_str());
                count = count + 1;
            }
            j = j + 1;
        }
        let reason = if count > 1 {
            let mut message = String::from_str("portable Skill-name collision: ");
            message.append(joined.as_str());
            match &existing[i] {
                Some(previous) => {
                    let mut combined = previous.clone();
                    combined.append("; ");
                    combined.append(message.as_str());
                    Some(combined)
                },
                None => Some(message),
            }
        } else {
            match &existing[i] {
                Some(previous) => Some(previous.clone()),
                None => None,
            }
        };
        out.push(reason);
        i = i + 1;
    }
    out
}

/// The version-5 (SHA-1, name-based) UUID of `name` in the URL namespace,
/// as its 128-bit big-endian value.
pub uninterp spec fn uuid_v5_url(name: Seq<u8>) -> u128;

/// Calls `uuid::Uuid::new_v5` with `uuid::Uuid::NAMESPACE_URL` and `name`, and
/// returns the UUID's 128-bit value (`Uuid::as_u128`). The contract claims
/// only that the result is a function of `name`, named `uuid_v5_url`.
#[verifier::external_body]
fn new_v5_url(name: &[u8]) -> (r: u128)
    ensures
        r == uuid_v5_url(name@),
{
    uuid::Uuid::new_v5(&uuid::Uuid::NAMESPACE_URL, name).as_u128()
}

/// The name a shared Skill's content ID is derived from.
pub open spec fn content_id_name(relative_path: Seq<char>) -> Seq<u8> {
    encode_utf8("shared_agents:"@ + relative_path)
}

/// The content ID of the shared Skill at `relative_path`: the URL-namespace
/// version-5 UUID of `shared_agents:` followed by the path.
pub fn shared_skill_content_id(relative_path: &str) -> (r: u128)
    ensures
        r == uuid_v5_url(content_id_name(relative_path@)),
{
    let mut name = String::from_str("shared_agents:");
    name.append(relative_path);
    new_v5_url(name.as_str().as_bytes())
}

/// An error of Skill discovery or packaging, with the given message.
pub fn discovery_failed(message: &str) -> (r: RehomeError)
    ensures
        r.code == ErrorCode::PackageInvalid,
        r.message@ == message@,
{
    RehomeError::new(ErrorCode::PackageInvalid, message)
}

/// The lock-file override (`XDG_STATE_HOME`) moves only the lock file: the
/// shared Skills root is the same with or without it.
pub proof fn law_lock_override_moves_only_the_lock(
    context: SharedSkillsContext,
    source_os: SourceOs,
    state: Option<String>,
)
    ensures
        agents_skills_root(SharedSkillsContext { xdg_state_home: state, ..context }, source_os)
            == agents_skills_root(context, source_os),
{
}

proof fn lemma_names_with_key_grows(
    keys: Seq<Seq<char>>,
    names: Seq<Seq<char>>,
    k: Seq<char>,
    a: int,
    b: int,
)
    requires
        0 <= a <= b,
    ensures
        names_with_key(keys, names, k, a).len() <= names_with_key(keys, names, k, b).len(),
    decreases b - a,
{
    if a < b {
        lemma_names_with_key_grows(keys, names, k, a, b - 1);
    }
}

/// Two Skills whose relative paths collide are both marked: each ends up
/// with a blocked reason, and the same group of colliding names.
pub proof fn law_colliding_names_are_all_marked(
    names: Seq<Seq<char>>,
    existing: Seq<Option<Seq<char>>>,
    i: int,
    j: int,
)
    requires
        0 <= i < names.len(),
        0 <= j < names.len(),
        i != j,
        collision_key(names[i]) == collision_key(names[j]),
    ensures
        reason_after_collisions(names, existing, i) is Some,
        reason_after_collisions(names, existing, j) is Some,
{
    let keys = names.map_values(|n: Seq<char>| collision_key(n));
    let k = keys[i];
    assert(keys[j] == k);
    let (lo, hi) = if i < j {
        (i, j)
    } else {
        (j, i)
    };
    lemma_names_with_key_grows(keys, names, k, lo + 1, hi);
    lemma_names_with_key_grows(keys, names, k, hi + 1, names.len() as int);
    assert(names_with_key(keys, names, k, lo + 1).len() == names_with_key(keys, names, k, lo).len()
        + 1);
    assert(names_with_key(keys, names, k, hi + 1).len() == names_with_key(keys, names, k, hi).len()
        + 1);
}

} // verus!
