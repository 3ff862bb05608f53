//! Discovery of the shared Skills under `~/.agents/skills`.
//!
//! The caller lists the shared root and inspects each child; these functions
//! decide what each child is, build the entries of Skills that cannot be
//! packaged, mark Skills whose names collide on a case-insensitive,
//! normalising file system, and order the result.
use vstd::prelude::*;
use crate::bundle_scan::{SharedSkillScan, SkillFile};
use crate::error::{ErrorCode, RehomeError};
use crate::models::{
    copy_opt_string, opt_view, ExclusionSummary, OptionalContentEntry, SharedSkillEntry,
    SkillLockStatus, SkillRootKind,
};
use crate::paths::{is_portable_skill_path, normalized, portable_path_error, portable_relative_path};
use crate::shared_skills::{
    content_id_name, discovery_failed, portable_name_collision_reasons, reason_after_collisions,
    shared_skill_content_id, uuid_v5_url,
};
use crate::text::chars_of;
use crate::text_set::{text_less, text_lt};

verus! {

/// `scan` is the entry of a top-level Skill at `source`, named `name`, that
/// cannot be packaged for `reason`: no files, no size, no tree hash.
pub open spec fn is_blocked_entry(
    scan: SharedSkillScan,
    source: Seq<char>,
    name: Seq<char>,
    reason: Seq<char>,
    lock_status: SkillLockStatus,
) -> bool {
    &&& scan.files@.len() == 0
    &&& scan.entry.content_id == uuid_v5_url(content_id_name(name))
    &&& scan.entry.name@ == name
    &&& scan.entry.source_path@ == source
    &&& scan.entry.relative_path@ == name
    &&& scan.entry.size_bytes == 0
    &&& scan.entry.thumbnail_data_url is None
    &&& scan.entry.reveal_id is None
    &&& scan.entry.skill_root_kind == Some(SkillRootKind::SharedAgents)
    &&& scan.entry.lock_status == Some(lock_status)
    &&& scan.entry.exclusions.excluded_files == 0
    &&& scan.entry.exclusions.excluded_bytes == 0
    &&& scan.entry.exclusions.rules@.len() == 0
    &&& opt_view(scan.entry.blocked_reason) == Some(reason)
    &&& scan.entry.tree_hash is None
}

/// The entry of a top-level Skill at `source`, named `name`, that cannot be
/// packaged for `reason`.
pub fn blocked_top_level_entry(
    source: &str,
    name: &str,
    reason: &str,
    lock_status: SkillLockStatus,
) -> (r: SharedSkillScan)
    ensures
        is_blocked_entry(r, source@, name@, reason@, lock_status),
{
    SharedSkillScan {
        entry: OptionalContentEntry {
            content_id: shared_skill_content_id(name),
            name: String::from_str(name),
            source_path: String::from_str(source),
            relative_path: String::from_str(name),
            size_bytes: 0,
            thumbnail_data_url: None,
            reveal_id: None,
            skill_root_kind: Some(SkillRootKind::SharedAgents),
            lock_status: Some(lock_status),
            exclusions: ExclusionSummary { excluded_files: 0, excluded_bytes: 0, rules: Vec::new() },
            blocked_reason: Some(String::from_str(reason)),
            tree_hash: None,
        },
        files: Vec::new(),
    }
}

/// What a child of the shared Skills root is.
#[derive(Debug, Clone, PartialEq, Eq)]
pub enum RootChild {
    /// The `.system` directory, which is not a Skill.
    Skip,
    /// A symbolic link or reparse point: listed, and blocked.
    Link,
    /// Not a Skill; the warning says why.
    Ignored(String),
    /// A Skill directory, to be scanned.
    Skill,
}

/// What the child `name` of the shared root, at `source`, is: `is_link`
/// says it is a symbolic link or reparse point, `is_dir` that it is a
/// directory, `has_skill_md` that it holds a regular `SKILL.md` file.
pub fn classify_root_child(
    name: &str,
    source: &str,
    is_link: bool,
    is_dir: bool,
    has_skill_md: bool,
) -> (r: RootChild)
    ensures
        name@ == ".system"@ ==> r == RootChild::Skip,
        name@ != ".system"@ && is_link ==> r == RootChild::Link,
        name@ != ".system"@ && !is_link && !is_dir ==> (r matches RootChild::Ignored(w) && w@
            == "Ignored non-directory entry in shared Skills root: "@ + source@),
        name@ != ".system"@ && !is_link && is_dir && !has_skill_md ==> (r matches RootChild::Ignored(
            w,
        ) && w@ == "Ignored shared Skills directory without top-level SKILL.md: "@ + source@),
        name@ != ".system"@ && !is_link && is_dir && has_skill_md ==> r == RootChild::Skill,
{
    let system = String::from_str(".system");
    let own = String::from_str(name);
    if own == system {
        return RootChild::Skip;
    }
    if is_link {
        return RootChild::Link;
    }
    if !is_dir {
        let mut warning = String::from_str("Ignored non-directory entry in shared Skills root: ");
        warning.append(source);
        return RootChild::Ignored(warning);
    }
    if !has_skill_md {
        let mut warning = String::from_str(
            "Ignored shared Skills directory without top-level SKILL.md: ",
        );
        warning.append(source);
        return RootChild::Ignored(warning);
    }
    RootChild::Skill
}

/// The entry of a top-level Skill that is a symbolic link or reparse point.
pub fn linked_skill_entry(source: &str, name: &str, lock_status: SkillLockStatus) -> (r:
    SharedSkillScan)
    ensures
        is_blocked_entry(
            r,
            source@,
            name@,
            "top-level Skill is a symbolic link or reparse point"@,
            lock_status,
        ),
{
    blocked_top_level_entry(
        source,
        name,
        "top-level Skill is a symbolic link or reparse point",
        lock_status,
    )
}

/// How the scan of a Skill directory starts.
#[derive(Debug, Clone, PartialEq, Eq)]
pub enum ScanStart {
    /// Walk the directory; the Skill's normalised path under the shared root.
    Walk(String),
    /// The directory's own path cannot be packaged; its entry.
    Blocked(SharedSkillScan),
}

fn has_slash(s: &str) -> (r: bool)
    ensures
        r == s@.contains('/'),
{
    let v = chars_of(s);
    let n = v.len();
    let mut i: usize = 0;
    while i < n
        invariant
            n == v@.len(),
            v@ == s@,
            i <= n,
            forall|j: int| 0 <= j < i ==> v@[j] != '/',
        decreases n - i,
    {
        if v[i] == '/' {
            return true;
        }
        i = i + 1;
    }
    false
}

/// How the scan of the Skill directory at `canonical_bundle`, whose path
/// under the canonical shared root is `relative`, starts.
///
/// A path that cannot be packaged gives the entry of a blocked Skill; a path
/// deeper than one level is an error; otherwise the directory is walked.
pub fn scan_start(canonical_bundle: &str, relative: &str) -> (r: Result<ScanStart, RehomeError>)
    ensures
        match r {
            Ok(ScanStart::Walk(p)) => is_portable_skill_path(relative@) && p@ == normalized(
                relative@,
            ) && !normalized(relative@).contains('/'),
            Ok(ScanStart::Blocked(scan)) => !is_portable_skill_path(relative@) && is_blocked_entry(
                scan,
                canonical_bundle@,
                relative@,
                portable_path_error(relative@),
                SkillLockStatus::ContentOnly,
            ),
            Err(e) => is_portable_skill_path(relative@) && normalized(relative@).contains('/')
                && e.code == ErrorCode::PackageInvalid && e.message@
                == "shared Skill bundle must be a direct child of the shared root"@,
        },
{
    match portable_relative_path(relative) {
        Err(e) => Ok(
            ScanStart::Blocked(
                blocked_top_level_entry(
                    canonical_bundle,
                    relative,
                    e.message.as_str(),
                    SkillLockStatus::ContentOnly,
                ),
            ),
        ),
        Ok(path) => {
            if has_slash(path.as_str()) {
                Err(discovery_failed("shared Skill bundle must be a direct child of the shared root"))
            } else {
                Ok(ScanStart::Walk(path))
            }
        },
    }
}

/// The relative paths of the scans.
pub open spec fn scan_paths(scans: Seq<SharedSkillScan>) -> Seq<Seq<char>> {
    scans.map_values(|s: SharedSkillScan| s.entry.relative_path@)
}

/// The blocked reasons of the scans.
pub open spec fn scan_reasons(scans: Seq<SharedSkillScan>) -> Seq<Option<Seq<char>>> {
    scans.map_values(|s: SharedSkillScan| opt_view(s.entry.blocked_reason))
}

/// Marks the Skills whose relative paths collide once composed (NFC) and
/// lower-cased: each gets the reason `portable Skill-name collision: `
/// followed by all the colliding paths, in order, separated by `, `; it is
/// appended to an existing reason after `; `. Nothing else changes.
pub fn mark_portable_name_collisions(scans: &mut Vec<SharedSkillScan>)
    ensures
        final(scans)@.len() == old(scans)@.len(),
        forall|i: int|
            #![trigger final(scans)@[i]]
            0 <= i < old(scans)@.len() ==> {
                &&& final(scans)@[i].files == old(scans)@[i].files
                &&& final(scans)@[i].entry == OptionalContentEntry {
                    blocked_reason: final(scans)@[i].entry.blocked_reason,
                    ..old(scans)@[i].entry
                }
                &&& opt_view(final(scans)@[i].entry.blocked_reason) == reason_after_collisions(
                    scan_paths(old(scans)@),
                    scan_reasons(old(scans)@),
                    i,
                )
            },
{
    let ghost before = scans@;
    let n = scans.len();
    let mut paths: Vec<String> = Vec::new();
    let mut existing: Vec<Option<String>> = Vec::new();
    let mut i: usize = 0;
    while i < n
        invariant
            n == scans@.len(),
            scans@ == before,
            i <= n,
            paths@.len() == i,
            existing@.len() == i,
            forall|t: int| 0 <= t < i ==> #[trigger] paths@[t]@ == before[t].entry.relative_path@,
            forall|t: int|
                0 <= t < i ==> opt_view(#[trigger] existing@[t]) == opt_view(
                    before[t].entry.blocked_reason,
                ),
        decreases n - i,
    {
        paths.push(scans[i].entry.relative_path.clone());
        existing.push(copy_opt_string(&scans[i].entry.blocked_reason));
        i = i + 1;
    }
    assert(paths@.map_values(|p: String| p@) =~= scan_paths(before));
    assert(existing@.map_values(|o: Option<String>| opt_view(o)) =~= scan_reasons(before));
    let reasons = portable_name_collision_reasons(&paths, &existing);
    let mut k: usize = 0;
    while k < n
        invariant
            n == before.len(),
            n == reasons@.len(),
            scans@.len() == n,
            k <= n,
            forall|t: int|
                0 <= t < n ==> opt_view(#[trigger] reasons@[t]) == reason_after_collisions(
                    scan_paths(before),
                    scan_reasons(before),
                    t,
                ),
            forall|t: int| k <= t < n ==> #[trigger] scans@[t] == before[t],
            forall|t: int|
                #![trigger scans@[t]]
                0 <= t < k ==> {
                    &&& scans@[t].files == before[t].files
                    &&& scans@[t].entry == OptionalContentEntry {
                        blocked_reason: scans@[t].entry.blocked_reason,
                        ..before[t].entry
                    }
                    &&& opt_view(scans@[t].entry.blocked_reason) == reason_after_collisions(
                        scan_paths(before),
                        scan_reasons(before),
                        t,
                    )
                },
        decreases n - k,
    {
        let mut scan = scans.remove(k);
        scan.entry.blocked_reason = copy_opt_string(&reasons[k]);
        scans.insert(k, scan);
        k = k + 1;
    }
}

/// `a` comes before `b`: by name, then by relative path.
pub open spec fn scan_lt(a: SharedSkillScan, b: SharedSkillScan) -> bool {
    text_lt(a.entry.name@, b.entry.name@) || (a.entry.name@ == b.entry.name@ && text_lt(
        a.entry.relative_path@,
        b.entry.relative_path@,
    ))
}

/// `s` with `x` placed after every scan that does not come after it.
pub open spec fn insert_scan(s: Seq<SharedSkillScan>, x: SharedSkillScan) -> Seq<SharedSkillScan>
    decreases s.len(),
{
    if s.len() == 0 {
        seq![x]
    } else if scan_lt(x, s.last()) {
        insert_scan(s.drop_last(), x).push(s.last())
    } else {
        s.push(x)
    }
}

/// The scans ordered by name, then relative path; equal ones keep their order.
pub open spec fn sort_scans(s: Seq<SharedSkillScan>) -> Seq<SharedSkillScan>
    decreases s.len(),
{
    if s.len() == 0 {
        Seq::empty()
    } else {
        insert_scan(sort_scans(s.drop_last()), s.last())
    }
}

proof fn lemma_insert_scan_at(s: Seq<SharedSkillScan>, x: SharedSkillScan, j: int)
    requires
        0 <= j <= s.len(),
        forall|t: int| j <= t < s.len() ==> scan_lt(x, #[trigger] s[t]),
        j == 0 || !scan_lt(x, s[j - 1]),
    ensures
        insert_scan(s, x) == s.insert(j, x),
    decreases s.len(),
{
    if s.len() == 0 {
        assert(s.insert(j, x) =~= seq![x]);
    } else if scan_lt(x, s.last()) {
        let t = s.drop_last();
        assert forall|q: int| j <= q < t.len() implies scan_lt(x, #[trigger] t[q]) by {
            assert(t[q] == s[q]);
        }
        if j > 0 {
            assert(t[j - 1] == s[j - 1]);
        }
        if j == s.len() {
            assert(false);
        }
        lemma_insert_scan_at(t, x, j);
        assert(t.insert(j, x).push(s.last()) =~= s.insert(j, x));
    } else {
        assert(s.len() <= j) by {
            if j < s.len() {
                assert(scan_lt(x, s[s.len() - 1]));
            }
        }
        assert(s.push(x) =~= s.insert(j, x));
    }
}

fn scan_less(a: &SharedSkillScan, b: &SharedSkillScan) -> (r: bool)
    ensures
        r == scan_lt(*a, *b),
{
    text_less(a.entry.name.as_str(), b.entry.name.as_str()) || (a.entry.name == b.entry.name
        && text_less(a.entry.relative_path.as_str(), b.entry.relative_path.as_str()))
}

/// The scans ordered by name, then by relative path; scans that tie keep
/// their order.
pub fn sort_shared_skill_scans(scans: Vec<SharedSkillScan>) -> (r: Vec<SharedSkillScan>)
    ensures
        r@ == sort_scans(scans@),
{
    let ghost orig = scans@;
    let n = scans.len();
    let mut rest = scans;
    let mut out: Vec<SharedSkillScan> = Vec::new();
    let mut i: usize = 0;
    while i < n
        invariant
            n == orig.len(),
            i <= n,
            rest@ == orig.skip(i as int),
            out@ == sort_scans(orig.take(i as int)),
        decreases n - i,
    {
        assert(rest@[0] == orig[i as int]);
        let x = rest.remove(0);
        let mut j = out.len();
        while j > 0 && scan_less(&x, &out[j - 1])
            invariant
                j <= out@.len(),
                forall|t: int| j <= t < out@.len() ==> scan_lt(x, #[trigger] out@[t]),
            decreases j,
        {
            j = j - 1;
        }
        proof {
            lemma_insert_scan_at(out@, x, j as int);
            assert(orig.take(i + 1).drop_last() =~= orig.take(i as int));
            assert(orig.take(i + 1).last() == x);
        }
        out.insert(j, x);
        assert(rest@ =~= orig.skip(i + 1));
        i = i + 1;
    }
    assert(orig.take(n as int) =~= orig);
    out
}

/// The shared Skills found under a root.
#[derive(Debug, Clone, PartialEq)]
pub struct SharedSkillsInventory {
    /// The resolved root, when it exists.
    pub canonical_root: Option<String>,
    pub entries: Vec<OptionalContentEntry>,
    /// Each entry's directory, in the same order.
    pub bundle_paths: Vec<String>,
    pub warnings: Vec<String>,
}

/// The inventory of the scans, in their order.
pub fn shared_skills_inventory(
    canonical_root: Option<String>,
    scans: Vec<SharedSkillScan>,
    warnings: Vec<String>,
) -> (r: SharedSkillsInventory)
    ensures
        r.canonical_root == canonical_root,
        r.entries@ == scans@.map_values(|s: SharedSkillScan| s.entry),
        r.bundle_paths@ == scans@.map_values(|s: SharedSkillScan| s.entry.source_path),
        r.warnings == warnings,
{
    let ghost orig = scans@;
    let n = scans.len();
    let mut rest = scans;
    let mut entries: Vec<OptionalContentEntry> = Vec::new();
    let mut bundle_paths: Vec<String> = Vec::new();
    let mut i: usize = 0;
    while i < n
        invariant
            n == orig.len(),
            i <= n,
            rest@ == orig.skip(i as int),
            entries@ == orig.take(i as int).map_values(|s: SharedSkillScan| s.entry),
            bundle_paths@ == orig.take(i as int).map_values(
                |s: SharedSkillScan| s.entry.source_path,
            ),
        decreases n - i,
    {
        assert(rest@[0] == orig[i as int]);
        let scan = rest.remove(0);
        bundle_paths.push(scan.entry.source_path.clone());
        entries.push(scan.entry);
        assert(entries@ =~= orig.take(i + 1).map_values(|s: SharedSkillScan| s.entry));
        assert(bundle_paths@ =~= orig.take(i + 1).map_values(
            |s: SharedSkillScan| s.entry.source_path,
        ));
        assert(rest@ =~= orig.skip(i + 1));
        i = i + 1;
    }
    assert(orig.take(n as int) =~= orig);
    SharedSkillsInventory { canonical_root, entries, bundle_paths, warnings }
}

fn copy_strings(v: &Vec<String>) -> (r: Vec<String>)
    ensures
        r@ == v@,
{
    let n = v.len();
    let mut out: Vec<String> = Vec::new();
    let mut i: usize = 0;
    while i < n
        invariant
            n == v@.len(),
            i <= n,
            out@ == v@.take(i as int),
        decreases n - i,
    {
        out.push(v[i].clone());
        assert(out@ =~= v@.take(i + 1));
        i = i + 1;
    }
    assert(v@.take(n as int) =~= v@);
    out
}

/// The manifest record of a scanned Skill, kept under `agents/skills/` and
/// its relative path, with the given lock key. Fails when the Skill is
/// blocked, or has no tree hash.
pub fn manifest_entry_from_scan(scan: &SharedSkillScan, lock_key: Option<String>) -> (r: Result<
    SharedSkillEntry,
    RehomeError,
>)
    ensures
        match r {
            Ok(m) => {
                &&& scan.entry.blocked_reason is None
                &&& scan.entry.tree_hash == Some(m.tree_hash)
                &&& m.content_id == scan.entry.content_id
                &&& m.name == scan.entry.name
                &&& m.root_kind == SkillRootKind::SharedAgents
                &&& m.relative_path == scan.entry.relative_path
                &&& m.archive_root@ == "agents/skills/"@ + scan.entry.relative_path@
                &&& m.file_count == scan.files@.len()
                &&& m.content_bytes == scan.entry.size_bytes
                &&& m.exclusions.excluded_files == scan.entry.exclusions.excluded_files
                &&& m.exclusions.excluded_bytes == scan.entry.exclusions.excluded_bytes
                &&& m.exclusions.rules@ == scan.entry.exclusions.rules@
                &&& m.lock_key == lock_key
            },
            Err(e) => {
                &&& e.code == ErrorCode::PackageInvalid
                &&& match scan.entry.blocked_reason {
                    Some(reason) => e.message@ == "shared Skill "@ + scan.entry.relative_path@
                        + " is blocked: "@ + reason@,
                    None => scan.entry.tree_hash is None && e.message@
                        == "shared Skill tree hash is missing"@,
                }
            },
        },
{
    if let Some(reason) = &scan.entry.blocked_reason {
        let mut message = String::from_str("shared Skill ");
        message.append(scan.entry.relative_path.as_str());
        message.append(" is blocked: ");
        message.append(reason.as_str());
        return Err(discovery_failed(message.as_str()));
    }
    let tree_hash = match &scan.entry.tree_hash {
        Some(h) => h.clone(),
        None => {
            return Err(discovery_failed("shared Skill tree hash is missing"));
        },
    };
    let mut archive_root = String::from_str("agents/skills/");
    archive_root.append(scan.entry.relative_path.as_str());
    Ok(
        SharedSkillEntry {
            content_id: scan.entry.content_id,
            name: scan.entry.name.clone(),
            root_kind: SkillRootKind::SharedAgents,
            relative_path: scan.entry.relative_path.clone(),
            archive_root,
            file_count: scan.files.len() as u64,
            content_bytes: scan.entry.size_bytes,
            tree_hash,
            exclusions: ExclusionSummary {
                excluded_files: scan.entry.exclusions.excluded_files,
                excluded_bytes: scan.entry.exclusions.excluded_bytes,
                rules: copy_strings(&scan.entry.exclusions.rules),
            },
            lock_key,
        },
    )
}

/// The tree hash of a scanned Skill directory; fails when the scan found
/// anything that blocks it, or produced no tree hash.
pub fn tree_hash_of_scan(scan: &SharedSkillScan) -> (r: Result<String, RehomeError>)
    ensures
        match r {
            Ok(h) => scan.entry.blocked_reason is None && scan.entry.tree_hash == Some(h),
            Err(e) => e.code == ErrorCode::PackageInvalid && if scan.entry.blocked_reason is Some {
                e.message@ == "Skill tree contains blocked entries"@
            } else {
                scan.entry.tree_hash is None && e.message@ == "Skill tree hash is missing"@
            },
        },
{
    if scan.entry.blocked_reason.is_some() {
        return Err(discovery_failed("Skill tree contains blocked entries"));
    }
    match &scan.entry.tree_hash {
        Some(h) => Ok(h.clone()),
        None => Err(discovery_failed("Skill tree hash is missing")),
    }
}

/// Whether the shared Skills root, whose inspection (without following a
/// final link) gave `metadata` — whether it is a link and whether it is a
/// directory, or why it could not be inspected, `None` when it is missing —
/// is to be resolved: not when it is missing; an error when it is neither a
/// directory nor a link, or could not be inspected.
pub fn shared_root_present(metadata: &Option<Result<(bool, bool), String>>) -> (r: Result<
    bool,
    RehomeError,
>)
    ensures
        match *metadata {
            None => r == Ok::<bool, RehomeError>(false),
            Some(Err(m)) => r matches Err(e) && e.code == ErrorCode::PackageInvalid && e.message@
                == "could not inspect shared Skills root: "@ + m@,
            Some(Ok((is_link, is_dir))) => if is_dir || is_link {
                r == Ok::<bool, RehomeError>(true)
            } else {
                r matches Err(e) && e.code == ErrorCode::PackageInvalid && e.message@
                    == "shared Skills root is not a directory or directory symlink"@
            },
        },
{
    match metadata {
        None => Ok(false),
        Some(Err(m)) => {
            let mut message = String::from_str("could not inspect shared Skills root: ");
            message.append(m.as_str());
            Err(discovery_failed(message.as_str()))
        },
        Some(Ok((is_link, is_dir))) => {
            if *is_dir || *is_link {
                Ok(true)
            } else {
                Err(discovery_failed("shared Skills root is not a directory or directory symlink"))
            }
        },
    }
}

/// Checks the resolved shared Skills root: `metadata` says whether it is a
/// link and whether it is a directory, or why it could not be inspected. It
/// must be a real directory.
pub fn resolved_root_is_directory(metadata: &Result<(bool, bool), String>) -> (r: Result<
    (),
    RehomeError,
>)
    ensures
        match *metadata {
            Err(m) => r matches Err(e) && e.code == ErrorCode::PackageInvalid && e.message@
                == "could not inspect resolved shared Skills root: "@ + m@,
            Ok((is_link, is_dir)) => if is_dir && !is_link {
                r == Ok::<(), RehomeError>(())
            } else {
                r matches Err(e) && e.code == ErrorCode::PackageInvalid && e.message@
                    == "resolved shared Skills root is not a real directory"@
            },
        },
{
    match metadata {
        Err(m) => {
            let mut message = String::from_str("could not inspect resolved shared Skills root: ");
            message.append(m.as_str());
            Err(discovery_failed(message.as_str()))
        },
        Ok((is_link, is_dir)) => {
            if *is_dir && !*is_link {
                Ok(())
            } else {
                Err(discovery_failed("resolved shared Skills root is not a real directory"))
            }
        },
    }
}

/// Checks that the root of a Skill tree to hash is a real directory;
/// `metadata` says whether it is a link or reparse point and whether it is a
/// directory, or why it could not be inspected.
pub fn tree_root_is_directory(metadata: &Result<(bool, bool), String>) -> (r: Result<
    (),
    RehomeError,
>)
    ensures
        match *metadata {
            Err(m) => r matches Err(e) && e.code == ErrorCode::PackageInvalid && e.message@
                == "could not inspect Skill tree: "@ + m@,
            Ok((is_link, is_dir)) => if is_dir && !is_link {
                r == Ok::<(), RehomeError>(())
            } else {
                r matches Err(e) && e.code == ErrorCode::PackageInvalid && e.message@
                    == "Skill tree root is not a real directory"@
            },
        },
{
    match metadata {
        Err(m) => {
            let mut message = String::from_str("could not inspect Skill tree: ");
            message.append(m.as_str());
            Err(discovery_failed(message.as_str()))
        },
        Ok((is_link, is_dir)) => {
            if *is_dir && !*is_link {
                Ok(())
            } else {
                Err(discovery_failed("Skill tree root is not a real directory"))
            }
        },
    }
}

} // verus!
