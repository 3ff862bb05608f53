//! The decisions taken while a restore plan is applied.
//!
//! The caller stages payloads, inspects targets and moves files; these
//! functions say in which order operations run, what a staged Skill must
//! match, what state a target may be in, and how the counts add up.
use vstd::prelude::*;
use crate::digest::{sha256, hex_lower, sha256_hex};
use crate::error::{ErrorCode, RehomeError};
use crate::models::{
    opt_view, ChangeKind, OperationKind, PlannedOperation, RestoreOptions, RestorePlan,
    SharedSkillEntry, SourceOs, VerificationReport, VerificationStatus,
};
use crate::paths::{is_portable_relative, normalized, normalize_entry};
use crate::restore::{
    eq_ignore_ascii_case, eq_ignore_case, is_bridge_operation, is_bridge_source, is_prefix, is_rooted,
    path_components,
    path_is_within, path_starts_with, restore_failed, THREAD_METADATA_SOURCE,
};
use crate::skill_lock::LockMergeResult;
use crate::models::SkillLockFileV3;
use crate::strmap::StrMap;
use crate::text::starts_with;

verus! {

/// The operation is written by copying its payload: it adds or updates its
/// target, and the conversation bridge does not write it.
pub open spec fn applies_directly(plan: RestorePlan, op: PlannedOperation) -> bool {
    (op.action == ChangeKind::Add || op.action == ChangeKind::Update) && !is_bridge_source(
        plan,
        op.package_source@,
    )
}

/// The indices below `n` of operations of `kind` that apply directly, in order.
pub open spec fn direct_operations(plan: RestorePlan, kind: OperationKind, n: int) -> Seq<usize>
    decreases n,
{
    if n <= 0 {
        Seq::empty()
    } else {
        let before = direct_operations(plan, kind, n - 1);
        let op = plan.operations@[n - 1];
        if op.operation_kind == kind && applies_directly(plan, op) {
            before.push((n - 1) as usize)
        } else {
            before
        }
    }
}

/// The order in which operations are applied: the plain files, then the
/// Skill bundles, then the Skill lock, each in plan order.
pub open spec fn apply_order(plan: RestorePlan) -> Seq<usize> {
    let n = plan.operations@.len() as int;
    direct_operations(plan, OperationKind::File, n) + direct_operations(
        plan,
        OperationKind::SkillBundle,
        n,
    ) + direct_operations(plan, OperationKind::SkillLock, n)
}

proof fn lemma_direct_operations(plan: RestorePlan, kind: OperationKind, n: int)
    requires
        0 <= n <= plan.operations@.len(),
    ensures
        forall|a: int, b: int|
            0 <= a < b < direct_operations(plan, kind, n).len() ==> #[trigger] direct_operations(
                plan,
                kind,
                n,
            )[a] < #[trigger] direct_operations(plan, kind, n)[b],
        forall|i: usize|
            #[trigger] direct_operations(plan, kind, n).contains(i) <==> (i < n
                && plan.operations@[i as int].operation_kind == kind && applies_directly(
                plan,
                plan.operations@[i as int],
            )),
    decreases n,
{
    assert(plan.operations@.len() == plan.operations.len());
    if n > 0 {
        lemma_direct_operations(plan, kind, n - 1);
        let before = direct_operations(plan, kind, n - 1);
        let op = plan.operations@[n - 1];
        if op.operation_kind == kind && applies_directly(plan, op) {
            let after = before.push((n - 1) as usize);
            assert forall|i: usize| #[trigger] after.contains(i) <==> (i < n
                && plan.operations@[i as int].operation_kind == kind && applies_directly(
                plan,
                plan.operations@[i as int],
            )) by {
                if after.contains(i) {
                    let k = choose|k: int| 0 <= k < after.len() && after[k] == i;
                    if k < before.len() {
                        assert(before.contains(i));
                    }
                }
                if i < n && plan.operations@[i as int].operation_kind == kind && applies_directly(
                    plan,
                    plan.operations@[i as int],
                ) {
                    if i == n - 1 {
                        assert(after[before.len() as int] == i);
                    } else {
                        assert(before.contains(i));
                        let k = choose|k: int| 0 <= k < before.len() && before[k] == i;
                        assert(after[k] == i);
                    }
                }
            }
            assert forall|a: int, b: int| 0 <= a < b < after.len() implies #[trigger] after[a]
                < #[trigger] after[b] by {
                if b == before.len() {
                    assert(before.contains(before[a]));
                } else {
                    assert(after[a] == before[a] && after[b] == before[b]);
                }
            }
        }
    }
}

/// Applying a plan writes each operation that applies directly exactly
/// once, and nothing else: every index in the order names such an
/// operation, each such operation is in the order, and no index repeats.
pub proof fn law_each_direct_operation_applied_once(plan: RestorePlan)
    ensures
        forall|i: usize|
            #[trigger] apply_order(plan).contains(i) <==> (i < plan.operations@.len()
                && applies_directly(plan, plan.operations@[i as int])),
        forall|a: int, b: int|
            0 <= a < b < apply_order(plan).len() ==> #[trigger] apply_order(plan)[a]
                != #[trigger] apply_order(plan)[b],
{
    let n = plan.operations@.len() as int;
    let f = direct_operations(plan, OperationKind::File, n);
    let g = direct_operations(plan, OperationKind::SkillBundle, n);
    let h = direct_operations(plan, OperationKind::SkillLock, n);
    lemma_direct_operations(plan, OperationKind::File, n);
    lemma_direct_operations(plan, OperationKind::SkillBundle, n);
    lemma_direct_operations(plan, OperationKind::SkillLock, n);
    let o = apply_order(plan);
    assert(o == f + g + h);
    assert forall|i: usize| #[trigger] o.contains(i) <==> (i < plan.operations@.len()
        && applies_directly(plan, plan.operations@[i as int])) by {
        if o.contains(i) {
            let k = choose|k: int| 0 <= k < o.len() && o[k] == i;
            if k < f.len() {
                assert(f.contains(i));
            } else if k < f.len() + g.len() {
                assert(g[k - f.len()] == i);
                assert(g.contains(i));
            } else {
                assert(h[k - f.len() - g.len()] == i);
                assert(h.contains(i));
            }
        }
        if i < plan.operations@.len() && applies_directly(plan, plan.operations@[i as int]) {
            match plan.operations@[i as int].operation_kind {
                OperationKind::File => {
                    assert(f.contains(i));
                    let k = choose|k: int| 0 <= k < f.len() && f[k] == i;
                    assert(o[k] == i);
                },
                OperationKind::SkillBundle => {
                    assert(g.contains(i));
                    let k = choose|k: int| 0 <= k < g.len() && g[k] == i;
                    assert(o[f.len() + k] == i);
                },
                OperationKind::SkillLock => {
                    assert(h.contains(i));
                    let k = choose|k: int| 0 <= k < h.len() && h[k] == i;
                    assert(o[f.len() + g.len() + k] == i);
                },
            }
        }
    }
    assert forall|a: int, b: int| 0 <= a < b < o.len() implies #[trigger] o[a] != #[trigger] o[b] by {
        let fl = f.len() as int;
        let gl = g.len() as int;
        let kind_of = |k: int|
            if k < fl {
                OperationKind::File
            } else if k < fl + gl {
                OperationKind::SkillBundle
            } else {
                OperationKind::SkillLock
            };
        if a < fl && b < fl {
            assert(f[a] < f[b]);
        } else if fl <= a && a < fl + gl && fl <= b && b < fl + gl {
            assert(g[a - fl] < g[b - fl]);
        } else if fl + gl <= a && fl + gl <= b {
            assert(h[a - fl - gl] < h[b - fl - gl]);
        } else {
            let x = o[a];
            let y = o[b];
            if a < fl {
                assert(f.contains(x));
            } else if a < fl + gl {
                assert(g[a - fl] == x);
                assert(g.contains(x));
            } else {
                assert(h[a - fl - gl] == x);
                assert(h.contains(x));
            }
            if b < fl {
                assert(f.contains(y));
            } else if b < fl + gl {
                assert(g[b - fl] == y);
                assert(g.contains(y));
            } else {
                assert(h[b - fl - gl] == y);
                assert(h.contains(y));
            }
        }
    }
}

fn direct_operations_of(plan: &RestorePlan, kind: OperationKind, out: &mut Vec<usize>)
    ensures
        final(out)@ == old(out)@ + direct_operations(*plan, kind, plan.operations@.len() as int),
{
    let ghost start = out@;
    let n = plan.operations.len();
    let mut i: usize = 0;
    while i < n
        invariant
            n == plan.operations@.len(),
            i <= n,
            out@ == start + direct_operations(*plan, kind, i as int),
        decreases n - i,
    {
        let op = &plan.operations[i];
        if op.operation_kind == kind && (op.action == ChangeKind::Add || op.action
            == ChangeKind::Update) && !is_bridge_operation(plan, &op.package_source) {
            out.push(i);
            assert(out@ =~= start + direct_operations(*plan, kind, i + 1));
        }
        i = i + 1;
    }
}

/// The indices of the operations the caller applies by copying payloads, in
/// the order it applies them (see `apply_order`).
pub fn regular_apply_order(plan: &RestorePlan) -> (r: Vec<usize>)
    ensures
        r@ == apply_order(*plan),
{
    let mut out: Vec<usize> = Vec::new();
    direct_operations_of(plan, OperationKind::File, &mut out);
    direct_operations_of(plan, OperationKind::SkillBundle, &mut out);
    direct_operations_of(plan, OperationKind::SkillLock, &mut out);
    assert(out@ =~= apply_order(*plan));
    out
}

/// Adds the files and bytes one operation restored to the running totals;
/// fails when either total overflows, the file count first.
pub fn add_restored(totals: (u64, u64), files: u64, bytes: u64) -> (r: Result<(u64, u64), RehomeError>)
    ensures
        match r {
            Ok(t) => t.0 == totals.0 + files && t.1 == totals.1 + bytes,
            Err(e) => e.code == ErrorCode::RestoreFailed && if totals.0 + files > u64::MAX {
                e.message@ == "restored file count overflowed"@
            } else {
                totals.1 + bytes > u64::MAX && e.message@ == "restored byte count overflowed"@
            },
        },
{
    let f = match totals.0.checked_add(files) {
        Some(f) => f,
        None => {
            return Err(restore_failed("restored file count overflowed"));
        },
    };
    let b = match totals.1.checked_add(bytes) {
        Some(b) => b,
        None => {
            return Err(restore_failed("restored byte count overflowed"));
        },
    };
    Ok((f, b))
}

/// The first manifest Skill with the given content ID, at index `i`.
pub open spec fn first_skill_with_id(skills: Seq<SharedSkillEntry>, id: u128, i: int) -> bool {
    &&& 0 <= i < skills.len()
    &&& skills[i].content_id == id
    &&& forall|k: int| 0 <= k < i ==> #[trigger] skills[k].content_id != id
}

/// The index of the manifest entry of the Skill bundle operation `op`.
///
/// Fails when the operation has no content ID, when no manifest Skill has it,
/// and when the first that has it is not stored where the operation reads.
pub fn bundle_manifest_index(op: &PlannedOperation, skills: &Vec<SharedSkillEntry>) -> (r: Result<
    usize,
    RehomeError,
>)
    ensures
        match r {
            Ok(i) => op.content_id matches Some(id) && first_skill_with_id(skills@, id, i as int)
                && skills@[i as int].archive_root@ == op.package_source@,
            Err(e) => e.code == ErrorCode::RestoreFailed && match op.content_id {
                None => e.message@ == "Skill bundle operation has no content ID"@,
                Some(id) => if forall|k: int|
                    0 <= k < skills@.len() ==> #[trigger] skills@[k].content_id != id {
                    e.message@ == "Skill bundle manifest entry is missing"@
                } else {
                    exists|i: int|
                        #[trigger] first_skill_with_id(skills@, id, i)
                            && skills@[i].archive_root@ != op.package_source@
                            && e.message@
                            == "Skill bundle operation does not match its manifest entry"@
                },
            },
        },
{
    let id = match op.content_id {
        Some(id) => id,
        None => {
            return Err(restore_failed("Skill bundle operation has no content ID"));
        },
    };
    let n = skills.len();
    let mut i: usize = 0;
    while i < n
        invariant
            n == skills@.len(),
            op.content_id == Some(id),
            i <= n,
            forall|k: int| 0 <= k < i ==> #[trigger] skills@[k].content_id != id,
        decreases n - i,
    {
        if skills[i].content_id == id {
            assert(first_skill_with_id(skills@, id, i as int));
            if skills[i].archive_root != op.package_source {
                assert(skills@[i as int].archive_root@ != op.package_source@);
                assert(!forall|k: int|
                    0 <= k < skills@.len() ==> #[trigger] skills@[k].content_id != id);
                return Err(restore_failed("Skill bundle operation does not match its manifest entry"));
            }
            return Ok(i);
        }
        i = i + 1;
    }
    Err(restore_failed("Skill bundle manifest entry is missing"))
}

/// The name of the lock file that guards the Skill bundle target named
/// `target_name` while it is replaced.
pub fn bundle_lock_file_name(target_name: &str) -> (r: String)
    ensures
        r@ == "."@ + target_name@ + ".codex-rehome.lock"@,
{
    let mut name = String::from_str(".");
    name.append(target_name);
    name.append(".codex-rehome.lock");
    name
}

/// The path inside the Skill of the package payload `source`, when the payload
/// belongs to the Skill stored under `archive_root`: `None` when it does not;
/// an error when the path inside is not a normalised portable path.
pub fn staged_payload_path(archive_root: &String, source: &String) -> (r: Option<
    Result<String, RehomeError>,
>)
    ensures
        ({
            let prefix = archive_root@.push('/');
            if !starts_with(source@, prefix) {
                r is None
            } else {
                let rel = source@.skip(prefix.len() as int);
                match r {
                    Some(Ok(p)) => is_portable_relative(rel) && normalized(rel) == rel && p@ == rel,
                    Some(Err(e)) => e.code == ErrorCode::RestoreFailed && if !is_portable_relative(
                        rel,
                    ) {
                        e.message@ == "path is not a portable relative path"@
                    } else {
                        normalized(rel) != rel && e.message@
                            == "Skill payload path is not normalized"@
                    },
                    None => false,
                }
            }
        }),
{
    let mut prefix = archive_root.clone();
    prefix.append("/");
    proof {
        reveal_strlit("/");
        assert(prefix@ =~= archive_root@.push('/'));
    }
    let p = prefix.as_str();
    let s = source.as_str();
    let plen = p.unicode_len();
    let slen = s.unicode_len();
    if plen > slen {
        return None;
    }
    let head = s.substring_char(0, plen);
    let head_text = String::from_str(head);
    if head_text != prefix {
        return None;
    }
    let rest = s.substring_char(plen, slen);
    assert(rest@ =~= source@.skip(prefix@.len() as int));
    match normalize_entry(rest) {
        Err(e) => Some(Err(restore_failed(e.message.as_str()))),
        Ok(n) => {
            let rest_text = String::from_str(rest);
            if n != rest_text {
                Some(Err(restore_failed("Skill payload path is not normalized")))
            } else {
                Some(Ok(rest_text))
            }
        },
    }
}

/// Counts one more staged Skill file, which wrote `written` bytes and was
/// expected to write `expected`; fails when the sizes differ or the byte
/// count overflows.
pub fn count_staged_file(totals: (u64, u64), written: u64, expected: u64) -> (r: Result<
    (u64, u64),
    RehomeError,
>)
    requires
        totals.0 < u64::MAX,
    ensures
        match r {
            Ok(t) => written == expected && t.0 == totals.0 + 1 && t.1 == totals.1 + written,
            Err(e) => e.code == ErrorCode::RestoreFailed && if written != expected {
                e.message@ == "staged Skill payload size changed"@
            } else {
                totals.1 + written > u64::MAX && e.message@
                    == "staged Skill byte count overflowed"@
            },
        },
{
    if written != expected {
        return Err(restore_failed("staged Skill payload size changed"));
    }
    let bytes = match totals.1.checked_add(written) {
        Some(b) => b,
        None => {
            return Err(restore_failed("staged Skill byte count overflowed"));
        },
    };
    Ok((totals.0 + 1, bytes))
}

/// Checks a staged Skill against its manifest entry: the file and byte
/// counts first, then the tree hash, compared ignoring ASCII case.
pub fn check_staged_bundle(
    file_count: u64,
    byte_count: u64,
    staged_hash: &String,
    manifest: &SharedSkillEntry,
) -> (r: Result<(), RehomeError>)
    ensures
        match r {
            Ok(()) => file_count == manifest.file_count && byte_count == manifest.content_bytes
                && eq_ignore_case(staged_hash@, manifest.tree_hash@),
            Err(e) => e.code == ErrorCode::RestoreFailed && if file_count != manifest.file_count
                || byte_count != manifest.content_bytes {
                e.message@ == "staged Skill counts do not match the package manifest"@
            } else {
                !eq_ignore_case(staged_hash@, manifest.tree_hash@) && e.message@
                    == "staged Skill tree hash does not match the package manifest"@
            },
        },
{
    if file_count != manifest.file_count || byte_count != manifest.content_bytes {
        return Err(restore_failed("staged Skill counts do not match the package manifest"));
    }
    if !eq_ignore_ascii_case(staged_hash, &manifest.tree_hash) {
        return Err(restore_failed("staged Skill tree hash does not match the package manifest"));
    }
    Ok(())
}

/// What inspecting a target on disk found.
#[derive(Debug, Clone, PartialEq, Eq)]
pub enum TargetState {
    /// Nothing is there.
    Missing,
    /// It could not be inspected; the message says why.
    InspectFailed(String),
    /// Something is there: whether it is a symbolic link or reparse point,
    /// whether it is a directory, whether it is a regular file, and its size.
    Present { is_link: bool, is_dir: bool, is_file: bool, len: u64 },
}

/// How the staged Skill replaces its target.
#[derive(Debug, Clone, Copy, PartialEq, Eq, Structural)]
pub enum BundleSwap {
    /// The target is a Skill directory: check its tree hash, quarantine it,
    /// then install the staged Skill.
    QuarantineExisting,
    /// There is no target: install the staged Skill.
    InstallNew,
}

/// How the staged Skill replaces the target found in `state`, for the
/// planned `action`. An existing target must be a real directory planned for
/// update; a missing one must be planned as an addition.
pub fn bundle_target_swap(action: ChangeKind, state: &TargetState) -> (r: Result<
    BundleSwap,
    RehomeError,
>)
    ensures
        match *state {
            TargetState::Missing => if action == ChangeKind::Add {
                r == Ok::<BundleSwap, RehomeError>(BundleSwap::InstallNew)
            } else {
                r matches Err(e) && e.code == ErrorCode::RestoreFailed && e.message@
                    == "Skill bundle target disappeared after planning"@
            },
            TargetState::InspectFailed(m) => r matches Err(e) && e.code == ErrorCode::RestoreFailed
                && e.message@ == "could not inspect target Skill before replacement: "@ + m@,
            TargetState::Present { is_link, is_dir, .. } => if action == ChangeKind::Update
                && !is_link && is_dir {
                r == Ok::<BundleSwap, RehomeError>(BundleSwap::QuarantineExisting)
            } else {
                r matches Err(e) && e.code == ErrorCode::RestoreFailed && e.message@
                    == "Skill bundle target type changed after planning"@
            },
        },
{
    match state {
        TargetState::Missing => {
            if action == ChangeKind::Add {
                Ok(BundleSwap::InstallNew)
            } else {
                Err(restore_failed("Skill bundle target disappeared after planning"))
            }
        },
        TargetState::InspectFailed(m) => {
            let mut message = String::from_str("could not inspect target Skill before replacement: ");
            message.append(m.as_str());
            Err(restore_failed(message.as_str()))
        },
        TargetState::Present { is_link, is_dir, .. } => {
            if action == ChangeKind::Update && !*is_link && *is_dir {
                Ok(BundleSwap::QuarantineExisting)
            } else {
                Err(restore_failed("Skill bundle target type changed after planning"))
            }
        },
    }
}

/// Checks that the Skill about to be quarantined still has the tree hash the
/// plan expected, ignoring ASCII case.
pub fn check_bundle_target_hash(current: &String, expected_previous: &Option<String>) -> (r: Result<
    (),
    RehomeError,
>)
    ensures
        match r {
            Ok(()) => expected_previous matches Some(x) && eq_ignore_case(current@, x@),
            Err(e) => !(expected_previous matches Some(x) && eq_ignore_case(current@, x@))
                && e.code == ErrorCode::RestoreFailed && e.message@
                == "Skill bundle target changed after planning"@,
        },
{
    match expected_previous {
        Some(x) => if eq_ignore_ascii_case(current, x) {
            return Ok(());
        },
        None => {},
    }
    Err(restore_failed("Skill bundle target changed after planning"))
}

/// The largest target Skill lock file a restore reads, in bytes.
pub const MAX_LOCK_BYTES: u64 = 4194304;

/// Whether the target Skill lock found in `state` is read before the merge:
/// not when it is missing; an error when it is not a regular file, is larger
/// than `MAX_LOCK_BYTES`, or could not be inspected.
pub fn lock_target_read(state: &TargetState) -> (r: Result<bool, RehomeError>)
    ensures
        match *state {
            TargetState::Missing => r == Ok::<bool, RehomeError>(false),
            TargetState::InspectFailed(m) => r matches Err(e) && e.code == ErrorCode::RestoreFailed
                && e.message@ == "could not inspect target Skill lock: "@ + m@,
            TargetState::Present { is_link, is_file, len, .. } => if is_link || !is_file {
                r matches Err(e) && e.code == ErrorCode::RestoreFailed && e.message@
                    == "target Skill lock is no longer a regular file"@
            } else if len > MAX_LOCK_BYTES {
                r matches Err(e) && e.code == ErrorCode::RestoreFailed && e.message@
                    == "target Skill lock exceeds the supported size limit"@
            } else {
                r == Ok::<bool, RehomeError>(true)
            },
        },
{
    match state {
        TargetState::Missing => Ok(false),
        TargetState::InspectFailed(m) => {
            let mut message = String::from_str("could not inspect target Skill lock: ");
            message.append(m.as_str());
            Err(restore_failed(message.as_str()))
        },
        TargetState::Present { is_link, is_file, len, .. } => {
            if *is_link || !*is_file {
                Err(restore_failed("target Skill lock is no longer a regular file"))
            } else if *len > MAX_LOCK_BYTES {
                Err(restore_failed("target Skill lock exceeds the supported size limit"))
            } else {
                Ok(true)
            }
        },
    }
}

/// The first operation for content `id`, at index `i`.
pub open spec fn first_operation_for(ops: Seq<PlannedOperation>, id: u128, i: int) -> bool {
    &&& 0 <= i < ops.len()
    &&& ops[i].content_id == Some(id)
    &&& forall|k: int| 0 <= k < i ==> #[trigger] ops[k].content_id != Some(id)
}

/// The decision for `skill`: the action of the first operation for its
/// content, if any.
pub open spec fn skill_decision(ops: Seq<PlannedOperation>, skill: SharedSkillEntry) -> Option<
    ChangeKind,
> {
    if exists|i: int| #[trigger] first_operation_for(ops, skill.content_id, i) {
        Some(ops[choose|i: int| #[trigger] first_operation_for(ops, skill.content_id, i)].action)
    } else {
        None
    }
}

/// The decisions of the first `n` Skills, keyed by relative path, a later
/// Skill replacing an earlier one with the same path.
pub open spec fn decisions_map(
    skills: Seq<SharedSkillEntry>,
    ops: Seq<PlannedOperation>,
    n: int,
) -> Map<Seq<char>, ChangeKind>
    decreases n,
{
    if n <= 0 {
        Map::empty()
    } else {
        decisions_map(skills, ops, n - 1).insert(
            skills[n - 1].relative_path@,
            skill_decision(ops, skills[n - 1])->0,
        )
    }
}

proof fn lemma_first_operation_unique(ops: Seq<PlannedOperation>, id: u128, i: int, j: int)
    requires
        first_operation_for(ops, id, i),
        first_operation_for(ops, id, j),
    ensures
        i == j,
{
    if i < j {
        assert(ops[i].content_id != Some(id));
    } else if j < i {
        assert(ops[j].content_id != Some(id));
    }
}

/// The bundle decision of each manifest Skill, keyed by its relative path:
/// the action of the first operation for its content. Fails when a Skill has
/// no operation.
pub fn skill_lock_decisions(skills: &Vec<SharedSkillEntry>, ops: &Vec<PlannedOperation>) -> (r:
    Result<StrMap<ChangeKind>, RehomeError>)
    ensures
        match r {
            Ok(m) => m.wf() && (forall|i: int|
                0 <= i < skills@.len() ==> #[trigger] skill_decision(ops@, skills@[i]) is Some)
                && m@ == decisions_map(skills@, ops@, skills@.len() as int),
            Err(e) => e.code == ErrorCode::RestoreFailed && e.message@
                == "Skill bundle decision is missing"@ && exists|i: int|
                0 <= i < skills@.len() && #[trigger] skill_decision(ops@, skills@[i]) is None,
        },
{
    let n = skills.len();
    let mut out: StrMap<ChangeKind> = StrMap::new();
    let mut i: usize = 0;
    while i < n
        invariant
            n == skills@.len(),
            i <= n,
            out.wf(),
            out@ == decisions_map(skills@, ops@, i as int),
            forall|k: int| 0 <= k < i ==> #[trigger] skill_decision(ops@, skills@[k]) is Some,
        decreases n - i,
    {
        let id = skills[i].content_id;
        let m = ops.len();
        let mut j: usize = 0;
        let mut found: Option<ChangeKind> = None;
        while j < m && found.is_none()
            invariant
                m == ops@.len(),
                j <= m,
                id == skills@[i as int].content_id,
                found is None ==> forall|k: int| 0 <= k < j ==> #[trigger] ops@[k].content_id
                    != Some(id),
                found matches Some(a) ==> exists|k: int|
                    #[trigger] first_operation_for(ops@, id, k) && ops@[k].action == a,
            decreases m - j + if found is None {
                1int
            } else {
                0int
            },
        {
            if ops[j].content_id == Some(id) {
                assert(first_operation_for(ops@, id, j as int));
                found = Some(ops[j].action);
            } else {
                j = j + 1;
            }
        }
        match found {
            Some(action) => {
                proof {
                    let k = choose|k: int|
                        #[trigger] first_operation_for(ops@, id, k) && ops@[k].action == action;
                    let c = choose|c: int| #[trigger] first_operation_for(ops@, id, c);
                    lemma_first_operation_unique(ops@, id, k, c);
                }
                out.insert(skills[i].relative_path.clone(), action);
            },
            None => {
                proof {
                    assert forall|k: int| !first_operation_for(ops@, id, k) by {
                        if first_operation_for(ops@, id, k) {
                            assert(ops@[k].content_id == Some(id));
                        }
                    }
                    assert(skill_decision(ops@, skills@[i as int]) is None);
                }
                return Err(restore_failed("Skill bundle decision is missing"));
            },
        }
        i = i + 1;
    }
    Ok(out)
}

/// The lock document a restore writes, from the merge's result: the merge
/// must ask for a write, since the plan expected one.
pub fn writable_merge(result: LockMergeResult) -> (r: Result<SkillLockFileV3, RehomeError>)
    ensures
        match result {
            LockMergeResult::Write(l) => r == Ok::<SkillLockFileV3, RehomeError>(l),
            _ => r matches Err(e) && e.code == ErrorCode::RestoreFailed && e.message@
                == "target Skill lock no longer matches the writable restore plan"@,
        },
{
    match result {
        LockMergeResult::Write(l) => Ok(l),
        _ => Err(restore_failed("target Skill lock no longer matches the writable restore plan")),
    }
}

/// Checks that the bytes of the merged lock have the SHA-256 digest the plan
/// expected, in hexadecimal, ignoring ASCII case.
pub fn check_final_lock_hash(bytes: &[u8], expected_final: &Option<String>) -> (r: Result<
    (),
    RehomeError,
>)
    ensures
        match r {
            Ok(()) => expected_final matches Some(x) && eq_ignore_case(hex_lower(sha256(bytes@)), x@),
            Err(e) => !(expected_final matches Some(x) && eq_ignore_case(
                hex_lower(sha256(bytes@)),
                x@,
            )) && e.code == ErrorCode::RestoreFailed && e.message@
                == "merged Skill lock changed after restore planning"@,
        },
{
    let actual = sha256_hex(bytes);
    match expected_final {
        Some(x) => if eq_ignore_ascii_case(&actual, x) {
            return Ok(());
        },
        None => {},
    }
    Err(restore_failed("merged Skill lock changed after restore planning"))
}

/// On `os`, `a` and `b` name the same path: both rooted or neither, with
/// the same components.
pub open spec fn same_path(os: SourceOs, a: Seq<char>, b: Seq<char>) -> bool {
    is_rooted(os, a) == is_rooted(os, b) && path_components(os, a) == path_components(os, b)
}

/// Two paths name the same path exactly when each lies inside the other.
pub proof fn lemma_same_path(os: SourceOs, a: Seq<char>, b: Seq<char>)
    ensures
        same_path(os, a, b) <==> (path_starts_with(os, a, b) && path_starts_with(os, b, a)),
{
    let ca = path_components(os, a);
    let cb = path_components(os, b);
    if path_starts_with(os, a, b) && path_starts_with(os, b, a) {
        if ca.len() == 0 && cb.len() == 0 {
            assert(ca =~= cb);
        } else if is_prefix(cb, ca) && is_prefix(ca, cb) {
            assert(ca =~= cb);
        }
    }
}

/// The root a target is written under: the Codex home, the projects root or
/// the shared Skills root when the target lies inside one (tried in that
/// order), or the directory `lock_parent` of the Skill lock when the target is
/// the lock itself. Fails for any other target, and for the lock when it has
/// no parent directory.
pub fn operation_root(
    os: SourceOs,
    plan: &RestorePlan,
    target: &String,
    lock_parent: &Option<String>,
) -> (r: Result<String, RehomeError>)
    ensures
        match r {
            Ok(root) => if path_starts_with(os, target@, plan.target_codex_home@) {
                root == plan.target_codex_home
            } else if path_starts_with(os, target@, plan.projects_root@) {
                root == plan.projects_root
            } else if path_starts_with(os, target@, plan.target_agents_skills_root@) {
                root == plan.target_agents_skills_root
            } else {
                same_path(os, target@, plan.target_skill_lock_path@) && *lock_parent == Some(root)
            },
            Err(e) => e.code == ErrorCode::RestoreFailed && !path_starts_with(
                os,
                target@,
                plan.target_codex_home@,
            ) && !path_starts_with(os, target@, plan.projects_root@) && !path_starts_with(
                os,
                target@,
                plan.target_agents_skills_root@,
            ) && if same_path(os, target@, plan.target_skill_lock_path@) {
                lock_parent is None && e.message@ == "target Skill lock has no parent"@
            } else {
                e.message@ == "restore target escapes the planned roots: "@ + target@
            },
        },
{
    if path_is_within(os, target, &plan.target_codex_home) {
        return Ok(plan.target_codex_home.clone());
    }
    if path_is_within(os, target, &plan.projects_root) {
        return Ok(plan.projects_root.clone());
    }
    if path_is_within(os, target, &plan.target_agents_skills_root) {
        return Ok(plan.target_agents_skills_root.clone());
    }
    let same = path_is_within(os, target, &plan.target_skill_lock_path) && path_is_within(
        os,
        &plan.target_skill_lock_path,
        target,
    );
    proof {
        lemma_same_path(os, target@, plan.target_skill_lock_path@);
    }
    if same {
        return match lock_parent {
            Some(p) => Ok(p.clone()),
            None => Err(restore_failed("target Skill lock has no parent")),
        };
    }
    let mut message = String::from_str("restore target escapes the planned roots: ");
    message.append(target.as_str());
    Err(restore_failed(message.as_str()))
}

/// The error a failed bridge update is reported as: when the plan writes
/// the thread metadata, its message says the SQLite/index bridge failed.
pub fn bridge_failure(plan: &RestorePlan, error: RehomeError) -> (r: RehomeError)
    ensures
        if exists|i: int|
            0 <= i < plan.operations@.len() && #[trigger] plan.operations@[i].package_source@
                == THREAD_METADATA_SOURCE@ {
            r.code == error.code && r.message@ == "SQLite/index bridge update failed: "@
                + error.message@
        } else {
            r == error
        },
{
    let threads = String::from_str(THREAD_METADATA_SOURCE);
    let n = plan.operations.len();
    let mut i: usize = 0;
    while i < n
        invariant
            n == plan.operations@.len(),
            threads@ == THREAD_METADATA_SOURCE@,
            i <= n,
            forall|k: int|
                0 <= k < i ==> #[trigger] plan.operations@[k].package_source@
                    != THREAD_METADATA_SOURCE@,
        decreases n - i,
    {
        if plan.operations[i].package_source == threads {
            let mut message = String::from_str("SQLite/index bridge update failed: ");
            message.append(error.message.as_str());
            return RehomeError { code: error.code, message };
        }
        i = i + 1;
    }
    error
}

/// `true` or `false`.
pub open spec fn bool_text(b: bool) -> Seq<char> {
    if b {
        "true"@
    } else {
        "false"@
    }
}

/// The name of a verification status.
pub open spec fn status_text(s: VerificationStatus) -> Seq<char> {
    match s {
        VerificationStatus::Passed => "Passed"@,
        VerificationStatus::Failed => "Failed"@,
        VerificationStatus::Skipped => "Skipped"@,
        VerificationStatus::NotRun => "NotRun"@,
    }
}

/// The report written out field by field, as Rust's derived `Debug` writes it.
pub open spec fn report_text(r: VerificationReport) -> Seq<char> {
    "VerificationReport { package_checksum_valid: "@ + bool_text(r.package_checksum_valid)
        + ", files_valid: "@ + bool_text(r.files_valid) + ", sessions_valid: "@ + bool_text(
        r.sessions_valid,
    ) + ", session_index_valid: "@ + bool_text(r.session_index_valid)
        + ", sqlite_threads_valid: "@ + bool_text(r.sqlite_threads_valid)
        + ", path_mapping_valid: "@ + bool_text(r.path_mapping_valid)
        + ", forbidden_files_absent: "@ + bool_text(r.forbidden_files_absent)
        + ", project_files_valid: "@ + bool_text(r.project_files_valid)
        + ", app_registration_valid: "@ + bool_text(r.app_registration_valid)
        + ", app_visible_ready: "@ + bool_text(r.app_visible_ready)
        + ", shared_skill_files_valid: "@ + bool_text(r.shared_skill_files_valid)
        + ", codex_skill_discovery: "@ + status_text(r.codex_skill_discovery)
        + ", skill_lock_merge: "@ + status_text(r.skill_lock_merge) + ", functional_sampling: "@
        + status_text(r.functional_sampling) + " }"@
}

fn bool_str(b: bool) -> (r: &'static str)
    ensures
        r@ == bool_text(b),
{
    if b {
        "true"
    } else {
        "false"
    }
}

fn status_str(s: VerificationStatus) -> (r: &'static str)
    ensures
        r@ == status_text(s),
{
    match s {
        VerificationStatus::Passed => "Passed",
        VerificationStatus::Failed => "Failed",
        VerificationStatus::Skipped => "Skipped",
        VerificationStatus::NotRun => "NotRun",
    }
}

fn report_debug_text(report: &VerificationReport) -> (r: String)
    ensures
        r@ == report_text(*report),
{
    let mut m = String::from_str("VerificationReport { package_checksum_valid: ");
    m.append(bool_str(report.package_checksum_valid));
    m.append(", files_valid: ");
    m.append(bool_str(report.files_valid));
    m.append(", sessions_valid: ");
    m.append(bool_str(report.sessions_valid));
    m.append(", session_index_valid: ");
    m.append(bool_str(report.session_index_valid));
    m.append(", sqlite_threads_valid: ");
    m.append(bool_str(report.sqlite_threads_valid));
    m.append(", path_mapping_valid: ");
    m.append(bool_str(report.path_mapping_valid));
    m.append(", forbidden_files_absent: ");
    m.append(bool_str(report.forbidden_files_absent));
    m.append(", project_files_valid: ");
    m.append(bool_str(report.project_files_valid));
    m.append(", app_registration_valid: ");
    m.append(bool_str(report.app_registration_valid));
    m.append(", app_visible_ready: ");
    m.append(bool_str(report.app_visible_ready));
    m.append(", shared_skill_files_valid: ");
    m.append(bool_str(report.shared_skill_files_valid));
    m.append(", codex_skill_discovery: ");
    m.append(status_str(report.codex_skill_discovery));
    m.append(", skill_lock_merge: ");
    m.append(status_str(report.skill_lock_merge));
    m.append(", functional_sampling: ");
    m.append(status_str(report.functional_sampling));
    m.append(" }");
    m
}

/// The error a restore whose checks did not pass is reported as; its
/// message ends with the whole report.
pub fn verification_failure(report: &VerificationReport) -> (r: RehomeError)
    ensures
        r.code == ErrorCode::RestoreFailed,
        r.message@ == "restore verification did not pass: "@ + report_text(*report),
{
    let mut m = String::from_str("restore verification did not pass: ");
    m.append(report_debug_text(report).as_str());
    restore_failed(m.as_str())
}

/// The indices, in order, of the operations the bridge wrote: additions and
/// updates of bridge sources. Their sizes count as restored bytes.
pub open spec fn bridge_written(plan: RestorePlan, n: int) -> Seq<usize>
    decreases n,
{
    if n <= 0 {
        Seq::empty()
    } else {
        let op = plan.operations@[n - 1];
        if (op.action == ChangeKind::Add || op.action == ChangeKind::Update) && is_bridge_source(
            plan,
            op.package_source@,
        ) {
            bridge_written(plan, n - 1).push((n - 1) as usize)
        } else {
            bridge_written(plan, n - 1)
        }
    }
}

/// The indices of the operations the bridge wrote, in order.
pub fn bridge_written_operations(plan: &RestorePlan) -> (r: Vec<usize>)
    ensures
        r@ == bridge_written(*plan, plan.operations@.len() as int),
{
    let n = plan.operations.len();
    let mut out: Vec<usize> = Vec::new();
    let mut i: usize = 0;
    while i < n
        invariant
            n == plan.operations@.len(),
            i <= n,
            out@ == bridge_written(*plan, i as int),
        decreases n - i,
    {
        let op = &plan.operations[i];
        if (op.action == ChangeKind::Add || op.action == ChangeKind::Update) && is_bridge_operation(
            plan,
            &op.package_source,
        ) {
            out.push(i);
        }
        i = i + 1;
    }
    out
}

/// Adds the size of a target the bridge wrote to `total`. `metadata` is what
/// inspecting the target (following links) gave: whether it is a regular
/// file and its size, or why it could not be inspected.
pub fn add_changed_target(total: u64, target: &String, metadata: &Result<(bool, u64), String>) -> (r:
    Result<u64, RehomeError>)
    ensures
        match *metadata {
            Ok((is_file, len)) => if !is_file {
                r matches Err(e) && e.code == ErrorCode::RestoreFailed && e.message@
                    == "restored target is not a regular file"@
            } else if total + len > u64::MAX {
                r matches Err(e) && e.code == ErrorCode::RestoreFailed && e.message@
                    == "restored byte count overflowed"@
            } else {
                r == Ok::<u64, RehomeError>((total + len) as u64)
            },
            Err(m) => r matches Err(e) && e.code == ErrorCode::RestoreFailed && e.message@
                == "could not inspect restored target "@ + target@ + ": "@ + m@,
        },
{
    match metadata {
        Ok((is_file, len)) => {
            if !*is_file {
                return Err(restore_failed("restored target is not a regular file"));
            }
            match total.checked_add(*len) {
                Some(t) => Ok(t),
                None => Err(restore_failed("restored byte count overflowed")),
            }
        },
        Err(m) => {
            let mut message = String::from_str("could not inspect restored target ");
            message.append(target.as_str());
            message.append(": ");
            message.append(m.as_str());
            Err(restore_failed(message.as_str()))
        },
    }
}

/// A restore only starts once the user confirmed that Codex work is saved.
pub fn require_codex_closed(options: &RestoreOptions) -> (r: Result<(), RehomeError>)
    ensures
        match r {
            Ok(()) => options.codex_closed_confirmed,
            Err(e) => !options.codex_closed_confirmed && e.code == ErrorCode::CodexRunning
                && e.message@ == "restore requires confirmation that current Codex work is saved"@,
        },
{
    if !options.codex_closed_confirmed {
        return Err(
            RehomeError::new(
                ErrorCode::CodexRunning,
                "restore requires confirmation that current Codex work is saved",
            ),
        );
    }
    Ok(())
}

/// A package holding forbidden files is never restored.
pub fn require_no_forbidden_files(forbidden_files_total: u64) -> (r: Result<(), RehomeError>)
    ensures
        match r {
            Ok(()) => forbidden_files_total == 0,
            Err(e) => forbidden_files_total > 0 && e.code == ErrorCode::PackageInvalid
                && e.message@ == "restore package contains forbidden files"@,
        },
{
    if forbidden_files_total > 0 {
        return Err(
            RehomeError::new(ErrorCode::PackageInvalid, "restore package contains forbidden files"),
        );
    }
    Ok(())
}

/// The error a failed restore ends with, once the automatic rollback ran:
/// the restore's own error when the rollback succeeded, and otherwise a
/// rollback failure naming both.
pub fn rollback_outcome(error: RehomeError, rollback: Result<(), RehomeError>) -> (r: RehomeError)
    ensures
        match rollback {
            Ok(()) => r == error,
            Err(re) => r.code == ErrorCode::RollbackFailed && r.message@ == "restore failed: "@
                + error.message@ + "; automatic rollback failed: "@ + re.message@,
        },
{
    match rollback {
        Ok(()) => error,
        Err(re) => {
            let mut message = String::from_str("restore failed: ");
            message.append(error.message.as_str());
            message.append("; automatic rollback failed: ");
            message.append(re.message.as_str());
            RehomeError { code: ErrorCode::RollbackFailed, message }
        },
    }
}

} // verus!
