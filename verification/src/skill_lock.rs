//! Merging a package's Skill lock entries into the target's lock file.
//!
//! Each shared Skill the restore plan decides on carries its lock entry along
//! with the decision: a replaced or added Skill takes the package's entry (or
//! loses its entry when the package has none), an unchanged Skill gains the
//! package's entry only when the target has none, and a preserved or
//! conflicting Skill keeps the target's. Entries of Skills the plan does not
//! touch, and the target's other fields, stay as they are. A target lock that
//! cannot be read as a v3 document is never rewritten.
use vstd::prelude::*;
use crate::error::{ErrorCode, RehomeError};
use crate::lock_sanitize::{is_safe_lock_entry, sanitize_lock_entry};
use crate::models::{opt_view, ChangeKind, LockEntryView, SkillLockEntryV3, SkillLockFileV3};
use crate::strmap::{
    keys_distinct, lemma_pairs_map, lemma_pairs_map_full, lemma_pairs_map_prefix, pairs_map,
    StrMap,
};

verus! {

/// The target's lock file, as read before the merge.
#[derive(Debug, Clone, PartialEq)]
pub enum TargetLock {
    /// There is no target lock file.
    Absent,
    /// The target file is not a lock document this crate reads.
    Unparsable,
    /// The target file read as a lock document.
    Parsed(SkillLockFileV3),
}

/// What the merge asks the caller to do with the target lock file.
#[derive(Debug, Clone, PartialEq)]
pub enum LockMergeResult {
    /// Write this lock document.
    Write(SkillLockFileV3),
    /// Leave the target as it is: the merge changes nothing.
    Unchanged,
    /// Leave the target as it is: it is not a v3 lock document.
    SkippedInvalidTarget,
}

/// A package lock the merge accepts: version 3, every entry safe to carry.
pub open spec fn is_sanitized_v3(lock: SkillLockFileV3) -> bool {
    &&& lock.version == 3
    &&& forall|k: Seq<char>| #[trigger]
        lock.skills@.contains_key(k) ==> is_safe_lock_entry(lock.skills@[k])
}

/// The entry a map holds for `k`, if any.
pub open spec fn entry_for(m: Map<Seq<char>, LockEntryView>, k: Seq<char>) -> Option<
    LockEntryView,
> {
    if m.contains_key(k) {
        Some(m[k])
    } else {
        None
    }
}

/// The merged entry for `k`, from the target's entries `orig`, the package's
/// entries `pkg` and the bundle decisions.
pub open spec fn merged_entry(
    orig: Map<Seq<char>, LockEntryView>,
    pkg: Map<Seq<char>, LockEntryView>,
    decisions: Map<Seq<char>, ChangeKind>,
    k: Seq<char>,
) -> Option<LockEntryView> {
    if decisions.contains_key(k) {
        match decisions[k] {
            ChangeKind::Add | ChangeKind::Update => entry_for(pkg, k),
            ChangeKind::Unchanged => if orig.contains_key(k) {
                entry_for(orig, k)
            } else {
                entry_for(pkg, k)
            },
            ChangeKind::Preserve | ChangeKind::Conflict => entry_for(orig, k),
        }
    } else {
        entry_for(orig, k)
    }
}

/// The merged entries.
pub open spec fn merged_skills(
    orig: Map<Seq<char>, LockEntryView>,
    pkg: Map<Seq<char>, LockEntryView>,
    decisions: Map<Seq<char>, ChangeKind>,
) -> Map<Seq<char>, LockEntryView> {
    Map::new(
        |k: Seq<char>| merged_entry(orig, pkg, decisions, k) is Some,
        |k: Seq<char>| merged_entry(orig, pkg, decisions, k)->0,
    )
}

/// Some decided key ends up with an entry other than the target's.
pub open spec fn merge_changes(
    orig: Map<Seq<char>, LockEntryView>,
    pkg: Map<Seq<char>, LockEntryView>,
    decisions: Map<Seq<char>, ChangeKind>,
) -> bool {
    exists|k: Seq<char>|
        #[trigger] decisions.contains_key(k) && merged_entry(orig, pkg, decisions, k) != entry_for(
            orig,
            k,
        )
}

/// The target entries a merge starts from: none when there is no target.
pub open spec fn target_skills(target: TargetLock) -> Map<Seq<char>, LockEntryView> {
    match target {
        TargetLock::Parsed(t) => t.skills@,
        _ => Map::empty(),
    }
}

/// Deciding one more key changes the merged entries only at that key.
proof fn lemma_merge_step(
    orig: Map<Seq<char>, LockEntryView>,
    pkg: Map<Seq<char>, LockEntryView>,
    dm: Map<Seq<char>, ChangeKind>,
    k: Seq<char>,
    d: ChangeKind,
)
    requires
        !dm.contains_key(k),
    ensures
        forall|q: Seq<char>|
            q != k ==> #[trigger] merged_entry(orig, pkg, dm.insert(k, d), q) == merged_entry(
                orig,
                pkg,
                dm,
                q,
            ),
        merged_entry(orig, pkg, dm, k) == entry_for(orig, k),
        merged_skills(orig, pkg, dm.insert(k, d)) == (match merged_entry(
            orig,
            pkg,
            dm.insert(k, d),
            k,
        ) {
            Some(e) => merged_skills(orig, pkg, dm).insert(k, e),
            None => merged_skills(orig, pkg, dm).remove(k),
        }),
        merge_changes(orig, pkg, dm.insert(k, d)) == (merge_changes(orig, pkg, dm) || merged_entry(
            orig,
            pkg,
            dm.insert(k, d),
            k,
        ) != entry_for(orig, k)),
{
    let dm2 = dm.insert(k, d);
    let after = merged_skills(orig, pkg, dm2);
    let target = match merged_entry(orig, pkg, dm2, k) {
        Some(e) => merged_skills(orig, pkg, dm).insert(k, e),
        None => merged_skills(orig, pkg, dm).remove(k),
    };
    assert forall|q: Seq<char>| q != k implies #[trigger] merged_entry(orig, pkg, dm2, q)
        == merged_entry(orig, pkg, dm, q) by {
        assert(dm2.contains_key(q) == dm.contains_key(q));
    }
    assert(after =~= target) by {
        assert forall|q: Seq<char>| #[trigger] after.contains_key(q) == target.contains_key(q) by {
            if q != k {
                assert(merged_entry(orig, pkg, dm2, q) == merged_entry(orig, pkg, dm, q));
            }
        }
        assert forall|q: Seq<char>| #[trigger] after.contains_key(q) implies after[q] == target[q] by {
            if q != k {
                assert(merged_entry(orig, pkg, dm2, q) == merged_entry(orig, pkg, dm, q));
            }
        }
    }
    if merge_changes(orig, pkg, dm2) {
        let q = choose|q: Seq<char>|
            #[trigger] dm2.contains_key(q) && merged_entry(orig, pkg, dm2, q) != entry_for(orig, q);
        if q != k {
            assert(dm.contains_key(q));
            assert(merged_entry(orig, pkg, dm2, q) == merged_entry(orig, pkg, dm, q));
        }
    }
    if merge_changes(orig, pkg, dm) {
        let q = choose|q: Seq<char>|
            #[trigger] dm.contains_key(q) && merged_entry(orig, pkg, dm, q) != entry_for(orig, q);
        assert(q != k);
        assert(merged_entry(orig, pkg, dm2, q) == merged_entry(orig, pkg, dm, q));
        assert(dm2.contains_key(q));
    }
    if merged_entry(orig, pkg, dm2, k) != entry_for(orig, k) {
        assert(dm2.contains_key(k));
    }
}

/// Without decisions the merge keeps the target's entries.
proof fn lemma_merge_none(orig: Map<Seq<char>, LockEntryView>, pkg: Map<Seq<char>, LockEntryView>)
    ensures
        merged_skills(orig, pkg, Map::empty()) == orig,
        !merge_changes(orig, pkg, Map::empty()),
{
    assert(merged_skills(orig, pkg, Map::empty()) =~= orig);
}

/// Nothing changes exactly when the merged entries are the target's.
proof fn lemma_changes_iff(
    orig: Map<Seq<char>, LockEntryView>,
    pkg: Map<Seq<char>, LockEntryView>,
    dm: Map<Seq<char>, ChangeKind>,
)
    ensures
        merge_changes(orig, pkg, dm) <==> merged_skills(orig, pkg, dm) != orig,
{
    let m = merged_skills(orig, pkg, dm);
    if merge_changes(orig, pkg, dm) {
        let q = choose|q: Seq<char>|
            #[trigger] dm.contains_key(q) && merged_entry(orig, pkg, dm, q) != entry_for(orig, q);
        if m == orig {
            assert(entry_for(m, q) == merged_entry(orig, pkg, dm, q));
        }
    } else {
        assert(m =~= orig) by {
            assert forall|q: Seq<char>| #[trigger] m.contains_key(q) == orig.contains_key(q) by {
                if dm.contains_key(q) {
                    assert(merged_entry(orig, pkg, dm, q) == entry_for(orig, q));
                }
            }
            assert forall|q: Seq<char>| #[trigger] m.contains_key(q) implies m[q] == orig[q] by {
                if dm.contains_key(q) {
                    assert(merged_entry(orig, pkg, dm, q) == entry_for(orig, q));
                }
            }
        }
    }
}

fn opt_string_equal(a: &Option<String>, b: &Option<String>) -> (r: bool)
    ensures
        r == (opt_view(*a) == opt_view(*b)),
{
    match (a, b) {
        (Some(x), Some(y)) => *x == *y,
        (None, None) => true,
        _ => false,
    }
}

/// Whether two lock entries have the same text in every field.
pub fn entries_equal(a: &SkillLockEntryV3, b: &SkillLockEntryV3) -> (r: bool)
    ensures
        r == (a@ == b@),
{
    a.source == b.source && a.source_type == b.source_type && a.source_url == b.source_url
        && opt_string_equal(&a.git_ref, &b.git_ref) && opt_string_equal(
        &a.skill_path,
        &b.skill_path,
    ) && a.skill_folder_hash == b.skill_folder_hash && a.installed_at == b.installed_at
        && a.updated_at == b.updated_at && opt_string_equal(&a.plugin_name, &b.plugin_name)
}

/// Whether every entry of a well-formed package lock is safe to carry and the
/// lock is version 3.
fn package_is_sanitized(lock: &SkillLockFileV3) -> (r: bool)
    requires
        lock.skills.wf(),
    ensures
        r == is_sanitized_v3(*lock),
{
    if lock.version != 3 {
        return false;
    }
    let ghost pairs = lock.skills.pairs();
    proof {
        lock.skills.lemma_view();
        lemma_pairs_map(pairs);
    }
    let n = lock.skills.len();
    let mut i: usize = 0;
    while i < n
        invariant
            n == pairs.len(),
            pairs == lock.skills.pairs(),
            keys_distinct(pairs),
            lock.skills@ == pairs_map(pairs),
            forall|j: int| #![trigger pairs[j]] 0 <= j < pairs.len() ==> pairs_map(pairs)[pairs[j].0@]
                == pairs[j].1@,
            forall|j: int| #![trigger pairs[j]] 0 <= j < pairs.len() ==> pairs_map(pairs).contains_key(
                pairs[j].0@,
            ),
            i <= n,
            forall|j: int| 0 <= j < i ==> is_safe_lock_entry(#[trigger] pairs[j].1@),
        decreases n - i,
    {
        let (_, entry) = lock.skills.entry_at(i);
        if sanitize_lock_entry(entry).is_none() {
            proof {
                assert(lock.skills@.contains_key(pairs[i as int].0@));
                assert(lock.skills@[pairs[i as int].0@] == pairs[i as int].1@);
            }
            return false;
        }
        i = i + 1;
    }
    proof {
        assert forall|k: Seq<char>| #[trigger] lock.skills@.contains_key(k) implies is_safe_lock_entry(
            lock.skills@[k],
        ) by {
            let j = choose|j: int| crate::strmap::has_key_at(pairs, k, j);
            assert(pairs_map(pairs)[pairs[j].0@] == pairs[j].1@);
        }
    }
    true
}

/// Merges the package's lock entries into the target lock according to the
/// bundle decisions (keyed by Skill name).
///
/// Fails when the package lock is not a sanitized v3 document. Otherwise a
/// target that is unreadable or not version 3 is skipped; a merge that leaves
/// the target's entries as they were (or, without a target, produces no
/// entry) is reported unchanged; and any other merge yields the document to
/// write: version 3, the merged entries, and the target's other fields.
pub fn merge_skill_lock(
    package_lock: &SkillLockFileV3,
    target: TargetLock,
    bundle_decisions: &StrMap<ChangeKind>,
) -> (r: Result<LockMergeResult, RehomeError>)
    requires
        package_lock.skills.wf(),
        bundle_decisions.wf(),
        target matches TargetLock::Parsed(t) ==> t.skills.wf(),
    ensures
        !is_sanitized_v3(*package_lock) ==> (r matches Err(e) && e.code == ErrorCode::PackageInvalid
            && e.message@ == "package Skill lock is not a sanitized v3 document"@),
        is_sanitized_v3(*package_lock) ==> match target {
            TargetLock::Unparsable => r matches Ok(LockMergeResult::SkippedInvalidTarget),
            TargetLock::Parsed(t) => {
                let m = merged_skills(t.skills@, package_lock.skills@, bundle_decisions@);
                if t.version != 3 {
                    r matches Ok(LockMergeResult::SkippedInvalidTarget)
                } else if m == t.skills@ {
                    r matches Ok(LockMergeResult::Unchanged)
                } else {
                    r matches Ok(LockMergeResult::Write(w)) && w.version == 3 && w.skills.wf()
                        && w.skills@ == m && w.dismissed == t.dismissed && w.last_selected_agents
                        == t.last_selected_agents
                }
            },
            TargetLock::Absent => {
                let m = merged_skills(Map::empty(), package_lock.skills@, bundle_decisions@);
                if m == Map::<Seq<char>, LockEntryView>::empty() {
                    r matches Ok(LockMergeResult::Unchanged)
                } else {
                    r matches Ok(LockMergeResult::Write(w)) && w.version == 3 && w.skills.wf()
                        && w.skills@ == m && w.dismissed is None && w.last_selected_agents is None
                }
            },
        },
{
    if !package_is_sanitized(package_lock) {
        return Err(
            RehomeError::new(
                ErrorCode::PackageInvalid,
                "package Skill lock is not a sanitized v3 document",
            ),
        );
    }
    let ghost orig = target_skills(target);
    let ghost pkg = package_lock.skills@;
    let ghost dec = bundle_decisions@;
    let (mut merged, dismissed, last_selected_agents, had_target) = match target {
        TargetLock::Unparsable => return Ok(LockMergeResult::SkippedInvalidTarget),
        TargetLock::Parsed(t) => {
            if t.version != 3 {
                return Ok(LockMergeResult::SkippedInvalidTarget);
            }
            (t.skills, t.dismissed, t.last_selected_agents, true)
        },
        TargetLock::Absent => (StrMap::new(), None, None, false),
    };
    let ghost dpairs = bundle_decisions.pairs();
    proof {
        bundle_decisions.lemma_view();
        lemma_pairs_map_full(dpairs);
        lemma_merge_none(orig, pkg);
    }
    let n = bundle_decisions.len();
    let mut changed = false;
    let mut i: usize = 0;
    while i < n
        invariant
            n == dpairs.len(),
            dpairs == bundle_decisions.pairs(),
            bundle_decisions.wf(),
            package_lock.skills.wf(),
            pkg == package_lock.skills@,
            merged.wf(),
            i <= n,
            merged@ == merged_skills(orig, pkg, pairs_map(dpairs.take(i as int))),
            changed == merge_changes(orig, pkg, pairs_map(dpairs.take(i as int))),
        decreases n - i,
    {
        let (key, decision) = bundle_decisions.entry_at(i);
        let ghost dm = pairs_map(dpairs.take(i as int));
        let ghost k = key@;
        proof {
            lemma_pairs_map_prefix(dpairs, i as int);
            lemma_merge_step(orig, pkg, dm, k, *decision);
        }
        let ghost before = merged@;
        assert(entry_for(before, k) == entry_for(orig, k));
        match *decision {
            ChangeKind::Add | ChangeKind::Update => {
                match package_lock.skills.get(key) {
                    Some(source) => {
                        let same = match merged.get(key) {
                            Some(existing) => entries_equal(existing, source),
                            None => false,
                        };
                        if !same {
                            changed = true;
                        }
                        merged.insert(key.clone(), source.copy());
                    },
                    None => {
                        if merged.contains_key(key) {
                            changed = true;
                        }
                        merged.remove(key);
                    },
                }
            },
            ChangeKind::Unchanged => {
                if !merged.contains_key(key) {
                    match package_lock.skills.get(key) {
                        Some(source) => {
                            changed = true;
                            merged.insert(key.clone(), source.copy());
                        },
                        None => {},
                    }
                }
            },
            ChangeKind::Preserve | ChangeKind::Conflict => {},
        }
        proof {
            let dm2 = pairs_map(dpairs.take(i + 1));
            assert(dm2 == dm.insert(k, *decision));
            assert(merged@ =~= merged_skills(orig, pkg, dm2));
        }
        i = i + 1;
    }
    proof {
        lemma_changes_iff(orig, pkg, dec);
    }
    if had_target {
        if !changed {
            return Ok(LockMergeResult::Unchanged);
        }
    } else if merged.is_empty() {
        return Ok(LockMergeResult::Unchanged);
    }
    Ok(
        LockMergeResult::Write(
            SkillLockFileV3 { version: 3, skills: merged, dismissed, last_selected_agents },
        ),
    )
}


/// A Skill the restore plan does not decide on keeps the target's lock entry
/// (or its absence).
pub proof fn law_undecided_entries_untouched(
    orig: Map<Seq<char>, LockEntryView>,
    pkg: Map<Seq<char>, LockEntryView>,
    decisions: Map<Seq<char>, ChangeKind>,
    k: Seq<char>,
)
    requires
        !decisions.contains_key(k),
    ensures
        entry_for(merged_skills(orig, pkg, decisions), k) == entry_for(orig, k),
{
}

/// A preserved or conflicting Skill keeps the target's lock entry (or its
/// absence).
pub proof fn law_kept_skills_keep_target_entry(
    orig: Map<Seq<char>, LockEntryView>,
    pkg: Map<Seq<char>, LockEntryView>,
    decisions: Map<Seq<char>, ChangeKind>,
    k: Seq<char>,
)
    requires
        decisions.contains_key(k),
        decisions[k] == ChangeKind::Preserve || decisions[k] == ChangeKind::Conflict,
    ensures
        entry_for(merged_skills(orig, pkg, decisions), k) == entry_for(orig, k),
{
}

/// An added or replaced Skill carries the package's lock entry, and loses the
/// target's entry when the package has none.
pub proof fn law_replaced_skills_take_package_entry(
    orig: Map<Seq<char>, LockEntryView>,
    pkg: Map<Seq<char>, LockEntryView>,
    decisions: Map<Seq<char>, ChangeKind>,
    k: Seq<char>,
)
    requires
        decisions.contains_key(k),
        decisions[k] == ChangeKind::Add || decisions[k] == ChangeKind::Update,
    ensures
        entry_for(merged_skills(orig, pkg, decisions), k) == entry_for(pkg, k),
{
}

/// An unchanged Skill keeps the target's entry when there is one, and
/// otherwise gains the package's.
pub proof fn law_unchanged_skills_fill_missing_entry(
    orig: Map<Seq<char>, LockEntryView>,
    pkg: Map<Seq<char>, LockEntryView>,
    decisions: Map<Seq<char>, ChangeKind>,
    k: Seq<char>,
)
    requires
        decisions.contains_key(k),
        decisions[k] == ChangeKind::Unchanged,
    ensures
        orig.contains_key(k) ==> entry_for(merged_skills(orig, pkg, decisions), k) == entry_for(
            orig,
            k,
        ),
        !orig.contains_key(k) ==> entry_for(merged_skills(orig, pkg, decisions), k) == entry_for(
            pkg,
            k,
        ),
{
}

/// Merging the same package entries with the same decisions into an already
/// merged lock changes nothing: a repeated restore leaves the lock as it is.
pub proof fn law_merge_is_idempotent(
    orig: Map<Seq<char>, LockEntryView>,
    pkg: Map<Seq<char>, LockEntryView>,
    decisions: Map<Seq<char>, ChangeKind>,
)
    ensures
        merged_skills(merged_skills(orig, pkg, decisions), pkg, decisions) == merged_skills(
            orig,
            pkg,
            decisions,
        ),
{
    let m = merged_skills(orig, pkg, decisions);
    let m2 = merged_skills(m, pkg, decisions);
    assert forall|k: Seq<char>| merged_entry(m, pkg, decisions, k) == merged_entry(
        orig,
        pkg,
        decisions,
        k,
    ) by {
        assert(entry_for(m, k) == merged_entry(orig, pkg, decisions, k));
    }
    assert(m2 =~= m) by {
        assert forall|k: Seq<char>| #[trigger] m2.contains_key(k) == m.contains_key(k) by {
            assert(merged_entry(m, pkg, decisions, k) == merged_entry(orig, pkg, decisions, k));
        }
        assert forall|k: Seq<char>| #[trigger] m2.contains_key(k) implies m2[k] == m[k] by {
            assert(merged_entry(m, pkg, decisions, k) == merged_entry(orig, pkg, decisions, k));
        }
    }
}

} // verus!
