use rehome_core::json::JsonValue;
use rehome_core::models::{ChangeKind, SkillLockEntryV3, SkillLockFileV3};
use rehome_core::skill_lock::{merge_skill_lock, LockMergeResult, TargetLock};
use rehome_core::strmap::StrMap;

fn sample_lock_entry() -> SkillLockEntryV3 {
    SkillLockEntryV3 {
        source: "github".into(),
        source_type: "github".into(),
        source_url: "https://github.com/example/skills".into(),
        git_ref: Some("main".into()),
        skill_path: Some("skills/safe-skill".into()),
        skill_folder_hash: "a".repeat(64),
        installed_at: "2026-08-19T00:00:00Z".into(),
        updated_at: "2026-08-19T00:00:00Z".into(),
        plugin_name: None,
    }
}

fn entries_of(pairs: Vec<(&str, SkillLockEntryV3)>) -> StrMap<SkillLockEntryV3> {
    let mut map = StrMap::new();
    for (key, value) in pairs {
        map.insert(key.to_string(), value);
    }
    map
}

fn decisions_of(pairs: Vec<(&str, ChangeKind)>) -> StrMap<ChangeKind> {
    let mut map = StrMap::new();
    for (key, value) in pairs {
        map.insert(key.to_string(), value);
    }
    map
}

/// Reads target lock bytes the way the restore does before merging: bytes
/// that are not JSON are unparsable; a JSON document is parsed with its
/// version and (here, empty) entries.
fn target_from_bytes(bytes: &[u8]) -> TargetLock {
    match serde_json::from_slice::<serde_json::Value>(bytes) {
        Ok(value) => {
            let version = value.get("version").and_then(|v| v.as_u64());
            match version {
                Some(v) if v <= u32::MAX as u64 => TargetLock::Parsed(SkillLockFileV3 {
                    version: v as u32,
                    skills: StrMap::new(),
                    dismissed: None,
                    last_selected_agents: None,
                }),
                _ => TargetLock::Unparsable,
            }
        }
        Err(_) => TargetLock::Unparsable,
    }
}

#[test]
fn lock_merge_follows_bundle_decisions_and_preserves_target_preferences() {
    let source_entry = sample_lock_entry();
    let package = SkillLockFileV3 {
        version: 3,
        skills: entries_of(vec![
            ("added", source_entry.clone()),
            ("same", source_entry.clone()),
            ("replaced", source_entry.clone()),
        ]),
        dismissed: None,
        last_selected_agents: None,
    };
    let mut existing_entry = source_entry.clone();
    existing_entry.git_ref = Some("target".into());
    let target = SkillLockFileV3 {
        version: 3,
        skills: entries_of(vec![
            ("unrelated", existing_entry.clone()),
            ("same", existing_entry.clone()),
            ("preserved", existing_entry.clone()),
            ("replaced", existing_entry.clone()),
            ("content-only", existing_entry.clone()),
        ]),
        dismissed: Some(JsonValue::Object(vec![("notice".into(), JsonValue::Bool(true))])),
        last_selected_agents: Some(JsonValue::Array(vec![JsonValue::Text("codex".into())])),
    };
    let decisions = decisions_of(vec![
        ("added", ChangeKind::Add),
        ("same", ChangeKind::Unchanged),
        ("preserved", ChangeKind::Preserve),
        ("replaced", ChangeKind::Update),
        ("content-only", ChangeKind::Update),
    ]);

    let LockMergeResult::Write(merged) =
        merge_skill_lock(&package, TargetLock::Parsed(target.clone()), &decisions).unwrap()
    else {
        panic!("merge should write a changed target");
    };
    assert_eq!(merged.dismissed, target.dismissed);
    assert_eq!(merged.last_selected_agents, target.last_selected_agents);
    assert_eq!(merged.skills.get(&"unrelated".to_string()), Some(&existing_entry));
    assert_eq!(
        merged.skills.get(&"same".to_string()).unwrap().git_ref.as_deref(),
        Some("target")
    );
    assert_eq!(
        merged.skills.get(&"preserved".to_string()).unwrap().git_ref.as_deref(),
        Some("target")
    );
    assert_eq!(
        merged.skills.get(&"replaced".to_string()).unwrap().git_ref.as_deref(),
        Some("main")
    );
    assert!(!merged.skills.contains_key(&"content-only".to_string()));
    assert!(merged.skills.contains_key(&"added".to_string()));
}

#[test]
fn malformed_or_unknown_target_lock_is_never_overwritten() {
    let package = SkillLockFileV3 {
        version: 3,
        skills: entries_of(vec![("skill", sample_lock_entry())]),
        dismissed: None,
        last_selected_agents: None,
    };
    let decisions = decisions_of(vec![("skill", ChangeKind::Add)]);
    assert_eq!(
        merge_skill_lock(&package, target_from_bytes(b"not-json"), &decisions).unwrap(),
        LockMergeResult::SkippedInvalidTarget
    );
    let unknown = serde_json::to_vec(&serde_json::Value::Object(
        [
            ("version".to_string(), serde_json::Value::from(4)),
            (
                "skills".to_string(),
                serde_json::Value::Object(serde_json::Map::new()),
            ),
        ]
        .into_iter()
        .collect(),
    ))
    .unwrap();
    assert_eq!(
        merge_skill_lock(&package, target_from_bytes(&unknown), &decisions).unwrap(),
        LockMergeResult::SkippedInvalidTarget
    );
}

#[test]
fn merge_without_target_writes_package_entries_for_added_skills() {
    let package = SkillLockFileV3 {
        version: 3,
        skills: entries_of(vec![("skill", sample_lock_entry())]),
        dismissed: None,
        last_selected_agents: None,
    };
    let decisions = decisions_of(vec![("skill", ChangeKind::Add)]);
    let LockMergeResult::Write(merged) =
        merge_skill_lock(&package, TargetLock::Absent, &decisions).unwrap()
    else {
        panic!("a new lock should be written");
    };
    assert_eq!(merged.version, 3);
    assert_eq!(merged.skills.get(&"skill".to_string()), Some(&sample_lock_entry()));
    assert_eq!(merged.dismissed, None);
}

#[test]
fn merge_without_target_or_entries_is_unchanged() {
    let package = SkillLockFileV3 {
        version: 3,
        skills: entries_of(vec![("skill", sample_lock_entry())]),
        dismissed: None,
        last_selected_agents: None,
    };
    let decisions = decisions_of(vec![("skill", ChangeKind::Preserve)]);
    assert_eq!(
        merge_skill_lock(&package, TargetLock::Absent, &decisions).unwrap(),
        LockMergeResult::Unchanged
    );
}

#[test]
fn merging_the_merged_lock_again_changes_nothing() {
    let package = SkillLockFileV3 {
        version: 3,
        skills: entries_of(vec![("skill", sample_lock_entry())]),
        dismissed: None,
        last_selected_agents: None,
    };
    let decisions = decisions_of(vec![("skill", ChangeKind::Update)]);
    let LockMergeResult::Write(merged) =
        merge_skill_lock(&package, TargetLock::Absent, &decisions).unwrap()
    else {
        panic!("a new lock should be written");
    };
    assert_eq!(
        merge_skill_lock(&package, TargetLock::Parsed(merged), &decisions).unwrap(),
        LockMergeResult::Unchanged
    );
}

#[test]
fn unsanitized_package_lock_is_refused() {
    let mut entry = sample_lock_entry();
    entry.source_url = "https://user@example.com/repo".into();
    let package = SkillLockFileV3 {
        version: 3,
        skills: entries_of(vec![("skill", entry)]),
        dismissed: None,
        last_selected_agents: None,
    };
    let decisions = decisions_of(vec![("skill", ChangeKind::Add)]);
    let error = merge_skill_lock(&package, TargetLock::Absent, &decisions).unwrap_err();
    assert_eq!(error.message, "package Skill lock is not a sanitized v3 document");
}
