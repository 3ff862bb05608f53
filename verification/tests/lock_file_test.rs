use rehome_core::lock_file::{
    lock_read_of_bytes,
    load_lock, lock_status_for, read_supported_lock, LockDocument, LockLoadStatus, LockRead,
    SupportedLock,
};
use rehome_core::json::JsonValue;
use rehome_core::models::{SkillLockEntryV3, SkillLockStatus};

fn sample_lock_entry() -> SkillLockEntryV3 {
    SkillLockEntryV3 {
        source: "github".into(),
        source_type: "github".into(),
        source_url: "https://github.com/example/skills".into(),
        git_ref: Some("main".into()),
        skill_path: Some("skills/safe-skill".into()),
        skill_folder_hash: "a".repeat(64),
        installed_at: "2026-08-19T00:00:00Z".into(),
        updated_at: "2026-08-19T00:00:00Z".into(),
        plugin_name: None,
    }
}

fn document(keys: &[&str], version: Option<u64>) -> LockDocument {
    LockDocument {
        keys: keys.iter().map(|k| k.to_string()).collect(),
        version,
        skills: Some(vec![]),
        dismissed: None,
        last_selected_agents: None,
    }
}

#[test]
fn source_lock_downgrades_only_entries_with_fields_outside_the_v3_allowlist() {
    let doc = LockDocument {
        keys: vec!["version".into(), "skills".into()],
        version: Some(3),
        skills: Some(vec![
            ("safe".to_string(), Some(sample_lock_entry())),
            ("new-field".to_string(), None),
        ]),
        dismissed: None,
        last_selected_agents: None,
    };
    let loaded = load_lock(LockRead::Object(doc));
    assert_eq!(loaded.status, LockLoadStatus::Available);
    let lock = loaded.lock.unwrap();
    assert!(lock.skills.contains_key(&"safe".to_string()));
    assert!(!lock.skills.contains_key(&"new-field".to_string()));
    assert!(loaded
        .warning
        .as_deref()
        .is_some_and(|message| message.contains("Ignored 1")));
}

#[test]
fn missing_lock_is_reported_without_warning() {
    let loaded = load_lock(LockRead::NotFound);
    assert_eq!(loaded.status, LockLoadStatus::Missing);
    assert!(loaded.lock.is_none());
    assert!(loaded.warning.is_none());
    assert_eq!(read_supported_lock(loaded), SupportedLock::Missing);
}

#[test]
fn unreadable_or_malformed_locks_are_invalid() {
    let cases = vec![
        (
            LockRead::ReadFailed("denied".into()),
            "Could not read shared Skills lock: denied",
        ),
        (LockRead::NotJson, "Shared Skills lock is invalid JSON"),
        (LockRead::NotObject, "Shared Skills lock is not a JSON object"),
        (
            LockRead::Object(document(&["version", "skills", "extra"], Some(3))),
            "Shared Skills lock has unsupported top-level fields",
        ),
        (
            LockRead::Object(document(&["version", "skills"], None)),
            "Shared Skills lock has no numeric version",
        ),
        (
            LockRead::Object(LockDocument {
                skills: None,
                ..document(&["version"], Some(3))
            }),
            "Shared Skills lock has no skills object",
        ),
    ];
    for (read, message) in cases {
        let loaded = load_lock(read);
        assert_eq!(loaded.status, LockLoadStatus::Invalid);
        assert!(loaded.lock.is_none());
        assert_eq!(loaded.warning.as_deref(), Some(message));
        assert_eq!(read_supported_lock(loaded), SupportedLock::Unusable);
    }
}

#[test]
fn other_lock_versions_are_unsupported() {
    let loaded = load_lock(LockRead::Object(document(&["version", "skills"], Some(42))));
    assert_eq!(loaded.status, LockLoadStatus::Unsupported);
    assert_eq!(
        loaded.warning.as_deref(),
        Some("Shared Skills lock version 42 is unsupported; only v3 is read")
    );
}

#[test]
fn available_lock_keeps_other_fields_and_counts_many_ignored_entries() {
    let mut entries: Vec<(String, Option<SkillLockEntryV3>)> =
        (0..12).map(|i| (format!("bad-{i}"), None)).collect();
    entries.push(("good".into(), Some(sample_lock_entry())));
    let doc = LockDocument {
        keys: vec![
            "version".into(),
            "skills".into(),
            "dismissed".into(),
            "lastSelectedAgents".into(),
        ],
        version: Some(3),
        skills: Some(entries),
        dismissed: Some(JsonValue::Array(vec![JsonValue::Text("unrelated".into())])),
        last_selected_agents: Some(JsonValue::Array(vec![JsonValue::Text("codex".into())])),
    };
    let loaded = load_lock(LockRead::Object(doc));
    assert_eq!(
        loaded.warning.as_deref(),
        Some("Ignored 12 shared Skill lock entries with unsupported or malformed fields; their content can still migrate")
    );
    let lock = loaded.lock.clone().unwrap();
    assert_eq!(lock.version, 3);
    assert_eq!(lock.skills.len(), 1);
    assert_eq!(
        lock.dismissed,
        Some(JsonValue::Array(vec![JsonValue::Text("unrelated".into())]))
    );
    assert_eq!(
        lock.last_selected_agents,
        Some(JsonValue::Array(vec![JsonValue::Text("codex".into())]))
    );
    assert!(matches!(read_supported_lock(loaded), SupportedLock::Available(_)));
}

#[test]
fn lock_status_follows_the_load_status_and_the_entry() {
    let mut unsafe_entry = sample_lock_entry();
    unsafe_entry.source_url = "https://example.com/repo?token=synthetic".into();
    let doc = LockDocument {
        keys: vec!["version".into(), "skills".into()],
        version: Some(3),
        skills: Some(vec![
            ("safe".to_string(), Some(sample_lock_entry())),
            ("unsafe".to_string(), Some(unsafe_entry)),
        ]),
        dismissed: None,
        last_selected_agents: None,
    };
    let lock = load_lock(LockRead::Object(doc)).lock;
    assert_eq!(
        lock_status_for("safe", &lock, LockLoadStatus::Available),
        SkillLockStatus::Available
    );
    assert_eq!(
        lock_status_for("unsafe", &lock, LockLoadStatus::Available),
        SkillLockStatus::ContentOnly
    );
    assert_eq!(
        lock_status_for("absent", &lock, LockLoadStatus::Available),
        SkillLockStatus::ContentOnly
    );
    assert_eq!(
        lock_status_for("safe", &None, LockLoadStatus::Missing),
        SkillLockStatus::Missing
    );
    assert_eq!(
        lock_status_for("safe", &None, LockLoadStatus::Invalid),
        SkillLockStatus::Invalid
    );
    assert_eq!(
        lock_status_for("safe", &None, LockLoadStatus::Unsupported),
        SkillLockStatus::Unsupported
    );
}

#[test]
fn lock_bytes_read_as_documents() {
    assert_eq!(lock_read_of_bytes(b"not json"), LockRead::NotJson);
    assert_eq!(lock_read_of_bytes(b"[1, 2]"), LockRead::NotObject);
    let bytes = br#"{
        "version": 3,
        "skills": {
            "good": {
                "source": "o/r", "sourceType": "github", "sourceUrl": "https://github.com/o/r",
                "skillFolderHash": "abc", "installedAt": "t1", "updatedAt": "t2",
                "ref": null, "pluginName": "p"
            },
            "extra": {
                "source": "o/r", "sourceType": "github", "sourceUrl": "u",
                "skillFolderHash": "abc", "installedAt": "t1", "updatedAt": "t2", "other": 1
            },
            "listed": ["o/r", "github", "u", null, "skills/x", "abc", "t1", "t2"],
            "short": ["o/r", "github", "u"]
        },
        "dismissed": {"b": [true, null], "a": 1.5}
    }"#;
    let LockRead::Object(doc) = lock_read_of_bytes(bytes) else {
        panic!("an object is a lock document");
    };
    assert_eq!(doc.keys, vec!["dismissed", "skills", "version"]);
    assert_eq!(doc.version, Some(3));
    let skills = doc.skills.clone().unwrap();
    let names: Vec<&str> = skills.iter().map(|(k, _)| k.as_str()).collect();
    assert_eq!(names, vec!["extra", "good", "listed", "short"]);
    assert_eq!(skills[0].1, None);
    let good = skills[1].1.clone().unwrap();
    assert_eq!(good.source_url, "https://github.com/o/r");
    assert_eq!(good.git_ref, None);
    assert_eq!(good.skill_path, None);
    assert_eq!(good.plugin_name.as_deref(), Some("p"));
    let listed = skills[2].1.clone().unwrap();
    assert_eq!(listed.skill_path.as_deref(), Some("skills/x"));
    assert_eq!(listed.plugin_name, None);
    assert_eq!(skills[3].1, None);
    assert_eq!(
        doc.dismissed,
        Some(JsonValue::Object(vec![
            ("a".into(), JsonValue::Number("1.5".into())),
            ("b".into(), JsonValue::Array(vec![JsonValue::Bool(true), JsonValue::Null])),
        ]))
    );
    assert_eq!(doc.last_selected_agents, None);
    let loaded = load_lock(LockRead::Object(doc));
    assert_eq!(loaded.status, LockLoadStatus::Available);
    assert_eq!(loaded.lock.unwrap().skills.len(), 2);
}

#[test]
fn lock_version_must_be_an_unsigned_integer() {
    let LockRead::Object(doc) = lock_read_of_bytes(br#"{"version": -3, "skills": {}}"#) else {
        panic!("an object is a lock document");
    };
    assert_eq!(doc.version, None);
    let LockRead::Object(doc) = lock_read_of_bytes(br#"{"version": 3.0, "skills": []}"#) else {
        panic!("an object is a lock document");
    };
    assert_eq!(doc.version, None);
    assert_eq!(doc.skills, None);
    let LockRead::Object(doc) = lock_read_of_bytes(br#"{"version": 18446744073709551615}"#) else {
        panic!("an object is a lock document");
    };
    assert_eq!(doc.version, Some(u64::MAX));
}
