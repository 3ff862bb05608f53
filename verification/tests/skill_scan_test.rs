use rehome_core::bundle_scan::{BundleScan, SecretScan, SkillFile};
use rehome_core::digest::sha256_hex;
use rehome_core::discovery::{
    resolved_root_is_directory, shared_root_present, tree_root_is_directory,
    blocked_top_level_entry, classify_root_child, linked_skill_entry, manifest_entry_from_scan,
    mark_portable_name_collisions, scan_start, shared_skills_inventory, sort_shared_skill_scans,
    RootChild, ScanStart,
};
use rehome_core::lock_file::{load_lock, lock_status_for, LockDocument, LockLoadStatus, LockRead};
use rehome_core::json::JsonValue;
use rehome_core::models::{SkillLockEntryV3, SkillLockStatus};
use rehome_core::secrets::high_confidence_secret_bytes;
use rehome_core::paths::portable_relative_path;
use rehome_core::shared_skills::{portable_collision_key, shared_skill_content_id};

fn url_uuid(name: &str) -> u128 {
    uuid::Uuid::new_v5(&uuid::Uuid::NAMESPACE_URL, name.as_bytes()).as_u128()
}

#[test]
fn portable_skill_names_and_paths_detect_case_unicode_reserved_and_utf16_collisions() {
    let mut scans = vec![
        blocked_top_level_entry("Foo", "Foo", "first", SkillLockStatus::Missing),
        blocked_top_level_entry("foo", "foo", "second", SkillLockStatus::Missing),
    ];
    mark_portable_name_collisions(&mut scans);
    assert!(scans.iter().all(|scan| scan
        .entry
        .blocked_reason
        .as_deref()
        .is_some_and(|reason| reason.contains("portable Skill-name collision"))));
    assert_eq!(
        portable_collision_key("e\u{301}"),
        portable_collision_key("é")
    );
    assert!(portable_relative_path("CON").is_err());
    assert!(portable_relative_path(&"a".repeat(256)).is_err());
}

#[test]
fn collision_reasons_list_every_colliding_name_and_keep_earlier_reasons() {
    let mut scans = vec![
        blocked_top_level_entry("Foo", "Foo", "first", SkillLockStatus::Missing),
        blocked_top_level_entry("bar", "bar", "second", SkillLockStatus::Missing),
        blocked_top_level_entry("FOO", "FOO", "third", SkillLockStatus::Missing),
    ];
    mark_portable_name_collisions(&mut scans);
    assert_eq!(
        scans[0].entry.blocked_reason.as_deref(),
        Some("first; portable Skill-name collision: Foo, FOO")
    );
    assert_eq!(scans[1].entry.blocked_reason.as_deref(), Some("second"));
    assert_eq!(
        scans[2].entry.blocked_reason.as_deref(),
        Some("third; portable Skill-name collision: Foo, FOO")
    );
}

#[test]
fn content_id_is_the_url_namespace_uuid_of_the_relative_path() {
    assert_eq!(
        shared_skill_content_id("safe-skill"),
        url_uuid("shared_agents:safe-skill")
    );
    assert_ne!(shared_skill_content_id("a"), shared_skill_content_id("b"));
}

#[test]
fn blocked_top_level_entry_has_no_content() {
    let scan = blocked_top_level_entry("/root/x", "x", "why", SkillLockStatus::ContentOnly);
    assert!(scan.files.is_empty());
    assert_eq!(scan.entry.content_id, url_uuid("shared_agents:x"));
    assert_eq!(scan.entry.source_path, "/root/x");
    assert_eq!(scan.entry.relative_path, "x");
    assert_eq!(scan.entry.size_bytes, 0);
    assert_eq!(scan.entry.blocked_reason.as_deref(), Some("why"));
    assert_eq!(scan.entry.lock_status, Some(SkillLockStatus::ContentOnly));
    assert_eq!(scan.entry.tree_hash, None);
}

fn clean_file(scan: &mut BundleScan, rel: &str, source: &str, size: u64) {
    let normalized = scan.record_file(rel, size).expect("file should be scanned");
    scan.record_secret_scan(
        rel,
        SkillFile {
            source_path: source.to_string(),
            relative_path: normalized,
            size_bytes: size,
        },
        SecretScan::Clean,
    );
}

#[test]
fn only_files_that_pass_the_rules_await_their_content_scan() {
    let mut scan = BundleScan::new();
    let normalized = scan.record_file("docs/guide.md", 4).unwrap();
    assert_eq!(normalized, "docs/guide.md");
    let file = SkillFile {
        source_path: "/s/x/docs/guide.md".to_string(),
        relative_path: normalized.clone(),
        size_bytes: 4,
    };
    assert!(scan.awaits("docs/guide.md", &file));
    assert!(!scan.awaits("docs/other.md", &file));
    assert_eq!(scan.record_file(".git/config", 3), None);
    assert!(!scan.awaits("docs/guide.md", &file));
    assert_eq!(scan.record_file("id_rsa", 3), None);
    let other = SkillFile {
        source_path: "/s/x/id_rsa".to_string(),
        relative_path: "id_rsa".to_string(),
        size_bytes: 3,
    };
    assert!(!scan.awaits("id_rsa", &other));
}

#[test]
fn bundle_scan_keeps_excludes_and_blocks_files() {
    let mut scan = BundleScan::new();
    clean_file(&mut scan, "SKILL.md", "/s/safe/SKILL.md", 7);
    assert_eq!(scan.record_file("node_modules/ignored.js", 7), None);
    clean_file(&mut scan, "guide.md", "/s/safe/guide.md", 5);
    let files = scan.sorted_files();
    let names: Vec<&str> = files.iter().map(|f| f.relative_path.as_str()).collect();
    assert_eq!(names, vec!["SKILL.md", "guide.md"]);
    let digests = vec![sha256_hex(b"# Safe\n"), sha256_hex(b"guide")];
    let result = scan
        .finish(
            "/s/safe".to_string(),
            "safe".to_string(),
            "safe".to_string(),
            &digests,
        )
        .unwrap();
    assert_eq!(result.entry.exclusions.excluded_files, 1);
    assert_eq!(result.entry.exclusions.excluded_bytes, 7);
    assert_eq!(
        result.entry.exclusions.rules,
        vec!["dependency, cache, build, or version-control data".to_string()]
    );
    assert_eq!(result.entry.blocked_reason, None);
    assert_eq!(result.entry.size_bytes, 12);
    assert_eq!(result.entry.content_id, url_uuid("shared_agents:safe"));
    assert_eq!(result.files.len(), 2);
    assert_eq!(result.entry.tree_hash.as_deref().map(|h| h.len()), Some(64));
}

#[test]
fn bundle_scan_blocks_credentials_without_their_values() {
    let mut scan = BundleScan::new();
    clean_file(&mut scan, "SKILL.md", "/s/b/SKILL.md", 10);
    let normalized = scan.record_file("notes.txt", 50).unwrap();
    scan.record_secret_scan(
        "notes.txt",
        SkillFile {
            source_path: "/s/b/notes.txt".to_string(),
            relative_path: normalized,
            size_bytes: 50,
        },
        SecretScan::Found,
    );
    assert_eq!(scan.record_file(".env", 16), None);
    scan.record_link("nested-link");
    scan.record_special("events.fifo");
    let digests = vec![sha256_hex(b"# Blocked\n")];
    let result = scan
        .finish("/s/b".to_string(), "b".to_string(), "b".to_string(), &digests)
        .unwrap();
    let reason = result.entry.blocked_reason.unwrap();
    assert_eq!(
        reason,
        "high-confidence credential content: notes.txt; \
         sensitive credential or private-key path: .env; \
         special filesystem entry: events.fifo; \
         symbolic link or reparse point: nested-link"
    );
    assert!(!reason.contains("ghp_"));
    assert_eq!(result.entry.exclusions.excluded_files, 2);
    assert_eq!(result.entry.exclusions.excluded_bytes, 66);
    assert_eq!(
        result.entry.exclusions.rules,
        vec![
            "high-confidence credential content".to_string(),
            "sensitive credential or private-key path".to_string(),
        ]
    );
}

#[test]
fn bundle_scan_reports_collisions_and_unportable_paths() {
    let mut scan = BundleScan::new();
    clean_file(&mut scan, "Guide.md", "/s/c/Guide.md", 1);
    assert_eq!(scan.record_file("guide.md", 1), None);
    assert_eq!(scan.record_file("bad:name.md", 1), None);
    scan.record_directory("aux");
    scan.record_directory("fine");
    scan.record_walk_error("permission denied");
    scan.record_inspect_error("x", "gone");
    scan.record_escape();
    let digests = vec![sha256_hex(b"x")];
    let result = scan
        .finish("/s/c".to_string(), "c".to_string(), "c".to_string(), &digests)
        .unwrap();
    assert_eq!(
        result.entry.blocked_reason.as_deref(),
        Some(
            "Skill entry escapes its bundle root; \
             aux: path is not a portable relative path; \
             bad:name.md: path is not a portable relative path; \
             could not inspect x: gone; \
             could not walk Skill tree: permission denied; \
             portable path collision: Guide.md and guide.md"
        )
    );
}

#[test]
fn bundle_scan_refuses_bad_digests_and_oversized_totals() {
    let mut scan = BundleScan::new();
    clean_file(&mut scan, "a", "/a", 1);
    let error = scan
        .finish("/s".to_string(), "s".to_string(), "s".to_string(), &vec!["zz".to_string()])
        .unwrap_err();
    assert_eq!(error.code, rehome_core::error::ErrorCode::PackageInvalid);

    let mut big = BundleScan::new();
    clean_file(&mut big, "a", "/a", u64::MAX);
    clean_file(&mut big, "b", "/b", 1);
    let digests = vec![sha256_hex(b"a"), sha256_hex(b"b")];
    let error = big
        .finish("/s".to_string(), "s".to_string(), "s".to_string(), &digests)
        .unwrap_err();
    assert_eq!(error.message, "shared Skill size overflowed");
}

#[test]
fn root_children_are_classified() {
    assert_eq!(
        classify_root_child(".system", "/r/.system", false, true, true),
        RootChild::Skip
    );
    assert_eq!(
        classify_root_child("linked", "/r/linked", true, false, false),
        RootChild::Link
    );
    assert_eq!(
        classify_root_child("file.txt", "/r/file.txt", false, false, false),
        RootChild::Ignored("Ignored non-directory entry in shared Skills root: /r/file.txt".into())
    );
    assert_eq!(
        classify_root_child("empty", "/r/empty", false, true, false),
        RootChild::Ignored(
            "Ignored shared Skills directory without top-level SKILL.md: /r/empty".into()
        )
    );
    assert_eq!(
        classify_root_child("skill", "/r/skill", false, true, true),
        RootChild::Skill
    );
    let linked = linked_skill_entry("/r/linked", "linked", SkillLockStatus::Missing);
    assert_eq!(
        linked.entry.blocked_reason.as_deref(),
        Some("top-level Skill is a symbolic link or reparse point")
    );
}

#[test]
fn scan_start_walks_direct_children_only() {
    assert_eq!(
        scan_start("/r/skill", "skill").unwrap(),
        ScanStart::Walk("skill".to_string())
    );
    assert_eq!(
        scan_start("/r/a/b", "a/b").unwrap_err().message,
        "shared Skill bundle must be a direct child of the shared root"
    );
    match scan_start("/r/CON", "CON").unwrap() {
        ScanStart::Blocked(scan) => {
            assert_eq!(
                scan.entry.blocked_reason.as_deref(),
                Some("path is not a portable relative path")
            );
            assert_eq!(scan.entry.lock_status, Some(SkillLockStatus::ContentOnly));
        }
        other => panic!("unexpected start {other:?}"),
    }
}

#[test]
fn inventory_is_sorted_by_name_then_path() {
    let scans = vec![
        blocked_top_level_entry("/r/b", "b", "x", SkillLockStatus::Missing),
        blocked_top_level_entry("/r/a", "a", "x", SkillLockStatus::Missing),
        blocked_top_level_entry("/r/B", "B", "x", SkillLockStatus::Missing),
    ];
    let sorted = sort_shared_skill_scans(scans);
    let inventory =
        shared_skills_inventory(Some("/r".to_string()), sorted, vec!["w".to_string()]);
    let names: Vec<&str> = inventory.entries.iter().map(|e| e.name.as_str()).collect();
    assert_eq!(names, vec!["B", "a", "b"]);
    assert_eq!(inventory.bundle_paths, vec!["/r/B", "/r/a", "/r/b"]);
    assert_eq!(inventory.warnings, vec!["w".to_string()]);
    assert_eq!(inventory.canonical_root.as_deref(), Some("/r"));
}

#[test]
fn manifest_entries_come_only_from_unblocked_scans() {
    let blocked = blocked_top_level_entry("/r/x", "x", "bad", SkillLockStatus::Missing);
    assert_eq!(
        manifest_entry_from_scan(&blocked, None).unwrap_err().message,
        "shared Skill x is blocked: bad"
    );
    let mut scan = BundleScan::new();
    clean_file(&mut scan, "SKILL.md", "/r/ok/SKILL.md", 3);
    let finished = scan
        .finish(
            "/r/ok".to_string(),
            "ok".to_string(),
            "ok".to_string(),
            &vec![sha256_hex(b"abc")],
        )
        .unwrap();
    let entry = manifest_entry_from_scan(&finished, Some("ok".to_string())).unwrap();
    assert_eq!(entry.archive_root, "agents/skills/ok");
    assert_eq!(entry.file_count, 1);
    assert_eq!(entry.content_bytes, 3);
    assert_eq!(Some(entry.tree_hash), finished.entry.tree_hash);
    assert_eq!(entry.lock_key.as_deref(), Some("ok"));
}

/// Scans one Skill whose files are given with their content, the way the
/// directory walk reports them (in file-name order).
fn scan_skill(
    name: &str,
    files: &[(&str, Vec<u8>)],
    lock: &Option<rehome_core::models::SkillLockFileV3>,
) -> rehome_core::bundle_scan::SharedSkillScan {
    let mut scan = BundleScan::new();
    let mut contents = std::collections::BTreeMap::new();
    for (rel, body) in files {
        let source = format!("/home/.agents/skills/{name}/{rel}");
        contents.insert(source.clone(), body.clone());
        if let Some(normalized) = scan.record_file(rel, body.len() as u64) {
            let outcome = if high_confidence_secret_bytes(body) {
                SecretScan::Found
            } else {
                SecretScan::Clean
            };
            scan.record_secret_scan(
                rel,
                SkillFile {
                    source_path: source,
                    relative_path: normalized,
                    size_bytes: body.len() as u64,
                },
                outcome,
            );
        }
    }
    let digests: Vec<String> = scan
        .sorted_files()
        .iter()
        .map(|file| sha256_hex(&contents[&file.source_path]))
        .collect();
    let mut result = scan
        .finish(
            format!("/home/.agents/skills/{name}"),
            name.to_string(),
            name.to_string(),
            &digests,
        )
        .unwrap();
    result.entry.lock_status = Some(lock_status_for(name, lock, LockLoadStatus::Available));
    result
}

#[test]
fn discovery_reports_exclusions_sensitive_files_and_lock_status_without_values() {
    let entry = SkillLockEntryV3 {
        source: "github".into(),
        source_type: "github".into(),
        source_url: "https://github.com/example/skills".into(),
        git_ref: Some("main".into()),
        skill_path: Some("skills/safe-skill".into()),
        skill_folder_hash: "a".repeat(64),
        installed_at: "2026-08-19T00:00:00Z".into(),
        updated_at: "2026-08-19T00:00:00Z".into(),
        plugin_name: None,
    };
    let lock = load_lock(LockRead::Object(LockDocument {
        keys: vec![
            "version".into(),
            "skills".into(),
            "dismissed".into(),
            "lastSelectedAgents".into(),
        ],
        version: Some(3),
        skills: Some(vec![("safe-skill".into(), Some(entry))]),
        dismissed: Some(JsonValue::Array(vec![JsonValue::Text("unrelated".into())])),
        last_selected_agents: Some(JsonValue::Array(vec![JsonValue::Text("codex".into())])),
    }))
    .lock;

    let safe = scan_skill(
        "safe-skill",
        &[
            ("SKILL.md", b"# Safe\n".to_vec()),
            ("guide.md", b"guide".to_vec()),
            ("node_modules/ignored.js", b"ignored".to_vec()),
        ],
        &lock,
    );
    assert_eq!(safe.entry.lock_status, Some(SkillLockStatus::Available));
    assert_eq!(safe.entry.exclusions.excluded_files, 1);
    assert!(safe.entry.blocked_reason.is_none());
    assert!(safe.entry.tree_hash.is_some());

    let fake_secret = format!("TOKEN=ghp_{}", "x".repeat(40));
    let mut large_secret = vec![b'a'; 64 * 1024 * 17];
    large_secret.extend_from_slice(format!("\ngithub_pat_{}\n", "z".repeat(48)).as_bytes());
    let blocked = scan_skill(
        "blocked-skill",
        &[
            (".env", b"SYNTHETIC_ONLY=1".to_vec()),
            ("SKILL.md", b"# Blocked\n".to_vec()),
            ("large-notes.txt", large_secret),
            ("notes.txt", fake_secret.into_bytes()),
        ],
        &lock,
    );
    let reason = blocked.entry.blocked_reason.as_deref().unwrap();
    assert!(reason.contains("high-confidence credential content"));
    assert!(reason.contains("sensitive credential or private-key path"));
    assert!(!reason.contains("ghp_"));
    assert_eq!(blocked.entry.lock_status, Some(SkillLockStatus::ContentOnly));
    assert_eq!(blocked.entry.exclusions.excluded_files, 3);
}

#[test]
fn tree_hashes_come_only_from_unblocked_scans() {
    let blocked = blocked_top_level_entry("/r/x", "x", "bad", SkillLockStatus::Missing);
    assert_eq!(
        rehome_core::discovery::tree_hash_of_scan(&blocked).unwrap_err().message,
        "Skill tree contains blocked entries"
    );
    let mut scan = BundleScan::new();
    clean_file(&mut scan, "SKILL.md", "/r/ok/SKILL.md", 3);
    let finished = scan
        .finish("/r/ok".into(), "ok".into(), "ok".into(), &vec![sha256_hex(b"abc")])
        .unwrap();
    assert_eq!(
        Some(rehome_core::discovery::tree_hash_of_scan(&finished).unwrap()),
        finished.entry.tree_hash
    );
}

#[test]
fn roots_must_be_directories() {
    assert_eq!(shared_root_present(&None).unwrap(), false);
    assert_eq!(shared_root_present(&Some(Ok((true, false)))).unwrap(), true);
    assert_eq!(shared_root_present(&Some(Ok((false, true)))).unwrap(), true);
    assert_eq!(
        shared_root_present(&Some(Ok((false, false)))).unwrap_err().message,
        "shared Skills root is not a directory or directory symlink"
    );
    assert_eq!(
        shared_root_present(&Some(Err("denied".into()))).unwrap_err().message,
        "could not inspect shared Skills root: denied"
    );
    assert!(resolved_root_is_directory(&Ok((false, true))).is_ok());
    assert_eq!(
        resolved_root_is_directory(&Ok((true, true))).unwrap_err().message,
        "resolved shared Skills root is not a real directory"
    );
    assert_eq!(
        tree_root_is_directory(&Err("gone".into())).unwrap_err().message,
        "could not inspect Skill tree: gone"
    );
    assert_eq!(
        tree_root_is_directory(&Ok((false, false))).unwrap_err().message,
        "Skill tree root is not a real directory"
    );
}
