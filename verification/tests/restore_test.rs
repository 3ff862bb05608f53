use rehome_core::digest::sha256_hex;
use rehome_core::error::ErrorCode;
use rehome_core::models::{
    BridgeVerificationRequirements, ChangeKind, ExclusionSummary, OperationKind, PlannedOperation,
    PlannedSession, ProjectRegistration, ReferenceRewrite, ReferenceRewriteKind,
    RegistrationStatus, RestorePlan, RestoreRootKind, SessionAction, SharedSkillEntry,
    SkillLockFileV3, SkillRootKind, VerificationReport, VerificationStatus,
};
use rehome_core::restore::{
    data_verification_passed, is_bridge_operation, skill_lock_check, skill_lock_hash_status,
    path_is_within, validate_package_identity, validate_plan, SkillLockCheck, SESSION_INDEX_SOURCE,
    THREAD_METADATA_SOURCE,
};
use rehome_core::restore_apply::{
    add_changed_target, add_restored, bridge_failure, bridge_written_operations,
    bundle_lock_file_name, bundle_manifest_index, bundle_target_swap, check_bundle_target_hash,
    check_final_lock_hash, check_staged_bundle, count_staged_file, lock_target_read,
    operation_root, regular_apply_order, skill_lock_decisions, staged_payload_path,
    verification_failure, writable_merge, BundleSwap, TargetState,
};
use rehome_core::restore_verify::{
    index_rows_from_text, jsonl_values,
    bridge_verification, hash_matches, json_contains_string, operations_with_kind,
    package_still_valid, plain_file_check, preserved_target_check, project_file_check,
    restored_bundle_check, restored_bundle_present, restored_marker_present,
    session_project_paths, uuid_text, verification_report, with_registrations, BundleCheck,
    BridgeVerification, FileCheck, IndexRow, PreservedCheck, ThreadRow,
};
use rehome_core::models::{RestoreOptions, SourceOs};
use rehome_core::restore_apply::{require_codex_closed, require_no_forbidden_files, rollback_outcome};
use rehome_core::skill_lock::LockMergeResult;
use rehome_core::json::JsonValue;
use rehome_core::strmap::StrMap;

fn op(source: &str, target: &str, action: ChangeKind, kind: OperationKind) -> PlannedOperation {
    PlannedOperation {
        package_source: source.to_string(),
        target: target.to_string(),
        expected_previous_hash: None,
        action,
        rollback_required: false,
        root_kind: RestoreRootKind::CodexHome,
        operation_kind: kind,
        content_id: None,
        expected_final_hash: None,
    }
}

fn plan() -> RestorePlan {
    RestorePlan {
        plan_id: 1,
        package_path: "/home/u/pkg.rehome".into(),
        package_id: 7,
        archive_hash: "ABCDEF".into(),
        target_codex_home: "/home/u/.codex".into(),
        projects_root: "/home/u/projects".into(),
        target_agents_skills_root: "/home/u/.agents/skills".into(),
        target_skill_lock_path: "/home/u/.agents/.skill-lock.json".into(),
        operations: vec![],
        sessions: vec![],
        reference_rewrites: vec![],
        bridge_verification: BridgeVerificationRequirements::default(),
        conflict_count: 0,
        required_bytes: 0,
    }
}

fn report(all: bool) -> VerificationReport {
    VerificationReport {
        package_checksum_valid: all,
        files_valid: true,
        sessions_valid: true,
        session_index_valid: true,
        sqlite_threads_valid: true,
        path_mapping_valid: true,
        forbidden_files_absent: true,
        project_files_valid: true,
        app_registration_valid: false,
        app_visible_ready: false,
        shared_skill_files_valid: true,
        codex_skill_discovery: VerificationStatus::NotRun,
        skill_lock_merge: VerificationStatus::Skipped,
        functional_sampling: VerificationStatus::NotRun,
    }
}

fn skill(id: u128, root: &str) -> SharedSkillEntry {
    SharedSkillEntry {
        content_id: id,
        name: root.rsplit('/').next().unwrap().to_string(),
        root_kind: SkillRootKind::SharedAgents,
        relative_path: root.rsplit('/').next().unwrap().to_string(),
        archive_root: root.to_string(),
        file_count: 2,
        content_bytes: 10,
        tree_hash: "aa".into(),
        exclusions: ExclusionSummary::default(),
        lock_key: None,
    }
}

#[test]
fn plan_validation_rejects_relative_conflicting_and_overlapping_roots() {
    assert!(validate_plan(&plan(), SourceOs::Macos).is_ok());
    let mut relative = plan();
    relative.projects_root = "projects".into();
    let error = validate_plan(&relative, SourceOs::Macos).unwrap_err();
    assert_eq!(error.message, "restore plan paths must be absolute");
    let mut conflict = plan();
    conflict.operations.push(op("a", "/home/u/.codex/a", ChangeKind::Conflict, OperationKind::File));
    let error = validate_plan(&conflict, SourceOs::Macos).unwrap_err();
    assert_eq!(error.code, ErrorCode::ProjectConflict);
    let mut overlap = plan();
    overlap.projects_root = "/home/u/.codex/projects".into();
    let error = validate_plan(&overlap, SourceOs::Macos).unwrap_err();
    assert_eq!(error.message, "restore roots must not overlap");
}

#[test]
fn plan_roots_are_judged_absolute_by_the_host_system() {
    let unix = plan();
    assert!(validate_plan(&unix, SourceOs::Macos).is_ok());
    let error = validate_plan(&unix, SourceOs::Windows).unwrap_err();
    assert_eq!(error.message, "restore plan paths must be absolute");
    let mut windows = plan();
    windows.package_path = "C:\\Users\\u\\pkg.zip".into();
    windows.target_codex_home = "C:\\Users\\u\\.codex".into();
    windows.projects_root = "C:/Users/u/projects".into();
    windows.target_agents_skills_root = "\\\\server\\share\\skills".into();
    windows.target_skill_lock_path = "C:\\Users\\u\\.agents\\.skill-lock.json".into();
    assert!(validate_plan(&windows, SourceOs::Windows).is_ok());
    let error = validate_plan(&windows, SourceOs::Macos).unwrap_err();
    assert_eq!(error.message, "restore plan paths must be absolute");
    let mut drive_relative = windows.clone();
    drive_relative.projects_root = "C:projects".into();
    assert!(validate_plan(&drive_relative, SourceOs::Windows).is_err());
    let mut verbatim = windows.clone();
    verbatim.projects_root = "\\\\?\\D:\\projects".into();
    assert!(validate_plan(&verbatim, SourceOs::Windows).is_ok());
    verbatim.projects_root = "\\\\?\\D:projects".into();
    assert!(validate_plan(&verbatim, SourceOs::Windows).is_err());
}

#[test]
fn backslash_separates_components_on_windows_only() {
    let mut p = plan();
    p.target_codex_home = "/home/u/.codex".into();
    p.projects_root = "/home/u/.codex\\projects".into();
    assert!(validate_plan(&p, SourceOs::Macos).is_ok());
    assert!(path_is_within(
        SourceOs::Windows,
        &"/home/u/.codex\\projects".to_string(),
        &"/home/u/.codex".to_string()
    ));
    assert!(!path_is_within(
        SourceOs::Macos,
        &"/home/u/.codex\\projects".to_string(),
        &"/home/u/.codex".to_string()
    ));
    assert!(path_is_within(SourceOs::Macos, &"/a".to_string(), &"".to_string()));
    assert!(!path_is_within(SourceOs::Macos, &"a".to_string(), &"/".to_string()));
}

#[test]
fn path_containment_goes_by_components() {
    let within = |p: &str, base: &str| path_is_within(SourceOs::Macos, &p.to_string(), &base.to_string());
    assert!(within("/a/./b/c", "/a/b"));
    assert!(within("/a//b/", "/a/b"));
    assert!(!within("/a/bc", "/a/b"));
    assert!(within("./a", "./"));
    assert!(!within("a", "./a"));
    assert!(within("/a/b", "/"));
    assert!(!within("/a/../b", "/b"));
}

#[test]
fn package_identity_must_match_the_plan() {
    let mut p = plan();
    p.operations.push(op("codex/a.json", "/home/u/.codex/a.json", ChangeKind::Add, OperationKind::File));
    let payloads = vec!["codex/a.json".to_string()];
    assert!(validate_package_identity(&p, 7, &"abcdef".to_string(), &payloads).is_ok());
    assert_eq!(
        validate_package_identity(&p, 8, &"abcdef".to_string(), &payloads).unwrap_err().message,
        "restore plan package ID does not match the package"
    );
    assert_eq!(
        validate_package_identity(&p, 7, &"abc".to_string(), &payloads).unwrap_err().message,
        "restore plan archive hash does not match the package"
    );
    assert_eq!(
        validate_package_identity(&p, 7, &"ABCDEF".to_string(), &vec![]).unwrap_err().message,
        "restore operation references a missing package payload: codex/a.json"
    );
}

#[test]
fn operations_apply_files_then_bundles_then_the_lock() {
    let mut p = plan();
    p.operations = vec![
        op("agents/metadata/skill-lock-v3.json", "/home/u/.agents/.skill-lock.json", ChangeKind::Update, OperationKind::SkillLock),
        op("agents/skills/a", "/home/u/.agents/skills/a", ChangeKind::Add, OperationKind::SkillBundle),
        op("codex/x", "/home/u/.codex/x", ChangeKind::Add, OperationKind::File),
        op(SESSION_INDEX_SOURCE, "/home/u/.codex/session_index.jsonl", ChangeKind::Update, OperationKind::File),
        op("codex/y", "/home/u/.codex/y", ChangeKind::Preserve, OperationKind::File),
        op("codex/z", "/home/u/.codex/z", ChangeKind::Update, OperationKind::File),
    ];
    assert_eq!(regular_apply_order(&p), vec![2, 5, 1, 0]);
    assert_eq!(bridge_written_operations(&p), vec![3]);
    assert!(is_bridge_operation(&p, &THREAD_METADATA_SOURCE.to_string()));
    assert!(!is_bridge_operation(&p, &"codex/x".to_string()));
}

#[test]
fn restored_totals_refuse_overflow() {
    assert_eq!(add_restored((1, 2), 3, 4).unwrap(), (4, 6));
    assert_eq!(
        add_restored((u64::MAX, 0), 1, 0).unwrap_err().message,
        "restored file count overflowed"
    );
    assert_eq!(
        add_restored((0, u64::MAX), 0, 1).unwrap_err().message,
        "restored byte count overflowed"
    );
}

#[test]
fn bundle_operations_find_their_manifest_entry() {
    let skills = vec![skill(1, "agents/skills/a"), skill(2, "agents/skills/b")];
    let mut operation = op("agents/skills/b", "/t/b", ChangeKind::Add, OperationKind::SkillBundle);
    assert_eq!(
        bundle_manifest_index(&operation, &skills).unwrap_err().message,
        "Skill bundle operation has no content ID"
    );
    operation.content_id = Some(2);
    assert_eq!(bundle_manifest_index(&operation, &skills).unwrap(), 1);
    operation.content_id = Some(3);
    assert_eq!(
        bundle_manifest_index(&operation, &skills).unwrap_err().message,
        "Skill bundle manifest entry is missing"
    );
    operation.content_id = Some(1);
    assert_eq!(
        bundle_manifest_index(&operation, &skills).unwrap_err().message,
        "Skill bundle operation does not match its manifest entry"
    );
    assert_eq!(bundle_lock_file_name("b"), ".b.codex-rehome.lock");
}

#[test]
fn staged_payload_paths_must_be_normalized() {
    let root = "agents/skills/a".to_string();
    assert_eq!(staged_payload_path(&root, &"agents/skills/b/x".to_string()), None);
    assert_eq!(staged_payload_path(&root, &"agents/skills/ab".to_string()), None);
    assert_eq!(
        staged_payload_path(&root, &"agents/skills/a/docs/x.md".to_string())
            .unwrap()
            .unwrap(),
        "docs/x.md"
    );
    assert_eq!(
        staged_payload_path(&root, &"agents/skills/a/docs//x.md".to_string())
            .unwrap()
            .unwrap_err()
            .message,
        "Skill payload path is not normalized"
    );
    assert_eq!(
        staged_payload_path(&root, &"agents/skills/a/nul".to_string())
            .unwrap()
            .unwrap_err()
            .message,
        "path is not a portable relative path"
    );
}

#[test]
fn staged_bundles_are_checked_against_the_manifest() {
    assert_eq!(count_staged_file((0, 0), 5, 5).unwrap(), (1, 5));
    assert_eq!(
        count_staged_file((0, 0), 5, 6).unwrap_err().message,
        "staged Skill payload size changed"
    );
    assert_eq!(
        count_staged_file((0, u64::MAX), 1, 1).unwrap_err().message,
        "staged Skill byte count overflowed"
    );
    let manifest = skill(1, "agents/skills/a");
    assert!(check_staged_bundle(2, 10, &"AA".to_string(), &manifest).is_ok());
    assert_eq!(
        check_staged_bundle(1, 10, &"aa".to_string(), &manifest).unwrap_err().message,
        "staged Skill counts do not match the package manifest"
    );
    assert_eq!(
        check_staged_bundle(2, 10, &"ab".to_string(), &manifest).unwrap_err().message,
        "staged Skill tree hash does not match the package manifest"
    );
}

#[test]
fn bundle_targets_must_still_be_as_planned() {
    let dir = TargetState::Present { is_link: false, is_dir: true, is_file: false, len: 0 };
    let link = TargetState::Present { is_link: true, is_dir: false, is_file: false, len: 0 };
    assert_eq!(bundle_target_swap(ChangeKind::Update, &dir).unwrap(), BundleSwap::QuarantineExisting);
    assert_eq!(bundle_target_swap(ChangeKind::Add, &TargetState::Missing).unwrap(), BundleSwap::InstallNew);
    assert_eq!(
        bundle_target_swap(ChangeKind::Add, &dir).unwrap_err().message,
        "Skill bundle target type changed after planning"
    );
    assert_eq!(
        bundle_target_swap(ChangeKind::Update, &link).unwrap_err().message,
        "Skill bundle target type changed after planning"
    );
    assert_eq!(
        bundle_target_swap(ChangeKind::Update, &TargetState::Missing).unwrap_err().message,
        "Skill bundle target disappeared after planning"
    );
    assert_eq!(
        bundle_target_swap(ChangeKind::Update, &TargetState::InspectFailed("denied".into()))
            .unwrap_err()
            .message,
        "could not inspect target Skill before replacement: denied"
    );
    assert!(check_bundle_target_hash(&"ABC".to_string(), &Some("abc".to_string())).is_ok());
    assert_eq!(
        check_bundle_target_hash(&"abc".to_string(), &None).unwrap_err().message,
        "Skill bundle target changed after planning"
    );
}

#[test]
fn lock_targets_and_merged_locks_are_checked() {
    let file = |len| TargetState::Present { is_link: false, is_dir: false, is_file: true, len };
    assert_eq!(lock_target_read(&TargetState::Missing).unwrap(), false);
    assert_eq!(lock_target_read(&file(10)).unwrap(), true);
    assert_eq!(
        lock_target_read(&file(4 * 1024 * 1024 + 1)).unwrap_err().message,
        "target Skill lock exceeds the supported size limit"
    );
    assert_eq!(
        lock_target_read(&TargetState::Present { is_link: true, is_dir: false, is_file: true, len: 1 })
            .unwrap_err()
            .message,
        "target Skill lock is no longer a regular file"
    );
    let bytes = b"{\"version\":3}\n";
    let expected = sha256_hex(bytes).to_uppercase();
    assert!(check_final_lock_hash(bytes, &Some(expected)).is_ok());
    assert_eq!(
        check_final_lock_hash(bytes, &Some(sha256_hex(b"other"))).unwrap_err().message,
        "merged Skill lock changed after restore planning"
    );
    let empty = SkillLockFileV3 {
        version: 3,
        skills: StrMap::new(),
        dismissed: None,
        last_selected_agents: None,
    };
    assert_eq!(writable_merge(LockMergeResult::Write(empty.clone())).unwrap(), empty);
    assert_eq!(
        writable_merge(LockMergeResult::Unchanged).unwrap_err().message,
        "target Skill lock no longer matches the writable restore plan"
    );
}

#[test]
fn skill_lock_decisions_follow_the_first_operation_for_each_skill() {
    let skills = vec![skill(1, "agents/skills/a"), skill(2, "agents/skills/b")];
    let mut first = op("agents/skills/a", "/t/a", ChangeKind::Update, OperationKind::SkillBundle);
    first.content_id = Some(1);
    let mut second = op("agents/skills/a", "/t/a", ChangeKind::Add, OperationKind::SkillBundle);
    second.content_id = Some(1);
    let mut third = op("agents/skills/b", "/t/b", ChangeKind::Preserve, OperationKind::SkillBundle);
    third.content_id = Some(2);
    let decisions = skill_lock_decisions(&skills, &vec![first.clone(), second, third]).unwrap();
    assert_eq!(decisions.get(&"a".to_string()), Some(&ChangeKind::Update));
    assert_eq!(decisions.get(&"b".to_string()), Some(&ChangeKind::Preserve));
    assert_eq!(
        skill_lock_decisions(&skills, &vec![first]).unwrap_err().message,
        "Skill bundle decision is missing"
    );
}

#[test]
fn operation_roots_are_the_planned_roots() {
    let p = plan();
    let parent = Some("/home/u/.agents".to_string());
    assert_eq!(operation_root(SourceOs::Macos, &p, &"/home/u/.codex/a".to_string(), &parent).unwrap(), "/home/u/.codex");
    assert_eq!(operation_root(SourceOs::Macos, &p, &"/home/u/projects/x/y".to_string(), &parent).unwrap(), "/home/u/projects");
    assert_eq!(
        operation_root(SourceOs::Macos, &p, &"/home/u/.agents/skills/s".to_string(), &parent).unwrap(),
        "/home/u/.agents/skills"
    );
    assert_eq!(
        operation_root(SourceOs::Macos, &p, &"/home/u/.agents/.skill-lock.json".to_string(), &parent).unwrap(),
        "/home/u/.agents"
    );
    assert_eq!(
        operation_root(SourceOs::Macos, &p, &"/home/u/.agents/.skill-lock.json".to_string(), &None).unwrap_err().message,
        "target Skill lock has no parent"
    );
    assert_eq!(
        operation_root(SourceOs::Macos, &p, &"/etc/passwd".to_string(), &parent).unwrap_err().message,
        "restore target escapes the planned roots: /etc/passwd"
    );
}

#[test]
fn verification_failures_carry_the_whole_report() {
    let r = report(false);
    let error = verification_failure(&r);
    assert_eq!(error.code, ErrorCode::RestoreFailed);
    assert_eq!(error.message, format!("restore verification did not pass: {r:?}"));
    let mut p = plan();
    let base = rehome_core::restore::restore_failed("boom");
    assert_eq!(bridge_failure(&p, base.clone()), base);
    p.operations.push(op(THREAD_METADATA_SOURCE, "/home/u/.codex/state.sqlite", ChangeKind::Update, OperationKind::File));
    assert_eq!(
        bridge_failure(&p, base).message,
        "SQLite/index bridge update failed: boom"
    );
}

#[test]
fn changed_bridge_targets_add_their_sizes() {
    let target = "/home/u/.codex/session_index.jsonl".to_string();
    assert_eq!(add_changed_target(5, &target, &Ok((true, 7))).unwrap(), 12);
    assert_eq!(
        add_changed_target(5, &target, &Ok((false, 7))).unwrap_err().message,
        "restored target is not a regular file"
    );
    assert_eq!(
        add_changed_target(u64::MAX, &target, &Ok((true, 1))).unwrap_err().message,
        "restored byte count overflowed"
    );
    assert_eq!(
        add_changed_target(0, &target, &Err("missing".into())).unwrap_err().message,
        "could not inspect restored target /home/u/.codex/session_index.jsonl: missing"
    );
}

#[test]
fn data_verification_ignores_registration_but_not_failed_lock_merges() {
    assert!(data_verification_passed(&report(true)));
    assert!(!data_verification_passed(&report(false)));
    let mut failed_lock = report(true);
    failed_lock.skill_lock_merge = VerificationStatus::Failed;
    assert!(!data_verification_passed(&failed_lock));
    let registrations = vec![ProjectRegistration {
        project_id: 1,
        project_path: "/home/u/projects/x".into(),
        status: RegistrationStatus::Registered,
    }];
    let done = with_registrations(report(true), true, &registrations);
    assert!(done.app_registration_valid && done.app_visible_ready);
    let not_asked = with_registrations(report(true), false, &registrations);
    assert!(!not_asked.app_registration_valid && !not_asked.app_visible_ready);
    let failed = vec![ProjectRegistration {
        project_id: 1,
        project_path: "/p".into(),
        status: RegistrationStatus::ManualOpenRequired,
    }];
    assert!(!with_registrations(report(true), true, &failed).app_registration_valid);
    let assembled = verification_report(
        true,
        true,
        true,
        BridgeVerification { session_index_valid: true, sqlite_threads_valid: false, path_mapping_valid: true },
        true,
        true,
        true,
        VerificationStatus::Passed,
    );
    assert!(!assembled.sqlite_threads_valid);
    assert_eq!(assembled.codex_skill_discovery, VerificationStatus::NotRun);
    assert!(package_still_valid(true, 7, &"abcdef".to_string(), &plan()));
    assert!(!package_still_valid(true, 8, &"abcdef".to_string(), &plan()));
}

#[test]
fn skill_lock_verification_follows_the_lock_operation() {
    let mut p = plan();
    assert_eq!(skill_lock_check(&p), SkillLockCheck::Decided(VerificationStatus::Skipped));
    let mut lock = op("agents/metadata/skill-lock-v3.json", "/home/u/.agents/.skill-lock.json", ChangeKind::Update, OperationKind::SkillLock);
    p.operations.push(lock.clone());
    assert_eq!(skill_lock_check(&p), SkillLockCheck::Decided(VerificationStatus::Failed));
    lock.expected_final_hash = Some("ab".into());
    p.operations[0] = lock;
    assert_eq!(skill_lock_check(&p), SkillLockCheck::CompareTarget(0));
    assert_eq!(skill_lock_hash_status(&"AB".to_string(), &Some("ab".to_string())), VerificationStatus::Passed);
    assert_eq!(skill_lock_hash_status(&"AB".to_string(), &None), VerificationStatus::Failed);
}

#[test]
fn preserved_and_restored_targets_are_checked() {
    let mut bundle = op("agents/skills/a", "/t/a", ChangeKind::Preserve, OperationKind::SkillBundle);
    let dir = TargetState::Present { is_link: false, is_dir: true, is_file: false, len: 0 };
    let file = TargetState::Present { is_link: false, is_dir: false, is_file: true, len: 3 };
    assert_eq!(preserved_target_check(&bundle, &TargetState::Missing).unwrap(), PreservedCheck::Decided(true));
    assert_eq!(preserved_target_check(&bundle, &dir).unwrap(), PreservedCheck::Decided(true));
    bundle.expected_previous_hash = Some("h".into());
    assert_eq!(preserved_target_check(&bundle, &dir).unwrap(), PreservedCheck::CompareTreeHash("h".into()));
    assert_eq!(preserved_target_check(&bundle, &file).unwrap(), PreservedCheck::Decided(false));
    let mut plain = op("codex/x", "/t/x", ChangeKind::Preserve, OperationKind::File);
    assert_eq!(preserved_target_check(&plain, &file).unwrap(), PreservedCheck::Decided(false));
    plain.expected_previous_hash = Some("h".into());
    assert_eq!(preserved_target_check(&plain, &file).unwrap(), PreservedCheck::CompareFileHash("h".into()));
    assert_eq!(
        preserved_target_check(&plain, &TargetState::InspectFailed("denied".into())).unwrap_err().message,
        "could not inspect preserved target /t/x: denied"
    );
    assert!(hash_matches(&Some("AB".into()), &"ab".to_string()));
    assert!(!hash_matches(&None, &"ab".to_string()));

    let mut restored = op("agents/skills/a", "/t/a", ChangeKind::Add, OperationKind::SkillBundle);
    assert_eq!(
        restored_bundle_check(&restored).unwrap_err().message,
        "Skill bundle final tree hash is missing"
    );
    restored.expected_final_hash = Some("f".into());
    assert_eq!(restored_bundle_check(&restored).unwrap(), BundleCheck::Inspect("f".into()));
    restored.action = ChangeKind::Conflict;
    assert_eq!(restored_bundle_check(&restored).unwrap(), BundleCheck::Fail);
    assert_eq!(restored_bundle_present(&dir).unwrap(), true);
    assert_eq!(restored_bundle_present(&TargetState::Missing).unwrap(), false);
    assert_eq!(restored_marker_present(&file).unwrap(), true);
    assert_eq!(
        restored_marker_present(&TargetState::InspectFailed("x".into())).unwrap_err().message,
        "could not inspect restored SKILL.md: x"
    );
}

#[test]
fn plain_and_project_files_are_checked_against_their_payloads() {
    let mut p = plan();
    p.operations = vec![
        op("codex/x", "/home/u/.codex/x", ChangeKind::Add, OperationKind::File),
        op("projects/a/f", "/home/u/projects/a/f", ChangeKind::Update, OperationKind::File),
        op("codex/y", "/home/u/.codex/y", ChangeKind::Preserve, OperationKind::File),
        op(SESSION_INDEX_SOURCE, "/home/u/.codex/i", ChangeKind::Add, OperationKind::File),
    ];
    let mut hashes = StrMap::new();
    hashes.insert("codex/x".to_string(), "hx".to_string());
    assert_eq!(plain_file_check(&p, 0, &hashes).unwrap(), FileCheck::CompareFileHash("hx".into()));
    assert_eq!(
        plain_file_check(&p, 1, &hashes).unwrap_err().message,
        "verified payload metadata is missing"
    );
    assert_eq!(plain_file_check(&p, 2, &hashes).unwrap(), FileCheck::CheckPreserved);
    assert_eq!(plain_file_check(&p, 3, &hashes).unwrap(), FileCheck::Skip);
    assert_eq!(project_file_check(SourceOs::Macos, &p, 0, &hashes).unwrap(), FileCheck::Skip);
    assert_eq!(
        project_file_check(SourceOs::Macos, &p, 1, &hashes).unwrap_err().message,
        "project payload metadata is missing"
    );
    assert_eq!(operations_with_kind(&p, OperationKind::File), vec![0, 1, 2, 3]);
}

#[test]
fn uuid_text_matches_the_uuid_crate() {
    let id: u128 = 0x67e5504410b1426f9247bb680e5fe0c8;
    assert_eq!(uuid_text(id), uuid::Uuid::from_u128(id).to_string());
    assert_eq!(uuid_text(0), "00000000-0000-0000-0000-000000000000");
}

#[test]
fn json_search_looks_inside_arrays_and_objects() {
    let value = JsonValue::Object(vec![
        ("a".into(), JsonValue::Number("1".into())),
        (
            "b".into(),
            JsonValue::Array(vec![JsonValue::Null, JsonValue::Text("/home/u/projects/x".into())]),
        ),
    ]);
    assert!(json_contains_string(&value, &"/home/u/projects/x".to_string()));
    assert!(!json_contains_string(&value, &"b".to_string()));
    assert!(!json_contains_string(&JsonValue::Bool(true), &"true".to_string()));
}

#[test]
fn bridge_metadata_must_point_at_restored_sessions() {
    let mut p = plan();
    let task: u128 = 0x67e5504410b1426f9247bb680e5fe0c8;
    p.sessions.push(PlannedSession {
        package_source: "codex/sessions/a.jsonl".into(),
        target: "/home/u/.codex/sessions/a.jsonl".into(),
        source_task_id: 9,
        target_task_id: task,
        title: "t".into(),
        source_content_hash: "s".into(),
        expected_final_content_hash: "f".into(),
        action: SessionAction::Import,
    });
    p.reference_rewrites.push(ReferenceRewrite {
        source_task_id: 9,
        package_source: "codex/sessions/a.jsonl".into(),
        kind: ReferenceRewriteKind::ProjectPath,
        from: "/old/x".into(),
        to: "/home/u/projects/x".into(),
    });
    p.bridge_verification = BridgeVerificationRequirements {
        session_index: Some("/home/u/.codex/session_index.jsonl".into()),
        sqlite_database: Some("/home/u/.codex/state.sqlite".into()),
    };
    assert_eq!(session_project_paths(&p, 0), vec!["/home/u/projects/x".to_string()]);
    let key = uuid::Uuid::from_u128(task).to_string();
    let mut index = StrMap::new();
    index.insert(
        key.clone(),
        IndexRow { rollout_path: Some("/home/u/.codex/sessions/a.jsonl".into()), cwd: None },
    );
    let mut threads = StrMap::new();
    threads.insert(
        key,
        ThreadRow {
            cwd: Some("/home/u/projects/x".into()),
            rollout_path: Some("/home/u/.codex/sessions/a.jsonl".into()),
        },
    );
    let values = vec![vec![JsonValue::Object(vec![(
        "cwd".into(),
        JsonValue::Text("/home/u/projects/x".into()),
    )])]];
    let result = bridge_verification(&p, &index, &threads, &values);
    assert_eq!(
        result,
        BridgeVerification { session_index_valid: true, sqlite_threads_valid: true, path_mapping_valid: true }
    );
    let unmapped = bridge_verification(&p, &index, &threads, &vec![vec![]]);
    assert!(!unmapped.path_mapping_valid);
    let empty: StrMap<ThreadRow> = StrMap::new();
    let missing = bridge_verification(&p, &index, &empty, &values);
    assert!(!missing.sqlite_threads_valid);
    assert!(!missing.path_mapping_valid);
}

#[test]
fn restores_need_confirmation_a_clean_package_and_report_failed_rollbacks() {
    let mut options = RestoreOptions {
        codex_closed_confirmed: false,
        backup_root: "/home/u/backups".into(),
        register_projects: true,
    };
    let error = require_codex_closed(&options).unwrap_err();
    assert_eq!(error.code, ErrorCode::CodexRunning);
    assert_eq!(
        error.message,
        "restore requires confirmation that current Codex work is saved"
    );
    options.codex_closed_confirmed = true;
    assert!(require_codex_closed(&options).is_ok());
    assert!(require_no_forbidden_files(0).is_ok());
    let error = require_no_forbidden_files(2).unwrap_err();
    assert_eq!(error.code, ErrorCode::PackageInvalid);
    assert_eq!(error.message, "restore package contains forbidden files");

    let failure = rehome_core::restore::restore_failed("disk full");
    assert_eq!(rollback_outcome(failure.clone(), Ok(())), failure);
    let rolled = rollback_outcome(failure, Err(rehome_core::restore::restore_failed("locked")));
    assert_eq!(rolled.code, ErrorCode::RollbackFailed);
    assert_eq!(
        rolled.message,
        "restore failed: disk full; automatic rollback failed: locked"
    );
    let preserved = op("codex/y", "/home/u/.codex/y", ChangeKind::Preserve, OperationKind::File);
    assert_eq!(
        rehome_core::restore_verify::preserved_target_changed(&preserved).message,
        "preserved target changed after planning: /home/u/.codex/y"
    );
}

#[test]
fn session_lines_parse_one_value_each() {
    let values = jsonl_values("{\"a\":1}\r\n\n  \n[\"x\"]").unwrap_err();
    assert_eq!(values.code, ErrorCode::RestoreFailed);
    assert!(values.message.starts_with("restored session JSONL is invalid: "));
    let values = jsonl_values("{\"a\":1}\r\n\n[\"x\"]\n").unwrap();
    assert_eq!(
        values,
        vec![
            JsonValue::Object(vec![("a".into(), JsonValue::Number("1".into()))]),
            JsonValue::Array(vec![JsonValue::Text("x".into())]),
        ]
    );
    assert_eq!(jsonl_values("").unwrap(), Vec::<JsonValue>::new());
}

#[test]
fn index_rows_are_read_by_id() {
    let text = "{\"id\":\"t1\",\"cwd\":\"/p\",\"rollout_path\":7}\n{\"cwd\":\"/q\"}\n[1]\n{\"id\":\"t1\",\"cwd\":\"/r\"}\n";
    let rows = index_rows_from_text(text).unwrap();
    assert_eq!(rows.len(), 1);
    let row = rows.get(&"t1".to_string()).unwrap();
    assert_eq!(row.cwd.as_deref(), Some("/r"));
    assert_eq!(row.rollout_path, None);
    let error = index_rows_from_text("{\"id\":\"t1\"}\nnope\n").unwrap_err();
    assert!(error.message.starts_with("restored session index is invalid: "));
}
