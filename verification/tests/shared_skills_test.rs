use rehome_core::lock_sanitize::sanitize_lock_entry;
use rehome_core::models::{SkillLockEntryV3, SourceOs};
use rehome_core::shared_skills::{
    resolve_agents_skills_root, resolve_skill_lock_path, SharedSkillsContext,
};
use std::path::PathBuf;

fn path_text(path: PathBuf) -> String {
    path.to_str().unwrap().to_string()
}

fn sample_lock_entry() -> SkillLockEntryV3 {
    SkillLockEntryV3 {
        source: "github".into(),
        source_type: "github".into(),
        source_url: "https://github.com/example/skills".into(),
        git_ref: Some("main".into()),
        skill_path: Some("skills/safe-skill".into()),
        skill_folder_hash: "a".repeat(64),
        installed_at: "2026-08-19T00:00:00Z".into(),
        updated_at: "2026-08-19T00:00:00Z".into(),
        plugin_name: None,
    }
}

#[test]
fn resolve_agents_root_is_independent_from_codex_home() {
    let context = SharedSkillsContext {
        user_profile: Some(r"C:\\Users\\pinfei".to_string()),
        home: Some("/Users/pinfei".to_string()),
        xdg_state_home: None,
    };
    assert_eq!(
        resolve_agents_skills_root(&context, SourceOs::Macos),
        Some(path_text(PathBuf::from("/Users/pinfei/.agents/skills")))
    );
    assert_eq!(
        resolve_agents_skills_root(&context, SourceOs::Windows),
        Some(path_text(
            PathBuf::from(r"C:\\Users\\pinfei")
                .join(".agents")
                .join("skills")
        ))
    );
}

#[test]
fn resolve_xdg_changes_only_lock_path() {
    let context = SharedSkillsContext {
        home: Some("/Users/pinfei".to_string()),
        xdg_state_home: Some("/state".to_string()),
        ..SharedSkillsContext::default()
    };
    assert_eq!(
        resolve_agents_skills_root(&context, SourceOs::Macos),
        Some(path_text(PathBuf::from("/Users/pinfei/.agents/skills")))
    );
    assert_eq!(
        resolve_skill_lock_path(&context, SourceOs::Macos),
        Some(path_text(PathBuf::from("/state/skills/.skill-lock.json")))
    );
}

#[test]
fn resolve_default_lock_path_uses_agents_metadata_root() {
    let context = SharedSkillsContext {
        home: Some("/Users/pinfei".to_string()),
        ..SharedSkillsContext::default()
    };
    assert_eq!(
        resolve_skill_lock_path(&context, SourceOs::Macos),
        Some(path_text(PathBuf::from("/Users/pinfei/.agents/.skill-lock.json")))
    );
}

#[test]
fn lock_sanitizer_downgrades_queries_credentials_absolute_paths_and_invalid_refs() {
    let mut entry = sample_lock_entry();
    entry.source_url = "https://user@example.com/repo".into();
    assert!(sanitize_lock_entry(&entry).is_none());
    entry = sample_lock_entry();
    entry.source_url = "https://example.com/repo?token=synthetic".into();
    assert!(sanitize_lock_entry(&entry).is_none());
    entry = sample_lock_entry();
    entry.source = "https://user@example.com/private/repo".into();
    assert!(sanitize_lock_entry(&entry).is_none());
    entry = sample_lock_entry();
    entry.source = format!("github_pat_{}", "x".repeat(48));
    assert!(sanitize_lock_entry(&entry).is_none());
    entry = sample_lock_entry();
    entry.skill_path = Some("/Users/example/private-skill".into());
    assert!(sanitize_lock_entry(&entry).is_none());
    entry = sample_lock_entry();
    entry.git_ref = Some("../../unsafe".into());
    assert!(sanitize_lock_entry(&entry).is_none());
}

#[test]
fn sample_lock_entry_is_carried_unchanged() {
    let entry = sample_lock_entry();
    assert_eq!(sanitize_lock_entry(&entry), Some(entry));
}
