//! Plain data shared across the package, inventory and restore logic.
//!
//! File-system paths are carried as `String`s (their rendered form); UUIDs as
//! `u128`. Serialisation lives outside this crate.
use vstd::prelude::*;
use crate::json::JsonValue;
use crate::strmap::StrMap;

verus! {

/// Operating system a package was created on, or that a restore targets.
#[derive(Debug, Clone, Copy, PartialEq, Eq, Structural)]
pub enum SourceOs {
    Windows,
    Macos,
}

/// How a package was produced.
#[derive(Debug, Clone, Copy, PartialEq, Eq, Structural)]
pub enum PackageMode {
    Full,
}

/// Which Skills root an entry comes from.
#[derive(Debug, Clone, Copy, PartialEq, Eq, Structural)]
pub enum SkillRootKind {
    SharedAgents,
    LegacyCodex,
}

/// How a shared Skill relates to the `skills` CLI lock file.
#[derive(Debug, Clone, Copy, PartialEq, Eq, Structural)]
pub enum SkillLockStatus {
    Available,
    Missing,
    ContentOnly,
    Invalid,
    Unsupported,
    NotApplicable,
}

/// Counts of selected content.
#[derive(Debug, Clone, Default, PartialEq, Eq, Structural)]
pub struct ContentCounts {
    pub projects: u64,
    pub project_files: u64,
    pub conversations: u64,
    pub skills: u64,
    pub plugins: u64,
    pub generated_images: u64,
    pub sqlite_threads: u64,
}

/// A project selected for packaging.
#[derive(Debug, Clone, PartialEq, Eq)]
pub struct ProjectEntry {
    pub project_id: u128,
    pub name: String,
    pub source_path: String,
    pub source_available: bool,
    pub archive_path: String,
    pub file_count: u64,
    pub content_bytes: u64,
    pub git_remote: Option<String>,
    pub git_branch: Option<String>,
    pub git_head: Option<String>,
}

/// Outcome of counting one project's files.
#[derive(Debug, Clone, PartialEq, Eq)]
pub enum ProjectFileScanResult {
    Counted { project_id: u128, file_count: u64 },
    Failed { project_id: u128, message: String },
}

/// Default of `ProjectEntry::source_available` when a manifest omits it.
pub fn project_source_available_by_default() -> (r: bool)
    ensures
        r,
{
    true
}

/// Sub-agent metadata of a conversation.
#[derive(Debug, Clone, PartialEq, Eq)]
pub struct ConversationClassification {
    pub parent_task_id: Option<u128>,
    pub agent_path: Option<String>,
    pub agent_nickname: Option<String>,
    pub depth: Option<u64>,
}

/// A conversation selected for packaging.
#[derive(Debug, Clone, PartialEq, Eq)]
pub struct ConversationEntry {
    pub task_id: u128,
    pub project_id: Option<u128>,
    pub title: String,
    pub updated_at: String,
    pub content_hash: String,
    pub archive_path: String,
    pub classification: Option<ConversationClassification>,
}

/// Files left out of a selection, and the rules that left them out.
#[derive(Debug, Clone, Default, PartialEq, Eq)]
pub struct ExclusionSummary {
    pub excluded_files: u64,
    pub excluded_bytes: u64,
    pub rules: Vec<String>,
}

/// An optional content item (Skill, plugin, generated image).
#[derive(Debug, Clone, PartialEq, Eq)]
pub struct OptionalContentEntry {
    pub content_id: u128,
    pub name: String,
    pub source_path: String,
    pub relative_path: String,
    pub size_bytes: u64,
    pub thumbnail_data_url: Option<String>,
    pub reveal_id: Option<u128>,
    pub skill_root_kind: Option<SkillRootKind>,
    pub lock_status: Option<SkillLockStatus>,
    pub exclusions: ExclusionSummary,
    pub blocked_reason: Option<String>,
    pub tree_hash: Option<String>,
}

/// A shared Skill recorded in a package manifest.
#[derive(Debug, Clone, PartialEq, Eq)]
pub struct SharedSkillEntry {
    pub content_id: u128,
    pub name: String,
    pub root_kind: SkillRootKind,
    pub relative_path: String,
    pub archive_root: String,
    pub file_count: u64,
    pub content_bytes: u64,
    pub tree_hash: String,
    pub exclusions: ExclusionSummary,
    pub lock_key: Option<String>,
}

/// One entry of a `skills` CLI v3 lock file.
///
/// `git_ref` is the entry's `ref` field.
#[derive(Debug, Clone, PartialEq, Eq)]
pub struct SkillLockEntryV3 {
    pub source: String,
    pub source_type: String,
    pub source_url: String,
    pub git_ref: Option<String>,
    pub skill_path: Option<String>,
    pub skill_folder_hash: String,
    pub installed_at: String,
    pub updated_at: String,
    pub plugin_name: Option<String>,
}

/// The text of an optional string.
pub open spec fn opt_view(o: Option<String>) -> Option<Seq<char>> {
    match o {
        Some(s) => Some(s@),
        None => None,
    }
}

/// The text of every field of a lock entry.
pub struct LockEntryView {
    pub source: Seq<char>,
    pub source_type: Seq<char>,
    pub source_url: Seq<char>,
    pub git_ref: Option<Seq<char>>,
    pub skill_path: Option<Seq<char>>,
    pub skill_folder_hash: Seq<char>,
    pub installed_at: Seq<char>,
    pub updated_at: Seq<char>,
    pub plugin_name: Option<Seq<char>>,
}

impl View for SkillLockEntryV3 {
    type V = LockEntryView;

    open spec fn view(&self) -> LockEntryView {
        LockEntryView {
            source: self.source@,
            source_type: self.source_type@,
            source_url: self.source_url@,
            git_ref: opt_view(self.git_ref),
            skill_path: opt_view(self.skill_path),
            skill_folder_hash: self.skill_folder_hash@,
            installed_at: self.installed_at@,
            updated_at: self.updated_at@,
            plugin_name: opt_view(self.plugin_name),
        }
    }
}

/// A copy of an optional string.
pub fn copy_opt_string(o: &Option<String>) -> (r: Option<String>)
    ensures
        opt_view(r) == opt_view(*o),
{
    match o {
        Some(s) => Some(s.clone()),
        None => None,
    }
}

impl SkillLockEntryV3 {
    /// A field-by-field copy.
    pub fn copy(&self) -> (r: SkillLockEntryV3)
        ensures
            r@ == self@,
    {
        SkillLockEntryV3 {
            source: self.source.clone(),
            source_type: self.source_type.clone(),
            source_url: self.source_url.clone(),
            git_ref: copy_opt_string(&self.git_ref),
            skill_path: copy_opt_string(&self.skill_path),
            skill_folder_hash: self.skill_folder_hash.clone(),
            installed_at: self.installed_at.clone(),
            updated_at: self.updated_at.clone(),
            plugin_name: copy_opt_string(&self.plugin_name),
        }
    }
}

/// A `skills` CLI v3 lock file.
///
/// `skills` holds the entries keyed by Skill name, each key at most once.
/// `dismissed` and `last_selected_agents` hold the JSON values of the fields
/// of the same name, which this crate carries through unchanged.
#[derive(Debug, Clone, PartialEq)]
pub struct SkillLockFileV3 {
    pub version: u32,
    pub skills: StrMap<SkillLockEntryV3>,
    pub dismissed: Option<JsonValue>,
    pub last_selected_agents: Option<JsonValue>,
}

/// Where a package stores the shared Skill lock, and how many entries it has.
#[derive(Debug, Clone, PartialEq, Eq)]
pub struct SharedSkillLockMetadata {
    pub archive_path: String,
    pub entry_count: u64,
    pub content_only_count: u64,
}

/// The manifest at the root of a package.
#[derive(Debug, Clone, PartialEq)]
pub struct PackageManifest {
    pub format: String,
    pub schema_version: u32,
    pub package_id: u128,
    pub created_at: String,
    pub source_os: SourceOs,
    pub source_arch: String,
    pub source_device_id: u128,
    pub mode: PackageMode,
    pub parent_checkpoint: Option<u128>,
    pub counts: ContentCounts,
    pub projects: Vec<ProjectEntry>,
    pub conversations: Vec<ConversationEntry>,
    pub exclusions: ExclusionSummary,
    pub shared_skills: Vec<SharedSkillEntry>,
    pub shared_skill_lock: Option<SharedSkillLockMetadata>,
}

/// What a source Codex installation holds.
#[derive(Debug, Clone, PartialEq)]
pub struct CodexInventory {
    pub codex_home: String,
    pub agents_skills_root: Option<String>,
    pub agents_skills_canonical_root: Option<String>,
    pub skill_lock_path: Option<String>,
    pub source_os: SourceOs,
    pub source_arch: String,
    pub source_device_id: u128,
    pub counts: ContentCounts,
    pub projects: Vec<ProjectEntry>,
    pub project_paths: Vec<String>,
    pub conversations: Vec<ConversationEntry>,
    pub conversation_paths: Vec<String>,
    pub session_index_path: Option<String>,
    pub state_db_path: Option<String>,
    pub skill_paths: Vec<String>,
    pub shared_skill_paths: Vec<String>,
    pub plugin_paths: Vec<String>,
    pub generated_image_paths: Vec<String>,
    pub skills: Vec<OptionalContentEntry>,
    pub shared_skills: Vec<OptionalContentEntry>,
    pub plugins: Vec<OptionalContentEntry>,
    pub generated_images: Vec<OptionalContentEntry>,
    pub warnings: Vec<String>,
}

/// What a restore target already holds.
#[derive(Debug, Clone, PartialEq)]
pub struct TargetInventory {
    pub codex_home: String,
    pub agents_skills_root: String,
    pub skill_lock_path: String,
    pub target_os: SourceOs,
    pub target_arch: String,
    pub counts: ContentCounts,
    pub projects: Vec<ProjectEntry>,
    pub conversations: Vec<ConversationEntry>,
}

/// A request to build a package from selected content.
#[derive(Debug, Clone, PartialEq)]
pub struct CreatePackageRequest {
    pub codex_home: String,
    pub project_paths: Vec<String>,
    pub conversation_ids: Vec<u128>,
    pub output_path: String,
    pub source_device_id: u128,
    pub skill_paths: Vec<String>,
    pub shared_skill_paths: Vec<String>,
    pub plugin_paths: Vec<String>,
    pub generated_image_paths: Vec<String>,
}

/// What building a package produced.
#[derive(Debug, Clone, PartialEq)]
pub struct CreatePackageReport {
    pub package_path: String,
    pub package_id: u128,
    pub bytes_written: u64,
    pub counts: ContentCounts,
}

/// A package as inspected before a restore.
#[derive(Debug, Clone, PartialEq)]
pub struct PackagePreview {
    pub package_path: String,
    pub archive_hash: String,
    pub manifest: PackageManifest,
    pub checksum_valid: bool,
    pub entries: Vec<String>,
    pub forbidden_files_total: u64,
}

/// What a restore plan does to one target.
#[derive(Debug, Clone, Copy, PartialEq, Eq, Structural)]
pub enum ChangeKind {
    Add,
    Update,
    Unchanged,
    Preserve,
    Conflict,
}

impl View for ChangeKind {
    type V = ChangeKind;

    open spec fn view(&self) -> ChangeKind {
        *self
    }
}

/// How a user resolved a conflicting target.
#[derive(Debug, Clone, Copy, PartialEq, Eq, Structural)]
pub enum FileConflictResolution {
    KeepExisting,
    UsePackage,
}

/// The root a restore target lives under.
#[derive(Debug, Clone, Copy, Default, PartialEq, Eq, Structural)]
pub enum RestoreRootKind {
    #[default]
    CodexHome,
    Projects,
    AgentsSkills,
    AgentsMetadata,
}

/// The unit a restore operation replaces.
#[derive(Debug, Clone, Copy, Default, PartialEq, Eq, Structural)]
pub enum OperationKind {
    #[default]
    File,
    SkillBundle,
    SkillLock,
}

/// What a backup holds for a target.
#[derive(Debug, Clone, Copy, PartialEq, Eq, Structural)]
pub enum BackupKind {
    File,
    Directory,
    Absent,
}

/// What a restore does with one conversation.
#[derive(Debug, Clone, Copy, PartialEq, Eq, Structural)]
pub enum SessionAction {
    Skip,
    Import,
    ImportAsBranch,
}

/// Which reference inside a restored conversation is rewritten.
#[derive(Debug, Clone, Copy, PartialEq, Eq, PartialOrd, Ord, Structural)]
pub enum ReferenceRewriteKind {
    ConversationId,
    ConversationTitle,
    ProjectPath,
    SessionPath,
}

/// Outcome of registering a restored project with Codex.
#[derive(Debug, Clone, PartialEq, Eq)]
pub enum RegistrationStatus {
    Registered,
    CommandUnavailable,
    InvocationFailed { message: String },
    ManualOpenRequired,
}

/// A reference rewritten inside a restored conversation.
#[derive(Debug, Clone, PartialEq, Eq)]
pub struct ReferenceRewrite {
    pub source_task_id: u128,
    pub package_source: String,
    pub kind: ReferenceRewriteKind,
    pub from: String,
    pub to: String,
}

/// A conversation a restore plan writes.
#[derive(Debug, Clone, PartialEq, Eq)]
pub struct PlannedSession {
    pub package_source: String,
    pub target: String,
    pub source_task_id: u128,
    pub target_task_id: u128,
    pub title: String,
    pub source_content_hash: String,
    pub expected_final_content_hash: String,
    pub action: SessionAction,
}

/// One target a restore plan touches.
#[derive(Debug, Clone, PartialEq, Eq)]
pub struct PlannedOperation {
    pub package_source: String,
    pub target: String,
    pub expected_previous_hash: Option<String>,
    pub action: ChangeKind,
    pub rollback_required: bool,
    pub root_kind: RestoreRootKind,
    pub operation_kind: OperationKind,
    pub content_id: Option<u128>,
    pub expected_final_hash: Option<String>,
}

/// Index and database files a restore must check after writing.
#[derive(Debug, Clone, Default, PartialEq, Eq)]
pub struct BridgeVerificationRequirements {
    pub session_index: Option<String>,
    pub sqlite_database: Option<String>,
}

/// A complete restore plan.
#[derive(Debug, Clone, PartialEq, Eq)]
pub struct RestorePlan {
    pub plan_id: u128,
    pub package_path: String,
    pub package_id: u128,
    pub archive_hash: String,
    pub target_codex_home: String,
    pub projects_root: String,
    pub target_agents_skills_root: String,
    pub target_skill_lock_path: String,
    pub operations: Vec<PlannedOperation>,
    pub sessions: Vec<PlannedSession>,
    pub reference_rewrites: Vec<ReferenceRewrite>,
    pub bridge_verification: BridgeVerificationRequirements,
    pub conflict_count: u64,
    pub required_bytes: u64,
}

/// User choices for applying a restore plan.
#[derive(Debug, Clone, PartialEq, Eq)]
pub struct RestoreOptions {
    pub codex_closed_confirmed: bool,
    pub backup_root: String,
    pub register_projects: bool,
}

/// Outcome of one post-restore check that can also be skipped.
#[derive(Debug, Clone, Copy, PartialEq, Eq, Structural)]
pub enum VerificationStatus {
    Passed,
    Failed,
    Skipped,
    NotRun,
}

/// Results of the checks run after a restore.
#[derive(Debug, Clone, PartialEq, Eq, Structural)]
pub struct VerificationReport {
    pub package_checksum_valid: bool,
    pub files_valid: bool,
    pub sessions_valid: bool,
    pub session_index_valid: bool,
    pub sqlite_threads_valid: bool,
    pub path_mapping_valid: bool,
    pub forbidden_files_absent: bool,
    pub project_files_valid: bool,
    pub app_registration_valid: bool,
    pub app_visible_ready: bool,
    pub shared_skill_files_valid: bool,
    pub codex_skill_discovery: VerificationStatus,
    pub skill_lock_merge: VerificationStatus,
    pub functional_sampling: VerificationStatus,
}

/// Registration outcome of one restored project.
#[derive(Debug, Clone, PartialEq, Eq)]
pub struct ProjectRegistration {
    pub project_id: u128,
    pub project_path: String,
    pub status: RegistrationStatus,
}

/// Summary of a finished restore.
#[derive(Debug, Clone, PartialEq, Eq)]
pub struct RestoreReport {
    pub transaction_id: u128,
    pub package_id: u128,
    pub completed_at: String,
    pub restored_files: u64,
    pub restored_bytes: u64,
    pub registrations: Vec<ProjectRegistration>,
    pub verification: VerificationReport,
}

/// Summary of a rollback.
#[derive(Debug, Clone, PartialEq, Eq)]
pub struct RollbackReport {
    pub transaction_id: u128,
    pub completed_at: String,
    pub restored_files: u64,
    pub success: bool,
}

/// Journal state of a restore transaction.
#[derive(Debug, Clone, Copy, PartialEq, Eq, Structural)]
pub enum RecoveryStatus {
    Prepared,
    Applying,
    Verifying,
    Committed,
    RollingBack,
    RolledBack,
    RollbackFailed,
}

/// A transaction that did not finish.
#[derive(Debug, Clone, PartialEq, Eq)]
pub struct PendingRecovery {
    pub transaction_id: u128,
    pub package_id: u128,
    pub created_at: String,
    pub status: RecoveryStatus,
    pub backup_root: String,
}

/// A recorded restore transaction.
#[derive(Debug, Clone, PartialEq, Eq)]
pub struct TransactionSummary {
    pub transaction_id: u128,
    pub package_id: u128,
    pub created_at: String,
    pub status: RecoveryStatus,
    pub backup_root: String,
    pub transaction_backup_path: String,
    pub target_codex_home: String,
    pub projects_root: String,
    pub target_agents_skills_root: String,
    pub restored_project_paths: Vec<String>,
    pub changed_files: u64,
}

/// All recorded transactions, and what could not be read.
#[derive(Debug, Clone, PartialEq, Eq)]
pub struct TransactionHistory {
    pub transactions: Vec<TransactionSummary>,
    pub warnings: Vec<String>,
}

} // verus!
