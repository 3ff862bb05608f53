//! The rules of moving Codex projects, conversations and shared user Skills
//! between computers: what is packaged, what blocks a Skill, how the `skills`
//! CLI lock is read and merged, and what a restore must check.
pub mod error;
pub mod exclusions;
pub mod models;
pub mod text;
pub mod text_set;
pub mod strmap;
pub mod secrets;
pub mod paths;
pub mod lock_sanitize;
pub mod skill_lock;
pub mod lock_file;
pub mod shared_skills;
pub mod bundle_scan;
pub mod discovery;
pub mod digest;
pub mod tree_hash;
pub mod restore;
pub mod restore_apply;
pub mod json;
pub mod restore_verify;
pub mod project_scan;
