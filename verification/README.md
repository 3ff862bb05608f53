# rehome_core

The rules behind moving Codex projects, conversations and shared user Skills
(`~/.agents/skills`) between computers, written in Verus and proved against
their contracts.

## Layout

- `src/` — the verified library.
  - `paths`, `text`, `text_set`, `strmap`: portable paths, text helpers,
    sorted text sets and string-keyed maps.
  - `exclusions`, `secrets`: which paths are left out or block a Skill, and
    high-confidence credentials in file content (including chunked scanning).
  - `digest`, `tree_hash`: SHA-256 hex text and the Skill tree hash.
  - `shared_skills`, `bundle_scan`, `discovery`: locating the shared Skills
    root and lock file, scanning one Skill, and assembling the inventory.
  - `lock_sanitize`, `lock_file`, `skill_lock`: which lock entries are safe
    to carry, reading the `skills` CLI v3 lock, and merging it on restore.
  - `json`: JSON values as the library reads them, parsed through
    `serde_json`, and the lines of line-delimited documents.
  - `restore`, `restore_apply`, `restore_verify`: plan validation (with the
    path rules of the system the restore runs on), the decisions taken while
    a plan is applied, and the checks afterwards.
  - `project_scan`: counting the files a project would carry.
- `app/` — the file-system, environment, SQLite and JSON-writing work that
  feeds the library plain values.
- `tests/` — scenarios run against the compiled library.

Every public function states what it returns in its contract. Properties
that relate several functions or calls (what a scan keeps, what joining
paths does to their classification, what a merge preserves, what the tree
hash does not depend on) are public proof functions named `law_*`, in the
modules `exclusions`, `secrets`, `shared_skills`, `bundle_scan`, `text_set`,
`tree_hash`, `skill_lock` and `restore_apply`.
