//! The scan of one shared Skill directory.
//!
//! The caller walks the Skill's tree, in file-name order and without following
//! links, and reports each entry to a `BundleScan`; the scan decides what the
//! entry does: which files are kept, which are excluded and counted, and which
//! make the whole Skill blocked, with the reasons. Blocked reasons and
//! exclusion rules are kept as sorted sets of texts.
use vstd::prelude::*;
use crate::error::{ErrorCode, RehomeError};
use crate::exclusions::{
    block_reason, classify_skill_path, exclude_reason, has_skill_excluded_component,
    has_skill_sensitive_component, SkillPathPolicy,
};
use crate::models::{opt_view, ExclusionSummary, OptionalContentEntry, SkillRootKind};
use crate::shared_skills::{content_id_name, discovery_failed, shared_skill_content_id, uuid_v5_url};
use crate::text::join_with;
use crate::text_set::{text_less, text_lt};
use crate::tree_hash::{all_digests_valid, tree_hash_from_payload_records, tree_hash_of, PayloadRecord};
use crate::paths::{is_portable_skill_path, normalized, portable_path_error, portable_relative_path};
use crate::shared_skills::{collision_key, portable_collision_key};
use crate::strmap::StrMap;
use crate::text_set::{lemma_sorted_insert, sorted_insert, strictly_sorted, TextSet};

verus! {

/// A file a scan keeps: where it is read from, its normalised path inside the
/// Skill, and its size in bytes.
#[derive(Debug, Clone, PartialEq, Eq)]
pub struct SkillFile {
    pub source_path: String,
    pub relative_path: String,
    pub size_bytes: u64,
}

/// What a credential scan of one file's content found.
#[derive(Debug, Clone, PartialEq, Eq)]
pub enum SecretScan {
    /// No high-confidence credential.
    Clean,
    /// A high-confidence credential.
    Found,
    /// The file could not be read; the message says why.
    Failed(String),
}

/// The rule and reason recorded for a file holding a credential.
pub open spec fn credential_rule() -> Seq<char> {
    "high-confidence credential content"@
}

/// `a + b`, or `u64::MAX` when that overflows.
pub open spec fn saturating_sum(a: u64, b: u64) -> u64 {
    if a + b > u64::MAX {
        u64::MAX
    } else {
        (a + b) as u64
    }
}

/// The state of a scan.
pub struct BundleScanView {
    pub excluded_files: u64,
    pub excluded_bytes: u64,
    /// The exclusion rules that applied, sorted.
    pub rules: Seq<Seq<char>>,
    /// The reasons the Skill is blocked, sorted.
    pub blocked: Seq<Seq<char>>,
    /// Each kept path's collision key, with the last path that had it.
    pub portable_paths: Map<Seq<char>, Seq<char>>,
    /// The kept files, in the order they were reported.
    pub included: Seq<SkillFile>,
    /// The regular file reported last, when its content is still to be
    /// scanned: the path it was reported at, its normalised path and its size.
    pub awaiting: Option<(Seq<char>, Seq<char>, u64)>,
}

/// The path `rel` passes the file rules of a Skill: it is neither a
/// credential path nor excluded data, and every supported system can hold it.
pub open spec fn passes_file_rules(rel: Seq<char>) -> bool {
    &&& !has_skill_sensitive_component(rel)
    &&& !has_skill_excluded_component(rel)
    &&& is_portable_skill_path(rel)
}

/// `p` is the normalised form of a path that passes the file rules.
pub open spec fn admitted_path(p: Seq<char>) -> bool {
    exists|rel: Seq<char>| #[trigger] passes_file_rules(rel) && normalized(rel) == p
}

/// Every file of `s` has a path that passes the file rules.
pub open spec fn all_admitted(s: Seq<SkillFile>) -> bool {
    forall|i: int| 0 <= i < s.len() ==> admitted_path(#[trigger] s[i].relative_path@)
}

/// Every kept file, and the file awaiting its content scan, was reported at a
/// path that passes the file rules.
pub open spec fn kept_files_admitted(v: BundleScanView) -> bool {
    &&& all_admitted(v.included)
    &&& match v.awaiting {
        Some((rel, n, _)) => passes_file_rules(rel) && n == normalized(rel),
        None => true,
    }
}

impl BundleScanView {
    /// A scan that has seen nothing.
    pub open spec fn empty() -> Self {
        BundleScanView {
            excluded_files: 0,
            excluded_bytes: 0,
            rules: Seq::empty(),
            blocked: Seq::empty(),
            portable_paths: Map::empty(),
            included: Seq::empty(),
            awaiting: None,
        }
    }

    /// The scan with `reason` added to the blocked reasons.
    pub open spec fn block(self, reason: Seq<char>) -> Self {
        BundleScanView { blocked: sorted_insert(self.blocked, reason), ..self }
    }

    /// The scan with one more excluded file of `size` bytes, under `rule`.
    pub open spec fn exclude(self, size: u64, rule: Seq<char>) -> Self {
        BundleScanView {
            excluded_files: (self.excluded_files + 1) as u64,
            excluded_bytes: saturating_sum(self.excluded_bytes, size),
            rules: sorted_insert(self.rules, rule),
            ..self
        }
    }

    /// The scan after the regular file at `rel` (its path inside the Skill)
    /// of `size` bytes, and the file's normalised path when its content is
    /// still to be scanned for credentials.
    ///
    /// A credential path blocks the Skill and counts as excluded; a
    /// dependency, cache, build or version-control path is excluded; a path
    /// no supported system can hold blocks the Skill; a path whose collision
    /// key an earlier file had blocks the Skill. Otherwise the content is
    /// scanned next, and the file awaits that scan; no file awaits it after
    /// any other outcome.
    pub open spec fn after_file(self, rel: Seq<char>, size: u64) -> (Self, Option<Seq<char>>) {
        let cleared = BundleScanView { awaiting: None, ..self };
        if has_skill_sensitive_component(rel) {
            (cleared.exclude(size, block_reason()).block(block_reason() + ": "@ + rel), None)
        } else if has_skill_excluded_component(rel) {
            (cleared.exclude(size, exclude_reason()), None)
        } else if !is_portable_skill_path(rel) {
            (cleared.block(rel + ": "@ + portable_path_error(rel)), None)
        } else {
            let n = normalized(rel);
            let k = collision_key(n);
            let moved = BundleScanView {
                portable_paths: self.portable_paths.insert(k, n),
                ..cleared
            };
            if self.portable_paths.contains_key(k) {
                (
                    moved.block(
                        "portable path collision: "@ + self.portable_paths[k] + " and "@ + n,
                    ),
                    None,
                )
            } else {
                (BundleScanView { awaiting: Some((rel, n, size)), ..moved }, Some(n))
            }
        }
    }

    /// The file reported at `rel` awaits its content scan, as `file`.
    pub open spec fn awaits(self, rel: Seq<char>, file: SkillFile) -> bool {
        self.awaiting == Some((rel, file.relative_path@, file.size_bytes))
    }

    /// The scan after the credential scan of `file`, found at `rel`; no file
    /// awaits a scan afterwards.
    pub open spec fn after_secret_scan(
        self,
        rel: Seq<char>,
        file: SkillFile,
        outcome: SecretScan,
    ) -> Self {
        let cleared = BundleScanView { awaiting: None, ..self };
        match outcome {
            SecretScan::Found => cleared.exclude(file.size_bytes, credential_rule()).block(
                credential_rule() + ": "@ + rel,
            ),
            SecretScan::Clean => BundleScanView { included: self.included.push(file), ..cleared },
            SecretScan::Failed(m) => cleared.block(
                "could not scan "@ + rel + " for credentials: "@ + m@,
            ),
        }
    }
}

/// `s` with `f` placed after every file whose path does not sort after its own.
pub open spec fn insert_file(s: Seq<SkillFile>, f: SkillFile) -> Seq<SkillFile>
    decreases s.len(),
{
    if s.len() == 0 {
        seq![f]
    } else if text_lt(f.relative_path@, s.last().relative_path@) {
        insert_file(s.drop_last(), f).push(s.last())
    } else {
        s.push(f)
    }
}

/// The files ordered by relative path; files with equal paths keep their order.
pub open spec fn sort_files(s: Seq<SkillFile>) -> Seq<SkillFile>
    decreases s.len(),
{
    if s.len() == 0 {
        Seq::empty()
    } else {
        insert_file(sort_files(s.drop_last()), s.last())
    }
}

/// The total size of the files.
pub open spec fn files_total(s: Seq<SkillFile>) -> nat
    decreases s.len(),
{
    if s.len() == 0 {
        0
    } else {
        files_total(s.drop_last()) + (s.last().size_bytes as nat)
    }
}

/// The tree-hash records of `files`, each with the digest at its position.
pub open spec fn file_records(files: Seq<SkillFile>, digests: Seq<String>) -> Seq<PayloadRecord> {
    Seq::new(files.len(), |i: int| (files[i].relative_path, files[i].size_bytes, digests[i]))
}

/// The blocked reasons, joined, when there are any.
pub open spec fn joined_reasons(blocked: Seq<Seq<char>>) -> Option<Seq<char>> {
    if blocked.len() == 0 {
        None
    } else {
        Some(join_with(blocked, "; "@))
    }
}

/// What a scan of a shared Skill produced: its entry, and the files it keeps,
/// in path order.
#[derive(Debug, Clone, PartialEq, Eq)]
pub struct SharedSkillScan {
    pub entry: OptionalContentEntry,
    pub files: Vec<SkillFile>,
}

proof fn lemma_insert_file_at(s: Seq<SkillFile>, f: SkillFile, j: int)
    requires
        0 <= j <= s.len(),
        forall|t: int|
            j <= t < s.len() ==> text_lt(f.relative_path@, (#[trigger] s[t]).relative_path@),
        j == 0 || !text_lt(f.relative_path@, s[j - 1].relative_path@),
    ensures
        insert_file(s, f) == s.insert(j, f),
    decreases s.len(),
{
    if s.len() == 0 {
        assert(s.insert(j, f) =~= seq![f]);
    } else if text_lt(f.relative_path@, s.last().relative_path@) {
        let t = s.drop_last();
        assert forall|q: int| j <= q < t.len() implies text_lt(
            f.relative_path@,
            (#[trigger] t[q]).relative_path@,
        ) by {
            assert(t[q] == s[q]);
        }
        if j > 0 {
            assert(t[j - 1] == s[j - 1]);
        }
        if j == s.len() {
            assert(false);
        }
        lemma_insert_file_at(t, f, j);
        assert(t.insert(j, f).push(s.last()) =~= s.insert(j, f));
    } else {
        assert(s.len() <= j) by {
            if j < s.len() {
                assert(text_lt(f.relative_path@, s[s.len() - 1].relative_path@));
            }
        }
        assert(s.push(f) =~= s.insert(j, f));
    }
}

proof fn lemma_insert_file_len(s: Seq<SkillFile>, f: SkillFile)
    ensures
        insert_file(s, f).len() == s.len() + 1,
    decreases s.len(),
{
    if s.len() > 0 && text_lt(f.relative_path@, s.last().relative_path@) {
        lemma_insert_file_len(s.drop_last(), f);
    }
}

proof fn lemma_push_admitted(s: Seq<SkillFile>, f: SkillFile)
    requires
        all_admitted(s),
        admitted_path(f.relative_path@),
    ensures
        all_admitted(s.push(f)),
{
    assert forall|i: int| 0 <= i < s.push(f).len() implies admitted_path(
        #[trigger] s.push(f)[i].relative_path@,
    ) by {
        if i < s.len() {
            assert(s.push(f)[i] == s[i]);
            assert(admitted_path(s[i].relative_path@));
        }
    }
}

proof fn lemma_drop_last_admitted(s: Seq<SkillFile>)
    requires
        all_admitted(s),
        s.len() > 0,
    ensures
        all_admitted(s.drop_last()),
        admitted_path(s.last().relative_path@),
{
    let t = s.drop_last();
    assert forall|i: int| 0 <= i < t.len() implies admitted_path(#[trigger] t[i].relative_path@) by {
        assert(t[i] == s[i]);
        assert(admitted_path(s[i].relative_path@));
    }
    assert(admitted_path(s[s.len() - 1].relative_path@));
}

proof fn lemma_insert_file_admitted(s: Seq<SkillFile>, f: SkillFile)
    requires
        all_admitted(s),
        admitted_path(f.relative_path@),
    ensures
        all_admitted(insert_file(s, f)),
    decreases s.len(),
{
    if s.len() > 0 && text_lt(f.relative_path@, s.last().relative_path@) {
        lemma_drop_last_admitted(s);
        lemma_insert_file_admitted(s.drop_last(), f);
        lemma_push_admitted(insert_file(s.drop_last(), f), s.last());
    } else if s.len() > 0 {
        lemma_push_admitted(s, f);
    }
}

/// Sorting keeps only files whose paths pass the file rules when the
/// unsorted files all do.
pub proof fn lemma_sort_files_admitted(s: Seq<SkillFile>)
    requires
        all_admitted(s),
    ensures
        all_admitted(sort_files(s)),
    decreases s.len(),
{
    if s.len() > 0 {
        lemma_drop_last_admitted(s);
        lemma_sort_files_admitted(s.drop_last());
        lemma_insert_file_admitted(sort_files(s.drop_last()), s.last());
    }
}

/// Sorting keeps the number of files.
pub proof fn lemma_sort_files_len(s: Seq<SkillFile>)
    ensures
        sort_files(s).len() == s.len(),
    decreases s.len(),
{
    if s.len() > 0 {
        lemma_sort_files_len(s.drop_last());
        lemma_insert_file_len(sort_files(s.drop_last()), s.last());
    }
}

fn copy_file(f: &SkillFile) -> (c: SkillFile)
    ensures
        c == *f,
{
    SkillFile {
        source_path: f.source_path.clone(),
        relative_path: f.relative_path.clone(),
        size_bytes: f.size_bytes,
    }
}

/// The files ordered by relative path, files with equal paths in their given
/// order.
pub fn sort_skill_files(files: &Vec<SkillFile>) -> (r: Vec<SkillFile>)
    ensures
        r@ == sort_files(files@),
{
    let mut out: Vec<SkillFile> = Vec::new();
    let n = files.len();
    let mut i: usize = 0;
    while i < n
        invariant
            n == files@.len(),
            i <= n,
            out@ == sort_files(files@.take(i as int)),
        decreases n - i,
    {
        let f = copy_file(&files[i]);
        let mut j = out.len();
        while j > 0 && text_less(f.relative_path.as_str(), out[j - 1].relative_path.as_str())
            invariant
                j <= out@.len(),
                forall|t: int|
                    j <= t < out@.len() ==> text_lt(
                        f.relative_path@,
                        (#[trigger] out@[t]).relative_path@,
                    ),
            decreases j,
        {
            j = j - 1;
        }
        proof {
            lemma_insert_file_at(out@, f, j as int);
            assert(files@.take(i + 1).drop_last() =~= files@.take(i as int));
        }
        out.insert(j, f);
        i = i + 1;
    }
    assert(files@.take(n as int) =~= files@);
    out
}

/// The total size of `files`, or `None` when it does not fit in 64 bits.
fn total_size(files: &Vec<SkillFile>) -> (r: Option<u64>)
    ensures
        match r {
            Some(t) => t == files_total(files@),
            None => files_total(files@) > u64::MAX,
        },
{
    let n = files.len();
    let mut total: u64 = 0;
    let mut i: usize = 0;
    while i < n
        invariant
            n == files@.len(),
            i <= n,
            total == files_total(files@.take(i as int)),
        decreases n - i,
    {
        assert(files@.take(i + 1).drop_last() =~= files@.take(i as int));
        match total.checked_add(files[i].size_bytes) {
            Some(t) => total = t,
            None => {
                proof {
                    lemma_files_total_prefix(files@, i + 1);
                }
                return None;
            },
        }
        i = i + 1;
    }
    assert(files@.take(n as int) =~= files@);
    Some(total)
}

proof fn lemma_files_total_prefix(s: Seq<SkillFile>, k: int)
    requires
        0 <= k <= s.len(),
    ensures
        files_total(s.take(k)) <= files_total(s),
    decreases s.len() - k,
{
    if k < s.len() {
        lemma_files_total_prefix(s, k + 1);
        assert(s.take(k + 1).drop_last() =~= s.take(k));
    } else {
        assert(s.take(k) =~= s);
    }
}

/// The scan's sets are sorted, as every scan keeps them.
pub open spec fn view_sorted(v: BundleScanView) -> bool {
    strictly_sorted(v.rules) && strictly_sorted(v.blocked)
}

proof fn lemma_block_keeps(v: BundleScanView, reason: Seq<char>)
    requires
        view_sorted(v),
    ensures
        view_sorted(v.block(reason)),
        v.block(reason).blocked.contains(reason),
        forall|y: Seq<char>| v.blocked.contains(y) ==> #[trigger] v.block(reason).blocked.contains(y),
{
    lemma_sorted_insert(v.blocked, reason);
}

proof fn lemma_exclude_keeps(v: BundleScanView, size: u64, rule: Seq<char>)
    requires
        view_sorted(v),
    ensures
        view_sorted(v.exclude(size, rule)),
        v.exclude(size, rule).blocked == v.blocked,
        v.exclude(size, rule).rules.contains(rule),
{
    lemma_sorted_insert(v.rules, rule);
}

/// A reason to block a Skill, once recorded, stays: no file or credential
/// scan removes one.
pub proof fn law_blocked_reasons_are_kept(
    v: BundleScanView,
    rel: Seq<char>,
    size: u64,
    file: SkillFile,
    outcome: SecretScan,
)
    requires
        view_sorted(v),
    ensures
        view_sorted(v.after_file(rel, size).0),
        view_sorted(v.after_secret_scan(rel, file, outcome)),
        forall|y: Seq<char>|
            v.blocked.contains(y) ==> #[trigger] v.after_file(rel, size).0.blocked.contains(y),
        forall|y: Seq<char>|
            v.blocked.contains(y) ==> #[trigger] v.after_secret_scan(
                rel,
                file,
                outcome,
            ).blocked.contains(y),
{
    let c = BundleScanView { awaiting: None, ..v };
    lemma_exclude_keeps(c, size, block_reason());
    lemma_block_keeps(c.exclude(size, block_reason()), block_reason() + ": "@ + rel);
    lemma_exclude_keeps(c, size, exclude_reason());
    lemma_block_keeps(c, rel + ": "@ + portable_path_error(rel));
    let n = normalized(rel);
    let k = collision_key(n);
    let moved = BundleScanView { portable_paths: v.portable_paths.insert(k, n), ..c };
    if v.portable_paths.contains_key(k) {
        lemma_block_keeps(moved, "portable path collision: "@ + v.portable_paths[k] + " and "@ + n);
    }
    lemma_exclude_keeps(c, file.size_bytes, credential_rule());
    lemma_block_keeps(c.exclude(file.size_bytes, credential_rule()), credential_rule() + ": "@ + rel);
    match outcome {
        SecretScan::Failed(m) => {
            lemma_block_keeps(c, "could not scan "@ + rel + " for credentials: "@ + m@);
        },
        _ => {},
    }
}

/// A file on a credential or private-key path is never kept: it counts as
/// excluded, and the Skill is blocked with a reason naming only the path.
pub proof fn law_sensitive_files_block_the_skill(v: BundleScanView, rel: Seq<char>, size: u64)
    requires
        view_sorted(v),
        v.excluded_files < u64::MAX,
        has_skill_sensitive_component(rel),
    ensures
        v.after_file(rel, size).1 is None,
        v.after_file(rel, size).0.included == v.included,
        v.after_file(rel, size).0.excluded_files == v.excluded_files + 1,
        v.after_file(rel, size).0.blocked.contains(block_reason() + ": "@ + rel),
        v.after_file(rel, size).0.rules.contains(block_reason()),
{
    let c = BundleScanView { awaiting: None, ..v };
    lemma_exclude_keeps(c, size, block_reason());
    lemma_block_keeps(c.exclude(size, block_reason()), block_reason() + ": "@ + rel);
}

/// A file whose content holds a credential is never kept: it counts as
/// excluded, and the Skill is blocked with a reason naming only the path.
pub proof fn law_credentials_block_the_skill(v: BundleScanView, rel: Seq<char>, file: SkillFile)
    requires
        view_sorted(v),
        v.excluded_files < u64::MAX,
    ensures
        v.after_secret_scan(rel, file, SecretScan::Found).included == v.included,
        v.after_secret_scan(rel, file, SecretScan::Found).excluded_files == v.excluded_files + 1,
        v.after_secret_scan(rel, file, SecretScan::Found).blocked.contains(
            credential_rule() + ": "@ + rel,
        ),
{
    let c = BundleScanView { awaiting: None, ..v };
    lemma_exclude_keeps(c, file.size_bytes, credential_rule());
    lemma_block_keeps(c.exclude(file.size_bytes, credential_rule()), credential_rule() + ": "@ + rel);
}

/// Only a clean credential scan keeps a file, and it keeps exactly that
/// file; reporting a file's path keeps nothing yet.
pub proof fn law_only_clean_files_are_kept(
    v: BundleScanView,
    rel: Seq<char>,
    size: u64,
    file: SkillFile,
    outcome: SecretScan,
)
    requires
        v.excluded_files < u64::MAX,
    ensures
        v.after_file(rel, size).0.included == v.included,
        v.after_secret_scan(rel, file, outcome).included == if outcome == SecretScan::Clean {
            v.included.push(file)
        } else {
            v.included
        },
{
}

/// Every file a scan keeps was reported at a path that passes the file
/// rules (no credential path, no excluded data, a path every supported
/// system can hold) and passed its content scan: reporting a file, scanning
/// the file that awaits its scan, blocking and excluding all keep this.
pub proof fn law_kept_files_passed_the_rules(
    v: BundleScanView,
    rel: Seq<char>,
    size: u64,
    file: SkillFile,
    outcome: SecretScan,
)
    requires
        kept_files_admitted(v),
    ensures
        kept_files_admitted(v.after_file(rel, size).0),
        v.awaits(rel, file) ==> kept_files_admitted(v.after_secret_scan(rel, file, outcome)),
        forall|reason: Seq<char>| #[trigger] kept_files_admitted(v.block(reason)),
        v.awaits(rel, file) && v.after_secret_scan(rel, file, outcome).included.len()
            > v.included.len() ==> outcome == SecretScan::Clean && passes_file_rules(rel)
            && file.relative_path@ == normalized(rel),
{
    if v.awaits(rel, file) {
        assert(passes_file_rules(rel) && normalized(rel) == file.relative_path@);
        lemma_push_admitted(v.included, file);
    }
}

/// A scan in progress.
pub struct BundleScan {
    excluded_files: u64,
    excluded_bytes: u64,
    rules: TextSet,
    blocked: TextSet,
    portable_paths: StrMap<String>,
    included: Vec<SkillFile>,
    awaiting: Option<(String, String, u64)>,
}

impl View for BundleScan {
    type V = BundleScanView;

    closed spec fn view(&self) -> BundleScanView {
        BundleScanView {
            excluded_files: self.excluded_files,
            excluded_bytes: self.excluded_bytes,
            rules: self.rules@,
            blocked: self.blocked@,
            portable_paths: self.portable_paths@,
            included: self.included@,
            awaiting: match &self.awaiting {
                Some((rel, n, size)) => Some((rel@, n@, *size)),
                None => None,
            },
        }
    }
}

impl BundleScan {
    /// The sets are sorted, the path map keeps each key once, and every kept
    /// or awaiting file was reported at a path that passes the file rules.
    pub closed spec fn wf(self) -> bool {
        &&& self.rules.wf()
        &&& self.blocked.wf()
        &&& self.portable_paths.wf()
        &&& kept_files_admitted(self@)
    }

    /// A well-formed scan keeps only files reported at paths that pass the
    /// file rules.
    pub proof fn lemma_wf_admitted(&self)
        requires
            self.wf(),
        ensures
            kept_files_admitted(self@),
    {
    }

    /// A scan that has seen nothing.
    pub fn new() -> (r: Self)
        ensures
            r.wf(),
            r@ == BundleScanView::empty(),
    {
        BundleScan {
            excluded_files: 0,
            excluded_bytes: 0,
            rules: TextSet::new(),
            blocked: TextSet::new(),
            portable_paths: StrMap::new(),
            included: Vec::new(),
            awaiting: None,
        }
    }

    /// Whether the file reported at `rel` awaits its content scan as `file`.
    pub fn awaits(&self, rel: &str, file: &SkillFile) -> (r: bool)
        ensures
            r == self@.awaits(rel@, *file),
    {
        let rel_text = String::from_str(rel);
        match &self.awaiting {
            Some((a, n, size)) => *a == rel_text && *n == file.relative_path && *size
                == file.size_bytes,
            None => false,
        }
    }

    /// How many files the scan has excluded so far.
    pub fn excluded_files(&self) -> (r: u64)
        ensures
            r == self@.excluded_files,
    {
        self.excluded_files
    }

    fn add_blocked(&mut self, reason: String)
        requires
            old(self).wf(),
        ensures
            final(self).wf(),
            final(self)@ == old(self)@.block(reason@),
    {
        self.blocked.insert(reason);
    }

    fn add_excluded(&mut self, size: u64, rule: &str)
        requires
            old(self).wf(),
            old(self)@.excluded_files < u64::MAX,
        ensures
            final(self).wf(),
            final(self)@ == old(self)@.exclude(size, rule@),
    {
        self.excluded_files = self.excluded_files + 1;
        self.excluded_bytes = self.excluded_bytes.saturating_add(size);
        self.rules.insert(String::from_str(rule));
    }

    /// An entry the walk could not read; `message` says why.
    pub fn record_walk_error(&mut self, message: &str)
        requires
            old(self).wf(),
        ensures
            final(self).wf(),
            final(self)@ == old(self)@.block("could not walk Skill tree: "@ + message@),
    {
        let mut reason = String::from_str("could not walk Skill tree: ");
        reason.append(message);
        self.add_blocked(reason);
    }

    /// An entry outside the Skill's directory.
    pub fn record_escape(&mut self)
        requires
            old(self).wf(),
        ensures
            final(self).wf(),
            final(self)@ == old(self)@.block("Skill entry escapes its bundle root"@),
    {
        self.add_blocked(String::from_str("Skill entry escapes its bundle root"));
    }

    /// An entry at `rel` whose metadata could not be read; `message` says why.
    pub fn record_inspect_error(&mut self, rel: &str, message: &str)
        requires
            old(self).wf(),
        ensures
            final(self).wf(),
            final(self)@ == old(self)@.block("could not inspect "@ + rel@ + ": "@ + message@),
    {
        let mut reason = String::from_str("could not inspect ");
        reason.append(rel);
        reason.append(": ");
        reason.append(message);
        self.add_blocked(reason);
    }

    /// A symbolic link or reparse point at `rel`.
    pub fn record_link(&mut self, rel: &str)
        requires
            old(self).wf(),
        ensures
            final(self).wf(),
            final(self)@ == old(self)@.block("symbolic link or reparse point: "@ + rel@),
    {
        let mut reason = String::from_str("symbolic link or reparse point: ");
        reason.append(rel);
        self.add_blocked(reason);
    }

    /// Something at `rel` that is neither a file, a directory nor a link.
    pub fn record_special(&mut self, rel: &str)
        requires
            old(self).wf(),
        ensures
            final(self).wf(),
            final(self)@ == old(self)@.block("special filesystem entry: "@ + rel@),
    {
        let mut reason = String::from_str("special filesystem entry: ");
        reason.append(rel);
        self.add_blocked(reason);
    }

    /// A directory at `rel`: it blocks the Skill when no supported system
    /// can hold its path.
    pub fn record_directory(&mut self, rel: &str)
        requires
            old(self).wf(),
        ensures
            final(self).wf(),
            final(self)@ == if is_portable_skill_path(rel@) {
                old(self)@
            } else {
                old(self)@.block(rel@ + ": "@ + portable_path_error(rel@))
            },
    {
        match portable_relative_path(rel) {
            Ok(_) => {},
            Err(e) => {
                let mut reason = String::from_str(rel);
                reason.append(": ");
                reason.append(e.message.as_str());
                self.add_blocked(reason);
            },
        }
    }

    /// A regular file at `rel` of `size` bytes. Returns the file's normalised
    /// path when its content is to be scanned for credentials next (see
    /// `BundleScanView::after_file`).
    pub fn record_file(&mut self, rel: &str, size: u64) -> (r: Option<String>)
        requires
            old(self).wf(),
            old(self)@.excluded_files < u64::MAX,
        ensures
            final(self).wf(),
            (final(self)@, opt_view(r)) == old(self)@.after_file(rel@, size),
    {
        self.awaiting = None;
        proof {
            assert(self@.included == old(self)@.included);
        }
        match classify_skill_path(rel) {
            SkillPathPolicy::Block(reason) => {
                self.add_excluded(size, reason);
                let mut message = String::from_str(reason);
                message.append(": ");
                message.append(rel);
                self.add_blocked(message);
                return None;
            },
            SkillPathPolicy::Exclude(reason) => {
                self.add_excluded(size, reason);
                return None;
            },
            SkillPathPolicy::Include => {},
        }
        let normalized = match portable_relative_path(rel) {
            Ok(path) => path,
            Err(e) => {
                let mut message = String::from_str(rel);
                message.append(": ");
                message.append(e.message.as_str());
                self.add_blocked(message);
                return None;
            },
        };
        let key = portable_collision_key(normalized.as_str());
        let previous = match self.portable_paths.get(&key) {
            Some(path) => Some(path.clone()),
            None => None,
        };
        self.portable_paths.insert(key, normalized.clone());
        match previous {
            Some(path) => {
                let mut message = String::from_str("portable path collision: ");
                message.append(path.as_str());
                message.append(" and ");
                message.append(normalized.as_str());
                self.add_blocked(message);
                None
            },
            None => {
                self.awaiting = Some((String::from_str(rel), normalized.clone(), size));
                Some(normalized)
            },
        }
    }

    /// The outcome of scanning the content of `file`, reported at `rel`, for
    /// credentials: a clean file is kept; a file holding a credential is
    /// excluded and blocks the Skill; a file that could not be read blocks it.
    pub fn record_secret_scan(&mut self, rel: &str, file: SkillFile, outcome: SecretScan)
        requires
            old(self).wf(),
            old(self)@.excluded_files < u64::MAX,
            old(self)@.awaits(rel@, file),
        ensures
            final(self).wf(),
            final(self)@ == old(self)@.after_secret_scan(rel@, file, outcome),
    {
        proof {
            assert(passes_file_rules(rel@) && normalized(rel@) == file.relative_path@);
        }
        self.awaiting = None;
        proof {
            assert(self@.included == old(self)@.included);
        }
        match outcome {
            SecretScan::Found => {
                self.add_excluded(file.size_bytes, "high-confidence credential content");
                let mut message = String::from_str("high-confidence credential content: ");
                message.append(rel);
                proof {
                    reveal_strlit("high-confidence credential content: ");
                    reveal_strlit("high-confidence credential content");
                    reveal_strlit(": ");
                    assert(message@ =~= credential_rule() + ": "@ + rel@);
                }
                self.add_blocked(message);
            },
            SecretScan::Clean => {
                proof {
                    assert(passes_file_rules(rel@) && normalized(rel@) == file.relative_path@);
                    lemma_push_admitted(self.included@, file);
                }
                self.included.push(file);
            },
            SecretScan::Failed(error) => {
                let mut message = String::from_str("could not scan ");
                message.append(rel);
                message.append(" for credentials: ");
                message.append(error.as_str());
                self.add_blocked(message);
            },
        }
    }

    /// The kept files in path order: the files whose content digests
    /// `finish` takes, in the same order.
    pub fn sorted_files(&self) -> (r: Vec<SkillFile>)
        ensures
            r@ == sort_files(self@.included),
    {
        sort_skill_files(&self.included)
    }

    /// The scan's result for the Skill at `canonical_bundle`, whose path under
    /// the shared root is `relative_path` and whose name is `name`.
    /// `digests` holds the SHA-256 digest of each file of `sorted_files()`,
    /// position by position, in hexadecimal.
    ///
    /// Fails when the kept files' total size does not fit in 64 bits, or when
    /// a digest is not 64 hexadecimal digits.
    pub fn finish(
        self,
        canonical_bundle: String,
        relative_path: String,
        name: String,
        digests: &Vec<String>,
    ) -> (r: Result<SharedSkillScan, RehomeError>)
        requires
            self.wf(),
            digests@.len() == self@.included.len(),
        ensures
            ({
                let files = sort_files(self@.included);
                let records = file_records(files, digests@);
                match r {
                    Ok(scan) => {
                        &&& files_total(files) <= u64::MAX
                        &&& all_digests_valid(records)
                        &&& scan.files@ == files
                        &&& all_admitted(scan.files@)
                        &&& scan.entry.content_id == uuid_v5_url(content_id_name(relative_path@))
                        &&& scan.entry.name == name
                        &&& scan.entry.source_path == canonical_bundle
                        &&& scan.entry.relative_path == relative_path
                        &&& scan.entry.size_bytes == files_total(files)
                        &&& scan.entry.thumbnail_data_url is None
                        &&& scan.entry.reveal_id is None
                        &&& scan.entry.skill_root_kind == Some(SkillRootKind::SharedAgents)
                        &&& scan.entry.lock_status is None
                        &&& scan.entry.exclusions.excluded_files == self@.excluded_files
                        &&& scan.entry.exclusions.excluded_bytes == self@.excluded_bytes
                        &&& scan.entry.exclusions.rules@.map_values(|t: String| t@) == self@.rules
                        &&& opt_view(scan.entry.blocked_reason) == joined_reasons(self@.blocked)
                        &&& opt_view(scan.entry.tree_hash) == Some(tree_hash_of(records))
                    },
                    Err(e) => {
                        &&& e.code == ErrorCode::PackageInvalid
                        &&& if files_total(files) > u64::MAX {
                            e.message@ == "shared Skill size overflowed"@
                        } else {
                            !all_digests_valid(records) && e.message@
                                == "Skill payload hash is not SHA-256"@
                        }
                    },
                }
            }),
    {
        let files = sort_skill_files(&self.included);
        proof {
            lemma_sort_files_len(self@.included);
            lemma_sort_files_admitted(self@.included);
        }
        let total = match total_size(&files) {
            Some(t) => t,
            None => {
                return Err(discovery_failed("shared Skill size overflowed"));
            },
        };
        let ghost all = file_records(files@, digests@);
        let n = files.len();
        let mut records: Vec<PayloadRecord> = Vec::new();
        let mut i: usize = 0;
        while i < n
            invariant
                n == files@.len(),
                n == digests@.len(),
                all == file_records(files@, digests@),
                i <= n,
                records@ == all.take(i as int),
            decreases n - i,
        {
            let record = (files[i].relative_path.clone(), files[i].size_bytes, digests[i].clone());
            records.push(record);
            assert(records@ =~= all.take(i + 1));
            i = i + 1;
        }
        assert(all.take(n as int) =~= all);
        let hash = match tree_hash_from_payload_records(&records) {
            Ok(h) => h,
            Err(e) => {
                return Err(e);
            },
        };
        let blocked_reason = if self.blocked.is_empty() {
            None
        } else {
            Some(self.blocked.joined("; "))
        };
        let content_id = shared_skill_content_id(relative_path.as_str());
        let rules = self.rules.to_vec();
        Ok(
            SharedSkillScan {
                entry: OptionalContentEntry {
                    content_id,
                    name,
                    source_path: canonical_bundle,
                    relative_path,
                    size_bytes: total,
                    thumbnail_data_url: None,
                    reveal_id: None,
                    skill_root_kind: Some(SkillRootKind::SharedAgents),
                    lock_status: None,
                    exclusions: ExclusionSummary {
                        excluded_files: self.excluded_files,
                        excluded_bytes: self.excluded_bytes,
                        rules,
                    },
                    blocked_reason,
                    tree_hash: Some(hash),
                },
                files,
            },
        )
    }
}

} // verus!
