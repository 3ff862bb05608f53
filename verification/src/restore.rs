//! Checks a restore plan must pass before and after it is applied.
use vstd::prelude::*;
use crate::error::{ErrorCode, RehomeError};
use crate::lock_sanitize::is_ascii_alpha;
use crate::models::{
    ChangeKind, OperationKind, PlannedOperation, RestorePlan, SourceOs, VerificationReport,
    VerificationStatus,
};
use crate::text::{chars_of, is_sep, lower_char, lower_is, lower_seq, starts_with};

verus! {

/// Package source of the merged session index.
pub const SESSION_INDEX_SOURCE: &'static str = "codex/session_index.jsonl";

/// Package source of the conversation thread metadata.
pub const THREAD_METADATA_SOURCE: &'static str = "codex/metadata/threads.json";

/// An error of applying or checking a restore, with the given message.
pub fn restore_failed(message: &str) -> (r: RehomeError)
    ensures
        r.code == ErrorCode::RestoreFailed,
        r.message@ == message@,
{
    RehomeError::new(ErrorCode::RestoreFailed, message)
}

/// `c` separates path components on `os`: `/` everywhere, and `\` too on
/// Windows.
pub open spec fn is_sep_on(os: SourceOs, c: char) -> bool {
    c == '/' || (os == SourceOs::Windows && c == '\\')
}

/// `s` starts with `\\?\` and a drive (`\\?\C:`): a verbatim disk prefix.
pub open spec fn is_verbatim_disk(s: Seq<char>) -> bool {
    s.len() >= 6 && s[0] == '\\' && s[1] == '\\' && s[2] == '?' && s[3] == '\\' && is_ascii_alpha(s[4])
        && s[5] == ':'
}

/// `s` is an absolute path on `os`. On macOS it starts at the root `/`. On
/// Windows it has a prefix and a root: a drive followed by a separator
/// (`C:\` or `C:/`), or a prefix that starts with two separators (a share
/// `\\server\share`, a device `\\.\COM1` or a verbatim path `\\?\...`),
/// where a verbatim drive (`\\?\C:`) must be followed by `\`. A path that
/// starts with a single separator, or a drive without a separator
/// (`C:temp`), is relative on Windows.
pub open spec fn is_absolute_path(os: SourceOs, s: Seq<char>) -> bool {
    match os {
        SourceOs::Macos => s.len() > 0 && s[0] == '/',
        SourceOs::Windows => {
            ||| (s.len() >= 3 && is_ascii_alpha(s[0]) && s[1] == ':' && is_sep(s[2]))
            ||| (s.len() >= 2 && is_sep(s[0]) && is_sep(s[1]) && (is_verbatim_disk(s) ==> (
            s.len() >= 7 && s[6] == '\\')))
        },
    }
}

/// `s` starts with a separator of `os`.
pub open spec fn is_rooted(os: SourceOs, s: Seq<char>) -> bool {
    s.len() > 0 && is_sep_on(os, s[0])
}

/// The component list after the component `cur`, which ends at position
/// `end`, is read: empty components are dropped, and so is `.` except where
/// it starts the path.
pub open spec fn end_component(done: Seq<Seq<char>>, cur: Seq<char>, end: int) -> Seq<Seq<char>> {
    if cur.len() == 0 || (cur == seq!['.'] && end != 1) {
        done
    } else {
        done.push(cur)
    }
}

/// Reading `s` from the start on `os`: the components ended so far, and the
/// characters of the one being read.
pub open spec fn component_scan(os: SourceOs, s: Seq<char>) -> (Seq<Seq<char>>, Seq<char>)
    decreases s.len(),
{
    if s.len() == 0 {
        (Seq::empty(), Seq::empty())
    } else {
        let (done, cur) = component_scan(os, s.drop_last());
        if is_sep_on(os, s.last()) {
            (end_component(done, cur, s.len() - 1), Seq::empty())
        } else {
            (done, cur.push(s.last()))
        }
    }
}

/// The components of `s` on `os`, in order, as `Path::components` gives
/// them past the root: the runs between separators, without empty ones and
/// without `.` except a `.` that starts the path. (On Windows a prefix such
/// as `C:` is read as part of the first component.)
pub open spec fn path_components(os: SourceOs, s: Seq<char>) -> Seq<Seq<char>> {
    let (done, cur) = component_scan(os, s);
    end_component(done, cur, s.len() as int)
}

/// `a` is a prefix of `b`.
pub open spec fn is_prefix(a: Seq<Seq<char>>, b: Seq<Seq<char>>) -> bool {
    a.len() <= b.len() && forall|k: int| 0 <= k < a.len() ==> #[trigger] a[k] == b[k]
}

/// On `os`, the components of `base` are the leading components of `p`:
/// `base` has no root and no component, or both are rooted or neither is and
/// the components of `base` come first in `p`.
pub open spec fn path_starts_with(os: SourceOs, p: Seq<char>, base: Seq<char>) -> bool {
    let cp = path_components(os, p);
    let cb = path_components(os, base);
    ||| (cb.len() == 0 && !is_rooted(os, base))
    ||| (is_rooted(os, p) == is_rooted(os, base) && is_prefix(cb, cp))
}

/// On `os`, two restore roots overlap: either lies inside the other.
pub open spec fn roots_overlap(os: SourceOs, a: Seq<char>, b: Seq<char>) -> bool {
    path_starts_with(os, a, b) || path_starts_with(os, b, a)
}

/// Every root of the plan is an absolute path on `os`.
pub open spec fn plan_paths_absolute(os: SourceOs, plan: RestorePlan) -> bool {
    &&& is_absolute_path(os, plan.package_path@)
    &&& is_absolute_path(os, plan.target_codex_home@)
    &&& is_absolute_path(os, plan.projects_root@)
    &&& is_absolute_path(os, plan.target_agents_skills_root@)
    &&& is_absolute_path(os, plan.target_skill_lock_path@)
}

/// The plan still holds an unresolved conflict.
pub open spec fn plan_has_conflict(plan: RestorePlan) -> bool {
    plan.conflict_count > 0 || exists|i: int|
        0 <= i < plan.operations@.len() && #[trigger] plan.operations@[i].action
            == ChangeKind::Conflict
}

/// On `os`, two of the Codex home, projects root and shared Skills root
/// overlap.
pub open spec fn plan_roots_overlap(os: SourceOs, plan: RestorePlan) -> bool {
    ||| roots_overlap(os, plan.target_codex_home@, plan.projects_root@)
    ||| roots_overlap(os, plan.target_codex_home@, plan.target_agents_skills_root@)
    ||| roots_overlap(os, plan.projects_root@, plan.target_agents_skills_root@)
}

/// `a` and `b` are equal ignoring ASCII case.
pub open spec fn eq_ignore_case(a: Seq<char>, b: Seq<char>) -> bool {
    lower_seq(a) == lower_seq(b)
}

/// Whether `s` is an absolute path on `os`.
pub fn is_absolute(os: SourceOs, s: &String) -> (r: bool)
    ensures
        r == is_absolute_path(os, s@),
{
    let v = chars_of(s.as_str());
    match os {
        SourceOs::Macos => v.len() > 0 && v[0] == '/',
        SourceOs::Windows => {
            let drive = v.len() >= 3 && (('a' <= v[0] && v[0] <= 'z') || ('A' <= v[0] && v[0]
                <= 'Z')) && v[1] == ':' && (v[2] == '/' || v[2] == '\\');
            let two_seps = v.len() >= 2 && (v[0] == '/' || v[0] == '\\') && (v[1] == '/' || v[1]
                == '\\');
            let verbatim_disk = v.len() >= 6 && v[0] == '\\' && v[1] == '\\' && v[2] == '?' && v[3]
                == '\\' && (('a' <= v[4] && v[4] <= 'z') || ('A' <= v[4] && v[4] <= 'Z')) && v[5]
                == ':';
            drive || (two_seps && (!verbatim_disk || (v.len() >= 7 && v[6] == '\\')))
        },
    }
}

fn chars_start_with_dir(p: &Vec<char>, base: &Vec<char>) -> (r: bool)
    ensures
        r == starts_with(p@, base@.push('/')),
{
    if base.len() >= p.len() {
        return false;
    }
    let mut i: usize = 0;
    while i < base.len()
        invariant
            base@.len() < p@.len(),
            i <= base@.len(),
            forall|k: int| 0 <= k < i ==> p@[k] == base@[k],
        decreases base@.len() - i,
    {
        if p[i] != base[i] {
            assert(p@.subrange(0, base@.len() as int + 1)[i as int] != base@.push('/')[i as int]);
            return false;
        }
        i = i + 1;
    }
    let r = p[base.len()] == '/';
    proof {
        if r {
            assert(p@.subrange(0, base@.len() as int + 1) =~= base@.push('/'));
        } else {
            assert(p@.subrange(0, base@.len() as int + 1)[base@.len() as int] != base@.push(
                '/',
            )[base@.len() as int]);
        }
    }
    r
}

/// Where each component of `v` lies on `os` (see `path_components`).
fn component_ranges(os: SourceOs, v: &Vec<char>) -> (r: Vec<(usize, usize)>)
    ensures
        r@.len() == path_components(os, v@).len(),
        forall|k: int|
            #![trigger r@[k]]
            0 <= k < r@.len() ==> r@[k].0 <= r@[k].1 <= v@.len() && v@.subrange(
                r@[k].0 as int,
                r@[k].1 as int,
            ) == path_components(os, v@)[k],
{
    let n = v.len();
    let windows = os == SourceOs::Windows;
    let mut ranges: Vec<(usize, usize)> = Vec::new();
    let mut start: usize = 0;
    let mut i: usize = 0;
    while i < n
        invariant
            n == v@.len(),
            windows == (os == SourceOs::Windows),
            start <= i <= n,
            component_scan(os, v@.take(i as int)).1 == v@.subrange(start as int, i as int),
            ranges@.len() == component_scan(os, v@.take(i as int)).0.len(),
            forall|k: int|
                #![trigger ranges@[k]]
                0 <= k < ranges@.len() ==> ranges@[k].0 <= ranges@[k].1 <= start && v@.subrange(
                    ranges@[k].0 as int,
                    ranges@[k].1 as int,
                ) == component_scan(os, v@.take(i as int)).0[k],
        decreases n - i,
    {
        let ghost prev = component_scan(os, v@.take(i as int));
        let ghost old_ranges = ranges@;
        assert(v@.take(i + 1).drop_last() =~= v@.take(i as int));
        assert(v@.take(i + 1).last() == v@[i as int]);
        let ghost next = component_scan(os, v@.take(i + 1));
        let c = v[i];
        if c == '/' || (windows && c == '\\') {
            let dot = i - start == 1 && v[start] == '.';
            if start < i && !(dot && i != 1) {
                proof {
                    if dot {
                        assert(v@.subrange(start as int, i as int) =~= seq!['.']);
                    }
                    if !dot && i - start == 1 {
                        assert(v@.subrange(start as int, i as int) != seq!['.']) by {
                            assert(v@.subrange(start as int, i as int)[0] == v@[start as int]);
                        }
                    }
                }
                ranges.push((start, i));
                assert(next.0 == prev.0.push(prev.1));
            } else {
                proof {
                    if dot {
                        assert(v@.subrange(start as int, i as int) =~= seq!['.']);
                    }
                }
                assert(next.0 == prev.0);
            }
            start = i + 1;
            assert forall|k: int| 0 <= k < ranges@.len() implies #[trigger] ranges@[k].0
                <= ranges@[k].1 <= start && v@.subrange(ranges@[k].0 as int, ranges@[k].1 as int)
                == next.0[k] by {
                if k < old_ranges.len() {
                    assert(ranges@[k] == old_ranges[k]);
                    assert(next.0[k] == prev.0[k]);
                }
            }
            assert(next.1 =~= v@.subrange(start as int, i + 1));
        } else {
            assert(prev.1.push(v@[i as int]) =~= v@.subrange(start as int, i + 1));
            assert(next.0 == prev.0);
            assert forall|k: int| 0 <= k < ranges@.len() implies #[trigger] ranges@[k].0
                <= ranges@[k].1 <= start && v@.subrange(ranges@[k].0 as int, ranges@[k].1 as int)
                == next.0[k] by {
                assert(ranges@[k] == old_ranges[k]);
                assert(next.0[k] == prev.0[k]);
            }
        }
        i = i + 1;
        assert(component_scan(os, v@.take(i as int)) == next);
    }
    assert(v@.take(n as int) =~= v@);
    assert(component_scan(os, v@.take(n as int)) == component_scan(os, v@));
    let ghost done = component_scan(os, v@).0;
    let ghost before = ranges@;
    let dot = n > start && n - start == 1 && v[start] == '.';
    if start < n && !(dot && n != 1) {
        proof {
            if !dot && n - start == 1 {
                assert(v@.subrange(start as int, n as int) != seq!['.']) by {
                    assert(v@.subrange(start as int, n as int)[0] == v@[start as int]);
                }
            }
        }
        ranges.push((start, n));
    } else {
        proof {
            if dot {
                assert(v@.subrange(start as int, n as int) =~= seq!['.']);
            }
        }
    }
    assert forall|k: int| 0 <= k < ranges@.len() implies #[trigger] ranges@[k].0 <= ranges@[k].1
        <= v@.len() && v@.subrange(ranges@[k].0 as int, ranges@[k].1 as int) == path_components(
        os,
        v@,
    )[k] by {
        if k < before.len() {
            assert(ranges@[k] == before[k]);
            assert(path_components(os, v@)[k] == done[k]);
        }
    }
    ranges
}

fn ranges_equal(a: &Vec<char>, ra: (usize, usize), b: &Vec<char>, rb: (usize, usize)) -> (r: bool)
    requires
        ra.0 <= ra.1 <= a@.len(),
        rb.0 <= rb.1 <= b@.len(),
    ensures
        r == (a@.subrange(ra.0 as int, ra.1 as int) == b@.subrange(rb.0 as int, rb.1 as int)),
{
    let len = ra.1 - ra.0;
    if len != rb.1 - rb.0 {
        assert(a@.subrange(ra.0 as int, ra.1 as int).len() != b@.subrange(rb.0 as int, rb.1 as int).len());
        return false;
    }
    let ghost sa = a@.subrange(ra.0 as int, ra.1 as int);
    let ghost sb = b@.subrange(rb.0 as int, rb.1 as int);
    let mut i: usize = 0;
    while i < len
        invariant
            ra.0 <= ra.1 <= a@.len(),
            rb.0 <= rb.1 <= b@.len(),
            len == ra.1 - ra.0,
            len == rb.1 - rb.0,
            sa == a@.subrange(ra.0 as int, ra.1 as int),
            sb == b@.subrange(rb.0 as int, rb.1 as int),
            i <= len,
            forall|k: int| 0 <= k < i ==> #[trigger] sa[k] == sb[k],
        decreases len - i,
    {
        assert(sa[i as int] == a@[ra.0 + i]);
        assert(sb[i as int] == b@[rb.0 + i]);
        if a[ra.0 + i] != b[rb.0 + i] {
            return false;
        }
        i = i + 1;
    }
    assert(sa =~= sb);
    true
}

/// Whether, on `os`, the path `p` lies inside (or is) the path `base`.
pub fn path_is_within(os: SourceOs, p: &String, base: &String) -> (r: bool)
    ensures
        r == path_starts_with(os, p@, base@),
{
    let pv = chars_of(p.as_str());
    let bv = chars_of(base.as_str());
    let windows = os == SourceOs::Windows;
    let p_rooted = pv.len() > 0 && (pv[0] == '/' || (windows && pv[0] == '\\'));
    let b_rooted = bv.len() > 0 && (bv[0] == '/' || (windows && bv[0] == '\\'));
    let pc = component_ranges(os, &pv);
    let bc = component_ranges(os, &bv);
    let ghost cp = path_components(os, p@);
    let ghost cb = path_components(os, base@);
    if bc.len() == 0 && !b_rooted {
        return true;
    }
    if p_rooted != b_rooted || bc.len() > pc.len() {
        return false;
    }
    let mut k: usize = 0;
    while k < bc.len()
        invariant
            bc@.len() <= pc@.len(),
            pc@.len() == cp.len(),
            bc@.len() == cb.len(),
            cp == path_components(os, pv@),
            cb == path_components(os, bv@),
            pv@ == p@,
            bv@ == base@,
            !(cb.len() == 0 && !is_rooted(os, base@)),
            forall|j: int|
                #![trigger pc@[j]]
                0 <= j < pc@.len() ==> pc@[j].0 <= pc@[j].1 <= pv@.len() && pv@.subrange(
                    pc@[j].0 as int,
                    pc@[j].1 as int,
                ) == cp[j],
            forall|j: int|
                #![trigger bc@[j]]
                0 <= j < bc@.len() ==> bc@[j].0 <= bc@[j].1 <= bv@.len() && bv@.subrange(
                    bc@[j].0 as int,
                    bc@[j].1 as int,
                ) == cb[j],
            k <= bc@.len(),
            forall|j: int| 0 <= j < k ==> #[trigger] cb[j] == cp[j],
        decreases bc@.len() - k,
    {
        let ghost _a = pc@[k as int];
        let ghost _b = bc@[k as int];
        if !ranges_equal(&pv, pc[k], &bv, bc[k]) {
            assert(cb[k as int] != cp[k as int]);
            return false;
        }
        k = k + 1;
    }
    true
}

/// Whether `a` and `b` are equal ignoring ASCII case.
pub fn eq_ignore_ascii_case(a: &String, b: &String) -> (r: bool)
    ensures
        r == eq_ignore_case(a@, b@),
{
    let av = chars_of(a.as_str());
    let bv = chars_of(b.as_str());
    if av.len() != bv.len() {
        proof {
            assert(lower_seq(a@).len() != lower_seq(b@).len());
        }
        return false;
    }
    let mut i: usize = 0;
    while i < av.len()
        invariant
            av@ == a@,
            bv@ == b@,
            av@.len() == bv@.len(),
            i <= av@.len(),
            forall|k: int| 0 <= k < i ==> lower_char(av@[k]) == lower_char(bv@[k]),
        decreases av@.len() - i,
    {
        let x = av[i];
        let y = bv[i];
        let same = if 'A' <= y && y <= 'Z' {
            lower_is(x, y) || lower_is(x, ((y as u8) + 32) as char)
        } else {
            lower_is(x, y)
        };
        proof {
            if 'A' <= y && y <= 'Z' {
                assert(((y as u8) + 32) as char == lower_char(y));
            }
        }
        if !same {
            proof {
                assert(lower_seq(a@)[i as int] != lower_seq(b@)[i as int]);
            }
            return false;
        }
        i = i + 1;
    }
    assert(lower_seq(a@) =~= lower_seq(b@));
    true
}

/// Checks that the plan's roots are absolute, that it holds no unresolved
/// conflict, and that the Codex home, projects root and shared Skills root do
/// not overlap, in that order.
pub fn validate_plan(plan: &RestorePlan, os: SourceOs) -> (r: Result<(), RehomeError>)
    ensures
        match r {
            Ok(()) => plan_paths_absolute(os, *plan) && !plan_has_conflict(*plan)
                && !plan_roots_overlap(os, *plan),
            Err(e) => if !plan_paths_absolute(os, *plan) {
                e.code == ErrorCode::RestoreFailed && e.message@
                    == "restore plan paths must be absolute"@
            } else if plan_has_conflict(*plan) {
                e.code == ErrorCode::ProjectConflict && e.message@
                    == "restore plan contains unresolved conflicts"@
            } else {
                plan_roots_overlap(os, *plan) && e.code == ErrorCode::RestoreFailed && e.message@
                    == "restore roots must not overlap"@
            },
        },
{
    if !is_absolute(os, &plan.package_path) || !is_absolute(os, &plan.target_codex_home)
        || !is_absolute(os, &plan.projects_root) || !is_absolute(
        os,
        &plan.target_agents_skills_root,
    ) || !is_absolute(os, &plan.target_skill_lock_path) {
        return Err(RehomeError::new(ErrorCode::RestoreFailed, "restore plan paths must be absolute"));
    }
    let mut conflict = plan.conflict_count > 0;
    let mut i: usize = 0;
    while i < plan.operations.len() && !conflict
        invariant
            i <= plan.operations@.len(),
            conflict ==> plan_has_conflict(*plan),
            !conflict ==> plan.conflict_count == 0 && forall|k: int|
                0 <= k < i ==> #[trigger] plan.operations@[k].action != ChangeKind::Conflict,
        decreases plan.operations@.len() - i,
    {
        if plan.operations[i].action == ChangeKind::Conflict {
            conflict = true;
        }
        i = i + 1;
    }
    if conflict {
        return Err(
            RehomeError::new(ErrorCode::ProjectConflict, "restore plan contains unresolved conflicts"),
        );
    }
    if path_is_within(os, &plan.target_codex_home, &plan.projects_root) || path_is_within(
        os,
        &plan.projects_root,
        &plan.target_codex_home,
    ) || path_is_within(os, &plan.target_codex_home, &plan.target_agents_skills_root)
        || path_is_within(os, &plan.target_agents_skills_root, &plan.target_codex_home)
        || path_is_within(os, &plan.projects_root, &plan.target_agents_skills_root)
        || path_is_within(os, &plan.target_agents_skills_root, &plan.projects_root) {
        return Err(RehomeError::new(ErrorCode::RestoreFailed, "restore roots must not overlap"));
    }
    Ok(())
}

/// Every data check of a restore passed (registration with Codex aside).
pub open spec fn data_checks_passed(report: VerificationReport) -> bool {
    &&& report.package_checksum_valid
    &&& report.files_valid
    &&& report.sessions_valid
    &&& report.session_index_valid
    &&& report.sqlite_threads_valid
    &&& report.path_mapping_valid
    &&& report.forbidden_files_absent
    &&& report.project_files_valid
    &&& report.shared_skill_files_valid
    &&& report.skill_lock_merge != VerificationStatus::Failed
}

/// Whether every data check of a restore passed.
pub fn data_verification_passed(report: &VerificationReport) -> (r: bool)
    ensures
        r == data_checks_passed(*report),
{
    report.package_checksum_valid && report.files_valid && report.sessions_valid
        && report.session_index_valid && report.sqlite_threads_valid && report.path_mapping_valid
        && report.forbidden_files_absent && report.project_files_valid
        && report.shared_skill_files_valid && report.skill_lock_merge != VerificationStatus::Failed
}

/// The payload `source` is written by the conversation bridge rather than
/// copied: the session index, the thread metadata, or a planned session.
pub open spec fn is_bridge_source(plan: RestorePlan, source: Seq<char>) -> bool {
    ||| source == SESSION_INDEX_SOURCE@
    ||| source == THREAD_METADATA_SOURCE@
    ||| exists|i: int|
        0 <= i < plan.sessions@.len() && #[trigger] plan.sessions@[i].package_source@ == source
}

/// Whether the payload `source` is written by the conversation bridge.
pub fn is_bridge_operation(plan: &RestorePlan, source: &String) -> (r: bool)
    ensures
        r == is_bridge_source(*plan, source@),
{
    let index = String::from_str(SESSION_INDEX_SOURCE);
    let threads = String::from_str(THREAD_METADATA_SOURCE);
    if *source == index || *source == threads {
        return true;
    }
    let mut i: usize = 0;
    while i < plan.sessions.len()
        invariant
            i <= plan.sessions@.len(),
            forall|k: int| 0 <= k < i ==> #[trigger] plan.sessions@[k].package_source@ != source@,
        decreases plan.sessions@.len() - i,
    {
        if plan.sessions[i].package_source == *source {
            return true;
        }
        i = i + 1;
    }
    false
}

/// A package payload exists at exactly `source`.
pub open spec fn has_payload(payload_sources: Seq<String>, source: Seq<char>) -> bool {
    exists|i: int| 0 <= i < payload_sources.len() && #[trigger] payload_sources[i]@ == source
}

/// A package payload lies inside the directory `source`.
pub open spec fn has_payload_under(payload_sources: Seq<String>, source: Seq<char>) -> bool {
    exists|i: int|
        0 <= i < payload_sources.len() && starts_with(#[trigger] payload_sources[i]@, source.push('/'))
}

/// The package holds what the operation needs: its file or lock payload, or
/// for a Skill bundle its content ID and at least one payload inside it.
pub open spec fn operation_has_payload(op: PlannedOperation, payload_sources: Seq<String>) -> bool {
    match op.operation_kind {
        OperationKind::File | OperationKind::SkillLock => has_payload(
            payload_sources,
            op.package_source@,
        ),
        OperationKind::SkillBundle => op.content_id is Some && has_payload_under(
            payload_sources,
            op.package_source@,
        ),
    }
}

/// The verified package is the one the plan was made for and holds every
/// payload the plan needs.
pub open spec fn package_matches_plan(
    plan: RestorePlan,
    package_id: u128,
    archive_hash: Seq<char>,
    payload_sources: Seq<String>,
) -> bool {
    &&& package_id == plan.package_id
    &&& eq_ignore_case(archive_hash, plan.archive_hash@)
    &&& forall|i: int|
        0 <= i < plan.operations@.len() ==> operation_has_payload(
            #[trigger] plan.operations@[i],
            payload_sources,
        )
}

fn string_starts_with_dir(s: &String, dir: &String) -> (r: bool)
    ensures
        r == starts_with(s@, dir@.push('/')),
{
    let sv = chars_of(s.as_str());
    let dv = chars_of(dir.as_str());
    chars_start_with_dir(&sv, &dv)
}

fn payload_present(payload_sources: &Vec<String>, source: &String) -> (r: bool)
    ensures
        r == has_payload(payload_sources@, source@),
{
    let mut i: usize = 0;
    while i < payload_sources.len()
        invariant
            i <= payload_sources@.len(),
            forall|k: int| 0 <= k < i ==> #[trigger] payload_sources@[k]@ != source@,
        decreases payload_sources@.len() - i,
    {
        if payload_sources[i] == *source {
            return true;
        }
        i = i + 1;
    }
    false
}

fn payload_present_under(payload_sources: &Vec<String>, source: &String) -> (r: bool)
    ensures
        r == has_payload_under(payload_sources@, source@),
{
    let mut i: usize = 0;
    while i < payload_sources.len()
        invariant
            i <= payload_sources@.len(),
            forall|k: int|
                0 <= k < i ==> !starts_with(#[trigger] payload_sources@[k]@, source@.push('/')),
        decreases payload_sources@.len() - i,
    {
        if string_starts_with_dir(&payload_sources[i], source) {
            return true;
        }
        i = i + 1;
    }
    false
}

/// Operation `i` is the first whose payload the package lacks.
pub open spec fn first_missing_payload(plan: RestorePlan, payload_sources: Seq<String>, i: int) -> bool {
    &&& 0 <= i < plan.operations@.len()
    &&& !operation_has_payload(plan.operations@[i], payload_sources)
    &&& forall|k: int|
        0 <= k < i ==> operation_has_payload(#[trigger] plan.operations@[k], payload_sources)
}

/// The message of the error for an operation whose payload is missing.
pub open spec fn missing_payload_message(op: PlannedOperation) -> Seq<char> {
    match op.operation_kind {
        OperationKind::SkillBundle => "Skill bundle operation references missing package payloads"@,
        _ => "restore operation references a missing package payload: "@ + op.package_source@,
    }
}

/// Checks that the verified package (its ID, archive hash and payload
/// sources) is the one the plan was made for and holds every payload the
/// plan's operations read.
pub fn validate_package_identity(
    plan: &RestorePlan,
    package_id: u128,
    archive_hash: &String,
    payload_sources: &Vec<String>,
) -> (r: Result<(), RehomeError>)
    ensures
        r is Ok <==> package_matches_plan(*plan, package_id, archive_hash@, payload_sources@),
        r matches Err(e) ==> e.code == ErrorCode::PackageInvalid && if package_id
            != plan.package_id {
            e.message@ == "restore plan package ID does not match the package"@
        } else if !eq_ignore_case(archive_hash@, plan.archive_hash@) {
            e.message@ == "restore plan archive hash does not match the package"@
        } else {
            exists|i: int|
                #[trigger] first_missing_payload(*plan, payload_sources@, i) && e.message@
                    == missing_payload_message(plan.operations@[i])
        },
{
    if package_id != plan.package_id {
        return Err(
            RehomeError::new(
                ErrorCode::PackageInvalid,
                "restore plan package ID does not match the package",
            ),
        );
    }
    if !eq_ignore_ascii_case(archive_hash, &plan.archive_hash) {
        return Err(
            RehomeError::new(
                ErrorCode::PackageInvalid,
                "restore plan archive hash does not match the package",
            ),
        );
    }
    let mut i: usize = 0;
    while i < plan.operations.len()
        invariant
            i <= plan.operations@.len(),
            package_id == plan.package_id,
            eq_ignore_case(archive_hash@, plan.archive_hash@),
            forall|k: int|
                0 <= k < i ==> operation_has_payload(#[trigger] plan.operations@[k], payload_sources@),
        decreases plan.operations@.len() - i,
    {
        let operation = &plan.operations[i];
        match operation.operation_kind {
            OperationKind::File | OperationKind::SkillLock => {
                if !payload_present(payload_sources, &operation.package_source) {
                    let mut message = String::from_str(
                        "restore operation references a missing package payload: ",
                    );
                    message.append(operation.package_source.as_str());
                    assert(first_missing_payload(*plan, payload_sources@, i as int));
                    return Err(RehomeError { code: ErrorCode::PackageInvalid, message });
                }
            },
            OperationKind::SkillBundle => {
                if operation.content_id.is_none() || !payload_present_under(
                    payload_sources,
                    &operation.package_source,
                ) {
                    assert(first_missing_payload(*plan, payload_sources@, i as int));
                    return Err(
                        RehomeError::new(
                            ErrorCode::PackageInvalid,
                            "Skill bundle operation references missing package payloads",
                        ),
                    );
                }
            },
        }
        i = i + 1;
    }
    Ok(())
}

/// What checking the merged Skill lock after a restore needs.
#[derive(Debug, Clone, PartialEq, Eq)]
pub enum SkillLockCheck {
    /// The outcome is known from the plan alone.
    Decided(VerificationStatus),
    /// Hash the target of the operation at this index and compare it.
    CompareTarget(usize),
}

/// The first Skill lock operation of the plan, if any.
pub open spec fn first_lock_operation(plan: RestorePlan, i: int) -> bool {
    &&& 0 <= i < plan.operations@.len()
    &&& plan.operations@[i].operation_kind == OperationKind::SkillLock
    &&& forall|k: int|
        0 <= k < i ==> #[trigger] plan.operations@[k].operation_kind != OperationKind::SkillLock
}

/// How the merged Skill lock is checked: skipped without a lock operation,
/// for a preserved lock, and for an unchanged lock with no expected hash;
/// failed when a written lock has no expected hash; otherwise by comparing
/// the target's hash with the expected one.
pub fn skill_lock_check(plan: &RestorePlan) -> (r: SkillLockCheck)
    ensures
        (forall|k: int|
            0 <= k < plan.operations@.len() ==> #[trigger] plan.operations@[k].operation_kind
                != OperationKind::SkillLock) ==> r == SkillLockCheck::Decided(
            VerificationStatus::Skipped,
        ),
        forall|i: int| #[trigger]
            first_lock_operation(*plan, i) ==> {
                let op = plan.operations@[i];
                if op.action == ChangeKind::Preserve || (op.action == ChangeKind::Unchanged
                    && op.expected_final_hash is None) {
                    r == SkillLockCheck::Decided(VerificationStatus::Skipped)
                } else if op.expected_final_hash is None {
                    r == SkillLockCheck::Decided(VerificationStatus::Failed)
                } else {
                    r == SkillLockCheck::CompareTarget(i as usize)
                }
            },
{
    let mut i: usize = 0;
    while i < plan.operations.len()
        invariant
            i <= plan.operations@.len(),
            forall|k: int|
                0 <= k < i ==> #[trigger] plan.operations@[k].operation_kind
                    != OperationKind::SkillLock,
        decreases plan.operations@.len() - i,
    {
        let operation = &plan.operations[i];
        if operation.operation_kind == OperationKind::SkillLock {
            proof {
                assert(first_lock_operation(*plan, i as int));
                assert forall|j: int| #[trigger] first_lock_operation(*plan, j) implies j == i by {
                    if j < i {
                    } else if j > i {
                        assert(plan.operations@[i as int].operation_kind != OperationKind::SkillLock);
                    }
                }
            }
            if operation.action == ChangeKind::Preserve {
                return SkillLockCheck::Decided(VerificationStatus::Skipped);
            }
            if operation.action == ChangeKind::Unchanged && operation.expected_final_hash.is_none() {
                return SkillLockCheck::Decided(VerificationStatus::Skipped);
            }
            if operation.expected_final_hash.is_none() {
                return SkillLockCheck::Decided(VerificationStatus::Failed);
            }
            return SkillLockCheck::CompareTarget(i);
        }
        i = i + 1;
    }
    SkillLockCheck::Decided(VerificationStatus::Skipped)
}

/// The outcome of comparing the restored lock's hash (`None` when the file is
/// missing) with the expected one.
pub fn skill_lock_hash_status(expected: &String, actual: &Option<String>) -> (r: VerificationStatus)
    ensures
        r == (match actual {
            Some(a) => if eq_ignore_case(a@, expected@) {
                VerificationStatus::Passed
            } else {
                VerificationStatus::Failed
            },
            None => VerificationStatus::Failed,
        }),
{
    match actual {
        Some(a) => if eq_ignore_ascii_case(a, expected) {
            VerificationStatus::Passed
        } else {
            VerificationStatus::Failed
        },
        None => VerificationStatus::Failed,
    }
}

} // verus!
