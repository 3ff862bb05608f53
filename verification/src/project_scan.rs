//! Counting the files of a project that a package would carry.
use vstd::prelude::*;
use crate::error::{ErrorCode, RehomeError};
use crate::exclusions::{has_forbidden_component, is_forbidden};
use crate::paths::{is_portable_relative, normalize_entry, normalized};

verus! {

/// What a walked directory entry is (links are not followed).
#[derive(Debug, Clone, Copy, PartialEq, Eq, Structural)]
pub enum WalkedKind {
    File,
    Directory,
    Symlink,
    Other,
}

/// One entry found under a project root, with its path relative to the root.
#[derive(Debug, Clone, PartialEq, Eq)]
pub struct WalkedEntry {
    pub relative_path: String,
    pub kind: WalkedKind,
}

/// A walked entry the package would carry: a regular file outside every
/// forbidden component.
pub open spec fn is_counted(e: WalkedEntry) -> bool {
    e.kind == WalkedKind::File && !has_forbidden_component(e.relative_path@)
}

/// How many of `s` are counted.
pub open spec fn counted_total(s: Seq<WalkedEntry>) -> nat
    decreases s.len(),
{
    if s.len() == 0 {
        0
    } else {
        counted_total(s.drop_last()) + if is_counted(s.last()) {
            1nat
        } else {
            0nat
        }
    }
}

/// Every counted entry has a portable path, and no two counted entries share
/// a normalised path.
pub open spec fn counted_paths_portable_and_distinct(s: Seq<WalkedEntry>) -> bool {
    &&& forall|i: int|
        0 <= i < s.len() && is_counted(#[trigger] s[i]) ==> is_portable_relative(s[i].relative_path@)
    &&& forall|i: int, j: int|
        0 <= i < j < s.len() && is_counted(#[trigger] s[i]) && is_counted(#[trigger] s[j])
            ==> normalized(s[i].relative_path@) != normalized(s[j].relative_path@)
}

/// Entry `i` of `s` is carried but has no portable path, or shares its
/// normalised path with an earlier carried entry.
pub open spec fn entry_problem(s: Seq<WalkedEntry>, i: int) -> bool {
    &&& is_counted(s[i])
    &&& {
        ||| !is_portable_relative(s[i].relative_path@)
        ||| exists|j: int|
            0 <= j < i && is_counted(#[trigger] s[j]) && normalized(s[j].relative_path@)
                == normalized(s[i].relative_path@)
    }
}

/// Entry `i` is the first with a problem.
pub open spec fn first_problem(s: Seq<WalkedEntry>, i: int) -> bool {
    &&& 0 <= i < s.len()
    &&& entry_problem(s, i)
    &&& forall|k: int| 0 <= k < i ==> !#[trigger] entry_problem(s, k)
}

/// The message of the error for the problem of entry `i`.
pub open spec fn problem_message(s: Seq<WalkedEntry>, i: int) -> Seq<char> {
    if !is_portable_relative(s[i].relative_path@) {
        "path is not a portable relative path"@
    } else {
        "selected project contains duplicate portable file paths"@
    }
}

proof fn lemma_no_problem_before(s: Seq<WalkedEntry>, i: int)
    requires
        0 <= i <= s.len(),
        counted_paths_portable_and_distinct(s.take(i)),
    ensures
        forall|k: int| 0 <= k < i ==> !#[trigger] entry_problem(s, k),
{
    assert forall|k: int| 0 <= k < i implies !#[trigger] entry_problem(s, k) by {
        let t = s.take(i);
        assert(t[k] == s[k]);
        if entry_problem(s, k) {
            if !is_portable_relative(s[k].relative_path@) {
                assert(is_counted(t[k]));
            } else {
                let j = choose|j: int|
                    0 <= j < k && is_counted(#[trigger] s[j]) && normalized(s[j].relative_path@)
                        == normalized(s[k].relative_path@);
                assert(t[j] == s[j]);
            }
        }
    }
}

/// An error of project scanning, with the given message.
pub fn scan_failed(message: &str) -> (r: RehomeError)
    ensures
        r.code == ErrorCode::PackageInvalid,
        r.message@ == message@,
{
    RehomeError::new(ErrorCode::PackageInvalid, message)
}

/// The number of files a package would carry from a project whose walked
/// entries are `entries`, or an error at the first carried file that has no
/// portable path or shares its normalised path with an earlier one.
pub fn count_walked_files(entries: &Vec<WalkedEntry>) -> (r: Result<u64, RehomeError>)
    ensures
        match r {
            Ok(n) => counted_paths_portable_and_distinct(entries@) && n == counted_total(entries@),
            Err(e) => !counted_paths_portable_and_distinct(entries@) && e.code
                == ErrorCode::PackageInvalid && exists|i: int|
                #[trigger] first_problem(entries@, i) && e.message@ == problem_message(
                    entries@,
                    i,
                ),
        },
{
    let mut seen: Vec<String> = Vec::new();
    let ghost mut seen_at: Seq<int> = Seq::empty();
    let mut count: u64 = 0;
    let n = entries.len();
    let mut i: usize = 0;
    while i < n
        invariant
            n == entries@.len(),
            i <= n,
            count == counted_total(entries@.take(i as int)),
            count <= i,
            seen@.len() == seen_at.len(),
            forall|k: int|
                0 <= k < seen_at.len() ==> 0 <= #[trigger] seen_at[k] < i && is_counted(
                    entries@[seen_at[k]],
                ) && seen@[k]@ == normalized(entries@[seen_at[k]].relative_path@),
            forall|t: int|
                0 <= t < i && is_counted(#[trigger] entries@[t]) ==> exists|k: int|
                    0 <= k < seen_at.len() && seen_at[k] == t,
            counted_paths_portable_and_distinct(entries@.take(i as int)),
        decreases n - i,
    {
        let entry = &entries[i];
        assert(entries@.take(i + 1).drop_last() =~= entries@.take(i as int));
        let counted = entry.kind == WalkedKind::File && !is_forbidden(entry.relative_path.as_str());
        if counted {
            let normalized_path = match normalize_entry(entry.relative_path.as_str()) {
                Ok(p) => p,
                Err(e) => {
                    proof {
                        assert(is_counted(entries@[i as int]));
                        lemma_no_problem_before(entries@, i as int);
                        assert(first_problem(entries@, i as int));
                    }
                    return Err(e);
                },
            };
            let mut k: usize = 0;
            while k < seen.len()
                invariant
                    k <= seen@.len(),
                    i < n,
                    n == entries@.len(),
                    counted_paths_portable_and_distinct(entries@.take(i as int)),
                    is_portable_relative(entries@[i as int].relative_path@),
                    is_counted(entries@[i as int]),
                    normalized_path@ == normalized(entries@[i as int].relative_path@),
                    seen@.len() == seen_at.len(),
                    forall|q: int|
                        0 <= q < seen_at.len() ==> 0 <= #[trigger] seen_at[q] < i && is_counted(
                            entries@[seen_at[q]],
                        ) && seen@[q]@ == normalized(entries@[seen_at[q]].relative_path@),
                    forall|q: int| 0 <= q < k ==> #[trigger] seen@[q]@ != normalized_path@,
                decreases seen@.len() - k,
            {
                if seen[k] == normalized_path {
                    proof {
                        let t = seen_at[k as int];
                        assert(is_counted(entries@[t]) && is_counted(entries@[i as int]));
                        assert(t < i);
                        lemma_no_problem_before(entries@, i as int);
                        assert(entry_problem(entries@, i as int));
                        assert(first_problem(entries@, i as int));
                    }
                    return Err(
                        RehomeError::new(
                            ErrorCode::PackageInvalid,
                            "selected project contains duplicate portable file paths",
                        ),
                    );
                }
                k = k + 1;
            }
            proof {
                let s = entries@.take(i + 1);
                assert forall|a: int, b: int|
                    0 <= a < b < s.len() && is_counted(#[trigger] s[a]) && is_counted(
                        #[trigger] s[b],
                    ) implies normalized(s[a].relative_path@) != normalized(
                    s[b].relative_path@,
                ) by {
                    if b == i {
                        let q = choose|q: int| 0 <= q < seen_at.len() && seen_at[q] == a;
                        assert(seen@[q]@ != normalized_path@);
                    } else {
                        assert(entries@.take(i as int)[a] == s[a]);
                        assert(entries@.take(i as int)[b] == s[b]);
                    }
                }
                assert forall|a: int|
                    0 <= a < s.len() && is_counted(#[trigger] s[a]) implies is_portable_relative(
                    s[a].relative_path@,
                ) by {
                    if a < i {
                        assert(entries@.take(i as int)[a] == s[a]);
                    }
                }
            }
            seen.push(normalized_path);
            proof {
                let old_at = seen_at;
                seen_at = seen_at.push(i as int);
                assert forall|t: int|
                    0 <= t < i + 1 && is_counted(#[trigger] entries@[t]) implies exists|k: int|
                    0 <= k < seen_at.len() && seen_at[k] == t by {
                    if t == i {
                        assert(seen_at[seen_at.len() - 1] == t);
                    } else {
                        assert(exists|k: int| 0 <= k < old_at.len() && old_at[k] == t);
                        let k = choose|k: int| 0 <= k < old_at.len() && old_at[k] == t;
                        assert(seen_at[k] == t);
                    }
                }
            }
            count = count + 1;
        } else {
            proof {
                let s = entries@.take(i + 1);
                assert(!is_counted(s[i as int]));
                assert forall|a: int, b: int|
                    0 <= a < b < s.len() && is_counted(#[trigger] s[a]) && is_counted(
                        #[trigger] s[b],
                    ) implies normalized(s[a].relative_path@) != normalized(
                    s[b].relative_path@,
                ) by {
                    assert(entries@.take(i as int)[a] == s[a]);
                    assert(entries@.take(i as int)[b] == s[b]);
                }
                assert forall|a: int|
                    0 <= a < s.len() && is_counted(#[trigger] s[a]) implies is_portable_relative(
                    s[a].relative_path@,
                ) by {
                    assert(entries@.take(i as int)[a] == s[a]);
                }
            }
        }
        i = i + 1;
    }
    assert(entries@.take(n as int) =~= entries@);
    Ok(count)
}

/// Checks a selected project's root: `metadata` says whether it is a link
/// and whether it is a directory, or why it could not be inspected. It must
/// be a real directory.
pub fn project_root_is_directory(metadata: &Result<(bool, bool), String>) -> (r: Result<
    (),
    RehomeError,
>)
    ensures
        match *metadata {
            Err(m) => r matches Err(e) && e.code == ErrorCode::PackageInvalid && e.message@
                == "selected project cannot be inspected: "@ + m@,
            Ok((is_link, is_dir)) => if is_dir && !is_link {
                r == Ok::<(), RehomeError>(())
            } else {
                r matches Err(e) && e.code == ErrorCode::PackageInvalid && e.message@
                    == "selected project must be a real directory"@
            },
        },
{
    match metadata {
        Err(m) => {
            let mut message = String::from_str("selected project cannot be inspected: ");
            message.append(m.as_str());
            Err(scan_failed(message.as_str()))
        },
        Ok((is_link, is_dir)) => {
            if *is_dir && !*is_link {
                Ok(())
            } else {
                Err(scan_failed("selected project must be a real directory"))
            }
        },
    }
}

} // verus!
