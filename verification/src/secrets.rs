//! Recognition of high-confidence credentials in raw bytes.
//!
//! Two shapes count: a PEM private-key block (`-----BEGIN ` followed, within
//! 256 bytes of its start, by `PRIVATE KEY-----`) and a known token prefix
//! followed by enough token characters (ASCII letters, digits, `_`, `-`).
use vstd::prelude::*;

verus! {

/// How far after `-----BEGIN ` the `PRIVATE KEY-----` marker may end, and how
/// many bytes of one chunk are carried into the next when a file is scanned
/// in chunks.
pub const SECRET_SCAN_OVERLAP_BYTES: usize = 256;

/// `p` occurs in `s` at position `i`.
pub open spec fn bytes_at(s: Seq<u8>, p: Seq<u8>, i: int) -> bool {
    0 <= i && i + p.len() <= s.len() && s.subrange(i, i + p.len()) == p
}

/// A byte that may continue a token: an ASCII letter or digit, `_` or `-`.
pub open spec fn is_token_byte(b: u8) -> bool {
    (48 <= b <= 57) || (97 <= b <= 122) || (65 <= b <= 90) || b == 95 || b == 45
}

/// `-----BEGIN `
pub open spec fn pem_begin() -> Seq<u8> {
    seq![45, 45, 45, 45, 45, 66, 69, 71, 73, 78, 32]
}

/// `PRIVATE KEY-----`
pub open spec fn pem_private_key_end() -> Seq<u8> {
    seq![
        80, 82, 73, 86, 65, 84, 69, 32, 75, 69, 89, 45, 45, 45, 45, 45,
    ]
}

/// `ghp_`
pub open spec fn github_token_prefix() -> Seq<u8> {
    seq![103, 104, 112, 95]
}

/// `github_pat_`
pub open spec fn github_pat_prefix() -> Seq<u8> {
    seq![103, 105, 116, 104, 117, 98, 95, 112, 97, 116, 95]
}

/// `sk-`
pub open spec fn secret_key_prefix() -> Seq<u8> {
    seq![115, 107, 45]
}

/// `xoxb-`
pub open spec fn slack_bot_prefix() -> Seq<u8> {
    seq![120, 111, 120, 98, 45]
}

/// A private-key block starts at `i`: `-----BEGIN ` there, and
/// `PRIVATE KEY-----` wholly inside `bytes[i..i + 256]`.
pub open spec fn private_key_header_at(bytes: Seq<u8>, i: int) -> bool {
    &&& bytes_at(bytes, pem_begin(), i)
    &&& exists|j: int|
        #![trigger bytes_at(bytes, pem_private_key_end(), j)]
        i <= j && j + pem_private_key_end().len() <= i + SECRET_SCAN_OVERLAP_BYTES
            && bytes_at(bytes, pem_private_key_end(), j)
}

/// Some private-key block starts in `bytes`.
pub open spec fn has_private_key_header(bytes: Seq<u8>) -> bool {
    exists|i: int| #[trigger] private_key_header_at(bytes, i)
}

/// A token with `prefix` starts at `i` and, prefix included, is at least
/// `minimum` bytes long.
pub open spec fn token_at(bytes: Seq<u8>, prefix: Seq<u8>, minimum: int, i: int) -> bool {
    &&& bytes_at(bytes, prefix, i)
    &&& i + minimum <= bytes.len()
    &&& forall|k: int| i + prefix.len() <= k < i + minimum ==> is_token_byte(#[trigger] bytes[k])
}

/// Some token with `prefix` of at least `minimum` bytes occurs in `bytes`.
pub open spec fn has_token(bytes: Seq<u8>, prefix: Seq<u8>, minimum: int) -> bool {
    exists|i: int| #[trigger] token_at(bytes, prefix, minimum, i)
}

/// `bytes` holds a private-key block or a GitHub, API-key or Slack-bot token.
pub open spec fn has_high_confidence_secret(bytes: Seq<u8>) -> bool {
    ||| has_private_key_header(bytes)
    ||| has_token(bytes, github_token_prefix(), 36)
    ||| has_token(bytes, github_pat_prefix(), 48)
    ||| has_token(bytes, secret_key_prefix(), 32)
    ||| has_token(bytes, slack_bot_prefix(), 32)
}

fn matches_at(bytes: &[u8], p: &Vec<u8>, i: usize) -> (r: bool)
    ensures
        r == bytes_at(bytes@, p@, i as int),
{
    if p.len() > bytes.len() || i > bytes.len() - p.len() {
        return false;
    }
    let n = bytes.len();
    let mut k: usize = 0;
    while k < p.len()
        invariant
            n == bytes@.len(),
            i + p@.len() <= bytes@.len(),
            k <= p@.len(),
            forall|t: int| 0 <= t < k ==> bytes@[i + t] == p@[t],
        decreases p@.len() - k,
    {
        let idx: usize = i + k;
        if bytes[idx] != p[k] {
            assert(bytes@.subrange(i as int, i + p@.len())[k as int] != p@[k as int]);
            return false;
        }
        k = k + 1;
    }
    assert(bytes@.subrange(i as int, i + p@.len()) =~= p@);
    true
}

fn token_byte(b: u8) -> (r: bool)
    ensures
        r == is_token_byte(b),
{
    (48 <= b && b <= 57) || (97 <= b && b <= 122) || (65 <= b && b <= 90) || b == 95
        || b == 45
}

/// Whether a private-key block starts somewhere in `bytes`.
pub fn contains_private_key_header(bytes: &[u8]) -> (r: bool)
    ensures
        r == has_private_key_header(bytes@),
{
    let begin: Vec<u8> = vec![45, 45, 45, 45, 45, 66, 69, 71, 73, 78, 32];
    let end: Vec<u8> = vec![80, 82, 73, 86, 65, 84, 69, 32, 75, 69, 89, 45, 45, 45, 45, 45];
    assert(begin@ =~= pem_begin());
    assert(end@ =~= pem_private_key_end());
    let n = bytes.len();
    let mut i: usize = 0;
    while i < n
        invariant
            n == bytes@.len(),
            begin@ == pem_begin(),
            end@ == pem_private_key_end(),
            i <= n,
            forall|t: int| 0 <= t < i ==> !#[trigger] private_key_header_at(bytes@, t),
        decreases n - i,
    {
        if matches_at(bytes, &begin, i) {
            let limit: usize = if n - i < SECRET_SCAN_OVERLAP_BYTES {
                n
            } else {
                i + SECRET_SCAN_OVERLAP_BYTES
            };
            assert(limit <= i + SECRET_SCAN_OVERLAP_BYTES);
            let mut j: usize = i;
            let mut found = false;
            while !found && j < limit && limit - j >= 16
                invariant
                    n == bytes@.len(),
                    end@ == pem_private_key_end(),
                    i <= j <= limit <= n,
                    limit <= i + SECRET_SCAN_OVERLAP_BYTES,
                    limit == n || limit == i + SECRET_SCAN_OVERLAP_BYTES,
                    found ==> j + 16 <= limit && bytes_at(bytes@, pem_private_key_end(), j as int),
                    forall|t: int|
                        i <= t < j ==> !#[trigger] bytes_at(bytes@, pem_private_key_end(), t),
                decreases limit - j, (if found { 0int } else { 1int }),
            {
                if matches_at(bytes, &end, j) {
                    found = true;
                } else {
                    j = j + 1;
                }
            }
            if found {
                assert(private_key_header_at(bytes@, i as int));
                return true;
            }
            proof {
                if private_key_header_at(bytes@, i as int) {
                    let t = choose|t: int|
                        #![trigger bytes_at(bytes@, pem_private_key_end(), t)]
                        i <= t && t + pem_private_key_end().len() <= i + SECRET_SCAN_OVERLAP_BYTES
                            && bytes_at(bytes@, pem_private_key_end(), t);
                    assert(t + 16 <= limit);
                }
            }
        }
        i = i + 1;
    }
    false
}

/// Whether a token with `prefix` of at least `minimum` bytes occurs in `bytes`.
pub fn contains_token(bytes: &[u8], prefix: &Vec<u8>, minimum: usize) -> (r: bool)
    requires
        0 < prefix@.len() <= minimum,
    ensures
        r == has_token(bytes@, prefix@, minimum as int),
{
    let n = bytes.len();
    let mut i: usize = 0;
    while i < n
        invariant
            n == bytes@.len(),
            0 < prefix@.len() <= minimum,
            i <= n,
            forall|t: int| 0 <= t < i ==> !#[trigger] token_at(bytes@, prefix@, minimum as int, t),
        decreases n - i,
    {
        if matches_at(bytes, prefix, i) && minimum <= n - i {
            let stop: usize = i + minimum;
            let mut k: usize = i + prefix.len();
            let mut ok = true;
            while ok && k < stop
                invariant
                    n == bytes@.len(),
                    stop == i + minimum,
                    stop <= n,
                    i + prefix@.len() <= k <= stop,
                    !ok ==> k < stop && !is_token_byte(bytes@[k as int]),
                    forall|t: int| i + prefix@.len() <= t < k ==> is_token_byte(#[trigger] bytes@[t]),
                decreases stop - k, (if ok { 1int } else { 0int }),
            {
                if token_byte(bytes[k]) {
                    k = k + 1;
                } else {
                    ok = false;
                }
            }
            if ok {
                assert(token_at(bytes@, prefix@, minimum as int, i as int));
                return true;
            }
        }
        i = i + 1;
    }
    proof {
        assert forall|t: int| !#[trigger] token_at(bytes@, prefix@, minimum as int, t) by {
            if 0 <= t < n {
            }
        }
    }
    false
}

/// Whether `bytes` holds a private-key block or a GitHub (`ghp_`, at least 36
/// bytes; `github_pat_`, at least 48), API-key (`sk-`, at least 32) or Slack
/// bot (`xoxb-`, at least 32) token.
pub fn high_confidence_secret_bytes(bytes: &[u8]) -> (r: bool)
    ensures
        r == has_high_confidence_secret(bytes@),
{
    let ghp: Vec<u8> = vec![103, 104, 112, 95];
    let pat: Vec<u8> = vec![103, 105, 116, 104, 117, 98, 95, 112, 97, 116, 95];
    let sk: Vec<u8> = vec![115, 107, 45];
    let xoxb: Vec<u8> = vec![120, 111, 120, 98, 45];
    assert(ghp@ =~= github_token_prefix());
    assert(pat@ =~= github_pat_prefix());
    assert(sk@ =~= secret_key_prefix());
    assert(xoxb@ =~= slack_bot_prefix());
    contains_private_key_header(bytes) || contains_token(bytes, &ghp, 36) || contains_token(
        bytes,
        &pat,
        48,
    ) || contains_token(bytes, &sk, 32) || contains_token(bytes, &xoxb, 32)
}


/// The last `SECRET_SCAN_OVERLAP_BYTES` bytes of `window` (all of it when
/// shorter).
pub open spec fn scan_carry(window: Seq<u8>) -> Seq<u8> {
    if window.len() <= SECRET_SCAN_OVERLAP_BYTES {
        window
    } else {
        window.subrange(window.len() - SECRET_SCAN_OVERLAP_BYTES, window.len() as int)
    }
}

/// One step of scanning a file in chunks: the bytes carried over from the
/// previous chunk followed by the new chunk form the window that is checked;
/// the window's last 256 bytes are carried into the next step.
pub fn scan_chunk_for_secret(carry: &Vec<u8>, chunk: &[u8]) -> (r: (bool, Vec<u8>))
    ensures
        r.0 == has_high_confidence_secret(carry@ + chunk@),
        r.1@ == scan_carry(carry@ + chunk@),
{
    let mut window: Vec<u8> = Vec::new();
    let mut i: usize = 0;
    while i < carry.len()
        invariant
            i <= carry@.len(),
            window@ == carry@.take(i as int),
        decreases carry@.len() - i,
    {
        window.push(carry[i]);
        assert(carry@.take(i + 1) =~= carry@.take(i as int).push(carry@[i as int]));
        i = i + 1;
    }
    assert(carry@.take(carry@.len() as int) =~= carry@);
    let n = chunk.len();
    let mut j: usize = 0;
    while j < n
        invariant
            n == chunk@.len(),
            j <= n,
            window@ == carry@ + chunk@.take(j as int),
        decreases n - j,
    {
        window.push(chunk[j]);
        assert(chunk@.take(j + 1) =~= chunk@.take(j as int).push(chunk@[j as int]));
        j = j + 1;
    }
    assert(chunk@.take(n as int) =~= chunk@);
    let found = high_confidence_secret_bytes(window.as_slice());
    let len = window.len();
    let keep = if len < SECRET_SCAN_OVERLAP_BYTES {
        len
    } else {
        SECRET_SCAN_OVERLAP_BYTES
    };
    let mut next: Vec<u8> = Vec::new();
    let mut k: usize = len - keep;
    while k < len
        invariant
            len == window@.len(),
            keep <= len,
            len - keep <= k <= len,
            next@ == window@.subrange(len - keep, k as int),
        decreases len - k,
    {
        next.push(window[k]);
        assert(window@.subrange(len - keep, k + 1) =~= window@.subrange(len - keep, k as int).push(
            window@[k as int],
        ));
        k = k + 1;
    }
    assert(next@ =~= scan_carry(window@));
    (found, next)
}

/// The first `k` chunks of a file, joined.
pub open spec fn joined(chunks: Seq<Seq<u8>>, k: int) -> Seq<u8>
    decreases k,
{
    if k <= 0 {
        Seq::empty()
    } else {
        joined(chunks, k - 1) + chunks[k - 1]
    }
}

/// The bytes carried into chunk `k` when the chunks are scanned in order.
pub open spec fn carry_after(chunks: Seq<Seq<u8>>, k: int) -> Seq<u8>
    decreases k,
{
    if k <= 0 {
        Seq::empty()
    } else {
        scan_carry(carry_after(chunks, k - 1) + chunks[k - 1])
    }
}

/// The bytes checked at chunk `k`: the carried bytes, then the chunk.
pub open spec fn scan_window(chunks: Seq<Seq<u8>>, k: int) -> Seq<u8> {
    carry_after(chunks, k) + chunks[k]
}

/// Where the window of chunk `k` starts in the joined file.
pub open spec fn window_start(chunks: Seq<Seq<u8>>, k: int) -> int {
    let l = joined(chunks, k).len() as int;
    if l > SECRET_SCAN_OVERLAP_BYTES {
        l - SECRET_SCAN_OVERLAP_BYTES
    } else {
        0
    }
}

proof fn lemma_joined_prefix(chunks: Seq<Seq<u8>>, k: int, n: int)
    requires
        0 <= k <= n <= chunks.len(),
    ensures
        joined(chunks, k).len() <= joined(chunks, n).len(),
        joined(chunks, n).subrange(0, joined(chunks, k).len() as int) == joined(chunks, k),
    decreases n - k,
{
    if k < n {
        lemma_joined_prefix(chunks, k, n - 1);
        let a = joined(chunks, n - 1);
        let b = joined(chunks, k);
        assert((a + chunks[n - 1]).subrange(0, b.len() as int) =~= a.subrange(0, b.len() as int));
    } else {
        assert(joined(chunks, n).subrange(0, joined(chunks, n).len() as int) =~= joined(chunks, n));
    }
}

proof fn lemma_carry(chunks: Seq<Seq<u8>>, k: int)
    requires
        0 <= k <= chunks.len(),
    ensures
        carry_after(chunks, k) == joined(chunks, k).subrange(
            window_start(chunks, k),
            joined(chunks, k).len() as int,
        ),
    decreases k,
{
    if k == 0 {
        assert(joined(chunks, 0).subrange(0, 0) =~= Seq::<u8>::empty());
    } else {
        lemma_carry(chunks, k - 1);
        let j0 = joined(chunks, k - 1);
        let j1 = joined(chunks, k);
        let w = carry_after(chunks, k - 1) + chunks[k - 1];
        let s0 = window_start(chunks, k - 1);
        assert(w =~= j1.subrange(s0, j1.len() as int));
        if w.len() <= SECRET_SCAN_OVERLAP_BYTES {
            assert(window_start(chunks, k) == s0);
        } else {
            assert(w.subrange(w.len() - SECRET_SCAN_OVERLAP_BYTES, w.len() as int) =~= j1.subrange(
                j1.len() - SECRET_SCAN_OVERLAP_BYTES,
                j1.len() as int,
            ));
        }
    }
}

proof fn lemma_window(chunks: Seq<Seq<u8>>, k: int)
    requires
        0 <= k < chunks.len(),
    ensures
        0 <= window_start(chunks, k) <= joined(chunks, k).len(),
        scan_window(chunks, k) == joined(chunks, chunks.len() as int).subrange(
            window_start(chunks, k),
            joined(chunks, k + 1).len() as int,
        ),
        joined(chunks, k + 1).len() <= joined(chunks, chunks.len() as int).len(),
{
    lemma_carry(chunks, k);
    lemma_joined_prefix(chunks, k + 1, chunks.len() as int);
    let c = joined(chunks, chunks.len() as int);
    let j1 = joined(chunks, k + 1);
    assert(c.subrange(0, j1.len() as int) == j1);
    assert(scan_window(chunks, k) =~= j1.subrange(window_start(chunks, k), j1.len() as int));
    assert(j1.subrange(window_start(chunks, k), j1.len() as int) =~= c.subrange(
        window_start(chunks, k),
        j1.len() as int,
    ));
}

proof fn lemma_bytes_at_shift(c: Seq<u8>, a: int, b: int, p: Seq<u8>, i: int)
    requires
        0 <= a <= b <= c.len(),
        0 <= i,
        a + i + p.len() <= b,
    ensures
        bytes_at(c.subrange(a, b), p, i) == bytes_at(c, p, a + i),
{
    assert(c.subrange(a, b).subrange(i, i + p.len()) =~= c.subrange(a + i, a + i + p.len()));
}

proof fn lemma_token_shift(c: Seq<u8>, a: int, b: int, p: Seq<u8>, m: int, i: int)
    requires
        0 <= a <= b <= c.len(),
        0 <= i,
        p.len() <= m,
        a + i + m <= b,
    ensures
        token_at(c.subrange(a, b), p, m, i) == token_at(c, p, m, a + i),
{
    lemma_bytes_at_shift(c, a, b, p, i);
    let sub = c.subrange(a, b);
    assert forall|k: int| i + p.len() <= k < i + m implies sub[k] == c[a + k] by {}
    if token_at(c, p, m, a + i) {
        assert forall|k: int| i + p.len() <= k < i + m implies is_token_byte(#[trigger] sub[k]) by {
            assert(is_token_byte(c[a + k]));
        }
    }
    if token_at(sub, p, m, i) {
        assert forall|k: int| (a + i) + p.len() <= k < (a + i) + m implies is_token_byte(
            #[trigger] c[k],
        ) by {
            assert(sub[k - a] == c[k]);
            assert(is_token_byte(sub[k - a]));
        }
    }
}

/// A token found in a part of a file is found in the file, and a token that
/// lies wholly inside a part is found in the part.
proof fn lemma_has_token_part(c: Seq<u8>, a: int, b: int, p: Seq<u8>, m: int)
    requires
        0 <= a <= b <= c.len(),
        p.len() <= m,
    ensures
        has_token(c.subrange(a, b), p, m) ==> has_token(c, p, m),
        forall|i: int| a <= i && i + m <= b && #[trigger] token_at(c, p, m, i) ==> has_token(
            c.subrange(a, b),
            p,
            m,
        ),
{
    let sub = c.subrange(a, b);
    if has_token(sub, p, m) {
        let i = choose|i: int| #[trigger] token_at(sub, p, m, i);
        lemma_token_shift(c, a, b, p, m, i);
        assert(token_at(c, p, m, a + i));
    }
    assert forall|i: int| a <= i && i + m <= b && #[trigger] token_at(c, p, m, i) implies has_token(
        sub,
        p,
        m,
    ) by {
        lemma_token_shift(c, a, b, p, m, i - a);
        assert(token_at(sub, p, m, i - a));
    }
}

proof fn lemma_key_shift(c: Seq<u8>, a: int, b: int, i: int)
    requires
        0 <= a <= b <= c.len(),
        0 <= i,
    ensures
        private_key_header_at(c.subrange(a, b), i) ==> private_key_header_at(c, a + i),
        (private_key_header_at(c, a + i) && a + i + SECRET_SCAN_OVERLAP_BYTES <= b)
            ==> private_key_header_at(c.subrange(a, b), i),
{
    let sub = c.subrange(a, b);
    let begin = pem_begin();
    let end = pem_private_key_end();
    if private_key_header_at(sub, i) {
        lemma_bytes_at_shift(c, a, b, begin, i);
        let j = choose|j: int|
            #![trigger bytes_at(sub, end, j)]
            i <= j && j + end.len() <= i + SECRET_SCAN_OVERLAP_BYTES && bytes_at(sub, end, j);
        lemma_bytes_at_shift(c, a, b, end, j);
        assert(bytes_at(c, end, a + j));
    }
    if private_key_header_at(c, a + i) && a + i + SECRET_SCAN_OVERLAP_BYTES <= b {
        lemma_bytes_at_shift(c, a, b, begin, i);
        let j = choose|j: int|
            #![trigger bytes_at(c, end, j)]
            a + i <= j && j + end.len() <= a + i + SECRET_SCAN_OVERLAP_BYTES && bytes_at(c, end, j);
        lemma_bytes_at_shift(c, a, b, end, j - a);
        assert(bytes_at(sub, end, j - a));
    }
}

/// A credential found in a part of a file is found in the file.
proof fn lemma_part_secret_in_whole(c: Seq<u8>, a: int, b: int)
    requires
        0 <= a <= b <= c.len(),
    ensures
        has_high_confidence_secret(c.subrange(a, b)) ==> has_high_confidence_secret(c),
{
    let sub = c.subrange(a, b);
    if has_private_key_header(sub) {
        let i = choose|i: int| #[trigger] private_key_header_at(sub, i);
        lemma_key_shift(c, a, b, i);
        assert(private_key_header_at(c, a + i));
    }
    lemma_has_token_part(c, a, b, github_token_prefix(), 36);
    lemma_has_token_part(c, a, b, github_pat_prefix(), 48);
    lemma_has_token_part(c, a, b, secret_key_prefix(), 32);
    lemma_has_token_part(c, a, b, slack_bot_prefix(), 32);
}

proof fn lemma_find_chunk(chunks: Seq<Seq<u8>>, n: int, t: int)
    requires
        0 <= n <= chunks.len(),
        0 < t <= joined(chunks, n).len(),
    ensures
        exists|k: int|
            0 <= k < n && joined(chunks, k).len() < t && t <= #[trigger] joined(
                chunks,
                k + 1,
            ).len(),
    decreases n,
{
    if t <= joined(chunks, n - 1).len() {
        lemma_find_chunk(chunks, n - 1, t);
        let k = choose|k: int|
            0 <= k < n - 1 && joined(chunks, k).len() < t && t <= #[trigger] joined(
                chunks,
                k + 1,
            ).len();
        assert(joined(chunks, k + 1).len() >= t);
    } else {
        assert(joined(chunks, n - 1 + 1).len() >= t);
    }
}

/// The window of the chunk in which a credential region `[i, t)` of the
/// joined file ends holds the whole region.
proof fn lemma_region_in_window(chunks: Seq<Seq<u8>>, i: int, t: int) -> (k: int)
    requires
        0 <= i < t <= joined(chunks, chunks.len() as int).len(),
        t - i <= SECRET_SCAN_OVERLAP_BYTES,
    ensures
        0 <= k < chunks.len(),
        window_start(chunks, k) <= i,
        t <= joined(chunks, k + 1).len(),
        scan_window(chunks, k) == joined(chunks, chunks.len() as int).subrange(
            window_start(chunks, k),
            joined(chunks, k + 1).len() as int,
        ),
        joined(chunks, k + 1).len() <= joined(chunks, chunks.len() as int).len(),
{
    lemma_find_chunk(chunks, chunks.len() as int, t);
    let k = choose|k: int|
        0 <= k < chunks.len() && joined(chunks, k).len() < t && t <= #[trigger] joined(
            chunks,
            k + 1,
        ).len();
    lemma_window(chunks, k);
    k
}

/// Scanning a file chunk by chunk, each chunk checked together with the
/// 256 bytes before it, finds a credential exactly when the whole file holds
/// one: no credential is missed at a chunk boundary, and none is invented.
pub proof fn law_chunked_scan_matches_whole_file(chunks: Seq<Seq<u8>>)
    ensures
        (exists|k: int|
            0 <= k < chunks.len() && has_high_confidence_secret(#[trigger] scan_window(chunks, k)))
            == has_high_confidence_secret(joined(chunks, chunks.len() as int)),
{
    let c = joined(chunks, chunks.len() as int);
    assert forall|k: int|
        0 <= k < chunks.len() && has_high_confidence_secret(
            #[trigger] scan_window(chunks, k),
        ) implies has_high_confidence_secret(c) by {
        lemma_window(chunks, k);
        lemma_part_secret_in_whole(c, window_start(chunks, k), joined(chunks, k + 1).len() as int);
    }
    if has_high_confidence_secret(c) {
        if has_private_key_header(c) {
            let i = choose|i: int| #[trigger] private_key_header_at(c, i);
            let j = choose|j: int|
                #![trigger bytes_at(c, pem_private_key_end(), j)]
                i <= j && j + pem_private_key_end().len() <= i + SECRET_SCAN_OVERLAP_BYTES
                    && bytes_at(c, pem_private_key_end(), j);
            let t = j + pem_private_key_end().len();
            let k = lemma_region_in_window(chunks, i, t);
            let a = window_start(chunks, k);
            let b = joined(chunks, k + 1).len() as int;
            let sub = c.subrange(a, b);
            lemma_bytes_at_shift(c, a, b, pem_begin(), i - a);
            lemma_bytes_at_shift(c, a, b, pem_private_key_end(), j - a);
            assert(bytes_at(sub, pem_private_key_end(), j - a));
            assert(private_key_header_at(sub, i - a));
            assert(has_high_confidence_secret(scan_window(chunks, k)));
        } else {
            let (p, m) = if has_token(c, github_token_prefix(), 36) {
                (github_token_prefix(), 36int)
            } else if has_token(c, github_pat_prefix(), 48) {
                (github_pat_prefix(), 48int)
            } else if has_token(c, secret_key_prefix(), 32) {
                (secret_key_prefix(), 32int)
            } else {
                (slack_bot_prefix(), 32int)
            };
            let i = choose|i: int| #[trigger] token_at(c, p, m, i);
            let k = lemma_region_in_window(chunks, i, i + m);
            let a = window_start(chunks, k);
            let b = joined(chunks, k + 1).len() as int;
            lemma_has_token_part(c, a, b, p, m);
            assert(has_token(c.subrange(a, b), p, m));
            assert(has_high_confidence_secret(scan_window(chunks, k)));
        }
    }
}

/// A listed token starts at `i`: `prefix` there, then bytes that are ASCII
/// letters, digits, `_` or `-` up to at least `minimum` bytes from `i`.
pub open spec fn listed_token_at(bytes: Seq<u8>, i: int, prefix: Seq<u8>, minimum: int) -> bool {
    &&& 0 <= i
    &&& i + prefix.len() <= bytes.len()
    &&& i + minimum <= bytes.len()
    &&& bytes.subrange(i, i + prefix.len()) == prefix
    &&& forall|k: int|
        i + prefix.len() <= k < i + minimum ==> {
            let b = #[trigger] bytes[k];
            // `0`-`9`, `a`-`z`, `A`-`Z`, `_`, `-`
            (48u8 <= b && b <= 57u8) || (97u8 <= b && b <= 122u8) || (65u8 <= b && b <= 90u8) || b
                == 95u8 || b == 45u8
        }
}

/// A credential the rules recognise starts at `i`: a GitHub token (`ghp_`,
/// at least 36 bytes), a GitHub fine-grained token (`github_pat_`, at least
/// 48), an API secret key (`sk-`, at least 32), a Slack bot token (`xoxb-`, at
/// least 32), or `-----BEGIN ` with `PRIVATE KEY-----` ending within 256 bytes
/// of `i`.
pub open spec fn credential_at(bytes: Seq<u8>, i: int) -> bool {
    // `ghp_`
    ||| listed_token_at(bytes, i, seq![103u8, 104u8, 112u8, 95u8], 36)
    // `github_pat_`
    ||| listed_token_at(
        bytes,
        i,
        seq![103u8, 105u8, 116u8, 104u8, 117u8, 98u8, 95u8, 112u8, 97u8, 116u8, 95u8],
        48,
    )
    // `sk-`
    ||| listed_token_at(bytes, i, seq![115u8, 107u8, 45u8], 32)
    // `xoxb-`
    ||| listed_token_at(bytes, i, seq![120u8, 111u8, 120u8, 98u8, 45u8], 32)
    // `-----BEGIN ` ... `PRIVATE KEY-----`
    ||| {
        &&& 0 <= i
        &&& i + 11 <= bytes.len()
        &&& bytes.subrange(i, i + 11) == seq![45u8, 45u8, 45u8, 45u8, 45u8, 66u8, 69u8, 71u8, 73u8, 78u8, 32u8]
        &&& exists|j: int|
            i <= j && j + 16 <= i + 256 && j + 16 <= bytes.len() && #[trigger] bytes.subrange(
                j,
                j + 16,
            ) == seq![
                80u8, 82u8, 73u8, 86u8, 65u8, 84u8, 69u8, 32u8, 75u8, 69u8, 89u8, 45u8, 45u8, 45u8,
                45u8, 45u8,
            ]
    }
}

/// Content holds a high-confidence credential exactly when a recognised
/// credential starts somewhere in it (see `credential_at`): a Slack bot
/// token `xoxb-` followed by 27 token bytes is one, and so is each other
/// listed shape; nothing else is.
pub proof fn law_credentials_by_shape(bytes: Seq<u8>)
    ensures
        has_high_confidence_secret(bytes) <==> exists|i: int| #[trigger] credential_at(bytes, i),
{
    let ghp = seq![103u8, 104u8, 112u8, 95u8];
    let pat = seq![103u8, 105u8, 116u8, 104u8, 117u8, 98u8, 95u8, 112u8, 97u8, 116u8, 95u8];
    let sk = seq![115u8, 107u8, 45u8];
    let xoxb = seq![120u8, 111u8, 120u8, 98u8, 45u8];
    let begin = seq![45u8, 45u8, 45u8, 45u8, 45u8, 66u8, 69u8, 71u8, 73u8, 78u8, 32u8];
    let end = seq![
        80u8, 82u8, 73u8, 86u8, 65u8, 84u8, 69u8, 32u8, 75u8, 69u8, 89u8, 45u8, 45u8, 45u8, 45u8,
        45u8,
    ];
    assert(ghp =~= github_token_prefix());
    assert(pat =~= github_pat_prefix());
    assert(sk =~= secret_key_prefix());
    assert(xoxb =~= slack_bot_prefix());
    assert(begin =~= pem_begin());
    assert(end =~= pem_private_key_end());
    if has_high_confidence_secret(bytes) {
        if has_private_key_header(bytes) {
            let i = choose|i: int| #[trigger] private_key_header_at(bytes, i);
            let j = choose|j: int|
                #![trigger bytes_at(bytes, pem_private_key_end(), j)]
                i <= j && j + pem_private_key_end().len() <= i + SECRET_SCAN_OVERLAP_BYTES
                    && bytes_at(bytes, pem_private_key_end(), j);
            assert(bytes.subrange(j, j + 16) == end);
            assert(credential_at(bytes, i));
        } else {
            let (p, m) = if has_token(bytes, github_token_prefix(), 36) {
                (github_token_prefix(), 36int)
            } else if has_token(bytes, github_pat_prefix(), 48) {
                (github_pat_prefix(), 48int)
            } else if has_token(bytes, secret_key_prefix(), 32) {
                (secret_key_prefix(), 32int)
            } else {
                (slack_bot_prefix(), 32int)
            };
            let i = choose|i: int| #[trigger] token_at(bytes, p, m, i);
            assert(listed_token_at(bytes, i, p, m)) by {
                assert forall|k: int| i + p.len() <= k < i + m implies {
                    let b = #[trigger] bytes[k];
                    (48u8 <= b && b <= 57u8) || (97u8 <= b && b <= 122u8) || (65u8 <= b && b
                        <= 90u8) || b == 95u8 || b == 45u8
                } by {
                    assert(is_token_byte(bytes[k]));
                }
            }
            assert(credential_at(bytes, i));
        }
    }
    if exists|i: int| #[trigger] credential_at(bytes, i) {
        let i = choose|i: int| #[trigger] credential_at(bytes, i);
        if listed_token_at(bytes, i, ghp, 36) {
            assert(token_at(bytes, github_token_prefix(), 36, i));
        } else if listed_token_at(bytes, i, pat, 48) {
            assert(token_at(bytes, github_pat_prefix(), 48, i));
        } else if listed_token_at(bytes, i, sk, 32) {
            assert(token_at(bytes, secret_key_prefix(), 32, i));
        } else if listed_token_at(bytes, i, xoxb, 32) {
            assert(token_at(bytes, slack_bot_prefix(), 32, i));
        } else {
            let j = choose|j: int|
                i <= j && j + 16 <= i + 256 && j + 16 <= bytes.len() && #[trigger] bytes.subrange(
                    j,
                    j + 16,
                ) == end;
            assert(bytes_at(bytes, pem_private_key_end(), j));
            assert(private_key_header_at(bytes, i));
        }
    }
}

} // verus!
