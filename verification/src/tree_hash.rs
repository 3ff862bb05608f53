//! The content hash of a shared Skill directory.
//!
//! A Skill's tree hash is the SHA-256 digest of a domain tag followed, for each
//! file in byte order of its relative path, by the path's length (8 bytes,
//! big-endian), the path's UTF-8 bytes, the file size (8 bytes, big-endian)
//! and the file's own 32-byte SHA-256 digest. It is written as lower-case
//! hexadecimal.
use vstd::prelude::*;
use vstd::utf8::encode_utf8;
use crate::digest::{
    decode_sha256, decoded_sha256, hex_lower, is_sha256_text, nibble_value, sha256, sha256_hex,
};
use crate::error::{ErrorCode, RehomeError};

verus! {

/// One file of a Skill: relative path, size in bytes, hexadecimal SHA-256
/// digest of its content.
pub type PayloadRecord = (String, u64, String);

/// `a` sorts strictly before `b`, byte by byte, a proper prefix first.
pub open spec fn bytes_lt(a: Seq<u8>, b: Seq<u8>) -> bool
    decreases a.len(),
{
    if b.len() == 0 {
        false
    } else if a.len() == 0 {
        true
    } else if a[0] != b[0] {
        a[0] < b[0]
    } else {
        bytes_lt(a.drop_first(), b.drop_first())
    }
}

/// No byte string sorts before itself, and of two at most one sorts first.
pub proof fn lemma_bytes_lt_asymmetric(a: Seq<u8>, b: Seq<u8>)
    ensures
        !(bytes_lt(a, b) && bytes_lt(b, a)),
        !bytes_lt(a, a),
    decreases a.len(),
{
    if a.len() > 0 && b.len() > 0 && a[0] == b[0] {
        lemma_bytes_lt_asymmetric(a.drop_first(), b.drop_first());
    }
    if a.len() > 0 {
        lemma_bytes_lt_asymmetric(a.drop_first(), a.drop_first());
    }
}

/// Of two different byte strings, one sorts first.
pub proof fn lemma_bytes_lt_total(a: Seq<u8>, b: Seq<u8>)
    ensures
        a != b ==> bytes_lt(a, b) || bytes_lt(b, a),
    decreases a.len(),
{
    if a.len() > 0 && b.len() > 0 && a[0] == b[0] {
        lemma_bytes_lt_total(a.drop_first(), b.drop_first());
        if a.drop_first() == b.drop_first() {
            assert(a =~= seq![a[0]] + a.drop_first());
            assert(b =~= seq![b[0]] + b.drop_first());
        }
    }
    if a.len() == 0 && b.len() == 0 {
        assert(a =~= b);
    }
}

/// The order is transitive.
pub proof fn lemma_bytes_lt_transitive(a: Seq<u8>, b: Seq<u8>, c: Seq<u8>)
    requires
        bytes_lt(a, b),
        bytes_lt(b, c),
    ensures
        bytes_lt(a, c),
    decreases a.len(),
{
    if a.len() > 0 && b.len() > 0 && c.len() > 0 && a[0] == b[0] && b[0] == c[0] {
        lemma_bytes_lt_transitive(a.drop_first(), b.drop_first(), c.drop_first());
    }
}

/// The sort key of a record: its path's UTF-8 bytes.
pub open spec fn record_key(r: PayloadRecord) -> Seq<u8> {
    encode_utf8(r.0@)
}

/// `s` with `r` placed after every record whose key does not sort after `r`'s.
pub open spec fn insert_sorted(s: Seq<PayloadRecord>, r: PayloadRecord) -> Seq<PayloadRecord>
    decreases s.len(),
{
    if s.len() == 0 {
        seq![r]
    } else if bytes_lt(record_key(r), record_key(s.last())) {
        insert_sorted(s.drop_last(), r).push(s.last())
    } else {
        s.push(r)
    }
}

/// The records ordered by path bytes; records with equal paths keep their order.
pub open spec fn sort_by_path(s: Seq<PayloadRecord>) -> Seq<PayloadRecord>
    decreases s.len(),
{
    if s.len() == 0 {
        Seq::empty()
    } else {
        insert_sorted(sort_by_path(s.drop_last()), s.last())
    }
}

/// `x` as 8 big-endian bytes.
pub open spec fn be_bytes(x: u64) -> Seq<u8> {
    seq![
        (x >> 56) as u8,
        (x >> 48) as u8,
        (x >> 40) as u8,
        (x >> 32) as u8,
        (x >> 24) as u8,
        (x >> 16) as u8,
        (x >> 8) as u8,
        x as u8,
    ]
}

/// The bytes one record contributes to the tree hash.
pub open spec fn record_frame(r: PayloadRecord) -> Seq<u8> {
    be_bytes(encode_utf8(r.0@).len() as u64) + encode_utf8(r.0@) + be_bytes(r.1) + decoded_sha256(
        r.2@,
    )
}

/// The frames of `s`, in order.
pub open spec fn frames(s: Seq<PayloadRecord>) -> Seq<u8>
    decreases s.len(),
{
    if s.len() == 0 {
        Seq::empty()
    } else {
        frames(s.drop_last()) + record_frame(s.last())
    }
}

/// `rehome-shared-skill-tree-v1` followed by a NUL byte.
pub open spec fn tree_domain() -> Seq<u8> {
    seq![
        114, 101, 104, 111, 109, 101, 45, 115, 104, 97, 114, 101, 100, 45, 115, 107, 105, 108, 108,
        45, 116, 114, 101, 101, 45, 118, 49, 0,
    ]
}

/// The tree hash of a Skill whose files are `records`.
pub open spec fn tree_hash_of(records: Seq<PayloadRecord>) -> Seq<char> {
    hex_lower(sha256(tree_domain() + frames(sort_by_path(records))))
}

/// Every record names its digest as 64 hexadecimal digits.
pub open spec fn all_digests_valid(records: Seq<PayloadRecord>) -> bool {
    forall|i: int| 0 <= i < records.len() ==> is_sha256_text(#[trigger] records[i].2@)
}

proof fn lemma_insert_at(s: Seq<PayloadRecord>, r: PayloadRecord, j: int)
    requires
        0 <= j <= s.len(),
        forall|t: int| j <= t < s.len() ==> bytes_lt(record_key(r), record_key(#[trigger] s[t])),
        j == 0 || !bytes_lt(record_key(r), record_key(s[j - 1])),
    ensures
        insert_sorted(s, r) == s.insert(j, r),
    decreases s.len(),
{
    if s.len() == 0 {
        assert(s.insert(j, r) =~= seq![r]);
    } else if bytes_lt(record_key(r), record_key(s.last())) {
        assert(j < s.len());
        let t = s.drop_last();
        assert forall|q: int| j <= q < t.len() implies bytes_lt(
            record_key(r),
            record_key(#[trigger] t[q]),
        ) by {
            assert(t[q] == s[q]);
        }
        if j > 0 {
            assert(t[j - 1] == s[j - 1]);
        }
        lemma_insert_at(t, r, j);
        assert(t.insert(j, r).push(s.last()) =~= s.insert(j, r));
    } else {
        assert(s.len() <= j) by {
            if j < s.len() {
                assert(bytes_lt(record_key(r), record_key(s[s.len() - 1])));
            }
        }
        assert(s.push(r) =~= s.insert(j, r));
    }
}

proof fn lemma_push_contains(u: Seq<PayloadRecord>, y: PayloadRecord)
    ensures
        forall|x: PayloadRecord| #[trigger] u.push(y).contains(x) <==> (u.contains(x) || x == y),
{
    assert forall|x: PayloadRecord| #[trigger] u.push(y).contains(x) <==> (u.contains(x) || x == y) by {
        if u.push(y).contains(x) {
            let i = choose|i: int| 0 <= i < u.push(y).len() && u.push(y)[i] == x;
            if i < u.len() {
                assert(u[i] == x);
            }
        }
        if u.contains(x) {
            let i = choose|i: int| 0 <= i < u.len() && u[i] == x;
            assert(u.push(y)[i] == x);
        }
        if x == y {
            assert(u.push(y)[u.len() as int] == y);
        }
    }
}

proof fn lemma_insert_sorted_contains(s: Seq<PayloadRecord>, r: PayloadRecord)
    ensures
        insert_sorted(s, r).len() == s.len() + 1,
        forall|x: PayloadRecord| #[trigger]
            insert_sorted(s, r).contains(x) <==> (s.contains(x) || x == r),
    decreases s.len(),
{
    if s.len() == 0 {
        lemma_push_contains(s, r);
        assert(s.push(r) =~= seq![r]);
    } else {
        let t = s.drop_last();
        assert(t.push(s.last()) =~= s);
        lemma_push_contains(t, s.last());
        if bytes_lt(record_key(r), record_key(s.last())) {
            lemma_insert_sorted_contains(t, r);
            lemma_push_contains(insert_sorted(t, r), s.last());
        } else {
            lemma_push_contains(s, r);
        }
    }
}

/// Sorting keeps exactly the records it was given.
pub proof fn lemma_sort_contains(s: Seq<PayloadRecord>)
    ensures
        sort_by_path(s).len() == s.len(),
        forall|x: PayloadRecord| #[trigger] sort_by_path(s).contains(x) <==> s.contains(x),
    decreases s.len(),
{
    if s.len() > 0 {
        let t = s.drop_last();
        lemma_sort_contains(t);
        lemma_insert_sorted_contains(sort_by_path(t), s.last());
        assert forall|x: PayloadRecord| #[trigger] sort_by_path(s).contains(x) <==> s.contains(x) by {
            if t.contains(x) {
                let i = choose|i: int| 0 <= i < t.len() && t[i] == x;
                assert(s[i] == x);
            }
            if s.contains(x) {
                let i = choose|i: int| 0 <= i < s.len() && s[i] == x;
                if i < s.len() - 1 {
                    assert(t[i] == x);
                }
            }
        }
    }
}

/// No two records have the same path.
pub open spec fn paths_distinct(s: Seq<PayloadRecord>) -> bool {
    forall|i: int, j: int|
        0 <= i < s.len() && 0 <= j < s.len() && i != j ==> record_key(#[trigger] s[i])
            != record_key(#[trigger] s[j])
}

/// Every record's path sorts strictly before every later record's.
pub open spec fn strictly_sorted_records(s: Seq<PayloadRecord>) -> bool {
    forall|i: int, j: int|
        0 <= i < j < s.len() ==> bytes_lt(record_key(#[trigger] s[i]), record_key(#[trigger] s[j]))
}

proof fn lemma_insert_sorted_strict(s: Seq<PayloadRecord>, r: PayloadRecord)
    requires
        strictly_sorted_records(s),
        forall|x: PayloadRecord| #[trigger] s.contains(x) ==> record_key(x) != record_key(r),
    ensures
        strictly_sorted_records(insert_sorted(s, r)),
    decreases s.len(),
{
    if s.len() == 0 {
        assert(insert_sorted(s, r) =~= seq![r]);
    } else {
        let t = s.drop_last();
        let last = s.last();
        assert(s.contains(last));
        assert forall|i: int, j: int| 0 <= i < j < t.len() implies bytes_lt(
            record_key(#[trigger] t[i]),
            record_key(#[trigger] t[j]),
        ) by {
            assert(t[i] == s[i] && t[j] == s[j]);
        }
        if bytes_lt(record_key(r), record_key(last)) {
            assert forall|x: PayloadRecord| #[trigger] t.contains(x) implies record_key(x)
                != record_key(r) by {
                let k = choose|k: int| 0 <= k < t.len() && t[k] == x;
                assert(s[k] == x);
                assert(s.contains(x));
            }
            lemma_insert_sorted_strict(t, r);
            lemma_insert_sorted_contains(t, r);
            let u = insert_sorted(t, r);
            let w = u.push(last);
            assert(insert_sorted(s, r) == w);
            assert forall|i: int, j: int| 0 <= i < j < w.len() implies bytes_lt(
                record_key(#[trigger] w[i]),
                record_key(#[trigger] w[j]),
            ) by {
                if j == u.len() {
                    let x = u[i];
                    assert(u.contains(x));
                    if x != r {
                        assert(t.contains(x));
                        let k = choose|k: int| 0 <= k < t.len() && t[k] == x;
                        assert(s[k] == x);
                        assert(bytes_lt(record_key(s[k]), record_key(s[s.len() - 1])));
                    }
                } else {
                    assert(w[i] == u[i] && w[j] == u[j]);
                }
            }
        } else {
            lemma_bytes_lt_total(record_key(r), record_key(last));
            let w = s.push(r);
            assert(insert_sorted(s, r) == w);
            assert forall|i: int, j: int| 0 <= i < j < w.len() implies bytes_lt(
                record_key(#[trigger] w[i]),
                record_key(#[trigger] w[j]),
            ) by {
                if j == s.len() {
                    if i < s.len() - 1 {
                        assert(bytes_lt(record_key(s[i]), record_key(s[s.len() - 1])));
                        lemma_bytes_lt_transitive(record_key(s[i]), record_key(last), record_key(r));
                    }
                } else {
                    assert(w[i] == s[i] && w[j] == s[j]);
                }
            }
        }
    }
}

/// Records with distinct paths come out of the sort strictly ordered.
pub proof fn lemma_sort_strict(s: Seq<PayloadRecord>)
    requires
        paths_distinct(s),
    ensures
        strictly_sorted_records(sort_by_path(s)),
    decreases s.len(),
{
    if s.len() > 0 {
        let t = s.drop_last();
        assert forall|i: int, j: int|
            0 <= i < t.len() && 0 <= j < t.len() && i != j implies record_key(#[trigger] t[i])
            != record_key(#[trigger] t[j]) by {
            assert(t[i] == s[i] && t[j] == s[j]);
        }
        lemma_sort_strict(t);
        lemma_sort_contains(t);
        assert forall|x: PayloadRecord| #[trigger] sort_by_path(t).contains(x) implies record_key(x)
            != record_key(s.last()) by {
            assert(t.contains(x));
            let k = choose|k: int| 0 <= k < t.len() && t[k] == x;
            assert(s[k] == x);
        }
        lemma_insert_sorted_strict(sort_by_path(t), s.last());
    }
}

/// Two strictly ordered record lists with the same records are equal.
proof fn lemma_strict_unique(u1: Seq<PayloadRecord>, u2: Seq<PayloadRecord>)
    requires
        strictly_sorted_records(u1),
        strictly_sorted_records(u2),
        forall|x: PayloadRecord|
            #![trigger u1.contains(x)]
            #![trigger u2.contains(x)]
            u1.contains(x) <==> u2.contains(x),
    ensures
        u1 == u2,
    decreases u1.len(),
{
    if u1.len() == 0 {
        if u2.len() > 0 {
            assert(u2.contains(u2[0]));
        }
        assert(u1 =~= u2);
    } else if u2.len() == 0 {
        assert(u1.contains(u1[0]));
    } else {
        assert(u1.contains(u1[0]));
        assert(u2.contains(u2[0]));
        let k = choose|k: int| 0 <= k < u2.len() && u2[k] == u1[0];
        let m = choose|m: int| 0 <= m < u1.len() && u1[m] == u2[0];
        if k > 0 {
            assert(bytes_lt(record_key(u2[0]), record_key(u2[k])));
            if m > 0 {
                assert(bytes_lt(record_key(u1[0]), record_key(u1[m])));
                lemma_bytes_lt_asymmetric(record_key(u1[0]), record_key(u2[0]));
            } else {
                lemma_bytes_lt_asymmetric(record_key(u1[0]), record_key(u1[0]));
            }
        }
        assert(u1[0] == u2[0]);
        let t1 = u1.drop_first();
        let t2 = u2.drop_first();
        assert forall|i: int, j: int| 0 <= i < j < t1.len() implies bytes_lt(
            record_key(#[trigger] t1[i]),
            record_key(#[trigger] t1[j]),
        ) by {
            assert(t1[i] == u1[i + 1] && t1[j] == u1[j + 1]);
        }
        assert forall|i: int, j: int| 0 <= i < j < t2.len() implies bytes_lt(
            record_key(#[trigger] t2[i]),
            record_key(#[trigger] t2[j]),
        ) by {
            assert(t2[i] == u2[i + 1] && t2[j] == u2[j + 1]);
        }
        assert forall|x: PayloadRecord|
            #![trigger t1.contains(x)]
            #![trigger t2.contains(x)]
            t1.contains(x) <==> t2.contains(x) by {
            if t1.contains(x) {
                let i = choose|i: int| 0 <= i < t1.len() && t1[i] == x;
                assert(u1[i + 1] == x);
                assert(u1.contains(x));
                assert(bytes_lt(record_key(u1[0]), record_key(u1[i + 1])));
                lemma_bytes_lt_asymmetric(record_key(x), record_key(x));
                assert(u2.contains(x));
                let q = choose|q: int| 0 <= q < u2.len() && u2[q] == x;
                assert(q != 0);
                assert(t2[q - 1] == x);
            }
            if t2.contains(x) {
                let i = choose|i: int| 0 <= i < t2.len() && t2[i] == x;
                assert(u2[i + 1] == x);
                assert(u2.contains(x));
                assert(bytes_lt(record_key(u2[0]), record_key(u2[i + 1])));
                lemma_bytes_lt_asymmetric(record_key(x), record_key(x));
                assert(u1.contains(x));
                let q = choose|q: int| 0 <= q < u1.len() && u1[q] == x;
                assert(q != 0);
                assert(t1[q - 1] == x);
            }
        }
        lemma_strict_unique(t1, t2);
        assert(u1 =~= seq![u1[0]] + t1);
        assert(u2 =~= seq![u2[0]] + t2);
    }
}

/// The tree hash depends only on which files a Skill has, not on the order
/// in which they are listed: two lists of records with distinct paths and
/// the same records give the same hash.
pub proof fn law_tree_hash_ignores_record_order(s1: Seq<PayloadRecord>, s2: Seq<PayloadRecord>)
    requires
        paths_distinct(s1),
        paths_distinct(s2),
        forall|x: PayloadRecord|
            #![trigger s1.contains(x)]
            #![trigger s2.contains(x)]
            s1.contains(x) <==> s2.contains(x),
    ensures
        tree_hash_of(s1) == tree_hash_of(s2),
{
    lemma_sort_strict(s1);
    lemma_sort_strict(s2);
    lemma_sort_contains(s1);
    lemma_sort_contains(s2);
    assert forall|x: PayloadRecord|
        #![trigger sort_by_path(s1).contains(x)]
        #![trigger sort_by_path(s2).contains(x)]
        sort_by_path(s1).contains(x) <==> sort_by_path(s2).contains(x) by {
        assert(sort_by_path(s1).contains(x) <==> s1.contains(x));
        assert(sort_by_path(s2).contains(x) <==> s2.contains(x));
    }
    lemma_strict_unique(sort_by_path(s1), sort_by_path(s2));
}

/// Whether `a` sorts strictly before `b`.
proof fn lemma_frame_in_frames(u: Seq<PayloadRecord>, k: int)
    requires
        0 <= k < u.len(),
    ensures
        exists|o: int|
            0 <= o && o + record_frame(u[k]).len() <= frames(u).len() && #[trigger] frames(
                u,
            ).subrange(o, o + record_frame(u[k]).len()) == record_frame(u[k]),
    decreases u.len(),
{
    let t = u.drop_last();
    assert(frames(u) == frames(t) + record_frame(u.last()));
    if k == u.len() - 1 {
        let o = frames(t).len() as int;
        assert(frames(u).subrange(o, o + record_frame(u[k]).len()) =~= record_frame(u[k]));
    } else {
        assert(t[k] == u[k]);
        lemma_frame_in_frames(t, k);
        let o = choose|o: int|
            0 <= o && o + record_frame(t[k]).len() <= frames(t).len() && #[trigger] frames(
                t,
            ).subrange(o, o + record_frame(t[k]).len()) == record_frame(t[k]);
        assert(frames(u).subrange(o, o + record_frame(u[k]).len()) =~= frames(t).subrange(
            o,
            o + record_frame(t[k]).len(),
        ));
    }
}

/// `x` as 8 big-endian bytes: byte `q` is `x / 256^(7 - q)` modulo 256.
pub proof fn law_sizes_are_big_endian(x: u64)
    ensures
        be_bytes(x).len() == 8,
        be_bytes(x)[0] == (x / 0x100_0000_0000_0000) % 256,
        be_bytes(x)[1] == (x / 0x1_0000_0000_0000) % 256,
        be_bytes(x)[2] == (x / 0x100_0000_0000) % 256,
        be_bytes(x)[3] == (x / 0x1_0000_0000) % 256,
        be_bytes(x)[4] == (x / 0x100_0000) % 256,
        be_bytes(x)[5] == (x / 0x1_0000) % 256,
        be_bytes(x)[6] == (x / 0x100) % 256,
        be_bytes(x)[7] == x % 256,
{
    assert(((x >> 56) as u8) == (x / 0x100_0000_0000_0000) % 256) by (bit_vector);
    assert(((x >> 48) as u8) == (x / 0x1_0000_0000_0000) % 256) by (bit_vector);
    assert(((x >> 40) as u8) == (x / 0x100_0000_0000) % 256) by (bit_vector);
    assert(((x >> 32) as u8) == (x / 0x1_0000_0000) % 256) by (bit_vector);
    assert(((x >> 24) as u8) == (x / 0x100_0000) % 256) by (bit_vector);
    assert(((x >> 16) as u8) == (x / 0x1_0000) % 256) by (bit_vector);
    assert(((x >> 8) as u8) == (x / 0x100) % 256) by (bit_vector);
    assert((x as u8) == x % 256) by (bit_vector);
}

/// The value of an ASCII hexadecimal digit: `0`-`9` are 0 to 9, `a`-`f` and
/// `A`-`F` are 10 to 15.
pub open spec fn hex_digit_value(c: char) -> int {
    let n = c as u32;
    if '0' as u32 <= n && n <= '9' as u32 {
        n - ('0' as u32)
    } else if 'a' as u32 <= n && n <= 'f' as u32 {
        n - ('a' as u32) + 10
    } else {
        n - ('A' as u32) + 10
    }
}

/// A record's digest text of 64 hexadecimal digits (either case) stands for
/// the 32 bytes its digit pairs spell, high digit first.
pub proof fn law_digest_text_spells_bytes(v: Seq<char>)
    requires
        is_sha256_text(v),
    ensures
        decoded_sha256(v).len() == 32,
        forall|q: int|
            0 <= q < 32 ==> #[trigger] decoded_sha256(v)[q] == hex_digit_value(v[2 * q]) * 16
                + hex_digit_value(v[2 * q + 1]),
{
    assert forall|q: int| 0 <= q < 32 implies #[trigger] decoded_sha256(v)[q] == hex_digit_value(
        v[2 * q],
    ) * 16 + hex_digit_value(v[2 * q + 1]) by {
        let a = v[2 * q];
        let b = v[2 * q + 1];
        assert(nibble_value(a as u32) is Some);
        assert(nibble_value(b as u32) is Some);
        let na = nibble_value(a as u32)->0;
        let nb = nibble_value(b as u32)->0;
        assert(na as int == hex_digit_value(a));
        assert(nb as int == hex_digit_value(b));
        assert(na < 16 && nb < 16);
        assert(na * 16 + nb < 256) by (nonlinear_arith)
            requires
                na < 16,
                nb < 16,
        ;
    }
}

/// The tree hash is the lower-case hexadecimal SHA-256 digest of a message
/// that starts with the tag `rehome-shared-skill-tree-v1` and a NUL byte and
/// holds, for every record, its path's UTF-8 length as 8 big-endian bytes,
/// the path's UTF-8 bytes, its size as 8 big-endian bytes and the 32 bytes
/// its content digest spells, one after another. So every file's content
/// digest, not only its path and size, goes into the hash.
pub proof fn law_tree_hash_covers_every_record(s: Seq<PayloadRecord>, k: int)
    requires
        0 <= k < s.len(),
    ensures
        exists|m: Seq<u8>, o: int|
            #![trigger m.subrange(o, o + 16 + encode_utf8(s[k].0@).len() + 32)]
            {
                let r = s[k];
                let path = encode_utf8(r.0@);
                let frame = be_bytes(path.len() as u64) + path + be_bytes(r.1) + decoded_sha256(
                    r.2@,
                );
                &&& tree_hash_of(s) == hex_lower(sha256(m))
                &&& 28 <= m.len()
                &&& m.subrange(0, 28) == seq![
                    114u8, 101u8, 104u8, 111u8, 109u8, 101u8, 45u8, 115u8, 104u8, 97u8, 114u8,
                    101u8, 100u8, 45u8, 115u8, 107u8, 105u8, 108u8, 108u8, 45u8, 116u8, 114u8,
                    101u8, 101u8, 45u8, 118u8, 49u8, 0u8,
                ]
                &&& 28 <= o && o + 16 + path.len() + 32 <= m.len()
                &&& m.subrange(o, o + 16 + path.len() + 32) == frame
            },
{
    lemma_sort_contains(s);
    let u = sort_by_path(s);
    assert(s.contains(s[k]));
    assert(u.contains(s[k]));
    let j = choose|j: int| 0 <= j < u.len() && u[j] == s[k];
    lemma_frame_in_frames(u, j);
    let f = record_frame(u[j]);
    let o = choose|o: int|
        0 <= o && o + f.len() <= frames(u).len() && #[trigger] frames(u).subrange(o, o + f.len())
            == f;
    let m = tree_domain() + frames(u);
    let r = s[k];
    let path = encode_utf8(r.0@);
    assert(decoded_sha256(r.2@).len() == 32);
    assert(f.len() == 16 + path.len() + 32);
    assert(m.subrange(0, 28) =~= tree_domain());
    assert(m.subrange(o + 28, o + 28 + 16 + path.len() + 32) =~= frames(u).subrange(o, o + f.len()));
    assert(m.subrange(0, 28) == seq![
        114u8, 101u8, 104u8, 111u8, 109u8, 101u8, 45u8, 115u8, 104u8, 97u8, 114u8, 101u8, 100u8,
        45u8, 115u8, 107u8, 105u8, 108u8, 108u8, 45u8, 116u8, 114u8, 101u8, 101u8, 45u8, 118u8,
        49u8, 0u8,
    ]);
}

fn bytes_less(a: &[u8], b: &[u8]) -> (r: bool)
    ensures
        r == bytes_lt(a@, b@),
{
    let na = a.len();
    let nb = b.len();
    let mut i: usize = 0;
    assert(a@.skip(0) =~= a@);
    assert(b@.skip(0) =~= b@);
    while i < na && i < nb && a[i] == b[i]
        invariant
            na == a@.len(),
            nb == b@.len(),
            i <= na,
            i <= nb,
            bytes_lt(a@, b@) == bytes_lt(a@.skip(i as int), b@.skip(i as int)),
        decreases na - i,
    {
        assert(a@.skip(i as int).drop_first() =~= a@.skip(i + 1));
        assert(b@.skip(i as int).drop_first() =~= b@.skip(i + 1));
        i = i + 1;
    }
    if i < na && i < nb {
        assert(a@.skip(i as int)[0] == a@[i as int]);
        assert(b@.skip(i as int)[0] == b@[i as int]);
        a[i] < b[i]
    } else {
        i < nb
    }
}

fn copy_record(r: &PayloadRecord) -> (c: PayloadRecord)
    ensures
        c == *r,
{
    (r.0.clone(), r.1, r.2.clone())
}

/// The records ordered by path bytes, records with equal paths in their
/// given order.
pub fn sort_records_by_path(records: &Vec<PayloadRecord>) -> (r: Vec<PayloadRecord>)
    ensures
        r@ == sort_by_path(records@),
{
    let mut out: Vec<PayloadRecord> = Vec::new();
    let n = records.len();
    let mut i: usize = 0;
    while i < n
        invariant
            n == records@.len(),
            i <= n,
            out@ == sort_by_path(records@.take(i as int)),
        decreases n - i,
    {
        let rec = copy_record(&records[i]);
        let key = rec.0.as_str().as_bytes();
        let mut j = out.len();
        while j > 0 && bytes_less(key, out[j - 1].0.as_str().as_bytes())
            invariant
                j <= out@.len(),
                key@ == record_key(rec),
                forall|t: int|
                    j <= t < out@.len() ==> bytes_lt(record_key(rec), record_key(#[trigger] out@[t])),
            decreases j,
        {
            j = j - 1;
        }
        proof {
            lemma_insert_at(out@, rec, j as int);
            assert(records@.take(i + 1).drop_last() =~= records@.take(i as int));
        }
        out.insert(j, rec);
        i = i + 1;
    }
    assert(records@.take(n as int) =~= records@);
    out
}

fn push_be_bytes(out: &mut Vec<u8>, x: u64)
    ensures
        final(out)@ == old(out)@ + be_bytes(x),
{
    out.push((x >> 56) as u8);
    out.push((x >> 48) as u8);
    out.push((x >> 40) as u8);
    out.push((x >> 32) as u8);
    out.push((x >> 24) as u8);
    out.push((x >> 16) as u8);
    out.push((x >> 8) as u8);
    out.push(x as u8);
    assert(final(out)@ =~= old(out)@ + be_bytes(x));
}

fn push_bytes(out: &mut Vec<u8>, bytes: &[u8])
    ensures
        final(out)@ == old(out)@ + bytes@,
{
    let n = bytes.len();
    let mut i: usize = 0;
    while i < n
        invariant
            n == bytes@.len(),
            i <= n,
            out@ == old(out)@ + bytes@.take(i as int),
        decreases n - i,
    {
        out.push(bytes[i]);
        assert(bytes@.take(i + 1) =~= bytes@.take(i as int).push(bytes@[i as int]));
        i = i + 1;
    }
    assert(bytes@.take(n as int) =~= bytes@);
}

/// The tree hash of a Skill from its file records, or an error when some
/// record's digest is not 64 hexadecimal digits.
pub fn tree_hash_from_payload_records(records: &Vec<PayloadRecord>) -> (r: Result<
    String,
    RehomeError,
>)
    ensures
        match r {
            Ok(h) => all_digests_valid(records@) && h@ == tree_hash_of(records@),
            Err(e) => !all_digests_valid(records@) && e.code == ErrorCode::PackageInvalid
                && e.message@ == "Skill payload hash is not SHA-256"@,
        },
{
    let sorted = sort_records_by_path(records);
    proof {
        lemma_sort_contains(records@);
    }
    let mut message: Vec<u8> = vec![
        114, 101, 104, 111, 109, 101, 45, 115, 104, 97, 114, 101, 100, 45, 115, 107, 105, 108, 108,
        45, 116, 114, 101, 101, 45, 118, 49, 0,
    ];
    assert(message@ =~= tree_domain());
    let n = sorted.len();
    let mut i: usize = 0;
    while i < n
        invariant
            n == sorted@.len(),
            sorted@ == sort_by_path(records@),
            i <= n,
            message@ == tree_domain() + frames(sorted@.take(i as int)),
            forall|k: int| 0 <= k < i ==> is_sha256_text(#[trigger] sorted@[k].2@),
        decreases n - i,
    {
        let rec = &sorted[i];
        let digest = match decode_sha256(rec.2.as_str()) {
            Ok(d) => d,
            Err(e) => {
                proof {
                    lemma_sort_contains(records@);
                    assert(sorted@.contains(sorted@[i as int]));
                    assert(sort_by_path(records@).contains(sorted@[i as int]));
                    let k = choose|k: int| 0 <= k < records@.len() && records@[k] == sorted@[i as int];
                    assert(!is_sha256_text(records@[k].2@));
                }
                return Err(e);
            },
        };
        let path = rec.0.as_str().as_bytes();
        push_be_bytes(&mut message, path.len() as u64);
        push_bytes(&mut message, path);
        push_be_bytes(&mut message, rec.1);
        push_bytes(&mut message, digest.as_slice());
        proof {
            assert(sorted@.take(i + 1).drop_last() =~= sorted@.take(i as int));
            assert(message@ =~= tree_domain() + frames(sorted@.take(i as int)) + record_frame(
                sorted@[i as int],
            ));
        }
        i = i + 1;
    }
    proof {
        assert(sorted@.take(n as int) =~= sorted@);
        assert forall|k: int| 0 <= k < records@.len() implies is_sha256_text(
            #[trigger] records@[k].2@,
        ) by {
            assert(records@.contains(records@[k]));
            assert(sort_by_path(records@).contains(records@[k]));
            let j = choose|j: int| 0 <= j < sorted@.len() && sorted@[j] == records@[k];
            assert(is_sha256_text(sorted@[j].2@));
        }
    }
    Ok(sha256_hex(message.as_slice()))
}

/// Paths are ordered byte by byte, and a proper prefix comes first: the order of their UTF-8 bytes.
pub proof fn law_path_order_is_bytewise(a: Seq<u8>, b: Seq<u8>)
    ensures
        bytes_lt(a, b) <==> {
            ||| exists|i: int|
                0 <= i < a.len() && i < b.len() && a.take(i) == b.take(i) && #[trigger] a[i] < b[i]
            ||| (a.len() < b.len() && b.take(a.len() as int) == a)
        },
    decreases a.len(),
{
    if a.len() > 0 && b.len() > 0 {
        let a1 = a.drop_first();
        let b1 = b.drop_first();
        law_path_order_is_bytewise(a1, b1);
        if a[0] == b[0] {
            if bytes_lt(a1, b1) {
                if exists|i: int|
                    0 <= i < a1.len() && i < b1.len() && a1.take(i) == b1.take(i) && #[trigger] a1[i]
                        < b1[i] {
                    let i = choose|i: int|
                        0 <= i < a1.len() && i < b1.len() && a1.take(i) == b1.take(i) && #[trigger] a1[i]
                            < b1[i];
                    assert(a.take(i + 1) =~= seq![a[0]] + a1.take(i));
                    assert(b.take(i + 1) =~= seq![b[0]] + b1.take(i));
                    assert(a[i + 1] < b[i + 1]);
                } else {
                    assert(b.take(a.len() as int) =~= seq![b[0]] + b1.take(a1.len() as int));
                    assert(a =~= seq![a[0]] + a1);
                }
            } else {
                if exists|i: int|
                    0 <= i < a.len() && i < b.len() && a.take(i) == b.take(i) && #[trigger] a[i] < b[i] {
                    let i = choose|i: int|
                        0 <= i < a.len() && i < b.len() && a.take(i) == b.take(i) && #[trigger] a[i] < b[i];
                    assert(i > 0);
                    assert(a1.take(i - 1) =~= a.take(i).drop_first());
                    assert(b1.take(i - 1) =~= b.take(i).drop_first());
                    assert(a1[i - 1] < b1[i - 1]);
                }
                if a.len() < b.len() && b.take(a.len() as int) == a {
                    assert(b1.take(a1.len() as int) =~= b.take(a.len() as int).drop_first());
                }
            }
        } else {
            assert(a.take(0) =~= b.take(0));
            if bytes_lt(a, b) {
                assert(a[0] < b[0]);
            } else {
                if exists|i: int|
                    0 <= i < a.len() && i < b.len() && a.take(i) == b.take(i) && #[trigger] a[i] < b[i] {
                    let i = choose|i: int|
                        0 <= i < a.len() && i < b.len() && a.take(i) == b.take(i) && #[trigger] a[i] < b[i];
                    if i > 0 {
                        assert(a.take(i)[0] == b.take(i)[0]);
                    }
                }
                if a.len() < b.len() && b.take(a.len() as int) == a {
                    assert(b.take(a.len() as int)[0] == a[0]);
                }
            }
        }
    } else if a.len() == 0 && b.len() > 0 {
        assert(b.take(0) =~= a);
    }
}

} // verus!
