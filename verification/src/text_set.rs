//! Sets of texts kept in code-point order.
//!
//! Texts compare character by character by Unicode scalar value, a proper
//! prefix first. This is the order `String` sorts in, since UTF-8 keeps the
//! order of scalar values.
use vstd::prelude::*;
use crate::text::{chars_of, join_with};

verus! {

/// `a` sorts strictly before `b`.
pub open spec fn text_lt(a: Seq<char>, b: Seq<char>) -> bool
    decreases a.len(),
{
    if b.len() == 0 {
        false
    } else if a.len() == 0 {
        true
    } else if a[0] != b[0] {
        a[0] < b[0]
    } else {
        text_lt(a.drop_first(), b.drop_first())
    }
}

/// No text sorts before itself, and of two texts at most one sorts first.
pub proof fn lemma_text_lt_asymmetric(a: Seq<char>, b: Seq<char>)
    ensures
        !(text_lt(a, b) && text_lt(b, a)),
        !text_lt(a, a),
    decreases a.len(),
{
    if a.len() > 0 && b.len() > 0 && a[0] == b[0] {
        lemma_text_lt_asymmetric(a.drop_first(), b.drop_first());
    }
    if a.len() > 0 {
        lemma_text_lt_asymmetric(a.drop_first(), a.drop_first());
    }
}

/// Of two different texts, one sorts first.
pub proof fn lemma_text_lt_total(a: Seq<char>, b: Seq<char>)
    ensures
        a != b ==> text_lt(a, b) || text_lt(b, a),
    decreases a.len(),
{
    if a.len() > 0 && b.len() > 0 && a[0] == b[0] {
        lemma_text_lt_total(a.drop_first(), b.drop_first());
        if a.drop_first() == b.drop_first() {
            assert(a =~= seq![a[0]] + a.drop_first());
            assert(b =~= seq![b[0]] + b.drop_first());
        }
    }
    if a.len() == 0 && b.len() == 0 {
        assert(a =~= b);
    }
}

/// The order is transitive.
pub proof fn lemma_text_lt_transitive(a: Seq<char>, b: Seq<char>, c: Seq<char>)
    requires
        text_lt(a, b),
        text_lt(b, c),
    ensures
        text_lt(a, c),
    decreases a.len(),
{
    if a.len() > 0 && b.len() > 0 && c.len() > 0 && a[0] == b[0] && b[0] == c[0] {
        lemma_text_lt_transitive(a.drop_first(), b.drop_first(), c.drop_first());
    }
}

/// Every text sorts strictly before every later one.
pub open spec fn strictly_sorted(s: Seq<Seq<char>>) -> bool {
    forall|i: int, j: int| 0 <= i < j < s.len() ==> text_lt(#[trigger] s[i], #[trigger] s[j])
}

/// `x` added to the sorted texts `s`, unless it is already there.
pub open spec fn sorted_insert(s: Seq<Seq<char>>, x: Seq<char>) -> Seq<Seq<char>>
    decreases s.len(),
{
    if s.len() == 0 {
        seq![x]
    } else if s[0] == x {
        s
    } else if text_lt(x, s[0]) {
        seq![x] + s
    } else {
        seq![s[0]] + sorted_insert(s.drop_first(), x)
    }
}

/// Adding a text keeps the texts sorted, and adds exactly that text.
pub proof fn lemma_sorted_insert(s: Seq<Seq<char>>, x: Seq<char>)
    requires
        strictly_sorted(s),
    ensures
        strictly_sorted(sorted_insert(s, x)),
        forall|y: Seq<char>| #[trigger] sorted_insert(s, x).contains(y) <==> (s.contains(y) || y == x),
    decreases s.len(),
{
    if s.len() == 0 {
        assert(sorted_insert(s, x) =~= seq![x]);
        assert forall|y: Seq<char>| #[trigger] sorted_insert(s, x).contains(y) <==> (s.contains(y)
            || y == x) by {
            if sorted_insert(s, x).contains(y) {
                assert(seq![x][0] == x);
            }
            if y == x {
                assert(sorted_insert(s, x)[0] == x);
            }
        }
    } else if s[0] == x {
        assert forall|y: Seq<char>| #[trigger] sorted_insert(s, x).contains(y) <==> (s.contains(y)
            || y == x) by {
            if y == x {
                assert(s[0] == y);
            }
        }
    } else if text_lt(x, s[0]) {
        let r = seq![x] + s;
        assert(sorted_insert(s, x) == r);
        assert forall|i: int, j: int| 0 <= i < j < r.len() implies text_lt(
            #[trigger] r[i],
            #[trigger] r[j],
        ) by {
            if i == 0 {
                if j > 1 {
                    assert(text_lt(s[0], s[j - 1]));
                    lemma_text_lt_transitive(x, s[0], s[j - 1]);
                }
            } else {
                assert(text_lt(s[i - 1], s[j - 1]));
            }
        }
        assert forall|y: Seq<char>| #[trigger] r.contains(y) <==> (s.contains(y) || y == x) by {
            if r.contains(y) {
                let k = choose|k: int| 0 <= k < r.len() && r[k] == y;
                if k > 0 {
                    assert(s[k - 1] == y);
                }
            }
            if s.contains(y) {
                let k = choose|k: int| 0 <= k < s.len() && s[k] == y;
                assert(r[k + 1] == y);
            }
            if y == x {
                assert(r[0] == y);
            }
        }
    } else {
        let t = s.drop_first();
        assert forall|i: int, j: int| 0 <= i < j < t.len() implies text_lt(
            #[trigger] t[i],
            #[trigger] t[j],
        ) by {
            assert(text_lt(s[i + 1], s[j + 1]));
        }
        lemma_sorted_insert(t, x);
        lemma_text_lt_total(x, s[0]);
        let u = sorted_insert(t, x);
        let r = seq![s[0]] + u;
        assert(sorted_insert(s, x) == r);
        assert forall|y: Seq<char>| #[trigger] u.contains(y) implies text_lt(s[0], y) by {
            if t.contains(y) {
                let k = choose|k: int| 0 <= k < t.len() && t[k] == y;
                assert(text_lt(s[0], s[k + 1]));
            }
        }
        assert forall|i: int, j: int| 0 <= i < j < r.len() implies text_lt(
            #[trigger] r[i],
            #[trigger] r[j],
        ) by {
            if i == 0 {
                assert(u.contains(u[j - 1]));
            } else {
                assert(r[i] == u[i - 1] && r[j] == u[j - 1]);
            }
        }
        assert forall|y: Seq<char>| #[trigger] r.contains(y) <==> (s.contains(y) || y == x) by {
            if r.contains(y) {
                let k = choose|k: int| 0 <= k < r.len() && r[k] == y;
                if k > 0 {
                    assert(u.contains(u[k - 1]));
                    if t.contains(y) {
                        let q = choose|q: int| 0 <= q < t.len() && t[q] == y;
                        assert(s[q + 1] == y);
                    }
                } else {
                    assert(s[0] == y);
                }
            }
            if s.contains(y) {
                let k = choose|k: int| 0 <= k < s.len() && s[k] == y;
                if k == 0 {
                    assert(r[0] == y);
                } else {
                    assert(t[k - 1] == y);
                    assert(t.contains(y));
                    assert(u.contains(y));
                    let q = choose|q: int| 0 <= q < u.len() && u[q] == y;
                    assert(r[q + 1] == y);
                }
            }
            if y == x {
                assert(u.contains(x));
                let q = choose|q: int| 0 <= q < u.len() && u[q] == x;
                assert(r[q + 1] == x);
            }
        }
    }
}

/// Adding a text that is already there changes nothing.
pub proof fn lemma_sorted_insert_present(s: Seq<Seq<char>>, x: Seq<char>)
    requires
        strictly_sorted(s),
        s.contains(x),
    ensures
        sorted_insert(s, x) == s,
    decreases s.len(),
{
    if s[0] != x {
        let k = choose|k: int| 0 <= k < s.len() && s[k] == x;
        assert(k > 0);
        assert(text_lt(s[0], s[k]));
        lemma_text_lt_asymmetric(s[0], x);
        let t = s.drop_first();
        assert forall|i: int, j: int| 0 <= i < j < t.len() implies text_lt(
            #[trigger] t[i],
            #[trigger] t[j],
        ) by {
            assert(text_lt(s[i + 1], s[j + 1]));
        }
        assert(t[k - 1] == x);
        lemma_sorted_insert_present(t, x);
        assert(seq![s[0]] + t =~= s);
    }
}

/// Adding the same text twice is adding it once.
pub proof fn law_sorted_insert_idempotent(s: Seq<Seq<char>>, x: Seq<char>)
    requires
        strictly_sorted(s),
    ensures
        sorted_insert(sorted_insert(s, x), x) == sorted_insert(s, x),
{
    lemma_sorted_insert(s, x);
    lemma_sorted_insert_present(sorted_insert(s, x), x);
}

/// Where `x` goes in the sorted `s`: after the texts that sort before it.
proof fn lemma_sorted_insert_at(s: Seq<Seq<char>>, x: Seq<char>, j: int)
    requires
        strictly_sorted(s),
        0 <= j <= s.len(),
        forall|t: int| 0 <= t < j ==> text_lt(#[trigger] s[t], x),
        j == s.len() || !text_lt(s[j], x),
    ensures
        sorted_insert(s, x) == (if j < s.len() && s[j] == x {
            s
        } else {
            s.insert(j, x)
        }),
    decreases s.len(),
{
    if s.len() == 0 {
        assert(s.insert(0, x) =~= seq![x]);
    } else if j == 0 {
        if s[0] != x {
            lemma_text_lt_total(x, s[0]);
            assert(s.insert(0, x) =~= seq![x] + s);
        }
    } else {
        let t = s.drop_first();
        lemma_text_lt_asymmetric(s[0], x);
        assert(s[0] != x) by {
            lemma_text_lt_asymmetric(x, x);
        }
        assert forall|i: int, k: int| 0 <= i < k < t.len() implies text_lt(
            #[trigger] t[i],
            #[trigger] t[k],
        ) by {
            assert(text_lt(s[i + 1], s[k + 1]));
        }
        assert forall|q: int| 0 <= q < j - 1 implies text_lt(#[trigger] t[q], x) by {
            assert(text_lt(s[q + 1], x));
        }
        lemma_sorted_insert_at(t, x, j - 1);
        if j < s.len() && s[j] == x {
            assert(seq![s[0]] + t =~= s);
        } else {
            assert(seq![s[0]] + t.insert(j - 1, x) =~= s.insert(j, x));
        }
    }
}

/// Whether `a` sorts strictly before `b`.
pub fn text_less(a: &str, b: &str) -> (r: bool)
    ensures
        r == text_lt(a@, b@),
{
    let va = chars_of(a);
    let vb = chars_of(b);
    let na = va.len();
    let nb = vb.len();
    let mut i: usize = 0;
    assert(a@.skip(0) =~= a@);
    assert(b@.skip(0) =~= b@);
    while i < na && i < nb && va[i] == vb[i]
        invariant
            na == va@.len(),
            nb == vb@.len(),
            va@ == a@,
            vb@ == b@,
            i <= na,
            i <= nb,
            text_lt(a@, b@) == text_lt(a@.skip(i as int), b@.skip(i as int)),
        decreases na - i,
    {
        assert(a@.skip(i as int).drop_first() =~= a@.skip(i + 1));
        assert(b@.skip(i as int).drop_first() =~= b@.skip(i + 1));
        i = i + 1;
    }
    if i < na && i < nb {
        assert(a@.skip(i as int)[0] == a@[i as int]);
        assert(b@.skip(i as int)[0] == b@[i as int]);
        va[i] < vb[i]
    } else {
        i < nb
    }
}

/// A set of texts, kept sorted with each text once.
#[derive(Debug, Clone, PartialEq, Eq)]
pub struct TextSet {
    items: Vec<String>,
}

impl View for TextSet {
    type V = Seq<Seq<char>>;

    /// The texts, in order.
    closed spec fn view(&self) -> Seq<Seq<char>> {
        self.items@.map_values(|s: String| s@)
    }
}

impl TextSet {
    /// The texts are sorted with no repeats.
    pub open spec fn wf(self) -> bool {
        strictly_sorted(self@)
    }

    /// An empty set.
    pub fn new() -> (r: Self)
        ensures
            r.wf(),
            r@ == Seq::<Seq<char>>::empty(),
    {
        let r = TextSet { items: Vec::new() };
        assert(r@ =~= Seq::<Seq<char>>::empty());
        r
    }

    /// Whether the set is empty.
    pub fn is_empty(&self) -> (r: bool)
        ensures
            r == (self@.len() == 0),
    {
        self.items.len() == 0
    }

    /// Adds `x`, unless it is already there.
    pub fn insert(&mut self, x: String)
        requires
            old(self).wf(),
        ensures
            final(self).wf(),
            final(self)@ == sorted_insert(old(self)@, x@),
    {
        let ghost s = self@;
        let n = self.items.len();
        let mut j: usize = 0;
        while j < n && text_less(self.items[j].as_str(), x.as_str())
            invariant
                n == self.items@.len(),
                s == self@,
                s.len() == n,
                j <= n,
                forall|t: int| 0 <= t < j ==> text_lt(#[trigger] s[t], x@),
            decreases n - j,
        {
            j = j + 1;
        }
        proof {
            lemma_sorted_insert_at(s, x@, j as int);
            lemma_sorted_insert(s, x@);
        }
        if j < n && self.items[j] == x {
            return;
        }
        self.items.insert(j, x);
        assert(self@ =~= s.insert(j as int, x@));
    }

    /// The texts, in order.
    pub fn to_vec(&self) -> (r: Vec<String>)
        ensures
            r@.map_values(|s: String| s@) == self@,
    {
        self.items.clone()
    }

    /// The texts, in order, joined by `sep`.
    pub fn joined(&self, sep: &str) -> (r: String)
        ensures
            r@ == join_with(self@, sep@),
    {
        let n = self.items.len();
        let mut out = String::new();
        let mut i: usize = 0;
        while i < n
            invariant
                n == self@.len(),
                i <= n,
                out@ == join_with(self@.take(i as int), sep@),
            decreases n - i,
        {
            let ghost before = self@.take(i as int);
            assert(self@.take(i + 1).drop_last() =~= before);
            if i > 0 {
                out.append(sep);
            }
            out.append(self.items[i].as_str());
            proof {
                if i == 0 {
                    assert(before.len() == 0);
                    assert(out@ =~= self@[0]);
                } else {
                    assert(out@ =~= join_with(before, sep@) + sep@ + self@[i as int]);
                }
            }
            i = i + 1;
        }
        assert(self@.take(n as int) =~= self@);
        out
    }
}

/// Texts are ordered character by character (by code point), and a proper prefix comes first: the order of Rust's `String`.
pub proof fn law_text_order_is_lexicographic(a: Seq<char>, b: Seq<char>)
    ensures
        text_lt(a, b) <==> {
            ||| exists|i: int|
                0 <= i < a.len() && i < b.len() && a.take(i) == b.take(i) && #[trigger] a[i] < b[i]
            ||| (a.len() < b.len() && b.take(a.len() as int) == a)
        },
    decreases a.len(),
{
    if a.len() > 0 && b.len() > 0 {
        let a1 = a.drop_first();
        let b1 = b.drop_first();
        law_text_order_is_lexicographic(a1, b1);
        if a[0] == b[0] {
            if text_lt(a1, b1) {
                if exists|i: int|
                    0 <= i < a1.len() && i < b1.len() && a1.take(i) == b1.take(i) && #[trigger] a1[i]
                        < b1[i] {
                    let i = choose|i: int|
                        0 <= i < a1.len() && i < b1.len() && a1.take(i) == b1.take(i) && #[trigger] a1[i]
                            < b1[i];
                    assert(a.take(i + 1) =~= seq![a[0]] + a1.take(i));
                    assert(b.take(i + 1) =~= seq![b[0]] + b1.take(i));
                    assert(a[i + 1] < b[i + 1]);
                } else {
                    assert(b.take(a.len() as int) =~= seq![b[0]] + b1.take(a1.len() as int));
                    assert(a =~= seq![a[0]] + a1);
                }
            } else {
                if exists|i: int|
                    0 <= i < a.len() && i < b.len() && a.take(i) == b.take(i) && #[trigger] a[i] < b[i] {
                    let i = choose|i: int|
                        0 <= i < a.len() && i < b.len() && a.take(i) == b.take(i) && #[trigger] a[i] < b[i];
                    assert(i > 0);
                    assert(a1.take(i - 1) =~= a.take(i).drop_first());
                    assert(b1.take(i - 1) =~= b.take(i).drop_first());
                    assert(a1[i - 1] < b1[i - 1]);
                }
                if a.len() < b.len() && b.take(a.len() as int) == a {
                    assert(b1.take(a1.len() as int) =~= b.take(a.len() as int).drop_first());
                }
            }
        } else {
            assert(a.take(0) =~= b.take(0));
            if text_lt(a, b) {
                assert(a[0] < b[0]);
            } else {
                if exists|i: int|
                    0 <= i < a.len() && i < b.len() && a.take(i) == b.take(i) && #[trigger] a[i] < b[i] {
                    let i = choose|i: int|
                        0 <= i < a.len() && i < b.len() && a.take(i) == b.take(i) && #[trigger] a[i] < b[i];
                    if i > 0 {
                        assert(a.take(i)[0] == b.take(i)[0]);
                    }
                }
                if a.len() < b.len() && b.take(a.len() as int) == a {
                    assert(b.take(a.len() as int)[0] == a[0]);
                }
            }
        }
    } else if a.len() == 0 && b.len() > 0 {
        assert(b.take(0) =~= a);
    }
}

} // verus!
