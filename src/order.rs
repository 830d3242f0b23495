//! A stable sort on composite keys: an integer first, then a list of strings
//! compared lexicographically. The result is a permutation of indices.

use vstd::prelude::*;

use crate::text::{chars_lt, lemma_chars_lt_total, lemma_chars_lt_transitive, str_eq, str_lt};

verus! {

/// A sort key: `primary` decides first, `rest` breaks ties in order.
pub struct SortKey {
    pub primary: i64,
    pub rest: Vec<String>,
}

impl View for SortKey {
    type V = (int, Seq<Seq<char>>);

    open spec fn view(&self) -> (int, Seq<Seq<char>>) {
        (self.primary as int, self.rest@.map_values(|s: String| s@))
    }
}

/// Lexicographic order on lists of strings.
pub open spec fn strings_lt(a: Seq<Seq<char>>, b: Seq<Seq<char>>) -> bool
    decreases a.len(),
{
    if a.len() == 0 {
        b.len() > 0
    } else if b.len() == 0 {
        false
    } else if a[0] != b[0] {
        chars_lt(a[0], b[0])
    } else {
        strings_lt(a.drop_first(), b.drop_first())
    }
}

/// The order of sort keys.
pub open spec fn key_lt(a: (int, Seq<Seq<char>>), b: (int, Seq<Seq<char>>)) -> bool {
    a.0 < b.0 || (a.0 == b.0 && strings_lt(a.1, b.1))
}

proof fn lemma_strings_lt_irreflexive(a: Seq<Seq<char>>)
    ensures
        !strings_lt(a, a),
    decreases a.len(),
{
    if a.len() > 0 {
        lemma_strings_lt_irreflexive(a.drop_first());
    }
}

pub proof fn lemma_strings_lt_total(a: Seq<Seq<char>>, b: Seq<Seq<char>>)
    ensures
        strings_lt(a, b) || strings_lt(b, a) || a == b,
        strings_lt(a, b) ==> !strings_lt(b, a),
    decreases a.len(),
{
    if a.len() > 0 && b.len() > 0 {
        lemma_strings_lt_total(a.drop_first(), b.drop_first());
        lemma_chars_lt_total(a[0], b[0]);
        if a[0] == b[0] && a.drop_first() == b.drop_first() {
            assert(a == seq![a[0]] + a.drop_first());
            assert(b == seq![b[0]] + b.drop_first());
        }
    } else if a.len() == 0 && b.len() == 0 {
        assert(a == b);
    }
}

proof fn lemma_strings_lt_transitive(a: Seq<Seq<char>>, b: Seq<Seq<char>>, c: Seq<Seq<char>>)
    ensures
        strings_lt(a, b) && strings_lt(b, c) ==> strings_lt(a, c),
    decreases a.len(),
{
    if a.len() > 0 && b.len() > 0 && c.len() > 0 {
        lemma_strings_lt_transitive(a.drop_first(), b.drop_first(), c.drop_first());
        lemma_chars_lt_transitive(a[0], b[0], c[0]);
        lemma_chars_lt_total(a[0], b[0]);
        lemma_chars_lt_total(b[0], c[0]);
        lemma_chars_lt_total(a[0], c[0]);
    }
}

/// `key_lt` is a strict weak order: irreflexive, asymmetric, transitive, and
/// its complement is transitive too.
pub proof fn lemma_key_lt_order(
    a: (int, Seq<Seq<char>>),
    b: (int, Seq<Seq<char>>),
    c: (int, Seq<Seq<char>>),
)
    ensures
        !key_lt(a, a),
        key_lt(a, b) ==> !key_lt(b, a),
        key_lt(a, b) && key_lt(b, c) ==> key_lt(a, c),
        !key_lt(a, b) && !key_lt(b, c) ==> !key_lt(a, c),
{
    lemma_strings_lt_irreflexive(a.1);
    lemma_strings_lt_total(a.1, b.1);
    lemma_strings_lt_total(b.1, c.1);
    lemma_strings_lt_total(a.1, c.1);
    lemma_strings_lt_transitive(a.1, b.1, c.1);
    lemma_strings_lt_transitive(c.1, a.1, b.1);
    lemma_strings_lt_transitive(b.1, c.1, a.1);
    lemma_strings_lt_transitive(c.1, b.1, a.1);
    lemma_strings_lt_transitive(a.1, c.1, b.1);
    lemma_strings_lt_transitive(b.1, a.1, c.1);
}

/// Compares two sort keys.
pub fn key_less(a: &SortKey, b: &SortKey) -> (r: bool)
    ensures
        r == key_lt(a@, b@),
{
    if a.primary != b.primary {
        return a.primary < b.primary;
    }
    let ghost sa = a@.1;
    let ghost sb = b@.1;
    let na = a.rest.len();
    let nb = b.rest.len();
    let mut i: usize = 0;
    assert(sa.skip(0) == sa);
    assert(sb.skip(0) == sb);
    while i < na && i < nb
        invariant
            a.primary == b.primary,
            sa == a@.1,
            sb == b@.1,
            na == sa.len(),
            nb == sb.len(),
            i <= na,
            i <= nb,
            strings_lt(sa, sb) == strings_lt(sa.skip(i as int), sb.skip(i as int)),
        decreases na - i,
    {
        let x = a.rest[i].as_str();
        let y = b.rest[i].as_str();
        assert(sa[i as int] == x@ && sb[i as int] == y@);
        assert(sa.skip(i as int)[0] == sa[i as int]);
        assert(sb.skip(i as int)[0] == sb[i as int]);
        if !str_eq(x, y) {
            assert(strings_lt(sa.skip(i as int), sb.skip(i as int)) == chars_lt(x@, y@));
            return str_lt(x, y);
        }
        assert(sa.skip(i as int).drop_first() == sa.skip(i + 1));
        assert(sb.skip(i as int).drop_first() == sb.skip(i + 1));
        i = i + 1;
    }
    i < nb && i == na
}

pub open spec fn key_views(keys: Seq<SortKey>) -> Seq<(int, Seq<Seq<char>>)> {
    keys.map_values(|k: SortKey| k@)
}

/// Where index `x` goes in `s`: after every index whose key is not greater.
pub open spec fn insert_pos(keys: Seq<(int, Seq<Seq<char>>)>, s: Seq<int>, x: int) -> int
    decreases s.len(),
{
    if s.len() == 0 {
        0
    } else if key_lt(keys[x], keys[s.last()]) {
        insert_pos(keys, s.drop_last(), x)
    } else {
        s.len() as int
    }
}

/// The indices `0..n` in stable order of their keys: by key, and by index
/// among equal keys.
pub open spec fn stable_order(keys: Seq<(int, Seq<Seq<char>>)>, n: nat) -> Seq<int>
    decreases n,
{
    if n == 0 {
        Seq::empty()
    } else {
        let s = stable_order(keys, (n - 1) as nat);
        s.insert(insert_pos(keys, s, n - 1), n - 1)
    }
}

/// Indices in order of their keys, never a greater key before a smaller one.
pub open spec fn ordered_by(keys: Seq<(int, Seq<Seq<char>>)>, s: Seq<int>) -> bool {
    forall|i: int, j: int|
        0 <= i < j < s.len() ==> !key_lt(#[trigger] keys[s[j]], #[trigger] keys[s[i]])
}

/// Every index below `n` exactly once.
pub open spec fn permutes(s: Seq<int>, n: nat) -> bool {
    &&& s.len() == n
    &&& forall|i: int| 0 <= i < s.len() ==> 0 <= #[trigger] s[i] < n
    &&& forall|i: int, j: int| 0 <= i < j < s.len() ==> s[i] != s[j]
}

proof fn lemma_insert_pos(keys: Seq<(int, Seq<Seq<char>>)>, s: Seq<int>, x: int)
    ensures
        0 <= insert_pos(keys, s, x) <= s.len(),
        insert_pos(keys, s, x) > 0 ==> !key_lt(keys[x], keys[s[insert_pos(keys, s, x) - 1]]),
        forall|q: int| insert_pos(keys, s, x) <= q < s.len() ==> key_lt(keys[x], keys[#[trigger] s[q]]),
    decreases s.len(),
{
    if s.len() > 0 && key_lt(keys[x], keys[s.last()]) {
        lemma_insert_pos(keys, s.drop_last(), x);
        let p = insert_pos(keys, s, x);
        assert forall|q: int| p <= q < s.len() implies key_lt(keys[x], keys[#[trigger] s[q]]) by {
            if q < s.len() - 1 {
                assert(s.drop_last()[q] == s[q]);
            }
        }
        if p > 0 {
            assert(s.drop_last()[p - 1] == s[p - 1]);
        }
    }
}

/// The stable order is a permutation of the indices, ordered by key.
pub proof fn lemma_stable_order(keys: Seq<(int, Seq<Seq<char>>)>, n: nat)
    requires
        n <= keys.len(),
    ensures
        permutes(stable_order(keys, n), n),
        ordered_by(keys, stable_order(keys, n)),
    decreases n,
{
    if n > 0 {
        let m = (n - 1) as nat;
        lemma_stable_order(keys, m);
        let s = stable_order(keys, m);
        let x = n - 1;
        let p = insert_pos(keys, s, x);
        lemma_insert_pos(keys, s, x);
        let t = s.insert(p, x);
        assert(t.len() == n);
        assert forall|i: int| 0 <= i < t.len() implies 0 <= #[trigger] t[i] < n by {
            if i < p {
                assert(t[i] == s[i]);
            } else if i > p {
                assert(t[i] == s[i - 1]);
            }
        }
        assert forall|i: int, j: int| 0 <= i < j < t.len() implies t[i] != t[j] by {
            if i < p && j < p {
                assert(t[i] == s[i] && t[j] == s[j]);
            } else if i < p && j > p {
                assert(t[i] == s[i] && t[j] == s[j - 1]);
            } else if i > p {
                assert(t[i] == s[i - 1] && t[j] == s[j - 1]);
            } else if i == p {
                assert(t[j] == s[j - 1]);
            } else {
                assert(t[i] == s[i]);
            }
        }
        assert forall|i: int, j: int| 0 <= i < j < t.len() implies !key_lt(
            #[trigger] keys[t[j]],
            #[trigger] keys[t[i]],
        ) by {
            if j < p {
                assert(t[i] == s[i] && t[j] == s[j]);
            } else if i > p {
                assert(t[i] == s[i - 1] && t[j] == s[j - 1]);
            } else if j == p {
                assert(t[i] == s[i]);
                assert(t[j] == x);
                assert(!key_lt(keys[x], keys[s[p - 1]]));
                if i < p - 1 {
                    assert(!key_lt(keys[s[p - 1]], keys[s[i]]));
                    lemma_key_lt_order(keys[x], keys[s[p - 1]], keys[s[i]]);
                }
            } else if i == p {
                assert(t[j] == s[j - 1]);
                assert(key_lt(keys[x], keys[s[j - 1]]));
                lemma_key_lt_order(keys[x], keys[s[j - 1]], keys[x]);
            } else {
                assert(t[i] == s[i] && t[j] == s[j - 1]);
            }
        }
    }
}

/// Computes the stable order of the keys.
pub fn sort_order(keys: &Vec<SortKey>) -> (r: Vec<usize>)
    ensures
        r@.map_values(|i: usize| i as int) == stable_order(key_views(keys@), keys@.len()),
{
    let ghost kv = key_views(keys@);
    let mut out: Vec<usize> = Vec::new();
    let mut n: usize = 0;
    assert(out@.map_values(|i: usize| i as int) =~= Seq::<int>::empty());
    while n < keys.len()
        invariant
            kv == key_views(keys@),
            n <= keys.len(),
            out@.map_values(|i: usize| i as int) == stable_order(kv, n as nat),
            forall|i: int| 0 <= i < out@.len() ==> (#[trigger] out@[i]) < n,
        decreases keys.len() - n,
    {
        let ghost s = out@.map_values(|i: usize| i as int);
        let mut p: usize = out.len();
        assert(s.take(p as int) == s);
        while p > 0
            invariant
                s == out@.map_values(|i: usize| i as int),
                p <= out.len(),
                n < keys.len(),
                kv == key_views(keys@),
                forall|i: int| 0 <= i < out@.len() ==> (#[trigger] out@[i]) < n,
                insert_pos(kv, s, n as int) == insert_pos(kv, s.take(p as int), n as int),
            ensures
                p <= out.len(),
                insert_pos(kv, s, n as int) == p as int,
            decreases p,
        {
            assert(s.take(0) == Seq::<int>::empty());
            let j = out[p - 1];
            proof {
                assert(s.take(p as int).drop_last() == s.take(p - 1));
                assert(s.take(p as int).last() == j as int);
                assert(kv[j as int] == keys@[j as int]@);
                assert(kv[n as int] == keys@[n as int]@);
            }
            if !key_less(&keys[n], &keys[j]) {
                proof {
                    assert(insert_pos(kv, s.take(p as int), n as int) == p as int);
                }
                break;
            }
            p = p - 1;
        }

        assert(stable_order(kv, (n + 1) as nat) == s.insert(p as int, n as int));
        out.insert(p, n);
        proof {
            assert(out@.map_values(|i: usize| i as int) =~= s.insert(p as int, n as int));
        }
        n = n + 1;
    }
    out
}

} // verus!
