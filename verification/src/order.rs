//! Lexicographic order on strings (by code point, which is the order that
//! std's `String: Ord` gives, since UTF-8 keeps code point order) and a
//! verified sort.

use vstd::prelude::*;
use crate::text::{chars_of, string_views};

verus! {

broadcast use vstd::seq_lib::group_to_multiset_ensures;

/// `a` comes strictly before `b` in lexicographic order.
pub open spec fn seq_lt(a: Seq<char>, b: Seq<char>) -> bool
    decreases a.len(),
{
    if a.len() == 0 {
        b.len() > 0
    } else if b.len() == 0 {
        false
    } else if a[0] != b[0] {
        a[0] < b[0]
    } else {
        seq_lt(a.drop_first(), b.drop_first())
    }
}

/// Two strings are equal or one comes before the other.
pub proof fn lemma_seq_lt_total(a: Seq<char>, b: Seq<char>)
    ensures
        a == b || seq_lt(a, b) || seq_lt(b, a),
    decreases a.len(),
{
    if a.len() > 0 && b.len() > 0 && a[0] == b[0] {
        lemma_seq_lt_total(a.drop_first(), b.drop_first());
        if a.drop_first() == b.drop_first() {
            assert(a =~= seq![a[0]] + a.drop_first());
            assert(b =~= seq![b[0]] + b.drop_first());
        }
    } else if a.len() == 0 && b.len() == 0 {
        assert(a =~= b);
    }
}

/// The order is asymmetric.
pub proof fn lemma_seq_lt_asymmetric(a: Seq<char>, b: Seq<char>)
    ensures
        seq_lt(a, b) ==> !seq_lt(b, a),
    decreases a.len(),
{
    if a.len() > 0 && b.len() > 0 && a[0] == b[0] {
        lemma_seq_lt_asymmetric(a.drop_first(), b.drop_first());
    }
}

/// The order is transitive.
pub proof fn lemma_seq_lt_transitive(a: Seq<char>, b: Seq<char>, c: Seq<char>)
    requires
        seq_lt(a, b),
        seq_lt(b, c),
    ensures
        seq_lt(a, c),
    decreases a.len(),
{
    if a.len() > 0 && b.len() > 0 && c.len() > 0 && a[0] == b[0] && b[0] == c[0] {
        lemma_seq_lt_transitive(a.drop_first(), b.drop_first(), c.drop_first());
    }
}

/// Whether `a` comes strictly before `b`.
pub fn str_less(a: &str, b: &str) -> (r: bool)
    ensures
        r == seq_lt(a@, b@),
{
    let x = chars_of(a);
    let y = chars_of(b);
    let mut i: usize = 0;
    proof {
        assert(x@.skip(0) =~= x@);
        assert(y@.skip(0) =~= y@);
    }
    while i < x.len() && i < y.len() && x[i] == y[i]
        invariant
            i <= x@.len(),
            i <= y@.len(),
            forall|k: int| 0 <= k < i ==> x@[k] == y@[k],
            seq_lt(x@, y@) == seq_lt(x@.skip(i as int), y@.skip(i as int)),
        decreases x@.len() - i,
    {
        proof {
            let xs = x@.skip(i as int);
            let ys = y@.skip(i as int);
            assert(xs.drop_first() =~= x@.skip(i + 1));
            assert(ys.drop_first() =~= y@.skip(i + 1));
        }
        i += 1;
    }
    if i == x.len() {
        i < y.len()
    } else if i == y.len() {
        false
    } else {
        x[i] < y[i]
    }
}

/// `s` is in non-decreasing order.
pub open spec fn is_sorted(s: Seq<Seq<char>>) -> bool {
    forall|i: int, j: int| 0 <= i < j < s.len() ==> !seq_lt(#[trigger] s[j], #[trigger] s[i])
}

/// Inserting an element adds one copy of it to the multiset.
pub proof fn lemma_insert_multiset<A>(s: Seq<A>, pos: int, x: A)
    requires
        0 <= pos <= s.len(),
    ensures
        s.insert(pos, x).to_multiset() =~= s.to_multiset().insert(x),
{
    let t = s.insert(pos, x);
    s.insert_ensures(pos, x);
    assert(t.remove(pos) =~= s);
    t.remove_ensures(pos);
    assert(t.remove(pos).to_multiset() =~= t.to_multiset().remove(x));
    assert(t.contains(x)) by {
        assert(t[pos] == x);
    }
    assert(t.to_multiset().count(x) > 0);
}

/// `names` in lexicographic order (std `[String]::sort`).
pub fn sort_strings(names: Vec<String>) -> (res: Vec<String>)
    ensures
        is_sorted(string_views(res@)),
        string_views(res@).to_multiset() == string_views(names@).to_multiset(),
{
    let mut out: Vec<String> = Vec::new();
    let mut i: usize = 0;
    let n = names.len();
    while i < n
        invariant
            n == names@.len(),
            i <= n,
            is_sorted(string_views(out@)),
            string_views(out@).to_multiset() == string_views(names@.take(i as int)).to_multiset(),
        decreases n - i,
    {
        let x = names[i].clone();
        let mut k: usize = 0;
        while k < out.len() && !str_less(x.as_str(), out[k].as_str())
            invariant
                k <= out@.len(),
                forall|m: int| 0 <= m < k ==> !seq_lt(x@, #[trigger] out@[m]@),
            decreases out@.len() - k,
        {
            k += 1;
        }
        let ghost before = string_views(out@);
        out.insert(k, x);
        proof {
            let after = string_views(out@);
            assert(after =~= before.insert(k as int, x@));
            before.insert_ensures(k as int, x@);
            lemma_insert_multiset(before, k as int, x@);
            assert(string_views(names@.take(i + 1)) =~= string_views(names@.take(i as int)).push(names@[i as int]@));
            assert forall|a: int, b: int| 0 <= a < b < after.len() implies !seq_lt(#[trigger] after[b], #[trigger] after[a]) by {
                if a < k && b == k {
                    // after[a] == before[a], and !seq_lt(x, before[a])
                } else if a == k && b > k {
                    // x comes before before[b - 1]? k is the first with seq_lt(x, out[k])
                    if k < before.len() {
                        assert(seq_lt(x@, before[k as int]));
                        if b - 1 > k {
                            lemma_seq_lt_total(before[k as int], before[b - 1]);
                            if seq_lt(before[b - 1], x@) {
                                if before[k as int] == before[b - 1] {
                                    lemma_seq_lt_asymmetric(x@, before[k as int]);
                                } else {
                                    lemma_seq_lt_transitive(before[k as int], before[b - 1], x@);
                                    lemma_seq_lt_asymmetric(x@, before[k as int]);
                                }
                            }
                        } else {
                            lemma_seq_lt_asymmetric(x@, before[k as int]);
                        }
                    }
                } else if a < k && b > k {
                } else {
                }
            }
        }
        i += 1;
    }
    proof {
        assert(names@.take(n as int) =~= names@);
    }
    out
}

/// `s` is in strictly increasing order (so it holds no duplicates).
pub open spec fn is_strictly_sorted(s: Seq<Seq<char>>) -> bool {
    forall|i: int, j: int| 0 <= i < j < s.len() ==> seq_lt(#[trigger] s[i], #[trigger] s[j])
}

/// The distinct values of `names`, in increasing order (what collecting
/// into a set and sorting gives).
pub fn sorted_set(names: Vec<String>) -> (res: Vec<String>)
    ensures
        is_strictly_sorted(string_views(res@)),
        forall|x: Seq<char>| string_views(res@).contains(x) <==> string_views(names@).contains(x),
{
    let ghost input = string_views(names@);
    let sorted = sort_strings(names);
    let ghost sv = string_views(sorted@);
    proof {
        assert forall|x: Seq<char>| sv.contains(x) <==> input.contains(x) by {
            assert(sv.to_multiset().count(x) == input.to_multiset().count(x));
        }
    }
    let mut out: Vec<String> = Vec::new();
    let mut i: usize = 0;
    while i < sorted.len()
        invariant
            i <= sorted@.len(),
            sv == string_views(sorted@),
            is_sorted(sv),
            is_strictly_sorted(string_views(out@)),
            out@.len() > 0 ==> i > 0 && string_views(out@).last() == sv[i - 1],
            forall|x: Seq<char>| string_views(out@).contains(x) <==> sv.take(i as int).contains(x),
        decreases sorted@.len() - i,
    {
        let ghost ov = string_views(out@);
        let keep = out.len() == 0 || str_less(out[out.len() - 1].as_str(), sorted[i].as_str());
        proof {
            assert(sv.take(i + 1) =~= sv.take(i as int).push(sv[i as int]));
        }
        if keep {
            out.push(sorted[i].clone());
            proof {
                let nv = string_views(out@);
                let t1 = sv.take(i + 1);
                let t0 = sv.take(i as int);
                assert(nv =~= ov.push(sv[i as int]));
                assert forall|a: int, b: int| 0 <= a < b < nv.len() implies seq_lt(#[trigger] nv[a], #[trigger] nv[b]) by {
                    if b == nv.len() - 1 && a < b {
                        if a < ov.len() - 1 {
                            lemma_seq_lt_transitive(ov[a], ov.last(), sv[i as int]);
                        }
                    }
                }
                assert forall|x: Seq<char>| nv.contains(x) <==> t1.contains(x) by {
                    if nv.contains(x) {
                        let k = choose|k: int| 0 <= k < nv.len() && nv[k] == x;
                        if k < ov.len() {
                            assert(ov[k] == x);
                            assert(ov.contains(x));
                        } else {
                            assert(t1[i as int] == x);
                        }
                    }
                    if t1.contains(x) {
                        let k = choose|k: int| 0 <= k < t1.len() && t1[k] == x;
                        if k < i {
                            assert(t0[k] == x);
                            assert(ov.contains(x));
                            let m = choose|m: int| 0 <= m < ov.len() && ov[m] == x;
                            assert(nv[m] == x);
                        } else {
                            assert(nv[nv.len() - 1] == x);
                        }
                    }
                }
            }
        } else {
            proof {
                let t1 = sv.take(i + 1);
                let t0 = sv.take(i as int);
                // the new value equals the last kept one
                assert(!seq_lt(sv[i - 1], sv[i as int]));
                assert(!seq_lt(sv[i as int], sv[i - 1]));
                lemma_seq_lt_total(sv[i - 1], sv[i as int]);
                assert forall|x: Seq<char>| ov.contains(x) <==> t1.contains(x) by {
                    if t1.contains(x) {
                        let k = choose|k: int| 0 <= k < t1.len() && t1[k] == x;
                        if k == i {
                            assert(ov[ov.len() - 1] == x);
                        } else {
                            assert(t0[k] == x);
                        }
                    }
                    if ov.contains(x) {
                        assert(t0.contains(x));
                        let k = choose|k: int| 0 <= k < t0.len() && t0[k] == x;
                        assert(t1[k] == x);
                    }
                }
            }
        }
        i += 1;
    }
    assert(sv.take(sorted@.len() as int) =~= sv);
    out
}

} // verus!
