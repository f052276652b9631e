//! Ranking projects by the user's weighted totals: a stable sort by total,
//! lowest first, and the line printed for each rank.

use vstd::prelude::*;

use crate::request::{lemma_decimal_numeral, numeral};
use crate::text::{decimal, push_decimal, push_str};

verus! {

/// The entries of `s` whose total is `k`, in their order in `s`.
pub open spec fn with_total(s: Seq<(String, u32)>, k: u32) -> Seq<(String, u32)>
    decreases s.len(),
{
    if s.len() == 0 {
        Seq::empty()
    } else if s.last().1 == k {
        with_total(s.drop_last(), k).push(s.last())
    } else {
        with_total(s.drop_last(), k)
    }
}

/// Totals never decrease along `s`.
pub open spec fn ascending(s: Seq<(String, u32)>) -> bool {
    forall|i: int, j: int| 0 <= i <= j < s.len() ==> (#[trigger] s[i]).1 <= (#[trigger] s[j]).1
}

/// `r` is `s` sorted by total, lowest first, with entries of equal total in
/// their order in `s` (what a stable sort by total gives).
pub open spec fn stable_sorted_by_total(r: Seq<(String, u32)>, s: Seq<(String, u32)>) -> bool {
    &&& ascending(r)
    &&& forall|k: u32| #[trigger] with_total(r, k) == with_total(s, k)
}

/// Picking the entries of a total distributes over concatenation.
pub proof fn lemma_with_total_concat(a: Seq<(String, u32)>, b: Seq<(String, u32)>, k: u32)
    ensures
        with_total(a + b, k) == with_total(a, k) + with_total(b, k),
    decreases b.len(),
{
    if b.len() == 0 {
        assert(a + b =~= a);
        assert(with_total(a, k) + with_total(b, k) =~= with_total(a, k));
    } else {
        lemma_with_total_concat(a, b.drop_last(), k);
        assert((a + b).drop_last() =~= a + b.drop_last());
        assert((a + b).last() == b.last());
        if b.last().1 == k {
            assert(with_total(a, k) + with_total(b.drop_last(), k).push(b.last()) =~= (with_total(a, k)
                + with_total(b.drop_last(), k)).push(b.last()));
        }
    }
}

/// No entry of total `k` gives nothing.
pub proof fn lemma_with_total_none(s: Seq<(String, u32)>, k: u32)
    requires
        forall|i: int| 0 <= i < s.len() ==> (#[trigger] s[i]).1 != k,
    ensures
        with_total(s, k) == Seq::<(String, u32)>::empty(),
    decreases s.len(),
{
    if s.len() > 0 {
        assert(s.last() == s[s.len() - 1]);
        lemma_with_total_none(s.drop_last(), k);
    }
}

/// `s` holds an entry of total `k` exactly where picking them gives some.
pub proof fn lemma_with_total_nonempty(s: Seq<(String, u32)>, k: u32)
    ensures
        with_total(s, k).len() > 0 <==> exists|i: int| 0 <= i < s.len() && (#[trigger] s[i]).1 == k,
    decreases s.len(),
{
    if s.len() > 0 {
        lemma_with_total_nonempty(s.drop_last(), k);
        if exists|i: int| 0 <= i < s.drop_last().len() && (#[trigger] s.drop_last()[i]).1 == k {
            let i = choose|i: int| 0 <= i < s.drop_last().len() && (#[trigger] s.drop_last()[i]).1 == k;
            assert(s[i] == s.drop_last()[i]);
        }
        if exists|i: int| 0 <= i < s.len() && (#[trigger] s[i]).1 == k {
            let i = choose|i: int| 0 <= i < s.len() && (#[trigger] s[i]).1 == k;
            if i < s.len() - 1 {
                assert(s.drop_last()[i] == s[i]);
            } else {
                assert(s.last() == s[i]);
            }
        }
    }
}

/// The ranking is determined: two results of ranking the same projects are
/// equal.
pub proof fn lemma_ranking_unique(r1: Seq<(String, u32)>, r2: Seq<(String, u32)>, s: Seq<(String, u32)>)
    requires
        stable_sorted_by_total(r1, s),
        stable_sorted_by_total(r2, s),
    ensures
        r1 == r2,
{
    assert forall|k: u32| #[trigger] with_total(r1, k) == with_total(r2, k) by {
        assert(with_total(r1, k) == with_total(s, k));
        assert(with_total(r2, k) == with_total(s, k));
    }
    lemma_same_picks_equal(r1, r2);
}

/// Two ascending sequences with the same entries of every total are equal.
proof fn lemma_same_picks_equal(r1: Seq<(String, u32)>, r2: Seq<(String, u32)>)
    requires
        ascending(r1),
        ascending(r2),
        forall|k: u32| #[trigger] with_total(r1, k) == with_total(r2, k),
    ensures
        r1 == r2,
    decreases r1.len() + r2.len(),
{
    if r1.len() == 0 && r2.len() == 0 {
        assert(r1 =~= r2);
    } else if r1.len() == 0 {
        let k = r2.last().1;
        lemma_with_total_nonempty(r2, k);
        assert(r2[r2.len() - 1].1 == k);
        lemma_with_total_nonempty(r1, k);
        assert(with_total(r1, k) == with_total(r2, k));
    } else if r2.len() == 0 {
        let k = r1.last().1;
        lemma_with_total_nonempty(r1, k);
        assert(r1[r1.len() - 1].1 == k);
        lemma_with_total_nonempty(r2, k);
        assert(with_total(r1, k) == with_total(r2, k));
    } else {
        let m1 = r1.last().1;
        let m2 = r2.last().1;
        assert(r1[r1.len() - 1].1 == m1);
        assert(r2[r2.len() - 1].1 == m2);
        lemma_with_total_nonempty(r1, m2);
        lemma_with_total_nonempty(r2, m2);
        lemma_with_total_nonempty(r1, m1);
        lemma_with_total_nonempty(r2, m1);
        assert(with_total(r1, m1) == with_total(r2, m1));
        assert(with_total(r1, m2) == with_total(r2, m2));
        if m1 < m2 {
            let i = choose|i: int| 0 <= i < r1.len() && (#[trigger] r1[i]).1 == m2;
            assert(r1[i].1 <= r1[r1.len() - 1].1);
        } else if m2 < m1 {
            let i = choose|i: int| 0 <= i < r2.len() && (#[trigger] r2[i]).1 == m1;
            assert(r2[i].1 <= r2[r2.len() - 1].1);
        }
        assert(m1 == m2);
        assert(with_total(r1, m1).last() == r1.last());
        assert(with_total(r2, m1).last() == r2.last());
        let a = r1.drop_last();
        let b = r2.drop_last();
        assert forall|k: u32| #[trigger] with_total(a, k) == with_total(b, k) by {
            assert(with_total(r1, k) == with_total(r2, k));
            if k == m1 {
                assert(with_total(a, k) == with_total(r1, k).drop_last());
                assert(with_total(b, k) == with_total(r2, k).drop_last());
            }
        }
        assert forall|i: int, j: int| 0 <= i <= j < a.len() implies (#[trigger] a[i]).1 <= (#[trigger] a[j]).1 by {
            assert(a[i] == r1[i] && a[j] == r1[j]);
        }
        assert forall|i: int, j: int| 0 <= i <= j < b.len() implies (#[trigger] b[i]).1 <= (#[trigger] b[j]).1 by {
            assert(b[i] == r2[i] && b[j] == r2[j]);
        }
        lemma_same_picks_equal(a, b);
        assert(r1 =~= a.push(r1.last()));
        assert(r2 =~= b.push(r2.last()));
    }
}

/// Sorts the projects by total, lowest first, keeping the order of projects
/// with equal totals.
pub fn rank_projects(scores: Vec<(String, u32)>) -> (r: Vec<(String, u32)>)
    ensures
        r@.len() == scores@.len(),
        stable_sorted_by_total(r@, scores@),
{
    let ghost input = scores@;
    let mut r: Vec<(String, u32)> = Vec::new();
    for x in it: scores
        invariant
            it.seq() == input,
            r@.len() == it.index(),
            ascending(r@),
            forall|k: u32| #[trigger] with_total(r@, k) == with_total(input.take(it.index() as int), k),
    {
        let ghost i = it.index() as int;
        let ghost old_r = r@;
        let n = r.len();
        let mut p: usize = 0;
        while p < n && r[p].1 <= x.1
            invariant
                n == r@.len(),
                r@ == old_r,
                p <= n,
                forall|j: int| 0 <= j < p ==> (#[trigger] r@[j]).1 <= x.1,
            decreases n - p,
        {
            p = p + 1;
        }
        proof {
            assert forall|j: int| p <= j < n implies (#[trigger] old_r[j]).1 > x.1 by {
                assert(old_r[p as int].1 > x.1);
                assert(old_r[p as int].1 <= old_r[j].1);
            }
        }
        r.insert(p, x);
        proof {
            let a = old_r.take(p as int);
            let b = old_r.skip(p as int);
            assert(old_r =~= a + b);
            assert(r@ =~= a + seq![x] + b);
            assert(x == input[i]);
            assert(input.take(i + 1) =~= input.take(i).push(x));
            assert forall|k: u32| #[trigger] with_total(r@, k) == with_total(input.take(i + 1), k) by {
                lemma_with_total_concat(a, b, k);
                lemma_with_total_concat(a + seq![x], b, k);
                lemma_with_total_concat(a, seq![x], k);
                assert(seq![x].drop_last() =~= Seq::<(String, u32)>::empty());
                assert(seq![x].last() == x);
                assert(with_total(Seq::<(String, u32)>::empty(), k) == Seq::<(String, u32)>::empty());
                assert(input.take(i + 1).drop_last() =~= input.take(i));
                assert(input.take(i + 1).last() == x);
                if k == x.1 {
                    assert forall|j: int| 0 <= j < b.len() implies (#[trigger] b[j]).1 != k by {
                        assert(b[j] == old_r[p + j]);
                    }
                    lemma_with_total_none(b, k);
                    assert(with_total(a, k) + with_total(b, k) =~= with_total(a, k));
                    assert(with_total(a, k) + with_total(seq![x], k) =~= with_total(a, k).push(x));
                    assert(with_total(a, k).push(x) + with_total(b, k) =~= with_total(a, k).push(x));
                } else {
                    assert(with_total(a, k) + with_total(seq![x], k) =~= with_total(a, k));
                }
            }
            assert forall|u: int, v: int| 0 <= u <= v < r@.len() implies (#[trigger] r@[u]).1 <= (#[trigger] r@[v]).1 by {
                if u < p && v < p {
                    assert(r@[u] == old_r[u] && r@[v] == old_r[v]);
                } else if u < p && v == p {
                    assert(r@[u] == old_r[u]);
                } else if u < p {
                    assert(r@[u] == old_r[u] && r@[v] == old_r[v - 1]);
                } else if u == p && v > p {
                    assert(r@[v] == old_r[v - 1]);
                } else if u > p {
                    assert(r@[u] == old_r[u - 1] && r@[v] == old_r[v - 1]);
                }
            }
        }
    }
    proof {
        assert(input.take(input.len() as int) =~= input);
    }
    r
}

/// The line printed for the project at position `i` of the ranking.
pub open spec fn rank_line_text(i: nat, name: Seq<char>, total: u32) -> Seq<char> {
    decimal(i + 1) + " **"@ + name + "** ("@ + decimal(total as nat) + ")"@
}

/// A rank line reads back: first a numeral of the rank (counted from 1), then
/// ` **`, the whole project name, `** (`, a numeral of the total, and `)`.
pub proof fn lemma_rank_line_fields(i: nat, name: Seq<char>, total: u32)
    ensures
        ({
            let t = rank_line_text(i, name, total);
            let p = decimal(i + 1).len() as int;
            let q = p + 3 + name.len();
            &&& numeral(t.take(p), (i + 1) as int)
            &&& t.subrange(p, p + 3) == " **"@
            &&& t.subrange(p + 3, q) == name
            &&& t.subrange(q, q + 4) == "** ("@
            &&& numeral(t.subrange(q + 4, t.len() - 1), total as int)
            &&& t.len() == q + 4 + decimal(total as nat).len() + 1
            &&& t.last() == ')'
        }),
{
    reveal_strlit(" **");
    reveal_strlit("** (");
    reveal_strlit(")");
    lemma_decimal_numeral(i + 1);
    lemma_decimal_numeral(total as nat);
    let t = rank_line_text(i, name, total);
    let a = decimal(i + 1);
    let b = decimal(total as nat);
    let p = a.len() as int;
    let q = p + 3 + name.len();
    assert(t == a + " **"@ + name + "** ("@ + b + ")"@);
    assert(t.take(p) =~= a);
    assert(t.subrange(p, p + 3) =~= " **"@);
    assert(t.subrange(p + 3, q) =~= name);
    assert(t.subrange(q, q + 4) =~= "** ("@);
    assert(t.subrange(q + 4, t.len() - 1) =~= b);
}

/// The line printed for the project at position `i` (counted from 0) of the
/// ranking.
pub fn rank_line(i: usize, name: &str, total: u32) -> (r: String)
    requires
        i < usize::MAX,
    ensures
        r@ == rank_line_text(i as nat, name@, total),
{
    let mut r = String::new();
    push_decimal(&mut r, (i + 1) as u64);
    push_str(&mut r, " **");
    push_str(&mut r, name);
    push_str(&mut r, "** (");
    push_decimal(&mut r, total as u64);
    push_str(&mut r, ")");
    r
}

} // verus!
