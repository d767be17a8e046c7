//! Ordering of rows: index sorting by a ranking buffer, and the bounded
//! top-N variant.
//!
//! Rows order by the value order: nulls first, then integers by value,
//! then strings lexicographically.  Ties are broken by the original row
//! index, so the sorted index sequence is unique and both the full sort
//! and the top-N path are pinned to the same specification.

use vstd::prelude::*;

use crate::scratchpad::vals_view;
use crate::val::{RawVal, ValView};

verus! {

/// Strict value order between two ranking entries.
pub open spec fn vlt(a: ValView, b: ValView) -> bool {
    crate::val::val_le(a, b) && a != b
}

/// Row `i`'s key orders strictly before row `j`'s: an in-range row before
/// an out-of-range one, and in-range rows by the value order.
pub open spec fn key_lt(r: Seq<ValView>, i: usize, j: usize) -> bool {
    (i < r.len() && j >= r.len()) || (i < r.len() && j < r.len() && vlt(r[i as int], r[j as int]))
}

/// The keys of rows `i` and `j` are equal.
pub open spec fn key_eq(r: Seq<ValView>, i: usize, j: usize) -> bool {
    (i >= r.len() && j >= r.len()) || (i < r.len() && j < r.len() && r[i as int] == r[j as int])
}

/// Row `i` orders no later than row `j` under the ranking: by the value
/// order, reversed when descending, with ties broken by the row index.
pub open spec fn idx_le(r: Seq<ValView>, desc: bool, i: usize, j: usize) -> bool {
    if key_eq(r, i, j) {
        i <= j
    } else if desc {
        key_lt(r, j, i)
    } else {
        key_lt(r, i, j)
    }
}

/// Inserts row index `j` into the index sequence `s`, before the first
/// entry that `j` orders no later than.
pub open spec fn insert_b(s: Seq<usize>, j: usize, r: Seq<ValView>, desc: bool) -> Seq<usize>
    decreases s.len(),
{
    if s.len() == 0 {
        seq![j]
    } else if idx_le(r, desc, j, s[0]) {
        seq![j] + s
    } else {
        seq![s[0]] + insert_b(s.subrange(1, s.len() as int), j, r, desc)
    }
}

/// The row indices `0 .. n` sorted by the ranking: each index inserted in
/// turn.  Ties keep the lower index first, so the result is the unique
/// stable sort of the rows.
pub open spec fn ssort(n: nat, r: Seq<ValView>, desc: bool) -> Seq<usize>
    decreases n,
{
    if n == 0 {
        Seq::empty()
    } else {
        insert_b(ssort((n - 1) as nat, r, desc), (n - 1) as usize, r, desc)
    }
}

/// Inserting adds one entry.
pub proof fn lemma_insert_b_len(s: Seq<usize>, j: usize, r: Seq<ValView>, desc: bool)
    ensures
        insert_b(s, j, r, desc).len() == s.len() + 1,
    decreases s.len(),
{
    if s.len() > 0 && !idx_le(r, desc, j, s[0]) {
        lemma_insert_b_len(s.subrange(1, s.len() as int), j, r, desc);
    }
}

/// Inserting contributes exactly the entries of `s` and `j`.
pub proof fn lemma_insert_b_contains(s: Seq<usize>, j: usize, r: Seq<ValView>, desc: bool)
    ensures
        forall|x: usize|
            #![trigger insert_b(s, j, r, desc).contains(x)]
            insert_b(s, j, r, desc).contains(x) <==> s.contains(x) || x == j,
    decreases s.len(),
{
    if s.len() == 0 {
        assert forall|x: usize| insert_b(s, j, r, desc).contains(x) implies s.contains(x) || x
            == j by {
            let p = choose|p: int|
                0 <= p < insert_b(s, j, r, desc).len() && insert_b(s, j, r, desc)[p] == x;
        }
        assert(insert_b(s, j, r, desc)[0] == j);
    } else if idx_le(r, desc, j, s[0]) {
        assert forall|x: usize| insert_b(s, j, r, desc).contains(x) implies s.contains(x) || x
            == j by {
            let p = choose|p: int|
                0 <= p < insert_b(s, j, r, desc).len() && insert_b(s, j, r, desc)[p] == x;
            if p > 0 {
                assert(s[p - 1] == x);
            }
        }
        assert forall|x: usize| s.contains(x) || x == j implies insert_b(
            s,
            j,
            r,
            desc,
        ).contains(x) by {
            if x == j {
                assert(insert_b(s, j, r, desc)[0] == x);
            } else {
                let p = choose|p: int| 0 <= p < s.len() && s[p] == x;
                assert(insert_b(s, j, r, desc)[p + 1] == x);
            }
        }
    } else {
        let rest = s.subrange(1, s.len() as int);
        lemma_insert_b_contains(rest, j, r, desc);
        lemma_insert_b_len(rest, j, r, desc);
        let out = insert_b(s, j, r, desc);
        assert(out == seq![s[0]] + insert_b(rest, j, r, desc));
        assert forall|x: usize| out.contains(x) implies s.contains(x) || x == j by {
            let p = choose|p: int| 0 <= p < out.len() && out[p] == x;
            if p == 0 {
                assert(s[0] == x);
            } else {
                assert(insert_b(rest, j, r, desc)[p - 1] == x);
                assert(insert_b(rest, j, r, desc).contains(x));
                if rest.contains(x) {
                    let q = choose|q: int| 0 <= q < rest.len() && rest[q] == x;
                    assert(s[q + 1] == x);
                }
            }
        }
        assert forall|x: usize| s.contains(x) || x == j implies out.contains(x) by {
            if x == j {
                assert(insert_b(rest, j, r, desc).contains(x));
                let q = choose|q: int|
                    0 <= q < insert_b(rest, j, r, desc).len() && insert_b(rest, j, r, desc)[q]
                        == x;
                assert(out[q + 1] == x);
            } else {
                let p = choose|p: int| 0 <= p < s.len() && s[p] == x;
                if p == 0 {
                    assert(out[0] == x);
                } else {
                    assert(rest[p - 1] == x);
                    assert(rest.contains(x));
                    assert(insert_b(rest, j, r, desc).contains(x));
                    let q = choose|q: int|
                        0 <= q < insert_b(rest, j, r, desc).len() && insert_b(rest, j, r, desc)[q]
                            == x;
                    assert(out[q + 1] == x);
                }
            }
        }
    }
}

/// The sorted sequence holds exactly the row indices below `n`.
pub proof fn lemma_ssort_contains(n: nat, r: Seq<ValView>, desc: bool)
    ensures
        ssort(n, r, desc).len() == n,
        forall|x: usize| ssort(n, r, desc).contains(x) <==> x < n,
    decreases n,
{
    if n > 0 {
        let prev = ssort((n - 1) as nat, r, desc);
        lemma_ssort_contains((n - 1) as nat, r, desc);
        lemma_insert_b_len(prev, (n - 1) as usize, r, desc);
        lemma_insert_b_contains(prev, (n - 1) as usize, r, desc);
        assert(ssort(n, r, desc) == insert_b(prev, (n - 1) as usize, r, desc));
        assert forall|x: usize| ssort(n, r, desc).contains(x) <==> x < n by {
            assert(insert_b(prev, (n - 1) as usize, r, desc).contains(x) <==> prev.contains(x)
                || x == (n - 1) as usize);
            assert(prev.contains(x) <==> x < n - 1);
        }
    }
}

/// Every entry of the sorted sequence is a row index below `n`.
pub proof fn lemma_ssort_bounds(n: nat, r: Seq<ValView>, desc: bool)
    ensures
        ssort(n, r, desc).len() == n,
        forall|p: int| 0 <= p < n ==> (#[trigger] ssort(n, r, desc)[p]) < n,
{
    lemma_ssort_contains(n, r, desc);
    assert forall|p: int| 0 <= p < n implies (#[trigger] ssort(n, r, desc)[p]) < n by {
        assert(ssort(n, r, desc).contains(ssort(n, r, desc)[p]));
    }
}

/// Truncating after a bounded insert equals truncating after a full
/// insert: entries past the bound never move into the front.
pub proof fn lemma_insert_take(s: Seq<usize>, j: usize, r: Seq<ValView>, desc: bool, k: int)
    requires
        0 <= k <= s.len(),
    ensures
        insert_b(s.take(k), j, r, desc).take(k) == insert_b(s, j, r, desc).take(k),
    decreases k,
{
    lemma_insert_b_len(s, j, r, desc);
    lemma_insert_b_len(s.take(k), j, r, desc);
    if k == 0 {
        assert(insert_b(s.take(0), j, r, desc).take(0) =~= insert_b(s, j, r, desc).take(0));
    } else if s.len() == 0 {
        assert(s.take(k) =~= s);
    } else {
        assert(s.take(k).len() > 0);
        assert(s.take(k)[0] == s[0]);
        if idx_le(r, desc, j, s[0]) {
            assert(insert_b(s.take(k), j, r, desc) == seq![j] + s.take(k));
            assert(insert_b(s, j, r, desc) == seq![j] + s);
            assert((seq![j] + s.take(k)).take(k) =~= (seq![j] + s).take(k));
        } else {
            let rest = s.subrange(1, s.len() as int);
            let rest_k = s.take(k).subrange(1, k);
            assert(rest_k =~= rest.take(k - 1));
            lemma_insert_take(rest, j, r, desc, k - 1);
            lemma_insert_b_len(rest, j, r, desc);
            lemma_insert_b_len(rest.take(k - 1), j, r, desc);
            assert(insert_b(s.take(k), j, r, desc) == seq![s[0]] + insert_b(
                rest.take(k - 1),
                j,
                r,
                desc,
            ));
            assert(insert_b(s, j, r, desc) == seq![s[0]] + insert_b(rest, j, r, desc));
            assert((seq![s[0]] + insert_b(rest.take(k - 1), j, r, desc)).take(k) =~= seq![s[0]]
                + insert_b(rest.take(k - 1), j, r, desc).take(k - 1));
            assert((seq![s[0]] + insert_b(rest, j, r, desc)).take(k) =~= seq![s[0]] + insert_b(
                rest,
                j,
                r,
                desc,
            ).take(k - 1));
        }
    }
}

/// Whether row `i` orders no later than row `j`.
pub fn idx_le_exec(ranking: &Vec<RawVal>, desc: bool, i: usize, j: usize) -> (res: bool)
    ensures
        res == idx_le(vals_view(ranking@), desc, i, j),
{
    let ghost rv = vals_view(ranking@);
    let n = ranking.len();
    if i < n && j < n {
        proof {
            assert(rv[i as int] == ranking@[i as int]@);
            assert(rv[j as int] == ranking@[j as int]@);
        }
        let eq = ranking[i] == ranking[j];
        if eq {
            i <= j
        } else if desc {
            crate::val::val_le_exec(&ranking[j], &ranking[i])
        } else {
            crate::val::val_le_exec(&ranking[i], &ranking[j])
        }
    } else if i < n {
        !desc
    } else if j < n {
        desc
    } else {
        i <= j
    }
}

/// Inserts row index `j` into the sorted index buffer.
fn insert_exec(s: &Vec<usize>, from: usize, j: usize, ranking: &Vec<RawVal>, desc: bool) -> (res:
    Vec<usize>)
    requires
        from <= s@.len(),
    ensures
        res@ == insert_b(s@.skip(from as int), j, vals_view(ranking@), desc),
    decreases s@.len() - from,
{
    let ghost tail = s@.skip(from as int);
    if from >= s.len() {
        let mut out: Vec<usize> = Vec::new();
        out.push(j);
        proof {
            assert(out@ =~= seq![j]);
        }
        out
    } else if idx_le_exec(ranking, desc, j, s[from]) {
        proof {
            assert(tail[0] == s@[from as int]);
        }
        let mut out: Vec<usize> = Vec::new();
        out.push(j);
        let mut p = from;
        while p < s.len()
            invariant
                from <= p <= s@.len(),
                out@ == seq![j] + s@.subrange(from as int, p as int),
            decreases s@.len() - p,
        {
            out.push(s[p]);
            proof {
                assert(out@ =~= seq![j] + s@.subrange(from as int, p + 1));
            }
            p += 1;
        }
        proof {
            assert(s@.subrange(from as int, s@.len() as int) =~= tail);
        }
        out
    } else {
        proof {
            assert(tail[0] == s@[from as int]);
            assert(tail.subrange(1, tail.len() as int) =~= s@.skip(from + 1));
        }
        let mut rest = insert_exec(s, from + 1, j, ranking, desc);
        let mut out: Vec<usize> = Vec::new();
        out.push(s[from]);
        out.append(&mut rest);
        proof {
            assert(out@ =~= seq![s@[from as int]] + insert_b(
                s@.skip(from + 1),
                j,
                vals_view(ranking@),
                desc,
            ));
        }
        out
    }
}

/// Sorts the row indices `0 .. ranking.len()` by the ranking: ascending by
/// sort key, or descending when `desc`, with ties keeping the lower index
/// first.
pub fn sort_indices(ranking: &Vec<RawVal>, desc: bool) -> (res: Vec<usize>)
    ensures
        res@ == ssort(ranking@.len() as nat, vals_view(ranking@), desc),
{
    let mut out: Vec<usize> = Vec::new();
    let mut i: usize = 0;
    while i < ranking.len()
        invariant
            0 <= i <= ranking@.len(),
            out@ == ssort(i as nat, vals_view(ranking@), desc),
        decreases ranking@.len() - i,
    {
        proof {
            assert(out@.skip(0) =~= out@);
        }
        out = insert_exec(&out, 0, i, ranking, desc);
        i += 1;
    }
    out
}

/// The first `k` entries of the full sort: what both the top-N path and
/// the sort-then-truncate path return.
pub open spec fn top_k(n: nat, r: Seq<ValView>, desc: bool, k: nat) -> Seq<usize> {
    ssort(n, r, desc).take(if n <= k {
        n as int
    } else {
        k as int
    })
}

/// Keeps only the `k` rows that order first, holding at most `k + 1`
/// indices at a time.
pub fn top_n(ranking: &Vec<RawVal>, k: usize, desc: bool) -> (res: Vec<usize>)
    ensures
        res@ == top_k(ranking@.len() as nat, vals_view(ranking@), desc, k as nat),
{
    let ghost r = vals_view(ranking@);
    let mut out: Vec<usize> = Vec::new();
    let mut i: usize = 0;
    while i < ranking.len()
        invariant
            0 <= i <= ranking@.len(),
            r == vals_view(ranking@),
            out@ == top_k(i as nat, r, desc, k as nat),
            out@.len() == (if i <= k {
                i as int
            } else {
                k as int
            }),
        decreases ranking@.len() - i,
    {
        proof {
            lemma_ssort_contains(i as nat, r, desc);
            assert(out@.skip(0) =~= out@);
        }
        out = insert_exec(&out, 0, i, ranking, desc);
        proof {
            let prev = ssort(i as nat, r, desc);
            lemma_insert_b_len(prev, i, r, desc);
            if i < k {
                assert(prev.take(i as int) =~= prev);
                assert(out@ == ssort((i + 1) as nat, r, desc));
                assert(ssort((i + 1) as nat, r, desc).take(i + 1) =~= ssort(
                    (i + 1) as nat,
                    r,
                    desc,
                )) by {
                    lemma_ssort_contains((i + 1) as nat, r, desc);
                }
            } else {
                assert(out@ == insert_b(prev.take(k as int), i, r, desc));
                lemma_insert_take(prev, i, r, desc, k as int);
                lemma_insert_b_len(prev.take(k as int), i, r, desc);
            }
        }
        if out.len() > k {
            let _ = out.pop();
            proof {
                let full = insert_b(ssort(i as nat, r, desc).take(k as int), i, r, desc);
                assert(out@ =~= full.take(k as int));
            }
        }
        proof {
            if i >= k {
                assert(out@ == insert_b(ssort(i as nat, r, desc), i, r, desc).take(k as int));
            }
        }
        i += 1;
    }
    out
}

/// Top-N equivalence: for a single ordering key with limit `k`, the
/// bounded top-N path returns exactly the truncation of the full sort.
pub proof fn lemma_top_n_equals_sort_truncate(
    n: nat,
    r: Seq<ValView>,
    desc: bool,
    k: nat,
    full: Seq<usize>,
    top: Seq<usize>,
)
    requires
        full == ssort(n, r, desc),
        top == top_k(n, r, desc, k),
    ensures
        top == full.take(if n <= k {
            n as int
        } else {
            k as int
        }),
{
}

} // verus!
