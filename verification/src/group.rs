//! Grouping and aggregation: folding rows into an association list from
//! grouping key to accumulator values, in first-occurrence order.
//!
//! `Count` counts non-null inputs, `SumI64` accumulates a wrapping sum, and
//! `MinI64` / `MaxI64` keep the extremum, ignoring nulls.  The float-space
//! aggregators are outside the verified surface and are rejected.

use vstd::prelude::*;

use crate::error::QueryError;
use crate::expr::Aggregator;
use crate::scratchpad::vals_view;
use crate::type_conversion::clone_vals;
use crate::val::{RawVal, ValView};

verus! {

/// The accumulator an aggregator starts from: zero for counting and
/// summing, null (no value seen) for the extrema.
pub open spec fn agg_init(a: Aggregator) -> ValView {
    match a {
        Aggregator::Count => ValView::Int(0),
        Aggregator::SumI64 => ValView::Int(0),
        _ => ValView::Null,
    }
}

/// One aggregation step: the accumulator after seeing input `x`.
/// A null input leaves every accumulator unchanged except `Count`, which
/// counts non-null rows; a non-integer input or a float-space aggregator is
/// an error.
pub open spec fn agg_step(a: Aggregator, acc: ValView, x: ValView) -> Option<ValView> {
    match a {
        Aggregator::Count => match acc {
            ValView::Int(c) => if x is Null {
                Some(ValView::Int(c))
            } else {
                Some(ValView::Int(c.wrapping_add(1)))
            },
            _ => None,
        },
        Aggregator::SumI64 => match x {
            ValView::Null => Some(acc),
            ValView::Int(v) => match acc {
                ValView::Int(s) => Some(ValView::Int(s.wrapping_add(v))),
                _ => None,
            },
            _ => None,
        },
        Aggregator::MinI64 => match x {
            ValView::Null => Some(acc),
            ValView::Int(v) => match acc {
                ValView::Null => Some(ValView::Int(v)),
                ValView::Int(m) => Some(ValView::Int(if v < m {
                    v
                } else {
                    m
                })),
                _ => None,
            },
            _ => None,
        },
        Aggregator::MaxI64 => match x {
            ValView::Null => Some(acc),
            ValView::Int(v) => match acc {
                ValView::Null => Some(ValView::Int(v)),
                ValView::Int(m) => Some(ValView::Int(if v > m {
                    v
                } else {
                    m
                })),
                _ => None,
            },
            _ => None,
        },
        _ => None,
    }
}

/// Steps every accumulator of a group by the row's inputs.
pub open spec fn accs_step(aggs: Seq<Aggregator>, accs: Seq<ValView>, xs: Seq<ValView>) -> Option<
    Seq<ValView>,
>
    decreases aggs.len(),
{
    if accs.len() != aggs.len() || xs.len() != aggs.len() {
        None
    } else if aggs.len() == 0 {
        Some(Seq::empty())
    } else {
        match agg_step(aggs[0], accs[0], xs[0]) {
            None => None,
            Some(v) => match accs_step(
                aggs.subrange(1, aggs.len() as int),
                accs.subrange(1, accs.len() as int),
                xs.subrange(1, xs.len() as int),
            ) {
                None => None,
                Some(t) => Some(seq![v] + t),
            },
        }
    }
}

/// The initial accumulators of a fresh group.
pub open spec fn accs_init(aggs: Seq<Aggregator>) -> Seq<ValView> {
    aggs.map_values(|a: Aggregator| agg_init(a))
}

/// The index of the first group with this key.
pub open spec fn assoc_find(out: Seq<(Seq<ValView>, Seq<ValView>)>, key: Seq<ValView>) -> Option<
    int,
>
    decreases out.len(),
{
    if out.len() == 0 {
        None
    } else if out[0].0 == key {
        Some(0)
    } else {
        match assoc_find(out.subrange(1, out.len() as int), key) {
            None => None,
            Some(i) => Some(i + 1),
        }
    }
}

/// Folds one row into the groups: steps the row's group if present, or
/// appends a fresh group.
pub open spec fn grp_step(
    out: Seq<(Seq<ValView>, Seq<ValView>)>,
    aggs: Seq<Aggregator>,
    key: Seq<ValView>,
    xs: Seq<ValView>,
) -> Option<Seq<(Seq<ValView>, Seq<ValView>)>> {
    match assoc_find(out, key) {
        None => match accs_step(aggs, accs_init(aggs), xs) {
            None => None,
            Some(accs) => Some(out.push((key, accs))),
        },
        Some(i) => match accs_step(aggs, out[i].1, xs) {
            None => None,
            Some(accs) => Some(out.update(i, (key, accs))),
        },
    }
}

/// The inputs of row `i`: one value per aggregator.
pub open spec fn row_inputs(cols: Seq<Seq<ValView>>, i: int) -> Seq<ValView> {
    Seq::new(cols.len(), |a: int| cols[a][i])
}

/// Folds rows `i ..` into the groups `acc`.
pub open spec fn grp_from(
    keys: Seq<Seq<ValView>>,
    cols: Seq<Seq<ValView>>,
    aggs: Seq<Aggregator>,
    i: int,
    acc: Seq<(Seq<ValView>, Seq<ValView>)>,
) -> Option<Seq<(Seq<ValView>, Seq<ValView>)>>
    decreases keys.len() - i,
{
    if i < 0 || i >= keys.len() {
        Some(acc)
    } else {
        match grp_step(acc, aggs, keys[i], row_inputs(cols, i)) {
            None => None,
            Some(acc2) => grp_from(keys, cols, aggs, i + 1, acc2),
        }
    }
}

/// The groups of the rows: keys in first-occurrence order, each with its
/// accumulators.
pub open spec fn grp(
    keys: Seq<Seq<ValView>>,
    cols: Seq<Seq<ValView>>,
    aggs: Seq<Aggregator>,
) -> Option<Seq<(Seq<ValView>, Seq<ValView>)>> {
    grp_from(keys, cols, aggs, 0, Seq::empty())
}

/// Group-by determinism, at the accumulator: feeding two inputs to one
/// accumulator in either order gives the same accumulator, so each group's
/// result does not depend on the order its rows arrive in.
pub proof fn lemma_agg_step_swap(a: Aggregator, acc: ValView, x: ValView, y: ValView)
    ensures
        match (agg_step(a, acc, x), agg_step(a, acc, y)) {
            (Some(ax), Some(ay)) => agg_step(a, ax, y) == agg_step(a, ay, x),
            _ => true,
        },
{
    match (agg_step(a, acc, x), agg_step(a, acc, y)) {
        (Some(ax), Some(ay)) => {
            match a {
                Aggregator::Count => {
                    let c = acc->Int_0;
                    lemma_wrapping_add_assoc_comm(c, if x is Null { 0 } else { 1 }, if y is Null { 0 } else { 1 });
                },
                Aggregator::SumI64 => {
                    if x is Int && y is Int {
                        lemma_wrapping_add_assoc_comm(acc->Int_0, x->Int_0, y->Int_0);
                    }
                },
                _ => {},
            }
        },
        _ => {},
    }
}

/// Adding two values to a wrapping sum gives the same total in either
/// order.
pub proof fn lemma_wrapping_add_assoc_comm(c: i64, x: i64, y: i64)
    ensures
        c.wrapping_add(x).wrapping_add(y) == c.wrapping_add(y).wrapping_add(x),
{
    let l = c.wrapping_add(x).wrapping_add(y) as int;
    let r = c.wrapping_add(y).wrapping_add(x) as int;
    let m = 0x1_0000_0000_0000_0000int;
    let s = c as int + x as int + y as int;
    assert((l - s) % m == 0 && (r - s) % m == 0) by {
        assert(c.wrapping_add(x) as int - (c as int + x as int) == 0
            || c.wrapping_add(x) as int - (c as int + x as int) == m
            || c.wrapping_add(x) as int - (c as int + x as int) == -m);
        assert(c.wrapping_add(y) as int - (c as int + y as int) == 0
            || c.wrapping_add(y) as int - (c as int + y as int) == m
            || c.wrapping_add(y) as int - (c as int + y as int) == -m);
    }
    assert((l - r) % m == 0);
    assert(-m < l - r < m);
    assert(l == r) by {
        if l != r {
            assert((l - r) % m != 0) by (nonlinear_arith)
                requires
                    -m < l - r < m,
                    l - r != 0,
                    m > 0,
            ;
        }
    }
}

/// The accumulator values an aggregator can hold: counters and sums are
/// integers; extrema are integers or still unset; the float aggregators
/// never step, so any value is as good as another.
pub open spec fn acc_wt(a: Aggregator, v: ValView) -> bool {
    match a {
        Aggregator::Count => v is Int,
        Aggregator::SumI64 => v is Int,
        Aggregator::MinI64 => v is Int || v is Null,
        Aggregator::MaxI64 => v is Int || v is Null,
        _ => true,
    }
}

/// Every accumulator of a group holds a value its aggregator can hold.
pub open spec fn accs_wt(aggs: Seq<Aggregator>, accs: Seq<ValView>) -> bool {
    &&& accs.len() == aggs.len()
    &&& forall|p: int| 0 <= p < aggs.len() ==> acc_wt(#[trigger] aggs[p], accs[p])
}

/// A step keeps the accumulator holdable.
proof fn lemma_agg_step_wt(a: Aggregator, acc: ValView, x: ValView)
    requires
        acc_wt(a, acc),
    ensures
        agg_step(a, acc, x) matches Some(v) ==> acc_wt(a, v),
{
}

/// Whether a step succeeds depends only on the aggregator and the input,
/// never on which holdable value the accumulator has.
proof fn lemma_agg_step_err_indep(a: Aggregator, acc1: ValView, acc2: ValView, x: ValView)
    requires
        acc_wt(a, acc1),
        acc_wt(a, acc2),
    ensures
        agg_step(a, acc1, x) is Some <==> agg_step(a, acc2, x) is Some,
{
}

/// A full step keeps every accumulator holdable.
proof fn lemma_accs_step_wt(aggs: Seq<Aggregator>, accs: Seq<ValView>, xs: Seq<ValView>)
    requires
        accs_wt(aggs, accs),
    ensures
        accs_step(aggs, accs, xs) matches Some(t) ==> accs_wt(aggs, t),
{
    if accs.len() == aggs.len() && xs.len() == aggs.len() {
        lemma_accs_step_pointwise(aggs, accs, xs);
        match accs_step(aggs, accs, xs) {
            None => {},
            Some(t) => {
                assert forall|p: int| 0 <= p < aggs.len() implies acc_wt(
                    #[trigger] aggs[p],
                    t[p],
                ) by {
                    lemma_agg_step_wt(aggs[p], accs[p], xs[p]);
                    assert(Some(t[p]) == agg_step(aggs[p], accs[p], xs[p]));
                }
            },
        }
    }
}

/// Whether a full step succeeds depends only on the aggregators and the
/// inputs, never on which holdable values the accumulators have.
proof fn lemma_accs_step_err_indep(
    aggs: Seq<Aggregator>,
    accs1: Seq<ValView>,
    accs2: Seq<ValView>,
    xs: Seq<ValView>,
)
    requires
        accs_wt(aggs, accs1),
        accs_wt(aggs, accs2),
    ensures
        accs_step(aggs, accs1, xs) is Some <==> accs_step(aggs, accs2, xs) is Some,
{
    if xs.len() == aggs.len() {
        lemma_accs_step_pointwise(aggs, accs1, xs);
        lemma_accs_step_pointwise(aggs, accs2, xs);
        if accs_step(aggs, accs1, xs) is Some {
            assert forall|p: int| 0 <= p < aggs.len() implies agg_step(
                #[trigger] aggs[p],
                accs2[p],
                xs[p],
            ) is Some by {
                lemma_agg_step_err_indep(aggs[p], accs1[p], accs2[p], xs[p]);
            }
        }
        if accs_step(aggs, accs2, xs) is Some {
            assert forall|p: int| 0 <= p < aggs.len() implies agg_step(
                #[trigger] aggs[p],
                accs1[p],
                xs[p],
            ) is Some by {
                lemma_agg_step_err_indep(aggs[p], accs1[p], accs2[p], xs[p]);
            }
        }
    }
}

/// Group-by determinism, for a whole group: feeding two rows' inputs to a
/// group's accumulators in either order gives the same accumulators.
pub proof fn lemma_accs_step_swap(
    aggs: Seq<Aggregator>,
    accs: Seq<ValView>,
    xs: Seq<ValView>,
    ys: Seq<ValView>,
)
    ensures
        match (accs_step(aggs, accs, xs), accs_step(aggs, accs, ys)) {
            (Some(ax), Some(ay)) => accs_step(aggs, ax, ys) == accs_step(aggs, ay, xs),
            _ => true,
        },
{
    match (accs_step(aggs, accs, xs), accs_step(aggs, accs, ys)) {
        (Some(ax), Some(ay)) => {
            lemma_accs_step_pointwise(aggs, accs, xs);
            lemma_accs_step_pointwise(aggs, accs, ys);
            lemma_accs_step_pointwise(aggs, ax, ys);
            lemma_accs_step_pointwise(aggs, ay, xs);
            assert forall|p: int| 0 <= p < aggs.len() implies agg_step(
                #[trigger] aggs[p],
                ax[p],
                ys[p],
            ) == agg_step(aggs[p], ay[p], xs[p]) by {
                lemma_agg_step_swap(aggs[p], accs[p], xs[p], ys[p]);
                assert(Some(ax[p]) == agg_step(aggs[p], accs[p], xs[p]));
                assert(Some(ay[p]) == agg_step(aggs[p], accs[p], ys[p]));
            }
            match (accs_step(aggs, ax, ys), accs_step(aggs, ay, xs)) {
                (Some(u), Some(v)) => {
                    assert(u =~= v) by {
                        assert forall|p: int| 0 <= p < aggs.len() implies u[p] == v[p] by {
                            assert(Some(u[p]) == agg_step(aggs[p], ax[p], ys[p]));
                            assert(Some(v[p]) == agg_step(aggs[p], ay[p], xs[p]));
                        }
                    }
                },
                (Some(u), None) => {
                    let q = choose|q: int|
                        0 <= q < aggs.len() && !(agg_step(#[trigger] aggs[q], ay[q], xs[q])
                            is Some);
                    assert(agg_step(aggs[q], ax[q], ys[q]) is Some);
                },
                (None, Some(v)) => {
                    let q = choose|q: int|
                        0 <= q < aggs.len() && !(agg_step(#[trigger] aggs[q], ax[q], ys[q])
                            is Some);
                    assert(agg_step(aggs[q], ay[q], xs[q]) is Some);
                },
                (None, None) => {},
            }
        },
        _ => {},
    }
}

/// One per-key fold step: starts the group on its first row, then steps
/// its accumulators.  The outer option reports an aggregation error.
pub open spec fn kstep(aggs: Seq<Aggregator>, cur: Option<Seq<ValView>>, xs: Seq<ValView>) -> Option<
    Option<Seq<ValView>>,
> {
    let acc0 = match cur {
        None => accs_init(aggs),
        Some(a) => a,
    };
    match accs_step(aggs, acc0, xs) {
        None => None,
        Some(a2) => Some(Some(a2)),
    }
}

/// A group not yet started, or one with holdable accumulators.
pub open spec fn cur_wt(aggs: Seq<Aggregator>, cur: Option<Seq<ValView>>) -> bool {
    match cur {
        None => true,
        Some(a) => accs_wt(aggs, a),
    }
}

/// The initial accumulators are holdable.
proof fn lemma_accs_init_wt(aggs: Seq<Aggregator>)
    ensures
        accs_wt(aggs, accs_init(aggs)),
{
}

/// A per-key step keeps the group holdable.
proof fn lemma_kstep_wt(aggs: Seq<Aggregator>, cur: Option<Seq<ValView>>, xs: Seq<ValView>)
    requires
        cur_wt(aggs, cur),
    ensures
        kstep(aggs, cur, xs) matches Some(c2) ==> cur_wt(aggs, c2),
{
    lemma_accs_init_wt(aggs);
    match cur {
        None => {
            lemma_accs_step_wt(aggs, accs_init(aggs), xs);
        },
        Some(a) => {
            lemma_accs_step_wt(aggs, a, xs);
        },
    }
}

/// A per-key step applied to an earlier outcome.
pub open spec fn kstep_opt(
    aggs: Seq<Aggregator>,
    c: Option<Option<Seq<ValView>>>,
    xs: Seq<ValView>,
) -> Option<Option<Seq<ValView>>> {
    match c {
        None => None,
        Some(cur) => kstep(aggs, cur, xs),
    }
}

/// Two per-key steps land on the same group in either order.
proof fn lemma_kstep_comm(
    aggs: Seq<Aggregator>,
    cur: Option<Seq<ValView>>,
    xs: Seq<ValView>,
    ys: Seq<ValView>,
)
    requires
        cur_wt(aggs, cur),
    ensures
        kstep_opt(aggs, kstep(aggs, cur, xs), ys) == kstep_opt(aggs, kstep(aggs, cur, ys), xs),
{
    lemma_accs_init_wt(aggs);
    let acc0 = match cur {
        None => accs_init(aggs),
        Some(a) => a,
    };
    lemma_accs_step_swap(aggs, acc0, xs, ys);
    lemma_accs_step_wt(aggs, acc0, xs);
    lemma_accs_step_wt(aggs, acc0, ys);
    match (accs_step(aggs, acc0, xs), accs_step(aggs, acc0, ys)) {
        (Some(ax), Some(ay)) => {},
        (Some(ax), None) => {
            lemma_accs_step_err_indep(aggs, acc0, ax, ys);
        },
        (None, Some(ay)) => {
            lemma_accs_step_err_indep(aggs, acc0, ay, xs);
        },
        (None, None) => {},
    }
}

/// Whether a per-key step succeeds depends only on the aggregators and
/// the inputs.
proof fn lemma_kstep_err_indep(
    aggs: Seq<Aggregator>,
    cur1: Option<Seq<ValView>>,
    cur2: Option<Seq<ValView>>,
    xs: Seq<ValView>,
)
    requires
        cur_wt(aggs, cur1),
        cur_wt(aggs, cur2),
    ensures
        kstep(aggs, cur1, xs) is Some <==> kstep(aggs, cur2, xs) is Some,
{
    lemma_accs_init_wt(aggs);
    let a1 = match cur1 {
        None => accs_init(aggs),
        Some(a) => a,
    };
    let a2 = match cur2 {
        None => accs_init(aggs),
        Some(a) => a,
    };
    lemma_accs_step_err_indep(aggs, a1, a2, xs);
}

/// The per-key fold keeps the group holdable.
proof fn lemma_kfold_wt(
    keys: Seq<Seq<ValView>>,
    cols: Seq<Seq<ValView>>,
    aggs: Seq<Aggregator>,
    i: int,
    key: Seq<ValView>,
    cur: Option<Seq<ValView>>,
)
    requires
        cur_wt(aggs, cur),
    ensures
        kfold(keys, cols, aggs, i, key, cur) matches Some(m) ==> cur_wt(aggs, m),
    decreases keys.len() - i,
{
    if 0 <= i < keys.len() {
        if keys[i] == key {
            lemma_kstep_wt(aggs, cur, row_inputs(cols, i));
            match kstep(aggs, cur, row_inputs(cols, i)) {
                None => {},
                Some(c2) => {
                    lemma_kfold_wt(keys, cols, aggs, i + 1, key, c2);
                },
            }
        } else {
            lemma_kfold_wt(keys, cols, aggs, i + 1, key, cur);
        }
    }
}

/// A per-key step slides through a whole per-key fold: stepping after the
/// fold equals folding after the step.
proof fn lemma_kstep_thru_kfold(
    keys: Seq<Seq<ValView>>,
    cols: Seq<Seq<ValView>>,
    aggs: Seq<Aggregator>,
    i: int,
    key: Seq<ValView>,
    cur: Option<Seq<ValView>>,
    xs: Seq<ValView>,
)
    requires
        cur_wt(aggs, cur),
    ensures
        kstep_opt(aggs, kfold(keys, cols, aggs, i, key, cur), xs) == (match kstep(aggs, cur, xs) {
            None => None,
            Some(c2) => kfold(keys, cols, aggs, i, key, c2),
        }),
    decreases keys.len() - i,
{
    if 0 <= i < keys.len() {
        if keys[i] == key {
            let ri = row_inputs(cols, i);
            lemma_kstep_comm(aggs, cur, ri, xs);
            lemma_kstep_wt(aggs, cur, ri);
            lemma_kstep_wt(aggs, cur, xs);
            match kstep(aggs, cur, ri) {
                None => {},
                Some(c1) => {
                    lemma_kstep_thru_kfold(keys, cols, aggs, i + 1, key, c1, xs);
                },
            }
        } else {
            lemma_kstep_thru_kfold(keys, cols, aggs, i + 1, key, cur, xs);
        }
    }
}

/// A per-key fold applied to an earlier outcome.
pub open spec fn kfold_opt(
    keys: Seq<Seq<ValView>>,
    cols: Seq<Seq<ValView>>,
    aggs: Seq<Aggregator>,
    key: Seq<ValView>,
    c: Option<Option<Seq<ValView>>>,
) -> Option<Option<Seq<ValView>>> {
    match c {
        None => None,
        Some(cur) => kfold(keys, cols, aggs, 0, key, cur),
    }
}

/// One row block slides through another: folding block one and then block
/// two equals folding block two and then block one.
proof fn lemma_kfold_commute_from(
    k1: Seq<Seq<ValView>>,
    c1: Seq<Seq<ValView>>,
    k2: Seq<Seq<ValView>>,
    c2: Seq<Seq<ValView>>,
    aggs: Seq<Aggregator>,
    key: Seq<ValView>,
    i1: int,
    cur: Option<Seq<ValView>>,
)
    requires
        cur_wt(aggs, cur),
    ensures
        kfold_opt(k2, c2, aggs, key, kfold(k1, c1, aggs, i1, key, cur)) == (match kfold(
            k2,
            c2,
            aggs,
            0,
            key,
            cur,
        ) {
            None => None,
            Some(m) => kfold(k1, c1, aggs, i1, key, m),
        }),
    decreases k1.len() - i1,
{
    lemma_kfold_wt(k2, c2, aggs, 0, key, cur);
    if 0 <= i1 < k1.len() {
        if k1[i1] == key {
            let xs = row_inputs(c1, i1);
            lemma_kstep_wt(aggs, cur, xs);
            lemma_kstep_thru_kfold(k2, c2, aggs, 0, key, cur, xs);
            match kstep(aggs, cur, xs) {
                None => {
                    match kfold(k2, c2, aggs, 0, key, cur) {
                        None => {},
                        Some(m) => {
                            lemma_kstep_err_indep(aggs, cur, m, xs);
                        },
                    }
                },
                Some(d) => {
                    lemma_kfold_commute_from(k1, c1, k2, c2, aggs, key, i1 + 1, d);
                },
            }
        } else {
            lemma_kfold_commute_from(k1, c1, k2, c2, aggs, key, i1 + 1, cur);
        }
    }
}

/// Group-by determinism across partitions: per key, folding one
/// partition's rows and then the other's gives exactly the same group as
/// folding them in the opposite order.  With [`lemma_grp_per_key`] — each
/// group of [`grp`] is exactly the per-key fold of its own rows — two
/// runs that split the same rows into partitions in a different order
/// agree on every group's key and accumulators; only the first-occurrence
/// order of the group list can differ.
pub proof fn lemma_kfold_partition_order(
    k1: Seq<Seq<ValView>>,
    c1: Seq<Seq<ValView>>,
    k2: Seq<Seq<ValView>>,
    c2: Seq<Seq<ValView>>,
    aggs: Seq<Aggregator>,
    key: Seq<ValView>,
)
    ensures
        kfold_opt(k2, c2, aggs, key, kfold(k1, c1, aggs, 0, key, None)) == kfold_opt(
            k1,
            c1,
            aggs,
            key,
            kfold(k2, c2, aggs, 0, key, None),
        ),
{
    lemma_kfold_commute_from(k1, c1, k2, c2, aggs, key, 0, None);
}

/// Folding a concatenation of row blocks folds the blocks in turn: the
/// groups of several partitions can be merged one partition at a time.
pub proof fn lemma_grp_from_split(
    keys: Seq<Seq<ValView>>,
    cols: Seq<Seq<ValView>>,
    aggs: Seq<Aggregator>,
    i: int,
    j: int,
    acc: Seq<(Seq<ValView>, Seq<ValView>)>,
)
    requires
        0 <= i <= j <= keys.len(),
    ensures
        grp_from(keys, cols, aggs, i, acc) == match grp_from_upto(keys, cols, aggs, i, j, acc) {
            None => None,
            Some(mid) => grp_from(keys, cols, aggs, j, mid),
        },
    decreases j - i,
{
    if i < j {
        match grp_step(acc, aggs, keys[i], row_inputs(cols, i)) {
            None => {},
            Some(acc2) => {
                lemma_grp_from_split(keys, cols, aggs, i + 1, j, acc2);
            },
        }
    }
}

/// Folds rows `i .. j` into the groups `acc`.
pub open spec fn grp_from_upto(
    keys: Seq<Seq<ValView>>,
    cols: Seq<Seq<ValView>>,
    aggs: Seq<Aggregator>,
    i: int,
    j: int,
    acc: Seq<(Seq<ValView>, Seq<ValView>)>,
) -> Option<Seq<(Seq<ValView>, Seq<ValView>)>>
    decreases j - i,
{
    if i < 0 || i >= j || j > keys.len() {
        Some(acc)
    } else {
        match grp_step(acc, aggs, keys[i], row_inputs(cols, i)) {
            None => None,
            Some(acc2) => grp_from_upto(keys, cols, aggs, i + 1, j, acc2),
        }
    }
}

/// The accumulators of the first group with this key, if any.
pub open spec fn alookup(out: Seq<(Seq<ValView>, Seq<ValView>)>, key: Seq<ValView>) -> Option<
    Seq<ValView>,
> {
    match assoc_find(out, key) {
        None => None,
        Some(i) => Some(out[i].1),
    }
}

/// The fold of exactly the rows `i ..` whose grouping key is `key`,
/// starting from `cur` (`None` starts the key's group fresh).  The outer
/// option reports an aggregation error.
pub open spec fn kfold(
    keys: Seq<Seq<ValView>>,
    cols: Seq<Seq<ValView>>,
    aggs: Seq<Aggregator>,
    i: int,
    key: Seq<ValView>,
    cur: Option<Seq<ValView>>,
) -> Option<Option<Seq<ValView>>>
    decreases keys.len() - i,
{
    if i < 0 || i >= keys.len() {
        Some(cur)
    } else if keys[i] == key {
        let acc0 = match cur {
            None => accs_init(aggs),
            Some(a) => a,
        };
        match accs_step(aggs, acc0, row_inputs(cols, i)) {
            None => None,
            Some(a2) => kfold(keys, cols, aggs, i + 1, key, Some(a2)),
        }
    } else {
        kfold(keys, cols, aggs, i + 1, key, cur)
    }
}

/// Finding a key depends only on the keys held, not on the accumulators.
proof fn lemma_afind_keys_equal(
    a: Seq<(Seq<ValView>, Seq<ValView>)>,
    b: Seq<(Seq<ValView>, Seq<ValView>)>,
    key: Seq<ValView>,
)
    requires
        a.len() == b.len(),
        forall|x: int| 0 <= x < a.len() ==> (#[trigger] a[x]).0 == b[x].0,
    ensures
        assoc_find(a, key) == assoc_find(b, key),
    decreases a.len(),
{
    if a.len() > 0 && a[0].0 != key {
        let ar = a.subrange(1, a.len() as int);
        let br = b.subrange(1, b.len() as int);
        assert forall|x: int| 0 <= x < ar.len() implies (#[trigger] ar[x]).0 == br[x].0 by {
            assert(a[x + 1].0 == b[x + 1].0);
        }
        lemma_afind_keys_equal(ar, br, key);
    }
}

/// Appending a fresh group places the key at the end.
proof fn lemma_afind_push_absent(
    out: Seq<(Seq<ValView>, Seq<ValView>)>,
    e: (Seq<ValView>, Seq<ValView>),
    key: Seq<ValView>,
)
    requires
        assoc_find(out, key) is None,
    ensures
        e.0 == key ==> assoc_find(out.push(e), key) == Some(out.len() as int),
        e.0 != key ==> assoc_find(out.push(e), key) is None,
    decreases out.len(),
{
    if out.len() == 0 {
        assert(out.push(e).subrange(1, 1) =~= Seq::<(Seq<ValView>, Seq<ValView>)>::empty());
        assert(assoc_find(Seq::<(Seq<ValView>, Seq<ValView>)>::empty(), key) is None);
        assert(assoc_find(out.push(e).subrange(1, 1), key) is None);
    } else {
        assert(out[0].0 != key);
        assert(out.push(e)[0] == out[0]);
        assert(out.push(e).subrange(1, out.len() as int + 1) =~= out.subrange(
            1,
            out.len() as int,
        ).push(e));
        assert(assoc_find(out.subrange(1, out.len() as int), key) is None);
        lemma_afind_push_absent(out.subrange(1, out.len() as int), e, key);
    }
}

/// Every group of the fold keeps its key distinct from the others.
pub proof fn lemma_grp_from_distinct(
    keys: Seq<Seq<ValView>>,
    cols: Seq<Seq<ValView>>,
    aggs: Seq<Aggregator>,
    i: int,
    acc: Seq<(Seq<ValView>, Seq<ValView>)>,
)
    requires
        forall|x: int, y: int| 0 <= x < y < acc.len() ==> (#[trigger] acc[x]).0 != (
        #[trigger] acc[y]).0,
    ensures
        grp_from(keys, cols, aggs, i, acc) matches Some(out) ==> forall|x: int, y: int|
            0 <= x < y < out.len() ==> (#[trigger] out[x]).0 != (#[trigger] out[y]).0,
    decreases keys.len() - i,
{
    if 0 <= i < keys.len() {
        match grp_step(acc, aggs, keys[i], row_inputs(cols, i)) {
            None => {},
            Some(acc2) => {
                match assoc_find(acc, keys[i]) {
                    None => {
                        assert forall|x: int, y: int|
                            0 <= x < y < acc2.len() implies (#[trigger] acc2[x]).0 != (
                        #[trigger] acc2[y]).0 by {
                            if y == acc2.len() - 1 {
                                if acc[x].0 == keys[i] {
                                    lemma_afind_present(acc, keys[i], x);
                                }
                            }
                        }
                    },
                    Some(g) => {
                        lemma_assoc_find_key(acc, keys[i]);
                        assert forall|x: int, y: int|
                            0 <= x < y < acc2.len() implies (#[trigger] acc2[x]).0 != (
                        #[trigger] acc2[y]).0 by {
                            assert(acc2[x].0 == acc[x].0);
                            assert(acc2[y].0 == acc[y].0);
                        }
                    },
                }
                lemma_grp_from_distinct(keys, cols, aggs, i + 1, acc2);
            },
        }
    }
}

/// A held key is found.
proof fn lemma_afind_present(out: Seq<(Seq<ValView>, Seq<ValView>)>, key: Seq<ValView>, x: int)
    requires
        0 <= x < out.len(),
        out[x].0 == key,
    ensures
        assoc_find(out, key) is Some,
    decreases x,
{
    if out.len() > 0 && out[0].0 != key {
        assert(out.subrange(1, out.len() as int)[x - 1].0 == key);
        lemma_afind_present(out.subrange(1, out.len() as int), key, x - 1);
    }
}

/// Group-by determinism, per key: each group of the fold is exactly the
/// fold of its own rows, in row order, regardless of how the other keys'
/// rows interleave with them.  Together with [`lemma_agg_step_swap`] —
/// one group's accumulator takes its inputs in either order — this is why
/// two runs that split the same rows into partitions differently agree on
/// every group.
pub proof fn lemma_grp_per_key(
    keys: Seq<Seq<ValView>>,
    cols: Seq<Seq<ValView>>,
    aggs: Seq<Aggregator>,
    i: int,
    acc: Seq<(Seq<ValView>, Seq<ValView>)>,
    key: Seq<ValView>,
)
    ensures
        grp_from(keys, cols, aggs, i, acc) matches Some(out) ==> kfold(
            keys,
            cols,
            aggs,
            i,
            key,
            alookup(acc, key),
        ) == Some(alookup(out, key)),
    decreases keys.len() - i,
{
    if 0 <= i < keys.len() {
        let xs = row_inputs(cols, i);
        match grp_step(acc, aggs, keys[i], xs) {
            None => {},
            Some(acc2) => {
                lemma_grp_per_key(keys, cols, aggs, i + 1, acc2, key);
                match assoc_find(acc, keys[i]) {
                    None => {
                        let stepped = accs_step(aggs, accs_init(aggs), xs)->Some_0;
                        let e = (keys[i], stepped);
                        if keys[i] == key {
                            lemma_afind_push_absent(acc, e, key);
                            assert(alookup(acc, key) is None);
                            assert(alookup(acc2, key) == Some(stepped));
                        } else {
                            match assoc_find(acc, key) {
                                Some(h) => {
                                    lemma_assoc_find_key(acc, key);
                                    assert(acc.push(e)[h] == acc[h]);
                                    lemma_afind_prefix_stable(acc, e, key, h);
                                },
                                None => {
                                    lemma_afind_push_absent(acc, e, key);
                                },
                            }
                            assert(alookup(acc2, key) == alookup(acc, key));
                        }
                    },
                    Some(g) => {
                        lemma_assoc_find_key(acc, keys[i]);
                        let stepped = accs_step(aggs, acc[g].1, xs)->Some_0;
                        assert forall|x: int| 0 <= x < acc2.len() implies (#[trigger] acc2[x]).0
                            == acc[x].0 by {}
                        lemma_afind_keys_equal(acc2, acc, key);
                        if keys[i] == key {
                            assert(assoc_find(acc2, key) == Some(g));
                            assert(alookup(acc2, key) == Some(stepped));
                            assert(alookup(acc, key) == Some(acc[g].1));
                        } else {
                            match assoc_find(acc, key) {
                                None => {},
                                Some(h) => {
                                    lemma_assoc_find_key(acc, key);
                                    assert(acc[h].0 == key);
                                    assert(h != g);
                                    assert(acc2[h] == acc[h]);
                                },
                            }
                        }
                    },
                }
            },
        }
    }
}

/// A key found before an unrelated append is found at the same place.
proof fn lemma_afind_prefix_stable(
    out: Seq<(Seq<ValView>, Seq<ValView>)>,
    e: (Seq<ValView>, Seq<ValView>),
    key: Seq<ValView>,
    h: int,
)
    requires
        assoc_find(out, key) == Some(h),
    ensures
        assoc_find(out.push(e), key) == Some(h),
    decreases out.len(),
{
    if out.len() > 0 {
        assert(out.push(e)[0] == out[0]);
        if out[0].0 != key {
            assert(out.push(e).subrange(1, out.len() as int + 1) =~= out.subrange(
                1,
                out.len() as int,
            ).push(e));
            lemma_afind_prefix_stable(out.subrange(1, out.len() as int), e, key, h - 1);
        }
    }
}

/// A stepped accumulator list has one entry per aggregator.
pub proof fn lemma_accs_step_len(aggs: Seq<Aggregator>, accs: Seq<ValView>, xs: Seq<ValView>)
    ensures
        accs_step(aggs, accs, xs) matches Some(t) ==> t.len() == aggs.len(),
    decreases aggs.len(),
{
    if accs.len() == aggs.len() && xs.len() == aggs.len() && aggs.len() > 0 {
        lemma_accs_step_len(
            aggs.subrange(1, aggs.len() as int),
            accs.subrange(1, accs.len() as int),
            xs.subrange(1, xs.len() as int),
        );
    }
}

/// Every group of the fold keeps the key width and one accumulator per
/// aggregator.
pub proof fn lemma_grp_from_shape(
    keys: Seq<Seq<ValView>>,
    cols: Seq<Seq<ValView>>,
    aggs: Seq<Aggregator>,
    i: int,
    acc: Seq<(Seq<ValView>, Seq<ValView>)>,
    ek: int,
)
    requires
        forall|p: int| 0 <= p < keys.len() ==> (#[trigger] keys[p]).len() == ek,
        forall|g: int|
            0 <= g < acc.len() ==> (#[trigger] acc[g]).0.len() == ek && acc[g].1.len()
                == aggs.len(),
    ensures
        grp_from(keys, cols, aggs, i, acc) matches Some(out) ==> forall|g: int|
            0 <= g < out.len() ==> (#[trigger] out[g]).0.len() == ek && out[g].1.len()
                == aggs.len(),
    decreases keys.len() - i,
{
    if 0 <= i < keys.len() {
        match grp_step(acc, aggs, keys[i], row_inputs(cols, i)) {
            None => {},
            Some(acc2) => {
                match assoc_find(acc, keys[i]) {
                    None => {
                        lemma_accs_step_len(aggs, accs_init(aggs), row_inputs(cols, i));
                    },
                    Some(g0) => {
                        lemma_assoc_find_key(acc, keys[i]);
                        lemma_accs_step_len(aggs, acc[g0].1, row_inputs(cols, i));
                    },
                }
                lemma_grp_from_shape(keys, cols, aggs, i + 1, acc2, ek);
            },
        }
    }
}

/// The views of a group list.
pub open spec fn groups_view(v: Seq<(Vec<RawVal>, Vec<RawVal>)>) -> Seq<
    (Seq<ValView>, Seq<ValView>),
> {
    v.map_values(|p: (Vec<RawVal>, Vec<RawVal>)| (vals_view(p.0@), vals_view(p.1@)))
}

/// Whether two value buffers hold the same values.
pub fn vals_equal(a: &Vec<RawVal>, b: &Vec<RawVal>) -> (r: bool)
    ensures
        r == (vals_view(a@) == vals_view(b@)),
{
    if a.len() != b.len() {
        proof {
            assert(vals_view(a@).len() != vals_view(b@).len());
        }
        return false;
    }
    let mut i: usize = 0;
    while i < a.len()
        invariant
            a@.len() == b@.len(),
            0 <= i <= a@.len(),
            forall|k: int| 0 <= k < i ==> (#[trigger] a@[k])@ == b@[k]@,
        decreases a@.len() - i,
    {
        if !(a[i] == b[i]) {
            proof {
                assert(vals_view(a@)[i as int] != vals_view(b@)[i as int]);
            }
            return false;
        }
        i += 1;
    }
    proof {
        assert(vals_view(a@) =~= vals_view(b@));
    }
    true
}

/// The index of the first group with this key, related to [`assoc_find`].
fn assoc_find_exec(out: &Vec<(Vec<RawVal>, Vec<RawVal>)>, key: &Vec<RawVal>) -> (r: Option<usize>)
    ensures
        match r {
            Some(i) => 0 <= i < out@.len() && assoc_find(groups_view(out@), vals_view(key@))
                == Some(i as int),
            None => assoc_find(groups_view(out@), vals_view(key@)) is None,
        },
{
    proof {
        assert(groups_view(out@).skip(0) =~= groups_view(out@));
    }
    let mut i: usize = 0;
    while i < out.len()
        invariant
            0 <= i <= out@.len(),
            assoc_find(groups_view(out@), vals_view(key@)) == match assoc_find(
                groups_view(out@).skip(i as int),
                vals_view(key@),
            ) {
                None => None::<int>,
                Some(p) => Some(p + i),
            },
        decreases out@.len() - i,
    {
        let ghost rest = groups_view(out@).skip(i as int);
        proof {
            assert(rest[0] == groups_view(out@)[i as int]);
            assert(rest.subrange(1, rest.len() as int) =~= groups_view(out@).skip(i + 1));
        }
        if vals_equal(&out[i].0, key) {
            return Some(i);
        }
        i += 1;
    }
    proof {
        assert(groups_view(out@).skip(out@.len() as int) =~= Seq::<
            (Seq<ValView>, Seq<ValView>),
        >::empty());
    }
    None
}

/// The initial accumulator of an aggregator.
pub fn agg_init_exec(a: Aggregator) -> (r: RawVal)
    ensures
        r@ == agg_init(a),
{
    match a {
        Aggregator::Count => RawVal::Int(0),
        Aggregator::SumI64 => RawVal::Int(0),
        _ => RawVal::Null,
    }
}

/// One aggregation step.
pub fn agg_step_exec(a: Aggregator, acc: &RawVal, x: &RawVal) -> (r: Option<RawVal>)
    ensures
        crate::type_conversion::opt_val_view(r) == agg_step(a, acc@, x@),
{
    match a {
        Aggregator::Count => match acc {
            RawVal::Int(c) => {
                if matches!(x, RawVal::Null) {
                    Some(RawVal::Int(*c))
                } else {
                    Some(RawVal::Int(c.wrapping_add(1)))
                }
            },
            _ => None,
        },
        Aggregator::SumI64 => match x {
            RawVal::Null => Some(acc.clone()),
            RawVal::Int(v) => match acc {
                RawVal::Int(s) => Some(RawVal::Int(s.wrapping_add(*v))),
                _ => None,
            },
            _ => None,
        },
        Aggregator::MinI64 => match x {
            RawVal::Null => Some(acc.clone()),
            RawVal::Int(v) => match acc {
                RawVal::Null => Some(RawVal::Int(*v)),
                RawVal::Int(m) => Some(RawVal::Int(if *v < *m {
                    *v
                } else {
                    *m
                })),
                _ => None,
            },
            _ => None,
        },
        Aggregator::MaxI64 => match x {
            RawVal::Null => Some(acc.clone()),
            RawVal::Int(v) => match acc {
                RawVal::Null => Some(RawVal::Int(*v)),
                RawVal::Int(m) => Some(RawVal::Int(if *v > *m {
                    *v
                } else {
                    *m
                })),
                _ => None,
            },
            _ => None,
        },
        _ => None,
    }
}

/// Steps every accumulator of one group by the row's inputs.
fn accs_step_exec(aggs: &Vec<Aggregator>, accs: &Vec<RawVal>, xs: &Vec<RawVal>) -> (r: Option<
    Vec<RawVal>,
>)
    ensures
        match r {
            Some(v) => accs_step(aggs@, vals_view(accs@), vals_view(xs@)) == Some(vals_view(v@)),
            None => accs_step(aggs@, vals_view(accs@), vals_view(xs@)) is None,
        },
{
    if accs.len() != aggs.len() || xs.len() != aggs.len() {
        return None;
    }
    let mut out: Vec<RawVal> = Vec::new();
    let mut k: usize = 0;
    while k < aggs.len()
        invariant
            accs@.len() == aggs@.len(),
            xs@.len() == aggs@.len(),
            0 <= k <= aggs@.len(),
            out@.len() == k,
            forall|p: int|
                0 <= p < k ==> agg_step(
                    #[trigger] aggs@[p],
                    vals_view(accs@)[p],
                    vals_view(xs@)[p],
                ) == Some(out@[p]@),
        decreases aggs@.len() - k,
    {
        match agg_step_exec(aggs[k], &accs[k], &xs[k]) {
            None => {
                proof {
                    assert(!(agg_step(aggs@[k as int], vals_view(accs@)[k as int], vals_view(xs@)[
                        k as int]) is Some));
                    lemma_accs_step_pointwise(aggs@, vals_view(accs@), vals_view(xs@));
                }
                return None;
            },
            Some(v) => {
                out.push(v);
            },
        }
        k += 1;
    }
    proof {
        lemma_accs_step_pointwise(aggs@, vals_view(accs@), vals_view(xs@));
        assert(accs_step(aggs@, vals_view(accs@), vals_view(xs@)) is Some);
        let t = accs_step(aggs@, vals_view(accs@), vals_view(xs@))->Some_0;
        assert forall|p: int| 0 <= p < t.len() implies t[p] == vals_view(out@)[p] by {
            assert(Some(t[p]) == agg_step(aggs@[p], vals_view(accs@)[p], vals_view(xs@)[p]));
            assert(agg_step(aggs@[p], vals_view(accs@)[p], vals_view(xs@)[p]) == Some(out@[p]@));
        }
        assert(t =~= vals_view(out@));
    }
    Some(out)
}

/// The recursive [`accs_step`] equals its pointwise description.
proof fn lemma_accs_step_pointwise(aggs: Seq<Aggregator>, accs: Seq<ValView>, xs: Seq<ValView>)
    requires
        accs.len() == aggs.len(),
        xs.len() == aggs.len(),
    ensures
        accs_step(aggs, accs, xs) is Some <==> (forall|p: int|
            0 <= p < aggs.len() ==> agg_step(#[trigger] aggs[p], accs[p], xs[p]) is Some),
        accs_step(aggs, accs, xs) matches Some(t) ==> t.len() == aggs.len() && forall|p: int|
            0 <= p < aggs.len() ==> Some(t[p]) == agg_step(#[trigger] aggs[p], accs[p], xs[p]),
    decreases aggs.len(),
{
    if aggs.len() > 0 {
        let a2 = aggs.subrange(1, aggs.len() as int);
        let c2 = accs.subrange(1, accs.len() as int);
        let x2 = xs.subrange(1, xs.len() as int);
        lemma_accs_step_pointwise(a2, c2, x2);
        match agg_step(aggs[0], accs[0], xs[0]) {
            None => {
                assert(!(agg_step(aggs[0], accs[0], xs[0]) is Some));
            },
            Some(v) => {
                match accs_step(a2, c2, x2) {
                    None => {
                        let q = choose|q: int|
                            0 <= q < a2.len() && !(agg_step(#[trigger] a2[q], c2[q], x2[q])
                                is Some);
                        assert(aggs[q + 1] == a2[q]);
                        assert(accs[q + 1] == c2[q]);
                        assert(xs[q + 1] == x2[q]);
                        assert(!(agg_step(aggs[q + 1], accs[q + 1], xs[q + 1]) is Some));
                    },
                    Some(t) => {
                        let whole = seq![v] + t;
                        assert(accs_step(aggs, accs, xs) == Some(whole));
                        assert forall|p: int|
                            0 <= p < aggs.len() implies Some(whole[p]) == agg_step(
                            #[trigger] aggs[p],
                            accs[p],
                            xs[p],
                        ) by {
                            if p == 0 {
                                assert(whole[0] == v);
                            } else {
                                assert(whole[p] == t[p - 1]);
                                assert(aggs[p] == a2[p - 1]);
                                assert(accs[p] == c2[p - 1]);
                                assert(xs[p] == x2[p - 1]);
                            }
                        }
                    },
                }
            },
        }
    }
}

/// Groups the rows by their keys and folds every aggregator, returning the
/// groups in first-occurrence order.  Fails with a type error exactly when
/// some row cannot be aggregated: a non-integer input or a float-space
/// aggregator.
pub fn group_agg(
    keys: &Vec<Vec<RawVal>>,
    aggs: &Vec<Aggregator>,
    inputs: &Vec<Vec<RawVal>>,
) -> (r: Result<Vec<(Vec<RawVal>, Vec<RawVal>)>, QueryError>)
    requires
        inputs@.len() == aggs@.len(),
        forall|a: int| 0 <= a < inputs@.len() ==> (#[trigger] inputs@[a])@.len() == keys@.len(),
    ensures
        r matches Ok(out) ==> grp(keys_view(keys@), inputs_view(inputs@), aggs@) == Some(
            groups_view(out@),
        ),
        r matches Err(e) ==> grp(keys_view(keys@), inputs_view(inputs@), aggs@) is None && e
            is TypeError,
{
    let ghost kv = keys_view(keys@);
    let ghost cv = inputs_view(inputs@);
    let mut out: Vec<(Vec<RawVal>, Vec<RawVal>)> = Vec::new();
    proof {
        assert(groups_view(out@) =~= Seq::<(Seq<ValView>, Seq<ValView>)>::empty());
    }
    let mut i: usize = 0;
    while i < keys.len()
        invariant
            inputs@.len() == aggs@.len(),
            forall|a: int| 0 <= a < inputs@.len() ==> (#[trigger] inputs@[a])@.len() == keys@.len(),
            kv == keys_view(keys@),
            cv == inputs_view(inputs@),
            0 <= i <= keys@.len(),
            grp(kv, cv, aggs@) == grp_from(kv, cv, aggs@, i as int, groups_view(out@)),
        decreases keys@.len() - i,
    {
        // The inputs of row i, one per aggregator.
        let mut xs: Vec<RawVal> = Vec::new();
        let mut a: usize = 0;
        while a < inputs.len()
            invariant
                forall|p: int|
                    0 <= p < inputs@.len() ==> (#[trigger] inputs@[p])@.len() == keys@.len(),
                i < keys@.len(),
                0 <= a <= inputs@.len(),
                xs@.len() == a,
                forall|p: int| 0 <= p < a ==> (#[trigger] xs@[p])@ == inputs@[p]@[i as int]@,
            decreases inputs@.len() - a,
        {
            xs.push(inputs[a][i].clone());
            a += 1;
        }
        proof {
            assert(vals_view(xs@) =~= row_inputs(cv, i as int));
            assert(kv[i as int] == vals_view(keys@[i as int]@));
        }
        let ghost out_pre = groups_view(out@);
        match assoc_find_exec(&out, &keys[i]) {
            None => {
                let mut accs: Vec<RawVal> = Vec::new();
                let mut a: usize = 0;
                while a < aggs.len()
                    invariant
                        0 <= a <= aggs@.len(),
                        accs@.len() == a,
                        forall|p: int| 0 <= p < a ==> (#[trigger] accs@[p])@ == agg_init(aggs@[p]),
                    decreases aggs@.len() - a,
                {
                    accs.push(agg_init_exec(aggs[a]));
                    a += 1;
                }
                proof {
                    assert(vals_view(accs@) =~= accs_init(aggs@));
                }
                match accs_step_exec(aggs, &accs, &xs) {
                    None => {
                        proof {
                            assert(grp_step(out_pre, aggs@, kv[i as int], vals_view(xs@))
                                is None);
                            assert(grp(kv, cv, aggs@) is None);
                        }
                        return Err(
                            QueryError::TypeError("cannot aggregate this input".to_owned()),
                        );
                    },
                    Some(stepped) => {
                        let ghost stepped_v = vals_view(stepped@);
                        proof {
                            assert(grp_step(out_pre, aggs@, kv[i as int], vals_view(xs@))
                                == Some(out_pre.push((kv[i as int], stepped_v))));
                        }
                        out.push((clone_vals(&keys[i]), stepped));
                        proof {
                            assert(groups_view(out@) =~= out_pre.push(
                                (kv[i as int], stepped_v),
                            ));
                        }
                    },
                }
            },
            Some(idx) => {
                match accs_step_exec(aggs, &out[idx].1, &xs) {
                    None => {
                        proof {
                            assert(out_pre[idx as int].1 == vals_view(out@[idx as int].1@));
                            assert(grp_step(out_pre, aggs@, kv[i as int], vals_view(xs@))
                                is None);
                            assert(grp(kv, cv, aggs@) is None);
                        }
                        return Err(
                            QueryError::TypeError("cannot aggregate this input".to_owned()),
                        );
                    },
                    Some(stepped) => {
                        let ghost stepped_v = vals_view(stepped@);
                        let key_copy = clone_vals(&out[idx].0);
                        proof {
                            lemma_assoc_find_key(out_pre, kv[i as int]);
                            assert(out_pre[idx as int].0 == kv[i as int]);
                            assert(out_pre[idx as int].1 == vals_view(out@[idx as int].1@));
                            assert(grp_step(out_pre, aggs@, kv[i as int], vals_view(xs@))
                                == Some(out_pre.update(idx as int, (kv[i as int], stepped_v))));
                        }
                        out.set(idx, (key_copy, stepped));
                        proof {
                            assert(groups_view(out@) =~= out_pre.update(
                                idx as int,
                                (kv[i as int], stepped_v),
                            ));
                        }
                    },
                }
            },
        }
        proof {
            assert(grp_from(kv, cv, aggs@, i as int, out_pre) == grp_from(
                kv,
                cv,
                aggs@,
                i + 1,
                groups_view(out@),
            ));
        }
        i += 1;
    }
    proof {
        assert(grp_from(kv, cv, aggs@, keys@.len() as int, groups_view(out@)) == Some(
            groups_view(out@),
        ));
    }
    Ok(out)
}

/// What [`assoc_find`] returns points at the key it was asked for.
proof fn lemma_assoc_find_key(out: Seq<(Seq<ValView>, Seq<ValView>)>, key: Seq<ValView>)
    ensures
        assoc_find(out, key) matches Some(i) ==> 0 <= i < out.len() && out[i].0 == key,
    decreases out.len(),
{
    if out.len() > 0 && out[0].0 != key {
        lemma_assoc_find_key(out.subrange(1, out.len() as int), key);
    }
}

/// The key columns of the rows.
pub open spec fn keys_view(v: Seq<Vec<RawVal>>) -> Seq<Seq<ValView>> {
    v.map_values(|k: Vec<RawVal>| vals_view(k@))
}

/// The input columns, one per aggregator.
pub open spec fn inputs_view(v: Seq<Vec<RawVal>>) -> Seq<Seq<ValView>> {
    v.map_values(|k: Vec<RawVal>| vals_view(k@))
}

/// Ascending lexicographic order on group-key rows: decided by the first
/// differing key value under the value order.
pub open spec fn krow_le(a: Seq<ValView>, b: Seq<ValView>) -> bool
    decreases a.len(),
{
    if a.len() == 0 {
        true
    } else if b.len() == 0 {
        false
    } else if a[0] == b[0] {
        krow_le(a.subrange(1, a.len() as int), b.subrange(1, b.len() as int))
    } else {
        crate::val::val_le(a[0], b[0])
    }
}

/// The key-row order is total.
pub proof fn lemma_krow_le_total(a: Seq<ValView>, b: Seq<ValView>)
    ensures
        krow_le(a, b) || krow_le(b, a),
    decreases a.len(),
{
    if a.len() > 0 && b.len() > 0 {
        if a[0] == b[0] {
            lemma_krow_le_total(a.subrange(1, a.len() as int), b.subrange(1, b.len() as int));
        } else {
            crate::val::lemma_val_le_total(a[0], b[0]);
        }
    }
}

/// The key-row order is antisymmetric: mutual order is equality.
pub proof fn lemma_krow_le_antisym(a: Seq<ValView>, b: Seq<ValView>)
    requires
        krow_le(a, b),
        krow_le(b, a),
    ensures
        a == b,
    decreases a.len(),
{
    if a.len() == 0 {
        assert(b.len() == 0);
        assert(a =~= b);
    } else {
        assert(b.len() > 0);
        if a[0] != b[0] {
            crate::val::lemma_val_le_antisym(a[0], b[0]);
        }
        lemma_krow_le_antisym(a.subrange(1, a.len() as int), b.subrange(1, b.len() as int));
        assert(a =~= b) by {
            assert forall|i: int| 0 <= i < a.len() implies a[i] == b[i] by {
                if i > 0 {
                    assert(a.subrange(1, a.len() as int)[i - 1] == a[i]);
                    assert(b.subrange(1, b.len() as int)[i - 1] == b[i]);
                }
            }
        }
    }
}

/// The key-row order is transitive.
pub proof fn lemma_krow_le_trans(a: Seq<ValView>, b: Seq<ValView>, c: Seq<ValView>)
    requires
        krow_le(a, b),
        krow_le(b, c),
    ensures
        krow_le(a, c),
    decreases a.len(),
{
    if a.len() > 0 {
        assert(b.len() > 0);
        assert(c.len() > 0);
        if a[0] == b[0] && b[0] == c[0] {
            lemma_krow_le_trans(
                a.subrange(1, a.len() as int),
                b.subrange(1, b.len() as int),
                c.subrange(1, c.len() as int),
            );
        } else if a[0] != b[0] && b[0] != c[0] {
            crate::val::lemma_val_le_trans(a[0], b[0], c[0]);
            if a[0] == c[0] {
                crate::val::lemma_val_le_antisym(a[0], b[0]);
            }
        }
    }
}

/// Whether the key row of `a` orders no later than that of `b`.
pub fn krow_le_exec(a: &Vec<RawVal>, b: &Vec<RawVal>) -> (r: bool)
    ensures
        r == krow_le(vals_view(a@), vals_view(b@)),
{
    let ghost av = vals_view(a@);
    let ghost bv = vals_view(b@);
    proof {
        assert(av.subrange(0, av.len() as int) =~= av);
        assert(bv.subrange(0, bv.len() as int) =~= bv);
    }
    let mut i: usize = 0;
    while i < a.len() && i < b.len()
        invariant
            av == vals_view(a@),
            bv == vals_view(b@),
            av.len() == a@.len(),
            bv.len() == b@.len(),
            0 <= i <= av.len(),
            0 <= i <= bv.len(),
            krow_le(av, bv) == krow_le(
                av.subrange(i as int, av.len() as int),
                bv.subrange(i as int, bv.len() as int),
            ),
        decreases av.len() - i,
    {
        proof {
            let sa = av.subrange(i as int, av.len() as int);
            let sb = bv.subrange(i as int, bv.len() as int);
            assert(sa[0] == av[i as int]);
            assert(sb[0] == bv[i as int]);
            assert(av[i as int] == a@[i as int]@);
            assert(bv[i as int] == b@[i as int]@);
            assert(sa.subrange(1, sa.len() as int) =~= av.subrange(i + 1, av.len() as int));
            assert(sb.subrange(1, sb.len() as int) =~= bv.subrange(i + 1, bv.len() as int));
        }
        let eq = a[i] == b[i];
        if !eq {
            return crate::val::val_le_exec(&a[i], &b[i]);
        }
        i += 1;
    }
    proof {
        if i == a.len() {
            assert(av.subrange(i as int, av.len() as int).len() == 0);
        } else {
            assert(bv.subrange(i as int, bv.len() as int).len() == 0);
            assert(av.subrange(i as int, av.len() as int).len() > 0);
        }
    }
    a.len() <= b.len()
}

/// Inserts a group before the first group whose key it orders no later
/// than.
pub open spec fn ginsert(
    s: Seq<(Seq<ValView>, Seq<ValView>)>,
    g: (Seq<ValView>, Seq<ValView>),
) -> Seq<(Seq<ValView>, Seq<ValView>)>
    decreases s.len(),
{
    if s.len() == 0 {
        seq![g]
    } else if krow_le(g.0, s[0].0) {
        seq![g] + s
    } else {
        seq![s[0]] + ginsert(s.subrange(1, s.len() as int), g)
    }
}

/// The groups sorted ascending by key: each group inserted in turn.
pub open spec fn gsort(s: Seq<(Seq<ValView>, Seq<ValView>)>) -> Seq<(Seq<ValView>, Seq<ValView>)>
    decreases s.len(),
{
    if s.len() == 0 {
        Seq::empty()
    } else {
        ginsert(gsort(s.drop_last()), s.last())
    }
}

/// Ascending key order over a whole group list.
pub open spec fn groups_sorted(s: Seq<(Seq<ValView>, Seq<ValView>)>) -> bool {
    forall|i: int, j: int|
        #![trigger s[i], s[j]]
        0 <= i < j < s.len() ==> krow_le(s[i].0, s[j].0)
}

/// Inserting adds one group.
pub proof fn lemma_ginsert_len(s: Seq<(Seq<ValView>, Seq<ValView>)>, g: (Seq<ValView>, Seq<ValView>))
    ensures
        ginsert(s, g).len() == s.len() + 1,
    decreases s.len(),
{
    if s.len() > 0 && !krow_le(g.0, s[0].0) {
        lemma_ginsert_len(s.subrange(1, s.len() as int), g);
    }
}

/// Every group of an insertion is the inserted one or one of the list.
pub proof fn lemma_ginsert_elems(
    s: Seq<(Seq<ValView>, Seq<ValView>)>,
    g: (Seq<ValView>, Seq<ValView>),
)
    ensures
        forall|k: int|
            0 <= k < ginsert(s, g).len() ==> (#[trigger] ginsert(s, g)[k] == g || s.contains(
                ginsert(s, g)[k],
            )),
    decreases s.len(),
{
    lemma_ginsert_len(s, g);
    if s.len() == 0 {
    } else if krow_le(g.0, s[0].0) {
        assert forall|k: int|
            0 <= k < ginsert(s, g).len() implies (#[trigger] ginsert(s, g)[k] == g || s.contains(
            ginsert(s, g)[k],
        )) by {
            if k > 0 {
                assert(ginsert(s, g)[k] == s[k - 1]);
            }
        }
    } else {
        let t = s.subrange(1, s.len() as int);
        lemma_ginsert_elems(t, g);
        lemma_ginsert_len(t, g);
        assert forall|k: int|
            0 <= k < ginsert(s, g).len() implies (#[trigger] ginsert(s, g)[k] == g || s.contains(
            ginsert(s, g)[k],
        )) by {
            if k == 0 {
                assert(ginsert(s, g)[0] == s[0]);
            } else {
                assert(ginsert(s, g)[k] == ginsert(t, g)[k - 1]);
                if ginsert(t, g)[k - 1] != g {
                    let p = choose|p: int| 0 <= p < t.len() && t[p] == ginsert(t, g)[k - 1];
                    assert(s[p + 1] == ginsert(s, g)[k]);
                }
            }
        }
    }
}

/// Inserting into a sorted list keeps it sorted.
pub proof fn lemma_ginsert_sorted(
    s: Seq<(Seq<ValView>, Seq<ValView>)>,
    g: (Seq<ValView>, Seq<ValView>),
)
    requires
        groups_sorted(s),
    ensures
        groups_sorted(ginsert(s, g)),
    decreases s.len(),
{
    lemma_ginsert_len(s, g);
    if s.len() == 0 {
    } else if krow_le(g.0, s[0].0) {
        assert forall|i: int, j: int|
            #![trigger ginsert(s, g)[i], ginsert(s, g)[j]]
            0 <= i < j < ginsert(s, g).len() implies krow_le(
            ginsert(s, g)[i].0,
            ginsert(s, g)[j].0,
        ) by {
            if i == 0 {
                assert(ginsert(s, g)[j] == s[j - 1]);
                if j > 1 {
                    lemma_krow_le_trans(g.0, s[0].0, s[j - 1].0);
                }
            } else {
                assert(ginsert(s, g)[i] == s[i - 1]);
                assert(ginsert(s, g)[j] == s[j - 1]);
            }
        }
    } else {
        let t = s.subrange(1, s.len() as int);
        assert(groups_sorted(t)) by {
            assert forall|i: int, j: int|
                #![trigger t[i], t[j]]
                0 <= i < j < t.len() implies krow_le(t[i].0, t[j].0) by {
                assert(t[i] == s[i + 1]);
                assert(t[j] == s[j + 1]);
            }
        }
        lemma_ginsert_sorted(t, g);
        lemma_ginsert_elems(t, g);
        lemma_ginsert_len(t, g);
        lemma_krow_le_total(g.0, s[0].0);
        assert forall|i: int, j: int|
            #![trigger ginsert(s, g)[i], ginsert(s, g)[j]]
            0 <= i < j < ginsert(s, g).len() implies krow_le(
            ginsert(s, g)[i].0,
            ginsert(s, g)[j].0,
        ) by {
            if i == 0 {
                assert(ginsert(s, g)[0] == s[0]);
                assert(ginsert(s, g)[j] == ginsert(t, g)[j - 1]);
                if ginsert(t, g)[j - 1] == g {
                    assert(krow_le(s[0].0, g.0));
                } else {
                    let p = choose|p: int| 0 <= p < t.len() && t[p] == ginsert(t, g)[j - 1];
                    assert(t[p] == s[p + 1]);
                    assert(krow_le(s[0].0, s[p + 1].0));
                }
            } else {
                assert(ginsert(s, g)[i] == ginsert(t, g)[i - 1]);
                assert(ginsert(s, g)[j] == ginsert(t, g)[j - 1]);
            }
        }
    }
}

/// Inserting contributes exactly the groups of the list and the new one.
pub proof fn lemma_ginsert_multiset(
    s: Seq<(Seq<ValView>, Seq<ValView>)>,
    g: (Seq<ValView>, Seq<ValView>),
)
    ensures
        ginsert(s, g).to_multiset() == s.to_multiset().insert(g),
    decreases s.len(),
{
    broadcast use vstd::seq_lib::group_to_multiset_ensures;
    broadcast use vstd::multiset::group_multiset_axioms;

    if s.len() == 0 {
        assert(seq![g] =~= Seq::<(Seq<ValView>, Seq<ValView>)>::empty().push(g));
        assert(ginsert(s, g).to_multiset() =~= s.to_multiset().insert(g));
    } else if krow_le(g.0, s[0].0) {
        vstd::seq_lib::lemma_multiset_commutative(seq![g], s);
        assert(seq![g] =~= Seq::<(Seq<ValView>, Seq<ValView>)>::empty().push(g));
        assert(ginsert(s, g).to_multiset() =~= s.to_multiset().insert(g));
    } else {
        let t = s.subrange(1, s.len() as int);
        lemma_ginsert_multiset(t, g);
        vstd::seq_lib::lemma_multiset_commutative(seq![s[0]], ginsert(t, g));
        vstd::seq_lib::lemma_multiset_commutative(seq![s[0]], t);
        assert(s =~= seq![s[0]] + t);
        assert(seq![s[0]] =~= Seq::<(Seq<ValView>, Seq<ValView>)>::empty().push(s[0]));
        assert(ginsert(s, g).to_multiset() =~= s.to_multiset().insert(g));
    }
}

/// The sort: same length, same groups as a multiset, ascending key order,
/// and every group of the output is one of the input.
pub proof fn lemma_gsort_props(s: Seq<(Seq<ValView>, Seq<ValView>)>)
    ensures
        gsort(s).len() == s.len(),
        gsort(s).to_multiset() == s.to_multiset(),
        groups_sorted(gsort(s)),
        forall|k: int| 0 <= k < gsort(s).len() ==> s.contains(#[trigger] gsort(s)[k]),
    decreases s.len(),
{
    broadcast use vstd::seq_lib::group_to_multiset_ensures;
    broadcast use vstd::multiset::group_multiset_axioms;

    if s.len() == 0 {
    } else {
        let d = s.drop_last();
        lemma_gsort_props(d);
        lemma_ginsert_len(gsort(d), s.last());
        lemma_ginsert_sorted(gsort(d), s.last());
        lemma_ginsert_multiset(gsort(d), s.last());
        lemma_ginsert_elems(gsort(d), s.last());
        assert(d.push(s.last()) =~= s);
        assert(gsort(s).to_multiset() =~= s.to_multiset());
        assert forall|k: int| 0 <= k < gsort(s).len() implies s.contains(
            #[trigger] gsort(s)[k],
        ) by {
            if gsort(s)[k] == s.last() {
                assert(s[s.len() - 1] == s.last());
            } else {
                assert(gsort(d).contains(gsort(s)[k]));
                let p = choose|p: int| 0 <= p < gsort(d).len() && gsort(d)[p] == gsort(s)[k];
                assert(d.contains(gsort(d)[p]));
                let q = choose|q: int| 0 <= q < d.len() && d[q] == gsort(d)[p];
                assert(s[q] == d[q]);
            }
        }
    }
}

/// Where the scan stopped is where the insertion lands: before the first
/// group that the new one orders no later than.
pub proof fn lemma_ginsert_at(
    s: Seq<(Seq<ValView>, Seq<ValView>)>,
    g: (Seq<ValView>, Seq<ValView>),
    j: int,
)
    requires
        0 <= j <= s.len(),
        forall|x: int| 0 <= x < j ==> !krow_le(g.0, (#[trigger] s[x]).0),
        j < s.len() ==> krow_le(g.0, s[j].0),
    ensures
        ginsert(s, g) == s.take(j) + seq![g] + s.skip(j),
    decreases s.len(),
{
    if s.len() == 0 {
        assert(ginsert(s, g) =~= s.take(j) + seq![g] + s.skip(j));
    } else if j == 0 {
        assert(krow_le(g.0, s[0].0));
        assert(ginsert(s, g) =~= s.take(0) + seq![g] + s.skip(0));
    } else {
        assert(!krow_le(g.0, s[0].0));
        let t = s.subrange(1, s.len() as int);
        assert forall|x: int| 0 <= x < j - 1 implies !krow_le(g.0, (#[trigger] t[x]).0) by {
            assert(t[x] == s[x + 1]);
        }
        if j - 1 < t.len() {
            assert(t[j - 1] == s[j as int]);
        }
        lemma_ginsert_at(t, g, j - 1);
        assert(ginsert(s, g) =~= s.take(j) + seq![g] + s.skip(j)) by {
            assert(ginsert(s, g) == seq![s[0]] + ginsert(t, g));
            assert(ginsert(t, g) == t.take(j - 1) + seq![g] + t.skip(j - 1));
            lemma_ginsert_len(t, g);
            assert forall|k: int|
                0 <= k < ginsert(s, g).len() implies ginsert(s, g)[k] == (s.take(j) + seq![g]
                + s.skip(j))[k] by {
                if k > 0 {
                    assert(ginsert(s, g)[k] == ginsert(t, g)[k - 1]);
                    if k - 1 < j - 1 {
                        assert(ginsert(t, g)[k - 1] == t[k - 1]);
                        assert(t[k - 1] == s[k as int]);
                    } else if k - 1 > j - 1 {
                        assert(ginsert(t, g)[k - 1] == t.skip(j - 1)[k - 1 - (j - 1) - 1]);
                    }
                }
            }
        }
    }
}

/// Sorts the groups ascending by key.
pub fn sort_groups(groups: &Vec<(Vec<RawVal>, Vec<RawVal>)>) -> (r: Vec<(Vec<RawVal>, Vec<RawVal>)>)
    ensures
        groups_view(r@) == gsort(groups_view(groups@)),
{
    let ghost gv = groups_view(groups@);
    let mut out: Vec<(Vec<RawVal>, Vec<RawVal>)> = Vec::new();
    proof {
        assert(gv.take(0) =~= Seq::<(Seq<ValView>, Seq<ValView>)>::empty());
    }
    let mut i: usize = 0;
    while i < groups.len()
        invariant
            gv == groups_view(groups@),
            gv.len() == groups@.len(),
            0 <= i <= groups@.len(),
            groups_view(out@) == gsort(gv.take(i as int)),
            out@.len() == i,
        decreases groups@.len() - i,
    {
        let g0 = clone_vals(&groups[i].0);
        let g1 = clone_vals(&groups[i].1);
        let ghost gpair = (vals_view(g0@), vals_view(g1@));
        let ghost pre = groups_view(out@);
        proof {
            assert(gpair == gv[i as int]);
        }
        let mut j: usize = 0;
        while j < out.len() && !krow_le_exec(&g0, &out[j].0)
            invariant
                pre == groups_view(out@),
                out@.len() == pre.len(),
                0 <= j <= out@.len(),
                vals_view(g0@) == gpair.0,
                forall|x: int| 0 <= x < j ==> !krow_le(gpair.0, (#[trigger] pre[x]).0),
            decreases out@.len() - j,
        {
            proof {
                assert(pre[j as int].0 == vals_view(out@[j as int].0@));
            }
            j += 1;
        }
        proof {
            if j < out.len() {
                assert(pre[j as int].0 == vals_view(out@[j as int].0@));
            }
            lemma_ginsert_at(pre, gpair, j as int);
        }
        out.insert(j, (g0, g1));
        proof {
            assert(groups_view(out@) =~= pre.take(j as int) + seq![gpair] + pre.skip(j as int));
            assert(gv.take(i + 1).drop_last() =~= gv.take(i as int));
            assert(gv.take(i + 1).last() == gv[i as int]);
            assert(groups_view(out@) == ginsert(gsort(gv.take(i as int)), gv[i as int]));
            lemma_ginsert_len(gsort(gv.take(i as int)), gv[i as int]);
        }
        i += 1;
    }
    proof {
        assert(gv.take(gv.len() as int) =~= gv);
    }
    out
}

/// Group-output determinism: two sorted group lists with pairwise
/// distinct keys that hold the same groups as a multiset are identical.
/// With the ascending output sort and the per-key fold agreement, the
/// aggregate's ordered output does not depend on the order its rows
/// arrived in.
pub proof fn lemma_sorted_groups_unique(
    a: Seq<(Seq<ValView>, Seq<ValView>)>,
    b: Seq<(Seq<ValView>, Seq<ValView>)>,
)
    requires
        groups_sorted(a),
        groups_sorted(b),
        forall|i: int, j: int| 0 <= i < j < a.len() ==> (#[trigger] a[i]).0 != (#[trigger] a[j]).0,
        forall|i: int, j: int| 0 <= i < j < b.len() ==> (#[trigger] b[i]).0 != (#[trigger] b[j]).0,
        a.to_multiset() == b.to_multiset(),
    ensures
        a == b,
    decreases a.len(),
{
    broadcast use vstd::seq_lib::group_to_multiset_ensures;
    broadcast use vstd::multiset::group_multiset_axioms;

    if a.len() == 0 {
        assert(b.to_multiset().len() == 0);
        assert(a =~= b);
    } else {
        assert(a.len() == a.to_multiset().len());
        assert(b.len() == b.to_multiset().len());
        assert(b.len() > 0);
        assert(a.to_multiset().count(a[0]) > 0) by {
            assert(a.contains(a[0]));
        }
        assert(b.contains(a[0]));
        let k = choose|k: int| 0 <= k < b.len() && b[k] == a[0];
        assert(b.to_multiset().count(b[0]) > 0) by {
            assert(b.contains(b[0]));
        }
        assert(a.contains(b[0]));
        let m = choose|m: int| 0 <= m < a.len() && a[m] == b[0];
        if k == 0 {
            assert(b[0] == a[0]);
        } else if m == 0 {
            assert(a[0] == b[0]);
        } else {
            assert(krow_le(b[0].0, b[k].0));
            assert(krow_le(a[0].0, a[m].0));
            lemma_krow_le_antisym(a[0].0, b[0].0);
            assert(b[0].0 != b[k].0);
            assert(false);
        }
        let at = a.remove(0);
        let bt = b.remove(0);
        assert(at.to_multiset() =~= a.to_multiset().remove(a[0]));
        assert(bt.to_multiset() =~= b.to_multiset().remove(b[0]));
        assert(at.to_multiset() == bt.to_multiset());
        assert(groups_sorted(at)) by {
            assert forall|i: int, j: int|
                #![trigger at[i], at[j]]
                0 <= i < j < at.len() implies krow_le(at[i].0, at[j].0) by {
                assert(at[i] == a[i + 1]);
                assert(at[j] == a[j + 1]);
            }
        }
        assert(groups_sorted(bt)) by {
            assert forall|i: int, j: int|
                #![trigger bt[i], bt[j]]
                0 <= i < j < bt.len() implies krow_le(bt[i].0, bt[j].0) by {
                assert(bt[i] == b[i + 1]);
                assert(bt[j] == b[j + 1]);
            }
        }
        assert forall|i: int, j: int|
            0 <= i < j < at.len() implies (#[trigger] at[i]).0 != (#[trigger] at[j]).0 by {
            assert(at[i] == a[i + 1]);
            assert(at[j] == a[j + 1]);
        }
        assert forall|i: int, j: int|
            0 <= i < j < bt.len() implies (#[trigger] bt[i]).0 != (#[trigger] bt[j]).0 by {
            assert(bt[i] == b[i + 1]);
            assert(bt[j] == b[j + 1]);
        }
        lemma_sorted_groups_unique(at, bt);
        assert(a =~= b) by {
            assert forall|i: int| 0 <= i < a.len() implies a[i] == b[i] by {
                if i > 0 {
                    assert(at[i - 1] == a[i]);
                    assert(bt[i - 1] == b[i]);
                }
            }
        }
    }
}

} // verus!
