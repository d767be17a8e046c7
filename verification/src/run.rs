//! Running a normalized query pass over one partition's columns: filtering,
//! ordering (full sort or bounded top-N), projection, and grouping with
//! aggregation.

use vstd::prelude::*;

use crate::error::QueryError;
use crate::eval::{cols_view, eval_expr, eval_spec};
use crate::expr::{Aggregator, Expr, ExprView};
use crate::group::{group_agg, grp, grp_from, keys_view};
use crate::query::NormalFormQuery;
use crate::scratchpad::vals_view;
use crate::sort::{sort_indices, ssort, top_k, top_n};
use crate::val::{RawVal, ValView};

verus! {

/// The truth value of a filter result: an integer is true when non-zero, a
/// null row is filtered out, and a string cannot filter.
pub open spec fn truthy(v: ValView) -> Option<bool> {
    match v {
        ValView::Int(x) => Some(x != 0),
        ValView::Null => Some(false),
        ValView::Str(_) => None,
    }
}

/// The rows of `0 .. n` that pass the filter, in ascending order, or an
/// error if the filter cannot be evaluated on some row.
pub open spec fn sel_rows(
    filter: ExprView,
    cols: Seq<(Seq<char>, Seq<ValView>)>,
    n: nat,
) -> Option<Seq<usize>>
    decreases n,
{
    if n == 0 {
        Some(Seq::empty())
    } else {
        match sel_rows(filter, cols, (n - 1) as nat) {
            None => None,
            Some(s) => match eval_spec(filter, cols, n - 1) {
                None => None,
                Some(v) => match truthy(v) {
                    None => None,
                    Some(true) => Some(s.push((n - 1) as usize)),
                    Some(false) => Some(s),
                },
            },
        }
    }
}

/// The expression evaluated on each selected row, or an error if some row
/// cannot be evaluated.
pub open spec fn eval_col(
    e: ExprView,
    cols: Seq<(Seq<char>, Seq<ValView>)>,
    sel: Seq<usize>,
) -> Option<Seq<ValView>>
    decreases sel.len(),
{
    if sel.len() == 0 {
        Some(Seq::empty())
    } else {
        match eval_col(e, cols, sel.drop_last()) {
            None => None,
            Some(s) => match eval_spec(e, cols, sel.last() as int) {
                None => None,
                Some(v) => Some(s.push(v)),
            },
        }
    }
}

/// The selection permuted by one ordering key: the ranking is the key
/// evaluated on each selected row, and the rows are reordered by the full
/// sort, or by the bounded top-N when `use_top`.
pub open spec fn apply_key(
    key: (ExprView, bool),
    cols: Seq<(Seq<char>, Seq<ValView>)>,
    sel: Seq<usize>,
    use_top: bool,
    k: nat,
) -> Option<Seq<usize>> {
    match eval_col(key.0, cols, sel) {
        None => None,
        Some(r) => {
            let perm = if use_top {
                top_k(sel.len(), r, key.1, k)
            } else {
                ssort(sel.len(), r, key.1)
            };
            Some(Seq::new(perm.len(), |t: int| sel[perm[t] as int]))
        },
    }
}

/// The row count of a selection pass's result columns: the length of the
/// final selection, or zero where the pass has no result columns at all.
pub open spec fn run_len(
    q: crate::query::NormalFormQueryView,
    cols: Seq<(Seq<char>, Seq<ValView>)>,
    n: nat,
) -> int {
    match run_spec(q, cols, n) {
        Some(pair) => if pair.0.len() > 0 {
            pair.0[0].len() as int
        } else if pair.1.len() > 0 {
            pair.1[0].len() as int
        } else {
            0
        },
        None => 0,
    }
}

/// The shape of a selection pass's result: one column per projection and
/// per ordering key, all of one length.
pub proof fn lemma_run_spec_shape(
    q: crate::query::NormalFormQueryView,
    cols: Seq<(Seq<char>, Seq<ValView>)>,
    n: nat,
)
    ensures
        run_spec(q, cols, n) matches Some(pair) ==> pair.0.len() == q.projection.len()
            && pair.1.len() == q.order_by.len() && (forall|j: int|
            0 <= j < pair.0.len() ==> (#[trigger] pair.0[j]).len() == run_len(q, cols, n)) && (
        forall|t: int|
            0 <= t < pair.1.len() ==> (#[trigger] pair.1[t]).len() == run_len(q, cols, n)),
{
    if run_spec(q, cols, n) is Some {
        let s0 = sel_rows(q.filter, cols, n)->Some_0;
        let s = ord_from(
            q.order_by,
            q.order_by.len() as int,
            cols,
            s0,
            use_top_spec(q, n),
            limit_total(q) as nat,
        )->Some_0;
        lemma_proj_cols_props(ci_exprs(q.projection), cols, s);
        lemma_proj_cols_props(ob_exprs(q.order_by), cols, s);
    }
}

/// The selection after applying ordering keys `0 .. j`, the last first, so
/// that the first key decides the final order with earlier passes as tie
/// history.
pub open spec fn ord_from(
    keys: Seq<(ExprView, bool)>,
    j: int,
    cols: Seq<(Seq<char>, Seq<ValView>)>,
    sel: Seq<usize>,
    use_top: bool,
    k: nat,
) -> Option<Seq<usize>>
    decreases j,
{
    if j <= 0 {
        Some(sel)
    } else {
        match apply_key(keys[j - 1], cols, sel, use_top, k) {
            None => None,
            Some(s2) => ord_from(keys, j - 1, cols, s2, use_top, k),
        }
    }
}

/// Each projection expression evaluated on the selected rows.
pub open spec fn proj_cols(
    exprs: Seq<ExprView>,
    cols: Seq<(Seq<char>, Seq<ValView>)>,
    sel: Seq<usize>,
) -> Option<Seq<Seq<ValView>>>
    decreases exprs.len(),
{
    if exprs.len() == 0 {
        Some(Seq::empty())
    } else {
        match proj_cols(exprs.drop_last(), cols, sel) {
            None => None,
            Some(s) => match eval_col(exprs.last(), cols, sel) {
                None => None,
                Some(c) => Some(s.push(c)),
            },
        }
    }
}

/// Computes the rows that pass the filter.
pub fn filter_rows(filter: &Expr, cols: &Vec<(String, Vec<RawVal>)>, n: usize) -> (r: Result<
    Vec<usize>,
    QueryError,
>)
    ensures
        r matches Ok(s) ==> sel_rows(filter@, cols_view(cols@), n as nat) == Some(s@),
        r matches Err(e) ==> sel_rows(filter@, cols_view(cols@), n as nat) is None && e
            is TypeError && (e.message_spec() == "cannot evaluate filter"@ || e.message_spec()
            == "filter is not boolean"@),
{
    let mut sel: Vec<usize> = Vec::new();
    let mut i: usize = 0;
    while i < n
        invariant
            0 <= i <= n,
            sel_rows(filter@, cols_view(cols@), i as nat) == Some(sel@),
        decreases n - i,
    {
        match eval_expr(filter, cols, i) {
            None => {
                proof {
                    assert(sel_rows(filter@, cols_view(cols@), (i + 1) as nat) is None);
                    lemma_sel_rows_none_mono(filter@, cols_view(cols@), (i + 1) as nat, n as nat);
                }
                return Err(QueryError::TypeError("cannot evaluate filter".to_owned()));
            },
            Some(v) => {
                match &v {
                    RawVal::Int(x) => {
                        if *x != 0 {
                            sel.push(i);
                        }
                    },
                    RawVal::Null => {},
                    RawVal::Str(_) => {
                        proof {
                            assert(sel_rows(filter@, cols_view(cols@), (i + 1) as nat) is None);
                            lemma_sel_rows_none_mono(
                                filter@,
                                cols_view(cols@),
                                (i + 1) as nat,
                                n as nat,
                            );
                        }
                        return Err(QueryError::TypeError("filter is not boolean".to_owned()));
                    },
                }
            },
        }
        i += 1;
    }
    Ok(sel)
}

/// Once the filter fails on some prefix, it fails for the whole range.
proof fn lemma_sel_rows_none_mono(
    filter: ExprView,
    cols: Seq<(Seq<char>, Seq<ValView>)>,
    m: nat,
    n: nat,
)
    requires
        m <= n,
        sel_rows(filter, cols, m) is None,
    ensures
        sel_rows(filter, cols, n) is None,
    decreases n - m,
{
    if m < n {
        lemma_sel_rows_none_mono(filter, cols, (m + 1) as nat, n);
    }
}

/// Evaluates an expression on each selected row.
pub fn eval_selected(e: &Expr, cols: &Vec<(String, Vec<RawVal>)>, sel: &Vec<usize>) -> (r: Result<
    Vec<RawVal>,
    QueryError,
>)
    ensures
        r matches Ok(c) ==> eval_col(e@, cols_view(cols@), sel@) == Some(vals_view(c@)),
        r matches Err(err) ==> eval_col(e@, cols_view(cols@), sel@) is None && err is TypeError,
{
    let mut out: Vec<RawVal> = Vec::new();
    let mut p: usize = 0;
    while p < sel.len()
        invariant
            0 <= p <= sel@.len(),
            eval_col(e@, cols_view(cols@), sel@.take(p as int)) == Some(vals_view(out@)),
        decreases sel@.len() - p,
    {
        proof {
            assert(sel@.take(p + 1).drop_last() =~= sel@.take(p as int));
            assert(sel@.take(p + 1).last() == sel@[p as int]);
        }
        match eval_expr(e, cols, sel[p]) {
            None => {
                proof {
                    lemma_eval_col_prefix_none(e@, cols_view(cols@), sel@, p as int);
                }
                return Err(QueryError::TypeError("cannot evaluate expression".to_owned()));
            },
            Some(v) => {
                out.push(v);
            },
        }
        p += 1;
    }
    proof {
        assert(sel@.take(sel@.len() as int) =~= sel@);
    }
    Ok(out)
}

/// If some selected row cannot be evaluated, the whole column cannot.
proof fn lemma_eval_col_prefix_none(
    e: ExprView,
    cols: Seq<(Seq<char>, Seq<ValView>)>,
    sel: Seq<usize>,
    p: int,
)
    requires
        0 <= p < sel.len(),
        eval_spec(e, cols, sel[p] as int) is None,
    ensures
        eval_col(e, cols, sel) is None,
    decreases sel.len(),
{
    if sel.len() > 0 {
        if p == sel.len() - 1 {
            assert(sel.last() == sel[p]);
        } else {
            assert(sel.drop_last()[p] == sel[p]);
            lemma_eval_col_prefix_none(e, cols, sel.drop_last(), p);
        }
    }
}

/// Permutes the selection by the sorted order of the ranking: the full
/// sort, or the bounded top-N when `use_top`.
pub fn permute_selection(
    ranking: &Vec<RawVal>,
    sel: &Vec<usize>,
    desc: bool,
    use_top: bool,
    k: usize,
) -> (r: Vec<usize>)
    requires
        ranking@.len() == sel@.len(),
    ensures
        ({
            let perm = if use_top {
                top_k(sel@.len() as nat, vals_view(ranking@), desc, k as nat)
            } else {
                ssort(sel@.len() as nat, vals_view(ranking@), desc)
            };
            r@ == Seq::new(perm.len(), |t: int| sel@[perm[t] as int])
        }),
{
    let perm: Vec<usize> = if use_top {
        top_n(ranking, k, desc)
    } else {
        sort_indices(ranking, desc)
    };
    proof {
        crate::sort::lemma_ssort_bounds(sel@.len() as nat, vals_view(ranking@), desc);
        if use_top {
            assert(forall|t: int|
                0 <= t < perm@.len() ==> (#[trigger] perm@[t]) == ssort(
                    sel@.len() as nat,
                    vals_view(ranking@),
                    desc,
                )[t]);
        }
    }
    let mut out: Vec<usize> = Vec::new();
    let mut t: usize = 0;
    while t < perm.len()
        invariant
            forall|q: int| 0 <= q < perm@.len() ==> (#[trigger] perm@[q]) < sel@.len(),
            0 <= t <= perm@.len(),
            out@.len() == t,
            forall|q: int| 0 <= q < t ==> (#[trigger] out@[q]) == sel@[perm@[q] as int],
        decreases perm@.len() - t,
    {
        out.push(sel[perm[t]]);
        t += 1;
    }
    proof {
        assert(out@ =~= Seq::new(perm@.len(), |q: int| sel@[perm@[q] as int]));
    }
    out
}

/// The views of a list of value buffers.
pub open spec fn bufs_view(v: Seq<Vec<RawVal>>) -> Seq<Seq<ValView>> {
    v.map_values(|b: Vec<RawVal>| vals_view(b@))
}

/// The expressions of a projection list.
pub open spec fn ci_exprs(s: Seq<crate::query::ColumnInfoView>) -> Seq<ExprView> {
    s.map_values(|c: crate::query::ColumnInfoView| c.expr)
}

/// The expressions of an `ORDER BY` list.
pub open spec fn ob_exprs(s: Seq<(ExprView, bool)>) -> Seq<ExprView> {
    s.map_values(|p: (ExprView, bool)| p.0)
}

/// The expressions of an aggregate list.
pub open spec fn agg_exprs(s: Seq<(Aggregator, crate::query::ColumnInfoView)>) -> Seq<ExprView> {
    s.map_values(|p: (Aggregator, crate::query::ColumnInfoView)| p.1.expr)
}

/// The aggregators of an aggregate list.
pub open spec fn agg_kinds(s: Seq<(Aggregator, crate::query::ColumnInfoView)>) -> Seq<Aggregator> {
    s.map_values(|p: (Aggregator, crate::query::ColumnInfoView)| p.0)
}

/// The number of rows the pass may return: limit plus offset.
pub open spec fn limit_total(q: crate::query::NormalFormQueryView) -> int {
    q.limit.limit + q.limit.offset
}

/// Whether the bounded top-N path is taken: a single ordering key whose
/// limit is below half the partition.
pub open spec fn use_top_spec(q: crate::query::NormalFormQueryView, n: nat) -> bool {
    q.order_by.len() == 1 && limit_total(q) < n / 2
}

/// What running an aggregate-free pass returns: the projected columns and
/// the ordering columns, both over the filtered rows in their final order.
pub open spec fn run_spec(
    q: crate::query::NormalFormQueryView,
    cols: Seq<(Seq<char>, Seq<ValView>)>,
    n: nat,
) -> Option<(Seq<Seq<ValView>>, Seq<Seq<ValView>>)> {
    match sel_rows(q.filter, cols, n) {
        None => None,
        Some(s0) => match ord_from(
            q.order_by,
            q.order_by.len() as int,
            cols,
            s0,
            use_top_spec(q, n),
            limit_total(q) as nat,
        ) {
            None => None,
            Some(s) => match proj_cols(ci_exprs(q.projection), cols, s) {
                None => None,
                Some(pc) => match proj_cols(ob_exprs(q.order_by), cols, s) {
                    None => None,
                    Some(oc) => Some((pc, oc)),
                },
            },
        },
    }
}

/// What running an aggregation pass returns: the groups of the filtered
/// rows, keyed by the projected expressions, in first-occurrence order.
pub open spec fn agg_spec(
    q: crate::query::NormalFormQueryView,
    cols: Seq<(Seq<char>, Seq<ValView>)>,
    n: nat,
) -> Option<Seq<(Seq<ValView>, Seq<ValView>)>> {
    match sel_rows(q.filter, cols, n) {
        None => None,
        Some(s0) => match key_rows(ci_exprs(q.projection), cols, s0) {
            None => None,
            Some(keys) => match proj_cols(agg_exprs(q.aggregate), cols, s0) {
                None => None,
                Some(inputs) => grp(keys, inputs, agg_kinds(q.aggregate)),
            },
        },
    }
}

/// The grouping key of one row: each key expression evaluated on it.
pub open spec fn row_key(
    exprs: Seq<ExprView>,
    cols: Seq<(Seq<char>, Seq<ValView>)>,
    row: usize,
) -> Option<Seq<ValView>>
    decreases exprs.len(),
{
    if exprs.len() == 0 {
        Some(Seq::empty())
    } else {
        match row_key(exprs.drop_last(), cols, row) {
            None => None,
            Some(s) => match eval_spec(exprs.last(), cols, row as int) {
                None => None,
                Some(v) => Some(s.push(v)),
            },
        }
    }
}

/// The grouping key of each selected row.
pub open spec fn key_rows(
    exprs: Seq<ExprView>,
    cols: Seq<(Seq<char>, Seq<ValView>)>,
    sel: Seq<usize>,
) -> Option<Seq<Seq<ValView>>>
    decreases sel.len(),
{
    if sel.len() == 0 {
        Some(Seq::empty())
    } else {
        match key_rows(exprs, cols, sel.drop_last()) {
            None => None,
            Some(s) => match row_key(exprs, cols, sel.last()) {
                None => None,
                Some(k) => Some(s.push(k)),
            },
        }
    }
}

/// An evaluated column has one value per selected row.
pub proof fn lemma_eval_col_len(
    e: ExprView,
    cols: Seq<(Seq<char>, Seq<ValView>)>,
    sel: Seq<usize>,
)
    ensures
        eval_col(e, cols, sel) matches Some(c) ==> c.len() == sel.len(),
    decreases sel.len(),
{
    if sel.len() > 0 {
        lemma_eval_col_len(e, cols, sel.drop_last());
    }
}

/// The result of one partition-query pass: the reconstructed grouping
/// columns, the projected columns, the aggregated columns with their
/// aggregator kinds, and the pre-sorted ordering columns.  All buffers are
/// owned, so nothing needs to outlive a scratchpad.
#[derive(Debug)]
pub struct BatchResult {
    pub group_cols: Vec<Vec<RawVal>>,
    pub projection: Vec<Vec<RawVal>>,
    pub aggregations: Vec<(Vec<RawVal>, Aggregator)>,
    pub order_by: Vec<(Vec<RawVal>, bool)>,
    pub level: u32,
    pub batch_count: u32,
}

impl NormalFormQuery {
    /// Runs an aggregate-free pass over one partition: filters the rows,
    /// orders them by the ordering keys (bounded top-N for a single key
    /// with a small limit, full sorts otherwise, the last key first so the
    /// first key decides), and projects the selected expressions.
    pub fn run(&self, columns: &Vec<(String, Vec<RawVal>)>, partition_len: usize) -> (r: Result<
        BatchResult,
        QueryError,
    >)
        ensures
            r matches Ok(b) ==> ({
                &&& run_spec(self@, cols_view(columns@), partition_len as nat) matches Some(pair)
                    && bufs_view(b.projection@) == pair.0 && b.order_by@.len() == pair.1.len()
                    && (forall|t: int|
                    0 <= t < pair.1.len() ==> vals_view((#[trigger] b.order_by@[t]).0@)
                        == pair.1[t] && b.order_by@[t].1 == self@.order_by[t].1)
                &&& b.group_cols@.len() == 0
                &&& b.aggregations@.len() == 0
                &&& b.level == 0
                &&& b.batch_count == 1
            }),
            r matches Err(e) ==> run_spec(self@, cols_view(columns@), partition_len as nat)
                is None && e is TypeError,
    {
        let ghost cv = cols_view(columns@);
        let ghost q = self@;
        let n = partition_len;
        // The number of rows the pass may return, saturating so that an
        // unbounded limit stays unbounded.
        let total: u64 = if self.limit.limit > u64::MAX - self.limit.offset {
            u64::MAX
        } else {
            self.limit.limit + self.limit.offset
        };
        let use_top = self.order_by.len() == 1 && total < (n as u64) / 2;
        let k: usize = if total > (usize::MAX as u64) {
            usize::MAX
        } else {
            total as usize
        };
        proof {
            assert(use_top == use_top_spec(q, n as nat));
            if use_top {
                assert(k as int == limit_total(q));
            }
        }

        let mut sel = match filter_rows(&self.filter, columns, n) {
            Ok(s) => s,
            Err(e) => {
                return Err(e);
            },
        };
        let ghost s0 = sel@;
        let mut j: usize = self.order_by.len();
        while j > 0
            invariant
                cv == cols_view(columns@),
                q == self@,
                0 <= j <= self.order_by@.len(),
                q.order_by.len() == self.order_by@.len(),
                sel_rows(q.filter, cv, n as nat) == Some(s0),
                n == partition_len,
                ord_from(
                    q.order_by,
                    q.order_by.len() as int,
                    cv,
                    s0,
                    use_top_spec(q, n as nat),
                    limit_total(q) as nat,
                ) == ord_from(
                    q.order_by,
                    j as int,
                    cv,
                    sel@,
                    use_top_spec(q, n as nat),
                    limit_total(q) as nat,
                ),
                use_top == use_top_spec(q, n as nat),
                use_top ==> k as int == limit_total(q),
            decreases j,
        {
            j -= 1;
            let desc = self.order_by[j].1;
            proof {
                assert(q.order_by[j as int] == (self.order_by@[j as int].0@, self.order_by@[
                    j as int].1));
            }
            let ranking = match eval_selected(&self.order_by[j].0, columns, &sel) {
                Ok(c) => c,
                Err(e) => {
                    proof {
                        assert(apply_key(
                            q.order_by[j as int],
                            cv,
                            sel@,
                            use_top_spec(q, n as nat),
                            limit_total(q) as nat,
                        ) is None);
                        assert(ord_from(
                            q.order_by,
                            (j + 1) as int,
                            cv,
                            sel@,
                            use_top_spec(q, n as nat),
                            limit_total(q) as nat,
                        ) is None);
                        assert(run_spec(q, cv, n as nat) is None);
                    }
                    return Err(e);
                },
            };
            proof {
                lemma_eval_col_len(q.order_by[j as int].0, cv, sel@);
            }
            let ghost sel_pre = sel@;
            sel = permute_selection(&ranking, &sel, desc, use_top, k);
            proof {
                assert(apply_key(
                    q.order_by[j as int],
                    cv,
                    sel_pre,
                    use_top_spec(q, n as nat),
                    limit_total(q) as nat,
                ) == Some(sel@));
            }
        }
        proof {
            assert(ord_from(
                q.order_by,
                q.order_by.len() as int,
                cv,
                s0,
                use_top_spec(q, n as nat),
                limit_total(q) as nat,
            ) == Some(sel@));
        }

        let mut projection: Vec<Vec<RawVal>> = Vec::new();
        let mut p: usize = 0;
        while p < self.projection.len()
            invariant
                cv == cols_view(columns@),
                q == self@,
                0 <= p <= self.projection@.len(),
                q.projection.len() == self.projection@.len(),
                n == partition_len,
                sel_rows(q.filter, cv, n as nat) == Some(s0),
                ord_from(
                    q.order_by,
                    q.order_by.len() as int,
                    cv,
                    s0,
                    use_top_spec(q, n as nat),
                    limit_total(q) as nat,
                ) == Some(sel@),
                proj_cols(ci_exprs(q.projection).take(p as int), cv, sel@) == Some(
                    bufs_view(projection@),
                ),
            decreases self.projection@.len() - p,
        {
            proof {
                assert(ci_exprs(q.projection).take(p + 1).drop_last() =~= ci_exprs(
                    q.projection,
                ).take(p as int));
                assert(ci_exprs(q.projection).take(p + 1).last() == q.projection[p as int].expr);
                assert(q.projection[p as int] == self.projection@[p as int]@);
            }
            match eval_selected(&self.projection[p].expr, columns, &sel) {
                Ok(c) => {
                    projection.push(c);
                    proof {
                        assert(bufs_view(projection@) =~= bufs_view(projection@.drop_last()).push(
                            vals_view(projection@.last()@),
                        ));
                    }
                },
                Err(e) => {
                    proof {
                        lemma_proj_cols_none(ci_exprs(q.projection), cv, sel@, p as int);
                        assert(run_spec(q, cv, n as nat) is None);
                    }
                    return Err(e);
                },
            }
            p += 1;
        }
        proof {
            assert(ci_exprs(q.projection).take(q.projection.len() as int) =~= ci_exprs(
                q.projection,
            ));
        }

        let mut order_by: Vec<(Vec<RawVal>, bool)> = Vec::new();
        let mut t: usize = 0;
        while t < self.order_by.len()
            invariant
                cv == cols_view(columns@),
                q == self@,
                0 <= t <= self.order_by@.len(),
                q.order_by.len() == self.order_by@.len(),
                n == partition_len,
                sel_rows(q.filter, cv, n as nat) == Some(s0),
                ord_from(
                    q.order_by,
                    q.order_by.len() as int,
                    cv,
                    s0,
                    use_top_spec(q, n as nat),
                    limit_total(q) as nat,
                ) == Some(sel@),
                proj_cols(ci_exprs(q.projection), cv, sel@) == Some(bufs_view(projection@)),
                order_by@.len() == t,
                proj_cols(ob_exprs(q.order_by).take(t as int), cv, sel@) == Some(
                    obufs_view(order_by@),
                ),
                forall|x: int|
                    0 <= x < t ==> (#[trigger] order_by@[x]).1 == q.order_by[x].1,
            decreases self.order_by@.len() - t,
        {
            proof {
                assert(ob_exprs(q.order_by).take(t + 1).drop_last() =~= ob_exprs(q.order_by).take(
                    t as int,
                ));
                assert(ob_exprs(q.order_by).take(t + 1).last() == q.order_by[t as int].0);
                assert(q.order_by[t as int] == (self.order_by@[t as int].0@, self.order_by@[
                    t as int].1));
            }
            match eval_selected(&self.order_by[t].0, columns, &sel) {
                Ok(c) => {
                    order_by.push((c, self.order_by[t].1));
                    proof {
                        assert(obufs_view(order_by@) =~= obufs_view(order_by@.drop_last()).push(
                            vals_view(order_by@.last().0@),
                        ));
                    }
                },
                Err(e) => {
                    proof {
                        lemma_proj_cols_none(ob_exprs(q.order_by), cv, sel@, t as int);
                        assert(run_spec(q, cv, n as nat) is None);
                    }
                    return Err(e);
                },
            }
            t += 1;
        }
        proof {
            assert(ob_exprs(q.order_by).take(q.order_by.len() as int) =~= ob_exprs(q.order_by));
            assert(run_spec(q, cv, n as nat) == Some(
                (bufs_view(projection@), obufs_view(order_by@)),
            ));
        }

        Ok(
            BatchResult {
                group_cols: Vec::new(),
                projection,
                aggregations: Vec::new(),
                order_by,
                level: 0,
                batch_count: 1,
            },
        )
    }
}

/// A key row has one value per key expression, and there is one key row
/// per selected row.
pub proof fn lemma_key_rows_props(
    exprs: Seq<ExprView>,
    cols: Seq<(Seq<char>, Seq<ValView>)>,
    sel: Seq<usize>,
)
    ensures
        key_rows(exprs, cols, sel) matches Some(k) ==> k.len() == sel.len() && forall|p: int|
            0 <= p < k.len() ==> (#[trigger] k[p]).len() == exprs.len(),
    decreases sel.len(),
{
    if sel.len() > 0 {
        lemma_key_rows_props(exprs, cols, sel.drop_last());
        lemma_row_key_len(exprs, cols, sel.last());
    }
}

/// A row's key has one value per key expression.
proof fn lemma_row_key_len(exprs: Seq<ExprView>, cols: Seq<(Seq<char>, Seq<ValView>)>, row: usize)
    ensures
        row_key(exprs, cols, row) matches Some(k) ==> k.len() == exprs.len(),
    decreases exprs.len(),
{
    if exprs.len() > 0 {
        lemma_row_key_len(exprs.drop_last(), cols, row);
    }
}

/// A projection has one column per expression, each with one value per
/// selected row.
pub proof fn lemma_proj_cols_props(
    exprs: Seq<ExprView>,
    cols: Seq<(Seq<char>, Seq<ValView>)>,
    sel: Seq<usize>,
)
    ensures
        proj_cols(exprs, cols, sel) matches Some(s) ==> s.len() == exprs.len() && forall|e: int|
            0 <= e < s.len() ==> (#[trigger] s[e]).len() == sel.len(),
    decreases exprs.len(),
{
    if exprs.len() > 0 {
        lemma_proj_cols_props(exprs.drop_last(), cols, sel);
        lemma_eval_col_len(exprs.last(), cols, sel);
    }
}

/// If some row's key cannot be evaluated, no key rows can.
proof fn lemma_key_rows_none(
    exprs: Seq<ExprView>,
    cols: Seq<(Seq<char>, Seq<ValView>)>,
    sel: Seq<usize>,
    p: int,
)
    requires
        0 <= p < sel.len(),
        row_key(exprs, cols, sel[p]) is None,
    ensures
        key_rows(exprs, cols, sel) is None,
    decreases sel.len(),
{
    if sel.len() > 0 {
        if p == sel.len() - 1 {
            assert(sel.last() == sel[p]);
        } else {
            assert(sel.drop_last()[p] == sel[p]);
            lemma_key_rows_none(exprs, cols, sel.drop_last(), p);
        }
    }
}

/// If some key expression cannot be evaluated on the row, the row's key
/// cannot.
proof fn lemma_row_key_none(
    exprs: Seq<ExprView>,
    cols: Seq<(Seq<char>, Seq<ValView>)>,
    row: usize,
    e: int,
)
    requires
        0 <= e < exprs.len(),
        eval_spec(exprs[e], cols, row as int) is None,
    ensures
        row_key(exprs, cols, row) is None,
    decreases exprs.len(),
{
    if exprs.len() > 0 {
        if e == exprs.len() - 1 {
            assert(exprs.last() == exprs[e]);
        } else {
            assert(exprs.drop_last()[e] == exprs[e]);
            lemma_row_key_none(exprs.drop_last(), cols, row, e);
        }
    }
}

impl NormalFormQuery {
    /// Runs an aggregation pass over one partition: filters the rows,
    /// groups them by the projected expressions, and folds every
    /// aggregator over its input expression, returning the groups in
    /// first-occurrence order as grouping columns and aggregation columns.
    pub fn run_aggregate(&self, columns: &Vec<(String, Vec<RawVal>)>, partition_len: usize) -> (r:
        Result<BatchResult, QueryError>)
        ensures
            r matches Ok(b) ==> ({
                &&& agg_spec(self@, cols_view(columns@), partition_len as nat) matches Some(groups)
                    && b.group_cols@.len() == self@.projection.len() && (forall|e: int|
                    0 <= e < self@.projection.len() ==> vals_view((#[trigger] b.group_cols@[e])@)
                        == Seq::new(
                        crate::group::gsort(groups).len(),
                        |g: int| crate::group::gsort(groups)[g].0[e],
                    )) && b.aggregations@.len() == self@.aggregate.len() && (forall|a: int|
                    0 <= a < self@.aggregate.len() ==> vals_view(
                        (#[trigger] b.aggregations@[a]).0@,
                    ) == Seq::new(
                        crate::group::gsort(groups).len(),
                        |g: int| crate::group::gsort(groups)[g].1[a],
                    ) && b.aggregations@[a].1 == self@.aggregate[a].0)
                &&& b.projection@.len() == 0
                &&& b.order_by@.len() == 0
                &&& b.level == 0
                &&& b.batch_count == 1
            }),
            r matches Err(e) ==> agg_spec(self@, cols_view(columns@), partition_len as nat)
                is None && e is TypeError,
    {
        let ghost cv = cols_view(columns@);
        let ghost q = self@;
        let n = partition_len;
        let sel = match filter_rows(&self.filter, columns, n) {
            Ok(s) => s,
            Err(e) => {
                return Err(e);
            },
        };

        // The grouping key of each selected row.
        let mut keys: Vec<Vec<RawVal>> = Vec::new();
        let mut p: usize = 0;
        while p < sel.len()
            invariant
                cv == cols_view(columns@),
                q == self@,
                n == partition_len,
                sel_rows(q.filter, cv, n as nat) == Some(sel@),
                q.projection.len() == self.projection@.len(),
                0 <= p <= sel@.len(),
                keys@.len() == p,
                key_rows(ci_exprs(q.projection), cv, sel@.take(p as int)) == Some(
                    keys_view(keys@),
                ),
            decreases sel@.len() - p,
        {
            proof {
                assert(sel@.take(p + 1).drop_last() =~= sel@.take(p as int));
                assert(sel@.take(p + 1).last() == sel@[p as int]);
            }
            let mut row: Vec<RawVal> = Vec::new();
            let mut e: usize = 0;
            while e < self.projection.len()
                invariant
                    cv == cols_view(columns@),
                    q == self@,
                    n == partition_len,
                    sel_rows(q.filter, cv, n as nat) == Some(sel@),
                    q.projection.len() == self.projection@.len(),
                    p < sel@.len(),
                    0 <= e <= self.projection@.len(),
                    row_key(ci_exprs(q.projection).take(e as int), cv, sel@[p as int]) == Some(
                        vals_view(row@),
                    ),
                decreases self.projection@.len() - e,
            {
                proof {
                    assert(ci_exprs(q.projection).take(e + 1).drop_last() =~= ci_exprs(
                        q.projection,
                    ).take(e as int));
                    assert(ci_exprs(q.projection).take(e + 1).last() == q.projection[
                        e as int].expr);
                    assert(q.projection[e as int] == self.projection@[e as int]@);
                }
                match eval_expr(&self.projection[e].expr, columns, sel[p]) {
                    Some(v) => {
                        row.push(v);
                    },
                    None => {
                        proof {
                            lemma_row_key_none(ci_exprs(q.projection), cv, sel@[p as int], e as int);
                            lemma_key_rows_none(ci_exprs(q.projection), cv, sel@, p as int);
                            assert(agg_spec(q, cv, n as nat) is None);
                        }
                        return Err(
                            QueryError::TypeError("cannot evaluate grouping key".to_owned()),
                        );
                    },
                }
                e += 1;
            }
            proof {
                assert(ci_exprs(q.projection).take(q.projection.len() as int) =~= ci_exprs(
                    q.projection,
                ));
            }
            keys.push(row);
            proof {
                assert(keys_view(keys@) =~= keys_view(keys@.drop_last()).push(
                    vals_view(keys@.last()@),
                ));
            }
            p += 1;
        }
        proof {
            assert(sel@.take(sel@.len() as int) =~= sel@);
        }

        // The input column of each aggregator.
        let mut inputs: Vec<Vec<RawVal>> = Vec::new();
        let mut a: usize = 0;
        while a < self.aggregate.len()
            invariant
                cv == cols_view(columns@),
                q == self@,
                n == partition_len,
                sel_rows(q.filter, cv, n as nat) == Some(sel@),
                key_rows(ci_exprs(q.projection), cv, sel@) == Some(keys_view(keys@)),
                q.aggregate.len() == self.aggregate@.len(),
                0 <= a <= self.aggregate@.len(),
                inputs@.len() == a,
                proj_cols(agg_exprs(q.aggregate).take(a as int), cv, sel@) == Some(
                    crate::group::inputs_view(inputs@),
                ),
            decreases self.aggregate@.len() - a,
        {
            proof {
                assert(agg_exprs(q.aggregate).take(a + 1).drop_last() =~= agg_exprs(
                    q.aggregate,
                ).take(a as int));
                assert(agg_exprs(q.aggregate).take(a + 1).last() == q.aggregate[a as int].1.expr);
                assert(q.aggregate[a as int] == (self.aggregate@[a as int].0, self.aggregate@[
                    a as int].1@));
            }
            match eval_selected(&self.aggregate[a].1.expr, columns, &sel) {
                Ok(c) => {
                    inputs.push(c);
                    proof {
                        assert(crate::group::inputs_view(inputs@) =~= crate::group::inputs_view(
                            inputs@.drop_last(),
                        ).push(vals_view(inputs@.last()@)));
                    }
                },
                Err(e) => {
                    proof {
                        lemma_proj_cols_none(agg_exprs(q.aggregate), cv, sel@, a as int);
                        assert(agg_spec(q, cv, n as nat) is None);
                    }
                    return Err(e);
                },
            }
            a += 1;
        }
        proof {
            assert(agg_exprs(q.aggregate).take(q.aggregate.len() as int) =~= agg_exprs(
                q.aggregate,
            ));
        }

        // The aggregator kinds.
        let mut aggs: Vec<Aggregator> = Vec::new();
        let mut a: usize = 0;
        while a < self.aggregate.len()
            invariant
                q == self@,
                q.aggregate.len() == self.aggregate@.len(),
                0 <= a <= self.aggregate@.len(),
                aggs@.len() == a,
                forall|x: int| 0 <= x < a ==> (#[trigger] aggs@[x]) == q.aggregate[x].0,
            decreases self.aggregate@.len() - a,
        {
            proof {
                assert(q.aggregate[a as int] == (self.aggregate@[a as int].0, self.aggregate@[
                    a as int].1@));
            }
            aggs.push(self.aggregate[a].0);
            a += 1;
        }
        proof {
            assert(aggs@ =~= agg_kinds(q.aggregate));
            lemma_key_rows_props(ci_exprs(q.projection), cv, sel@);
            lemma_proj_cols_props(agg_exprs(q.aggregate), cv, sel@);
            assert(keys_view(keys@).len() == sel@.len());
            assert(keys@.len() == sel@.len());
            assert forall|x: int| 0 <= x < inputs@.len() implies (#[trigger] inputs@[x])@.len()
                == keys@.len() by {
                assert(crate::group::inputs_view(inputs@)[x] == vals_view(inputs@[x]@));
                assert(crate::group::inputs_view(inputs@)[x].len() == sel@.len());
            }
        }

        let grouped = match group_agg(&keys, &aggs, &inputs) {
            Ok(g) => g,
            Err(e) => {
                proof {
                    assert(agg_spec(q, cv, n as nat) is None);
                }
                return Err(e);
            },
        };
        let ghost gv = crate::group::groups_view(grouped@);
        proof {
            assert(agg_spec(q, cv, n as nat) == Some(gv));
            assert(grp(keys_view(keys@), crate::group::inputs_view(inputs@), aggs@) == Some(gv));
            assert forall|x: int| 0 <= x < keys_view(keys@).len() implies (#[trigger] keys_view(
                keys@,
            )[x]).len() == q.projection.len() as int by {
                assert(key_rows(ci_exprs(q.projection), cv, sel@) == Some(keys_view(keys@)));
            }
            crate::group::lemma_grp_from_shape(
                keys_view(keys@),
                crate::group::inputs_view(inputs@),
                aggs@,
                0,
                Seq::empty(),
                q.projection.len() as int,
            );
            assert forall|g: int|
                0 <= g < gv.len() implies (#[trigger] gv[g]).0.len() == q.projection.len() && gv[
                g].1.len() == aggs@.len() by {
                let out0 = grp_from(
                    keys_view(keys@),
                    crate::group::inputs_view(inputs@),
                    aggs@,
                    0,
                    Seq::<(Seq<ValView>, Seq<ValView>)>::empty(),
                )->Some_0;
                assert(out0 == gv);
                assert(out0[g].0.len() == q.projection.len());
                assert(out0[g].1.len() == aggs@.len());
            }
        }

        let groups = crate::group::sort_groups(&grouped);
        let ghost sv = crate::group::groups_view(groups@);
        proof {
            crate::group::lemma_gsort_props(gv);
            assert(sv == crate::group::gsort(gv));
            assert forall|g: int|
                0 <= g < sv.len() implies (#[trigger] sv[g]).0.len() == q.projection.len() && sv[
            g].1.len() == aggs@.len() by {
                assert(gv.contains(sv[g]));
                let p = choose|p: int| 0 <= p < gv.len() && gv[p] == sv[g];
                assert(gv[p].0.len() == q.projection.len());
                assert(gv[p].1.len() == aggs@.len());
            }
        }

        // Transpose the groups into grouping columns and aggregation
        // columns.
        let mut group_cols: Vec<Vec<RawVal>> = Vec::new();
        let mut e: usize = 0;
        while e < self.projection.len()
            invariant
                q == self@,
                sv == crate::group::groups_view(groups@),
                q.projection.len() == self.projection@.len(),
                forall|g: int|
                    0 <= g < sv.len() ==> (#[trigger] sv[g]).0.len() == q.projection.len(),
                0 <= e <= self.projection@.len(),
                group_cols@.len() == e,
                forall|x: int|
                    0 <= x < e ==> vals_view((#[trigger] group_cols@[x])@) == Seq::new(
                        sv.len(),
                        |g: int| sv[g].0[x],
                    ),
            decreases self.projection@.len() - e,
        {
            let mut col: Vec<RawVal> = Vec::new();
            let mut g: usize = 0;
            while g < groups.len()
                invariant
                    sv == crate::group::groups_view(groups@),
                    forall|x: int|
                        0 <= x < sv.len() ==> (#[trigger] sv[x]).0.len() == q.projection.len(),
                    e < q.projection.len(),
                    0 <= g <= groups@.len(),
                    sv.len() == groups@.len(),
                    col@.len() == g,
                    forall|x: int| 0 <= x < g ==> (#[trigger] col@[x])@ == sv[x].0[e as int],
                decreases groups@.len() - g,
            {
                proof {
                    assert(sv[g as int].0 == vals_view(groups@[g as int].0@));
                }
                col.push(groups[g].0[e].clone());
                g += 1;
            }
            group_cols.push(col);
            proof {
                assert(vals_view(group_cols@.last()@) =~= Seq::new(
                    sv.len(),
                    |g: int| sv[g].0[e as int],
                ));
            }
            e += 1;
        }

        let mut aggregations: Vec<(Vec<RawVal>, Aggregator)> = Vec::new();
        let mut a: usize = 0;
        while a < aggs.len()
            invariant
                q == self@,
                sv == crate::group::groups_view(groups@),
                aggs@.len() == q.aggregate.len(),
                forall|x: int| 0 <= x < aggs@.len() ==> (#[trigger] aggs@[x]) == q.aggregate[x].0,
                forall|g: int| 0 <= g < sv.len() ==> (#[trigger] sv[g]).1.len() == aggs@.len(),
                0 <= a <= aggs@.len(),
                aggregations@.len() == a,
                forall|x: int|
                    0 <= x < a ==> vals_view((#[trigger] aggregations@[x]).0@) == Seq::new(
                        sv.len(),
                        |g: int| sv[g].1[x],
                    ) && aggregations@[x].1 == q.aggregate[x].0,
            decreases aggs@.len() - a,
        {
            let mut col: Vec<RawVal> = Vec::new();
            let mut g: usize = 0;
            while g < groups.len()
                invariant
                    sv == crate::group::groups_view(groups@),
                    forall|x: int| 0 <= x < sv.len() ==> (#[trigger] sv[x]).1.len() == aggs@.len(),
                    a < aggs@.len(),
                    0 <= g <= groups@.len(),
                    sv.len() == groups@.len(),
                    col@.len() == g,
                    forall|x: int| 0 <= x < g ==> (#[trigger] col@[x])@ == sv[x].1[a as int],
                decreases groups@.len() - g,
            {
                proof {
                    assert(sv[g as int].1 == vals_view(groups@[g as int].1@));
                }
                col.push(groups[g].1[a].clone());
                g += 1;
            }
            aggregations.push((col, aggs[a]));
            proof {
                assert(vals_view(aggregations@.last().0@) =~= Seq::new(
                    sv.len(),
                    |g: int| sv[g].1[a as int],
                ));
            }
            a += 1;
        }

        Ok(
            BatchResult {
                group_cols,
                projection: Vec::new(),
                aggregations,
                order_by: Vec::new(),
                level: 0,
                batch_count: 1,
            },
        )
    }
}

/// The value buffers of an `ORDER BY` output list.
pub open spec fn obufs_view(v: Seq<(Vec<RawVal>, bool)>) -> Seq<Seq<ValView>> {
    v.map_values(|p: (Vec<RawVal>, bool)| vals_view(p.0@))
}

/// If some projection expression cannot be evaluated, the whole projection
/// cannot.
proof fn lemma_proj_cols_none(
    exprs: Seq<ExprView>,
    cols: Seq<(Seq<char>, Seq<ValView>)>,
    sel: Seq<usize>,
    p: int,
)
    requires
        0 <= p < exprs.len(),
        eval_col(exprs[p], cols, sel) is None,
    ensures
        proj_cols(exprs, cols, sel) is None,
    decreases exprs.len(),
{
    if exprs.len() > 0 {
        if p == exprs.len() - 1 {
            assert(exprs.last() == exprs[p]);
        } else {
            assert(exprs.drop_last()[p] == exprs[p]);
            lemma_proj_cols_none(exprs.drop_last(), cols, sel, p);
        }
    }
}

} // verus!
