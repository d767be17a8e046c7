//! Running a whole query: normalization, per-partition execution, the
//! merge of partition results, the optional post-aggregation pass, and the
//! final limit.

use vstd::prelude::*;

use crate::error::QueryError;
use crate::expr::Aggregator;
use crate::group::group_agg;
use crate::query::{result_names, NormalFormQuery, Query};

use crate::strutil::synth_col_name;
use crate::val::RawVal;

verus! {

/// The rows a query returns, with their display column names.
#[derive(Debug)]
pub struct QueryResults {
    pub colnames: Vec<String>,
    pub rows: Vec<Vec<RawVal>>,
}

/// Every row has one cell per column name.
pub open spec fn results_wf(r: QueryResults) -> bool {
    forall|i: int| 0 <= i < r.rows@.len() ==> (#[trigger] r.rows@[i])@.len() == r.colnames@.len()
}

/// The aggregator that merges partition-level accumulators of `a`: counts
/// are summed; the others merge as themselves.
pub fn merge_aggregator(a: Aggregator) -> (r: Aggregator)
    ensures
        a == Aggregator::Count ==> r == Aggregator::SumI64,
        a != Aggregator::Count ==> r == a,
{
    match a {
        Aggregator::Count => Aggregator::SumI64,
        _ => a,
    }
}

/// The shared column length of a partition's columns.
pub open spec fn part_n(cols: Vec<(String, Vec<RawVal>)>) -> nat {
    if cols@.len() == 0 {
        0
    } else {
        cols@[0].1@.len()
    }
}

/// The combined row count of a selection pass over a partition list.
pub open spec fn stacked_total(
    q: crate::query::NormalFormQueryView,
    parts: Seq<Vec<(String, Vec<RawVal>)>>,
    upto: int,
) -> int
    decreases upto,
{
    if upto <= 0 {
        0
    } else {
        stacked_total(q, parts, upto - 1) + crate::run::run_len(
            q,
            crate::eval::cols_view(parts[upto - 1]@),
            part_n(parts[upto - 1]),
        )
    }
}

/// The combined row count grows with the prefix.
proof fn lemma_stacked_total_mono(
    q: crate::query::NormalFormQueryView,
    parts: Seq<Vec<(String, Vec<RawVal>)>>,
    a: int,
    b: int,
)
    requires
        a <= b,
    ensures
        stacked_total(q, parts, a) <= stacked_total(q, parts, b),
    decreases b - a,
{
    if a < b {
        lemma_stacked_total_mono(q, parts, a, b - 1);
        crate::run::lemma_run_spec_shape(
            q,
            crate::eval::cols_view(parts[b - 1]@),
            part_n(parts[b - 1]),
        );
    }
}

/// The number of rows a limit clause keeps of `total` rows.
pub open spec fn window_len(total: nat, offset: u64, limit: u64) -> nat {
    if offset >= total {
        0
    } else if total - offset >= limit {
        limit as nat
    } else {
        (total - offset) as nat
    }
}

/// The rows of the given columns, after skipping `offset` rows and keeping
/// at most `limit`: row `x` of the result is row `offset + x` of the
/// columns.
fn take_rows(cols: &Vec<Vec<RawVal>>, total: usize, offset: u64, limit: u64) -> (r: Vec<
    Vec<RawVal>,
>)
    requires
        forall|j: int| 0 <= j < cols@.len() ==> (#[trigger] cols@[j])@.len() == total,
    ensures
        r@.len() == window_len(total as nat, offset, limit),
        forall|x: int| 0 <= x < r@.len() ==> (#[trigger] r@[x])@.len() == cols@.len(),
        forall|x: int, j: int|
            0 <= x < r@.len() && 0 <= j < cols@.len() ==> (#[trigger] r@[x]@[j])@ == cols@[j]@[
                offset + x]@,
{
    let mut rows: Vec<Vec<RawVal>> = Vec::new();
    let mut i: usize = 0;
    let mut taken: u64 = 0;
    while i < total
        invariant
            forall|j: int| 0 <= j < cols@.len() ==> (#[trigger] cols@[j])@.len() == total,
            0 <= i <= total,
            taken == rows@.len(),
            rows@.len() == window_len(i as nat, offset, limit),
            forall|x: int| 0 <= x < rows@.len() ==> (#[trigger] rows@[x])@.len() == cols@.len(),
            forall|x: int, j: int|
                0 <= x < rows@.len() && 0 <= j < cols@.len() ==> (#[trigger] rows@[x]@[j])@
                    == cols@[j]@[offset + x]@,
        decreases total - i,
    {
        if (i as u64) >= offset && taken < limit {
            let mut row: Vec<RawVal> = Vec::new();
            let mut j: usize = 0;
            while j < cols.len()
                invariant
                    forall|x: int| 0 <= x < cols@.len() ==> (#[trigger] cols@[x])@.len() == total,
                    i < total,
                    0 <= j <= cols@.len(),
                    row@.len() == j,
                    forall|y: int| 0 <= y < j ==> (#[trigger] row@[y])@ == cols@[y]@[i as int]@,
                decreases cols@.len() - j,
            {
                row.push(cols[j][i].clone());
                j += 1;
            }
            proof {
                assert(i == offset + rows@.len());
            }
            rows.push(row);
            taken = taken + 1;
        }
        i += 1;
    }
    rows
}

/// The length every column of a partition shares; a partition whose
/// columns disagree is rejected by validation downstream.
fn partition_len(cols: &Vec<(String, Vec<RawVal>)>) -> (r: usize)
    ensures
        r == (if cols@.len() == 0 {
            0int
        } else {
            cols@[0].1@.len() as int
        }),
{
    if cols.len() == 0 {
        0
    } else {
        cols[0].1.len()
    }
}

/// The fatal error for a partition result that fails validation.
fn invalid_batch() -> (r: QueryError)
    ensures
        r is FatalError,
{
    QueryError::FatalError("partition result failed validation".to_owned())
}

/// Appends `col` to the column at `target[j]`.
fn append_col(target: &mut Vec<Vec<RawVal>>, j: usize, mut col: Vec<RawVal>)
    requires
        j < old(target)@.len(),
    ensures
        final(target)@.len() == old(target)@.len(),
        final(target)@[j as int]@.len() == old(target)@[j as int]@.len() + col@.len(),
        forall|x: int|
            0 <= x < old(target)@.len() && x != j ==> (#[trigger] final(target)@[x]) == old(
                target,
            )@[x],
{
    let mut buf: Vec<RawVal> = Vec::new();
    core::mem::swap(&mut buf, &mut target[j]);
    buf.append(&mut col);
    target.set(j, buf);
}

/// Runs an aggregate-free pass over every partition and stacks the
/// per-partition outputs: the projected columns, and the ordering columns
/// for a final cross-partition sort.
fn run_stacked(q: &NormalFormQuery, partitions: &Vec<Vec<(String, Vec<RawVal>)>>) -> (r: Result<
    (Vec<Vec<RawVal>>, Vec<(Vec<RawVal>, bool)>, usize),
    QueryError,
>)
    ensures
        r matches Ok(out) ==> {
            &&& out.0@.len() == q.projection@.len()
            &&& out.1@.len() == q.order_by@.len()
            &&& forall|j: int| 0 <= j < out.0@.len() ==> (#[trigger] out.0@[j])@.len() == out.2
            &&& forall|t: int| 0 <= t < out.1@.len() ==> (#[trigger] out.1@[t]).0@.len() == out.2
        },
        r matches Err(e) ==> ((exists|p: int|
            0 <= p < partitions@.len() && crate::run::run_spec(
                q@,
                crate::eval::cols_view((#[trigger] partitions@[p])@),
                part_n(partitions@[p]),
            ) is None) || e is FatalError) && (e is TypeError || e is FatalError),
        (forall|p: int|
            0 <= p < partitions@.len() ==> crate::run::run_spec(
                q@,
                crate::eval::cols_view((#[trigger] partitions@[p])@),
                part_n(partitions@[p]),
            ) is Some) && stacked_total(q@, partitions@, partitions@.len() as int) <= usize::MAX
            ==> r is Ok,
{
    let mut proj: Vec<Vec<RawVal>> = Vec::new();
    let mut k: usize = 0;
    while k < q.projection.len()
        invariant
            0 <= k <= q.projection@.len(),
            proj@.len() == k,
            forall|j: int| 0 <= j < k ==> (#[trigger] proj@[j])@.len() == 0,
        decreases q.projection@.len() - k,
    {
        proj.push(Vec::new());
        k += 1;
    }
    let mut ord: Vec<(Vec<RawVal>, bool)> = Vec::new();
    let mut k: usize = 0;
    while k < q.order_by.len()
        invariant
            0 <= k <= q.order_by@.len(),
            ord@.len() == k,
            forall|t: int| 0 <= t < k ==> (#[trigger] ord@[t]).0@.len() == 0,
        decreases q.order_by@.len() - k,
    {
        ord.push((Vec::new(), q.order_by[k].1));
        k += 1;
    }
    let mut total: usize = 0;
    let mut p: usize = 0;
    while p < partitions.len()
        invariant
            proj@.len() == q.projection@.len(),
            ord@.len() == q.order_by@.len(),
            forall|j: int| 0 <= j < proj@.len() ==> (#[trigger] proj@[j])@.len() == total,
            forall|t: int| 0 <= t < ord@.len() ==> (#[trigger] ord@[t]).0@.len() == total,
            0 <= p <= partitions@.len(),
            (forall|x: int|
                0 <= x < partitions@.len() ==> crate::run::run_spec(
                    q@,
                    crate::eval::cols_view((#[trigger] partitions@[x])@),
                    part_n(partitions@[x]),
                ) is Some) ==> total == stacked_total(q@, partitions@, p as int),
        decreases partitions@.len() - p,
    {
        let cols = &partitions[p];
        let n = partition_len(cols);
        let batch = match q.run(cols, n) {
            Ok(b) => b,
            Err(e) => {
                proof {
                    assert(crate::run::run_spec(
                        q@,
                        crate::eval::cols_view(partitions@[p as int]@),
                        part_n(partitions@[p as int]),
                    ) is None);
                }
                return Err(e);
            },
        };
        let ghost cv_p = crate::eval::cols_view(partitions@[p as int]@);
        let ghost n_p = part_n(partitions@[p as int]);
        let ghost sp = crate::run::run_spec(q@, cv_p, n_p)->Some_0;
        let ghost rl = crate::run::run_len(q@, cv_p, n_p);
        proof {
            crate::run::lemma_run_spec_shape(q@, cv_p, n_p);
            assert(crate::run::bufs_view(batch.projection@).len() == batch.projection@.len());
        }
        // Validate the batch's shape, as the original validates each
        // partition result before merging.
        if batch.projection.len() != proj.len() || batch.order_by.len() != ord.len() {
            proof {
                assert(false);
            }
            return Err(invalid_batch());
        }
        let added: usize = if batch.projection.len() > 0 {
            batch.projection[0].len()
        } else if batch.order_by.len() > 0 {
            batch.order_by[0].0.len()
        } else {
            0
        };
        proof {
            if batch.projection@.len() > 0 {
                assert(crate::run::bufs_view(batch.projection@)[0] == sp.0[0]);
                assert(added as int == rl);
            } else if batch.order_by@.len() > 0 {
                assert(crate::scratchpad::vals_view(batch.order_by@[0].0@) == sp.1[0]);
                assert(added as int == rl);
            } else {
                assert(added as int == rl);
            }
        }
        if total > usize::MAX - added {
            proof {
                if (forall|x: int|
                    0 <= x < partitions@.len() ==> crate::run::run_spec(
                        q@,
                        crate::eval::cols_view((#[trigger] partitions@[x])@),
                        part_n(partitions@[x]),
                    ) is Some) && stacked_total(q@, partitions@, partitions@.len() as int)
                    <= usize::MAX {
                    assert(total == stacked_total(q@, partitions@, p as int));
                    assert(stacked_total(q@, partitions@, p + 1) == stacked_total(
                        q@,
                        partitions@,
                        p as int,
                    ) + rl);
                    lemma_stacked_total_mono(q@, partitions@, p + 1, partitions@.len() as int);
                    assert(false);
                }
            }
            return Err(QueryError::FatalError("result too large".to_owned()));
        }
        let mut bp = batch.projection;
        proof {
            assert forall|x: int| 0 <= x < bp@.len() implies (#[trigger] bp@[x])@.len()
                == added by {
                assert(crate::run::bufs_view(bp@)[x] == sp.0[x]);
            }
        }
        let mut j: usize = 0;
        while j < proj.len()
            invariant
                proj@.len() == q.projection@.len(),
                ord@.len() == q.order_by@.len(),
                bp@.len() == proj@.len() - j,
                total <= usize::MAX - added,
                forall|x: int| 0 <= x < bp@.len() ==> (#[trigger] bp@[x])@.len() == added,
                forall|x: int| 0 <= x < j ==> (#[trigger] proj@[x])@.len() == total + added,
                forall|x: int| j <= x < proj@.len() ==> (#[trigger] proj@[x])@.len() == total,
                forall|t: int| 0 <= t < ord@.len() ==> (#[trigger] ord@[t]).0@.len() == total,
            decreases proj@.len() - j,
        {
            let ghost bp_pre = bp@;
            let col = bp.remove(0);
            proof {
                assert(col@.len() == added);
                assert forall|x: int| 0 <= x < bp@.len() implies (#[trigger] bp@[x])@.len()
                    == added by {
                    assert(bp@[x] == bp_pre[x + 1]);
                }
            }
            if col.len() != added {
                proof {
                    assert(false);
                }
                return Err(invalid_batch());
            }
            append_col(&mut proj, j, col);
            j += 1;
        }
        let mut bo = batch.order_by;
        proof {
            assert forall|x: int| 0 <= x < bo@.len() implies (#[trigger] bo@[x]).0@.len()
                == added by {
                assert(crate::scratchpad::vals_view(bo@[x].0@) == sp.1[x]);
            }
        }
        let mut t: usize = 0;
        while t < ord.len()
            invariant
                proj@.len() == q.projection@.len(),
                ord@.len() == q.order_by@.len(),
                bo@.len() == ord@.len() - t,
                total <= usize::MAX - added,
                forall|x: int| 0 <= x < bo@.len() ==> (#[trigger] bo@[x]).0@.len() == added,
                forall|x: int| 0 <= x < proj@.len() ==> (#[trigger] proj@[x])@.len() == total
                    + added,
                forall|x: int| 0 <= x < t ==> (#[trigger] ord@[x]).0@.len() == total + added,
                forall|x: int| t <= x < ord@.len() ==> (#[trigger] ord@[x]).0@.len() == total,
            decreases ord@.len() - t,
        {
            let ghost bo_pre = bo@;
            let (col, _desc) = bo.remove(0);
            proof {
                assert(col@.len() == added);
                assert forall|x: int| 0 <= x < bo@.len() implies (#[trigger] bo@[x]).0@.len()
                    == added by {
                    assert(bo@[x] == bo_pre[x + 1]);
                }
            }
            if col.len() != added {
                proof {
                    assert(false);
                }
                return Err(invalid_batch());
            }
            let ghost pre = ord@;
            let mut buf: Vec<RawVal> = Vec::new();
            let desc_flag = ord[t].1;
            core::mem::swap(&mut buf, &mut ord[t].0);
            let mut col = col;
            buf.append(&mut col);
            ord.set(t, (buf, desc_flag));
            proof {
                assert forall|x: int|
                    0 <= x < ord@.len() && x != t ==> (#[trigger] ord@[x]) == pre[x] by {}
            }
            t += 1;
        }
        total = total + added;
        proof {
            assert(stacked_total(q@, partitions@, p + 1) == stacked_total(
                q@,
                partitions@,
                p as int,
            ) + rl);
        }
        p += 1;
    }
    Ok((proj, ord, total))
}

/// Sorts the stacked columns by the stacked ordering columns: each key is
/// applied from the last to the first, so the first key decides.
fn sort_stacked(
    proj: &mut Vec<Vec<RawVal>>,
    ord: &Vec<(Vec<RawVal>, bool)>,
    total: usize,
) -> (r: Result<(), QueryError>)
    requires
        forall|j: int| 0 <= j < old(proj)@.len() ==> (#[trigger] old(proj)@[j])@.len() == total,
        forall|t: int| 0 <= t < ord@.len() ==> (#[trigger] ord@[t]).0@.len() == total,
    ensures
        final(proj)@.len() == old(proj)@.len(),
        r is Ok ==> forall|j: int|
            0 <= j < final(proj)@.len() ==> (#[trigger] final(proj)@[j])@.len() == total,
        r is Err ==> final(proj)@ == old(proj)@,
        r matches Err(e) ==> e is FatalError,
        r is Ok,
{
    // The current row order of the stacked result.
    let mut sel: Vec<usize> = Vec::new();
    let mut i: usize = 0;
    while i < total
        invariant
            0 <= i <= total,
            sel@.len() == i,
            forall|x: int| 0 <= x < i ==> (#[trigger] sel@[x]) < total,
        decreases total - i,
    {
        sel.push(i);
        i += 1;
    }
    let mut t: usize = ord.len();
    while t > 0
        invariant
            forall|x: int| 0 <= x < ord@.len() ==> (#[trigger] ord@[x]).0@.len() == total,
            0 <= t <= ord@.len(),
            sel@.len() == total,
            forall|x: int| 0 <= x < sel@.len() ==> (#[trigger] sel@[x]) < total,
        decreases t,
    {
        t -= 1;
        // The ranking in the current order.
        let mut ranking: Vec<RawVal> = Vec::new();
        let mut x: usize = 0;
        while x < sel.len()
            invariant
                t < ord@.len(),
                forall|y: int| 0 <= y < ord@.len() ==> (#[trigger] ord@[y]).0@.len() == total,
                sel@.len() == total,
                forall|y: int| 0 <= y < sel@.len() ==> (#[trigger] sel@[y]) < total,
                0 <= x <= sel@.len(),
                ranking@.len() == x,
            decreases sel@.len() - x,
        {
            ranking.push(ord[t].0[sel[x]].clone());
            x += 1;
        }
        let sorted = crate::sort::sort_indices(&ranking, ord[t].1);
        proof {
            crate::sort::lemma_ssort_bounds(
                ranking@.len() as nat,
                crate::scratchpad::vals_view(ranking@),
                ord@[t as int].1,
            );
        }
        let mut new_sel: Vec<usize> = Vec::new();
        let mut x: usize = 0;
        while x < sorted.len()
            invariant
                forall|y: int| 0 <= y < sorted@.len() ==> (#[trigger] sorted@[y]) < sel@.len(),
                sel@.len() == total,
                forall|y: int| 0 <= y < sel@.len() ==> (#[trigger] sel@[y]) < total,
                0 <= x <= sorted@.len(),
                new_sel@.len() == x,
                forall|y: int| 0 <= y < x ==> (#[trigger] new_sel@[y]) < total,
            decreases sorted@.len() - x,
        {
            new_sel.push(sel[sorted[x]]);
            x += 1;
        }
        if new_sel.len() != total {
            proof {
                assert(false);
            }
            return Err(invalid_batch());
        }
        sel = new_sel;
    }
    // Apply the final order to every projected column.
    let ghost pre = proj@;
    let count = proj.len();
    let mut j: usize = 0;
    while j < count
        invariant
            count == proj@.len(),
            proj@.len() == pre.len(),
            sel@.len() == total,
            forall|y: int| 0 <= y < sel@.len() ==> (#[trigger] sel@[y]) < total,
            forall|x: int| 0 <= x < j ==> (#[trigger] proj@[x])@.len() == total,
            forall|x: int| j <= x < proj@.len() ==> (#[trigger] proj@[x])@.len() == total,
            0 <= j <= count,
        decreases count - j,
    {
        let mut gathered: Vec<RawVal> = Vec::new();
        let mut x: usize = 0;
        while x < sel.len()
            invariant
                j < proj@.len(),
                proj@[j as int]@.len() == total,
                sel@.len() == total,
                forall|y: int| 0 <= y < sel@.len() ==> (#[trigger] sel@[y]) < total,
                0 <= x <= sel@.len(),
                gathered@.len() == x,
            decreases sel@.len() - x,
        {
            gathered.push(proj[j][sel[x]].clone());
            x += 1;
        }
        proj.set(j, gathered);
        j += 1;
    }
    Ok(())
}

impl Query {
    /// Runs the query over the given partitions: normalizes it, runs the
    /// primary pass on every partition, merges the partition results
    /// (re-aggregating grouped results, re-sorting ordered ones), runs
    /// the post pass when normalization produced one, and applies the
    /// limit clause.  Every returned row has one cell per column name.
    pub fn run_on_partitions(&self, partitions: &Vec<Vec<(String, Vec<RawVal>)>>) -> (r: Result<
        QueryResults,
        QueryError,
    >)
        ensures
            r matches Ok(res) ==> {
                &&& results_wf(res)
                &&& crate::query::normalize_spec(self@) matches Some(np)
                    && res.colnames@.map_values(|s: String| s@) == result_names(
                    match np.1 {
                        Some(q2) => q2,
                        None => np.0,
                    },
                )
            },
            r matches Err(e) ==> crate::query::normalize_spec(self@) is None || e is TypeError
                || e is FatalError,
            ({
                &&& crate::query::normalize_spec(self@) matches Some(np)
                &&& np.1 is None
                &&& np.0.aggregate.len() == 0
                &&& crate::query::all_named(np.0)
                &&& forall|p: int|
                    0 <= p < partitions@.len() ==> crate::run::run_spec(
                        np.0,
                        crate::eval::cols_view((#[trigger] partitions@[p])@),
                        part_n(partitions@[p]),
                    ) is Some
                &&& stacked_total(np.0, partitions@, partitions@.len() as int) <= usize::MAX
            }) ==> r is Ok,
    {
        let (primary, post) = match self.normalize() {
            Ok(p) => p,
            Err(e) => {
                return Err(e);
            },
        };
        // The stacked result columns of the primary pass, named
        // positionally: non-aggregate columns first, aggregations after.
        let (mut cols, total) = if primary.aggregate.len() == 0 {
            let (mut proj, ord, total) = match run_stacked(&primary, partitions) {
                Ok(out) => out,
                Err(e) => {
                    return Err(e);
                },
            };
            if ord.len() > 0 {
                match sort_stacked(&mut proj, &ord, total) {
                    Ok(()) => {},
                    Err(e) => {
                        return Err(e);
                    },
                }
            }
            (proj, total)
        } else {
            match run_merged_aggregate(&primary, partitions) {
                Ok(out) => out,
                Err(e) => {
                    return Err(e);
                },
            }
        };
        match post {
            None => {
                let colnames = match primary.result_column_names() {
                    Ok(n) => n,
                    Err(e) => {
                        return Err(e);
                    },
                };
                if colnames.len() != cols.len() {
                    proof {
                        assert(colnames@.map_values(|s: String| s@).len() == colnames@.len());
                    }
                    return Err(invalid_batch());
                }
                let rows = take_rows(&cols, total, primary.limit.offset, primary.limit.limit);
                Ok(QueryResults { colnames, rows })
            },
            Some(post_query) => {
                // The post pass reads the primary's result columns under
                // their synthetic names.
                let named = name_primary_columns(&primary, cols, total);
                let (mut proj2, ord2, total2) = match run_stacked(
                    &post_query,
                    &vec_of_one(named),
                ) {
                    Ok(out) => out,
                    Err(e) => {
                        return Err(e);
                    },
                };
                if ord2.len() > 0 {
                    match sort_stacked(&mut proj2, &ord2, total2) {
                        Ok(()) => {},
                        Err(e) => {
                            return Err(e);
                        },
                    }
                }
                let colnames = match post_query.result_column_names() {
                    Ok(n) => n,
                    Err(e) => {
                        return Err(e);
                    },
                };
                if colnames.len() != proj2.len() {
                    return Err(invalid_batch());
                }
                let rows = take_rows(
                    &proj2,
                    total2,
                    post_query.limit.offset,
                    post_query.limit.limit,
                );
                Ok(QueryResults { colnames, rows })
            },
        }
    }
}

/// A one-element list of partitions.
fn vec_of_one(p: Vec<(String, Vec<RawVal>)>) -> (r: Vec<Vec<(String, Vec<RawVal>)>>)
    ensures
        r@.len() == 1,
{
    let mut r: Vec<Vec<(String, Vec<RawVal>)>> = Vec::new();
    r.push(p);
    r
}

/// Names the primary pass's result columns positionally: the
/// non-aggregate columns `_cs0, _cs1, ..` then the aggregations
/// `_ca0, _ca1, ..`, as normalization referred to them.
fn name_primary_columns(
    primary: &NormalFormQuery,
    cols: Vec<Vec<RawVal>>,
    total: usize,
) -> (r: Vec<(String, Vec<RawVal>)>)
    ensures
        r@.len() == cols@.len(),
        forall|j: int|
            0 <= j < cols@.len() ==> crate::scratchpad::vals_view((#[trigger] r@[j]).1@)
                == crate::scratchpad::vals_view(cols@[j]@) && r@[j].0@ == (if j < primary.projection@.len() {
                crate::query::cs_name(j as nat)
            } else {
                crate::query::ca_name((j - primary.projection@.len()) as nat)
            }),
{
    let sel_count = primary.projection.len();
    let mut named: Vec<(String, Vec<RawVal>)> = Vec::new();
    let src = cols;
    let mut j: usize = 0;
    while j < src.len()
        invariant
            sel_count == primary.projection@.len(),
            0 <= j <= src@.len(),
            named@.len() == j,
            forall|x: int|
                0 <= x < j ==> crate::scratchpad::vals_view((#[trigger] named@[x]).1@)
                    == crate::scratchpad::vals_view(src@[x]@) && named@[x].0@ == (if x < primary.projection@.len() {
                    crate::query::cs_name(x as nat)
                } else {
                    crate::query::ca_name((x - primary.projection@.len()) as nat)
                }),
        decreases src@.len() - j,
    {
        let name = if j < sel_count {
            synth_col_name("_cs", j as u64)
        } else {
            synth_col_name("_ca", (j - sel_count) as u64)
        };
        named.push((name, clone_vals_exact(&src[j])));
        j += 1;
    }
    named
}

/// A copy of a value buffer, element for element.
fn clone_vals_exact(v: &Vec<RawVal>) -> (r: Vec<RawVal>)
    ensures
        crate::scratchpad::vals_view(r@) == crate::scratchpad::vals_view(v@),
{
    let mut r: Vec<RawVal> = Vec::new();
    let mut i: usize = 0;
    while i < v.len()
        invariant
            0 <= i <= v@.len(),
            r@.len() == i,
            forall|k: int| 0 <= k < i ==> (#[trigger] r@[k])@ == v@[k]@,
        decreases v@.len() - i,
    {
        r.push(v[i].clone());
        i += 1;
    }
    proof {
        assert(crate::scratchpad::vals_view(r@) =~= crate::scratchpad::vals_view(v@));
    }
    r
}

/// Runs the aggregation pass on every partition and merges the per-
/// partition groups by re-aggregating them: counts are summed, the other
/// accumulators merge as themselves.  Returns the merged grouping columns
/// followed by the merged aggregation columns.
fn run_merged_aggregate(q: &NormalFormQuery, partitions: &Vec<Vec<(String, Vec<RawVal>)>>) -> (r:
    Result<(Vec<Vec<RawVal>>, usize), QueryError>)
    ensures
        r matches Ok(out) ==> forall|j: int|
            0 <= j < out.0@.len() ==> (#[trigger] out.0@[j])@.len() == out.1,
        r matches Err(e) ==> ((exists|p: int|
            0 <= p < partitions@.len() && crate::run::agg_spec(
                q@,
                crate::eval::cols_view((#[trigger] partitions@[p])@),
                part_n(partitions@[p]),
            ) is None) || e is TypeError || e is FatalError) && (e is TypeError
            || e is FatalError),
{
    let key_count = q.projection.len();
    let agg_count = q.aggregate.len();
    // Stacked group rows across partitions.
    let mut keys: Vec<Vec<RawVal>> = Vec::new();
    let mut inputs: Vec<Vec<RawVal>> = Vec::new();
    let mut a: usize = 0;
    while a < agg_count
        invariant
            0 <= a <= agg_count,
            inputs@.len() == a,
            forall|x: int| 0 <= x < a ==> (#[trigger] inputs@[x])@.len() == 0,
        decreases agg_count - a,
    {
        inputs.push(Vec::new());
        a += 1;
    }
    let mut merge_aggs: Vec<Aggregator> = Vec::new();
    let mut a: usize = 0;
    while a < agg_count
        invariant
            agg_count == q.aggregate@.len(),
            0 <= a <= agg_count,
            merge_aggs@.len() == a,
        decreases agg_count - a,
    {
        merge_aggs.push(merge_aggregator(q.aggregate[a].0));
        a += 1;
    }
    let mut p: usize = 0;
    while p < partitions.len()
        invariant
            inputs@.len() == agg_count,
            forall|x: int| 0 <= x < inputs@.len() ==> (#[trigger] inputs@[x])@.len()
                == keys@.len(),
            forall|x: int| 0 <= x < keys@.len() ==> (#[trigger] keys@[x])@.len() == key_count,
            0 <= p <= partitions@.len(),
        decreases partitions@.len() - p,
    {
        let cols = &partitions[p];
        let n = partition_len(cols);
        let batch = match q.run_aggregate(cols, n) {
            Ok(b) => b,
            Err(e) => {
                proof {
                    assert(crate::run::agg_spec(
                        q@,
                        crate::eval::cols_view(partitions@[p as int]@),
                        part_n(partitions@[p as int]),
                    ) is None);
                }
                return Err(e);
            },
        };
        if batch.group_cols.len() != key_count || batch.aggregations.len() != agg_count {
            return Err(invalid_batch());
        }
        let glen: usize = if key_count > 0 {
            batch.group_cols[0].len()
        } else if agg_count > 0 {
            batch.aggregations[0].0.len()
        } else {
            0
        };
        // Validate the batch's shape before merging.
        let mut e: usize = 0;
        while e < key_count
            invariant
                key_count == batch.group_cols@.len(),
                0 <= e <= key_count,
                forall|x: int| 0 <= x < e ==> (#[trigger] batch.group_cols@[x])@.len() == glen,
            decreases key_count - e,
        {
            if batch.group_cols[e].len() != glen {
                return Err(invalid_batch());
            }
            e += 1;
        }
        let mut a: usize = 0;
        while a < agg_count
            invariant
                agg_count == batch.aggregations@.len(),
                0 <= a <= agg_count,
                forall|x: int| 0 <= x < a ==> (#[trigger] batch.aggregations@[x]).0@.len()
                    == glen,
            decreases agg_count - a,
        {
            if batch.aggregations[a].0.len() != glen {
                return Err(invalid_batch());
            }
            a += 1;
        }
        // Append each group row.
        let mut g: usize = 0;
        while g < glen
            invariant
                key_count == batch.group_cols@.len(),
                agg_count == batch.aggregations@.len(),
                forall|x: int| 0 <= x < key_count ==> (#[trigger] batch.group_cols@[x])@.len()
                    == glen,
                forall|x: int| 0 <= x < agg_count ==> (#[trigger] batch.aggregations@[x]).0@.len()
                    == glen,
                inputs@.len() == agg_count,
                forall|x: int| 0 <= x < inputs@.len() ==> (#[trigger] inputs@[x])@.len()
                    == keys@.len(),
                forall|x: int| 0 <= x < keys@.len() ==> (#[trigger] keys@[x])@.len() == key_count,
                0 <= g <= glen,
            decreases glen - g,
        {
            let mut key_row: Vec<RawVal> = Vec::new();
            let mut e: usize = 0;
            while e < key_count
                invariant
                    g < glen,
                    key_count == batch.group_cols@.len(),
                    forall|x: int| 0 <= x < key_count ==> (#[trigger] batch.group_cols@[
                        x])@.len() == glen,
                    0 <= e <= key_count,
                    key_row@.len() == e,
                decreases key_count - e,
            {
                key_row.push(batch.group_cols[e][g].clone());
                e += 1;
            }
            keys.push(key_row);
            let mut a: usize = 0;
            while a < agg_count
                invariant
                    g < glen,
                    agg_count == batch.aggregations@.len(),
                    forall|x: int| 0 <= x < agg_count ==> (#[trigger] batch.aggregations@[
                        x]).0@.len() == glen,
                    inputs@.len() == agg_count,
                    keys@.len() > 0,
                    forall|x: int| 0 <= x < a ==> (#[trigger] inputs@[x])@.len() == keys@.len(),
                    forall|x: int| a <= x < inputs@.len() ==> (#[trigger] inputs@[x])@.len()
                        == keys@.len() - 1,
                    0 <= a <= agg_count,
                decreases agg_count - a,
            {
                append_col(&mut inputs, a, vec_one(batch.aggregations[a].0[g].clone()));
                a += 1;
            }
            g += 1;
        }
        p += 1;
    }
    let merged = match group_agg(&keys, &merge_aggs, &inputs) {
        Ok(m) => m,
        Err(e) => {
            return Err(e);
        },
    };
    // The merged groups leave in ascending key order, so the result does
    // not depend on the order the partitions arrived in.
    let merged = crate::group::sort_groups(&merged);
    // Transpose the merged groups back into columns.
    let glen = merged.len();
    let mut out: Vec<Vec<RawVal>> = Vec::new();
    let mut e: usize = 0;
    while e < key_count
        invariant
            0 <= e <= key_count,
            out@.len() == e,
            forall|x: int| 0 <= x < e ==> (#[trigger] out@[x])@.len() == glen,
            glen == merged@.len(),
        decreases key_count - e,
    {
        let mut col: Vec<RawVal> = Vec::new();
        let mut g: usize = 0;
        while g < glen
            invariant
                glen == merged@.len(),
                0 <= g <= glen,
                col@.len() == g,
            decreases glen - g,
        {
            if e < merged[g].0.len() {
                col.push(merged[g].0[e].clone());
            } else {
                col.push(RawVal::Null);
            }
            g += 1;
        }
        out.push(col);
        e += 1;
    }
    let mut a: usize = 0;
    while a < agg_count
        invariant
            out@.len() == key_count + a,
            0 <= a <= agg_count,
            forall|x: int| 0 <= x < out@.len() ==> (#[trigger] out@[x])@.len() == glen,
            glen == merged@.len(),
        decreases agg_count - a,
    {
        let mut col: Vec<RawVal> = Vec::new();
        let mut g: usize = 0;
        while g < glen
            invariant
                glen == merged@.len(),
                0 <= g <= glen,
                col@.len() == g,
            decreases glen - g,
        {
            if a < merged[g].1.len() {
                col.push(merged[g].1[a].clone());
            } else {
                col.push(RawVal::Null);
            }
            g += 1;
        }
        out.push(col);
        a += 1;
    }
    Ok((out, glen))
}

/// A one-element value buffer.
fn vec_one(v: RawVal) -> (r: Vec<RawVal>)
    ensures
        r@.len() == 1,
{
    let mut r: Vec<RawVal> = Vec::new();
    r.push(v);
    r
}

} // verus!
