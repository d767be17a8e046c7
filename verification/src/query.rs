//! Queries and their normal form.
//!
//! A [`Query`] is what the parser produces; [`Query::normalize`] splits it
//! into a primary [`NormalFormQuery`] whose expressions are aggregate-free,
//! plus an optional post-aggregation pass that carries the ordering and the
//! limit when aggregates and `ORDER BY` coexist or when a final projection is
//! not a bare column reference.

use vstd::prelude::*;

use crate::error::QueryError;
use crate::expr::{
    distinct_names, has_aggregates, name_set, referenced_cols, Aggregator, Expr, ExprView,
    LimitClause,
};
use crate::val::{RawVal, ValView};

verus! {

/// Mathematical model of a [`ColumnInfo`].
pub struct ColumnInfoView {
    pub expr: ExprView,
    pub name: Option<Seq<char>>,
}

/// A selected or aggregated expression together with its display name.
#[derive(Debug)]
pub struct ColumnInfo {
    pub expr: Expr,
    pub name: Option<String>,
}

/// The view of an optional name.
pub open spec fn opt_name_view(o: Option<String>) -> Option<Seq<char>> {
    match o {
        Some(s) => Some(s@),
        None => None,
    }
}

impl View for ColumnInfo {
    type V = ColumnInfoView;

    open spec fn view(&self) -> ColumnInfoView {
        ColumnInfoView { expr: self.expr@, name: opt_name_view(self.name) }
    }
}

impl Clone for ColumnInfo {
    fn clone(&self) -> (res: Self)
        ensures
            res@ == self@,
    {
        ColumnInfo { expr: self.expr.clone(), name: clone_opt_name(&self.name) }
    }
}

/// Clones an optional column name.
pub fn clone_opt_name(o: &Option<String>) -> (r: Option<String>)
    ensures
        opt_name_view(r) == opt_name_view(*o),
{
    match o {
        Some(s) => Some(s.clone()),
        None => None,
    }
}

/// The views of a list of column infos.
pub open spec fn ci_views(v: Seq<ColumnInfo>) -> Seq<ColumnInfoView> {
    v.map_values(|ci: ColumnInfo| ci@)
}

/// The views of an aggregate list.
pub open spec fn agg_views(v: Seq<(Aggregator, ColumnInfo)>) -> Seq<(Aggregator, ColumnInfoView)> {
    v.map_values(|a: (Aggregator, ColumnInfo)| (a.0, a.1@))
}

/// The views of an `ORDER BY` list (`true` means descending).
pub open spec fn ob_views(v: Seq<(Expr, bool)>) -> Seq<(ExprView, bool)> {
    v.map_values(|a: (Expr, bool)| (a.0@, a.1))
}

/// Mathematical model of a [`Query`].
pub struct QueryView {
    pub select: Seq<ColumnInfoView>,
    pub table: Seq<char>,
    pub filter: ExprView,
    pub order_by: Seq<(ExprView, bool)>,
    pub limit: LimitClause,
}

/// A parsed query: the selected expressions, the table, the filter, the
/// ordering keys (`true` means descending) and the limit clause.
#[derive(Debug, Clone)]
pub struct Query {
    pub select: Vec<ColumnInfo>,
    pub table: String,
    pub filter: Expr,
    pub order_by: Vec<(Expr, bool)>,
    pub limit: LimitClause,
}

impl View for Query {
    type V = QueryView;

    open spec fn view(&self) -> QueryView {
        QueryView {
            select: ci_views(self.select@),
            table: self.table@,
            filter: self.filter@,
            order_by: ob_views(self.order_by@),
            limit: self.limit,
        }
    }
}

/// Mathematical model of a [`NormalFormQuery`].
pub struct NormalFormQueryView {
    pub projection: Seq<ColumnInfoView>,
    pub filter: ExprView,
    pub aggregate: Seq<(Aggregator, ColumnInfoView)>,
    pub order_by: Seq<(ExprView, bool)>,
    pub limit: LimitClause,
}

/// A normalized query pass.
///
/// Its invariants: no expression contains an aggregation function, and if
/// `aggregate` is non-empty then `order_by` is empty.
#[derive(Debug, Clone)]
pub struct NormalFormQuery {
    pub projection: Vec<ColumnInfo>,
    pub filter: Expr,
    pub aggregate: Vec<(Aggregator, ColumnInfo)>,
    pub order_by: Vec<(Expr, bool)>,
    pub limit: LimitClause,
}

impl View for NormalFormQuery {
    type V = NormalFormQueryView;

    open spec fn view(&self) -> NormalFormQueryView {
        NormalFormQueryView {
            projection: ci_views(self.projection@),
            filter: self.filter@,
            aggregate: agg_views(self.aggregate@),
            order_by: ob_views(self.order_by@),
            limit: self.limit,
        }
    }
}

/// The invariants of a normalized pass: every expression is aggregate-free
/// and aggregation excludes ordering.
pub open spec fn normal_form_invariant(n: NormalFormQueryView) -> bool {
    &&& forall|i: int|
        0 <= i < n.projection.len() ==> !has_aggregates(#[trigger] n.projection[i].expr)
    &&& forall|i: int| 0 <= i < n.aggregate.len() ==> !has_aggregates(#[trigger] n.aggregate[i].1.expr)
    &&& forall|i: int| 0 <= i < n.order_by.len() ==> !has_aggregates(#[trigger] n.order_by[i].0)
    &&& n.aggregate.len() > 0 ==> n.order_by.len() == 0
}

impl Query {
    /// Whether the query is `SELECT * FROM ..`: a single selected expression
    /// that is the bare column name `*`.
    pub fn is_select_star(&self) -> (r: bool)
        ensures
            r == (self@.select.len() == 1 && (self@.select[0].expr matches ExprView::ColName(n)
                && n == "*"@)),
    {
        if self.select.len() == 1 {
            match &self.select[0].expr {
                Expr::ColName(name) => {
                    let star: String = "*".to_owned();
                    *name == star
                },
                _ => false,
            }
        } else {
            false
        }
    }

    /// The query with `SELECT *` expanded into one bare reference per
    /// column name, each named after its column; any other query is
    /// returned unchanged.
    pub fn expand_select_star(&self, colnames: &Vec<String>) -> (r: Query)
        ensures
            r.table@ == self@.table,
            r.filter@ == self@.filter,
            ob_views(r.order_by@) == self@.order_by,
            r.limit == self@.limit,
            (self@.select.len() == 1 && (self@.select[0].expr matches ExprView::ColName(n)
                && n == "*"@)) ==> ci_views(r.select@) == colnames@.map_values(
                |s: String|
                    ColumnInfoView {
                        expr: ExprView::ColName(s@),
                        name: Some(s@),
                    },
            ),
            !(self@.select.len() == 1 && (self@.select[0].expr matches ExprView::ColName(n)
                && n == "*"@)) ==> ci_views(r.select@) == self@.select,
    {
        let mut select: Vec<ColumnInfo> = Vec::new();
        if self.is_select_star() {
            let mut i: usize = 0;
            while i < colnames.len()
                invariant
                    0 <= i <= colnames@.len(),
                    select@.len() == i,
                    forall|k: int|
                        0 <= k < i ==> (#[trigger] select@[k])@ == (ColumnInfoView {
                            expr: ExprView::ColName(colnames@[k]@),
                            name: Some(colnames@[k]@),
                        }),
                decreases colnames@.len() - i,
            {
                select.push(
                    ColumnInfo {
                        expr: Expr::ColName(colnames[i].clone()),
                        name: Some(colnames[i].clone()),
                    },
                );
                proof {
                    assert(select@[i as int]@ == (ColumnInfoView {
                        expr: ExprView::ColName(colnames@[i as int]@),
                        name: Some(colnames@[i as int]@),
                    }));
                }
                i += 1;
            }
            proof {
                assert(ci_views(select@) =~= colnames@.map_values(
                    |s: String|
                        ColumnInfoView { expr: ExprView::ColName(s@), name: Some(s@) },
                ));
            }
        } else {
            let mut i: usize = 0;
            while i < self.select.len()
                invariant
                    self@.select.len() == self.select@.len(),
                    0 <= i <= self.select@.len(),
                    select@.len() == i,
                    forall|k: int|
                        0 <= k < i ==> (#[trigger] select@[k])@ == self@.select[k],
                decreases self.select@.len() - i,
            {
                select.push(self.select[i].clone());
                proof {
                    assert(select@[i as int]@ == self.select@[i as int]@);
                }
                i += 1;
            }
            proof {
                assert(ci_views(select@) =~= self@.select);
            }
        }
        Query {
            select,
            table: self.table.clone(),
            filter: self.filter.clone(),
            order_by: clone_order_by(&self.order_by),
            limit: self.limit,
        }
    }

    /// The set of column names referenced anywhere in the query: in the
    /// selected expressions, the ordering keys and the filter.
    pub fn find_referenced_cols(&self) -> (r: Vec<String>)
        ensures
            distinct_names(r@),
            name_set(r@) == query_referenced_cols(self@),
    {
        let mut colnames: Vec<String> = Vec::new();
        let mut i: usize = 0;
        while i < self.select.len()
            invariant
                distinct_names(colnames@),
                name_set(colnames@) == sel_cols(self@.select.take(i as int)),
                0 <= i <= self.select@.len(),
                self@.select.len() == self.select@.len(),
            decreases self.select@.len() - i,
        {
            proof {
                assert(self@.select[i as int] == self.select@[i as int]@);
                lemma_sel_cols_take(self@.select, i as int);
            }
            self.select[i].expr.add_colnames(&mut colnames);
            i += 1;
        }
        proof {
            assert(self@.select.take(self.select@.len() as int) =~= self@.select);
        }
        let mut j: usize = 0;
        while j < self.order_by.len()
            invariant
                distinct_names(colnames@),
                name_set(colnames@) == sel_cols(self@.select).union(
                    ord_cols(self@.order_by.take(j as int)),
                ),
                0 <= j <= self.order_by@.len(),
                self@.order_by.len() == self.order_by@.len(),
            decreases self.order_by@.len() - j,
        {
            proof {
                assert(self@.order_by[j as int] == (self.order_by@[j as int].0@, self.order_by@[
                    j as int].1));
                lemma_ord_cols_take(self@.order_by, j as int);
            }
            self.order_by[j].0.add_colnames(&mut colnames);
            proof {
                assert(name_set(colnames@) =~= sel_cols(self@.select).union(
                    ord_cols(self@.order_by.take(j + 1)),
                ));
            }
            j += 1;
        }
        proof {
            assert(self@.order_by.take(self.order_by@.len() as int) =~= self@.order_by);
        }
        self.filter.add_colnames(&mut colnames);
        proof {
            assert(name_set(colnames@) =~= query_referenced_cols(self@));
        }
        colnames
    }
}

/// The column names referenced by a list of selected expressions.
pub open spec fn sel_cols(items: Seq<ColumnInfoView>) -> Set<Seq<char>>
    decreases items.len(),
{
    if items.len() == 0 {
        Set::empty()
    } else {
        sel_cols(items.drop_last()).union(referenced_cols(items.last().expr))
    }
}

/// The column names referenced by an `ORDER BY` list.
pub open spec fn ord_cols(items: Seq<(ExprView, bool)>) -> Set<Seq<char>>
    decreases items.len(),
{
    if items.len() == 0 {
        Set::empty()
    } else {
        ord_cols(items.drop_last()).union(referenced_cols(items.last().0))
    }
}

/// The column names referenced anywhere in a query.
pub open spec fn query_referenced_cols(q: QueryView) -> Set<Seq<char>> {
    sel_cols(q.select).union(ord_cols(q.order_by)).union(referenced_cols(q.filter))
}

proof fn lemma_sel_cols_take(items: Seq<ColumnInfoView>, i: int)
    requires
        0 <= i < items.len(),
    ensures
        sel_cols(items.take(i + 1)) == sel_cols(items.take(i)).union(
            referenced_cols(items[i].expr),
        ),
{
    assert(items.take(i + 1).drop_last() =~= items.take(i));
    assert(items.take(i + 1).last() == items[i]);
}

proof fn lemma_ord_cols_take(items: Seq<(ExprView, bool)>, i: int)
    requires
        0 <= i < items.len(),
    ensures
        ord_cols(items.take(i + 1)) == ord_cols(items.take(i)).union(referenced_cols(items[i].0)),
{
    assert(items.take(i + 1).drop_last() =~= items.take(i));
    assert(items.take(i + 1).last() == items[i]);
}

impl Query {
    /// Returns `Ok` exactly when `expr` contains no aggregation function;
    /// otherwise reports the nested aggregate as a type error.
    pub fn ensure_no_aggregates(expr: &Expr) -> (r: Result<(), QueryError>)
        ensures
            r is Ok <==> !has_aggregates(expr@),
            r matches Err(e) ==> e is TypeError && e.message_spec()
                == "Nested aggregates found."@,
        decreases expr,
    {
        match expr {
            Expr::Aggregate(_, _) => Err(
                QueryError::TypeError("Nested aggregates found.".to_owned()),
            ),
            Expr::Func1(_, inner) => Query::ensure_no_aggregates(inner),
            Expr::Func2(_, a, b) => {
                match Query::ensure_no_aggregates(a) {
                    Ok(()) => Query::ensure_no_aggregates(b),
                    Err(e) => Err(e),
                }
            },
            Expr::Const(_) | Expr::ColName(_) => Ok(()),
        }
    }
}

/// The synthetic name of the `k`-th extracted aggregate: `_ca` followed by
/// the decimal digits of `k`.
pub open spec fn ca_name(k: nat) -> Seq<char> {
    "_ca"@ + crate::strutil::dec_digits(k)
}

/// The synthetic name of the `k`-th non-aggregate selected expression:
/// `_cs` followed by the decimal digits of `k`.
pub open spec fn cs_name(k: nat) -> Seq<char> {
    "_cs"@ + crate::strutil::dec_digits(k)
}

/// What extracting aggregates from `e` returns when `k` aggregates were
/// extracted before: the expression with each aggregate replaced by a
/// reference to its synthetic column, and the list of extracted aggregates,
/// each carrying the alias.  `None` reports a nested aggregate.
pub open spec fn extract_spec(e: ExprView, k: nat, alias: Option<Seq<char>>) -> Option<
    (ExprView, Seq<(Aggregator, ColumnInfoView)>),
>
    decreases e,
{
    match e {
        ExprView::Aggregate(agg, inner) => {
            if has_aggregates(*inner) {
                None
            } else {
                Some(
                    (
                        ExprView::ColName(ca_name(k)),
                        seq![(agg, ColumnInfoView { expr: *inner, name: alias })],
                    ),
                )
            }
        },
        ExprView::Func1(t, inner) => {
            match extract_spec(*inner, k, alias) {
                None => None,
                Some((e2, aggs)) => Some((ExprView::Func1(t, Box::new(e2)), aggs)),
            }
        },
        ExprView::Func2(t, a, b) => {
            match extract_spec(*a, k, alias) {
                None => None,
                Some((a2, aggs1)) => {
                    match extract_spec(*b, k + aggs1.len(), alias) {
                        None => None,
                        Some((b2, aggs2)) => Some(
                            (ExprView::Func2(t, Box::new(a2), Box::new(b2)), aggs1 + aggs2),
                        ),
                    }
                },
            }
        },
        _ => Some((e, Seq::empty())),
    }
}

/// Extraction succeeds exactly when no aggregate is nested inside another,
/// and everything it returns is aggregate-free.
pub proof fn lemma_extract_spec_no_aggs(e: ExprView, k: nat, alias: Option<Seq<char>>)
    ensures
        extract_spec(e, k, alias) matches Some((e2, aggs)) ==> !has_aggregates(e2) && forall|j: int|
            0 <= j < aggs.len() ==> !has_aggregates(#[trigger] aggs[j].1.expr),
    decreases e,
{
    match e {
        ExprView::Func1(t, inner) => {
            lemma_extract_spec_no_aggs(*inner, k, alias);
        },
        ExprView::Func2(t, a, b) => {
            lemma_extract_spec_no_aggs(*a, k, alias);
            match extract_spec(*a, k, alias) {
                Some((a2, aggs1)) => {
                    lemma_extract_spec_no_aggs(*b, k + aggs1.len(), alias);
                },
                None => {},
            }
        },
        _ => {},
    }
}

impl Query {
    /// Replaces every aggregate inside `expr` by a reference to a synthetic
    /// `_caN` column, pushing each synthetic name onto `column_names` and
    /// returning the rewritten expression together with the extracted
    /// aggregates.  Fails with a type error exactly when an aggregate is
    /// nested inside another.
    pub fn extract_aggregators(
        expr: &Expr,
        column_names: &mut Vec<String>,
        alias: Option<String>,
    ) -> (r: Result<(Expr, Vec<(Aggregator, ColumnInfo)>), QueryError>)
        ensures
            r matches Ok(p) ==> {
                &&& extract_spec(expr@, old(column_names)@.len() as nat, opt_name_view(alias))
                    == Some((p.0@, agg_views(p.1@)))
                &&& final(column_names)@.len() == old(column_names)@.len() + p.1@.len()
                &&& forall|i: int|
                    0 <= i < old(column_names)@.len() ==> (#[trigger] final(column_names)@[i])@
                        == old(column_names)@[i]@
                &&& forall|i: int|
                    0 <= i < p.1@.len() ==> (#[trigger] final(column_names)@[old(
                        column_names,
                    )@.len() + i])@ == ca_name((old(column_names)@.len() + i) as nat)
            },
            r matches Err(e) ==> extract_spec(
                expr@,
                old(column_names)@.len() as nat,
                opt_name_view(alias),
            ) is None && e is TypeError,
        decreases expr,
    {
        match expr {
            Expr::Aggregate(aggregator, inner) => {
                let column_name = crate::strutil::synth_col_name("_ca", column_names.len() as u64);
                column_names.push(column_name.clone());
                match Query::ensure_no_aggregates(inner) {
                    Ok(()) => {
                        let aggs = vec![
                            (*aggregator, ColumnInfo { expr: (**inner).clone(), name: alias }),
                        ];
                        proof {
                            assert(agg_views(aggs@) =~= seq![
                                (*aggregator, ColumnInfoView {
                                    expr: (**inner)@,
                                    name: opt_name_view(alias),
                                }),
                            ]);
                        }
                        Ok((Expr::ColName(column_name), aggs))
                    },
                    Err(e) => Err(e),
                }
            },
            Expr::Func1(t, inner) => {
                match Query::extract_aggregators(inner, column_names, alias) {
                    Ok((e2, aggs)) => Ok((Expr::Func1(*t, Box::new(e2)), aggs)),
                    Err(e) => Err(e),
                }
            },
            Expr::Func2(t, a, b) => {
                match Query::extract_aggregators(a, column_names, clone_opt_name(&alias)) {
                    Ok((e1, mut aggs1)) => {
                        let ghost names1 = column_names@;
                        match Query::extract_aggregators(b, column_names, alias) {
                            Ok((e2, mut aggs2)) => {
                                let ghost aggs1_pre = aggs1@;
                                let ghost aggs2_pre = aggs2@;
                                aggs1.append(&mut aggs2);
                                proof {
                                    assert(agg_views(aggs1@) =~= agg_views(aggs1_pre) + agg_views(
                                        aggs2_pre,
                                    ));
                                    let k0 = old(column_names)@.len() as int;
                                    let n1 = aggs1_pre.len() as int;
                                    assert forall|i: int| 0 <= i < aggs1@.len() implies (
                                    #[trigger] column_names@[k0 + i])@ == ca_name(
                                        (k0 + i) as nat,
                                    ) by {
                                        if i < n1 {
                                            assert(names1[k0 + i]@ == ca_name((k0 + i) as nat));
                                            assert(column_names@[k0 + i]@ == names1[k0 + i]@);
                                        } else {
                                            assert(column_names@[names1.len() + (i - n1)]@
                                                == ca_name((names1.len() + (i - n1)) as nat));
                                        }
                                    }
                                }
                                Ok((Expr::Func2(*t, Box::new(e1), Box::new(e2)), aggs1))
                            },
                            Err(e) => Err(e),
                        }
                    },
                    Err(e) => Err(e),
                }
            },
            Expr::Const(_) => {
                proof {
                    assert(agg_views(Seq::<(Aggregator, ColumnInfo)>::empty()) =~= Seq::<
                        (Aggregator, ColumnInfoView),
                    >::empty());
                }
                Ok((expr.clone(), Vec::new()))
            },
            Expr::ColName(_) => {
                proof {
                    assert(agg_views(Seq::<(Aggregator, ColumnInfo)>::empty()) =~= Seq::<
                        (Aggregator, ColumnInfoView),
                    >::empty());
                }
                Ok((expr.clone(), Vec::new()))
            },
        }
    }
}

/// One step result of select-list normalization: the aggregate-free
/// expressions kept for the primary pass, the extracted aggregates, and the
/// final projection of the optional post pass.
pub open spec fn norm_sel(items: Seq<ColumnInfoView>, ca: nat, cs: nat) -> Option<
    (Seq<ColumnInfoView>, Seq<(Aggregator, ColumnInfoView)>, Seq<ColumnInfoView>),
>
    decreases items.len(),
{
    if items.len() == 0 {
        Some((Seq::empty(), Seq::empty(), Seq::empty()))
    } else {
        let ci = items[0];
        match extract_spec(ci.expr, ca, ci.name) {
            None => None,
            Some((full, aggs)) => {
                if aggs.len() == 0 {
                    let sel0 = ColumnInfoView { expr: full, name: ci.name };
                    let fp0 = ColumnInfoView {
                        expr: ExprView::ColName(cs_name(cs)),
                        name: ci.name,
                    };
                    match norm_sel(items.subrange(1, items.len() as int), ca, cs + 1) {
                        None => None,
                        Some(t) => Some((seq![sel0] + t.0, t.1, seq![fp0] + t.2)),
                    }
                } else {
                    let fp0 = ColumnInfoView { expr: full, name: ci.name };
                    match norm_sel(items.subrange(1, items.len() as int), ca + aggs.len(), cs) {
                        None => None,
                        Some(t) => Some((t.0, aggs + t.1, seq![fp0] + t.2)),
                    }
                }
            },
        }
    }
}

/// One step result of `ORDER BY` normalization under a required post pass:
/// the extra primary projections, the extra aggregates, and the ordering
/// keys of the post pass.
pub open spec fn norm_ord(items: Seq<(ExprView, bool)>, ca: nat, cs: nat) -> Option<
    (Seq<ColumnInfoView>, Seq<(Aggregator, ColumnInfoView)>, Seq<(ExprView, bool)>),
>
    decreases items.len(),
{
    if items.len() == 0 {
        Some((Seq::empty(), Seq::empty(), Seq::empty()))
    } else {
        let e = items[0].0;
        let desc = items[0].1;
        match extract_spec(e, ca, None) {
            None => None,
            Some((full, aggs)) => {
                if aggs.len() == 0 {
                    let sel0 = ColumnInfoView { expr: full, name: None };
                    let ob0 = (ExprView::ColName(cs_name(cs)), desc);
                    match norm_ord(items.subrange(1, items.len() as int), ca, cs + 1) {
                        None => None,
                        Some(t) => Some((seq![sel0] + t.0, t.1, seq![ob0] + t.2)),
                    }
                } else {
                    let ob0 = (full, desc);
                    match norm_ord(items.subrange(1, items.len() as int), ca + aggs.len(), cs) {
                        None => None,
                        Some(t) => Some((t.0, aggs + t.1, seq![ob0] + t.2)),
                    }
                }
            },
        }
    }
}

/// Whether some final projection is not a bare column reference.
pub open spec fn some_complex_projection(fp: Seq<ColumnInfoView>) -> bool {
    exists|i: int| 0 <= i < fp.len() && !((#[trigger] fp[i].expr) is ColName)
}

/// What normalization returns: the primary pass, and the post pass when
/// aggregates coexist with an `ORDER BY` or some final projection is not a
/// bare column reference.  `None` reports a nested aggregate.
pub open spec fn normalize_spec(q: QueryView) -> Option<
    (NormalFormQueryView, Option<NormalFormQueryView>),
> {
    match norm_sel(q.select, 0, 0) {
        None => None,
        Some((sel, aggs, fp)) => {
            let require_final = (aggs.len() > 0 && q.order_by.len() > 0)
                || some_complex_projection(fp);
            if require_final {
                match norm_ord(q.order_by, aggs.len(), sel.len()) {
                    None => None,
                    Some((sel2, aggs2, fob)) => Some(
                        (
                            NormalFormQueryView {
                                projection: sel + sel2,
                                filter: q.filter,
                                aggregate: aggs + aggs2,
                                order_by: Seq::empty(),
                                limit: LimitClause { limit: u64::MAX, offset: 0 },
                            },
                            Some(
                                NormalFormQueryView {
                                    projection: fp,
                                    filter: ExprView::Const(ValView::Int(1)),
                                    aggregate: Seq::empty(),
                                    order_by: fob,
                                    limit: q.limit,
                                },
                            ),
                        ),
                    ),
                }
            } else {
                Some(
                    (
                        NormalFormQueryView {
                            projection: sel,
                            filter: q.filter,
                            aggregate: aggs,
                            order_by: q.order_by,
                            limit: q.limit,
                        },
                        None,
                    ),
                )
            }
        },
    }
}

/// Everything select-list normalization returns is aggregate-free.
pub proof fn lemma_norm_sel_no_aggs(items: Seq<ColumnInfoView>, ca: nat, cs: nat)
    ensures
        norm_sel(items, ca, cs) matches Some((sel, aggs, fp)) ==> {
            &&& forall|i: int| 0 <= i < sel.len() ==> !has_aggregates(#[trigger] sel[i].expr)
            &&& forall|i: int| 0 <= i < aggs.len() ==> !has_aggregates(#[trigger] aggs[i].1.expr)
            &&& forall|i: int| 0 <= i < fp.len() ==> !has_aggregates(#[trigger] fp[i].expr)
        },
    decreases items.len(),
{
    if items.len() > 0 {
        let ci = items[0];
        lemma_extract_spec_no_aggs(ci.expr, ca, ci.name);
        match extract_spec(ci.expr, ca, ci.name) {
            None => {},
            Some((full, aggs0)) => {
                if aggs0.len() == 0 {
                    lemma_norm_sel_no_aggs(items.subrange(1, items.len() as int), ca, cs + 1);
                } else {
                    lemma_norm_sel_no_aggs(
                        items.subrange(1, items.len() as int),
                        ca + aggs0.len(),
                        cs,
                    );
                }
            },
        }
    }
}

/// Everything `ORDER BY` normalization returns is aggregate-free.
pub proof fn lemma_norm_ord_no_aggs(items: Seq<(ExprView, bool)>, ca: nat, cs: nat)
    ensures
        norm_ord(items, ca, cs) matches Some((sel, aggs, fob)) ==> {
            &&& forall|i: int| 0 <= i < sel.len() ==> !has_aggregates(#[trigger] sel[i].expr)
            &&& forall|i: int| 0 <= i < aggs.len() ==> !has_aggregates(#[trigger] aggs[i].1.expr)
            &&& forall|i: int| 0 <= i < fob.len() ==> !has_aggregates(#[trigger] fob[i].0)
        },
    decreases items.len(),
{
    if items.len() > 0 {
        let e = items[0].0;
        lemma_extract_spec_no_aggs(e, ca, None);
        match extract_spec(e, ca, None) {
            None => {},
            Some((full, aggs0)) => {
                if aggs0.len() == 0 {
                    lemma_norm_ord_no_aggs(items.subrange(1, items.len() as int), ca, cs + 1);
                } else {
                    lemma_norm_ord_no_aggs(
                        items.subrange(1, items.len() as int),
                        ca + aggs0.len(),
                        cs,
                    );
                }
            },
        }
    }
}

/// Combines accumulated select-normalization results with the result for the
/// remaining items.
pub open spec fn combine_sel(
    pre_s: Seq<ColumnInfoView>,
    pre_a: Seq<(Aggregator, ColumnInfoView)>,
    pre_f: Seq<ColumnInfoView>,
    rest: Option<(Seq<ColumnInfoView>, Seq<(Aggregator, ColumnInfoView)>, Seq<ColumnInfoView>)>,
) -> Option<(Seq<ColumnInfoView>, Seq<(Aggregator, ColumnInfoView)>, Seq<ColumnInfoView>)> {
    match rest {
        None => None,
        Some(t) => Some((pre_s + t.0, pre_a + t.1, pre_f + t.2)),
    }
}

/// Combines accumulated order-normalization results with the result for the
/// remaining items.
pub open spec fn combine_ord(
    pre_s: Seq<ColumnInfoView>,
    pre_a: Seq<(Aggregator, ColumnInfoView)>,
    pre_o: Seq<(ExprView, bool)>,
    rest: Option<
        (Seq<ColumnInfoView>, Seq<(Aggregator, ColumnInfoView)>, Seq<(ExprView, bool)>),
    >,
) -> Option<(Seq<ColumnInfoView>, Seq<(Aggregator, ColumnInfoView)>, Seq<(ExprView, bool)>)> {
    match rest {
        None => None,
        Some(t) => Some((pre_s + t.0, pre_a + t.1, pre_o + t.2)),
    }
}

/// The view of an optional normalized pass.
pub open spec fn opt_nfq_view(o: Option<NormalFormQuery>) -> Option<NormalFormQueryView> {
    match o {
        Some(q) => Some(q@),
        None => None,
    }
}

/// Whether some entry of `fp` is not a bare column reference.
fn any_not_colname(fp: &Vec<ColumnInfo>) -> (r: bool)
    ensures
        r == some_complex_projection(ci_views(fp@)),
{
    let mut i: usize = 0;
    while i < fp.len()
        invariant
            0 <= i <= fp@.len(),
            forall|k: int| 0 <= k < i ==> (#[trigger] ci_views(fp@)[k].expr) is ColName,
        decreases fp@.len() - i,
    {
        if !matches!(&fp[i].expr, Expr::ColName(_)) {
            proof {
                assert(!((ci_views(fp@)[i as int].expr) is ColName));
            }
            return true;
        }
        i += 1;
    }
    false
}

/// Clones an `ORDER BY` list.
fn clone_order_by(v: &Vec<(Expr, bool)>) -> (r: Vec<(Expr, bool)>)
    ensures
        ob_views(r@) == ob_views(v@),
{
    let mut r: Vec<(Expr, bool)> = Vec::new();
    let mut i: usize = 0;
    while i < v.len()
        invariant
            0 <= i <= v@.len(),
            r@.len() == i,
            forall|k: int|
                0 <= k < i ==> (#[trigger] r@[k]).0@ == v@[k].0@ && r@[k].1 == v@[k].1,
        decreases v@.len() - i,
    {
        r.push((v[i].0.clone(), v[i].1));
        i += 1;
    }
    proof {
        assert(ob_views(r@) =~= ob_views(v@));
    }
    r
}

impl Query {
    /// Splits the query into a primary pass whose expressions are
    /// aggregate-free and, when aggregates coexist with an `ORDER BY` or a
    /// final projection is not a bare column reference, a post pass that
    /// projects the primary's result columns and carries the original
    /// ordering and limit.  Fails with a type error exactly when an
    /// aggregate is nested inside another.
    ///
    /// The primary's projected and aggregated expressions are always
    /// aggregate-free, and a primary with aggregates carries no ordering;
    /// when the query's own `ORDER BY` keys are aggregate-free, the primary
    /// satisfies the full normal-form invariant, as does any post pass.
    pub fn normalize(&self) -> (r: Result<(NormalFormQuery, Option<NormalFormQuery>), QueryError>)
        ensures
            r matches Ok(p) ==> {
                &&& normalize_spec(self@) == Some((p.0@, opt_nfq_view(p.1)))
                &&& forall|i: int|
                    0 <= i < p.0@.projection.len() ==> !has_aggregates(
                        #[trigger] p.0@.projection[i].expr,
                    )
                &&& forall|i: int|
                    0 <= i < p.0@.aggregate.len() ==> !has_aggregates(
                        #[trigger] p.0@.aggregate[i].1.expr,
                    )
                &&& p.0@.aggregate.len() > 0 ==> p.0@.order_by.len() == 0
                &&& (forall|i: int|
                    0 <= i < self@.order_by.len() ==> !has_aggregates(
                        (#[trigger] self@.order_by[i]).0,
                    )) ==> normal_form_invariant(p.0@)
                &&& p.1 matches Some(q2) ==> normal_form_invariant(q2@)
            },
            r matches Err(e) ==> normalize_spec(self@) is None && e is TypeError,
    {
        let mut final_projection: Vec<ColumnInfo> = Vec::new();
        let mut select: Vec<ColumnInfo> = Vec::new();
        let mut aggregate: Vec<(Aggregator, ColumnInfo)> = Vec::new();
        let mut aggregate_colnames: Vec<String> = Vec::new();
        let mut select_colnames: Vec<String> = Vec::new();
        proof {
            assert(self@.select.skip(0) =~= self@.select);
            assert(ci_views(select@) =~= Seq::<ColumnInfoView>::empty());
            assert(agg_views(aggregate@) =~= Seq::<(Aggregator, ColumnInfoView)>::empty());
            assert(ci_views(final_projection@) =~= Seq::<ColumnInfoView>::empty());
            lemma_combine_sel_empty(norm_sel(self@.select, 0, 0));
        }
        let mut i: usize = 0;
        while i < self.select.len()
            invariant
                0 <= i <= self.select@.len(),
                self@.select.len() == self.select@.len(),
                aggregate_colnames@.len() == aggregate@.len(),
                select_colnames@.len() == select@.len(),
                norm_sel(self@.select, 0, 0) == combine_sel(
                    ci_views(select@),
                    agg_views(aggregate@),
                    ci_views(final_projection@),
                    norm_sel(
                        self@.select.skip(i as int),
                        aggregate@.len() as nat,
                        select@.len() as nat,
                    ),
                ),
            decreases self.select@.len() - i,
        {
            let ghost rest = self@.select.skip(i as int);
            proof {
                assert(rest.len() == self.select@.len() - i);
                assert(rest[0] == self@.select[i as int]);
                assert(rest.subrange(1, rest.len() as int) =~= self@.select.skip(i + 1));
                assert(self@.select[i as int] == self.select@[i as int]@);
            }
            let ghost ca_here = aggregate@.len() as nat;
            let ghost cs_here = select@.len() as nat;
            let col_info = &self.select[i];
            match Query::extract_aggregators(
                &col_info.expr,
                &mut aggregate_colnames,
                clone_opt_name(&col_info.name),
            ) {
                Err(e) => {
                    proof {
                        assert(extract_spec(rest[0].expr, ca_here, rest[0].name) is None);
                        assert(norm_sel(rest, ca_here, cs_here) is None);
                        assert(normalize_spec(self@) is None);
                    }
                    return Err(e);
                },
                Ok((full_expr, aggs)) => {
                    let ghost sel_pre = select@;
                    let ghost agg_pre = aggregate@;
                    let ghost fp_pre = final_projection@;
                    if aggs.len() == 0 {
                        let column_name = crate::strutil::synth_col_name(
                            "_cs",
                            select_colnames.len() as u64,
                        );
                        select_colnames.push(column_name.clone());
                        select.push(
                            ColumnInfo { expr: full_expr, name: clone_opt_name(&col_info.name) },
                        );
                        final_projection.push(
                            ColumnInfo {
                                expr: Expr::ColName(column_name),
                                name: clone_opt_name(&col_info.name),
                            },
                        );
                        proof {
                            assert(ci_views(select@) =~= ci_views(sel_pre) + seq![
                                select@.last()@,
                            ]);
                            assert(ci_views(final_projection@) =~= ci_views(fp_pre) + seq![
                                final_projection@.last()@,
                            ]);
                            lemma_combine_sel_step(
                                ci_views(sel_pre),
                                agg_views(agg_pre),
                                ci_views(fp_pre),
                                seq![select@.last()@],
                                Seq::empty(),
                                seq![final_projection@.last()@],
                                norm_sel(
                                    self@.select.skip(i + 1),
                                    aggregate@.len() as nat,
                                    select@.len() as nat,
                                ),
                            );
                            assert(agg_views(agg_pre) + Seq::empty() =~= agg_views(aggregate@));
                        }
                    } else {
                        let mut aggs = aggs;
                        let ghost aggs_v = aggs@;
                        aggregate.append(&mut aggs);
                        final_projection.push(
                            ColumnInfo { expr: full_expr, name: clone_opt_name(&col_info.name) },
                        );
                        proof {
                            assert(agg_views(aggregate@) =~= agg_views(agg_pre) + agg_views(
                                aggs_v,
                            ));
                            assert(ci_views(final_projection@) =~= ci_views(fp_pre) + seq![
                                final_projection@.last()@,
                            ]);
                            lemma_combine_sel_step(
                                ci_views(sel_pre),
                                agg_views(agg_pre),
                                ci_views(fp_pre),
                                Seq::empty(),
                                agg_views(aggs_v),
                                seq![final_projection@.last()@],
                                norm_sel(
                                    self@.select.skip(i + 1),
                                    aggregate@.len() as nat,
                                    select@.len() as nat,
                                ),
                            );
                            assert(ci_views(sel_pre) + Seq::empty() =~= ci_views(select@));
                        }
                    }
                },
            }
            i += 1;
        }
        proof {
            assert(self@.select.skip(self.select@.len() as int) =~= Seq::<
                ColumnInfoView,
            >::empty());
            assert(ci_views(select@) + Seq::empty() =~= ci_views(select@));
            assert(agg_views(aggregate@) + Seq::empty() =~= agg_views(aggregate@));
            assert(ci_views(final_projection@) + Seq::empty() =~= ci_views(final_projection@));
            lemma_norm_sel_no_aggs(self@.select, 0, 0);
            assert(norm_sel(self@.select, 0, 0) == Some(
                (ci_views(select@), agg_views(aggregate@), ci_views(final_projection@)),
            ));
        }
        let any_complex = any_not_colname(&final_projection);
        let require_final_pass = (!aggregate.is_empty() && !self.order_by.is_empty())
            || any_complex;
        proof {
            assert(require_final_pass == ((agg_views(aggregate@).len() > 0 && self@.order_by.len()
                > 0) || some_complex_projection(ci_views(final_projection@))));
        }

        if require_final_pass {
            let ghost ca0 = aggregate@.len() as nat;
            let ghost cs0 = select@.len() as nat;
            let mut select2: Vec<ColumnInfo> = Vec::new();
            let mut aggregate2: Vec<(Aggregator, ColumnInfo)> = Vec::new();
            let mut final_order_by: Vec<(Expr, bool)> = Vec::new();
            proof {
                assert(self@.order_by.skip(0) =~= self@.order_by);
                assert(ci_views(select2@) =~= Seq::<ColumnInfoView>::empty());
                assert(agg_views(aggregate2@) =~= Seq::<(Aggregator, ColumnInfoView)>::empty());
                assert(ob_views(final_order_by@) =~= Seq::<(ExprView, bool)>::empty());
                lemma_combine_ord_empty(norm_ord(self@.order_by, ca0, cs0));
            }
            let mut j: usize = 0;
            while j < self.order_by.len()
                invariant
                    0 <= j <= self.order_by@.len(),
                    self@.order_by.len() == self.order_by@.len(),
                    aggregate_colnames@.len() == aggregate@.len() + aggregate2@.len(),
                    select_colnames@.len() == select@.len() + select2@.len(),
                    ca0 == aggregate@.len(),
                    cs0 == select@.len(),
                    norm_sel(self@.select, 0, 0) == Some(
                        (ci_views(select@), agg_views(aggregate@), ci_views(final_projection@)),
                    ),
                    (agg_views(aggregate@).len() > 0 && self@.order_by.len() > 0)
                        || some_complex_projection(ci_views(final_projection@)),
                    forall|i: int|
                        0 <= i < ci_views(select@).len() ==> !has_aggregates(
                            #[trigger] ci_views(select@)[i].expr,
                        ),
                    forall|i: int|
                        0 <= i < agg_views(aggregate@).len() ==> !has_aggregates(
                            #[trigger] agg_views(aggregate@)[i].1.expr,
                        ),
                    forall|i: int|
                        0 <= i < ci_views(final_projection@).len() ==> !has_aggregates(
                            #[trigger] ci_views(final_projection@)[i].expr,
                        ),
                    norm_ord(self@.order_by, ca0, cs0) == combine_ord(
                        ci_views(select2@),
                        agg_views(aggregate2@),
                        ob_views(final_order_by@),
                        norm_ord(
                            self@.order_by.skip(j as int),
                            ca0 + aggregate2@.len(),
                            cs0 + select2@.len(),
                        ),
                    ),
                decreases self.order_by@.len() - j,
            {
                let ghost rest = self@.order_by.skip(j as int);
                proof {
                    assert(rest.len() == self.order_by@.len() - j);
                    assert(rest[0] == self@.order_by[j as int]);
                    assert(rest.subrange(1, rest.len() as int) =~= self@.order_by.skip(j + 1));
                    assert(self@.order_by[j as int] == (self.order_by@[j as int].0@,
                    self.order_by@[j as int].1));
                }
                let ghost ca_here = ca0 + aggregate2@.len();
                let ghost cs_here = cs0 + select2@.len();
                let desc = self.order_by[j].1;
                match Query::extract_aggregators(
                    &self.order_by[j].0,
                    &mut aggregate_colnames,
                    None,
                ) {
                    Err(e) => {
                        proof {
                            assert(extract_spec(rest[0].0, ca_here, None) is None);
                            assert(norm_ord(rest, ca_here, cs_here) is None);
                            assert(norm_ord(self@.order_by, ca0, cs0) is None);
                            assert(norm_sel(self@.select, 0, 0) == Some(
                                (
                                    ci_views(select@),
                                    agg_views(aggregate@),
                                    ci_views(final_projection@),
                                ),
                            ));
                            assert((agg_views(aggregate@).len() > 0 && self@.order_by.len() > 0)
                                || some_complex_projection(ci_views(final_projection@)));
                            assert(norm_ord(
                                self@.order_by,
                                agg_views(aggregate@).len(),
                                ci_views(select@).len(),
                            ) is None);
                            assert(normalize_spec(self@) is None);
                        }
                        return Err(e);
                    },
                    Ok((full_expr, aggs)) => {
                        let ghost sel_pre = select2@;
                        let ghost agg_pre = aggregate2@;
                        let ghost ob_pre = final_order_by@;
                        if aggs.len() == 0 {
                            let column_name = crate::strutil::synth_col_name(
                                "_cs",
                                select_colnames.len() as u64,
                            );
                            select_colnames.push(column_name.clone());
                            select2.push(ColumnInfo { expr: full_expr, name: None });
                            final_order_by.push((Expr::ColName(column_name), desc));
                            proof {
                                assert(ci_views(select2@) =~= ci_views(sel_pre) + seq![
                                    select2@.last()@,
                                ]);
                                assert(ob_views(final_order_by@) =~= ob_views(ob_pre) + seq![
                                    (final_order_by@.last().0@, final_order_by@.last().1),
                                ]);
                                lemma_combine_ord_step(
                                    ci_views(sel_pre),
                                    agg_views(agg_pre),
                                    ob_views(ob_pre),
                                    seq![select2@.last()@],
                                    Seq::empty(),
                                    seq![(final_order_by@.last().0@, final_order_by@.last().1)],
                                    norm_ord(
                                        self@.order_by.skip(j + 1),
                                        ca0 + aggregate2@.len(),
                                        cs0 + select2@.len(),
                                    ),
                                );
                                assert(agg_views(agg_pre) + Seq::empty() =~= agg_views(
                                    aggregate2@,
                                ));
                            }
                        } else {
                            let mut aggs = aggs;
                            let ghost aggs_v = aggs@;
                            aggregate2.append(&mut aggs);
                            final_order_by.push((full_expr, desc));
                            proof {
                                assert(agg_views(aggregate2@) =~= agg_views(agg_pre) + agg_views(
                                    aggs_v,
                                ));
                                assert(ob_views(final_order_by@) =~= ob_views(ob_pre) + seq![
                                    (final_order_by@.last().0@, final_order_by@.last().1),
                                ]);
                                lemma_combine_ord_step(
                                    ci_views(sel_pre),
                                    agg_views(agg_pre),
                                    ob_views(ob_pre),
                                    Seq::empty(),
                                    agg_views(aggs_v),
                                    seq![(final_order_by@.last().0@, final_order_by@.last().1)],
                                    norm_ord(
                                        self@.order_by.skip(j + 1),
                                        ca0 + aggregate2@.len(),
                                        cs0 + select2@.len(),
                                    ),
                                );
                                assert(ci_views(sel_pre) + Seq::empty() =~= ci_views(select2@));
                            }
                        }
                    },
                }
                j += 1;
            }
            proof {
                assert(self@.order_by.skip(self.order_by@.len() as int) =~= Seq::<
                    (ExprView, bool),
                >::empty());
                assert(ci_views(select2@) + Seq::empty() =~= ci_views(select2@));
                assert(agg_views(aggregate2@) + Seq::empty() =~= agg_views(aggregate2@));
                assert(ob_views(final_order_by@) + Seq::empty() =~= ob_views(final_order_by@));
                lemma_norm_ord_no_aggs(self@.order_by, ca0, cs0);
            }
            let ghost sel_main = select@;
            let ghost agg_main = aggregate@;
            let mut select2 = select2;
            let mut aggregate2 = aggregate2;
            let ghost sel2_v = select2@;
            let ghost agg2_v = aggregate2@;
            select.append(&mut select2);
            aggregate.append(&mut aggregate2);
            proof {
                assert(ci_views(select@) =~= ci_views(sel_main) + ci_views(sel2_v));
                assert(agg_views(aggregate@) =~= agg_views(agg_main) + agg_views(agg2_v));
            }
            let primary = NormalFormQuery {
                projection: select,
                filter: self.filter.clone(),
                aggregate,
                order_by: Vec::new(),
                limit: LimitClause { limit: u64::MAX, offset: 0 },
            };
            let post = NormalFormQuery {
                projection: final_projection,
                filter: Expr::Const(RawVal::Int(1)),
                aggregate: Vec::new(),
                order_by: final_order_by,
                limit: self.limit,
            };
            proof {
                assert(primary@.order_by =~= Seq::<(ExprView, bool)>::empty());
                assert(post@.aggregate =~= Seq::<(Aggregator, ColumnInfoView)>::empty());
            }
            Ok((primary, Some(post)))
        } else {
            let primary = NormalFormQuery {
                projection: select,
                filter: self.filter.clone(),
                aggregate,
                order_by: clone_order_by(&self.order_by),
                limit: self.limit,
            };
            Ok((primary, None))
        }
    }
}

/// Combining empty accumulators is the identity.
proof fn lemma_combine_sel_empty(
    rest: Option<(Seq<ColumnInfoView>, Seq<(Aggregator, ColumnInfoView)>, Seq<ColumnInfoView>)>,
)
    ensures
        combine_sel(Seq::empty(), Seq::empty(), Seq::empty(), rest) == rest,
{
    match rest {
        None => {},
        Some(t) => {
            assert(Seq::empty() + t.0 =~= t.0);
            assert(Seq::empty() + t.1 =~= t.1);
            assert(Seq::empty() + t.2 =~= t.2);
        },
    }
}

/// Combining empty accumulators is the identity.
proof fn lemma_combine_ord_empty(
    rest: Option<
        (Seq<ColumnInfoView>, Seq<(Aggregator, ColumnInfoView)>, Seq<(ExprView, bool)>),
    >,
)
    ensures
        combine_ord(Seq::empty(), Seq::empty(), Seq::empty(), rest) == rest,
{
    match rest {
        None => {},
        Some(t) => {
            assert(Seq::empty() + t.0 =~= t.0);
            assert(Seq::empty() + t.1 =~= t.1);
            assert(Seq::empty() + t.2 =~= t.2);
        },
    }
}

/// Prepending one step's output distributes over [`combine_sel`].
proof fn lemma_combine_sel_step(
    pre_s: Seq<ColumnInfoView>,
    pre_a: Seq<(Aggregator, ColumnInfoView)>,
    pre_f: Seq<ColumnInfoView>,
    d_s: Seq<ColumnInfoView>,
    d_a: Seq<(Aggregator, ColumnInfoView)>,
    d_f: Seq<ColumnInfoView>,
    rest: Option<(Seq<ColumnInfoView>, Seq<(Aggregator, ColumnInfoView)>, Seq<ColumnInfoView>)>,
)
    ensures
        combine_sel(pre_s, pre_a, pre_f, combine_sel(d_s, d_a, d_f, rest)) == combine_sel(
            pre_s + d_s,
            pre_a + d_a,
            pre_f + d_f,
            rest,
        ),
{
    match rest {
        None => {},
        Some(t) => {
            assert(pre_s + (d_s + t.0) =~= (pre_s + d_s) + t.0);
            assert(pre_a + (d_a + t.1) =~= (pre_a + d_a) + t.1);
            assert(pre_f + (d_f + t.2) =~= (pre_f + d_f) + t.2);
        },
    }
}

/// Prepending one step's output distributes over [`combine_ord`].
proof fn lemma_combine_ord_step(
    pre_s: Seq<ColumnInfoView>,
    pre_a: Seq<(Aggregator, ColumnInfoView)>,
    pre_o: Seq<(ExprView, bool)>,
    d_s: Seq<ColumnInfoView>,
    d_a: Seq<(Aggregator, ColumnInfoView)>,
    d_o: Seq<(ExprView, bool)>,
    rest: Option<
        (Seq<ColumnInfoView>, Seq<(Aggregator, ColumnInfoView)>, Seq<(ExprView, bool)>),
    >,
)
    ensures
        combine_ord(pre_s, pre_a, pre_o, combine_ord(d_s, d_a, d_o, rest)) == combine_ord(
            pre_s + d_s,
            pre_a + d_a,
            pre_o + d_o,
            rest,
        ),
{
    match rest {
        None => {},
        Some(t) => {
            assert(pre_s + (d_s + t.0) =~= (pre_s + d_s) + t.0);
            assert(pre_a + (d_a + t.1) =~= (pre_a + d_a) + t.1);
            assert(pre_o + (d_o + t.2) =~= (pre_o + d_o) + t.2);
        },
    }
}

/// Whether every projected and aggregated column of the pass carries a name.
pub open spec fn all_named(n: NormalFormQueryView) -> bool {
    &&& forall|i: int| 0 <= i < n.projection.len() ==> (#[trigger] n.projection[i].name) is Some
    &&& forall|i: int| 0 <= i < n.aggregate.len() ==> (#[trigger] n.aggregate[i].1.name) is Some
}

/// The display names of the pass: projected columns first, then aggregates.
pub open spec fn result_names(n: NormalFormQueryView) -> Seq<Seq<char>>
    recommends
        all_named(n),
{
    n.projection.map_values(|ci: ColumnInfoView| ci.name->Some_0) + n.aggregate.map_values(
        |a: (Aggregator, ColumnInfoView)| a.1.name->Some_0,
    )
}

impl NormalFormQuery {
    /// The display names of the result columns, projected columns first and
    /// aggregates after them.  Fails with a fatal error exactly when some
    /// column carries no name.
    pub fn result_column_names(&self) -> (r: Result<Vec<String>, QueryError>)
        ensures
            r is Ok <==> all_named(self@),
            r matches Ok(names) ==> names@.map_values(|s: String| s@) == result_names(self@),
            r matches Err(e) ==> e is FatalError,
    {
        let mut names: Vec<String> = Vec::new();
        let mut i: usize = 0;
        while i < self.projection.len()
            invariant
                0 <= i <= self.projection@.len(),
                self@.projection.len() == self.projection@.len(),
                names@.len() == i,
                forall|k: int|
                    0 <= k < i ==> (#[trigger] self@.projection[k].name) is Some && names@[k]@
                        == self@.projection[k].name->Some_0,
            decreases self.projection@.len() - i,
        {
            proof {
                assert(self@.projection[i as int] == self.projection@[i as int]@);
            }
            match &self.projection[i].name {
                Some(name) => names.push(name.clone()),
                None => {
                    proof {
                        assert(!((self@.projection[i as int].name) is Some));
                        assert(!all_named(self@));
                    }
                    return Err(
                        QueryError::FatalError("No human readable expression found".to_owned()),
                    );
                },
            }
            i += 1;
        }
        let mut j: usize = 0;
        while j < self.aggregate.len()
            invariant
                self@.projection.len() == self.projection@.len(),
                0 <= j <= self.aggregate@.len(),
                self@.aggregate.len() == self.aggregate@.len(),
                names@.len() == self.projection@.len() + j,
                forall|k: int|
                    0 <= k < self.projection@.len() ==> (#[trigger] self@.projection[k].name)
                        is Some && names@[k]@ == self@.projection[k].name->Some_0,
                forall|k: int|
                    0 <= k < j ==> (#[trigger] self@.aggregate[k].1.name) is Some && names@[
                        self.projection@.len() + k]@ == self@.aggregate[k].1.name->Some_0,
            decreases self.aggregate@.len() - j,
        {
            proof {
                assert(self@.aggregate[j as int] == (self.aggregate@[j as int].0, self.aggregate@[
                    j as int].1@));
            }
            match &self.aggregate[j].1.name {
                Some(name) => names.push(name.clone()),
                None => {
                    proof {
                        assert(!((self@.aggregate[j as int].1.name) is Some));
                        assert(!all_named(self@));
                    }
                    return Err(
                        QueryError::FatalError("No human readable expression found".to_owned()),
                    );
                },
            }
            j += 1;
        }
        proof {
            assert(names@.map_values(|s: String| s@) =~= result_names(self@));
        }
        Ok(names)
    }
}

} // verus!
