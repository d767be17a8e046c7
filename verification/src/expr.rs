//! Expression trees, aggregator kinds and limit clauses: the abstract syntax
//! that queries are made of.

use vstd::prelude::*;

use crate::val::{RawVal, ValView};

verus! {

/// An aggregation function.
///
/// `Count` counts non-null input rows; the others accumulate a sum, minimum
/// or maximum in integer or float space.  The float-space aggregators exist
/// as tags for dispatch, but float accumulation itself is outside the
/// verified surface of this crate.
#[derive(Debug, Clone, Copy, PartialEq, Eq, Structural)]
pub enum Aggregator {
    Count,
    SumI64,
    SumF64,
    MinI64,
    MinF64,
    MaxI64,
    MaxF64,
}

/// A function of one argument.
#[derive(Debug, Clone, Copy, PartialEq, Eq, Structural)]
pub enum Func1Type {
    ToYear,
}

/// A function of two arguments.
#[derive(Debug, Clone, Copy, PartialEq, Eq, Structural)]
pub enum Func2Type {
    Add,
    Subtract,
    Multiply,
    Divide,
    And,
    Or,
    GT,
    LT,
    GTE,
    LTE,
    Equals,
    NotEquals,
}

/// `LIMIT n OFFSET m`: after ordering, `offset` rows are skipped and at most
/// `limit` rows are returned.
#[derive(Debug, Clone, Copy, PartialEq, Eq, Structural)]
pub struct LimitClause {
    pub limit: u64,
    pub offset: u64,
}

/// Mathematical model of an [`Expr`].
pub enum ExprView {
    Const(ValView),
    ColName(Seq<char>),
    Func1(Func1Type, Box<ExprView>),
    Func2(Func2Type, Box<ExprView>, Box<ExprView>),
    Aggregate(Aggregator, Box<ExprView>),
}

/// An expression: a constant, a column reference, an application of a
/// function to one or two arguments, or an aggregate over an expression.
#[derive(Debug)]
pub enum Expr {
    Const(RawVal),
    ColName(String),
    Func1(Func1Type, Box<Expr>),
    Func2(Func2Type, Box<Expr>, Box<Expr>),
    Aggregate(Aggregator, Box<Expr>),
}

impl View for Expr {
    type V = ExprView;

    open spec fn view(&self) -> ExprView
        decreases self,
    {
        match self {
            Expr::Const(v) => ExprView::Const(v@),
            Expr::ColName(n) => ExprView::ColName(n@),
            Expr::Func1(t, e) => ExprView::Func1(*t, Box::new((**e)@)),
            Expr::Func2(t, a, b) => ExprView::Func2(*t, Box::new((**a)@), Box::new((**b)@)),
            Expr::Aggregate(a, e) => ExprView::Aggregate(*a, Box::new((**e)@)),
        }
    }
}

/// True if the expression contains an aggregate anywhere.
pub open spec fn has_aggregates(e: ExprView) -> bool
    decreases e,
{
    match e {
        ExprView::Const(_) => false,
        ExprView::ColName(_) => false,
        ExprView::Func1(_, inner) => has_aggregates(*inner),
        ExprView::Func2(_, a, b) => has_aggregates(*a) || has_aggregates(*b),
        ExprView::Aggregate(_, _) => true,
    }
}

/// The set of column names the expression refers to.
pub open spec fn referenced_cols(e: ExprView) -> Set<Seq<char>>
    decreases e,
{
    match e {
        ExprView::Const(_) => Set::empty(),
        ExprView::ColName(n) => Set::empty().insert(n),
        ExprView::Func1(_, inner) => referenced_cols(*inner),
        ExprView::Func2(_, a, b) => referenced_cols(*a).union(referenced_cols(*b)),
        ExprView::Aggregate(_, inner) => referenced_cols(*inner),
    }
}

impl Clone for Expr {
    fn clone(&self) -> (res: Self)
        ensures
            res@ == self@,
        decreases self,
    {
        match self {
            Expr::Const(v) => Expr::Const(v.clone()),
            Expr::ColName(n) => Expr::ColName(n.clone()),
            Expr::Func1(t, e) => Expr::Func1(*t, Box::new((**e).clone())),
            Expr::Func2(t, a, b) => {
                Expr::Func2(*t, Box::new((**a).clone()), Box::new((**b).clone()))
            },
            Expr::Aggregate(a, e) => Expr::Aggregate(*a, Box::new((**e).clone())),
        }
    }
}

impl Expr {
    /// Appends each column name referenced by the expression and not yet in
    /// `names` to `names`, keeping the entries distinct.
    pub fn add_colnames(&self, names: &mut Vec<String>)
        requires
            distinct_names(old(names)@),
        ensures
            distinct_names(final(names)@),
            name_set(final(names)@) == name_set(old(names)@).union(referenced_cols(self@)),
            old(names)@.len() <= final(names)@.len(),
            forall|i: int|
                0 <= i < old(names)@.len() ==> final(names)@[i]@ == old(names)@[i]@,
        decreases self,
    {
        match self {
            Expr::Const(_) => {
                proof {
                    assert(name_set(names@) =~= name_set(names@).union(referenced_cols(self@)));
                }
            },
            Expr::ColName(n) => {
                let present = contains_name(names, n);
                if !present {
                    names.push(n.clone());
                    proof {
                        assert(name_set(names@) =~= name_set(old(names)@).union(
                            referenced_cols(self@),
                        )) by {
                            assert(names@.last()@ == n@);
                            assert forall|s: Seq<char>|
                                name_set(old(names)@).insert(n@).contains(s) implies name_set(
                                names@,
                            ).contains(s) by {
                                if s == n@ {
                                    assert(names@[names@.len() - 1]@ == s);
                                } else {
                                    let i = choose|i: int|
                                        0 <= i < old(names)@.len() && old(names)@[i]@ == s;
                                    assert(names@[i]@ == s);
                                }
                            }
                            assert forall|s: Seq<char>| name_set(names@).contains(s) implies name_set(
                                old(names)@,
                            ).insert(n@).contains(s) by {
                                let i = choose|i: int| 0 <= i < names@.len() && names@[i]@ == s;
                                if i < old(names)@.len() {
                                    assert(old(names)@[i]@ == s);
                                }
                            }
                        }
                    }
                } else {
                    proof {
                        assert(name_set(names@) =~= name_set(names@).union(referenced_cols(self@)));
                    }
                }
            },
            Expr::Func1(_, e) => {
                e.add_colnames(names);
            },
            Expr::Func2(_, a, b) => {
                a.add_colnames(names);
                b.add_colnames(names);
                proof {
                    assert(name_set(names@) =~= name_set(old(names)@).union(
                        referenced_cols(self@),
                    ));
                }
            },
            Expr::Aggregate(_, e) => {
                e.add_colnames(names);
            },
        }
    }
}

/// The names in `v`, as a set of character sequences.
pub open spec fn name_set(v: Seq<String>) -> Set<Seq<char>> {
    Set::new(|s: Seq<char>| exists|i: int| 0 <= i < v.len() && v[i]@ == s)
}

/// No two entries of `v` hold the same name.
pub open spec fn distinct_names(v: Seq<String>) -> bool {
    forall|i: int, j: int| 0 <= i < j < v.len() ==> v[i]@ != v[j]@
}

/// Whether some entry of `names` equals `n`.
pub fn contains_name(names: &Vec<String>, n: &String) -> (r: bool)
    ensures
        r == name_set(names@).contains(n@),
{
    let mut k: usize = 0;
    while k < names.len()
        invariant
            0 <= k <= names@.len(),
            forall|i: int| 0 <= i < k ==> names@[i]@ != n@,
        decreases names@.len() - k,
    {
        if names[k] == *n {
            assert(name_set(names@).contains(n@));
            return true;
        }
        k += 1;
    }
    false
}

} // verus!
