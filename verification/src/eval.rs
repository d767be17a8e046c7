//! Row-wise evaluation of aggregate-free expressions over named columns.
//!
//! Integer arithmetic wraps in two's complement; division is truncating and
//! fails on a zero divisor or on overflow; comparisons return the integers
//! zero and one; a null operand makes the result null.  `TO_YEAR` maps a
//! unix timestamp to its calendar year.

use vstd::prelude::*;

use crate::expr::{Expr, ExprView, Func1Type, Func2Type};
use crate::type_conversion::opt_val_view;
use crate::val::{RawVal, ValView};

verus! {

/// Named columns, as the evaluator sees them.
pub open spec fn cols_view(c: Seq<(String, Vec<RawVal>)>) -> Seq<(Seq<char>, Seq<ValView>)> {
    c.map_values(|p: (String, Vec<RawVal>)| (p.0@, p.1@.map_values(|v: RawVal| v@)))
}

/// The values of the first column named `name`, if any.
pub open spec fn lookup_col(cols: Seq<(Seq<char>, Seq<ValView>)>, name: Seq<char>) -> Option<
    Seq<ValView>,
>
    decreases cols.len(),
{
    if cols.len() == 0 {
        None
    } else if cols[0].0 == name {
        Some(cols[0].1)
    } else {
        lookup_col(cols.subrange(1, cols.len() as int), name)
    }
}

/// Whether the year has 366 days.
pub open spec fn is_leap_year(y: int) -> bool {
    y % 4 == 0 && (y % 100 != 0 || y % 400 == 0)
}

/// The number of days of the year.
pub open spec fn days_in_year(y: int) -> int {
    if is_leap_year(y) {
        366
    } else {
        365
    }
}

/// The year that contains day `d`, counting days from the start of year `y`.
pub open spec fn year_of_day(d: nat, y: int) -> int
    decreases d,
{
    if d < days_in_year(y) {
        y
    } else {
        year_of_day((d - days_in_year(y)) as nat, y + 1)
    }
}

/// One second past the end of year 9999: the last timestamp `TO_YEAR`
/// supports.
pub const TO_YEAR_LIMIT: i64 = 253402300800;

/// The calendar year of a unix timestamp.
pub open spec fn to_year_spec(ts: int) -> int
    recommends
        0 <= ts < TO_YEAR_LIMIT,
{
    year_of_day((ts / 86400) as nat, 1970)
}

/// Computes the calendar year of a unix timestamp between 1970 and the end
/// of year 9999.
pub fn to_year(ts: i64) -> (r: i64)
    requires
        0 <= ts < TO_YEAR_LIMIT,
    ensures
        r == to_year_spec(ts as int),
{
    let mut days: u64 = (ts as u64) / 86400;
    let mut y: u64 = 1970;
    proof {
        assert(days == (ts as int) / 86400);
        assert(365 * (y - 1970) + days <= 2932897) by {
            assert(days <= (TO_YEAR_LIMIT as int) / 86400);
        }
    }
    let ghost days0 = days as nat;
    while days >= days_in_year_exec(y)
        invariant
            1970 <= y,
            365 * (y - 1970) + days <= 2932897,
            year_of_day(days0, 1970) == year_of_day(days as nat, y as int),
        decreases days,
    {
        let diy = days_in_year_exec(y);
        proof {
            assert(diy >= 365);
        }
        days = days - diy;
        y = y + 1;
    }
    proof {
        assert(year_of_day(days as nat, y as int) == y as int);
        assert(y <= 10005);
    }
    y as i64
}

/// The number of days of the year.
pub fn days_in_year_exec(y: u64) -> (r: u64)
    ensures
        r == days_in_year(y as int),
        365 <= r <= 366,
{
    if y % 4 == 0 && (y % 100 != 0 || y % 400 == 0) {
        366
    } else {
        365
    }
}

/// What a function of two arguments returns: wrapping integer arithmetic,
/// truncating division that fails on a zero divisor or overflow, ordered
/// and equality comparisons returning zero or one, boolean connectives on
/// integer truth values, string equality, and null propagation.  Every
/// other combination is an error.
pub open spec fn op2_spec(op: Func2Type, x: ValView, y: ValView) -> Option<ValView> {
    match (x, y) {
        (ValView::Null, _) => Some(ValView::Null),
        (_, ValView::Null) => Some(ValView::Null),
        (ValView::Int(a), ValView::Int(b)) => match op {
            Func2Type::Add => Some(ValView::Int(a.wrapping_add(b))),
            Func2Type::Subtract => Some(ValView::Int(a.wrapping_sub(b))),
            Func2Type::Multiply => Some(ValView::Int(a.wrapping_mul(b))),
            Func2Type::Divide => match a.checked_div(b) {
                Some(q) => Some(ValView::Int(q)),
                None => None,
            },
            Func2Type::And => Some(ValView::Int(if a != 0 && b != 0 { 1int } else { 0int } as i64)),
            Func2Type::Or => Some(ValView::Int(if a != 0 || b != 0 { 1int } else { 0int } as i64)),
            Func2Type::GT => Some(ValView::Int(if a > b { 1int } else { 0int } as i64)),
            Func2Type::LT => Some(ValView::Int(if a < b { 1int } else { 0int } as i64)),
            Func2Type::GTE => Some(ValView::Int(if a >= b { 1int } else { 0int } as i64)),
            Func2Type::LTE => Some(ValView::Int(if a <= b { 1int } else { 0int } as i64)),
            Func2Type::Equals => Some(ValView::Int(if a == b { 1int } else { 0int } as i64)),
            Func2Type::NotEquals => Some(ValView::Int(if a != b { 1int } else { 0int } as i64)),
        },
        (ValView::Str(s), ValView::Str(t)) => match op {
            Func2Type::Equals => Some(ValView::Int(if s == t { 1int } else { 0int } as i64)),
            Func2Type::NotEquals => Some(ValView::Int(if s != t { 1int } else { 0int } as i64)),
            _ => None,
        },
        _ => None,
    }
}

/// What a function of one argument returns.  `TO_YEAR` maps a timestamp to
/// its year, propagates null, and fails outside the supported range.
pub open spec fn op1_spec(op: Func1Type, x: ValView) -> Option<ValView> {
    match op {
        Func1Type::ToYear => match x {
            ValView::Null => Some(ValView::Null),
            ValView::Int(ts) => if 0 <= ts < TO_YEAR_LIMIT {
                Some(ValView::Int(to_year_spec(ts as int) as i64))
            } else {
                None
            },
            _ => None,
        },
    }
}

/// What evaluating an expression at row `row` of the columns returns.
/// A missing column, an out-of-range row, an unsupported operand pair and
/// an aggregate are errors: aggregates are evaluated by the aggregation
/// pass, never row-wise.
pub open spec fn eval_spec(e: ExprView, cols: Seq<(Seq<char>, Seq<ValView>)>, row: int) -> Option<
    ValView,
>
    decreases e,
{
    match e {
        ExprView::Const(v) => Some(v),
        ExprView::ColName(n) => match lookup_col(cols, n) {
            None => None,
            Some(vals) => if 0 <= row < vals.len() {
                Some(vals[row])
            } else {
                None
            },
        },
        ExprView::Func1(op, a) => match eval_spec(*a, cols, row) {
            None => None,
            Some(x) => op1_spec(op, x),
        },
        ExprView::Func2(op, a, b) => match eval_spec(*a, cols, row) {
            None => None,
            Some(x) => match eval_spec(*b, cols, row) {
                None => None,
                Some(y) => op2_spec(op, x, y),
            },
        },
        ExprView::Aggregate(_, _) => None,
    }
}

/// The index of the first column named `name`, related to [`lookup_col`].
pub fn find_col(cols: &Vec<(String, Vec<RawVal>)>, name: &String) -> (r: Option<usize>)
    ensures
        match r {
            Some(i) => 0 <= i < cols@.len() && lookup_col(cols_view(cols@), name@) == Some(
                cols_view(cols@)[i as int].1,
            ),
            None => lookup_col(cols_view(cols@), name@) is None,
        },
{
    proof {
        assert(cols_view(cols@).skip(0) =~= cols_view(cols@));
    }
    let mut i: usize = 0;
    while i < cols.len()
        invariant
            0 <= i <= cols@.len(),
            lookup_col(cols_view(cols@), name@) == lookup_col(
                cols_view(cols@).skip(i as int),
                name@,
            ),
            forall|k: int| 0 <= k < i ==> (#[trigger] cols_view(cols@)[k]).0 != name@,
        decreases cols@.len() - i,
    {
        let ghost rest = cols_view(cols@).skip(i as int);
        proof {
            assert(rest[0] == cols_view(cols@)[i as int]);
            assert(rest.subrange(1, rest.len() as int) =~= cols_view(cols@).skip(i + 1));
        }
        if cols[i].0 == *name {
            proof {
                assert(rest[0].0 == name@);
            }
            return Some(i);
        }
        i += 1;
    }
    proof {
        assert(cols_view(cols@).skip(cols@.len() as int) =~= Seq::<
            (Seq<char>, Seq<ValView>),
        >::empty());
    }
    None
}

/// Applies a function of two arguments to two values.
pub fn apply_func2(op: Func2Type, x: &RawVal, y: &RawVal) -> (r: Option<RawVal>)
    ensures
        opt_val_view(r) == op2_spec(op, x@, y@),
{
    match (x, y) {
        (RawVal::Null, _) => Some(RawVal::Null),
        (_, RawVal::Null) => Some(RawVal::Null),
        (RawVal::Int(a), RawVal::Int(b)) => match op {
            Func2Type::Add => Some(RawVal::Int(a.wrapping_add(*b))),
            Func2Type::Subtract => Some(RawVal::Int(a.wrapping_sub(*b))),
            Func2Type::Multiply => Some(RawVal::Int(a.wrapping_mul(*b))),
            Func2Type::Divide => match a.checked_div(*b) {
                Some(q) => Some(RawVal::Int(q)),
                None => None,
            },
            Func2Type::And => Some(RawVal::Int(if *a != 0 && *b != 0 { 1 } else { 0 })),
            Func2Type::Or => Some(RawVal::Int(if *a != 0 || *b != 0 { 1 } else { 0 })),
            Func2Type::GT => Some(RawVal::Int(if *a > *b { 1 } else { 0 })),
            Func2Type::LT => Some(RawVal::Int(if *a < *b { 1 } else { 0 })),
            Func2Type::GTE => Some(RawVal::Int(if *a >= *b { 1 } else { 0 })),
            Func2Type::LTE => Some(RawVal::Int(if *a <= *b { 1 } else { 0 })),
            Func2Type::Equals => Some(RawVal::Int(if *a == *b { 1 } else { 0 })),
            Func2Type::NotEquals => Some(RawVal::Int(if *a != *b { 1 } else { 0 })),
        },
        (RawVal::Str(s), RawVal::Str(t)) => match op {
            Func2Type::Equals => Some(RawVal::Int(if *s == *t { 1 } else { 0 })),
            Func2Type::NotEquals => Some(RawVal::Int(if !(*s == *t) { 1 } else { 0 })),
            _ => None,
        },
        _ => None,
    }
}

/// Evaluates an expression at row `row` of the columns.
pub fn eval_expr(e: &Expr, cols: &Vec<(String, Vec<RawVal>)>, row: usize) -> (r: Option<RawVal>)
    ensures
        opt_val_view(r) == eval_spec(e@, cols_view(cols@), row as int),
    decreases e,
{
    match e {
        Expr::Const(v) => Some(v.clone()),
        Expr::ColName(n) => match find_col(cols, n) {
            None => None,
            Some(i) => {
                let vals = &cols[i].1;
                if row < vals.len() {
                    proof {
                        assert(cols_view(cols@)[i as int].1[row as int] == vals@[row as int]@);
                    }
                    Some(vals[row].clone())
                } else {
                    None
                }
            },
        },
        Expr::Func1(op, a) => match eval_expr(a, cols, row) {
            None => None,
            Some(x) => match (op, &x) {
                (Func1Type::ToYear, RawVal::Null) => Some(RawVal::Null),
                (Func1Type::ToYear, RawVal::Int(ts)) => {
                    if 0 <= *ts && *ts < TO_YEAR_LIMIT {
                        Some(RawVal::Int(to_year(*ts)))
                    } else {
                        None
                    }
                },
                _ => None,
            },
        },
        Expr::Func2(op, a, b) => match eval_expr(a, cols, row) {
            None => None,
            Some(x) => match eval_expr(b, cols, row) {
                None => None,
                Some(y) => apply_func2(*op, &x, &y),
            },
        },
        Expr::Aggregate(_, _) => None,
    }
}

} // verus!
