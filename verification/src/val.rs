//! Raw values: the dynamically typed scalars that rows, constants and query
//! results are made of.

use vstd::prelude::*;
use vstd::string::StrSliceExecFns;

verus! {

/// Mathematical model of a [`RawVal`]: the integer, the character sequence of
/// the string, or the null marker.
pub enum ValView {
    Int(i64),
    Str(Seq<char>),
    Null,
}

/// A dynamically typed scalar value.
///
/// Rows handed to ingest, constants inside expressions and the cells of query
/// results are all `RawVal`s.  Floating point values are outside the verified
/// surface of this crate.
#[derive(Debug)]
pub enum RawVal {
    Int(i64),
    Str(String),
    Null,
}

impl View for RawVal {
    type V = ValView;

    open spec fn view(&self) -> ValView {
        match self {
            RawVal::Int(i) => ValView::Int(*i),
            RawVal::Str(s) => ValView::Str(s@),
            RawVal::Null => ValView::Null,
        }
    }
}

impl Clone for RawVal {
    fn clone(&self) -> (res: Self)
        ensures
            res@ == self@,
    {
        match self {
            RawVal::Int(i) => RawVal::Int(*i),
            RawVal::Str(s) => RawVal::Str(s.clone()),
            RawVal::Null => RawVal::Null,
        }
    }
}

impl PartialEq for RawVal {
    fn eq(&self, other: &Self) -> (r: bool) {
        match (self, other) {
            (RawVal::Int(a), RawVal::Int(b)) => *a == *b,
            (RawVal::Str(a), RawVal::Str(b)) => *a == *b,
            (RawVal::Null, RawVal::Null) => true,
            _ => false,
        }
    }
}

impl vstd::std_specs::cmp::PartialEqSpecImpl for RawVal {
    open spec fn obeys_eq_spec() -> bool {
        true
    }

    open spec fn eq_spec(&self, other: &Self) -> bool {
        self@ == other@
    }
}

impl Eq for RawVal {}

impl RawVal {
    /// True of the null marker.
    pub fn is_null(&self) -> (r: bool)
        ensures
            r == (self@ is Null),
    {
        matches!(self, RawVal::Null)
    }
}

/// Lexicographic order on character sequences: decided by the first
/// differing character, with a prefix ordering before its extensions.
pub open spec fn str_le(a: Seq<char>, b: Seq<char>) -> bool
    decreases a.len(),
{
    if a.len() == 0 {
        true
    } else if b.len() == 0 {
        false
    } else if a[0] != b[0] {
        (a[0] as u32) < (b[0] as u32)
    } else {
        str_le(a.subrange(1, a.len() as int), b.subrange(1, b.len() as int))
    }
}

/// The rank that separates the three value shapes in the value order.
pub open spec fn val_rank(a: ValView) -> int {
    match a {
        ValView::Null => 0,
        ValView::Int(_) => 1,
        ValView::Str(_) => 2,
    }
}

/// Total order on values: nulls first, then integers by value, then
/// strings lexicographically.
pub open spec fn val_le(a: ValView, b: ValView) -> bool {
    if val_rank(a) != val_rank(b) {
        val_rank(a) < val_rank(b)
    } else {
        match (a, b) {
            (ValView::Int(x), ValView::Int(y)) => x <= y,
            (ValView::Str(x), ValView::Str(y)) => str_le(x, y),
            _ => true,
        }
    }
}

/// The string order is total.
pub proof fn lemma_str_le_total(a: Seq<char>, b: Seq<char>)
    ensures
        str_le(a, b) || str_le(b, a),
    decreases a.len(),
{
    if a.len() > 0 && b.len() > 0 {
        if a[0] == b[0] {
            lemma_str_le_total(a.subrange(1, a.len() as int), b.subrange(1, b.len() as int));
        } else {
            vstd::utf8::char_u32_cast(a[0], a[0] as u32);
            vstd::utf8::char_u32_cast(b[0], b[0] as u32);
            assert(a[0] as u32 != b[0] as u32);
        }
    }
}

/// The string order is antisymmetric: mutual order is equality.
pub proof fn lemma_str_le_antisym(a: Seq<char>, b: Seq<char>)
    requires
        str_le(a, b),
        str_le(b, a),
    ensures
        a == b,
    decreases a.len(),
{
    if a.len() == 0 {
        assert(b.len() == 0);
        assert(a =~= b);
    } else {
        assert(b.len() > 0);
        assert(a[0] == b[0]);
        lemma_str_le_antisym(a.subrange(1, a.len() as int), b.subrange(1, b.len() as int));
        assert(a =~= b) by {
            assert forall|i: int| 0 <= i < a.len() implies a[i] == b[i] by {
                if i > 0 {
                    assert(a.subrange(1, a.len() as int)[i - 1] == a[i]);
                    assert(b.subrange(1, b.len() as int)[i - 1] == b[i]);
                }
            }
        }
    }
}

/// The string order is transitive.
pub proof fn lemma_str_le_trans(a: Seq<char>, b: Seq<char>, c: Seq<char>)
    requires
        str_le(a, b),
        str_le(b, c),
    ensures
        str_le(a, c),
    decreases a.len(),
{
    if a.len() > 0 && b.len() > 0 && c.len() > 0 && a[0] == b[0] && b[0] == c[0] {
        lemma_str_le_trans(
            a.subrange(1, a.len() as int),
            b.subrange(1, b.len() as int),
            c.subrange(1, c.len() as int),
        );
    }
}

/// The value order is total.
pub proof fn lemma_val_le_total(a: ValView, b: ValView)
    ensures
        val_le(a, b) || val_le(b, a),
{
    if a is Str && b is Str {
        lemma_str_le_total(a->Str_0, b->Str_0);
    }
}

/// The value order is antisymmetric: mutual order is equality.
pub proof fn lemma_val_le_antisym(a: ValView, b: ValView)
    requires
        val_le(a, b),
        val_le(b, a),
    ensures
        a == b,
{
    if a is Str && b is Str {
        lemma_str_le_antisym(a->Str_0, b->Str_0);
    }
}

/// The value order is transitive.
pub proof fn lemma_val_le_trans(a: ValView, b: ValView, c: ValView)
    requires
        val_le(a, b),
        val_le(b, c),
    ensures
        val_le(a, c),
{
    if a is Str && b is Str && c is Str {
        lemma_str_le_trans(a->Str_0, b->Str_0, c->Str_0);
    }
}

/// Whether `a` orders no later than `b` in the string order.
fn str_le_exec(a: &str, b: &str) -> (r: bool)
    ensures
        r == str_le(a@, b@),
{
    let na = a.unicode_len();
    let nb = b.unicode_len();
    proof {
        assert(a@.subrange(0, na as int) =~= a@);
        assert(b@.subrange(0, nb as int) =~= b@);
    }
    let mut i: usize = 0;
    while i < na && i < nb
        invariant
            0 <= i <= na,
            0 <= i <= nb,
            na == a@.len(),
            nb == b@.len(),
            str_le(a@, b@) == str_le(
                a@.subrange(i as int, na as int),
                b@.subrange(i as int, nb as int),
            ),
            forall|x: int| 0 <= x < i ==> a@[x] == b@[x],
        decreases na - i,
    {
        let ca = a.get_char(i);
        let cb = b.get_char(i);
        if ca != cb {
            proof {
                assert(a@.subrange(i as int, na as int)[0] == a@[i as int]);
                assert(b@.subrange(i as int, nb as int)[0] == b@[i as int]);
            }
            return (ca as u32) < (cb as u32);
        }
        proof {
            let sa = a@.subrange(i as int, na as int);
            let sb = b@.subrange(i as int, nb as int);
            assert(sa[0] == a@[i as int]);
            assert(sb[0] == b@[i as int]);
            assert(sa.subrange(1, sa.len() as int) =~= a@.subrange(i + 1, na as int));
            assert(sb.subrange(1, sb.len() as int) =~= b@.subrange(i + 1, nb as int));
        }
        i += 1;
    }
    proof {
        if i == na {
            assert(a@.subrange(i as int, na as int).len() == 0);
        } else {
            assert(i == nb);
            assert(b@.subrange(i as int, nb as int).len() == 0);
            assert(a@.subrange(i as int, na as int).len() > 0);
        }
    }
    na <= nb
}

/// Whether `a` orders no later than `b` in the value order.
pub fn val_le_exec(a: &RawVal, b: &RawVal) -> (r: bool)
    ensures
        r == val_le(a@, b@),
{
    match (a, b) {
        (RawVal::Null, _) => true,
        (_, RawVal::Null) => false,
        (RawVal::Int(x), RawVal::Int(y)) => *x <= *y,
        (RawVal::Int(_), RawVal::Str(_)) => true,
        (RawVal::Str(_), RawVal::Int(_)) => false,
        (RawVal::Str(x), RawVal::Str(y)) => str_le_exec(x.as_str(), y.as_str()),
    }
}

} // verus!
