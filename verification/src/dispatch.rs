//! Typed dispatch: instantiating an operator over the cross product of
//! encodings named by type classes.
//!
//! A dispatch site has a list of productions; each production is a list of
//! declarations `vars: Class`.  The sequence of variable groups must be the
//! same in every production (checked by [`productions_aligned`]).  At
//! dispatch time all variables of one group must carry the same runtime
//! tag; then the first production whose classes contain the group tags is
//! selected, and the fallback error is reached exactly when no production
//! matches.

use vstd::prelude::*;

use crate::encoding::{class_contains, class_contains_exec, tag_name, DispatchArg, TypeClass};
use crate::error::QueryError;
use crate::expr::Aggregator;
use vstd::string::StringExecFns;

verus! {

/// One `vars: Class` declaration of a production.
#[derive(Debug)]
pub struct Declaration {
    pub variables: Vec<String>,
    pub class: TypeClass,
}

/// One production of a dispatch site: its declarations, in order.
#[derive(Debug)]
pub struct Production {
    pub declarations: Vec<Declaration>,
}

/// The variable names of a declaration.
pub open spec fn decl_vars(d: Declaration) -> Seq<Seq<char>> {
    d.variables@.map_values(|s: String| s@)
}

/// Two productions declare the same variable groups in the same order.
pub open spec fn same_shape(p: Production, q: Production) -> bool {
    &&& p.declarations@.len() == q.declarations@.len()
    &&& forall|k: int|
        0 <= k < p.declarations@.len() ==> decl_vars(#[trigger] p.declarations@[k]) == decl_vars(
            q.declarations@[k],
        )
}

/// Every production declares the same variable groups in the same order.
pub open spec fn aligned(ps: Seq<Production>) -> bool {
    forall|i: int, j: int|
        0 <= i < ps.len() && 0 <= j < ps.len() ==> same_shape(#[trigger] ps[i], #[trigger] ps[j])
}

/// The group argument lists of a dispatch call.
pub open spec fn binding_views(b: Seq<Vec<DispatchArg>>) -> Seq<Seq<DispatchArg>> {
    b.map_values(|v: Vec<DispatchArg>| v@)
}

/// The binding has one non-empty argument list per variable group of `p`,
/// of the group's arity.
pub open spec fn binding_shaped(p: Production, b: Seq<Seq<DispatchArg>>) -> bool {
    &&& b.len() == p.declarations@.len()
    &&& forall|k: int|
        0 <= k < b.len() ==> (#[trigger] b[k]).len() == decl_vars(p.declarations@[k]).len() && b[
            k].len() > 0
}

/// All variables of each group carry the same runtime tag.
pub open spec fn same_tags(b: Seq<Seq<DispatchArg>>) -> bool {
    forall|k: int, x: int|
        0 <= k < b.len() && 0 <= x < b[k].len() ==> (#[trigger] b[k][x]) == b[k][0]
}

/// The production accepts the group tags of the binding.
pub open spec fn production_matches(p: Production, b: Seq<Seq<DispatchArg>>) -> bool {
    &&& b.len() == p.declarations@.len()
    &&& forall|k: int|
        0 <= k < b.len() ==> (#[trigger] b[k]).len() > 0 && class_contains(
            p.declarations@[k].class,
            b[k][0],
        )
}

/// Whether two variable name lists are equal.
fn vars_equal(a: &Vec<String>, b: &Vec<String>) -> (r: bool)
    ensures
        r == (a@.map_values(|s: String| s@) == b@.map_values(|s: String| s@)),
{
    if a.len() != b.len() {
        proof {
            assert(a@.map_values(|s: String| s@).len() == a@.len());
            assert(b@.map_values(|s: String| s@).len() == b@.len());
        }
        return false;
    }
    let mut i: usize = 0;
    while i < a.len()
        invariant
            a@.len() == b@.len(),
            0 <= i <= a@.len(),
            forall|k: int| 0 <= k < i ==> (#[trigger] a@[k])@ == b@[k]@,
        decreases a@.len() - i,
    {
        if !(a[i] == b[i]) {
            proof {
                assert(a@.map_values(|s: String| s@)[i as int] != b@.map_values(|s: String| s@)[
                    i as int]);
            }
            return false;
        }
        i += 1;
    }
    proof {
        assert(a@.map_values(|s: String| s@) =~= b@.map_values(|s: String| s@));
    }
    true
}

/// Whether two productions have the same shape.
fn same_shape_exec(p: &Production, q: &Production) -> (r: bool)
    ensures
        r == same_shape(*p, *q),
{
    if p.declarations.len() != q.declarations.len() {
        return false;
    }
    let mut k: usize = 0;
    while k < p.declarations.len()
        invariant
            p.declarations@.len() == q.declarations@.len(),
            0 <= k <= p.declarations@.len(),
            forall|x: int|
                0 <= x < k ==> decl_vars(#[trigger] p.declarations@[x]) == decl_vars(
                    q.declarations@[x],
                ),
        decreases p.declarations@.len() - k,
    {
        if !vars_equal(&p.declarations[k].variables, &q.declarations[k].variables) {
            return false;
        }
        k += 1;
    }
    true
}

/// Build-time check of a dispatch site: every production must declare the
/// same variable groups in the same order.
pub fn productions_aligned(ps: &Vec<Production>) -> (r: bool)
    ensures
        r == aligned(ps@),
{
    if ps.len() == 0 {
        return true;
    }
    let mut i: usize = 1;
    while i < ps.len()
        invariant
            ps@.len() > 0,
            1 <= i <= ps@.len(),
            forall|x: int| 0 <= x < i ==> same_shape(ps@[0], #[trigger] ps@[x]),
        decreases ps@.len() - i,
    {
        if !same_shape_exec(&ps[0], &ps[i]) {
            proof {
                assert(!same_shape(ps@[0], ps@[i as int]));
            }
            return false;
        }
        i += 1;
    }
    proof {
        assert forall|x: int, y: int|
            0 <= x < ps@.len() && 0 <= y < ps@.len() implies same_shape(
            #[trigger] ps@[x],
            #[trigger] ps@[y],
        ) by {
            assert(same_shape(ps@[0], ps@[x]));
            assert(same_shape(ps@[0], ps@[y]));
            assert forall|k: int| 0 <= k < ps@[x].declarations@.len() implies decl_vars(
                #[trigger] ps@[x].declarations@[k],
            ) == decl_vars(ps@[y].declarations@[k]) by {
                assert(decl_vars(ps@[0].declarations@[k]) == decl_vars(ps@[x].declarations@[k]));
                assert(decl_vars(ps@[0].declarations@[k]) == decl_vars(ps@[y].declarations@[k]));
            }
        }
    }
    true
}

/// The characters of a dispatch argument's display name.
pub open spec fn arg_name_spec(a: DispatchArg) -> Seq<char> {
    match a {
        DispatchArg::Tag(t) => crate::encoding::tag_name_spec(t),
        DispatchArg::Agg(g) => match g {
            Aggregator::Count => "Count"@,
            Aggregator::SumI64 => "SumI64"@,
            Aggregator::SumF64 => "SumF64"@,
            Aggregator::MinI64 => "MinI64"@,
            Aggregator::MinF64 => "MinF64"@,
            Aggregator::MaxI64 => "MaxI64"@,
            Aggregator::MaxF64 => "MaxF64"@,
        },
    }
}

/// The display name of a dispatch argument, for error reports.
pub fn arg_name(a: DispatchArg) -> (r: String)
    ensures
        r@ == arg_name_spec(a),
{
    match a {
        DispatchArg::Tag(t) => tag_name(t),
        DispatchArg::Agg(g) => {
            let s: &str = match g {
                Aggregator::Count => "Count",
                Aggregator::SumI64 => "SumI64",
                Aggregator::SumF64 => "SumF64",
                Aggregator::MinI64 => "MinI64",
                Aggregator::MinF64 => "MinF64",
                Aggregator::MaxI64 => "MaxI64",
                Aggregator::MaxF64 => "MaxF64",
            };
            proof {
                reveal_strlit("Count");
                reveal_strlit("SumI64");
                reveal_strlit("SumF64");
                reveal_strlit("MinI64");
                reveal_strlit("MinF64");
                reveal_strlit("MaxI64");
                reveal_strlit("MaxF64");
            }
            s.to_owned()
        },
    }
}

/// Whether the production accepts the group tags of the binding.
fn production_matches_exec(p: &Production, binding: &Vec<Vec<DispatchArg>>) -> (r: bool)
    ensures
        r == production_matches(*p, binding_views(binding@)),
{
    if binding.len() != p.declarations.len() {
        return false;
    }
    let mut k: usize = 0;
    while k < binding.len()
        invariant
            binding@.len() == p.declarations@.len(),
            0 <= k <= binding@.len(),
            forall|x: int|
                0 <= x < k ==> (#[trigger] binding_views(binding@)[x]).len() > 0 && class_contains(
                    p.declarations@[x].class,
                    binding_views(binding@)[x][0],
                ),
        decreases binding@.len() - k,
    {
        if binding[k].len() == 0 {
            proof {
                assert(binding_views(binding@)[k as int].len() == 0);
            }
            return false;
        }
        if !class_contains_exec(p.declarations[k].class, binding[k][0]) {
            proof {
                assert(!class_contains(
                    p.declarations@[k as int].class,
                    binding_views(binding@)[k as int][0],
                ));
            }
            return false;
        }
        k += 1;
    }
    true
}

/// The exact text of the error reporting two variables of one group with
/// different runtime tags.
pub open spec fn mismatch_text(
    x: Seq<char>,
    y: Seq<char>,
    tx: DispatchArg,
    ty: DispatchArg,
) -> Seq<char> {
    "Expected identical types for `"@ + x + "` ("@ + arg_name_spec(tx) + ") and `"@ + y + "` ("@
        + arg_name_spec(ty) + ")."@
}

/// The tag list of a fallback report: each group's tag name, comma
/// separated, over the first `upto` groups.
pub open spec fn ns_args(binding: Seq<Seq<DispatchArg>>, upto: int) -> Seq<char>
    decreases upto,
{
    if upto <= 0 {
        Seq::empty()
    } else {
        let prev = ns_args(binding, upto - 1);
        let part: Seq<char> = if binding[upto - 1].len() > 0 {
            arg_name_spec(binding[upto - 1][0])
        } else {
            Seq::empty()
        };
        if upto == 1 {
            prev + part
        } else {
            prev + ", "@ + part
        }
    }
}

/// The fallback report's text: the operator does not support the bound
/// tags.
pub open spec fn ns_text(name: Seq<char>, binding: Seq<Seq<DispatchArg>>) -> Seq<char> {
    name + " not supported for type ("@ + ns_args(binding, binding.len() as int) + ")"@
}

impl QueryError {
    /// The fatal error reporting two variables of one group with different
    /// runtime tags.
    fn mismatched_types(x: &String, y: &String, tx: DispatchArg, ty: DispatchArg) -> (r:
        QueryError)
        ensures
            r is FatalError,
            r.message_spec() == mismatch_text(x@, y@, tx, ty),
    {
        let mut msg: String = "Expected identical types for `".to_owned();
        msg.append(x.as_str());
        msg.append("` (");
        msg.append(arg_name(tx).as_str());
        msg.append(") and `");
        msg.append(y.as_str());
        msg.append("` (");
        msg.append(arg_name(ty).as_str());
        msg.append(").");
        QueryError::FatalError(msg)
    }

    /// The fallback error of a dispatch site: the operator does not support
    /// the bound tags.
    fn not_supported(name: &String, binding: &Vec<Vec<DispatchArg>>) -> (r: QueryError)
        ensures
            r is FatalError,
            r.message_spec() == ns_text(name@, binding_views(binding@)),
    {
        proof {
            reveal_strlit(" not supported for type (");
            reveal_strlit(", ");
            reveal_strlit(")");
        }
        let mut msg: String = name.clone();
        msg.append(" not supported for type (");
        let mut k: usize = 0;
        while k < binding.len()
            invariant
                0 <= k <= binding@.len(),
                msg@ == name@ + " not supported for type ("@ + ns_args(
                    binding_views(binding@),
                    k as int,
                ),
            decreases binding@.len() - k,
        {
            if k > 0 {
                msg.append(", ");
            }
            if binding[k].len() > 0 {
                msg.append(arg_name(binding[k][0]).as_str());
                proof {
                    assert(binding_views(binding@)[k as int][0] == binding@[k as int]@[0]);
                }
            }
            proof {
                assert(binding_views(binding@)[k as int].len() == binding@[k as int]@.len());
                assert(msg@ =~= name@ + " not supported for type ("@ + ns_args(
                    binding_views(binding@),
                    k + 1,
                ));
            }
            k += 1;
        }
        msg.append(")");
        proof {
            assert(binding_views(binding@).len() == binding@.len());
            assert(msg@ =~= ns_text(name@, binding_views(binding@)));
        }
        QueryError::FatalError(msg)
    }
}

/// Dispatches one call: checks that all variables of each group carry the
/// same tag, then selects the first production whose classes contain the
/// group tags.  The fallback error is returned exactly when the same-tag
/// check fails or no production matches.
pub fn dispatch(name: &String, productions: &Vec<Production>, binding: &Vec<Vec<DispatchArg>>) -> (r:
    Result<usize, QueryError>)
    requires
        productions@.len() > 0,
        aligned(productions@),
        binding_shaped(productions@[0], binding_views(binding@)),
    ensures
        r matches Ok(i) ==> {
            &&& 0 <= i < productions@.len()
            &&& same_tags(binding_views(binding@))
            &&& production_matches(productions@[i as int], binding_views(binding@))
            &&& forall|j: int|
                0 <= j < i ==> !production_matches(
                    #[trigger] productions@[j],
                    binding_views(binding@),
                )
        },
        r matches Err(e) ==> e is FatalError,
        r matches Err(e) ==> (same_tags(binding_views(binding@)) ==> e.message_spec() == ns_text(
            name@,
            binding_views(binding@),
        )),
        r matches Err(e) ==> !same_tags(binding_views(binding@)) ==> exists|k: int, x: int|
            0 <= k < binding@.len() && 0 <= x < (#[trigger] binding_views(binding@)[k]).len() && (
            #[trigger] binding_views(binding@)[k][x]) != binding_views(binding@)[k][0]
                && e.message_spec() == mismatch_text(
                decl_vars(productions@[0].declarations@[k])[0],
                decl_vars(productions@[0].declarations@[k])[x],
                binding_views(binding@)[k][0],
                binding_views(binding@)[k][x],
            ),
        r is Ok <==> same_tags(binding_views(binding@)) && exists|j: int|
            0 <= j < productions@.len() && production_matches(
                #[trigger] productions@[j],
                binding_views(binding@),
            ),
{
    let mut k: usize = 0;
    while k < binding.len()
        invariant
            binding_shaped(productions@[0], binding_views(binding@)),
            productions@.len() > 0,
            0 <= k <= binding@.len(),
            forall|a: int, x: int|
                0 <= a < k && 0 <= x < binding_views(binding@)[a].len() ==> (
                #[trigger] binding_views(binding@)[a][x]) == binding_views(binding@)[a][0],
        decreases binding@.len() - k,
    {
        proof {
            assert(binding_views(binding@)[k as int].len() > 0);
            assert(binding_views(binding@)[k as int] == binding@[k as int]@);
        }
        let mut x: usize = 1;
        while x < binding[k].len()
            invariant
                binding_shaped(productions@[0], binding_views(binding@)),
                productions@.len() > 0,
                0 <= k < binding@.len(),
                1 <= x <= binding@[k as int]@.len(),
                forall|y: int|
                    0 <= y < x ==> (#[trigger] binding_views(binding@)[k as int][y])
                        == binding_views(binding@)[k as int][0],
            decreases binding@[k as int]@.len() - x,
        {
            if !(binding[k][x] == binding[k][0]) {
                proof {
                    assert(binding_views(binding@)[k as int][x as int] != binding_views(binding@)[
                        k as int][0]);
                    assert(!same_tags(binding_views(binding@)));
                }
                let e = QueryError::mismatched_types(
                    &productions[0].declarations[k].variables[0],
                    &productions[0].declarations[k].variables[x],
                    binding[k][0],
                    binding[k][x],
                );
                proof {
                    let bv = binding_views(binding@);
                    assert(bv[k as int][x as int] == binding@[k as int]@[x as int]);
                    assert(bv[k as int][0] == binding@[k as int]@[0]);
                    assert(decl_vars(productions@[0].declarations@[k as int])[0]
                        == productions@[0].declarations@[k as int].variables@[0]@);
                    assert(decl_vars(productions@[0].declarations@[k as int])[x as int]
                        == productions@[0].declarations@[k as int].variables@[x as int]@);
                }
                return Err(e);
            }
            x += 1;
        }
        k += 1;
    }
    assert(same_tags(binding_views(binding@)));
    let mut i: usize = 0;
    while i < productions.len()
        invariant
            same_tags(binding_views(binding@)),
            0 <= i <= productions@.len(),
            forall|j: int|
                0 <= j < i ==> !production_matches(
                    #[trigger] productions@[j],
                    binding_views(binding@),
                ),
        decreases productions@.len() - i,
    {
        if production_matches_exec(&productions[i], binding) {
            return Ok(i);
        }
        i += 1;
    }
    Err(QueryError::not_supported(name, binding))
}

} // verus!
