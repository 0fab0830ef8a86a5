//! Logical-plan optimizer: predicate pushdown.
//!
//! A `Filter` moves down the tree as far as its predicate's variable
//! references allow:
//!
//! - `Filter(Project(input, exprs), pred)` becomes
//!   `Project(Filter(input, pred), exprs)` when `pred` uses no alias that
//!   the projection introduces;
//! - `Filter(Expand(input, ..), pred)` becomes `Expand(Filter(input, pred), ..)`
//!   when `pred` uses neither the relationship nor the destination that
//!   the expansion binds;
//! - `Filter(Sort(..))` and `Filter(Distinct(..))` always swap;
//! - `Filter(Cartesian(l, r), pred)` moves into the side whose bound
//!   variables cover every variable of `pred` (the left side first), when
//!   `pred` uses any variable at all.
//!
//! It never moves through `Limit`, `Skip` or `Optional`, which would change
//! which rows are seen, nor through any other operator.
//!
//! One pass rewrites the children first and then the node itself; the
//! result of a pass is already a fixpoint of further passes.
use vstd::prelude::*;

use crate::ast;
use crate::ast::{Expr, SExpr, SItem};
use crate::names::{
    distinct_names, extend_names, insert_name, name_set, names_disjoint, names_empty, names_subset,
    no_names, used_vars, used_vars_expr,
};
use crate::plan::{projs_model, Plan, ProjectExpr, SPlan};

verus! {

/// The one-element set of a name, or the empty set.
pub open spec fn opt_set(v: Option<Seq<char>>) -> Set<Seq<char>> {
    match v {
        Some(x) => Set::empty().insert(x),
        None => Set::empty(),
    }
}

/// The aliases that projection items introduce.
pub open spec fn aliases(s: Seq<SItem>) -> Set<Seq<char>>
    decreases s.len(),
{
    if s.len() == 0 {
        Set::empty()
    } else {
        aliases(s.drop_last()).union(opt_set(s.last().alias))
    }
}

/// The variables that a plan binds: scanned, expanded, unwound and
/// projected names, on every branch.
pub open spec fn bound_vars(p: SPlan) -> Set<Seq<char>>
    decreases p,
{
    match p {
        SPlan::Empty => Set::empty(),
        SPlan::Scan { var, .. } => opt_set(var),
        SPlan::Expand { input, rel_var, dst, .. } => bound_vars(*input).union(opt_set(rel_var)).union(
            opt_set(dst),
        ),
        SPlan::Filter { input, .. } => bound_vars(*input),
        SPlan::Project { input, exprs } => bound_vars(*input).union(aliases(exprs)),
        SPlan::Distinct { input } => bound_vars(*input),
        SPlan::Sort { input, .. } => bound_vars(*input),
        SPlan::Skip { input, .. } => bound_vars(*input),
        SPlan::Limit { input, .. } => bound_vars(*input),
        SPlan::Cartesian { left, right } => bound_vars(*left).union(bound_vars(*right)),
        SPlan::Optional { input, optional } => bound_vars(*input).union(bound_vars(*optional)),
        SPlan::Unwind { input, var, .. } => bound_vars(*input).insert(var),
        SPlan::Delete { input, .. } => bound_vars(*input),
    }
}

/// `pred` placed as low as it may go in `input`.
pub open spec fn push_filter(input: SPlan, pred: SExpr) -> SPlan
    decreases input,
{
    match input {
        SPlan::Project { input: pi, exprs } => if used_vars(pred).disjoint(aliases(exprs)) {
            SPlan::Project { input: Box::new(push_filter(*pi, pred)), exprs }
        } else {
            SPlan::Filter { input: Box::new(SPlan::Project { input: pi, exprs }), pred }
        },
        SPlan::Expand { input: ei, src, rel_var, rel_types, direction, dst, dst_label } => if used_vars(
            pred,
        ).disjoint(opt_set(rel_var).union(opt_set(dst))) {
            SPlan::Expand {
                input: Box::new(push_filter(*ei, pred)),
                src,
                rel_var,
                rel_types,
                direction,
                dst,
                dst_label,
            }
        } else {
            SPlan::Filter {
                input: Box::new(
                    SPlan::Expand { input: ei, src, rel_var, rel_types, direction, dst, dst_label },
                ),
                pred,
            }
        },
        SPlan::Sort { input: si, keys } => SPlan::Sort { input: Box::new(push_filter(*si, pred)), keys },
        SPlan::Distinct { input: di } => SPlan::Distinct { input: Box::new(push_filter(*di, pred)) },
        SPlan::Cartesian { left, right } => {
            let used = used_vars(pred);
            if !used.is_empty() && used.subset_of(bound_vars(*left)) {
                SPlan::Cartesian { left: Box::new(push_filter(*left, pred)), right }
            } else if !used.is_empty() && used.subset_of(bound_vars(*right)) {
                SPlan::Cartesian { left, right: Box::new(push_filter(*right, pred)) }
            } else {
                SPlan::Filter { input: Box::new(SPlan::Cartesian { left, right }), pred }
            }
        },
        _ => SPlan::Filter { input: Box::new(input), pred },
    }
}

/// The rewrite at the root of `p`.
pub open spec fn apply_local(p: SPlan) -> SPlan {
    match p {
        SPlan::Filter { input, pred } => push_filter(*input, pred),
        _ => p,
    }
}

/// `p` with one pass applied to each child.
pub open spec fn descend(p: SPlan) -> SPlan
    decreases p, 0nat,
{
    match p {
        SPlan::Empty => p,
        SPlan::Scan { .. } => p,
        SPlan::Expand { input, src, rel_var, rel_types, direction, dst, dst_label } => SPlan::Expand {
            input: Box::new(pass(*input)),
            src,
            rel_var,
            rel_types,
            direction,
            dst,
            dst_label,
        },
        SPlan::Filter { input, pred } => SPlan::Filter { input: Box::new(pass(*input)), pred },
        SPlan::Project { input, exprs } => SPlan::Project { input: Box::new(pass(*input)), exprs },
        SPlan::Distinct { input } => SPlan::Distinct { input: Box::new(pass(*input)) },
        SPlan::Sort { input, keys } => SPlan::Sort { input: Box::new(pass(*input)), keys },
        SPlan::Skip { input, count } => SPlan::Skip { input: Box::new(pass(*input)), count },
        SPlan::Limit { input, count } => SPlan::Limit { input: Box::new(pass(*input)), count },
        SPlan::Cartesian { left, right } => SPlan::Cartesian {
            left: Box::new(pass(*left)),
            right: Box::new(pass(*right)),
        },
        SPlan::Optional { input, optional } => SPlan::Optional {
            input: Box::new(pass(*input)),
            optional: Box::new(pass(*optional)),
        },
        SPlan::Unwind { input, expr, var } => SPlan::Unwind { input: Box::new(pass(*input)), expr, var },
        SPlan::Delete { input, detach, exprs } => SPlan::Delete {
            input: Box::new(pass(*input)),
            detach,
            exprs,
        },
    }
}

/// One pass: the children, then the root.
pub open spec fn pass(p: SPlan) -> SPlan
    decreases p, 1nat,
{
    apply_local(descend(p))
}

// ---- the laws -------------------------------------------------------------------

/// A node other than a filter, whose children a pass leaves unchanged, is
/// left unchanged too.
proof fn lemma_pass_node(p: SPlan)
    requires
        !(p is Filter),
        descend(p) == p,
    ensures
        pass(p) == p,
{
    reveal_with_fuel(pass, 2);
}

/// Pushing a predicate into a plan that a pass leaves unchanged gives a plan
/// that a pass leaves unchanged.
proof fn lemma_push_normal(x: SPlan, pred: SExpr)
    requires
        pass(x) == x,
    ensures
        pass(push_filter(x, pred)) == push_filter(x, pred),
    decreases x,
{
    reveal_with_fuel(pass, 2);
    reveal_with_fuel(descend, 2);
    let r = push_filter(x, pred);
    match x {
        SPlan::Project { input: pi, exprs } => {
            assert(pass(*pi) == *pi);
            if used_vars(pred).disjoint(aliases(exprs)) {
                lemma_push_normal(*pi, pred);
                lemma_pass_node(r);
            } else {
                assert(pass(r) == push_filter(pass(x), pred));
            }
        },
        SPlan::Expand { input: ei, rel_var, dst, .. } => {
            assert(pass(*ei) == *ei);
            if used_vars(pred).disjoint(opt_set(rel_var).union(opt_set(dst))) {
                lemma_push_normal(*ei, pred);
                lemma_pass_node(r);
            } else {
                assert(pass(r) == push_filter(pass(x), pred));
            }
        },
        SPlan::Sort { input: si, keys } => {
            assert(pass(*si) == *si);
            lemma_push_normal(*si, pred);
            lemma_pass_node(r);
        },
        SPlan::Distinct { input: di } => {
            assert(pass(*di) == *di);
            lemma_push_normal(*di, pred);
            lemma_pass_node(r);
        },
        SPlan::Cartesian { left, right } => {
            assert(pass(*left) == *left);
            assert(pass(*right) == *right);
            let used = used_vars(pred);
            if !used.is_empty() && used.subset_of(bound_vars(*left)) {
                lemma_push_normal(*left, pred);
                lemma_pass_node(r);
            } else if !used.is_empty() && used.subset_of(bound_vars(*right)) {
                lemma_push_normal(*right, pred);
                lemma_pass_node(r);
            } else {
                assert(pass(r) == push_filter(pass(x), pred));
            }
        },
        _ => {
            assert(pass(r) == push_filter(pass(x), pred));
        },
    }
}

/// A pass reaches a fixpoint: a second pass changes nothing.
pub proof fn lemma_pass_idempotent(p: SPlan)
    ensures
        pass(pass(p)) == pass(p),
    decreases p,
{
    reveal_with_fuel(pass, 2);
    reveal_with_fuel(descend, 2);
    match p {
        SPlan::Empty => {},
        SPlan::Scan { .. } => {},
        SPlan::Expand { input, .. } => {
            lemma_pass_idempotent(*input);
            lemma_pass_node(pass(p));
        },
        SPlan::Filter { input, pred } => {
            lemma_pass_idempotent(*input);
            lemma_push_normal(pass(*input), pred);
        },
        SPlan::Project { input, .. } => {
            lemma_pass_idempotent(*input);
            lemma_pass_node(pass(p));
        },
        SPlan::Distinct { input } => {
            lemma_pass_idempotent(*input);
            lemma_pass_node(pass(p));
        },
        SPlan::Sort { input, .. } => {
            lemma_pass_idempotent(*input);
            lemma_pass_node(pass(p));
        },
        SPlan::Skip { input, .. } => {
            lemma_pass_idempotent(*input);
            lemma_pass_node(pass(p));
        },
        SPlan::Limit { input, .. } => {
            lemma_pass_idempotent(*input);
            lemma_pass_node(pass(p));
        },
        SPlan::Cartesian { left, right } => {
            lemma_pass_idempotent(*left);
            lemma_pass_idempotent(*right);
            lemma_pass_node(pass(p));
        },
        SPlan::Optional { input, optional } => {
            lemma_pass_idempotent(*input);
            lemma_pass_idempotent(*optional);
            lemma_pass_node(pass(p));
        },
        SPlan::Unwind { input, .. } => {
            lemma_pass_idempotent(*input);
            lemma_pass_node(pass(p));
        },
        SPlan::Delete { input, .. } => {
            lemma_pass_idempotent(*input);
            lemma_pass_node(pass(p));
        },
    }
}

/// `p` without its `Filter` operators.
pub open spec fn strip_filters(p: SPlan) -> SPlan
    decreases p,
{
    match p {
        SPlan::Empty => p,
        SPlan::Scan { .. } => p,
        SPlan::Expand { input, src, rel_var, rel_types, direction, dst, dst_label } => SPlan::Expand {
            input: Box::new(strip_filters(*input)),
            src,
            rel_var,
            rel_types,
            direction,
            dst,
            dst_label,
        },
        SPlan::Filter { input, .. } => strip_filters(*input),
        SPlan::Project { input, exprs } => SPlan::Project {
            input: Box::new(strip_filters(*input)),
            exprs,
        },
        SPlan::Distinct { input } => SPlan::Distinct { input: Box::new(strip_filters(*input)) },
        SPlan::Sort { input, keys } => SPlan::Sort { input: Box::new(strip_filters(*input)), keys },
        SPlan::Skip { input, count } => SPlan::Skip { input: Box::new(strip_filters(*input)), count },
        SPlan::Limit { input, count } => SPlan::Limit {
            input: Box::new(strip_filters(*input)),
            count,
        },
        SPlan::Cartesian { left, right } => SPlan::Cartesian {
            left: Box::new(strip_filters(*left)),
            right: Box::new(strip_filters(*right)),
        },
        SPlan::Optional { input, optional } => SPlan::Optional {
            input: Box::new(strip_filters(*input)),
            optional: Box::new(strip_filters(*optional)),
        },
        SPlan::Unwind { input, expr, var } => SPlan::Unwind {
            input: Box::new(strip_filters(*input)),
            expr,
            var,
        },
        SPlan::Delete { input, detach, exprs } => SPlan::Delete {
            input: Box::new(strip_filters(*input)),
            detach,
            exprs,
        },
    }
}

/// The predicates of the `Filter` operators of `p`, with their repetitions.
pub open spec fn filter_preds(p: SPlan) -> vstd::multiset::Multiset<SExpr>
    decreases p,
{
    match p {
        SPlan::Empty => vstd::multiset::Multiset::empty(),
        SPlan::Scan { .. } => vstd::multiset::Multiset::empty(),
        SPlan::Expand { input, .. } => filter_preds(*input),
        SPlan::Filter { input, pred } => filter_preds(*input).insert(pred),
        SPlan::Project { input, .. } => filter_preds(*input),
        SPlan::Distinct { input } => filter_preds(*input),
        SPlan::Sort { input, .. } => filter_preds(*input),
        SPlan::Skip { input, .. } => filter_preds(*input),
        SPlan::Limit { input, .. } => filter_preds(*input),
        SPlan::Cartesian { left, right } => filter_preds(*left).add(filter_preds(*right)),
        SPlan::Optional { input, optional } => filter_preds(*input).add(filter_preds(*optional)),
        SPlan::Unwind { input, .. } => filter_preds(*input),
        SPlan::Delete { input, .. } => filter_preds(*input),
    }
}

proof fn lemma_push_moves_filter(x: SPlan, pred: SExpr)
    ensures
        strip_filters(push_filter(x, pred)) == strip_filters(x),
        filter_preds(push_filter(x, pred)) == filter_preds(x).insert(pred),
        bound_vars(push_filter(x, pred)) == bound_vars(x),
    decreases x,
{
    broadcast use vstd::multiset::group_multiset_axioms;

    match x {
        SPlan::Project { input: pi, exprs } => {
            if used_vars(pred).disjoint(aliases(exprs)) {
                lemma_push_moves_filter(*pi, pred);
            }
        },
        SPlan::Expand { input, rel_var, dst, .. } => {
            if used_vars(pred).disjoint(opt_set(rel_var).union(opt_set(dst))) {
                lemma_push_moves_filter(*input, pred);
            }
        },
        SPlan::Sort { input, .. } => lemma_push_moves_filter(*input, pred),
        SPlan::Distinct { input } => lemma_push_moves_filter(*input, pred),
        SPlan::Cartesian { left, right } => {
            let used = used_vars(pred);
            if !used.is_empty() && used.subset_of(bound_vars(*left)) {
                lemma_push_moves_filter(*left, pred);
                assert(filter_preds(*left).insert(pred).add(filter_preds(*right)) =~= filter_preds(
                    *left,
                ).add(filter_preds(*right)).insert(pred));
            } else if !used.is_empty() && used.subset_of(bound_vars(*right)) {
                lemma_push_moves_filter(*right, pred);
                assert(filter_preds(*left).add(filter_preds(*right).insert(pred)) =~= filter_preds(
                    *left,
                ).add(filter_preds(*right)).insert(pred));
            }
        },
        _ => {},
    }
}

/// Optimizing a plan only moves its filters: with the filters taken out, the
/// plan is the same; the filter predicates are the same, none lost and none
/// repeated; and the plan binds the same variables.
pub proof fn lemma_optimize_moves_filters_only(p: SPlan)
    ensures
        strip_filters(pass(p)) == strip_filters(p),
        filter_preds(pass(p)) == filter_preds(p),
        bound_vars(pass(p)) == bound_vars(p),
    decreases p,
{
    match p {
        SPlan::Filter { input, pred } => {
            lemma_optimize_moves_filters_only(*input);
            lemma_push_moves_filter(pass(*input), pred);
        },
        SPlan::Expand { input, .. } => lemma_optimize_moves_filters_only(*input),
        SPlan::Project { input, .. } => lemma_optimize_moves_filters_only(*input),
        SPlan::Distinct { input } => lemma_optimize_moves_filters_only(*input),
        SPlan::Sort { input, .. } => lemma_optimize_moves_filters_only(*input),
        SPlan::Skip { input, .. } => lemma_optimize_moves_filters_only(*input),
        SPlan::Limit { input, .. } => lemma_optimize_moves_filters_only(*input),
        SPlan::Cartesian { left, right } => {
            lemma_optimize_moves_filters_only(*left);
            lemma_optimize_moves_filters_only(*right);
        },
        SPlan::Optional { input, optional } => {
            lemma_optimize_moves_filters_only(*input);
            lemma_optimize_moves_filters_only(*optional);
        },
        SPlan::Unwind { input, .. } => lemma_optimize_moves_filters_only(*input),
        SPlan::Delete { input, .. } => lemma_optimize_moves_filters_only(*input),
        _ => {},
    }
}

/// `p` has no `Filter` operator.
pub open spec fn filter_free(p: SPlan) -> bool
    decreases p,
{
    match p {
        SPlan::Empty => true,
        SPlan::Scan { .. } => true,
        SPlan::Expand { input, .. } => filter_free(*input),
        SPlan::Filter { .. } => false,
        SPlan::Project { input, .. } => filter_free(*input),
        SPlan::Distinct { input } => filter_free(*input),
        SPlan::Sort { input, .. } => filter_free(*input),
        SPlan::Skip { input, .. } => filter_free(*input),
        SPlan::Limit { input, .. } => filter_free(*input),
        SPlan::Cartesian { left, right } => filter_free(*left) && filter_free(*right),
        SPlan::Optional { input, optional } => filter_free(*input) && filter_free(*optional),
        SPlan::Unwind { input, .. } => filter_free(*input),
        SPlan::Delete { input, .. } => filter_free(*input),
    }
}

/// Optimizing a plan without filters leaves it as it is.
pub proof fn lemma_optimize_keeps_filter_free_plans(p: SPlan)
    requires
        filter_free(p),
    ensures
        pass(p) == p,
    decreases p,
{
    reveal_with_fuel(pass, 2);
    match p {
        SPlan::Expand { input, .. } => lemma_optimize_keeps_filter_free_plans(*input),
        SPlan::Project { input, .. } => lemma_optimize_keeps_filter_free_plans(*input),
        SPlan::Distinct { input } => lemma_optimize_keeps_filter_free_plans(*input),
        SPlan::Sort { input, .. } => lemma_optimize_keeps_filter_free_plans(*input),
        SPlan::Skip { input, .. } => lemma_optimize_keeps_filter_free_plans(*input),
        SPlan::Limit { input, .. } => lemma_optimize_keeps_filter_free_plans(*input),
        SPlan::Cartesian { left, right } => {
            lemma_optimize_keeps_filter_free_plans(*left);
            lemma_optimize_keeps_filter_free_plans(*right);
        },
        SPlan::Optional { input, optional } => {
            lemma_optimize_keeps_filter_free_plans(*input);
            lemma_optimize_keeps_filter_free_plans(*optional);
        },
        SPlan::Unwind { input, .. } => lemma_optimize_keeps_filter_free_plans(*input),
        SPlan::Delete { input, .. } => lemma_optimize_keeps_filter_free_plans(*input),
        _ => {},
    }
}

/// A filter directly above a `Limit`, a `Skip` or an `Optional` stays
/// there: optimizing only rewrites what lies below it.
pub proof fn lemma_filter_stops_at_blockers(input: SPlan, pred: SExpr)
    requires
        input is Limit || input is Skip || input is Optional,
    ensures
        pass(SPlan::Filter { input: Box::new(input), pred }) == (SPlan::Filter {
            input: Box::new(pass(input)),
            pred,
        }),
{
    reveal_with_fuel(pass, 2);
    reveal_with_fuel(descend, 2);
    assert(pass(input) is Limit || pass(input) is Skip || pass(input) is Optional);
}

/// Every filter of `p` refers only to variables that its own input binds.
pub open spec fn filters_in_scope(p: SPlan) -> bool
    decreases p,
{
    match p {
        SPlan::Empty => true,
        SPlan::Scan { .. } => true,
        SPlan::Filter { input, pred } => used_vars(pred).subset_of(bound_vars(*input))
            && filters_in_scope(*input),
        SPlan::Expand { input, .. } => filters_in_scope(*input),
        SPlan::Project { input, .. } => filters_in_scope(*input),
        SPlan::Distinct { input } => filters_in_scope(*input),
        SPlan::Sort { input, .. } => filters_in_scope(*input),
        SPlan::Skip { input, .. } => filters_in_scope(*input),
        SPlan::Limit { input, .. } => filters_in_scope(*input),
        SPlan::Cartesian { left, right } => filters_in_scope(*left) && filters_in_scope(*right),
        SPlan::Optional { input, optional } => filters_in_scope(*input) && filters_in_scope(
            *optional,
        ),
        SPlan::Unwind { input, .. } => filters_in_scope(*input),
        SPlan::Delete { input, .. } => filters_in_scope(*input),
    }
}

/// A filter whose variables its input binds lands below an operator only
/// when that operator binds none of them.
proof fn lemma_push_in_scope(x: SPlan, pred: SExpr)
    requires
        filters_in_scope(x),
        used_vars(pred).subset_of(bound_vars(x)),
    ensures
        filters_in_scope(push_filter(x, pred)),
    decreases x,
{
    let used = used_vars(pred);
    match x {
        SPlan::Project { input: pi, exprs } => {
            if used.disjoint(aliases(exprs)) {
                assert forall|v: Seq<char>| used.contains(v) implies bound_vars(*pi).contains(v) by {
                    assert(!aliases(exprs).contains(v));
                }
                lemma_push_in_scope(*pi, pred);
            }
        },
        SPlan::Expand { input: ei, rel_var, dst, .. } => {
            if used.disjoint(opt_set(rel_var).union(opt_set(dst))) {
                assert forall|v: Seq<char>| used.contains(v) implies bound_vars(*ei).contains(v) by {
                    assert(!opt_set(rel_var).union(opt_set(dst)).contains(v));
                }
                lemma_push_in_scope(*ei, pred);
            }
        },
        SPlan::Sort { input: si, .. } => lemma_push_in_scope(*si, pred),
        SPlan::Distinct { input: di } => lemma_push_in_scope(*di, pred),
        SPlan::Cartesian { left, right } => {
            if !used.is_empty() && used.subset_of(bound_vars(*left)) {
                lemma_push_in_scope(*left, pred);
            } else if !used.is_empty() && used.subset_of(bound_vars(*right)) {
                lemma_push_in_scope(*right, pred);
            }
        },
        _ => {},
    }
}

/// Optimizing never moves a filter below an operator that binds a variable
/// the filter refers to: when every filter of `p` refers only to variables
/// its input binds, so does every filter of the optimized plan.
pub proof fn lemma_optimize_keeps_filters_in_scope(p: SPlan)
    requires
        filters_in_scope(p),
    ensures
        filters_in_scope(pass(p)),
    decreases p,
{
    reveal_with_fuel(pass, 2);
    match p {
        SPlan::Filter { input, pred } => {
            lemma_optimize_keeps_filters_in_scope(*input);
            lemma_optimize_moves_filters_only(*input);
            lemma_push_in_scope(pass(*input), pred);
        },
        SPlan::Expand { input, .. } => lemma_optimize_keeps_filters_in_scope(*input),
        SPlan::Project { input, .. } => lemma_optimize_keeps_filters_in_scope(*input),
        SPlan::Distinct { input } => lemma_optimize_keeps_filters_in_scope(*input),
        SPlan::Sort { input, .. } => lemma_optimize_keeps_filters_in_scope(*input),
        SPlan::Skip { input, .. } => lemma_optimize_keeps_filters_in_scope(*input),
        SPlan::Limit { input, .. } => lemma_optimize_keeps_filters_in_scope(*input),
        SPlan::Cartesian { left, right } => {
            lemma_optimize_keeps_filters_in_scope(*left);
            lemma_optimize_keeps_filters_in_scope(*right);
        },
        SPlan::Optional { input, optional } => {
            lemma_optimize_keeps_filters_in_scope(*input);
            lemma_optimize_keeps_filters_in_scope(*optional);
        },
        SPlan::Unwind { input, .. } => lemma_optimize_keeps_filters_in_scope(*input),
        SPlan::Delete { input, .. } => lemma_optimize_keeps_filters_in_scope(*input),
        _ => {},
    }
}

/// Where a filter goes: below a projection or an expansion that binds none
/// of its variables, below a sort or a `DISTINCT`, and into the side of a
/// `Cartesian` that binds all of its variables (the left one first); it
/// stays above anything else.
pub proof fn lemma_filter_placement(input: SPlan, pred: SExpr)
    ensures
        match input {
            SPlan::Project { input: pi, exprs } => push_filter(input, pred) == if used_vars(
                pred,
            ).disjoint(aliases(exprs)) {
                SPlan::Project { input: Box::new(push_filter(*pi, pred)), exprs }
            } else {
                SPlan::Filter { input: Box::new(input), pred }
            },
            SPlan::Expand { input: ei, src, rel_var, rel_types, direction, dst, dst_label } => push_filter(
                input,
                pred,
            ) == if !(rel_var is Some && used_vars(pred).contains(rel_var->0)) && !(dst is Some
                && used_vars(pred).contains(dst->0)) {
                SPlan::Expand {
                    input: Box::new(push_filter(*ei, pred)),
                    src,
                    rel_var,
                    rel_types,
                    direction,
                    dst,
                    dst_label,
                }
            } else {
                SPlan::Filter { input: Box::new(input), pred }
            },
            SPlan::Sort { input: si, keys } => push_filter(input, pred) == SPlan::Sort {
                input: Box::new(push_filter(*si, pred)),
                keys,
            },
            SPlan::Distinct { input: di } => push_filter(input, pred) == SPlan::Distinct {
                input: Box::new(push_filter(*di, pred)),
            },
            SPlan::Cartesian { left, right } => push_filter(input, pred) == if !used_vars(
                pred,
            ).is_empty() && used_vars(pred).subset_of(bound_vars(*left)) {
                SPlan::Cartesian { left: Box::new(push_filter(*left, pred)), right }
            } else if !used_vars(pred).is_empty() && used_vars(pred).subset_of(bound_vars(*right)) {
                SPlan::Cartesian { left, right: Box::new(push_filter(*right, pred)) }
            } else {
                SPlan::Filter { input: Box::new(input), pred }
            },
            _ => push_filter(input, pred) == SPlan::Filter { input: Box::new(input), pred },
        },
{
    match input {
        SPlan::Expand { rel_var, dst, .. } => {
            let u = used_vars(pred);
            assert(u.disjoint(opt_set(rel_var).union(opt_set(dst))) <==> (!(rel_var is Some && u.contains(
                rel_var->0)) && !(dst is Some && u.contains(dst->0)))) by {
                if !(rel_var is Some && u.contains(rel_var->0)) && !(dst is Some && u.contains(dst->0)) {
                    assert forall|x: Seq<char>| !(u.contains(x) && opt_set(rel_var).union(
                        opt_set(dst),
                    ).contains(x)) by {}
                }
                if u.disjoint(opt_set(rel_var).union(opt_set(dst))) {
                    if let Some(r) = rel_var {
                        assert(opt_set(rel_var).union(opt_set(dst)).contains(r));
                    }
                    if let Some(d) = dst {
                        assert(opt_set(rel_var).union(opt_set(dst)).contains(d));
                    }
                }
            }
        },
        _ => {},
    }
}

// ---- the rewrite ------------------------------------------------------------

/// The aliases that the items of a projection introduce.
fn project_aliases(exprs: &Vec<ProjectExpr>) -> (r: Vec<String>)
    ensures
        distinct_names(r@),
        name_set(r@) == aliases(projs_model(exprs@)),
{
    let ghost m = projs_model(exprs@);
    let mut out = no_names();
    let mut k: usize = 0;
    while k < exprs.len()
        invariant
            k <= exprs@.len(),
            m == projs_model(exprs@),
            m.len() == exprs@.len(),
            distinct_names(out@),
            name_set(out@) == aliases(m.take(k as int)),
        decreases exprs@.len() - k,
    {
        proof {
            assert(m.take(k + 1).drop_last() =~= m.take(k as int));
            assert(m.take(k + 1).last() == exprs@[k as int]@);
        }
        match &exprs[k].alias {
            Some(a) => {
                insert_name(&mut out, a.clone());
                proof {
                    assert(name_set(out@) =~= aliases(m.take(k + 1)));
                }
            },
            None => {
                proof {
                    assert(name_set(out@) =~= aliases(m.take(k + 1)));
                }
            },
        }
        k = k + 1;
    }
    proof {
        assert(m.take(exprs@.len() as int) =~= m);
    }
    out
}

fn insert_opt_name(out: &mut Vec<String>, v: &Option<String>)
    requires
        distinct_names(old(out)@),
    ensures
        distinct_names(final(out)@),
        name_set(final(out)@) == name_set(old(out)@).union(opt_set(ast::opt_str(*v))),
{
    match v {
        Some(x) => {
            insert_name(out, x.clone());
            proof {
                assert(name_set(old(out)@).insert(x@) =~= name_set(old(out)@).union(
                    opt_set(ast::opt_str(*v)),
                ));
            }
        },
        None => {
            proof {
                assert(name_set(old(out)@) =~= name_set(old(out)@).union(opt_set(ast::opt_str(*v))));
            }
        },
    }
}

/// Adds the variables that `p` binds to `out`.
fn walk_bound(p: &Plan, out: &mut Vec<String>)
    requires
        distinct_names(old(out)@),
    ensures
        distinct_names(final(out)@),
        name_set(final(out)@) == name_set(old(out)@).union(bound_vars(p@)),
    decreases p,
{
    let ghost o = old(out)@;
    match p {
        Plan::Empty => {
            proof {
                assert(name_set(o).union(Set::empty()) =~= name_set(o));
            }
        },
        Plan::Scan { var, .. } => insert_opt_name(out, var),
        Plan::Expand { input, rel_var, dst, .. } => {
            walk_bound(input, out);
            insert_opt_name(out, rel_var);
            insert_opt_name(out, dst);
            proof {
                assert(name_set(out@) =~= name_set(o).union(bound_vars(p@)));
            }
        },
        Plan::Filter { input, .. } => walk_bound(input, out),
        Plan::Project { input, exprs } => {
            walk_bound(input, out);
            let al = project_aliases(exprs);
            extend_names(out, &al);
            proof {
                assert(name_set(out@) =~= name_set(o).union(bound_vars(p@)));
            }
        },
        Plan::Distinct { input } => walk_bound(input, out),
        Plan::Sort { input, .. } => walk_bound(input, out),
        Plan::Skip { input, .. } => walk_bound(input, out),
        Plan::Limit { input, .. } => walk_bound(input, out),
        Plan::Cartesian { left, right } => {
            walk_bound(left, out);
            walk_bound(right, out);
            proof {
                assert(name_set(out@) =~= name_set(o).union(bound_vars(p@)));
            }
        },
        Plan::Optional { input, optional } => {
            walk_bound(input, out);
            walk_bound(optional, out);
            proof {
                assert(name_set(out@) =~= name_set(o).union(bound_vars(p@)));
            }
        },
        Plan::Unwind { input, var, .. } => {
            walk_bound(input, out);
            insert_name(out, var.clone());
            proof {
                assert(name_set(out@) =~= name_set(o).union(bound_vars(p@)));
            }
        },
        Plan::Delete { input, .. } => walk_bound(input, out),
    }
}

/// The variables that `p` binds, each once.
fn bound_vars_of(p: &Plan) -> (r: Vec<String>)
    ensures
        distinct_names(r@),
        name_set(r@) == bound_vars(p@),
{
    let mut out = no_names();
    walk_bound(p, &mut out);
    proof {
        assert(Set::<Seq<char>>::empty().union(bound_vars(p@)) =~= bound_vars(p@));
    }
    out
}

/// Places `pred` as low in `input` as it may go.
fn try_push_filter(input: Plan, pred: Expr) -> (r: Plan)
    ensures
        r@ == push_filter(input@, pred@),
    decreases input,
{
    match input {
        Plan::Project { input: pi, exprs } => {
            let al = project_aliases(&exprs);
            let used = used_vars_expr(&pred);
            if names_disjoint(&used, &al) {
                Plan::Project { input: Box::new(try_push_filter(*pi, pred)), exprs }
            } else {
                Plan::Filter { input: Box::new(Plan::Project { input: pi, exprs }), pred }
            }
        },
        Plan::Expand { input: ei, src, rel_var, rel_types, direction, dst, dst_label } => {
            let mut produced = no_names();
            insert_opt_name(&mut produced, &rel_var);
            insert_opt_name(&mut produced, &dst);
            let used = used_vars_expr(&pred);
            proof {
                assert(name_set(produced@) =~= opt_set(ast::opt_str(rel_var)).union(
                    opt_set(ast::opt_str(dst)),
                ));
            }
            if names_disjoint(&used, &produced) {
                Plan::Expand {
                    input: Box::new(try_push_filter(*ei, pred)),
                    src,
                    rel_var,
                    rel_types,
                    direction,
                    dst,
                    dst_label,
                }
            } else {
                Plan::Filter {
                    input: Box::new(
                        Plan::Expand { input: ei, src, rel_var, rel_types, direction, dst, dst_label },
                    ),
                    pred,
                }
            }
        },
        Plan::Sort { input: si, keys } => Plan::Sort {
            input: Box::new(try_push_filter(*si, pred)),
            keys,
        },
        Plan::Distinct { input: di } => Plan::Distinct { input: Box::new(try_push_filter(*di, pred)) },
        Plan::Cartesian { left, right } => {
            let used = used_vars_expr(&pred);
            let left_vars = bound_vars_of(&left);
            let right_vars = bound_vars_of(&right);
            let some_used = !names_empty(&used);
            if some_used && names_subset(&used, &left_vars) {
                Plan::Cartesian { left: Box::new(try_push_filter(*left, pred)), right }
            } else if some_used && names_subset(&used, &right_vars) {
                Plan::Cartesian { left, right: Box::new(try_push_filter(*right, pred)) }
            } else {
                Plan::Filter { input: Box::new(Plan::Cartesian { left, right }), pred }
            }
        },
        other => Plan::Filter { input: Box::new(other), pred },
    }
}

fn apply_local_x(p: Plan) -> (r: Plan)
    ensures
        r@ == apply_local(p@),
{
    match p {
        Plan::Filter { input, pred } => try_push_filter(*input, pred),
        other => other,
    }
}

fn descend_x(p: Plan) -> (r: Plan)
    ensures
        r@ == descend(p@),
    decreases p, 0nat,
{
    match p {
        Plan::Empty => Plan::Empty,
        Plan::Scan { var, label } => Plan::Scan { var, label },
        Plan::Expand { input, src, rel_var, rel_types, direction, dst, dst_label } => Plan::Expand {
            input: Box::new(pass_x(*input)),
            src,
            rel_var,
            rel_types,
            direction,
            dst,
            dst_label,
        },
        Plan::Filter { input, pred } => Plan::Filter { input: Box::new(pass_x(*input)), pred },
        Plan::Project { input, exprs } => Plan::Project { input: Box::new(pass_x(*input)), exprs },
        Plan::Distinct { input } => Plan::Distinct { input: Box::new(pass_x(*input)) },
        Plan::Sort { input, keys } => Plan::Sort { input: Box::new(pass_x(*input)), keys },
        Plan::Skip { input, count } => Plan::Skip { input: Box::new(pass_x(*input)), count },
        Plan::Limit { input, count } => Plan::Limit { input: Box::new(pass_x(*input)), count },
        Plan::Cartesian { left, right } => Plan::Cartesian {
            left: Box::new(pass_x(*left)),
            right: Box::new(pass_x(*right)),
        },
        Plan::Optional { input, optional } => Plan::Optional {
            input: Box::new(pass_x(*input)),
            optional: Box::new(pass_x(*optional)),
        },
        Plan::Unwind { input, expr, var } => Plan::Unwind { input: Box::new(pass_x(*input)), expr, var },
        Plan::Delete { input, detach, exprs } => Plan::Delete {
            input: Box::new(pass_x(*input)),
            detach,
            exprs,
        },
    }
}

fn pass_x(p: Plan) -> (r: Plan)
    ensures
        r@ == pass(p@),
    decreases p, 1nat,
{
    let d = descend_x(p);
    apply_local_x(d)
}

/// Pushes every filter of `plan` down as far as it may go.
///
/// The result is one [`pass`] over the plan, which is where repeating the
/// pass until nothing changes ends: a further pass leaves it as it is.
pub fn optimize(plan: Plan) -> (r: Plan)
    ensures
        r@ == pass(plan@),
        pass(r@) == r@,
{
    let r = pass_x(plan);
    proof {
        lemma_pass_idempotent(plan@);
    }
    r
}

} // verus!
