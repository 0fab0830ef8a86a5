//! Projection pruning analysis: which variables a plan's rows hold, and
//! which ones the input of an operator must supply.
//!
//! No rewrites: the plan is only read. Sets of names are returned as
//! vectors in which no name occurs twice.
use vstd::prelude::*;

use crate::ast;
use crate::ast::{Expr, SExpr, SItem, SOrderItem};
use crate::names::{
    distinct_names, extend_names, insert_name, name_set, names_empty, no_names, used_vars,
    used_vars_expr, used_vars_list, walk_expr,
};
use crate::optimize::{opt_set, pass, push_filter};
use crate::plan::{keys_model, projs_model, Plan, ProjectExpr, SPlan};

verus! {

/// The column name of a projection item: its alias, else the variable when
/// the item is a bare variable, else none.
pub open spec fn visible_name(e: SItem) -> Option<Seq<char>> {
    match e.alias {
        Some(a) => Some(a),
        None => match e.expr {
            SExpr::Var(v) => Some(v),
            _ => None,
        },
    }
}

/// The column names of projection items.
pub open spec fn visible_names(s: Seq<SItem>) -> Set<Seq<char>>
    decreases s.len(),
{
    if s.len() == 0 {
        Set::empty()
    } else {
        visible_names(s.drop_last()).union(opt_set(visible_name(s.last())))
    }
}

/// The variables present in each output row of `p`.
pub open spec fn output_cols(p: SPlan) -> Set<Seq<char>>
    decreases p,
{
    match p {
        SPlan::Empty => Set::empty(),
        SPlan::Scan { var, .. } => opt_set(var),
        SPlan::Expand { input, rel_var, dst, .. } => output_cols(*input).union(opt_set(rel_var)).union(
            opt_set(dst),
        ),
        SPlan::Filter { input, .. } => output_cols(*input),
        SPlan::Project { exprs, .. } => visible_names(exprs),
        SPlan::Distinct { input } => output_cols(*input),
        SPlan::Sort { input, .. } => output_cols(*input),
        SPlan::Skip { input, .. } => output_cols(*input),
        SPlan::Limit { input, .. } => output_cols(*input),
        SPlan::Cartesian { left, right } => output_cols(*left).union(output_cols(*right)),
        SPlan::Optional { input, optional } => output_cols(*input).union(output_cols(*optional)),
        SPlan::Unwind { input, var, .. } => output_cols(*input).insert(var),
        SPlan::Delete { input, .. } => output_cols(*input),
    }
}

/// The variables that the sort keys refer to.
pub open spec fn keys_used(s: Seq<SOrderItem>) -> Set<Seq<char>>
    decreases s.len(),
{
    if s.len() == 0 {
        Set::empty()
    } else {
        keys_used(s.drop_last()).union(used_vars(s.last().expr))
    }
}

/// Whether a projection item is evaluated for `demand`: an item without a
/// column name always is; a named one when the demand is empty or holds it.
pub open spec fn item_demanded(e: SItem, demand: Set<Seq<char>>) -> bool {
    match visible_name(e) {
        Some(n) => demand.is_empty() || demand.contains(n),
        None => true,
    }
}

/// The variables that the demanded projection items refer to.
pub open spec fn project_demand(s: Seq<SItem>, demand: Set<Seq<char>>) -> Set<Seq<char>>
    decreases s.len(),
{
    if s.len() == 0 {
        Set::empty()
    } else if item_demanded(s.last(), demand) {
        project_demand(s.drop_last(), demand).union(used_vars(s.last().expr))
    } else {
        project_demand(s.drop_last(), demand)
    }
}

/// What the input of the root operator of `p` must supply when the
/// operators above it refer to `demand`.
pub open spec fn required_cols(p: SPlan, demand: Set<Seq<char>>) -> Set<Seq<char>> {
    match p {
        SPlan::Empty => Set::empty(),
        SPlan::Scan { .. } => Set::empty(),
        SPlan::Filter { pred, .. } => demand.union(used_vars(pred)),
        SPlan::Sort { keys, .. } => demand.union(keys_used(keys)),
        SPlan::Skip { count, .. } => demand.union(used_vars(count)),
        SPlan::Limit { count, .. } => demand.union(used_vars(count)),
        SPlan::Project { exprs, .. } => project_demand(exprs, demand),
        SPlan::Expand { src, rel_var, dst, .. } => demand.difference(opt_set(rel_var)).difference(
            opt_set(dst),
        ).union(opt_set(src)),
        SPlan::Cartesian { .. } => demand,
        SPlan::Optional { .. } => demand,
        SPlan::Distinct { .. } => demand,
        SPlan::Unwind { expr, var, .. } => demand.remove(var).union(used_vars(expr)),
        SPlan::Delete { exprs, .. } => demand.union(used_vars_list(exprs)),
    }
}

// ---- the analysis -------------------------------------------------------------

fn visible_name_x(e: &ProjectExpr) -> (r: Option<String>)
    ensures
        ast::opt_str(r) == visible_name(e@),
{
    match &e.alias {
        Some(a) => Some(a.clone()),
        None => match &e.expr {
            Expr::Variable(v) => Some(v.clone()),
            _ => None,
        },
    }
}

fn insert_opt(out: &mut Vec<String>, v: Option<String>)
    requires
        distinct_names(old(out)@),
    ensures
        distinct_names(final(out)@),
        name_set(final(out)@) == name_set(old(out)@).union(opt_set(ast::opt_str(v))),
{
    match v {
        Some(x) => {
            let ghost xv = x@;
            insert_name(out, x);
            proof {
                assert(name_set(old(out)@).insert(xv) =~= name_set(old(out)@).union(
                    opt_set(Some(xv)),
                ));
            }
        },
        None => {
            proof {
                assert(name_set(old(out)@) =~= name_set(old(out)@).union(opt_set(None)));
            }
        },
    }
}

fn copy_opt(v: &Option<String>) -> (r: Option<String>)
    ensures
        ast::opt_str(r) == ast::opt_str(*v),
{
    ast::copy_opt_str(v)
}

/// Adds the variables of the output rows of `p` to `out`.
fn walk_output(p: &Plan, out: &mut Vec<String>)
    requires
        distinct_names(old(out)@),
    ensures
        distinct_names(final(out)@),
        name_set(final(out)@) == name_set(old(out)@).union(output_cols(p@)),
    decreases p,
{
    let ghost o = old(out)@;
    match p {
        Plan::Empty => {
            proof {
                assert(name_set(o).union(Set::empty()) =~= name_set(o));
            }
        },
        Plan::Scan { var, .. } => insert_opt(out, copy_opt(var)),
        Plan::Expand { input, rel_var, dst, .. } => {
            walk_output(input, out);
            insert_opt(out, copy_opt(rel_var));
            insert_opt(out, copy_opt(dst));
            proof {
                assert(name_set(out@) =~= name_set(o).union(output_cols(p@)));
            }
        },
        Plan::Filter { input, .. } => walk_output(input, out),
        Plan::Project { exprs, .. } => {
            let ghost m = projs_model(exprs@);
            let mut k: usize = 0;
            while k < exprs.len()
                invariant
                    k <= exprs@.len(),
                    m == projs_model(exprs@),
                    m.len() == exprs@.len(),
                    distinct_names(out@),
                    name_set(out@) == name_set(o).union(visible_names(m.take(k as int))),
                decreases exprs@.len() - k,
            {
                proof {
                    assert(m.take(k + 1).drop_last() =~= m.take(k as int));
                    assert(m.take(k + 1).last() == exprs@[k as int]@);
                }
                insert_opt(out, visible_name_x(&exprs[k]));
                proof {
                    assert(name_set(out@) =~= name_set(o).union(visible_names(m.take(k + 1))));
                }
                k = k + 1;
            }
            proof {
                assert(m.take(exprs@.len() as int) =~= m);
            }
        },
        Plan::Distinct { input } => walk_output(input, out),
        Plan::Sort { input, .. } => walk_output(input, out),
        Plan::Skip { input, .. } => walk_output(input, out),
        Plan::Limit { input, .. } => walk_output(input, out),
        Plan::Cartesian { left, right } => {
            walk_output(left, out);
            walk_output(right, out);
            proof {
                assert(name_set(out@) =~= name_set(o).union(output_cols(p@)));
            }
        },
        Plan::Optional { input, optional } => {
            walk_output(input, out);
            walk_output(optional, out);
            proof {
                assert(name_set(out@) =~= name_set(o).union(output_cols(p@)));
            }
        },
        Plan::Unwind { input, var, .. } => {
            walk_output(input, out);
            insert_name(out, var.clone());
            proof {
                assert(name_set(out@) =~= name_set(o).union(output_cols(p@)));
            }
        },
        Plan::Delete { input, .. } => walk_output(input, out),
    }
}

/// Variables present in each row at the output of `plan`, each once.
///
/// For `Project` the columns are the items' names (the alias, else the
/// variable of a bare-variable item; an item with neither adds nothing);
/// every other operator exposes the bindings of its inputs, plus the
/// relationship and destination of an `Expand` and the variable of an
/// `Unwind`.
pub fn output_columns(plan: &Plan) -> (r: Vec<String>)
    ensures
        distinct_names(r@),
        name_set(r@) == output_cols(plan@),
{
    let mut out = no_names();
    walk_output(plan, &mut out);
    proof {
        assert(Set::<Seq<char>>::empty().union(output_cols(plan@)) =~= output_cols(plan@));
    }
    out
}

/// `a` and `b` together, each name once.
fn union(a: &Vec<String>, b: &Vec<String>) -> (r: Vec<String>)
    ensures
        distinct_names(r@),
        name_set(r@) == name_set(a@).union(name_set(b@)),
{
    let mut out = no_names();
    extend_names(&mut out, a);
    extend_names(&mut out, b);
    proof {
        assert(Set::<Seq<char>>::empty().union(name_set(a@)).union(name_set(b@)) =~= name_set(
            a@,
        ).union(name_set(b@)));
    }
    out
}

/// Variables that the **input** of `plan` must supply so that the plan can
/// satisfy `outer_demand` (the columns the operators above refer to), each
/// once.
///
/// Leaves have no input. `Filter`, `Sort`, `Skip`, `Limit` and `Delete` add
/// the variables of their expressions to the demand; `Project` asks for the
/// variables of the items the demand names (all named items when the demand
/// is empty) and of its unnamed items; `Expand` replaces the relationship
/// and destination it produces by its source; `Unwind` replaces its variable
/// by those of its list; `Cartesian`, `Optional` and `Distinct` pass the
/// demand through.
pub fn required_input_columns(plan: &Plan, outer_demand: &Vec<String>) -> (r: Vec<String>)
    ensures
        distinct_names(r@),
        name_set(r@) == required_cols(plan@, name_set(outer_demand@)),
{
    let ghost d = name_set(outer_demand@);
    let mut acc = no_names();
    match plan {
        Plan::Empty => {},
        Plan::Scan { .. } => {},
        Plan::Filter { pred, .. } => {
            acc = union(outer_demand, &used_vars_expr(pred));
        },
        Plan::Sort { keys, .. } => {
            extend_names(&mut acc, outer_demand);
            let ghost m = keys_model(keys@);
            let mut k: usize = 0;
            while k < keys.len()
                invariant
                    k <= keys@.len(),
                    m == keys_model(keys@),
                    m.len() == keys@.len(),
                    distinct_names(acc@),
                    name_set(acc@) == d.union(keys_used(m.take(k as int))),
                decreases keys@.len() - k,
            {
                proof {
                    assert(m.take(k + 1).drop_last() =~= m.take(k as int));
                    assert(m.take(k + 1).last() == keys@[k as int]@);
                }
                walk_expr(&keys[k].expr, &mut acc);
                proof {
                    assert(name_set(acc@) =~= d.union(keys_used(m.take(k + 1))));
                }
                k = k + 1;
            }
            proof {
                assert(m.take(keys@.len() as int) =~= m);
            }
        },
        Plan::Skip { count, .. } => {
            acc = union(outer_demand, &used_vars_expr(count));
        },
        Plan::Limit { count, .. } => {
            acc = union(outer_demand, &used_vars_expr(count));
        },
        Plan::Project { exprs, .. } => {
            let demand_empty = names_empty(outer_demand);
            let ghost m = projs_model(exprs@);
            let mut k: usize = 0;
            while k < exprs.len()
                invariant
                    k <= exprs@.len(),
                    m == projs_model(exprs@),
                    m.len() == exprs@.len(),
                    d == name_set(outer_demand@),
                    demand_empty == d.is_empty(),
                    distinct_names(acc@),
                    name_set(acc@) == project_demand(m.take(k as int), d),
                decreases exprs@.len() - k,
            {
                proof {
                    assert(m.take(k + 1).drop_last() =~= m.take(k as int));
                    assert(m.take(k + 1).last() == exprs@[k as int]@);
                }
                let referenced = match visible_name_x(&exprs[k]) {
                    Some(n) => demand_empty || crate::names::contains_name(outer_demand, &n),
                    None => true,
                };
                if referenced {
                    walk_expr(&exprs[k].expr, &mut acc);
                }
                proof {
                    assert(name_set(acc@) =~= project_demand(m.take(k + 1), d));
                }
                k = k + 1;
            }
            proof {
                assert(m.take(exprs@.len() as int) =~= m);
            }
        },
        Plan::Expand { src, rel_var, dst, .. } => {
            let mut k: usize = 0;
            while k < outer_demand.len()
                invariant
                    k <= outer_demand@.len(),
                    distinct_names(acc@),
                    name_set(acc@) == ast::strs(outer_demand@).take(k as int).to_set().difference(
                        opt_set(ast::opt_str(*rel_var)),
                    ).difference(opt_set(ast::opt_str(*dst))),
                decreases outer_demand@.len() - k,
            {
                let v = &outer_demand[k];
                let is_rel = match rel_var {
                    Some(r) => *r == *v,
                    None => false,
                };
                let is_dst = match dst {
                    Some(x) => *x == *v,
                    None => false,
                };
                let ghost before = acc@;
                if !is_rel && !is_dst {
                    insert_name(&mut acc, v.clone());
                }
                proof {
                    let t0 = ast::strs(outer_demand@).take(k as int);
                    let t1 = ast::strs(outer_demand@).take(k + 1);
                    assert(t1 =~= t0.push(v@));
                    t0.lemma_push_to_set_commute(v@);
                    assert(name_set(acc@) =~= t1.to_set().difference(
                        opt_set(ast::opt_str(*rel_var)),
                    ).difference(opt_set(ast::opt_str(*dst))));
                }
                k = k + 1;
            }
            proof {
                assert(ast::strs(outer_demand@).take(outer_demand@.len() as int) =~= ast::strs(
                    outer_demand@,
                ));
            }
            insert_opt(&mut acc, copy_opt(src));
        },
        Plan::Cartesian { .. } => {
            extend_names(&mut acc, outer_demand);
        },
        Plan::Optional { .. } => {
            extend_names(&mut acc, outer_demand);
        },
        Plan::Distinct { .. } => {
            extend_names(&mut acc, outer_demand);
        },
        Plan::Unwind { expr, var, .. } => {
            let mut k: usize = 0;
            while k < outer_demand.len()
                invariant
                    k <= outer_demand@.len(),
                    distinct_names(acc@),
                    name_set(acc@) == ast::strs(outer_demand@).take(k as int).to_set().remove(var@),
                decreases outer_demand@.len() - k,
            {
                let v = &outer_demand[k];
                if *v != *var {
                    insert_name(&mut acc, v.clone());
                }
                proof {
                    let t0 = ast::strs(outer_demand@).take(k as int);
                    let t1 = ast::strs(outer_demand@).take(k + 1);
                    assert(t1 =~= t0.push(v@));
                    t0.lemma_push_to_set_commute(v@);
                    assert(name_set(acc@) =~= t1.to_set().remove(var@));
                }
                k = k + 1;
            }
            proof {
                assert(ast::strs(outer_demand@).take(outer_demand@.len() as int) =~= ast::strs(
                    outer_demand@,
                ));
            }
            walk_expr(expr, &mut acc);
        },
        Plan::Delete { exprs, .. } => {
            extend_names(&mut acc, outer_demand);
            let ghost m = ast::exprs_model(exprs@);
            proof {
                ast::lemma_exprs_model_len(exprs@);
            }
            let mut k: usize = 0;
            while k < exprs.len()
                invariant
                    k <= exprs@.len(),
                    m == ast::exprs_model(exprs@),
                    m.len() == exprs@.len(),
                    forall|j: int| 0 <= j < exprs@.len() ==> #[trigger] m[j] == exprs@[j]@,
                    distinct_names(acc@),
                    name_set(acc@) == d.union(used_vars_list(m.take(k as int))),
                decreases exprs@.len() - k,
            {
                proof {
                    assert(m.take(k + 1).subrange(0, k as int) =~= m.take(k as int));
                    assert(m.take(k + 1)[k as int] == m[k as int]);
                }
                walk_expr(&exprs[k], &mut acc);
                proof {
                    assert(name_set(acc@) =~= d.union(used_vars_list(m.take(k + 1))));
                }
                k = k + 1;
            }
            proof {
                assert(m.take(exprs@.len() as int) =~= m);
            }
        },
    }
    proof {
        assert(name_set(acc@) =~= required_cols(plan@, d));
    }
    acc
}

// ---- laws ---------------------------------------------------------------------

proof fn lemma_push_keeps_output(x: SPlan, pred: SExpr)
    ensures
        output_cols(push_filter(x, pred)) == output_cols(x),
    decreases x,
{
    match x {
        SPlan::Expand { input, .. } => lemma_push_keeps_output(*input, pred),
        SPlan::Sort { input, .. } => lemma_push_keeps_output(*input, pred),
        SPlan::Distinct { input } => lemma_push_keeps_output(*input, pred),
        SPlan::Cartesian { left, right } => {
            lemma_push_keeps_output(*left, pred);
            lemma_push_keeps_output(*right, pred);
        },
        _ => {},
    }
}

/// Optimizing a plan does not change the columns of its output rows.
pub proof fn lemma_optimize_keeps_output_columns(p: SPlan)
    ensures
        output_cols(pass(p)) == output_cols(p),
    decreases p,
{
    match p {
        SPlan::Filter { input, pred } => {
            lemma_optimize_keeps_output_columns(*input);
            lemma_push_keeps_output(pass(*input), pred);
        },
        SPlan::Expand { input, .. } => lemma_optimize_keeps_output_columns(*input),
        SPlan::Distinct { input } => lemma_optimize_keeps_output_columns(*input),
        SPlan::Sort { input, .. } => lemma_optimize_keeps_output_columns(*input),
        SPlan::Skip { input, .. } => lemma_optimize_keeps_output_columns(*input),
        SPlan::Limit { input, .. } => lemma_optimize_keeps_output_columns(*input),
        SPlan::Cartesian { left, right } => {
            lemma_optimize_keeps_output_columns(*left);
            lemma_optimize_keeps_output_columns(*right);
        },
        SPlan::Optional { input, optional } => {
            lemma_optimize_keeps_output_columns(*input);
            lemma_optimize_keeps_output_columns(*optional);
        },
        SPlan::Unwind { input, .. } => lemma_optimize_keeps_output_columns(*input),
        SPlan::Delete { input, .. } => lemma_optimize_keeps_output_columns(*input),
        _ => {},
    }
}


/// The rows of every operator other than `Project` keep the columns of each
/// of its inputs; an `Expand` adds its relationship and destination, and an
/// `Unwind` its variable.
pub proof fn lemma_output_keeps_input_columns(p: SPlan)
    ensures
        match p {
            SPlan::Expand { input, rel_var, dst, .. } => output_cols(*input).subset_of(output_cols(p))
                && opt_set(rel_var).subset_of(output_cols(p)) && opt_set(dst).subset_of(
                output_cols(p),
            ),
            SPlan::Unwind { input, var, .. } => output_cols(*input).subset_of(output_cols(p))
                && output_cols(p).contains(var),
            SPlan::Cartesian { left, right } => output_cols(*left).subset_of(output_cols(p))
                && output_cols(*right).subset_of(output_cols(p)),
            SPlan::Optional { input, optional } => output_cols(*input).subset_of(output_cols(p))
                && output_cols(*optional).subset_of(output_cols(p)),
            SPlan::Filter { input, .. } => output_cols(*input).subset_of(output_cols(p)),
            SPlan::Sort { input, .. } => output_cols(*input).subset_of(output_cols(p)),
            SPlan::Skip { input, .. } => output_cols(*input).subset_of(output_cols(p)),
            SPlan::Limit { input, .. } => output_cols(*input).subset_of(output_cols(p)),
            SPlan::Distinct { input } => output_cols(*input).subset_of(output_cols(p)),
            SPlan::Delete { input, .. } => output_cols(*input).subset_of(output_cols(p)),
            SPlan::Scan { var, .. } => opt_set(var).subset_of(output_cols(p)),
            _ => true,
        },
{
}

/// The input of an operator is never asked for a variable that the operator
/// itself binds, unless the operator also reads it there: an `Expand` needs
/// its source and, of the demand, only what it does not produce; an `Unwind`
/// needs its list and, of the demand, all but its own variable.
pub proof fn lemma_required_excludes_own_bindings(p: SPlan, demand: Set<Seq<char>>)
    ensures
        match p {
            SPlan::Expand { src, rel_var, dst, .. } => (forall|x: Seq<char>|
                #[trigger] required_cols(p, demand).contains(x) <==> (Some(x) == src || (
                demand.contains(x) && Some(x) != rel_var && Some(x) != dst))),
            SPlan::Unwind { expr, var, .. } => (forall|x: Seq<char>|
                #[trigger] required_cols(p, demand).contains(x) <==> (used_vars(expr).contains(x)
                    || (demand.contains(x) && x != var))),
            _ => true,
        },
{
}


proof fn lemma_visible_names_member(s: Seq<SItem>, x: Seq<char>)
    ensures
        visible_names(s).contains(x) <==> exists|j: int|
            0 <= j < s.len() && #[trigger] visible_name(s[j]) == Some(x),
    decreases s.len(),
{
    if s.len() > 0 {
        let pre = s.drop_last();
        lemma_visible_names_member(pre, x);
        if visible_names(s).contains(x) {
            if visible_names(pre).contains(x) {
                let j = choose|j: int| 0 <= j < pre.len() && #[trigger] visible_name(pre[j]) == Some(x);
                assert(s[j] == pre[j]);
            } else {
                assert(visible_name(s[s.len() - 1]) == Some(x));
            }
        }
        if exists|j: int| 0 <= j < s.len() && #[trigger] visible_name(s[j]) == Some(x) {
            let j = choose|j: int| 0 <= j < s.len() && #[trigger] visible_name(s[j]) == Some(x);
            if j < s.len() - 1 {
                assert(pre[j] == s[j]);
            }
        }
    }
}

proof fn lemma_keys_used_member(s: Seq<SOrderItem>, x: Seq<char>)
    ensures
        keys_used(s).contains(x) <==> exists|j: int|
            0 <= j < s.len() && #[trigger] used_vars(s[j].expr).contains(x),
    decreases s.len(),
{
    if s.len() > 0 {
        let pre = s.drop_last();
        lemma_keys_used_member(pre, x);
        if keys_used(s).contains(x) {
            if keys_used(pre).contains(x) {
                let j = choose|j: int| 0 <= j < pre.len() && #[trigger] used_vars(pre[j].expr).contains(x);
                assert(s[j] == pre[j]);
            } else {
                assert(used_vars(s[s.len() - 1].expr).contains(x));
            }
        }
        if exists|j: int| 0 <= j < s.len() && #[trigger] used_vars(s[j].expr).contains(x) {
            let j = choose|j: int| 0 <= j < s.len() && #[trigger] used_vars(s[j].expr).contains(x);
            if j < s.len() - 1 {
                assert(pre[j] == s[j]);
            }
        }
    }
}

proof fn lemma_project_demand_member(s: Seq<SItem>, demand: Set<Seq<char>>, x: Seq<char>)
    ensures
        project_demand(s, demand).contains(x) <==> exists|j: int|
            0 <= j < s.len() && item_demanded(s[j], demand) && #[trigger] used_vars(s[j].expr).contains(
                x,
            ),
    decreases s.len(),
{
    if s.len() > 0 {
        let pre = s.drop_last();
        lemma_project_demand_member(pre, demand, x);
        if project_demand(s, demand).contains(x) {
            if project_demand(pre, demand).contains(x) {
                let j = choose|j: int|
                    0 <= j < pre.len() && item_demanded(pre[j], demand) && #[trigger] used_vars(
                        pre[j].expr,
                    ).contains(x);
                assert(s[j] == pre[j]);
            } else {
                assert(used_vars(s[s.len() - 1].expr).contains(x));
            }
        }
        if exists|j: int|
            0 <= j < s.len() && item_demanded(s[j], demand) && #[trigger] used_vars(s[j].expr).contains(
                x,
            ) {
            let j = choose|j: int|
                0 <= j < s.len() && item_demanded(s[j], demand) && #[trigger] used_vars(
                    s[j].expr,
                ).contains(x);
            if j < s.len() - 1 {
                assert(pre[j] == s[j]);
            }
        }
    }
}

/// The columns of a projection are the names of its items: each alias, and
/// the variable of each bare-variable item without one.
pub proof fn lemma_project_columns(input: SPlan, exprs: Seq<SItem>, x: Seq<char>)
    ensures
        output_cols(SPlan::Project { input: Box::new(input), exprs }).contains(x) <==> exists|j: int|
            0 <= j < exprs.len() && (#[trigger] exprs[j].alias == Some(x) || (exprs[j].alias is None
                && exprs[j].expr == SExpr::Var(x))),
{
    lemma_visible_names_member(exprs, x);
    if exists|j: int|
        0 <= j < exprs.len() && (#[trigger] exprs[j].alias == Some(x) || (exprs[j].alias is None
            && exprs[j].expr == SExpr::Var(x))) {
        let j = choose|j: int|
            0 <= j < exprs.len() && (#[trigger] exprs[j].alias == Some(x) || (exprs[j].alias is None
                && exprs[j].expr == SExpr::Var(x)));
        assert(visible_name(exprs[j]) == Some(x));
    }
    if output_cols(SPlan::Project { input: Box::new(input), exprs }).contains(x) {
        let j = choose|j: int| 0 <= j < exprs.len() && #[trigger] visible_name(exprs[j]) == Some(x);
        assert(exprs[j].alias == Some(x) || (exprs[j].alias is None && exprs[j].expr == SExpr::Var(x)));
    }
}

/// What the input of each operator must supply: the operators that read
/// expressions add the variables those expressions refer to to the demand;
/// `Cartesian`, `Optional` and `Distinct` pass the demand on; a projection
/// asks for the variables of the items it must evaluate; leaves ask for
/// nothing.
pub proof fn lemma_required_columns_member(p: SPlan, demand: Set<Seq<char>>, x: Seq<char>)
    ensures
        match p {
            SPlan::Empty => !required_cols(p, demand).contains(x),
            SPlan::Scan { .. } => !required_cols(p, demand).contains(x),
            SPlan::Filter { pred, .. } => required_cols(p, demand).contains(x) <==> (demand.contains(x)
                || used_vars(pred).contains(x)),
            SPlan::Skip { count, .. } => required_cols(p, demand).contains(x) <==> (demand.contains(x)
                || used_vars(count).contains(x)),
            SPlan::Limit { count, .. } => required_cols(p, demand).contains(x) <==> (demand.contains(x)
                || used_vars(count).contains(x)),
            SPlan::Sort { keys, .. } => required_cols(p, demand).contains(x) <==> (demand.contains(x)
                || exists|j: int| 0 <= j < keys.len() && #[trigger] used_vars(keys[j].expr).contains(x)),
            SPlan::Delete { exprs, .. } => required_cols(p, demand).contains(x) <==> (demand.contains(x)
                || exists|j: int| 0 <= j < exprs.len() && #[trigger] used_vars(exprs[j]).contains(x)),
            SPlan::Cartesian { .. } => required_cols(p, demand).contains(x) <==> demand.contains(x),
            SPlan::Optional { .. } => required_cols(p, demand).contains(x) <==> demand.contains(x),
            SPlan::Distinct { .. } => required_cols(p, demand).contains(x) <==> demand.contains(x),
            SPlan::Project { exprs, .. } => required_cols(p, demand).contains(x) <==> exists|j: int|
                0 <= j < exprs.len() && (visible_name(exprs[j]) is None || demand.is_empty()
                    || demand.contains(visible_name(exprs[j])->0)) && #[trigger] used_vars(
                    exprs[j].expr,
                ).contains(x),
            _ => true,
        },
{
    match p {
        SPlan::Sort { keys, .. } => lemma_keys_used_member(keys, x),
        SPlan::Delete { exprs, .. } => lemma_used_vars_list_member(exprs, x),
        SPlan::Project { exprs, .. } => lemma_project_demand_member(exprs, demand, x),
        _ => {},
    }
}

proof fn lemma_used_vars_list_member(s: Seq<SExpr>, x: Seq<char>)
    ensures
        used_vars_list(s).contains(x) <==> exists|j: int|
            0 <= j < s.len() && #[trigger] used_vars(s[j]).contains(x),
    decreases s.len(),
{
    if s.len() > 0 {
        let pre = s.subrange(0, s.len() - 1);
        lemma_used_vars_list_member(pre, x);
        if used_vars_list(s).contains(x) {
            if used_vars_list(pre).contains(x) {
                let j = choose|j: int| 0 <= j < pre.len() && #[trigger] used_vars(pre[j]).contains(x);
                assert(s[j] == pre[j]);
            } else {
                assert(used_vars(s[s.len() - 1]).contains(x));
            }
        }
        if exists|j: int| 0 <= j < s.len() && #[trigger] used_vars(s[j]).contains(x) {
            let j = choose|j: int| 0 <= j < s.len() && #[trigger] used_vars(s[j]).contains(x);
            if j < s.len() - 1 {
                assert(pre[j] == s[j]);
            }
        }
    }
}

} // verus!
