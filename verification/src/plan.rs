//! Logical query plan and the lowering of a parsed [`Query`] to it.
//!
//! A plan is a tree of operators; every operator carries its input(s).
//! Lowering walks the clauses in order:
//!
//! - `MATCH` lowers each pattern to a `Scan` followed by one `Expand` per
//!   hop; several patterns, and a `MATCH` after earlier clauses, are joined
//!   by a left-deep `Cartesian`. `OPTIONAL MATCH` wraps the plan so far and
//!   the pattern plan in an `Optional`.
//! - Inline property maps (`(u {id: 1})`, `[r {since: 2020}]`) become a
//!   `Filter` whose predicate is the conjunction, left to right, of
//!   `var.key = value`. An anonymous element with a property map is bound to
//!   a fresh internal name, `__node_N` or `__rel_N`: one count runs over the
//!   whole query, and a number whose name a variable of the query already
//!   has is passed over.
//! - `WHERE`, `UNWIND` and `DELETE` wrap the plan so far in a `Filter`, an
//!   `Unwind` or a `Delete`.
//! - `RETURN` sets the projection of the query, and `ORDER BY`, `SKIP` and
//!   `LIMIT` set its sort, skip and limit, wherever they stand; a later one
//!   replaces an earlier one. At the end they are stacked on the plan as
//!   `Project` → `Distinct` (for `DISTINCT`) → `Sort` → `Skip` → `Limit`.
//! - `WITH` ends a query part: what is pending is stacked on the plan so far,
//!   and the `WITH` items, with the `ORDER BY`, `SKIP` and `LIMIT` that follow
//!   them, are stacked the same way when the next clause other than those
//!   three starts.
use vstd::prelude::*;

use crate::ast;
use crate::ast::{
    BinOp, Clause, Direction, Expr, NodePattern, OrderItem, Pattern, Query, RelChain, ReturnItem,
    SChain, SClause, SExpr, SItem, SNode, SOrderItem, SPattern, SQuery,
};
use crate::names::{contains_name, name_set};
use crate::sema::{collect_bindings, query_binds};
use crate::text;
use crate::text::push_dec;
use vstd::string::StringExecFns;

verus! {

/// Logical plan operator.
#[allow(inconsistent_fields)]
#[derive(Debug, PartialEq, Eq)]
pub enum Plan {
    /// One row with no columns: the input of a query without `MATCH`.
    Empty,
    /// All nodes (with the label, when there is one), bound to `var`.
    Scan { var: Option<String>, label: Option<String> },
    /// Each input row extended by following a relationship from `src`.
    Expand {
        input: Box<Plan>,
        src: Option<String>,
        rel_var: Option<String>,
        rel_types: Vec<String>,
        direction: Direction,
        dst: Option<String>,
        dst_label: Option<String>,
    },
    /// The input rows where `pred` holds.
    Filter { input: Box<Plan>, pred: Expr },
    /// The projected expressions of each input row.
    Project { input: Box<Plan>, exprs: Vec<ProjectExpr> },
    /// The input rows without repetitions.
    Distinct { input: Box<Plan> },
    /// The input rows ordered by `keys`, the first key first.
    Sort { input: Box<Plan>, keys: Vec<SortKey> },
    /// The input rows after the first `count`.
    Skip { input: Box<Plan>, count: Expr },
    /// At most `count` input rows.
    Limit { input: Box<Plan>, count: Expr },
    /// Every pair of a left row and a right row.
    Cartesian { left: Box<Plan>, right: Box<Plan> },
    /// For each input row, the rows of `optional` that extend it, or the row
    /// itself with null bindings when there are none.
    Optional { input: Box<Plan>, optional: Box<Plan> },
    /// One row per element of the list `expr`, bound to `var`.
    Unwind { input: Box<Plan>, expr: Expr, var: String },
    /// Deletes the entities that `exprs` denote in each input row.
    Delete { input: Box<Plan>, detach: bool, exprs: Vec<Expr> },
}

/// An item of a `Project`: an expression and the column name it gets.
#[derive(Debug, PartialEq, Eq)]
pub struct ProjectExpr {
    pub expr: Expr,
    pub alias: Option<String>,
}

/// A key of a `Sort`.
#[derive(Debug, PartialEq, Eq)]
pub struct SortKey {
    pub expr: Expr,
    pub desc: bool,
}

/// Why a query has no plan.
#[derive(Debug, Clone, Copy, PartialEq, Eq, Structural)]
pub enum PlanError {
    /// The query has no clauses, or a `MATCH` has no pattern.
    EmptyQuery,
    /// An `OPTIONAL MATCH` comes before anything it could extend.
    OptionalMatchWithoutAnchor,
}

// ---- the model ---------------------------------------------------------------

#[allow(inconsistent_fields)]
pub enum SPlan {
    Empty,
    Scan { var: Option<Seq<char>>, label: Option<Seq<char>> },
    Expand {
        input: Box<SPlan>,
        src: Option<Seq<char>>,
        rel_var: Option<Seq<char>>,
        rel_types: Seq<Seq<char>>,
        direction: Direction,
        dst: Option<Seq<char>>,
        dst_label: Option<Seq<char>>,
    },
    Filter { input: Box<SPlan>, pred: SExpr },
    Project { input: Box<SPlan>, exprs: Seq<SItem> },
    Distinct { input: Box<SPlan> },
    Sort { input: Box<SPlan>, keys: Seq<SOrderItem> },
    Skip { input: Box<SPlan>, count: SExpr },
    Limit { input: Box<SPlan>, count: SExpr },
    Cartesian { left: Box<SPlan>, right: Box<SPlan> },
    Optional { input: Box<SPlan>, optional: Box<SPlan> },
    Unwind { input: Box<SPlan>, expr: SExpr, var: Seq<char> },
    Delete { input: Box<SPlan>, detach: bool, exprs: Seq<SExpr> },
}

impl View for ProjectExpr {
    type V = SItem;

    open spec fn view(&self) -> SItem {
        SItem { expr: self.expr@, alias: ast::opt_str(self.alias) }
    }
}

impl View for SortKey {
    type V = SOrderItem;

    open spec fn view(&self) -> SOrderItem {
        SOrderItem { expr: self.expr@, desc: self.desc }
    }
}

pub open spec fn projs_model(s: Seq<ProjectExpr>) -> Seq<SItem> {
    s.map_values(|e: ProjectExpr| e@)
}

pub open spec fn keys_model(s: Seq<SortKey>) -> Seq<SOrderItem> {
    s.map_values(|k: SortKey| k@)
}

pub open spec fn plan_model(p: Plan) -> SPlan
    decreases p,
{
    match p {
        Plan::Empty => SPlan::Empty,
        Plan::Scan { var, label } => SPlan::Scan { var: ast::opt_str(var), label: ast::opt_str(label) },
        Plan::Expand { input, src, rel_var, rel_types, direction, dst, dst_label } => SPlan::Expand {
            input: Box::new(plan_model(*input)),
            src: ast::opt_str(src),
            rel_var: ast::opt_str(rel_var),
            rel_types: ast::strs(rel_types@),
            direction,
            dst: ast::opt_str(dst),
            dst_label: ast::opt_str(dst_label),
        },
        Plan::Filter { input, pred } => SPlan::Filter { input: Box::new(plan_model(*input)), pred: pred@ },
        Plan::Project { input, exprs } => SPlan::Project {
            input: Box::new(plan_model(*input)),
            exprs: projs_model(exprs@),
        },
        Plan::Distinct { input } => SPlan::Distinct { input: Box::new(plan_model(*input)) },
        Plan::Sort { input, keys } => SPlan::Sort {
            input: Box::new(plan_model(*input)),
            keys: keys_model(keys@),
        },
        Plan::Skip { input, count } => SPlan::Skip { input: Box::new(plan_model(*input)), count: count@ },
        Plan::Limit { input, count } => SPlan::Limit {
            input: Box::new(plan_model(*input)),
            count: count@,
        },
        Plan::Cartesian { left, right } => SPlan::Cartesian {
            left: Box::new(plan_model(*left)),
            right: Box::new(plan_model(*right)),
        },
        Plan::Optional { input, optional } => SPlan::Optional {
            input: Box::new(plan_model(*input)),
            optional: Box::new(plan_model(*optional)),
        },
        Plan::Unwind { input, expr, var } => SPlan::Unwind {
            input: Box::new(plan_model(*input)),
            expr: expr@,
            var: var@,
        },
        Plan::Delete { input, detach, exprs } => SPlan::Delete {
            input: Box::new(plan_model(*input)),
            detach,
            exprs: ast::exprs_model(exprs@),
        },
    }
}

impl View for Plan {
    type V = SPlan;

    open spec fn view(&self) -> SPlan {
        plan_model(*self)
    }
}

// ---- lowering, as spec functions ---------------------------------------------

/// The projection being assembled: its items (and `DISTINCT`), the
/// `ORDER BY`, `SKIP` and `LIMIT` that go with it, and whether it comes from
/// a `WITH` (which ends a query part) rather than a `RETURN`.
pub struct SPending {
    pub project: Option<(Seq<SItem>, bool)>,
    pub sort: Option<Seq<SOrderItem>>,
    pub skip: Option<SExpr>,
    pub limit: Option<SExpr>,
    pub from_with: bool,
}

/// The state between two clauses: the plan so far, the pending
/// projection, and the number of the next internal name.
pub struct SLowering {
    pub plan: SPlan,
    pub pending: SPending,
    pub next: u64,
}

pub open spec fn no_pending() -> SPending {
    SPending { project: None, sort: None, skip: None, limit: None, from_with: false }
}

/// The plan under the next clause: the pending projection stacked on top
/// when it comes from a `WITH`, else the plan as it is.
pub open spec fn settled_plan(plan: SPlan, pend: SPending) -> SPlan {
    if pend.from_with {
        flush(plan, pend)
    } else {
        plan
    }
}

/// What stays pending under the next clause: nothing once a `WITH` part is
/// stacked, else the pending `RETURN` part.
pub open spec fn settled_pending(pend: SPending) -> SPending {
    if pend.from_with {
        no_pending()
    } else {
        pend
    }
}

pub open spec fn lowering(plan: SPlan, pending: SPending, next: u64) -> SLowering {
    SLowering { plan, pending, next }
}

/// The plan with the pending projection stacked on top of it.
pub open spec fn flush(plan: SPlan, pend: SPending) -> SPlan {
    let p1 = match pend.project {
        Some((items, distinct)) => {
            let pr = SPlan::Project { input: Box::new(plan), exprs: items };
            if distinct {
                SPlan::Distinct { input: Box::new(pr) }
            } else {
                pr
            }
        },
        None => plan,
    };
    let p2 = match pend.sort {
        Some(keys) => SPlan::Sort { input: Box::new(p1), keys },
        None => p1,
    };
    let p3 = match pend.skip {
        Some(c) => SPlan::Skip { input: Box::new(p2), count: c },
        None => p2,
    };
    match pend.limit {
        Some(c) => SPlan::Limit { input: Box::new(p3), count: c },
        None => p3,
    }
}

/// The number after `n`; it stays at `u64::MAX` once there.
pub open spec fn bump(n: u64) -> u64 {
    if n < u64::MAX {
        (n + 1) as u64
    } else {
        n
    }
}

/// The internal name with the given prefix and number.
pub open spec fn synth(prefix: Seq<char>, n: u64) -> Seq<char> {
    prefix + text::dec(n as nat)
}

/// The first number from `n` on whose internal name no variable of the
/// query (in `used`) has; `u64::MAX` when every one before it is taken.
pub open spec fn fresh(prefix: Seq<char>, n: u64, used: Set<Seq<char>>) -> u64
    decreases u64::MAX - n,
{
    if n < u64::MAX && used.contains(synth(prefix, n)) {
        fresh(prefix, (n + 1) as u64, used)
    } else {
        n
    }
}

/// A fresh internal name is no variable of the query, unless the count
/// has run up to `u64::MAX`.
pub proof fn lemma_fresh_is_unused(prefix: Seq<char>, n: u64, used: Set<Seq<char>>)
    ensures
        fresh(prefix, n, used) >= n,
        fresh(prefix, n, used) == u64::MAX || !used.contains(synth(prefix, fresh(prefix, n, used))),
    decreases u64::MAX - n,
{
    if n < u64::MAX && used.contains(synth(prefix, n)) {
        lemma_fresh_is_unused(prefix, (n + 1) as u64, used);
    }
}

/// The binding of a pattern element: its variable, else a fresh internal
/// name when it has properties to filter on, else none.
pub open spec fn bind_name(
    var: Option<Seq<char>>,
    has_props: bool,
    prefix: Seq<char>,
    next: u64,
    used: Set<Seq<char>>,
) -> (Option<Seq<char>>, u64) {
    match var {
        Some(v) => (Some(v), next),
        None => if has_props {
            let f = fresh(prefix, next, used);
            (Some(synth(prefix, f)), bump(f))
        } else {
            (None, next)
        },
    }
}

/// `v.key = value`
pub open spec fn prop_eq(v: Seq<char>, kv: (Seq<char>, SExpr)) -> SExpr {
    SExpr::Bin(BinOp::Eq, Box::new(SExpr::Prop(Box::new(SExpr::Var(v)), kv.0)), Box::new(kv.1))
}

/// The conjunction, left-associated, of `v.key = value` over `props`.
pub open spec fn props_pred(v: Seq<char>, props: Seq<(Seq<char>, SExpr)>) -> SExpr
    decreases props.len(),
{
    if props.len() <= 1 {
        prop_eq(v, props[0])
    } else {
        SExpr::Bin(
            BinOp::And,
            Box::new(props_pred(v, props.drop_last())),
            Box::new(prop_eq(v, props.last())),
        )
    }
}

/// `p` under a filter on the properties of the element bound to `v`.
pub open spec fn with_props(p: SPlan, v: Option<Seq<char>>, props: Seq<(Seq<char>, SExpr)>) -> SPlan {
    if props.len() > 0 && v is Some {
        SPlan::Filter { input: Box::new(p), pred: props_pred(v->0, props) }
    } else {
        p
    }
}

pub open spec fn first_label(labels: Seq<Seq<char>>) -> Option<Seq<char>> {
    if labels.len() > 0 {
        Some(labels[0])
    } else {
        None
    }
}

/// The plan of the first node of a pattern, its binding, and the next number.
pub open spec fn lower_anchor(n: SNode, next: u64, used: Set<Seq<char>>) -> (
    SPlan,
    Option<Seq<char>>,
    u64,
) {
    let (v, n1) = bind_name(n.var, n.props.len() > 0, "__node_"@, next, used);
    (with_props(SPlan::Scan { var: v, label: first_label(n.labels) }, v, n.props), v, n1)
}

/// One hop from the node bound to `head`.
pub open spec fn lower_link(
    cur: SPlan,
    head: Option<Seq<char>>,
    c: SChain,
    next: u64,
    used: Set<Seq<char>>,
) -> (SPlan, Option<Seq<char>>, u64) {
    let (rv, n1) = bind_name(c.rel.var, c.rel.props.len() > 0, "__rel_"@, next, used);
    let (dv, n2) = bind_name(c.node.var, c.node.props.len() > 0, "__node_"@, n1, used);
    let e = SPlan::Expand {
        input: Box::new(cur),
        src: head,
        rel_var: rv,
        rel_types: c.rel.types,
        direction: c.rel.direction,
        dst: dv,
        dst_label: first_label(c.node.labels),
    };
    (with_props(with_props(e, rv, c.rel.props), dv, c.node.props), dv, n2)
}

/// The hops of a pattern from the `k`-th on.
pub open spec fn lower_links(
    cur: SPlan,
    head: Option<Seq<char>>,
    chain: Seq<SChain>,
    k: nat,
    next: u64,
    used: Set<Seq<char>>,
) -> (SPlan, u64)
    decreases chain.len() - k,
{
    if k >= chain.len() {
        (cur, next)
    } else {
        let (p, h, n) = lower_link(cur, head, chain[k as int], next, used);
        lower_links(p, h, chain, k + 1, n, used)
    }
}

pub open spec fn lower_pattern(p: SPattern, next: u64, used: Set<Seq<char>>) -> (SPlan, u64) {
    let (a, h, n) = lower_anchor(p.anchor, next, used);
    lower_links(a, h, p.chain, 0, n, used)
}

/// The patterns from the `k`-th on, joined to `acc` by `Cartesian`.
pub open spec fn lower_patterns_from(
    acc: SPlan,
    ps: Seq<SPattern>,
    k: nat,
    next: u64,
    used: Set<Seq<char>>,
) -> (SPlan, u64)
    decreases ps.len() - k,
{
    if k >= ps.len() {
        (acc, next)
    } else {
        let (pp, n) = lower_pattern(ps[k as int], next, used);
        lower_patterns_from(
            SPlan::Cartesian { left: Box::new(acc), right: Box::new(pp) },
            ps,
            k + 1,
            n,
            used,
        )
    }
}

/// The patterns of a `MATCH` as a left-deep `Cartesian`; none without patterns.
pub open spec fn lower_patterns(ps: Seq<SPattern>, next: u64, used: Set<Seq<char>>) -> Option<
    (SPlan, u64),
> {
    if ps.len() == 0 {
        None
    } else {
        let (p0, n) = lower_pattern(ps[0], next, used);
        Some(lower_patterns_from(p0, ps, 1, n, used))
    }
}

/// The state after one clause; `used` holds the variables of the query.
pub open spec fn lower_clause(st: SLowering, c: SClause, used: Set<Seq<char>>) -> Result<
    SLowering,
    PlanError,
> {
    let pend = st.pending;
    match c {
        SClause::OrderBy(items) => Ok(
            lowering(
                st.plan,
                SPending {
                    project: pend.project,
                    sort: Some(items),
                    skip: pend.skip,
                    limit: pend.limit,
                    from_with: pend.from_with,
                },
                st.next,
            ),
        ),
        SClause::Skip(e) => Ok(
            lowering(
                st.plan,
                SPending {
                    project: pend.project,
                    sort: pend.sort,
                    skip: Some(e),
                    limit: pend.limit,
                    from_with: pend.from_with,
                },
                st.next,
            ),
        ),
        SClause::Limit(e) => Ok(
            lowering(
                st.plan,
                SPending {
                    project: pend.project,
                    sort: pend.sort,
                    skip: pend.skip,
                    limit: Some(e),
                    from_with: pend.from_with,
                },
                st.next,
            ),
        ),
        SClause::With(p) => Ok(
            lowering(
                flush(st.plan, pend),
                SPending {
                    project: Some((p.items, p.distinct)),
                    sort: None,
                    skip: None,
                    limit: None,
                    from_with: true,
                },
                st.next,
            ),
        ),
        SClause::Return(p) => {
            let rest = settled_pending(pend);
            Ok(
                lowering(
                    settled_plan(st.plan, pend),
                    SPending {
                        project: Some((p.items, p.distinct)),
                        sort: rest.sort,
                        skip: rest.skip,
                        limit: rest.limit,
                        from_with: false,
                    },
                    st.next,
                ),
            )
        },
        SClause::Where(e) => Ok(
            lowering(
                SPlan::Filter { input: Box::new(settled_plan(st.plan, pend)), pred: e },
                settled_pending(pend),
                st.next,
            ),
        ),
        SClause::Unwind(e, v) => Ok(
            lowering(
                SPlan::Unwind { input: Box::new(settled_plan(st.plan, pend)), expr: e, var: v },
                settled_pending(pend),
                st.next,
            ),
        ),
        SClause::Delete(d, es) => Ok(
            lowering(
                SPlan::Delete { input: Box::new(settled_plan(st.plan, pend)), detach: d, exprs: es },
                settled_pending(pend),
                st.next,
            ),
        ),
        SClause::Match(m) => {
            let base = settled_plan(st.plan, pend);
            match lower_patterns(m.patterns, st.next, used) {
                None => Err(PlanError::EmptyQuery),
                Some((pp, n)) => if m.optional {
                    if base is Empty {
                        Err(PlanError::OptionalMatchWithoutAnchor)
                    } else {
                        Ok(
                            lowering(
                                SPlan::Optional { input: Box::new(base), optional: Box::new(pp) },
                                settled_pending(pend),
                                n,
                            ),
                        )
                    }
                } else if base is Empty {
                    Ok(lowering(pp, settled_pending(pend), n))
                } else {
                    Ok(
                        lowering(
                            SPlan::Cartesian { left: Box::new(base), right: Box::new(pp) },
                            settled_pending(pend),
                            n,
                        ),
                    )
                },
            }
        },
    }
}

/// The state after the clauses from the `k`-th on.
pub open spec fn lower_from(cs: Seq<SClause>, k: nat, st: SLowering, used: Set<Seq<char>>) -> Result<
    SLowering,
    PlanError,
>
    decreases cs.len() - k,
{
    if k >= cs.len() {
        Ok(st)
    } else {
        match lower_clause(st, cs[k as int], used) {
            Ok(st2) => lower_from(cs, k + 1, st2, used),
            Err(e) => Err(e),
        }
    }
}

/// The plan of a query.
pub open spec fn spec_plan(q: SQuery) -> Result<SPlan, PlanError> {
    if q.clauses.len() == 0 {
        Err(PlanError::EmptyQuery)
    } else {
        match lower_from(
            q.clauses,
            0,
            lowering(SPlan::Empty, no_pending(), 0),
            query_binds(q.clauses).to_set(),
        ) {
            Ok(st) => Ok(flush(st.plan, st.pending)),
            Err(e) => Err(e),
        }
    }
}

// ---- laws of the lowering ------------------------------------------------------

/// A projection is stacked as `Project`, then `Distinct` when asked for,
/// `Sort`, `Skip` and `Limit`, each above the one before; with nothing
/// pending the plan stays as it is.
pub proof fn lemma_projection_stack(
    plan: SPlan,
    items: Seq<SItem>,
    distinct: bool,
    keys: Seq<SOrderItem>,
    skip: SExpr,
    limit: SExpr,
    from_with: bool,
)
    ensures
        flush(
            plan,
            SPending {
                project: Some((items, distinct)),
                sort: Some(keys),
                skip: Some(skip),
                limit: Some(limit),
                from_with,
            },
        ) == (SPlan::Limit {
            input: Box::new(
                SPlan::Skip {
                    input: Box::new(
                        SPlan::Sort {
                            input: Box::new(
                                if distinct {
                                    SPlan::Distinct {
                                        input: Box::new(
                                            SPlan::Project { input: Box::new(plan), exprs: items },
                                        ),
                                    }
                                } else {
                                    SPlan::Project { input: Box::new(plan), exprs: items }
                                },
                            ),
                            keys,
                        },
                    ),
                    count: skip,
                },
            ),
            count: limit,
        }),
        flush(plan, no_pending()) == plan,
{
}

/// Lowering one clause after a `RETURN` part or at the start (nothing from
/// a `WITH` pending): `WHERE`, `UNWIND` and `DELETE` wrap the plan so far;
/// `ORDER BY`, `SKIP`, `LIMIT` and `RETURN` only set what is pending; `WITH`
/// stacks what is pending and starts a new part; `MATCH` joins the pattern
/// plan to the plan so far, by `Cartesian`, or by `Optional` for `OPTIONAL
/// MATCH`, which needs something to extend.
pub proof fn lemma_clause_lowering(st: SLowering, c: SClause, used: Set<Seq<char>>)
    requires
        !st.pending.from_with,
    ensures
        match c {
            SClause::Where(e) => lower_clause(st, c, used) == Ok::<SLowering, PlanError>(
                lowering(SPlan::Filter { input: Box::new(st.plan), pred: e }, st.pending, st.next),
            ),
            SClause::Unwind(e, v) => lower_clause(st, c, used) == Ok::<SLowering, PlanError>(
                lowering(
                    SPlan::Unwind { input: Box::new(st.plan), expr: e, var: v },
                    st.pending,
                    st.next,
                ),
            ),
            SClause::Delete(d, es) => lower_clause(st, c, used) == Ok::<SLowering, PlanError>(
                lowering(
                    SPlan::Delete { input: Box::new(st.plan), detach: d, exprs: es },
                    st.pending,
                    st.next,
                ),
            ),
            SClause::OrderBy(items) => lower_clause(st, c, used) == Ok::<SLowering, PlanError>(
                lowering(
                    st.plan,
                    SPending {
                        project: st.pending.project,
                        sort: Some(items),
                        skip: st.pending.skip,
                        limit: st.pending.limit,
                        from_with: false,
                    },
                    st.next,
                ),
            ),
            SClause::Skip(e) => lower_clause(st, c, used) == Ok::<SLowering, PlanError>(
                lowering(
                    st.plan,
                    SPending {
                        project: st.pending.project,
                        sort: st.pending.sort,
                        skip: Some(e),
                        limit: st.pending.limit,
                        from_with: false,
                    },
                    st.next,
                ),
            ),
            SClause::Limit(e) => lower_clause(st, c, used) == Ok::<SLowering, PlanError>(
                lowering(
                    st.plan,
                    SPending {
                        project: st.pending.project,
                        sort: st.pending.sort,
                        skip: st.pending.skip,
                        limit: Some(e),
                        from_with: false,
                    },
                    st.next,
                ),
            ),
            SClause::Return(p) => lower_clause(st, c, used) == Ok::<SLowering, PlanError>(
                lowering(
                    st.plan,
                    SPending {
                        project: Some((p.items, p.distinct)),
                        sort: st.pending.sort,
                        skip: st.pending.skip,
                        limit: st.pending.limit,
                        from_with: false,
                    },
                    st.next,
                ),
            ),
            SClause::With(p) => lower_clause(st, c, used) == Ok::<SLowering, PlanError>(
                lowering(
                    flush(st.plan, st.pending),
                    SPending {
                        project: Some((p.items, p.distinct)),
                        sort: None,
                        skip: None,
                        limit: None,
                        from_with: true,
                    },
                    st.next,
                ),
            ),
            SClause::Match(m) => match lower_patterns(m.patterns, st.next, used) {
                None => lower_clause(st, c, used) == Err::<SLowering, PlanError>(PlanError::EmptyQuery),
                Some((pp, n)) => lower_clause(st, c, used) == if m.optional {
                    if st.plan == SPlan::Empty {
                        Err::<SLowering, PlanError>(PlanError::OptionalMatchWithoutAnchor)
                    } else {
                        Ok::<SLowering, PlanError>(
                            lowering(
                                SPlan::Optional { input: Box::new(st.plan), optional: Box::new(pp) },
                                st.pending,
                                n,
                            ),
                        )
                    }
                } else if st.plan == SPlan::Empty {
                    Ok::<SLowering, PlanError>(lowering(pp, st.pending, n))
                } else {
                    Ok::<SLowering, PlanError>(
                        lowering(
                            SPlan::Cartesian { left: Box::new(st.plan), right: Box::new(pp) },
                            st.pending,
                            n,
                        ),
                    )
                },
            },
        },
{
}

/// A node pattern without properties scans its variable with its first
/// label; a hop without properties expands from the previous node along the
/// relationship's types and direction to the next node, checking that
/// node's first label.
pub proof fn lemma_pattern_steps(n: SNode, c: SChain, cur: SPlan, head: Option<Seq<char>>, next: u64, used: Set<Seq<char>>)
    ensures
        n.props.len() == 0 ==> lower_anchor(n, next, used) == (
            SPlan::Scan {
                var: n.var,
                label: if n.labels.len() > 0 {
                    Some(n.labels[0])
                } else {
                    None
                },
            },
            n.var,
            next,
        ),
        c.rel.props.len() == 0 && c.node.props.len() == 0 ==> lower_link(cur, head, c, next, used)
            == (
            SPlan::Expand {
                input: Box::new(cur),
                src: head,
                rel_var: c.rel.var,
                rel_types: c.rel.types,
                direction: c.rel.direction,
                dst: c.node.var,
                dst_label: if c.node.labels.len() > 0 {
                    Some(c.node.labels[0])
                } else {
                    None
                },
            },
            c.node.var,
            next,
        ),
{
}

/// A property map becomes the conjunction, left to right, of one equality
/// `var.key = value` per entry.
pub proof fn lemma_property_filters(v: Seq<char>, props: Seq<(Seq<char>, SExpr)>)
    requires
        props.len() > 0,
    ensures
        props.len() == 1 ==> props_pred(v, props) == SExpr::Bin(
            BinOp::Eq,
            Box::new(SExpr::Prop(Box::new(SExpr::Var(v)), props[0].0)),
            Box::new(props[0].1),
        ),
        props.len() > 1 ==> props_pred(v, props) == SExpr::Bin(
            BinOp::And,
            Box::new(props_pred(v, props.drop_last())),
            Box::new(
                SExpr::Bin(
                    BinOp::Eq,
                    Box::new(SExpr::Prop(Box::new(SExpr::Var(v)), props.last().0)),
                    Box::new(props.last().1),
                ),
            ),
        ),
        with_props(SPlan::Empty, Some(v), props) == (SPlan::Filter {
            input: Box::new(SPlan::Empty),
            pred: props_pred(v, props),
        }),
{
}

// ---- copying ------------------------------------------------------------------

impl Clone for ProjectExpr {
    fn clone(&self) -> (r: Self)
        ensures
            r@ == self@,
    {
        ProjectExpr { expr: self.expr.clone(), alias: ast::copy_opt_str(&self.alias) }
    }
}

impl Clone for SortKey {
    fn clone(&self) -> (r: Self)
        ensures
            r@ == self@,
    {
        SortKey { expr: self.expr.clone(), desc: self.desc }
    }
}

fn clone_projs(v: &Vec<ProjectExpr>) -> (r: Vec<ProjectExpr>)
    ensures
        projs_model(r@) == projs_model(v@),
{
    let mut out: Vec<ProjectExpr> = Vec::new();
    let mut i: usize = 0;
    while i < v.len()
        invariant
            i <= v@.len(),
            out@.len() == i,
            forall|j: int| 0 <= j < i ==> #[trigger] out@[j]@ == v@[j]@,
        decreases v@.len() - i,
    {
        out.push(v[i].clone());
        i = i + 1;
    }
    proof {
        assert(projs_model(out@) =~= projs_model(v@));
    }
    out
}

fn clone_keys(v: &Vec<SortKey>) -> (r: Vec<SortKey>)
    ensures
        keys_model(r@) == keys_model(v@),
{
    let mut out: Vec<SortKey> = Vec::new();
    let mut i: usize = 0;
    while i < v.len()
        invariant
            i <= v@.len(),
            out@.len() == i,
            forall|j: int| 0 <= j < i ==> #[trigger] out@[j]@ == v@[j]@,
        decreases v@.len() - i,
    {
        out.push(v[i].clone());
        i = i + 1;
    }
    proof {
        assert(keys_model(out@) =~= keys_model(v@));
    }
    out
}

impl Clone for Plan {
    fn clone(&self) -> (r: Self)
        ensures
            r@ == self@,
        decreases self,
    {
        match self {
            Plan::Empty => Plan::Empty,
            Plan::Scan { var, label } => Plan::Scan {
                var: ast::copy_opt_str(var),
                label: ast::copy_opt_str(label),
            },
            Plan::Expand { input, src, rel_var, rel_types, direction, dst, dst_label } => Plan::Expand {
                input: Box::new((**input).clone()),
                src: ast::copy_opt_str(src),
                rel_var: ast::copy_opt_str(rel_var),
                rel_types: ast::copy_strs(rel_types),
                direction: *direction,
                dst: ast::copy_opt_str(dst),
                dst_label: ast::copy_opt_str(dst_label),
            },
            Plan::Filter { input, pred } => Plan::Filter {
                input: Box::new((**input).clone()),
                pred: pred.clone(),
            },
            Plan::Project { input, exprs } => Plan::Project {
                input: Box::new((**input).clone()),
                exprs: clone_projs(exprs),
            },
            Plan::Distinct { input } => Plan::Distinct { input: Box::new((**input).clone()) },
            Plan::Sort { input, keys } => Plan::Sort {
                input: Box::new((**input).clone()),
                keys: clone_keys(keys),
            },
            Plan::Skip { input, count } => Plan::Skip {
                input: Box::new((**input).clone()),
                count: count.clone(),
            },
            Plan::Limit { input, count } => Plan::Limit {
                input: Box::new((**input).clone()),
                count: count.clone(),
            },
            Plan::Cartesian { left, right } => Plan::Cartesian {
                left: Box::new((**left).clone()),
                right: Box::new((**right).clone()),
            },
            Plan::Optional { input, optional } => Plan::Optional {
                input: Box::new((**input).clone()),
                optional: Box::new((**optional).clone()),
            },
            Plan::Unwind { input, expr, var } => Plan::Unwind {
                input: Box::new((**input).clone()),
                expr: expr.clone(),
                var: var.clone(),
            },
            Plan::Delete { input, detach, exprs } => Plan::Delete {
                input: Box::new((**input).clone()),
                detach: *detach,
                exprs: ast::clone_exprs(exprs),
            },
        }
    }
}

// ---- lowering -----------------------------------------------------------------

struct Pending {
    project: Option<(Vec<ProjectExpr>, bool)>,
    sort: Option<Vec<SortKey>>,
    skip: Option<Expr>,
    limit: Option<Expr>,
    from_with: bool,
}

impl View for Pending {
    type V = SPending;

    closed spec fn view(&self) -> SPending {
        SPending {
            project: match self.project {
                Some((items, distinct)) => Some((projs_model(items@), distinct)),
                None => None,
            },
            sort: match self.sort {
                Some(keys) => Some(keys_model(keys@)),
                None => None,
            },
            skip: match self.skip {
                Some(e) => Some(e@),
                None => None,
            },
            limit: match self.limit {
                Some(e) => Some(e@),
                None => None,
            },
            from_with: self.from_with,
        }
    }
}

fn no_pending_x() -> (r: Pending)
    ensures
        r@ == no_pending(),
{
    Pending { project: None, sort: None, skip: None, limit: None, from_with: false }
}

/// The plan and the pending projection under the next clause other than
/// `WITH`, `ORDER BY`, `SKIP` and `LIMIT`.
fn settle_x(plan: Plan, pend: Pending) -> (r: (Plan, Pending))
    ensures
        r.0@ == settled_plan(plan@, pend@),
        r.1@ == settled_pending(pend@),
{
    if pend.from_with {
        (flush_x(plan, pend), no_pending_x())
    } else {
        (plan, pend)
    }
}

fn flush_x(plan: Plan, pend: Pending) -> (r: Plan)
    ensures
        r@ == flush(plan@, pend@),
{
    proof {
        reveal_with_fuel(plan_model, 6);
    }
    let p1 = match pend.project {
        Some((items, distinct)) => {
            let pr = Plan::Project { input: Box::new(plan), exprs: items };
            if distinct {
                Plan::Distinct { input: Box::new(pr) }
            } else {
                pr
            }
        },
        None => plan,
    };
    let p2 = match pend.sort {
        Some(keys) => Plan::Sort { input: Box::new(p1), keys },
        None => p1,
    };
    let p3 = match pend.skip {
        Some(c) => Plan::Skip { input: Box::new(p2), count: c },
        None => p2,
    };
    match pend.limit {
        Some(c) => Plan::Limit { input: Box::new(p3), count: c },
        None => p3,
    }
}

fn bump_x(n: u64) -> (r: u64)
    ensures
        r == bump(n),
{
    if n < u64::MAX {
        n + 1
    } else {
        n
    }
}

fn synth_x(prefix: &str, n: u64) -> (r: String)
    ensures
        r@ == synth(prefix@, n),
{
    let mut s = String::from_str(prefix);
    push_dec(&mut s, n);
    s
}

/// The fresh internal name from `next` on and its number.
fn fresh_x(prefix: &str, next: u64, used: &Vec<String>) -> (r: (String, u64))
    ensures
        r.1 == fresh(prefix@, next, name_set(used@)),
        r.0@ == synth(prefix@, r.1),
{
    let ghost u = name_set(used@);
    let mut n = next;
    let mut name = synth_x(prefix, n);
    while n < u64::MAX && contains_name(used, &name)
        invariant
            u == name_set(used@),
            fresh(prefix@, n, u) == fresh(prefix@, next, u),
            name@ == synth(prefix@, n),
        decreases u64::MAX - n,
    {
        n = n + 1;
        name = synth_x(prefix, n);
    }
    (name, n)
}

fn bind_name_x(var: &Option<String>, has_props: bool, prefix: &str, next: u64, used: &Vec<String>) -> (r: (
    Option<String>,
    u64,
))
    ensures
        (ast::opt_str(r.0), r.1) == bind_name(
            ast::opt_str(*var),
            has_props,
            prefix@,
            next,
            name_set(used@),
        ),
{
    match var {
        Some(v) => (Some(v.clone()), next),
        None => if has_props {
            let (name, f) = fresh_x(prefix, next, used);
            (Some(name), bump_x(f))
        } else {
            (None, next)
        },
    }
}

fn prop_eq_x(v: &String, kv: &(String, Expr)) -> (r: Expr)
    ensures
        r@ == prop_eq(v@, (kv.0@, kv.1@)),
{
    proof {
        reveal_with_fuel(ast::expr_model, 3);
    }
    Expr::Binary {
        op: BinOp::Eq,
        lhs: Box::new(Expr::Property { base: Box::new(Expr::Variable(v.clone())), key: kv.0.clone() }),
        rhs: Box::new(kv.1.clone()),
    }
}

fn props_pred_x(v: &String, props: &Vec<(String, Expr)>) -> (r: Expr)
    requires
        props@.len() > 0,
    ensures
        r@ == props_pred(v@, ast::entries_model(props@)),
{
    let ghost m = ast::entries_model(props@);
    proof {
        ast::lemma_entries_model_len(props@);
        assert(m.take(1).len() == 1);
    }
    let mut acc = prop_eq_x(v, &props[0]);
    let mut k: usize = 1;
    while k < props.len()
        invariant
            1 <= k <= props@.len(),
            m == ast::entries_model(props@),
            m.len() == props@.len(),
            forall|j: int| 0 <= j < props@.len() ==> #[trigger] m[j] == (props@[j].0@, props@[j].1@),
            acc@ == props_pred(v@, m.take(k as int)),
        decreases props@.len() - k,
    {
        let next = prop_eq_x(v, &props[k]);
        proof {
            assert(m.take(k + 1).drop_last() =~= m.take(k as int));
            assert(m.take(k + 1).last() == m[k as int]);
        }
        acc = Expr::Binary { op: BinOp::And, lhs: Box::new(acc), rhs: Box::new(next) };
        k = k + 1;
    }
    proof {
        assert(m.take(props@.len() as int) =~= m);
    }
    acc
}

fn with_props_x(p: Plan, v: &Option<String>, props: &Vec<(String, Expr)>) -> (r: Plan)
    ensures
        r@ == with_props(p@, ast::opt_str(*v), ast::entries_model(props@)),
{
    proof {
        ast::lemma_entries_model_len(props@);
    }
    if props.len() > 0 {
        match v {
            Some(name) => Plan::Filter { input: Box::new(p), pred: props_pred_x(name, props) },
            None => p,
        }
    } else {
        p
    }
}

fn first_label_x(labels: &Vec<String>) -> (r: Option<String>)
    ensures
        ast::opt_str(r) == first_label(ast::strs(labels@)),
{
    if labels.len() > 0 {
        Some(labels[0].clone())
    } else {
        None
    }
}

fn lower_anchor_x(n: &NodePattern, next: u64, used: &Vec<String>) -> (r: (Plan, Option<String>, u64))
    ensures
        (r.0@, ast::opt_str(r.1), r.2) == lower_anchor(n@, next, name_set(used@)),
{
    proof {
        ast::lemma_entries_model_len(n.properties@);
    }
    let (v, n1) = bind_name_x(&n.var, n.properties.len() > 0, "__node_", next, used);
    let scan = Plan::Scan { var: ast::copy_opt_str(&v), label: first_label_x(&n.labels) };
    let p = with_props_x(scan, &v, &n.properties);
    (p, v, n1)
}

fn lower_link_x(cur: Plan, head: Option<String>, c: &RelChain, next: u64, used: &Vec<String>) -> (r: (
    Plan,
    Option<String>,
    u64,
))
    ensures
        (r.0@, ast::opt_str(r.1), r.2) == lower_link(
            cur@,
            ast::opt_str(head),
            c@,
            next,
            name_set(used@),
        ),
{
    proof {
        ast::lemma_entries_model_len(c.rel.properties@);
        ast::lemma_entries_model_len(c.node.properties@);
    }
    let (rv, n1) = bind_name_x(&c.rel.var, c.rel.properties.len() > 0, "__rel_", next, used);
    let (dv, n2) = bind_name_x(&c.node.var, c.node.properties.len() > 0, "__node_", n1, used);
    let e = Plan::Expand {
        input: Box::new(cur),
        src: head,
        rel_var: ast::copy_opt_str(&rv),
        rel_types: ast::copy_strs(&c.rel.types),
        direction: c.rel.direction,
        dst: ast::copy_opt_str(&dv),
        dst_label: first_label_x(&c.node.labels),
    };
    let e1 = with_props_x(e, &rv, &c.rel.properties);
    let e2 = with_props_x(e1, &dv, &c.node.properties);
    (e2, dv, n2)
}

fn lower_pattern_x(p: &Pattern, next: u64, used: &Vec<String>) -> (r: (Plan, u64))
    ensures
        (r.0@, r.1) == lower_pattern(p@, next, name_set(used@)),
{
    let (a, h, n0) = lower_anchor_x(&p.anchor, next, used);
    let mut cur = a;
    let mut head = h;
    let mut n = n0;
    let mut k: usize = 0;
    let ghost chain = ast::chains_model(p.chain@);
    while k < p.chain.len()
        invariant
            k <= p.chain@.len(),
            chain == ast::chains_model(p.chain@),
            chain.len() == p.chain@.len(),
            lower_pattern(p@, next, name_set(used@)) == lower_links(
                cur@,
                ast::opt_str(head),
                chain,
                k as nat,
                n,
                name_set(used@),
            ),
        decreases p.chain@.len() - k,
    {
        proof {
            assert(chain[k as int] == p.chain@[k as int]@);
        }
        let (c2, h2, n2) = lower_link_x(cur, head, &p.chain[k], n, used);
        cur = c2;
        head = h2;
        n = n2;
        k = k + 1;
    }
    (cur, n)
}

fn lower_patterns_x(ps: &Vec<Pattern>, next: u64, used: &Vec<String>) -> (r: Option<(Plan, u64)>)
    ensures
        match r {
            Some((p, n)) => lower_patterns(ast::patterns_model(ps@), next, name_set(used@)) == Some(
                (p@, n),
            ),
            None => lower_patterns(ast::patterns_model(ps@), next, name_set(used@)) is None,
        },
{
    let ghost m = ast::patterns_model(ps@);
    if ps.len() == 0 {
        return None;
    }
    let (p0, n0) = lower_pattern_x(&ps[0], next, used);
    let mut acc = p0;
    let mut n = n0;
    let mut k: usize = 1;
    while k < ps.len()
        invariant
            1 <= k <= ps@.len(),
            m == ast::patterns_model(ps@),
            m.len() == ps@.len(),
            lower_patterns(m, next, name_set(used@)) == Some(
                lower_patterns_from(acc@, m, k as nat, n, name_set(used@)),
            ),
        decreases ps@.len() - k,
    {
        let (pp, n2) = lower_pattern_x(&ps[k], n, used);
        acc = Plan::Cartesian { left: Box::new(acc), right: Box::new(pp) };
        n = n2;
        k = k + 1;
    }
    Some((acc, n))
}

fn project_items(items: &Vec<ReturnItem>) -> (r: Vec<ProjectExpr>)
    ensures
        projs_model(r@) == ast::items_model(items@),
{
    let mut out: Vec<ProjectExpr> = Vec::new();
    let mut i: usize = 0;
    while i < items.len()
        invariant
            i <= items@.len(),
            out@.len() == i,
            forall|j: int| 0 <= j < i ==> #[trigger] out@[j]@ == items@[j]@,
        decreases items@.len() - i,
    {
        out.push(
            ProjectExpr { expr: items[i].expr.clone(), alias: ast::copy_opt_str(&items[i].alias) },
        );
        i = i + 1;
    }
    proof {
        assert(projs_model(out@) =~= ast::items_model(items@));
    }
    out
}

fn sort_keys(items: &Vec<OrderItem>) -> (r: Vec<SortKey>)
    ensures
        keys_model(r@) == ast::orders_model(items@),
{
    let mut out: Vec<SortKey> = Vec::new();
    let mut i: usize = 0;
    while i < items.len()
        invariant
            i <= items@.len(),
            out@.len() == i,
            forall|j: int| 0 <= j < i ==> #[trigger] out@[j]@ == items@[j]@,
        decreases items@.len() - i,
    {
        out.push(SortKey { expr: items[i].expr.clone(), desc: items[i].desc });
        i = i + 1;
    }
    proof {
        assert(keys_model(out@) =~= ast::orders_model(items@));
    }
    out
}

/// One clause: the state after it, or the error it raises.
fn lower_clause_x(plan: Plan, pend: Pending, next: u64, c: &Clause, used: &Vec<String>) -> (r:
    Result<(Plan, Pending, u64), PlanError>)
    ensures
        match r {
            Ok((p, pd, n)) => lower_clause(lowering(plan@, pend@, next), c@, name_set(used@)) == Ok::<
                SLowering,
                PlanError,
            >(lowering(p@, pd@, n)),
            Err(e) => lower_clause(lowering(plan@, pend@, next), c@, name_set(used@)) == Err::<
                SLowering,
                PlanError,
            >(e),
        },
{
    match c {
        Clause::OrderBy(items) => {
            let pd = Pending {
                project: pend.project,
                sort: Some(sort_keys(items)),
                skip: pend.skip,
                limit: pend.limit,
                from_with: pend.from_with,
            };
            Ok((plan, pd, next))
        },
        Clause::Skip(e) => {
            let pd = Pending {
                project: pend.project,
                sort: pend.sort,
                skip: Some(e.clone()),
                limit: pend.limit,
                from_with: pend.from_with,
            };
            Ok((plan, pd, next))
        },
        Clause::Limit(e) => {
            let pd = Pending {
                project: pend.project,
                sort: pend.sort,
                skip: pend.skip,
                limit: Some(e.clone()),
                from_with: pend.from_with,
            };
            Ok((plan, pd, next))
        },
        Clause::With(p) => {
            let base = flush_x(plan, pend);
            let pd = Pending {
                project: Some((project_items(&p.items), p.distinct)),
                sort: None,
                skip: None,
                limit: None,
                from_with: true,
            };
            Ok((base, pd, next))
        },
        Clause::Return(p) => {
            let (base, rest) = settle_x(plan, pend);
            let pd = Pending {
                project: Some((project_items(&p.items), p.distinct)),
                sort: rest.sort,
                skip: rest.skip,
                limit: rest.limit,
                from_with: false,
            };
            Ok((base, pd, next))
        },
        Clause::Where(e) => {
            let (base, rest) = settle_x(plan, pend);
            Ok((Plan::Filter { input: Box::new(base), pred: e.clone() }, rest, next))
        },
        Clause::Unwind { expr, var } => {
            let (base, rest) = settle_x(plan, pend);
            Ok(
                (
                    Plan::Unwind { input: Box::new(base), expr: expr.clone(), var: var.clone() },
                    rest,
                    next,
                ),
            )
        },
        Clause::Delete { detach, exprs } => {
            let (base, rest) = settle_x(plan, pend);
            Ok(
                (
                    Plan::Delete {
                        input: Box::new(base),
                        detach: *detach,
                        exprs: ast::clone_exprs(exprs),
                    },
                    rest,
                    next,
                ),
            )
        },
        Clause::Match(m) => {
            let (base, rest) = settle_x(plan, pend);
            match lower_patterns_x(&m.patterns, next, used) {
                None => Err(PlanError::EmptyQuery),
                Some((pp, n)) => {
                    let base_empty = match base {
                        Plan::Empty => true,
                        _ => false,
                    };
                    if m.optional {
                        if base_empty {
                            Err(PlanError::OptionalMatchWithoutAnchor)
                        } else {
                            Ok(
                                (
                                    Plan::Optional { input: Box::new(base), optional: Box::new(pp) },
                                    rest,
                                    n,
                                ),
                            )
                        }
                    } else if base_empty {
                        Ok((pp, rest, n))
                    } else {
                        Ok(
                            (
                                Plan::Cartesian { left: Box::new(base), right: Box::new(pp) },
                                rest,
                                n,
                            ),
                        )
                    }
                },
            }
        },
    }
}

/// Lower a parsed query into a logical plan tree.
///
/// The result is [`spec_plan`]: `EmptyQuery` for a query without clauses
/// (or a `MATCH` without patterns), `OptionalMatchWithoutAnchor` for an
/// `OPTIONAL MATCH` with nothing before it to extend, else the plan that
/// the clauses build one after the other.
pub fn plan(query: &Query) -> (r: Result<Plan, PlanError>)
    ensures
        match r {
            Ok(p) => spec_plan(query@) == Ok::<SPlan, PlanError>(p@),
            Err(e) => spec_plan(query@) == Err::<SPlan, PlanError>(e),
        },
{
    let ghost cs = ast::clauses_model(query.clauses@);
    if query.clauses.len() == 0 {
        return Err(PlanError::EmptyQuery);
    }
    let used = collect_bindings(query);
    let ghost u = name_set(used@);
    let mut cur = Plan::Empty;
    let mut pend = no_pending_x();
    let mut next: u64 = 0;
    let mut k: usize = 0;
    while k < query.clauses.len()
        invariant
            k <= query.clauses@.len(),
            cs == ast::clauses_model(query.clauses@),
            cs.len() == query.clauses@.len(),
            u == name_set(used@),
            u == query_binds(cs).to_set(),
            lower_from(cs, 0, lowering(SPlan::Empty, no_pending(), 0), u) == lower_from(
                cs,
                k as nat,
                lowering(cur@, pend@, next),
                u,
            ),
        decreases query.clauses@.len() - k,
    {
        proof {
            assert(cs[k as int] == query.clauses@[k as int]@);
        }
        match lower_clause_x(cur, pend, next, &query.clauses[k], &used) {
            Ok((p, pd, n)) => {
                cur = p;
                pend = pd;
                next = n;
            },
            Err(e) => {
                return Err(e);
            },
        }
        k = k + 1;
    }
    Ok(flush_x(cur, pend))
}

} // verus!
