//! Semantic analysis: variable binding, scope checking, and optional
//! schema-aware label and relationship-type validation.
//!
//! 1. The bindings of a query are the variables of its `MATCH` /
//!    `OPTIONAL MATCH` patterns (nodes and relationships), the aliases of
//!    its `WITH` items and the variables of its `UNWIND` clauses.
//! 2. Every variable that an expression of a `WHERE`, `WITH`, `RETURN`,
//!    `ORDER BY`, `SKIP`, `LIMIT`, `UNWIND` or `DELETE` clause refers to
//!    must be one of the bindings; parameters are always external.
//! 3. Labels and relationship types of patterns are checked against a
//!    [`Schema`] when the caller supplies one.
//!
//! Issues are reported in the order of the clauses, and within a clause in
//! the order in which the checked names occur in the text.
use vstd::prelude::*;

use crate::ast;
use crate::ast::{
    Clause, Expr, OrderItem, Pattern, Query, RelChain, ReturnItem, SChain, SClause,
    SExpr, SItem, SOrderItem, SPattern, SQuery,
};
use crate::names::{
    contains_name, distinct_names, insert_name, name_set, no_names, used_vars, used_vars_entries,
    used_vars_list,
};
use vstd::string::StringExecFns;

verus! {

broadcast use vstd::seq_lib::group_seq_properties;

/// What the caller knows of the data the query will run against. Both
/// checks approve everything unless an implementation says otherwise.
pub trait Schema {
    /// Labels that this schema promises to approve; unless an
    /// implementation says so, it promises none.
    open spec fn approves_label(&self, label: Seq<char>) -> bool {
        false
    }

    /// Relationship types that this schema promises to approve; unless an
    /// implementation says so, it promises none.
    open spec fn approves_rel_type(&self, rel_type: Seq<char>) -> bool {
        false
    }

    /// Whether the label is known; unless overridden, every label is.
    fn has_label(&self, _label: &str) -> (r: bool)
        ensures
            self.approves_label(_label@) ==> r,
        default_ensures
            r,
    {
        true
    }

    /// Whether the relationship type is known; unless overridden, every
    /// type is.
    fn has_rel_type(&self, _rel_type: &str) -> (r: bool)
        ensures
            self.approves_rel_type(_rel_type@) ==> r,
        default_ensures
            r,
    {
        true
    }
}

/// A schema that approves every label and relationship type.
pub struct PermissiveSchema;

impl Schema for PermissiveSchema {
    open spec fn approves_label(&self, label: Seq<char>) -> bool {
        true
    }

    open spec fn approves_rel_type(&self, rel_type: Seq<char>) -> bool {
        true
    }
}

/// How serious an issue is.
#[derive(Debug, Clone, Copy, PartialEq, Eq, Structural)]
pub enum SemSeverity {
    Error,
    Warning,
}

/// A finding of the analysis: its severity, a stable code
/// (`unbound-variable`, `unknown-label`, `unknown-rel-type`) and a message.
#[derive(Debug, PartialEq, Eq)]
pub struct SemIssue {
    pub severity: SemSeverity,
    pub code: &'static str,
    pub message: String,
}

/// The result of the analysis of a query.
#[derive(Debug, Clone, PartialEq, Eq)]
pub struct AnalysisReport {
    /// The variables that the query binds, each once.
    pub bindings: Vec<String>,
    pub issues: Vec<SemIssue>,
}

// ---- the model ---------------------------------------------------------------

pub struct SIssue {
    pub severity: SemSeverity,
    pub code: Seq<char>,
    pub message: Seq<char>,
}

pub struct SReport {
    pub bindings: Set<Seq<char>>,
    pub issues: Seq<SIssue>,
}

impl View for SemIssue {
    type V = SIssue;

    open spec fn view(&self) -> SIssue {
        SIssue { severity: self.severity, code: self.code@, message: self.message@ }
    }
}

pub open spec fn issues_model(s: Seq<SemIssue>) -> Seq<SIssue> {
    s.map_values(|i: SemIssue| i@)
}

impl View for AnalysisReport {
    type V = SReport;

    open spec fn view(&self) -> SReport {
        SReport { bindings: name_set(self.bindings@), issues: issues_model(self.issues@) }
    }
}

/// An expression refers to a variable that nothing binds.
pub open spec fn unbound_issue(v: Seq<char>) -> SIssue {
    SIssue {
        severity: SemSeverity::Error,
        code: "unbound-variable"@,
        message: "unbound variable `"@ + v
            + "` (introduce it in a MATCH pattern, or use $name for a parameter)"@,
    }
}

/// A pattern names a label that the schema does not know.
pub open spec fn label_issue(l: Seq<char>) -> SIssue {
    SIssue { severity: SemSeverity::Error, code: "unknown-label"@, message: "unknown label `"@ + l + "`"@ }
}

/// A pattern names a relationship type that the schema does not know.
pub open spec fn rel_issue(t: Seq<char>) -> SIssue {
    SIssue {
        severity: SemSeverity::Error,
        code: "unknown-rel-type"@,
        message: "unknown relationship type `"@ + t + "`"@,
    }
}

// ---- bindings --------------------------------------------------------------------

pub open spec fn opt_seq(v: Option<Seq<char>>) -> Seq<Seq<char>> {
    match v {
        Some(x) => seq![x],
        None => Seq::empty(),
    }
}

pub open spec fn chain_binds(ch: Seq<SChain>) -> Seq<Seq<char>>
    decreases ch.len(),
{
    if ch.len() == 0 {
        Seq::empty()
    } else {
        chain_binds(ch.drop_last()) + opt_seq(ch.last().rel.var) + opt_seq(ch.last().node.var)
    }
}

pub open spec fn pattern_binds(p: SPattern) -> Seq<Seq<char>> {
    opt_seq(p.anchor.var) + chain_binds(p.chain)
}

pub open spec fn patterns_binds(ps: Seq<SPattern>) -> Seq<Seq<char>>
    decreases ps.len(),
{
    if ps.len() == 0 {
        Seq::empty()
    } else {
        patterns_binds(ps.drop_last()) + pattern_binds(ps.last())
    }
}

pub open spec fn item_aliases(items: Seq<SItem>) -> Seq<Seq<char>>
    decreases items.len(),
{
    if items.len() == 0 {
        Seq::empty()
    } else {
        item_aliases(items.drop_last()) + opt_seq(items.last().alias)
    }
}

pub open spec fn clause_binds(c: SClause) -> Seq<Seq<char>> {
    match c {
        SClause::Match(m) => patterns_binds(m.patterns),
        SClause::With(p) => item_aliases(p.items),
        SClause::Unwind(_, v) => seq![v],
        _ => Seq::empty(),
    }
}

/// The names that the clauses bind, in the order in which they occur.
pub open spec fn query_binds(cs: Seq<SClause>) -> Seq<Seq<char>>
    decreases cs.len(),
{
    if cs.len() == 0 {
        Seq::empty()
    } else {
        query_binds(cs.drop_last()) + clause_binds(cs.last())
    }
}

// ---- variable references ---------------------------------------------------------

/// The variables that `e` refers to, in the order in which they occur.
pub open spec fn expr_vars(e: SExpr) -> Seq<Seq<char>>
    decreases e,
{
    match e {
        SExpr::Var(v) => seq![v],
        SExpr::Prop(b, _) => expr_vars(*b),
        SExpr::Bin(_, l, r) => expr_vars(*l) + expr_vars(*r),
        SExpr::Un(_, x) => expr_vars(*x),
        SExpr::List(items) => list_vars(items),
        SExpr::MapLit(entries) => entries_vars(entries),
        SExpr::Lit(_) => Seq::empty(),
        SExpr::Param(_) => Seq::empty(),
    }
}

pub open spec fn list_vars(s: Seq<SExpr>) -> Seq<Seq<char>>
    decreases s,
{
    if s.len() == 0 {
        Seq::empty()
    } else {
        list_vars(s.subrange(0, s.len() - 1)) + expr_vars(s[s.len() - 1])
    }
}

pub open spec fn entries_vars(s: Seq<(Seq<char>, SExpr)>) -> Seq<Seq<char>>
    decreases s,
{
    if s.len() == 0 {
        Seq::empty()
    } else {
        entries_vars(s.subrange(0, s.len() - 1)) + expr_vars(s[s.len() - 1].1)
    }
}

pub open spec fn items_vars(s: Seq<SItem>) -> Seq<Seq<char>>
    decreases s.len(),
{
    if s.len() == 0 {
        Seq::empty()
    } else {
        items_vars(s.drop_last()) + expr_vars(s.last().expr)
    }
}

pub open spec fn orders_vars(s: Seq<SOrderItem>) -> Seq<Seq<char>>
    decreases s.len(),
{
    if s.len() == 0 {
        Seq::empty()
    } else {
        orders_vars(s.drop_last()) + expr_vars(s.last().expr)
    }
}

/// One issue per variable of `vs` that `b` does not hold.
pub open spec fn var_issues(vs: Seq<Seq<char>>, b: Set<Seq<char>>) -> Seq<SIssue>
    decreases vs.len(),
{
    if vs.len() == 0 {
        Seq::empty()
    } else if b.contains(vs.last()) {
        var_issues(vs.drop_last(), b)
    } else {
        var_issues(vs.drop_last(), b).push(unbound_issue(vs.last()))
    }
}

// ---- labels and relationship types -------------------------------------------------

/// The verdict on the `i`-th name checked; approval when there is none.
pub open spec fn verdict(v: Seq<bool>, i: nat) -> bool {
    if i < v.len() {
        v[i as int]
    } else {
        true
    }
}

/// Issues for the labels `ls`, the first of which is label number `li` of
/// the query.
pub open spec fn label_issues(ls: Seq<Seq<char>>, lv: Seq<bool>, li: nat) -> Seq<SIssue>
    decreases ls.len(),
{
    if ls.len() == 0 {
        Seq::empty()
    } else if verdict(lv, (li + ls.len() - 1) as nat) {
        label_issues(ls.drop_last(), lv, li)
    } else {
        label_issues(ls.drop_last(), lv, li).push(label_issue(ls.last()))
    }
}

/// Issues for the relationship types `ts`, the first of which is type
/// number `ri` of the query.
pub open spec fn type_issues(ts: Seq<Seq<char>>, rv: Seq<bool>, ri: nat) -> Seq<SIssue>
    decreases ts.len(),
{
    if ts.len() == 0 {
        Seq::empty()
    } else if verdict(rv, (ri + ts.len() - 1) as nat) {
        type_issues(ts.drop_last(), rv, ri)
    } else {
        type_issues(ts.drop_last(), rv, ri).push(rel_issue(ts.last()))
    }
}

pub open spec fn chain_labels(ch: Seq<SChain>) -> nat
    decreases ch.len(),
{
    if ch.len() == 0 {
        0
    } else {
        chain_labels(ch.drop_last()) + ch.last().node.labels.len()
    }
}

pub open spec fn chain_types(ch: Seq<SChain>) -> nat
    decreases ch.len(),
{
    if ch.len() == 0 {
        0
    } else {
        chain_types(ch.drop_last()) + ch.last().rel.types.len()
    }
}

pub open spec fn chain_issues(ch: Seq<SChain>, lv: Seq<bool>, rv: Seq<bool>, li: nat, ri: nat) -> Seq<
    SIssue,
>
    decreases ch.len(),
{
    if ch.len() == 0 {
        Seq::empty()
    } else {
        let pre = ch.drop_last();
        chain_issues(pre, lv, rv, li, ri) + type_issues(ch.last().rel.types, rv, ri + chain_types(pre))
            + label_issues(ch.last().node.labels, lv, li + chain_labels(pre))
    }
}

pub open spec fn pattern_labels(p: SPattern) -> nat {
    p.anchor.labels.len() + chain_labels(p.chain)
}

pub open spec fn pattern_issues(p: SPattern, lv: Seq<bool>, rv: Seq<bool>, li: nat, ri: nat) -> Seq<
    SIssue,
> {
    label_issues(p.anchor.labels, lv, li) + chain_issues(
        p.chain,
        lv,
        rv,
        li + p.anchor.labels.len(),
        ri,
    )
}

pub open spec fn patterns_labels(ps: Seq<SPattern>) -> nat
    decreases ps.len(),
{
    if ps.len() == 0 {
        0
    } else {
        patterns_labels(ps.drop_last()) + pattern_labels(ps.last())
    }
}

pub open spec fn patterns_types(ps: Seq<SPattern>) -> nat
    decreases ps.len(),
{
    if ps.len() == 0 {
        0
    } else {
        patterns_types(ps.drop_last()) + chain_types(ps.last().chain)
    }
}

pub open spec fn patterns_issues(ps: Seq<SPattern>, lv: Seq<bool>, rv: Seq<bool>, li: nat, ri: nat) -> Seq<
    SIssue,
>
    decreases ps.len(),
{
    if ps.len() == 0 {
        Seq::empty()
    } else {
        let pre = ps.drop_last();
        patterns_issues(pre, lv, rv, li, ri) + pattern_issues(
            ps.last(),
            lv,
            rv,
            li + patterns_labels(pre),
            ri + patterns_types(pre),
        )
    }
}

/// The labels of the node patterns of `ch`, in the order of the text.
pub open spec fn chain_label_names(ch: Seq<SChain>) -> Seq<Seq<char>>
    decreases ch.len(),
{
    if ch.len() == 0 {
        Seq::empty()
    } else {
        chain_label_names(ch.drop_last()) + ch.last().node.labels
    }
}

/// The relationship types of `ch`, in the order of the text.
pub open spec fn chain_type_names(ch: Seq<SChain>) -> Seq<Seq<char>>
    decreases ch.len(),
{
    if ch.len() == 0 {
        Seq::empty()
    } else {
        chain_type_names(ch.drop_last()) + ch.last().rel.types
    }
}

pub open spec fn pattern_label_names(p: SPattern) -> Seq<Seq<char>> {
    p.anchor.labels + chain_label_names(p.chain)
}

pub open spec fn patterns_label_names(ps: Seq<SPattern>) -> Seq<Seq<char>>
    decreases ps.len(),
{
    if ps.len() == 0 {
        Seq::empty()
    } else {
        patterns_label_names(ps.drop_last()) + pattern_label_names(ps.last())
    }
}

pub open spec fn patterns_type_names(ps: Seq<SPattern>) -> Seq<Seq<char>>
    decreases ps.len(),
{
    if ps.len() == 0 {
        Seq::empty()
    } else {
        patterns_type_names(ps.drop_last()) + chain_type_names(ps.last().chain)
    }
}

/// The labels of the `MATCH` patterns of `cs`, in the order of the text.
pub open spec fn query_label_names(cs: Seq<SClause>) -> Seq<Seq<char>>
    decreases cs.len(),
{
    if cs.len() == 0 {
        Seq::empty()
    } else {
        query_label_names(cs.drop_last()) + match cs.last() {
            SClause::Match(m) => patterns_label_names(m.patterns),
            _ => Seq::empty(),
        }
    }
}

/// The relationship types of the `MATCH` patterns of `cs`, in the order of
/// the text.
pub open spec fn query_type_names(cs: Seq<SClause>) -> Seq<Seq<char>>
    decreases cs.len(),
{
    if cs.len() == 0 {
        Seq::empty()
    } else {
        query_type_names(cs.drop_last()) + match cs.last() {
            SClause::Match(m) => patterns_type_names(m.patterns),
            _ => Seq::empty(),
        }
    }
}

/// `v` holds one verdict per label of `ls`, and each label that `schema`
/// promises to approve has an approving verdict.
pub open spec fn respects_labels<S: Schema + ?Sized>(schema: &S, v: Seq<bool>, ls: Seq<Seq<char>>) -> bool {
    &&& v.len() == ls.len()
    &&& forall|k: int| 0 <= k < v.len() && #[trigger] schema.approves_label(ls[k]) ==> v[k]
}

/// `v` holds one verdict per relationship type of `ts`, and each type that
/// `schema` promises to approve has an approving verdict.
pub open spec fn respects_types<S: Schema + ?Sized>(schema: &S, v: Seq<bool>, ts: Seq<Seq<char>>) -> bool {
    &&& v.len() == ts.len()
    &&& forall|k: int| 0 <= k < v.len() && #[trigger] schema.approves_rel_type(ts[k]) ==> v[k]
}

proof fn lemma_respects_append<S: Schema + ?Sized>(
    schema: &S,
    v: Seq<bool>,
    ls: Seq<Seq<char>>,
    w: Seq<bool>,
    ms: Seq<Seq<char>>,
)
    ensures
        respects_labels(schema, v, ls) && respects_labels(schema, w, ms) ==> respects_labels(
            schema,
            v + w,
            ls + ms,
        ),
        respects_types(schema, v, ls) && respects_types(schema, w, ms) ==> respects_types(
            schema,
            v + w,
            ls + ms,
        ),
{
    if respects_labels(schema, v, ls) && respects_labels(schema, w, ms) {
        assert forall|k: int|
            0 <= k < (v + w).len() && #[trigger] schema.approves_label((ls + ms)[k]) implies (v + w)[k] by {
            if k < v.len() {
                assert((ls + ms)[k] == ls[k]);
            } else {
                assert((ls + ms)[k] == ms[k - v.len()]);
            }
        }
    }
    if respects_types(schema, v, ls) && respects_types(schema, w, ms) {
        assert forall|k: int|
            0 <= k < (v + w).len() && #[trigger] schema.approves_rel_type((ls + ms)[k]) implies (v
                + w)[k] by {
            if k < v.len() {
                assert((ls + ms)[k] == ls[k]);
            } else {
                assert((ls + ms)[k] == ms[k - v.len()]);
            }
        }
    }
}

proof fn lemma_chain_name_counts(ch: Seq<SChain>)
    ensures
        chain_label_names(ch).len() == chain_labels(ch),
        chain_type_names(ch).len() == chain_types(ch),
    decreases ch.len(),
{
    if ch.len() > 0 {
        lemma_chain_name_counts(ch.drop_last());
    }
}

proof fn lemma_patterns_name_counts(ps: Seq<SPattern>)
    ensures
        patterns_label_names(ps).len() == patterns_labels(ps),
        patterns_type_names(ps).len() == patterns_types(ps),
    decreases ps.len(),
{
    if ps.len() > 0 {
        lemma_patterns_name_counts(ps.drop_last());
        lemma_chain_name_counts(ps.last().chain);
    }
}

/// The names of the query are as many as it has labels and types.
proof fn lemma_query_name_counts(cs: Seq<SClause>)
    ensures
        query_label_names(cs).len() == query_labels(cs),
        query_type_names(cs).len() == query_types(cs),
    decreases cs.len(),
{
    if cs.len() > 0 {
        lemma_query_name_counts(cs.drop_last());
        if let SClause::Match(m) = cs.last() {
            lemma_patterns_name_counts(m.patterns);
        }
    }
}

// ---- clauses -------------------------------------------------------------------------

pub open spec fn clause_labels(c: SClause) -> nat {
    match c {
        SClause::Match(m) => patterns_labels(m.patterns),
        _ => 0,
    }
}

pub open spec fn clause_types(c: SClause) -> nat {
    match c {
        SClause::Match(m) => patterns_types(m.patterns),
        _ => 0,
    }
}

/// The issues of one clause; its first label and type are numbers `li` and
/// `ri` of the query.
pub open spec fn clause_issues(
    c: SClause,
    b: Set<Seq<char>>,
    lv: Seq<bool>,
    rv: Seq<bool>,
    li: nat,
    ri: nat,
) -> Seq<SIssue> {
    match c {
        SClause::Match(m) => patterns_issues(m.patterns, lv, rv, li, ri),
        SClause::Where(e) => var_issues(expr_vars(e), b),
        SClause::With(p) => var_issues(items_vars(p.items), b),
        SClause::Return(p) => var_issues(items_vars(p.items), b),
        SClause::OrderBy(items) => var_issues(orders_vars(items), b),
        SClause::Skip(e) => var_issues(expr_vars(e), b),
        SClause::Limit(e) => var_issues(expr_vars(e), b),
        SClause::Unwind(e, _) => var_issues(expr_vars(e), b),
        SClause::Delete(_, es) => var_issues(list_vars(es), b),
    }
}

pub open spec fn query_labels(cs: Seq<SClause>) -> nat
    decreases cs.len(),
{
    if cs.len() == 0 {
        0
    } else {
        query_labels(cs.drop_last()) + clause_labels(cs.last())
    }
}

pub open spec fn query_types(cs: Seq<SClause>) -> nat
    decreases cs.len(),
{
    if cs.len() == 0 {
        0
    } else {
        query_types(cs.drop_last()) + clause_types(cs.last())
    }
}

pub open spec fn query_issues(cs: Seq<SClause>, b: Set<Seq<char>>, lv: Seq<bool>, rv: Seq<bool>) -> Seq<
    SIssue,
>
    decreases cs.len(),
{
    if cs.len() == 0 {
        Seq::empty()
    } else {
        let pre = cs.drop_last();
        query_issues(pre, b, lv, rv) + clause_issues(
            cs.last(),
            b,
            lv,
            rv,
            query_labels(pre),
            query_types(pre),
        )
    }
}

/// The report on `q`, where the `k`-th label of the query is approved when
/// `lv` says so (or has no `k`-th entry), and likewise the relationship
/// types with `rv`.
pub open spec fn spec_analysis(q: SQuery, lv: Seq<bool>, rv: Seq<bool>) -> SReport {
    let b = query_binds(q.clauses).to_set();
    SReport { bindings: b, issues: query_issues(q.clauses, b, lv, rv) }
}

/// The issues of severity `Error`, in order.
pub open spec fn errors_of(s: Seq<SIssue>) -> Seq<SIssue>
    decreases s.len(),
{
    if s.len() == 0 {
        Seq::empty()
    } else if s.last().severity == SemSeverity::Error {
        errors_of(s.drop_last()).push(s.last())
    } else {
        errors_of(s.drop_last())
    }
}

// ---- lemmas ----------------------------------------------------------------------------

proof fn lemma_var_issues_append(a: Seq<Seq<char>>, c: Seq<Seq<char>>, b: Set<Seq<char>>)
    ensures
        var_issues(a + c, b) == var_issues(a, b) + var_issues(c, b),
    decreases c.len(),
{
    if c.len() == 0 {
        assert(a + c =~= a);
        assert(var_issues(a, b) + Seq::<SIssue>::empty() =~= var_issues(a, b));
    } else {
        assert((a + c).drop_last() =~= a + c.drop_last());
        assert((a + c).last() == c.last());
        lemma_var_issues_append(a, c.drop_last(), b);
        if b.contains(c.last()) {
        } else {
            assert((var_issues(a, b) + var_issues(c.drop_last(), b)).push(unbound_issue(c.last()))
                =~= var_issues(a, b) + var_issues(c.drop_last(), b).push(unbound_issue(c.last())));
        }
    }
}

// ---- laws -----------------------------------------------------------------------------------

/// Every verdict of `v` approves.
pub open spec fn approving(v: Seq<bool>) -> bool {
    forall|i: int| 0 <= i < v.len() ==> #[trigger] v[i]
}

/// Every issue of `s` is an unbound variable.
pub open spec fn only_unbound(s: Seq<SIssue>) -> bool {
    forall|i: int| 0 <= i < s.len() ==> #[trigger] s[i].code == "unbound-variable"@
}

proof fn lemma_only_unbound_append(a: Seq<SIssue>, c: Seq<SIssue>)
    requires
        only_unbound(a),
        only_unbound(c),
    ensures
        only_unbound(a + c),
{
    assert forall|i: int| 0 <= i < (a + c).len() implies #[trigger] (a + c)[i].code
        == "unbound-variable"@ by {
        if i < a.len() {
            assert((a + c)[i] == a[i]);
        } else {
            assert((a + c)[i] == c[i - a.len()]);
        }
    }
}

proof fn lemma_var_issues_unbound(vs: Seq<Seq<char>>, b: Set<Seq<char>>)
    ensures
        only_unbound(var_issues(vs, b)),
    decreases vs.len(),
{
    if vs.len() > 0 {
        lemma_var_issues_unbound(vs.drop_last(), b);
    }
}

proof fn lemma_labels_approved(ls: Seq<Seq<char>>, lv: Seq<bool>, li: nat)
    requires
        approving(lv),
    ensures
        label_issues(ls, lv, li) == Seq::<SIssue>::empty(),
    decreases ls.len(),
{
    if ls.len() > 0 {
        lemma_labels_approved(ls.drop_last(), lv, li);
        let i = (li + ls.len() - 1) as nat;
        if i < lv.len() {
            assert(lv[i as int]);
        }
    }
}

proof fn lemma_types_approved(ts: Seq<Seq<char>>, rv: Seq<bool>, ri: nat)
    requires
        approving(rv),
    ensures
        type_issues(ts, rv, ri) == Seq::<SIssue>::empty(),
    decreases ts.len(),
{
    if ts.len() > 0 {
        lemma_types_approved(ts.drop_last(), rv, ri);
        let i = (ri + ts.len() - 1) as nat;
        if i < rv.len() {
            assert(rv[i as int]);
        }
    }
}

proof fn lemma_chain_approved(ch: Seq<SChain>, lv: Seq<bool>, rv: Seq<bool>, li: nat, ri: nat)
    requires
        approving(lv),
        approving(rv),
    ensures
        chain_issues(ch, lv, rv, li, ri) == Seq::<SIssue>::empty(),
    decreases ch.len(),
{
    if ch.len() > 0 {
        let pre = ch.drop_last();
        lemma_chain_approved(pre, lv, rv, li, ri);
        lemma_types_approved(ch.last().rel.types, rv, ri + chain_types(pre));
        lemma_labels_approved(ch.last().node.labels, lv, li + chain_labels(pre));
        assert(Seq::<SIssue>::empty() + Seq::<SIssue>::empty() + Seq::<SIssue>::empty() =~= Seq::<
            SIssue,
        >::empty());
    }
}

proof fn lemma_patterns_approved(ps: Seq<SPattern>, lv: Seq<bool>, rv: Seq<bool>, li: nat, ri: nat)
    requires
        approving(lv),
        approving(rv),
    ensures
        patterns_issues(ps, lv, rv, li, ri) == Seq::<SIssue>::empty(),
    decreases ps.len(),
{
    if ps.len() > 0 {
        let pre = ps.drop_last();
        let p = ps.last();
        let l = li + patterns_labels(pre);
        lemma_patterns_approved(pre, lv, rv, li, ri);
        lemma_labels_approved(p.anchor.labels, lv, l);
        lemma_chain_approved(p.chain, lv, rv, l + p.anchor.labels.len(), ri + patterns_types(pre));
        assert(Seq::<SIssue>::empty() + (Seq::<SIssue>::empty() + Seq::<SIssue>::empty()) =~= Seq::<
            SIssue,
        >::empty());
    }
}

proof fn lemma_query_only_unbound(cs: Seq<SClause>, b: Set<Seq<char>>)
    ensures
        only_unbound(query_issues(cs, b, Seq::empty(), Seq::empty())),
    decreases cs.len(),
{
    if cs.len() > 0 {
        let pre = cs.drop_last();
        lemma_query_only_unbound(pre, b);
        let c = cs.last();
        match c {
            SClause::Match(m) => lemma_patterns_approved(
                m.patterns,
                Seq::empty(),
                Seq::empty(),
                query_labels(pre),
                query_types(pre),
            ),
            SClause::Where(e) => lemma_var_issues_unbound(expr_vars(e), b),
            SClause::With(p) => lemma_var_issues_unbound(items_vars(p.items), b),
            SClause::Return(p) => lemma_var_issues_unbound(items_vars(p.items), b),
            SClause::OrderBy(items) => lemma_var_issues_unbound(orders_vars(items), b),
            SClause::Skip(e) => lemma_var_issues_unbound(expr_vars(e), b),
            SClause::Limit(e) => lemma_var_issues_unbound(expr_vars(e), b),
            SClause::Unwind(e, _) => lemma_var_issues_unbound(expr_vars(e), b),
            SClause::Delete(_, es) => lemma_var_issues_unbound(list_vars(es), b),
        }
        lemma_only_unbound_append(
            query_issues(pre, b, Seq::empty(), Seq::empty()),
            clause_issues(c, b, Seq::empty(), Seq::empty(), query_labels(pre), query_types(pre)),
        );
    }
}

/// Without a schema the analyzer is silent on labels and relationship
/// types: every issue that [`analyze`] reports is an unbound variable.
pub proof fn lemma_analyze_checks_only_variables(q: SQuery)
    ensures
        only_unbound(spec_analysis(q, Seq::empty(), Seq::empty()).issues),
{
    lemma_query_only_unbound(q.clauses, query_binds(q.clauses).to_set());
}

proof fn lemma_query_issues_approving(cs: Seq<SClause>, b: Set<Seq<char>>, lv: Seq<bool>, rv: Seq<bool>)
    requires
        approving(lv),
        approving(rv),
    ensures
        query_issues(cs, b, lv, rv) == query_issues(cs, b, Seq::empty(), Seq::empty()),
    decreases cs.len(),
{
    if cs.len() > 0 {
        let pre = cs.drop_last();
        lemma_query_issues_approving(pre, b, lv, rv);
        if let SClause::Match(m) = cs.last() {
            lemma_patterns_approved(m.patterns, lv, rv, query_labels(pre), query_types(pre));
            lemma_patterns_approved(
                m.patterns,
                Seq::empty(),
                Seq::empty(),
                query_labels(pre),
                query_types(pre),
            );
        }
    }
}

/// Verdicts that approve every label and relationship type give the same
/// report as no verdicts at all, which is the report of [`analyze`]: a schema
/// that knows every name changes nothing.
pub proof fn lemma_approving_verdicts_change_nothing(q: SQuery, lv: Seq<bool>, rv: Seq<bool>)
    requires
        approving(lv),
        approving(rv),
    ensures
        spec_analysis(q, lv, rv) == spec_analysis(q, Seq::empty(), Seq::empty()),
{
    lemma_query_issues_approving(q.clauses, query_binds(q.clauses).to_set(), lv, rv);
}

// ---- refused names and their issues ----------------------------------------------------

/// The issues of `s` with the given code, in order.
pub open spec fn with_code(s: Seq<SIssue>, code: Seq<char>) -> Seq<SIssue>
    decreases s.len(),
{
    if s.len() == 0 {
        Seq::empty()
    } else if s.last().code == code {
        with_code(s.drop_last(), code).push(s.last())
    } else {
        with_code(s.drop_last(), code)
    }
}

/// The names of `ns`, in order, whose verdict in `v` refuses them; the
/// first name has verdict number `i`.
pub open spec fn refused(ns: Seq<Seq<char>>, v: Seq<bool>, i: nat) -> Seq<Seq<char>>
    decreases ns.len(),
{
    if ns.len() == 0 {
        Seq::empty()
    } else if verdict(v, (i + ns.len() - 1) as nat) {
        refused(ns.drop_last(), v, i)
    } else {
        refused(ns.drop_last(), v, i).push(ns.last())
    }
}

pub open spec fn label_issues_of(ns: Seq<Seq<char>>) -> Seq<SIssue> {
    ns.map_values(|l: Seq<char>| label_issue(l))
}

pub open spec fn rel_issues_of(ns: Seq<Seq<char>>) -> Seq<SIssue> {
    ns.map_values(|t: Seq<char>| rel_issue(t))
}

proof fn lemma_with_code_append(a: Seq<SIssue>, b: Seq<SIssue>, code: Seq<char>)
    ensures
        with_code(a + b, code) == with_code(a, code) + with_code(b, code),
    decreases b.len(),
{
    if b.len() == 0 {
        assert(a + b =~= a);
        assert(with_code(a, code) + with_code(b, code) =~= with_code(a, code));
    } else {
        lemma_with_code_append(a, b.drop_last(), code);
        assert((a + b).drop_last() =~= a + b.drop_last());
        assert((a + b).last() == b.last());
        if b.last().code == code {
            assert(with_code(a, code) + with_code(b.drop_last(), code).push(b.last()) =~= (with_code(
                a,
                code,
            ) + with_code(b.drop_last(), code)).push(b.last()));
        }
    }
}

proof fn lemma_refused_append(a: Seq<Seq<char>>, b: Seq<Seq<char>>, v: Seq<bool>, i: nat)
    ensures
        refused(a + b, v, i) == refused(a, v, i) + refused(b, v, i + a.len()),
    decreases b.len(),
{
    if b.len() == 0 {
        assert(a + b =~= a);
        assert(refused(a, v, i) + refused(b, v, i + a.len()) =~= refused(a, v, i));
    } else {
        lemma_refused_append(a, b.drop_last(), v, i);
        assert((a + b).drop_last() =~= a + b.drop_last());
        assert((a + b).last() == b.last());
        assert(i + (a + b).len() - 1 == i + a.len() + b.len() - 1);
        if !verdict(v, (i + a.len() + b.len() - 1) as nat) {
            assert(refused(a, v, i) + refused(b.drop_last(), v, i + a.len()).push(b.last()) =~= (
            refused(a, v, i) + refused(b.drop_last(), v, i + a.len())).push(b.last()));
        }
    }
}

proof fn lemma_issues_of_append(a: Seq<Seq<char>>, b: Seq<Seq<char>>)
    ensures
        label_issues_of(a + b) == label_issues_of(a) + label_issues_of(b),
        rel_issues_of(a + b) == rel_issues_of(a) + rel_issues_of(b),
{
    assert(label_issues_of(a + b) =~= label_issues_of(a) + label_issues_of(b));
    assert(rel_issues_of(a + b) =~= rel_issues_of(a) + rel_issues_of(b));
}

proof fn lemma_codes_differ()
    ensures
        "unknown-label"@ != "unknown-rel-type"@,
        "unknown-label"@ != "unbound-variable"@,
        "unknown-rel-type"@ != "unbound-variable"@,
{
    reveal_strlit("unknown-label");
    reveal_strlit("unknown-rel-type");
    reveal_strlit("unbound-variable");
    assert("unknown-label"@[4] != "unknown-rel-type"@[4] || "unknown-label"@.len()
        != "unknown-rel-type"@.len());
    assert("unknown-label"@[2] != "unbound-variable"@[2]);
    assert("unknown-rel-type"@[2] != "unbound-variable"@[2]);
}

proof fn lemma_label_issues_codes(ls: Seq<Seq<char>>, lv: Seq<bool>, li: nat)
    ensures
        with_code(label_issues(ls, lv, li), "unknown-label"@) == label_issues_of(refused(ls, lv, li)),
        with_code(label_issues(ls, lv, li), "unknown-rel-type"@) == Seq::<SIssue>::empty(),
    decreases ls.len(),
{
    lemma_codes_differ();
    if ls.len() > 0 {
        lemma_label_issues_codes(ls.drop_last(), lv, li);
        let r = refused(ls.drop_last(), lv, li);
        let x = label_issues(ls.drop_last(), lv, li);
        let e = label_issue(ls.last());
        assert(x.push(e).drop_last() =~= x);
        assert(x.push(e).last() == e);
        assert(label_issues_of(r.push(ls.last())) =~= label_issues_of(r).push(e));
    } else {
        assert(label_issues_of(refused(ls, lv, li)) =~= Seq::<SIssue>::empty());
    }
}

proof fn lemma_type_issues_codes(ts: Seq<Seq<char>>, rv: Seq<bool>, ri: nat)
    ensures
        with_code(type_issues(ts, rv, ri), "unknown-rel-type"@) == rel_issues_of(refused(ts, rv, ri)),
        with_code(type_issues(ts, rv, ri), "unknown-label"@) == Seq::<SIssue>::empty(),
    decreases ts.len(),
{
    lemma_codes_differ();
    if ts.len() > 0 {
        lemma_type_issues_codes(ts.drop_last(), rv, ri);
        let r = refused(ts.drop_last(), rv, ri);
        let x = type_issues(ts.drop_last(), rv, ri);
        let e = rel_issue(ts.last());
        assert(x.push(e).drop_last() =~= x);
        assert(x.push(e).last() == e);
        assert(rel_issues_of(r.push(ts.last())) =~= rel_issues_of(r).push(e));
    } else {
        assert(rel_issues_of(refused(ts, rv, ri)) =~= Seq::<SIssue>::empty());
    }
}

proof fn lemma_var_issues_codes(vs: Seq<Seq<char>>, b: Set<Seq<char>>)
    ensures
        with_code(var_issues(vs, b), "unknown-label"@) == Seq::<SIssue>::empty(),
        with_code(var_issues(vs, b), "unknown-rel-type"@) == Seq::<SIssue>::empty(),
    decreases vs.len(),
{
    lemma_codes_differ();
    if vs.len() > 0 {
        lemma_var_issues_codes(vs.drop_last(), b);
        let x = var_issues(vs.drop_last(), b);
        let e = unbound_issue(vs.last());
        assert(x.push(e).drop_last() =~= x);
        assert(x.push(e).last() == e);
    }
}

proof fn lemma_chain_issues_codes(ch: Seq<SChain>, lv: Seq<bool>, rv: Seq<bool>, li: nat, ri: nat)
    ensures
        with_code(chain_issues(ch, lv, rv, li, ri), "unknown-label"@) == label_issues_of(
            refused(chain_label_names(ch), lv, li),
        ),
        with_code(chain_issues(ch, lv, rv, li, ri), "unknown-rel-type"@) == rel_issues_of(
            refused(chain_type_names(ch), rv, ri),
        ),
    decreases ch.len(),
{
    let l = "unknown-label"@;
    let t = "unknown-rel-type"@;
    if ch.len() == 0 {
        assert(label_issues_of(refused(chain_label_names(ch), lv, li)) =~= Seq::<SIssue>::empty());
        assert(rel_issues_of(refused(chain_type_names(ch), rv, ri)) =~= Seq::<SIssue>::empty());
    } else {
        let pre = ch.drop_last();
        let c = ch.last();
        lemma_chain_issues_codes(pre, lv, rv, li, ri);
        lemma_chain_name_counts(pre);
        let x = chain_issues(pre, lv, rv, li, ri);
        let y = type_issues(c.rel.types, rv, ri + chain_types(pre));
        let z = label_issues(c.node.labels, lv, li + chain_labels(pre));
        lemma_type_issues_codes(c.rel.types, rv, ri + chain_types(pre));
        lemma_label_issues_codes(c.node.labels, lv, li + chain_labels(pre));
        lemma_with_code_append(x + y, z, l);
        lemma_with_code_append(x, y, l);
        lemma_with_code_append(x + y, z, t);
        lemma_with_code_append(x, y, t);
        lemma_refused_append(chain_label_names(pre), c.node.labels, lv, li);
        lemma_refused_append(chain_type_names(pre), c.rel.types, rv, ri);
        lemma_issues_of_append(
            refused(chain_label_names(pre), lv, li),
            refused(c.node.labels, lv, li + chain_labels(pre)),
        );
        lemma_issues_of_append(
            refused(chain_type_names(pre), rv, ri),
            refused(c.rel.types, rv, ri + chain_types(pre)),
        );
        assert(with_code(x, l) + Seq::<SIssue>::empty() =~= with_code(x, l));
        assert(with_code(x, t) + with_code(y, t) + Seq::<SIssue>::empty() =~= with_code(x, t)
            + with_code(y, t));
    }
}

proof fn lemma_pattern_issues_codes(p: SPattern, lv: Seq<bool>, rv: Seq<bool>, li: nat, ri: nat)
    ensures
        with_code(pattern_issues(p, lv, rv, li, ri), "unknown-label"@) == label_issues_of(
            refused(pattern_label_names(p), lv, li),
        ),
        with_code(pattern_issues(p, lv, rv, li, ri), "unknown-rel-type"@) == rel_issues_of(
            refused(chain_type_names(p.chain), rv, ri),
        ),
{
    let l = "unknown-label"@;
    let t = "unknown-rel-type"@;
    let a = label_issues(p.anchor.labels, lv, li);
    let c = chain_issues(p.chain, lv, rv, li + p.anchor.labels.len(), ri);
    lemma_label_issues_codes(p.anchor.labels, lv, li);
    lemma_chain_issues_codes(p.chain, lv, rv, li + p.anchor.labels.len(), ri);
    lemma_with_code_append(a, c, l);
    lemma_with_code_append(a, c, t);
    lemma_refused_append(p.anchor.labels, chain_label_names(p.chain), lv, li);
    lemma_issues_of_append(
        refused(p.anchor.labels, lv, li),
        refused(chain_label_names(p.chain), lv, li + p.anchor.labels.len()),
    );
    assert(Seq::<SIssue>::empty() + with_code(c, t) =~= with_code(c, t));
}

proof fn lemma_patterns_issues_codes(ps: Seq<SPattern>, lv: Seq<bool>, rv: Seq<bool>, li: nat, ri: nat)
    ensures
        with_code(patterns_issues(ps, lv, rv, li, ri), "unknown-label"@) == label_issues_of(
            refused(patterns_label_names(ps), lv, li),
        ),
        with_code(patterns_issues(ps, lv, rv, li, ri), "unknown-rel-type"@) == rel_issues_of(
            refused(patterns_type_names(ps), rv, ri),
        ),
    decreases ps.len(),
{
    let l = "unknown-label"@;
    let t = "unknown-rel-type"@;
    if ps.len() == 0 {
        assert(label_issues_of(refused(patterns_label_names(ps), lv, li)) =~= Seq::<SIssue>::empty());
        assert(rel_issues_of(refused(patterns_type_names(ps), rv, ri)) =~= Seq::<SIssue>::empty());
    } else {
        let pre = ps.drop_last();
        let p = ps.last();
        lemma_patterns_issues_codes(pre, lv, rv, li, ri);
        lemma_patterns_name_counts(pre);
        let x = patterns_issues(pre, lv, rv, li, ri);
        let y = pattern_issues(p, lv, rv, li + patterns_labels(pre), ri + patterns_types(pre));
        lemma_pattern_issues_codes(p, lv, rv, li + patterns_labels(pre), ri + patterns_types(pre));
        lemma_with_code_append(x, y, l);
        lemma_with_code_append(x, y, t);
        lemma_refused_append(patterns_label_names(pre), pattern_label_names(p), lv, li);
        lemma_refused_append(patterns_type_names(pre), chain_type_names(p.chain), rv, ri);
        lemma_issues_of_append(
            refused(patterns_label_names(pre), lv, li),
            refused(pattern_label_names(p), lv, li + patterns_labels(pre)),
        );
        lemma_issues_of_append(
            refused(patterns_type_names(pre), rv, ri),
            refused(chain_type_names(p.chain), rv, ri + patterns_types(pre)),
        );
    }
}

proof fn lemma_query_issues_codes(cs: Seq<SClause>, b: Set<Seq<char>>, lv: Seq<bool>, rv: Seq<bool>)
    ensures
        with_code(query_issues(cs, b, lv, rv), "unknown-label"@) == label_issues_of(
            refused(query_label_names(cs), lv, 0),
        ),
        with_code(query_issues(cs, b, lv, rv), "unknown-rel-type"@) == rel_issues_of(
            refused(query_type_names(cs), rv, 0),
        ),
    decreases cs.len(),
{
    let l = "unknown-label"@;
    let t = "unknown-rel-type"@;
    if cs.len() == 0 {
        assert(label_issues_of(refused(query_label_names(cs), lv, 0)) =~= Seq::<SIssue>::empty());
        assert(rel_issues_of(refused(query_type_names(cs), rv, 0)) =~= Seq::<SIssue>::empty());
    } else {
        let pre = cs.drop_last();
        let c = cs.last();
        lemma_query_issues_codes(pre, b, lv, rv);
        lemma_query_name_counts(pre);
        let x = query_issues(pre, b, lv, rv);
        let y = clause_issues(c, b, lv, rv, query_labels(pre), query_types(pre));
        lemma_with_code_append(x, y, l);
        lemma_with_code_append(x, y, t);
        let (ln, tn): (Seq<Seq<char>>, Seq<Seq<char>>) = match c {
            SClause::Match(m) => (patterns_label_names(m.patterns), patterns_type_names(m.patterns)),
            _ => (Seq::empty(), Seq::empty()),
        };
        assert(query_label_names(cs) == query_label_names(pre) + ln);
        assert(query_type_names(cs) == query_type_names(pre) + tn);
        match c {
            SClause::Match(m) => lemma_patterns_issues_codes(
                m.patterns,
                lv,
                rv,
                query_labels(pre),
                query_types(pre),
            ),
            SClause::Where(e) => lemma_var_issues_codes(expr_vars(e), b),
            SClause::With(p) => lemma_var_issues_codes(items_vars(p.items), b),
            SClause::Return(p) => lemma_var_issues_codes(items_vars(p.items), b),
            SClause::OrderBy(items) => lemma_var_issues_codes(orders_vars(items), b),
            SClause::Skip(e) => lemma_var_issues_codes(expr_vars(e), b),
            SClause::Limit(e) => lemma_var_issues_codes(expr_vars(e), b),
            SClause::Unwind(e, _) => lemma_var_issues_codes(expr_vars(e), b),
            SClause::Delete(_, es) => lemma_var_issues_codes(list_vars(es), b),
        }
        lemma_refused_append(query_label_names(pre), ln, lv, 0);
        lemma_refused_append(query_type_names(pre), tn, rv, 0);
        lemma_issues_of_append(refused(query_label_names(pre), lv, 0), refused(ln, lv, query_labels(pre)));
        lemma_issues_of_append(refused(query_type_names(pre), rv, 0), refused(tn, rv, query_types(pre)));
        if !(c is Match) {
            assert(label_issues_of(refused(ln, lv, query_labels(pre))) =~= Seq::<SIssue>::empty());
            assert(rel_issues_of(refused(tn, rv, query_types(pre))) =~= Seq::<SIssue>::empty());
            assert(with_code(x, l) + Seq::<SIssue>::empty() =~= with_code(x, l));
            assert(with_code(x, t) + Seq::<SIssue>::empty() =~= with_code(x, t));
        }
    }
}

/// The unknown-label issues of a report are one per label of the query
/// whose verdict refuses it, in the order of the text, and likewise the
/// unknown-relationship-type issues.
pub proof fn lemma_refusals_are_reported(q: SQuery, lv: Seq<bool>, rv: Seq<bool>)
    ensures
        with_code(spec_analysis(q, lv, rv).issues, "unknown-label"@) == label_issues_of(
            refused(query_label_names(q.clauses), lv, 0),
        ),
        with_code(spec_analysis(q, lv, rv).issues, "unknown-rel-type"@) == rel_issues_of(
            refused(query_type_names(q.clauses), rv, 0),
        ),
{
    lemma_query_issues_codes(q.clauses, query_binds(q.clauses).to_set(), lv, rv);
}

// ---- unbound variables are reported ---------------------------------------------------------

/// The expressions that a clause evaluates (none for `MATCH`).
pub open spec fn clause_exprs(c: SClause) -> Seq<SExpr> {
    match c {
        SClause::Where(e) => seq![e],
        SClause::With(p) => p.items.map_values(|it: SItem| it.expr),
        SClause::Return(p) => p.items.map_values(|it: SItem| it.expr),
        SClause::OrderBy(items) => items.map_values(|o: SOrderItem| o.expr),
        SClause::Skip(e) => seq![e],
        SClause::Limit(e) => seq![e],
        SClause::Unwind(e, _) => seq![e],
        SClause::Delete(_, es) => es,
        SClause::Match(_) => Seq::empty(),
    }
}

proof fn lemma_used_in_expr_vars(e: SExpr, v: Seq<char>)
    requires
        used_vars(e).contains(v),
    ensures
        expr_vars(e).contains(v),
    decreases e,
{
    match e {
        SExpr::Var(x) => {
            assert(expr_vars(e)[0] == x);
        },
        SExpr::Prop(b, _) => lemma_used_in_expr_vars(*b, v),
        SExpr::Bin(_, l, r) => {
            if used_vars(*l).contains(v) {
                lemma_used_in_expr_vars(*l, v);
                let k = choose|k: int| 0 <= k < expr_vars(*l).len() && expr_vars(*l)[k] == v;
                assert((expr_vars(*l) + expr_vars(*r))[k] == v);
            } else {
                lemma_used_in_expr_vars(*r, v);
                let k = choose|k: int| 0 <= k < expr_vars(*r).len() && expr_vars(*r)[k] == v;
                assert((expr_vars(*l) + expr_vars(*r))[expr_vars(*l).len() + k] == v);
            }
        },
        SExpr::Un(_, x) => lemma_used_in_expr_vars(*x, v),
        SExpr::List(items) => lemma_used_in_list_vars(items, v),
        SExpr::MapLit(entries) => lemma_used_in_entries_vars(entries, v),
        _ => {},
    }
}

proof fn lemma_used_in_list_vars(s: Seq<SExpr>, v: Seq<char>)
    requires
        used_vars_list(s).contains(v),
    ensures
        list_vars(s).contains(v),
    decreases s,
{
    if s.len() > 0 {
        let pre = s.subrange(0, s.len() - 1);
        let e = s[s.len() - 1];
        assert(decreases_to!(s => e));
        if used_vars_list(pre).contains(v) {
            lemma_used_in_list_vars(pre, v);
            let k = choose|k: int| 0 <= k < list_vars(pre).len() && list_vars(pre)[k] == v;
            assert((list_vars(pre) + expr_vars(e))[k] == v);
        } else {
            lemma_used_in_expr_vars(e, v);
            let k = choose|k: int| 0 <= k < expr_vars(e).len() && expr_vars(e)[k] == v;
            assert((list_vars(pre) + expr_vars(e))[list_vars(pre).len() + k] == v);
        }
    }
}

proof fn lemma_used_in_entries_vars(s: Seq<(Seq<char>, SExpr)>, v: Seq<char>)
    requires
        used_vars_entries(s).contains(v),
    ensures
        entries_vars(s).contains(v),
    decreases s,
{
    if s.len() > 0 {
        let pre = s.subrange(0, s.len() - 1);
        let e = s[s.len() - 1].1;
        assert(decreases_to!(s => s[s.len() - 1]));
        if used_vars_entries(pre).contains(v) {
            lemma_used_in_entries_vars(pre, v);
            let k = choose|k: int| 0 <= k < entries_vars(pre).len() && entries_vars(pre)[k] == v;
            assert((entries_vars(pre) + expr_vars(e))[k] == v);
        } else {
            lemma_used_in_expr_vars(e, v);
            let k = choose|k: int| 0 <= k < expr_vars(e).len() && expr_vars(e)[k] == v;
            assert((entries_vars(pre) + expr_vars(e))[entries_vars(pre).len() + k] == v);
        }
    }
}

proof fn lemma_items_vars_contain(s: Seq<SItem>, j: int, v: Seq<char>)
    requires
        0 <= j < s.len(),
        expr_vars(s[j].expr).contains(v),
    ensures
        items_vars(s).contains(v),
    decreases s.len(),
{
    let pre = s.drop_last();
    if j < s.len() - 1 {
        lemma_items_vars_contain(pre, j, v);
        let k = choose|k: int| 0 <= k < items_vars(pre).len() && items_vars(pre)[k] == v;
        assert((items_vars(pre) + expr_vars(s.last().expr))[k] == v);
    } else {
        let k = choose|k: int| 0 <= k < expr_vars(s[j].expr).len() && expr_vars(s[j].expr)[k] == v;
        assert((items_vars(pre) + expr_vars(s.last().expr))[items_vars(pre).len() + k] == v);
    }
}

proof fn lemma_orders_vars_contain(s: Seq<SOrderItem>, j: int, v: Seq<char>)
    requires
        0 <= j < s.len(),
        expr_vars(s[j].expr).contains(v),
    ensures
        orders_vars(s).contains(v),
    decreases s.len(),
{
    let pre = s.drop_last();
    if j < s.len() - 1 {
        lemma_orders_vars_contain(pre, j, v);
        let k = choose|k: int| 0 <= k < orders_vars(pre).len() && orders_vars(pre)[k] == v;
        assert((orders_vars(pre) + expr_vars(s.last().expr))[k] == v);
    } else {
        let k = choose|k: int| 0 <= k < expr_vars(s[j].expr).len() && expr_vars(s[j].expr)[k] == v;
        assert((orders_vars(pre) + expr_vars(s.last().expr))[orders_vars(pre).len() + k] == v);
    }
}

proof fn lemma_list_vars_contain(s: Seq<SExpr>, j: int, v: Seq<char>)
    requires
        0 <= j < s.len(),
        expr_vars(s[j]).contains(v),
    ensures
        list_vars(s).contains(v),
    decreases s.len(),
{
    let pre = s.subrange(0, s.len() - 1);
    if j < s.len() - 1 {
        assert(pre[j] == s[j]);
        lemma_list_vars_contain(pre, j, v);
        let k = choose|k: int| 0 <= k < list_vars(pre).len() && list_vars(pre)[k] == v;
        assert((list_vars(pre) + expr_vars(s[s.len() - 1]))[k] == v);
    } else {
        let k = choose|k: int| 0 <= k < expr_vars(s[j]).len() && expr_vars(s[j])[k] == v;
        assert((list_vars(pre) + expr_vars(s[s.len() - 1]))[list_vars(pre).len() + k] == v);
    }
}

proof fn lemma_var_issues_contain(vs: Seq<Seq<char>>, b: Set<Seq<char>>, v: Seq<char>)
    requires
        vs.contains(v),
        !b.contains(v),
    ensures
        var_issues(vs, b).contains(unbound_issue(v)),
    decreases vs.len(),
{
    let pre = vs.drop_last();
    if vs.last() == v {
        let x = var_issues(pre, b);
        assert(x.push(unbound_issue(v))[x.len() as int] == unbound_issue(v));
    } else {
        let k = choose|k: int| 0 <= k < vs.len() && vs[k] == v;
        assert(pre[k] == v);
        lemma_var_issues_contain(pre, b, v);
        let x = var_issues(pre, b);
        let m = choose|m: int| 0 <= m < x.len() && x[m] == unbound_issue(v);
        if !b.contains(vs.last()) {
            assert(x.push(unbound_issue(vs.last()))[m] == unbound_issue(v));
        }
    }
}

proof fn lemma_clause_issue_in_query(
    cs: Seq<SClause>,
    b: Set<Seq<char>>,
    lv: Seq<bool>,
    rv: Seq<bool>,
    k: int,
    x: SIssue,
)
    requires
        0 <= k < cs.len(),
        clause_issues(cs[k], b, lv, rv, query_labels(cs.take(k)), query_types(cs.take(k))).contains(x),
    ensures
        query_issues(cs, b, lv, rv).contains(x),
    decreases cs.len(),
{
    let pre = cs.drop_last();
    let y = query_issues(pre, b, lv, rv);
    let z = clause_issues(cs.last(), b, lv, rv, query_labels(pre), query_types(pre));
    if k == cs.len() - 1 {
        assert(cs.take(k) =~= pre);
        let m = choose|m: int| 0 <= m < z.len() && z[m] == x;
        assert((y + z)[y.len() + m] == x);
    } else {
        assert(pre[k] == cs[k]);
        assert(pre.take(k) =~= cs.take(k));
        lemma_clause_issue_in_query(pre, b, lv, rv, k, x);
        let m = choose|m: int| 0 <= m < y.len() && y[m] == x;
        assert((y + z)[m] == x);
    }
}

/// Every variable that an expression of a clause refers to, and that no
/// clause of the query binds, is reported as unbound, whatever the
/// verdicts on labels and relationship types.
pub proof fn lemma_unbound_variables_reported(
    q: SQuery,
    lv: Seq<bool>,
    rv: Seq<bool>,
    k: int,
    j: int,
    v: Seq<char>,
)
    requires
        0 <= k < q.clauses.len(),
        0 <= j < clause_exprs(q.clauses[k]).len(),
        used_vars(clause_exprs(q.clauses[k])[j]).contains(v),
        !query_binds(q.clauses).contains(v),
    ensures
        spec_analysis(q, lv, rv).issues.contains(unbound_issue(v)),
{
    let cs = q.clauses;
    let b = query_binds(cs).to_set();
    let c = cs[k];
    let e = clause_exprs(c)[j];
    lemma_used_in_expr_vars(e, v);
    let vs: Seq<Seq<char>> = match c {
        SClause::Where(x) => expr_vars(x),
        SClause::With(p) => items_vars(p.items),
        SClause::Return(p) => items_vars(p.items),
        SClause::OrderBy(items) => orders_vars(items),
        SClause::Skip(x) => expr_vars(x),
        SClause::Limit(x) => expr_vars(x),
        SClause::Unwind(x, _) => expr_vars(x),
        SClause::Delete(_, es) => list_vars(es),
        SClause::Match(_) => Seq::empty(),
    };
    match c {
        SClause::With(p) => lemma_items_vars_contain(p.items, j, v),
        SClause::Return(p) => lemma_items_vars_contain(p.items, j, v),
        SClause::OrderBy(items) => lemma_orders_vars_contain(items, j, v),
        SClause::Delete(_, es) => lemma_list_vars_contain(es, j, v),
        _ => {},
    }
    assert(vs.contains(v));
    lemma_var_issues_contain(vs, b, v);
    assert(clause_issues(c, b, lv, rv, query_labels(cs.take(k)), query_types(cs.take(k))) == var_issues(
        vs,
        b,
    ));
    lemma_clause_issue_in_query(cs, b, lv, rv, k, unbound_issue(v));
}

proof fn lemma_unbound_issue_injective(w: Seq<char>, v: Seq<char>)
    requires
        unbound_issue(w) == unbound_issue(v),
    ensures
        w == v,
{
    let p = "unbound variable `"@;
    let q = "` (introduce it in a MATCH pattern, or use $name for a parameter)"@;
    let mw = p + w + q;
    let mv = p + v + q;
    assert(mw.len() == mv.len());
    assert(mw.subrange(p.len() as int, (p.len() + w.len()) as int) =~= w);
    assert(mv.subrange(p.len() as int, (p.len() + v.len()) as int) =~= v);
}

proof fn lemma_not_in_append(a: Seq<SIssue>, c: Seq<SIssue>, x: SIssue)
    requires
        !a.contains(x),
        !c.contains(x),
    ensures
        !(a + c).contains(x),
{
    if (a + c).contains(x) {
        let k = choose|k: int| 0 <= k < (a + c).len() && (a + c)[k] == x;
        if k < a.len() {
            assert(a[k] == x);
        } else {
            assert(c[k - a.len()] == x);
        }
    }
}

proof fn lemma_var_issues_skip_bound(vs: Seq<Seq<char>>, b: Set<Seq<char>>, v: Seq<char>)
    requires
        b.contains(v),
    ensures
        !var_issues(vs, b).contains(unbound_issue(v)),
    decreases vs.len(),
{
    if vs.len() > 0 {
        lemma_var_issues_skip_bound(vs.drop_last(), b, v);
        if !b.contains(vs.last()) {
            if unbound_issue(vs.last()) == unbound_issue(v) {
                lemma_unbound_issue_injective(vs.last(), v);
            }
            lemma_not_in_append(var_issues(vs.drop_last(), b), seq![unbound_issue(vs.last())], unbound_issue(v));
            assert(var_issues(vs, b) =~= var_issues(vs.drop_last(), b) + seq![unbound_issue(vs.last())]);
        }
    }
}

proof fn lemma_label_issues_not_unbound(ls: Seq<Seq<char>>, lv: Seq<bool>, li: nat, v: Seq<char>)
    ensures
        !label_issues(ls, lv, li).contains(unbound_issue(v)),
    decreases ls.len(),
{
    lemma_codes_differ();
    if ls.len() > 0 {
        lemma_label_issues_not_unbound(ls.drop_last(), lv, li, v);
        let x = label_issues(ls.drop_last(), lv, li);
        if !verdict(lv, (li + ls.len() - 1) as nat) {
            assert(label_issue(ls.last()).code != unbound_issue(v).code);
            lemma_not_in_append(x, seq![label_issue(ls.last())], unbound_issue(v));
            assert(label_issues(ls, lv, li) =~= x + seq![label_issue(ls.last())]);
        }
    }
}

proof fn lemma_type_issues_not_unbound(ts: Seq<Seq<char>>, rv: Seq<bool>, ri: nat, v: Seq<char>)
    ensures
        !type_issues(ts, rv, ri).contains(unbound_issue(v)),
    decreases ts.len(),
{
    lemma_codes_differ();
    if ts.len() > 0 {
        lemma_type_issues_not_unbound(ts.drop_last(), rv, ri, v);
        let x = type_issues(ts.drop_last(), rv, ri);
        if !verdict(rv, (ri + ts.len() - 1) as nat) {
            assert(rel_issue(ts.last()).code != unbound_issue(v).code);
            lemma_not_in_append(x, seq![rel_issue(ts.last())], unbound_issue(v));
            assert(type_issues(ts, rv, ri) =~= x + seq![rel_issue(ts.last())]);
        }
    }
}

proof fn lemma_chain_issues_not_unbound(ch: Seq<SChain>, lv: Seq<bool>, rv: Seq<bool>, li: nat, ri: nat, v: Seq<char>)
    ensures
        !chain_issues(ch, lv, rv, li, ri).contains(unbound_issue(v)),
    decreases ch.len(),
{
    if ch.len() > 0 {
        let pre = ch.drop_last();
        let c = ch.last();
        lemma_chain_issues_not_unbound(pre, lv, rv, li, ri, v);
        lemma_type_issues_not_unbound(c.rel.types, rv, ri + chain_types(pre), v);
        lemma_label_issues_not_unbound(c.node.labels, lv, li + chain_labels(pre), v);
        let x = chain_issues(pre, lv, rv, li, ri);
        let y = type_issues(c.rel.types, rv, ri + chain_types(pre));
        let z = label_issues(c.node.labels, lv, li + chain_labels(pre));
        lemma_not_in_append(x, y, unbound_issue(v));
        lemma_not_in_append(x + y, z, unbound_issue(v));
    }
}

proof fn lemma_patterns_issues_not_unbound(ps: Seq<SPattern>, lv: Seq<bool>, rv: Seq<bool>, li: nat, ri: nat, v: Seq<char>)
    ensures
        !patterns_issues(ps, lv, rv, li, ri).contains(unbound_issue(v)),
    decreases ps.len(),
{
    if ps.len() > 0 {
        let pre = ps.drop_last();
        let p = ps.last();
        let l = li + patterns_labels(pre);
        let r = ri + patterns_types(pre);
        lemma_patterns_issues_not_unbound(pre, lv, rv, li, ri, v);
        lemma_label_issues_not_unbound(p.anchor.labels, lv, l, v);
        lemma_chain_issues_not_unbound(p.chain, lv, rv, l + p.anchor.labels.len(), r, v);
        lemma_not_in_append(
            label_issues(p.anchor.labels, lv, l),
            chain_issues(p.chain, lv, rv, l + p.anchor.labels.len(), r),
            unbound_issue(v),
        );
        lemma_not_in_append(
            patterns_issues(pre, lv, rv, li, ri),
            pattern_issues(p, lv, rv, l, r),
            unbound_issue(v),
        );
    }
}

proof fn lemma_query_issues_skip_bound(cs: Seq<SClause>, b: Set<Seq<char>>, lv: Seq<bool>, rv: Seq<bool>, v: Seq<char>)
    requires
        b.contains(v),
    ensures
        !query_issues(cs, b, lv, rv).contains(unbound_issue(v)),
    decreases cs.len(),
{
    if cs.len() > 0 {
        let pre = cs.drop_last();
        let c = cs.last();
        lemma_query_issues_skip_bound(pre, b, lv, rv, v);
        match c {
            SClause::Match(m) => lemma_patterns_issues_not_unbound(
                m.patterns,
                lv,
                rv,
                query_labels(pre),
                query_types(pre),
                v,
            ),
            SClause::Where(e) => lemma_var_issues_skip_bound(expr_vars(e), b, v),
            SClause::With(p) => lemma_var_issues_skip_bound(items_vars(p.items), b, v),
            SClause::Return(p) => lemma_var_issues_skip_bound(items_vars(p.items), b, v),
            SClause::OrderBy(items) => lemma_var_issues_skip_bound(orders_vars(items), b, v),
            SClause::Skip(e) => lemma_var_issues_skip_bound(expr_vars(e), b, v),
            SClause::Limit(e) => lemma_var_issues_skip_bound(expr_vars(e), b, v),
            SClause::Unwind(e, _) => lemma_var_issues_skip_bound(expr_vars(e), b, v),
            SClause::Delete(_, es) => lemma_var_issues_skip_bound(list_vars(es), b, v),
        }
        lemma_not_in_append(
            query_issues(pre, b, lv, rv),
            clause_issues(c, b, lv, rv, query_labels(pre), query_types(pre)),
            unbound_issue(v),
        );
    }
}

/// A variable that some clause of the query binds is never reported as
/// unbound, whatever the verdicts.
pub proof fn lemma_bound_variables_not_reported(q: SQuery, lv: Seq<bool>, rv: Seq<bool>, v: Seq<char>)
    requires
        query_binds(q.clauses).contains(v),
    ensures
        !spec_analysis(q, lv, rv).issues.contains(unbound_issue(v)),
{
    lemma_query_issues_skip_bound(q.clauses, query_binds(q.clauses).to_set(), lv, rv, v);
}

// ---- what the query binds -------------------------------------------------------------

/// `v` is the variable of the first node of `p`, or of one of its
/// relationships or later nodes.
pub open spec fn pattern_has_var(p: SPattern, v: Seq<char>) -> bool {
    p.anchor.var == Some(v) || exists|i: int|
        0 <= i < p.chain.len() && (#[trigger] p.chain[i].rel.var == Some(v) || p.chain[i].node.var
            == Some(v))
}

/// The clause binds `v`: a pattern variable of a `MATCH`, an alias of a
/// `WITH` item, or the variable of an `UNWIND`.
pub open spec fn clause_has_binding(c: SClause, v: Seq<char>) -> bool {
    match c {
        SClause::Match(m) => exists|j: int|
            0 <= j < m.patterns.len() && pattern_has_var(#[trigger] m.patterns[j], v),
        SClause::With(p) => exists|j: int| 0 <= j < p.items.len() && #[trigger] p.items[j].alias == Some(v),
        SClause::Unwind(_, x) => x == v,
        _ => false,
    }
}

proof fn lemma_contains_concat(a: Seq<Seq<char>>, b: Seq<Seq<char>>, v: Seq<char>)
    ensures
        (a + b).contains(v) <==> (a.contains(v) || b.contains(v)),
{
    if (a + b).contains(v) {
        let k = choose|k: int| 0 <= k < (a + b).len() && (a + b)[k] == v;
        if k < a.len() {
            assert(a[k] == v);
        } else {
            assert(b[k - a.len()] == v);
        }
    }
    if a.contains(v) {
        let k = choose|k: int| 0 <= k < a.len() && a[k] == v;
        assert((a + b)[k] == v);
    }
    if b.contains(v) {
        let k = choose|k: int| 0 <= k < b.len() && b[k] == v;
        assert((a + b)[a.len() + k] == v);
    }
}

proof fn lemma_opt_seq_contains(x: Option<Seq<char>>, v: Seq<char>)
    ensures
        opt_seq(x).contains(v) <==> x == Some(v),
{
    if x == Some(v) {
        assert(opt_seq(x)[0] == v);
    }
}

proof fn lemma_chain_binds_member(ch: Seq<SChain>, v: Seq<char>)
    ensures
        chain_binds(ch).contains(v) <==> exists|i: int|
            0 <= i < ch.len() && (#[trigger] ch[i].rel.var == Some(v) || ch[i].node.var == Some(v)),
    decreases ch.len(),
{
    if ch.len() > 0 {
        let pre = ch.drop_last();
        let c = ch.last();
        lemma_chain_binds_member(pre, v);
        lemma_contains_concat(chain_binds(pre) + opt_seq(c.rel.var), opt_seq(c.node.var), v);
        lemma_contains_concat(chain_binds(pre), opt_seq(c.rel.var), v);
        lemma_opt_seq_contains(c.rel.var, v);
        lemma_opt_seq_contains(c.node.var, v);
        if exists|i: int| 0 <= i < ch.len() && (#[trigger] ch[i].rel.var == Some(v) || ch[i].node.var == Some(v)) {
            let i = choose|i: int| 0 <= i < ch.len() && (#[trigger] ch[i].rel.var == Some(v) || ch[i].node.var == Some(v));
            if i < ch.len() - 1 {
                assert(pre[i] == ch[i]);
            }
        }
        if exists|i: int| 0 <= i < pre.len() && (#[trigger] pre[i].rel.var == Some(v) || pre[i].node.var == Some(v)) {
            let i = choose|i: int| 0 <= i < pre.len() && (#[trigger] pre[i].rel.var == Some(v) || pre[i].node.var == Some(v));
            assert(ch[i] == pre[i]);
        }
        if c.rel.var == Some(v) || c.node.var == Some(v) {
            assert(ch[ch.len() - 1] == c);
        }
    }
}

proof fn lemma_patterns_binds_member(ps: Seq<SPattern>, v: Seq<char>)
    ensures
        patterns_binds(ps).contains(v) <==> exists|j: int| 0 <= j < ps.len() && pattern_has_var(#[trigger] ps[j], v),
    decreases ps.len(),
{
    if ps.len() > 0 {
        let pre = ps.drop_last();
        let p = ps.last();
        lemma_patterns_binds_member(pre, v);
        lemma_contains_concat(patterns_binds(pre), pattern_binds(p), v);
        lemma_contains_concat(opt_seq(p.anchor.var), chain_binds(p.chain), v);
        lemma_opt_seq_contains(p.anchor.var, v);
        lemma_chain_binds_member(p.chain, v);
        if exists|j: int| 0 <= j < ps.len() && pattern_has_var(#[trigger] ps[j], v) {
            let j = choose|j: int| 0 <= j < ps.len() && pattern_has_var(#[trigger] ps[j], v);
            if j < ps.len() - 1 {
                assert(pre[j] == ps[j]);
            }
        }
        if exists|j: int| 0 <= j < pre.len() && pattern_has_var(#[trigger] pre[j], v) {
            let j = choose|j: int| 0 <= j < pre.len() && pattern_has_var(#[trigger] pre[j], v);
            assert(ps[j] == pre[j]);
        }
        if pattern_has_var(p, v) {
            assert(ps[ps.len() - 1] == p);
        }
    }
}

proof fn lemma_item_aliases_member(items: Seq<SItem>, v: Seq<char>)
    ensures
        item_aliases(items).contains(v) <==> exists|j: int| 0 <= j < items.len() && #[trigger] items[j].alias == Some(v),
    decreases items.len(),
{
    if items.len() > 0 {
        let pre = items.drop_last();
        lemma_item_aliases_member(pre, v);
        lemma_contains_concat(item_aliases(pre), opt_seq(items.last().alias), v);
        lemma_opt_seq_contains(items.last().alias, v);
        if exists|j: int| 0 <= j < items.len() && #[trigger] items[j].alias == Some(v) {
            let j = choose|j: int| 0 <= j < items.len() && #[trigger] items[j].alias == Some(v);
            if j < items.len() - 1 {
                assert(pre[j] == items[j]);
            }
        }
        if exists|j: int| 0 <= j < pre.len() && #[trigger] pre[j].alias == Some(v) {
            let j = choose|j: int| 0 <= j < pre.len() && #[trigger] pre[j].alias == Some(v);
            assert(items[j] == pre[j]);
        }
        if items.last().alias == Some(v) {
            assert(items[items.len() - 1] == items.last());
        }
    }
}

/// The names that a query binds are exactly its pattern variables, the
/// aliases of its `WITH` items and its `UNWIND` variables.
pub proof fn lemma_query_binds_member(cs: Seq<SClause>, v: Seq<char>)
    ensures
        query_binds(cs).contains(v) <==> exists|k: int| 0 <= k < cs.len() && clause_has_binding(#[trigger] cs[k], v),
    decreases cs.len(),
{
    if cs.len() > 0 {
        let pre = cs.drop_last();
        let c = cs.last();
        lemma_query_binds_member(pre, v);
        lemma_contains_concat(query_binds(pre), clause_binds(c), v);
        match c {
            SClause::Match(m) => lemma_patterns_binds_member(m.patterns, v),
            SClause::With(p) => lemma_item_aliases_member(p.items, v),
            SClause::Unwind(_, x) => {
                if x == v {
                    assert(clause_binds(c)[0] == v);
                }
            },
            _ => {},
        }
        if exists|k: int| 0 <= k < cs.len() && clause_has_binding(#[trigger] cs[k], v) {
            let k = choose|k: int| 0 <= k < cs.len() && clause_has_binding(#[trigger] cs[k], v);
            if k < cs.len() - 1 {
                assert(pre[k] == cs[k]);
            }
        }
        if exists|k: int| 0 <= k < pre.len() && clause_has_binding(#[trigger] pre[k], v) {
            let k = choose|k: int| 0 <= k < pre.len() && clause_has_binding(#[trigger] pre[k], v);
            assert(cs[k] == pre[k]);
        }
        if clause_has_binding(c, v) {
            assert(cs[cs.len() - 1] == c);
        }
    }
}

/// The errors of a report are exactly its issues of severity `Error`, in
/// the order of the report.
pub proof fn lemma_errors_are_the_error_issues(s: Seq<SIssue>)
    ensures
        forall|x: SIssue| #[trigger] errors_of(s).contains(x) <==> (s.contains(x) && x.severity
            == SemSeverity::Error),
        errors_of(s).len() <= s.len(),
    decreases s.len(),
{
    if s.len() > 0 {
        let pre = s.drop_last();
        lemma_errors_are_the_error_issues(pre);
        assert forall|x: SIssue| #[trigger] errors_of(s).contains(x) <==> (s.contains(x)
            && x.severity == SemSeverity::Error) by {
            if s.contains(x) && x.severity == SemSeverity::Error {
                let k = choose|k: int| 0 <= k < s.len() && s[k] == x;
                if k < s.len() - 1 {
                    assert(pre[k] == x);
                    assert(pre.contains(x));
                    assert(errors_of(pre).contains(x));
                    let m = choose|m: int| 0 <= m < errors_of(pre).len() && errors_of(pre)[m] == x;
                    if s.last().severity == SemSeverity::Error {
                        assert(errors_of(s) == errors_of(pre).push(s.last()));
                        assert(errors_of(s)[m] == x);
                    }
                } else {
                    assert(errors_of(s)[errors_of(pre).len() as int] == x);
                }
            }
            if errors_of(s).contains(x) {
                let m = choose|m: int| 0 <= m < errors_of(s).len() && errors_of(s)[m] == x;
                if s.last().severity == SemSeverity::Error && m == errors_of(pre).len() {
                    assert(s[s.len() - 1] == x);
                } else {
                    if s.last().severity == SemSeverity::Error {
                        assert(errors_of(s) == errors_of(pre).push(s.last()));
                    }
                    assert(errors_of(pre)[m] == x);
                    assert(errors_of(pre).contains(x));
                    assert(pre.contains(x));
                    let k = choose|k: int| 0 <= k < pre.len() && pre[k] == x;
                    assert(pre[k] == s[k]);
                }
            }
        }
    }
}

/// A report has errors exactly when one of its issues has severity `Error`.
pub proof fn lemma_errors_exist_iff(s: Seq<SIssue>)
    ensures
        (errors_of(s).len() > 0) == (exists|i: int|
            0 <= i < s.len() && #[trigger] s[i].severity == SemSeverity::Error),
    decreases s.len(),
{
    if s.len() > 0 {
        let pre = s.drop_last();
        lemma_errors_exist_iff(pre);
        if exists|i: int| 0 <= i < pre.len() && #[trigger] pre[i].severity == SemSeverity::Error {
            let i = choose|i: int| 0 <= i < pre.len() && #[trigger] pre[i].severity == SemSeverity::Error;
            assert(s[i] == pre[i]);
        }
        if exists|i: int| 0 <= i < s.len() && #[trigger] s[i].severity == SemSeverity::Error {
            let i = choose|i: int| 0 <= i < s.len() && #[trigger] s[i].severity == SemSeverity::Error;
            if i < pre.len() {
                assert(pre[i] == s[i]);
            }
        }
    }
}

// ---- the analysis ------------------------------------------------------------------------

impl Clone for SemIssue {
    fn clone(&self) -> (r: Self)
        ensures
            r@ == self@,
    {
        SemIssue { severity: self.severity, code: self.code, message: self.message.clone() }
    }
}

impl Default for AnalysisReport {
    fn default() -> (r: Self)
        ensures
            r.bindings@.len() == 0,
            r.issues@.len() == 0,
    {
        AnalysisReport { bindings: Vec::new(), issues: Vec::new() }
    }
}

fn unbound_issue_x(v: &String) -> (r: SemIssue)
    ensures
        r@ == unbound_issue(v@),
{
    let mut m = String::from_str("unbound variable `");
    m.append(v.as_str());
    m.append("` (introduce it in a MATCH pattern, or use $name for a parameter)");
    SemIssue { severity: SemSeverity::Error, code: "unbound-variable", message: m }
}

fn label_issue_x(l: &String) -> (r: SemIssue)
    ensures
        r@ == label_issue(l@),
{
    let mut m = String::from_str("unknown label `");
    m.append(l.as_str());
    m.append("`");
    SemIssue { severity: SemSeverity::Error, code: "unknown-label", message: m }
}

fn rel_issue_x(t: &String) -> (r: SemIssue)
    ensures
        r@ == rel_issue(t@),
{
    let mut m = String::from_str("unknown relationship type `");
    m.append(t.as_str());
    m.append("`");
    SemIssue { severity: SemSeverity::Error, code: "unknown-rel-type", message: m }
}

fn push_issue(issues: &mut Vec<SemIssue>, i: SemIssue)
    ensures
        issues_model(final(issues)@) == issues_model(old(issues)@).push(i@),
{
    issues.push(i);
    proof {
        assert(issues_model(issues@) =~= issues_model(old(issues)@).push(i@));
    }
}

/// Reports `name` unless it is bound.
fn check_var(name: &String, bindings: &Vec<String>, issues: &mut Vec<SemIssue>)
    ensures
        issues_model(final(issues)@) == issues_model(old(issues)@) + var_issues(
            seq![name@],
            name_set(bindings@),
        ),
{
    proof {
        reveal_with_fuel(var_issues, 2);
        assert(seq![name@].drop_last() =~= Seq::<Seq<char>>::empty());
        assert(seq![name@].last() == name@);
    }
    if !contains_name(bindings, name) {
        push_issue(issues, unbound_issue_x(name));
        proof {
            assert(issues_model(issues@) =~= issues_model(old(issues)@) + var_issues(
                seq![name@],
                name_set(bindings@),
            ));
        }
    } else {
        proof {
            assert(issues_model(issues@) =~= issues_model(old(issues)@) + var_issues(
                seq![name@],
                name_set(bindings@),
            ));
        }
    }
}

/// Reports each variable of `e` that is not bound, in order.
fn check_expr(e: &Expr, bindings: &Vec<String>, issues: &mut Vec<SemIssue>)
    ensures
        issues_model(final(issues)@) == issues_model(old(issues)@) + var_issues(
            expr_vars(e@),
            name_set(bindings@),
        ),
    decreases e,
{
    let ghost b = name_set(bindings@);
    let ghost o = issues_model(old(issues)@);
    match e {
        Expr::Variable(v) => check_var(v, bindings, issues),
        Expr::Property { base, .. } => check_expr(base, bindings, issues),
        Expr::Binary { lhs, rhs, .. } => {
            check_expr(lhs, bindings, issues);
            check_expr(rhs, bindings, issues);
            proof {
                lemma_var_issues_append(expr_vars(lhs@), expr_vars(rhs@), b);
                assert(o + var_issues(expr_vars(lhs@), b) + var_issues(expr_vars(rhs@), b) =~= o + (
                var_issues(expr_vars(lhs@), b) + var_issues(expr_vars(rhs@), b)));
            }
        },
        Expr::Unary { operand, .. } => check_expr(operand, bindings, issues),
        Expr::List(items) => {
            let ghost m = ast::exprs_model(items@);
            proof {
                ast::lemma_exprs_model_len(items@);
            }
            let mut k: usize = 0;
            while k < items.len()
                invariant
                    k <= items@.len(),
                    *e == Expr::List(*items),
                    m == ast::exprs_model(items@),
                    m.len() == items@.len(),
                    forall|j: int| 0 <= j < items@.len() ==> #[trigger] m[j] == items@[j]@,
                    b == name_set(bindings@),
                    issues_model(issues@) == o + var_issues(list_vars(m.take(k as int)), b),
                decreases items@.len() - k,
            {
                proof {
                    assert(decreases_to!(*e => (*e)->List_0));
                    assert(m.take(k + 1).subrange(0, k as int) =~= m.take(k as int));
                    assert(m.take(k + 1)[k as int] == m[k as int]);
                    lemma_var_issues_append(list_vars(m.take(k as int)), expr_vars(m[k as int]), b);
                }
                let ghost before = issues_model(issues@);
                check_expr(&items[k], bindings, issues);
                proof {
                    assert(issues_model(issues@) =~= o + var_issues(list_vars(m.take(k + 1)), b));
                }
                k = k + 1;
            }
            proof {
                assert(m.take(items@.len() as int) =~= m);
            }
        },
        Expr::MapLit(entries) => {
            let ghost m = ast::entries_model(entries@);
            proof {
                ast::lemma_entries_model_len(entries@);
            }
            let mut k: usize = 0;
            while k < entries.len()
                invariant
                    k <= entries@.len(),
                    *e == Expr::MapLit(*entries),
                    m == ast::entries_model(entries@),
                    m.len() == entries@.len(),
                    forall|j: int|
                        0 <= j < entries@.len() ==> #[trigger] m[j] == (
                            entries@[j].0@,
                            entries@[j].1@,
                        ),
                    b == name_set(bindings@),
                    issues_model(issues@) == o + var_issues(entries_vars(m.take(k as int)), b),
                decreases entries@.len() - k,
            {
                proof {
                    assert(decreases_to!(*e => (*e)->MapLit_0));
                    assert(m.take(k + 1).subrange(0, k as int) =~= m.take(k as int));
                    assert(m.take(k + 1)[k as int] == m[k as int]);
                    lemma_var_issues_append(
                        entries_vars(m.take(k as int)),
                        expr_vars(m[k as int].1),
                        b,
                    );
                }
                check_expr(&entries[k].1, bindings, issues);
                proof {
                    assert(issues_model(issues@) =~= o + var_issues(entries_vars(m.take(k + 1)), b));
                }
                k = k + 1;
            }
            proof {
                assert(m.take(entries@.len() as int) =~= m);
            }
        },
        Expr::Literal(_) => {
            proof {
                assert(o + var_issues(expr_vars(e@), b) =~= o);
            }
        },
        Expr::Param(_) => {
            proof {
                assert(o + var_issues(expr_vars(e@), b) =~= o);
            }
        },
    }
}

fn check_exprs(es: &Vec<Expr>, bindings: &Vec<String>, issues: &mut Vec<SemIssue>)
    ensures
        issues_model(final(issues)@) == issues_model(old(issues)@) + var_issues(
            list_vars(ast::exprs_model(es@)),
            name_set(bindings@),
        ),
{
    let ghost b = name_set(bindings@);
    let ghost o = issues_model(old(issues)@);
    let ghost m = ast::exprs_model(es@);
    proof {
        ast::lemma_exprs_model_len(es@);
        assert(o + var_issues(list_vars(m.take(0)), b) =~= o);
    }
    let mut k: usize = 0;
    while k < es.len()
        invariant
            k <= es@.len(),
            m == ast::exprs_model(es@),
            m.len() == es@.len(),
            forall|j: int| 0 <= j < es@.len() ==> #[trigger] m[j] == es@[j]@,
            b == name_set(bindings@),
            issues_model(issues@) == o + var_issues(list_vars(m.take(k as int)), b),
        decreases es@.len() - k,
    {
        proof {
            assert(m.take(k + 1).subrange(0, k as int) =~= m.take(k as int));
            assert(m.take(k + 1)[k as int] == m[k as int]);
            lemma_var_issues_append(list_vars(m.take(k as int)), expr_vars(m[k as int]), b);
        }
        check_expr(&es[k], bindings, issues);
        proof {
            assert(issues_model(issues@) =~= o + var_issues(list_vars(m.take(k + 1)), b));
        }
        k = k + 1;
    }
    proof {
        assert(m.take(es@.len() as int) =~= m);
    }
}

fn check_items(items: &Vec<ReturnItem>, bindings: &Vec<String>, issues: &mut Vec<SemIssue>)
    ensures
        issues_model(final(issues)@) == issues_model(old(issues)@) + var_issues(
            items_vars(ast::items_model(items@)),
            name_set(bindings@),
        ),
{
    let ghost b = name_set(bindings@);
    let ghost o = issues_model(old(issues)@);
    let ghost m = ast::items_model(items@);
    proof {
        assert(o + var_issues(items_vars(m.take(0)), b) =~= o);
    }
    let mut k: usize = 0;
    while k < items.len()
        invariant
            k <= items@.len(),
            m == ast::items_model(items@),
            m.len() == items@.len(),
            b == name_set(bindings@),
            issues_model(issues@) == o + var_issues(items_vars(m.take(k as int)), b),
        decreases items@.len() - k,
    {
        proof {
            assert(m.take(k + 1).drop_last() =~= m.take(k as int));
            assert(m.take(k + 1).last() == items@[k as int]@);
            lemma_var_issues_append(
                items_vars(m.take(k as int)),
                expr_vars(items@[k as int].expr@),
                b,
            );
        }
        check_expr(&items[k].expr, bindings, issues);
        proof {
            assert(issues_model(issues@) =~= o + var_issues(items_vars(m.take(k + 1)), b));
        }
        k = k + 1;
    }
    proof {
        assert(m.take(items@.len() as int) =~= m);
    }
}

fn check_orders(items: &Vec<OrderItem>, bindings: &Vec<String>, issues: &mut Vec<SemIssue>)
    ensures
        issues_model(final(issues)@) == issues_model(old(issues)@) + var_issues(
            orders_vars(ast::orders_model(items@)),
            name_set(bindings@),
        ),
{
    let ghost b = name_set(bindings@);
    let ghost o = issues_model(old(issues)@);
    let ghost m = ast::orders_model(items@);
    proof {
        assert(o + var_issues(orders_vars(m.take(0)), b) =~= o);
    }
    let mut k: usize = 0;
    while k < items.len()
        invariant
            k <= items@.len(),
            m == ast::orders_model(items@),
            m.len() == items@.len(),
            b == name_set(bindings@),
            issues_model(issues@) == o + var_issues(orders_vars(m.take(k as int)), b),
        decreases items@.len() - k,
    {
        proof {
            assert(m.take(k + 1).drop_last() =~= m.take(k as int));
            assert(m.take(k + 1).last() == items@[k as int]@);
            lemma_var_issues_append(
                orders_vars(m.take(k as int)),
                expr_vars(items@[k as int].expr@),
                b,
            );
        }
        check_expr(&items[k].expr, bindings, issues);
        proof {
            assert(issues_model(issues@) =~= o + var_issues(orders_vars(m.take(k + 1)), b));
        }
        k = k + 1;
    }
    proof {
        assert(m.take(items@.len() as int) =~= m);
    }
}

/// `n`, or `m` when `n` is larger.
pub open spec fn cap(n: nat, m: nat) -> nat {
    if n < m {
        n
    } else {
        m
    }
}

/// Checks the labels `ls`, the first of which is label number `n` of the
/// query; `li` is `n` capped at the number of verdicts.
fn check_labels(
    ls: &Vec<String>,
    lv: &Vec<bool>,
    li: &mut usize,
    Ghost(n): Ghost<nat>,
    issues: &mut Vec<SemIssue>,
)
    requires
        *old(li) == cap(n, lv@.len()),
    ensures
        *final(li) == cap(n + ls@.len(), lv@.len()),
        issues_model(final(issues)@) == issues_model(old(issues)@) + label_issues(
            ast::strs(ls@),
            lv@,
            n,
        ),
{
    let ghost o = issues_model(old(issues)@);
    let ghost m = ast::strs(ls@);
    proof {
        assert(o + label_issues(m.take(0), lv@, n) =~= o);
    }
    let mut k: usize = 0;
    while k < ls.len()
        invariant
            k <= ls@.len(),
            m == ast::strs(ls@),
            m.len() == ls@.len(),
            *li == cap((n + k) as nat, lv@.len()),
            issues_model(issues@) == o + label_issues(m.take(k as int), lv@, n),
        decreases ls@.len() - k,
    {
        proof {
            assert(m.take(k + 1).drop_last() =~= m.take(k as int));
            assert(m.take(k + 1).last() == ls@[k as int]@);
        }
        let ok = if *li < lv.len() {
            let v = lv[*li];
            *li = *li + 1;
            v
        } else {
            true
        };
        if !ok {
            push_issue(issues, label_issue_x(&ls[k]));
        }
        proof {
            assert(issues_model(issues@) =~= o + label_issues(m.take(k + 1), lv@, n));
        }
        k = k + 1;
    }
    proof {
        assert(m.take(ls@.len() as int) =~= m);
    }
}

/// Checks the relationship types `ts`, the first of which is type number
/// `n` of the query; `ri` is `n` capped at the number of verdicts.
fn check_types(
    ts: &Vec<String>,
    rv: &Vec<bool>,
    ri: &mut usize,
    Ghost(n): Ghost<nat>,
    issues: &mut Vec<SemIssue>,
)
    requires
        *old(ri) == cap(n, rv@.len()),
    ensures
        *final(ri) == cap(n + ts@.len(), rv@.len()),
        issues_model(final(issues)@) == issues_model(old(issues)@) + type_issues(
            ast::strs(ts@),
            rv@,
            n,
        ),
{
    let ghost o = issues_model(old(issues)@);
    let ghost m = ast::strs(ts@);
    proof {
        assert(o + type_issues(m.take(0), rv@, n) =~= o);
    }
    let mut k: usize = 0;
    while k < ts.len()
        invariant
            k <= ts@.len(),
            m == ast::strs(ts@),
            m.len() == ts@.len(),
            *ri == cap((n + k) as nat, rv@.len()),
            issues_model(issues@) == o + type_issues(m.take(k as int), rv@, n),
        decreases ts@.len() - k,
    {
        proof {
            assert(m.take(k + 1).drop_last() =~= m.take(k as int));
            assert(m.take(k + 1).last() == ts@[k as int]@);
        }
        let ok = if *ri < rv.len() {
            let v = rv[*ri];
            *ri = *ri + 1;
            v
        } else {
            true
        };
        if !ok {
            push_issue(issues, rel_issue_x(&ts[k]));
        }
        proof {
            assert(issues_model(issues@) =~= o + type_issues(m.take(k + 1), rv@, n));
        }
        k = k + 1;
    }
    proof {
        assert(m.take(ts@.len() as int) =~= m);
    }
}

fn check_chain(
    ch: &Vec<RelChain>,
    lv: &Vec<bool>,
    rv: &Vec<bool>,
    li: &mut usize,
    ri: &mut usize,
    Ghost(n): Ghost<nat>,
    Ghost(t): Ghost<nat>,
    issues: &mut Vec<SemIssue>,
)
    requires
        *old(li) == cap(n, lv@.len()),
        *old(ri) == cap(t, rv@.len()),
    ensures
        *final(li) == cap(n + chain_labels(ast::chains_model(ch@)), lv@.len()),
        *final(ri) == cap(t + chain_types(ast::chains_model(ch@)), rv@.len()),
        issues_model(final(issues)@) == issues_model(old(issues)@) + chain_issues(
            ast::chains_model(ch@),
            lv@,
            rv@,
            n,
            t,
        ),
{
    let ghost o = issues_model(old(issues)@);
    let ghost m = ast::chains_model(ch@);
    proof {
        assert(o + chain_issues(m.take(0), lv@, rv@, n, t) =~= o);
    }
    let mut k: usize = 0;
    while k < ch.len()
        invariant
            k <= ch@.len(),
            m == ast::chains_model(ch@),
            m.len() == ch@.len(),
            *li == cap(n + chain_labels(m.take(k as int)), lv@.len()),
            *ri == cap(t + chain_types(m.take(k as int)), rv@.len()),
            issues_model(issues@) == o + chain_issues(m.take(k as int), lv@, rv@, n, t),
        decreases ch@.len() - k,
    {
        let ghost pre = m.take(k as int);
        proof {
            assert(m.take(k + 1).drop_last() =~= pre);
            assert(m.take(k + 1).last() == ch@[k as int]@);
        }
        check_types(&ch[k].rel.types, rv, ri, Ghost(t + chain_types(pre)), issues);
        check_labels(&ch[k].node.labels, lv, li, Ghost(n + chain_labels(pre)), issues);
        proof {
            assert(issues_model(issues@) =~= o + chain_issues(m.take(k + 1), lv@, rv@, n, t));
        }
        k = k + 1;
    }
    proof {
        assert(m.take(ch@.len() as int) =~= m);
    }
}

fn check_pattern(
    p: &Pattern,
    lv: &Vec<bool>,
    rv: &Vec<bool>,
    li: &mut usize,
    ri: &mut usize,
    Ghost(n): Ghost<nat>,
    Ghost(t): Ghost<nat>,
    issues: &mut Vec<SemIssue>,
)
    requires
        *old(li) == cap(n, lv@.len()),
        *old(ri) == cap(t, rv@.len()),
    ensures
        *final(li) == cap(n + pattern_labels(p@), lv@.len()),
        *final(ri) == cap(t + chain_types(p@.chain), rv@.len()),
        issues_model(final(issues)@) == issues_model(old(issues)@) + pattern_issues(
            p@,
            lv@,
            rv@,
            n,
            t,
        ),
{
    let ghost o = issues_model(old(issues)@);
    check_labels(&p.anchor.labels, lv, li, Ghost(n), issues);
    check_chain(&p.chain, lv, rv, li, ri, Ghost(n + p.anchor.labels@.len()), Ghost(t), issues);
    proof {
        assert(issues_model(issues@) =~= o + pattern_issues(p@, lv@, rv@, n, t));
    }
}

fn check_patterns(
    ps: &Vec<Pattern>,
    lv: &Vec<bool>,
    rv: &Vec<bool>,
    li: &mut usize,
    ri: &mut usize,
    Ghost(n): Ghost<nat>,
    Ghost(t): Ghost<nat>,
    issues: &mut Vec<SemIssue>,
)
    requires
        *old(li) == cap(n, lv@.len()),
        *old(ri) == cap(t, rv@.len()),
    ensures
        *final(li) == cap(n + patterns_labels(ast::patterns_model(ps@)), lv@.len()),
        *final(ri) == cap(t + patterns_types(ast::patterns_model(ps@)), rv@.len()),
        issues_model(final(issues)@) == issues_model(old(issues)@) + patterns_issues(
            ast::patterns_model(ps@),
            lv@,
            rv@,
            n,
            t,
        ),
{
    let ghost o = issues_model(old(issues)@);
    let ghost m = ast::patterns_model(ps@);
    proof {
        assert(o + patterns_issues(m.take(0), lv@, rv@, n, t) =~= o);
    }
    let mut k: usize = 0;
    while k < ps.len()
        invariant
            k <= ps@.len(),
            m == ast::patterns_model(ps@),
            m.len() == ps@.len(),
            *li == cap(n + patterns_labels(m.take(k as int)), lv@.len()),
            *ri == cap(t + patterns_types(m.take(k as int)), rv@.len()),
            issues_model(issues@) == o + patterns_issues(m.take(k as int), lv@, rv@, n, t),
        decreases ps@.len() - k,
    {
        let ghost pre = m.take(k as int);
        proof {
            assert(m.take(k + 1).drop_last() =~= pre);
            assert(m.take(k + 1).last() == ps@[k as int]@);
        }
        check_pattern(
            &ps[k],
            lv,
            rv,
            li,
            ri,
            Ghost(n + patterns_labels(pre)),
            Ghost(t + patterns_types(pre)),
            issues,
        );
        proof {
            assert(issues_model(issues@) =~= o + patterns_issues(m.take(k + 1), lv@, rv@, n, t));
        }
        k = k + 1;
    }
    proof {
        assert(m.take(ps@.len() as int) =~= m);
    }
}

fn check_clause(
    c: &Clause,
    bindings: &Vec<String>,
    lv: &Vec<bool>,
    rv: &Vec<bool>,
    li: &mut usize,
    ri: &mut usize,
    Ghost(n): Ghost<nat>,
    Ghost(t): Ghost<nat>,
    issues: &mut Vec<SemIssue>,
)
    requires
        *old(li) == cap(n, lv@.len()),
        *old(ri) == cap(t, rv@.len()),
    ensures
        *final(li) == cap(n + clause_labels(c@), lv@.len()),
        *final(ri) == cap(t + clause_types(c@), rv@.len()),
        issues_model(final(issues)@) == issues_model(old(issues)@) + clause_issues(
            c@,
            name_set(bindings@),
            lv@,
            rv@,
            n,
            t,
        ),
{
    match c {
        Clause::Match(m) => check_patterns(&m.patterns, lv, rv, li, ri, Ghost(n), Ghost(t), issues),
        Clause::Where(e) => check_expr(e, bindings, issues),
        Clause::With(p) => check_items(&p.items, bindings, issues),
        Clause::Return(p) => check_items(&p.items, bindings, issues),
        Clause::OrderBy(items) => check_orders(items, bindings, issues),
        Clause::Skip(e) => check_expr(e, bindings, issues),
        Clause::Limit(e) => check_expr(e, bindings, issues),
        Clause::Unwind { expr, .. } => check_expr(expr, bindings, issues),
        Clause::Delete { exprs, .. } => check_exprs(exprs, bindings, issues),
    }
}

// ---- bindings ---------------------------------------------------------------------------

fn add_binding(out: &mut Vec<String>, v: &Option<String>, Ghost(done): Ghost<Seq<Seq<char>>>)
    requires
        distinct_names(old(out)@),
        name_set(old(out)@) == done.to_set(),
    ensures
        distinct_names(final(out)@),
        name_set(final(out)@) == (done + opt_seq(ast::opt_str(*v))).to_set(),
{
    match v {
        Some(x) => {
            insert_name(out, x.clone());
            proof {
                assert(done + opt_seq(ast::opt_str(*v)) =~= done.push(x@));
                done.lemma_push_to_set_commute(x@);
            }
        },
        None => {
            proof {
                assert(done + opt_seq(ast::opt_str(*v)) =~= done);
            }
        },
    }
}

fn collect_pattern(p: &Pattern, out: &mut Vec<String>, Ghost(done): Ghost<Seq<Seq<char>>>)
    requires
        distinct_names(old(out)@),
        name_set(old(out)@) == done.to_set(),
    ensures
        distinct_names(final(out)@),
        name_set(final(out)@) == (done + pattern_binds(p@)).to_set(),
{
    add_binding(out, &p.anchor.var, Ghost(done));
    let ghost d0 = done + opt_seq(ast::opt_str(p.anchor.var));
    let ghost m = ast::chains_model(p.chain@);
    let mut k: usize = 0;
    proof {
        assert(d0 + chain_binds(m.take(0)) =~= d0);
    }
    while k < p.chain.len()
        invariant
            k <= p.chain@.len(),
            m == ast::chains_model(p.chain@),
            m.len() == p.chain@.len(),
            distinct_names(out@),
            name_set(out@) == (d0 + chain_binds(m.take(k as int))).to_set(),
        decreases p.chain@.len() - k,
    {
        let ghost pre = m.take(k as int);
        proof {
            assert(m.take(k + 1).drop_last() =~= pre);
            assert(m.take(k + 1).last() == p.chain@[k as int]@);
        }
        add_binding(out, &p.chain[k].rel.var, Ghost(d0 + chain_binds(pre)));
        add_binding(
            out,
            &p.chain[k].node.var,
            Ghost(d0 + chain_binds(pre) + opt_seq(ast::opt_str(p.chain@[k as int].rel.var))),
        );
        proof {
            assert(d0 + chain_binds(pre) + opt_seq(ast::opt_str(p.chain@[k as int].rel.var)) + opt_seq(
                ast::opt_str(p.chain@[k as int].node.var),
            ) =~= d0 + chain_binds(m.take(k + 1)));
        }
        k = k + 1;
    }
    proof {
        assert(m.take(p.chain@.len() as int) =~= m);
        assert(d0 + chain_binds(m) =~= done + pattern_binds(p@));
    }
}

fn collect_clause(c: &Clause, out: &mut Vec<String>, Ghost(done): Ghost<Seq<Seq<char>>>)
    requires
        distinct_names(old(out)@),
        name_set(old(out)@) == done.to_set(),
    ensures
        distinct_names(final(out)@),
        name_set(final(out)@) == (done + clause_binds(c@)).to_set(),
{
    match c {
        Clause::Match(mc) => {
            let ghost m = ast::patterns_model(mc.patterns@);
            let mut k: usize = 0;
            proof {
                assert(done + patterns_binds(m.take(0)) =~= done);
            }
            while k < mc.patterns.len()
                invariant
                    k <= mc.patterns@.len(),
                    m == ast::patterns_model(mc.patterns@),
                    m.len() == mc.patterns@.len(),
                    distinct_names(out@),
                    name_set(out@) == (done + patterns_binds(m.take(k as int))).to_set(),
                decreases mc.patterns@.len() - k,
            {
                let ghost pre = m.take(k as int);
                proof {
                    assert(m.take(k + 1).drop_last() =~= pre);
                    assert(m.take(k + 1).last() == mc.patterns@[k as int]@);
                }
                collect_pattern(&mc.patterns[k], out, Ghost(done + patterns_binds(pre)));
                proof {
                    assert(done + patterns_binds(pre) + pattern_binds(mc.patterns@[k as int]@)
                        =~= done + patterns_binds(m.take(k + 1)));
                }
                k = k + 1;
            }
            proof {
                assert(m.take(mc.patterns@.len() as int) =~= m);
            }
        },
        Clause::With(p) => {
            let ghost m = ast::items_model(p.items@);
            let mut k: usize = 0;
            proof {
                assert(done + item_aliases(m.take(0)) =~= done);
            }
            while k < p.items.len()
                invariant
                    k <= p.items@.len(),
                    m == ast::items_model(p.items@),
                    m.len() == p.items@.len(),
                    distinct_names(out@),
                    name_set(out@) == (done + item_aliases(m.take(k as int))).to_set(),
                decreases p.items@.len() - k,
            {
                let ghost pre = m.take(k as int);
                proof {
                    assert(m.take(k + 1).drop_last() =~= pre);
                    assert(m.take(k + 1).last() == p.items@[k as int]@);
                }
                add_binding(out, &p.items[k].alias, Ghost(done + item_aliases(pre)));
                proof {
                    assert(done + item_aliases(pre) + opt_seq(ast::opt_str(p.items@[k as int].alias))
                        =~= done + item_aliases(m.take(k + 1)));
                }
                k = k + 1;
            }
            proof {
                assert(m.take(p.items@.len() as int) =~= m);
            }
        },
        Clause::Unwind { var, .. } => {
            insert_name(out, var.clone());
            proof {
                assert(done + clause_binds(c@) =~= done.push(var@));
                done.lemma_push_to_set_commute(var@);
            }
        },
        _ => {
            proof {
                assert(done + clause_binds(c@) =~= done);
            }
        },
    }
}

/// The names that the clauses of `query` bind, each once.
pub(crate) fn collect_bindings(query: &Query) -> (r: Vec<String>)
    ensures
        distinct_names(r@),
        name_set(r@) == query_binds(ast::clauses_model(query.clauses@)).to_set(),
{
    let ghost m = ast::clauses_model(query.clauses@);
    let mut out = no_names();
    let mut k: usize = 0;
    proof {
        assert(query_binds(m.take(0)) =~= Seq::<Seq<char>>::empty());
        assert(Seq::<Seq<char>>::empty().to_set() =~= Set::<Seq<char>>::empty());
    }
    while k < query.clauses.len()
        invariant
            k <= query.clauses@.len(),
            m == ast::clauses_model(query.clauses@),
            m.len() == query.clauses@.len(),
            distinct_names(out@),
            name_set(out@) == query_binds(m.take(k as int)).to_set(),
        decreases query.clauses@.len() - k,
    {
        let ghost pre = m.take(k as int);
        proof {
            assert(m.take(k + 1).drop_last() =~= pre);
            assert(m.take(k + 1).last() == query.clauses@[k as int]@);
        }
        collect_clause(&query.clauses[k], &mut out, Ghost(query_binds(pre)));
        k = k + 1;
    }
    proof {
        assert(m.take(query.clauses@.len() as int) =~= m);
    }
    out
}

// ---- entry points ------------------------------------------------------------------------

/// Analyze `query`, where the `k`-th label occurrence of the query (in the
/// order of the text) is approved when `label_ok[k]` is `true` or missing,
/// and the relationship types likewise with `rel_ok`.
pub fn analyze_with_verdicts(query: &Query, label_ok: &Vec<bool>, rel_ok: &Vec<bool>) -> (r:
    AnalysisReport)
    ensures
        distinct_names(r.bindings@),
        r@ == spec_analysis(query@, label_ok@, rel_ok@),
{
    let bindings = collect_bindings(query);
    let ghost b = name_set(bindings@);
    let ghost m = ast::clauses_model(query.clauses@);
    let mut issues: Vec<SemIssue> = Vec::new();
    let mut li: usize = 0;
    let mut ri: usize = 0;
    let mut k: usize = 0;
    proof {
        assert(issues_model(issues@) =~= query_issues(m.take(0), b, label_ok@, rel_ok@));
    }
    while k < query.clauses.len()
        invariant
            k <= query.clauses@.len(),
            m == ast::clauses_model(query.clauses@),
            m.len() == query.clauses@.len(),
            b == name_set(bindings@),
            li == cap(query_labels(m.take(k as int)), label_ok@.len()),
            ri == cap(query_types(m.take(k as int)), rel_ok@.len()),
            issues_model(issues@) == query_issues(m.take(k as int), b, label_ok@, rel_ok@),
        decreases query.clauses@.len() - k,
    {
        let ghost pre = m.take(k as int);
        proof {
            assert(m.take(k + 1).drop_last() =~= pre);
            assert(m.take(k + 1).last() == query.clauses@[k as int]@);
        }
        check_clause(
            &query.clauses[k],
            &bindings,
            label_ok,
            rel_ok,
            &mut li,
            &mut ri,
            Ghost(query_labels(pre)),
            Ghost(query_types(pre)),
            &mut issues,
        );
        k = k + 1;
    }
    proof {
        assert(m.take(query.clauses@.len() as int) =~= m);
    }
    AnalysisReport { bindings, issues }
}

/// Analyze a parsed query with every label and relationship type approved.
pub fn analyze(query: &Query) -> (r: AnalysisReport)
    ensures
        distinct_names(r.bindings@),
        r@ == spec_analysis(query@, Seq::empty(), Seq::empty()),
{
    let none: Vec<bool> = Vec::new();
    analyze_with_verdicts(query, &none, &none)
}

/// Asks `schema` about each label of `ls`, in order.
fn label_verdicts<S: Schema + ?Sized>(
    ls: &Vec<String>,
    schema: &S,
    lv: &mut Vec<bool>,
    Ghost(prev): Ghost<Seq<Seq<char>>>,
)
    requires
        respects_labels(schema, old(lv)@, prev),
    ensures
        respects_labels(schema, final(lv)@, prev + ast::strs(ls@)),
{
    let ghost names = ast::strs(ls@);
    let mut k: usize = 0;
    while k < ls.len()
        invariant
            k <= ls@.len(),
            names == ast::strs(ls@),
            respects_labels(schema, lv@, prev + names.take(k as int)),
        decreases ls@.len() - k,
    {
        let a = schema.has_label(ls[k].as_str());
        let ghost before = lv@;
        lv.push(a);
        proof {
            assert(names.take(k + 1) =~= names.take(k as int).push(ls@[k as int]@));
            assert(prev + names.take(k + 1) =~= (prev + names.take(k as int)) + seq![ls@[k as int]@]);
            assert(lv@ =~= before + seq![a]);
            lemma_respects_append(schema, before, prev + names.take(k as int), seq![a], seq![ls@[k as int]@]);
        }
        k = k + 1;
    }
    proof {
        assert(names.take(ls@.len() as int) =~= names);
    }
}

/// Asks `schema` about each relationship type of `ts`, in order.
fn type_verdicts<S: Schema + ?Sized>(
    ts: &Vec<String>,
    schema: &S,
    rv: &mut Vec<bool>,
    Ghost(prev): Ghost<Seq<Seq<char>>>,
)
    requires
        respects_types(schema, old(rv)@, prev),
    ensures
        respects_types(schema, final(rv)@, prev + ast::strs(ts@)),
{
    let ghost names = ast::strs(ts@);
    let mut k: usize = 0;
    while k < ts.len()
        invariant
            k <= ts@.len(),
            names == ast::strs(ts@),
            respects_types(schema, rv@, prev + names.take(k as int)),
        decreases ts@.len() - k,
    {
        let a = schema.has_rel_type(ts[k].as_str());
        let ghost before = rv@;
        rv.push(a);
        proof {
            assert(names.take(k + 1) =~= names.take(k as int).push(ts@[k as int]@));
            assert(prev + names.take(k + 1) =~= (prev + names.take(k as int)) + seq![ts@[k as int]@]);
            assert(rv@ =~= before + seq![a]);
            lemma_respects_append(schema, before, prev + names.take(k as int), seq![a], seq![ts@[k as int]@]);
        }
        k = k + 1;
    }
    proof {
        assert(names.take(ts@.len() as int) =~= names);
    }
}

/// Asks `schema` about the labels and relationship types of `p`, in the
/// order of the text.
fn pattern_verdicts<S: Schema + ?Sized>(
    p: &Pattern,
    schema: &S,
    lv: &mut Vec<bool>,
    rv: &mut Vec<bool>,
    Ghost(lprev): Ghost<Seq<Seq<char>>>,
    Ghost(rprev): Ghost<Seq<Seq<char>>>,
)
    requires
        respects_labels(schema, old(lv)@, lprev),
        respects_types(schema, old(rv)@, rprev),
    ensures
        respects_labels(schema, final(lv)@, lprev + pattern_label_names(p@)),
        respects_types(schema, final(rv)@, rprev + chain_type_names(p@.chain)),
{
    let ghost anchor = p@.anchor.labels;
    label_verdicts(&p.anchor.labels, schema, lv, Ghost(lprev));
    let ghost m = ast::chains_model(p.chain@);
    let mut k: usize = 0;
    proof {
        assert(lprev + anchor + chain_label_names(m.take(0)) =~= lprev + anchor);
        assert(rprev + chain_type_names(m.take(0)) =~= rprev);
    }
    while k < p.chain.len()
        invariant
            k <= p.chain@.len(),
            m == ast::chains_model(p.chain@),
            m.len() == p.chain@.len(),
            anchor == p@.anchor.labels,
            respects_labels(schema, lv@, lprev + anchor + chain_label_names(m.take(k as int))),
            respects_types(schema, rv@, rprev + chain_type_names(m.take(k as int))),
        decreases p.chain@.len() - k,
    {
        let ghost pre = m.take(k as int);
        proof {
            assert(m.take(k + 1).drop_last() =~= pre);
            assert(m.take(k + 1).last() == p.chain@[k as int]@);
        }
        type_verdicts(&p.chain[k].rel.types, schema, rv, Ghost(rprev + chain_type_names(pre)));
        label_verdicts(
            &p.chain[k].node.labels,
            schema,
            lv,
            Ghost(lprev + anchor + chain_label_names(pre)),
        );
        proof {
            let c = m[k as int];
            assert(lprev + anchor + chain_label_names(m.take(k + 1)) =~= lprev + anchor
                + chain_label_names(pre) + c.node.labels);
            assert(rprev + chain_type_names(m.take(k + 1)) =~= rprev + chain_type_names(pre)
                + c.rel.types);
        }
        k = k + 1;
    }
    proof {
        assert(m.take(p.chain@.len() as int) =~= m);
        assert(lprev + anchor + chain_label_names(m) =~= lprev + pattern_label_names(p@));
    }
}

/// Asks `schema` about every label and relationship type of `query`, in
/// the order of the text.
fn schema_verdicts<S: Schema + ?Sized>(query: &Query, schema: &S) -> (r: (Vec<bool>, Vec<bool>))
    ensures
        respects_labels(schema, r.0@, query_label_names(ast::clauses_model(query.clauses@))),
        respects_types(schema, r.1@, query_type_names(ast::clauses_model(query.clauses@))),
{
    let ghost m = ast::clauses_model(query.clauses@);
    let mut lv: Vec<bool> = Vec::new();
    let mut rv: Vec<bool> = Vec::new();
    let mut k: usize = 0;
    while k < query.clauses.len()
        invariant
            k <= query.clauses@.len(),
            m == ast::clauses_model(query.clauses@),
            m.len() == query.clauses@.len(),
            respects_labels(schema, lv@, query_label_names(m.take(k as int))),
            respects_types(schema, rv@, query_type_names(m.take(k as int))),
        decreases query.clauses@.len() - k,
    {
        let ghost pre = m.take(k as int);
        proof {
            assert(m.take(k + 1).drop_last() =~= pre);
            assert(m.take(k + 1).last() == query.clauses@[k as int]@);
        }
        match &query.clauses[k] {
            Clause::Match(mc) => {
                let ghost pm = ast::patterns_model(mc.patterns@);
                let ghost lbase = query_label_names(pre);
                let ghost rbase = query_type_names(pre);
                let mut j: usize = 0;
                proof {
                    assert(lbase + patterns_label_names(pm.take(0)) =~= lbase);
                    assert(rbase + patterns_type_names(pm.take(0)) =~= rbase);
                }
                while j < mc.patterns.len()
                    invariant
                        j <= mc.patterns@.len(),
                        pm == ast::patterns_model(mc.patterns@),
                        pm.len() == mc.patterns@.len(),
                        respects_labels(schema, lv@, lbase + patterns_label_names(pm.take(j as int))),
                        respects_types(schema, rv@, rbase + patterns_type_names(pm.take(j as int))),
                    decreases mc.patterns@.len() - j,
                {
                    let ghost ppre = pm.take(j as int);
                    proof {
                        assert(pm.take(j + 1).drop_last() =~= ppre);
                        assert(pm.take(j + 1).last() == mc.patterns@[j as int]@);
                    }
                    pattern_verdicts(
                        &mc.patterns[j],
                        schema,
                        &mut lv,
                        &mut rv,
                        Ghost(lbase + patterns_label_names(ppre)),
                        Ghost(rbase + patterns_type_names(ppre)),
                    );
                    proof {
                        assert(lbase + patterns_label_names(pm.take(j + 1)) =~= lbase
                            + patterns_label_names(ppre) + pattern_label_names(pm[j as int]));
                        assert(rbase + patterns_type_names(pm.take(j + 1)) =~= rbase
                            + patterns_type_names(ppre) + chain_type_names(pm[j as int].chain));
                    }
                    j = j + 1;
                }
                proof {
                    assert(pm.take(mc.patterns@.len() as int) =~= pm);
                    assert(query_label_names(m.take(k + 1)) =~= lbase + patterns_label_names(pm));
                    assert(query_type_names(m.take(k + 1)) =~= rbase + patterns_type_names(pm));
                }
            },
            _ => {
                proof {
                    assert(query_label_names(m.take(k + 1)) =~= query_label_names(pre));
                    assert(query_type_names(m.take(k + 1)) =~= query_type_names(pre));
                }
            },
        }
        k = k + 1;
    }
    proof {
        assert(m.take(query.clauses@.len() as int) =~= m);
    }
    (lv, rv)
}

/// Analyze a parsed query against `schema`.
///
/// `schema` is asked once about each label and relationship type of the
/// query's `MATCH` patterns, in the order of the text
/// ([`query_label_names`], [`query_type_names`]), and the report is the one
/// [`analyze_with_verdicts`] gives for its answers; by
/// [`lemma_refusals_are_reported`] it has one unknown-label issue per refused
/// label, and likewise for types. The contract ties each verdict to the
/// name it is about as far as the trait allows: a name that the schema
/// promises to approve ([`Schema::approves_label`]) gets an approving
/// verdict, and a schema that promises to approve everything, such as
/// [`PermissiveSchema`], gives the report of [`analyze`]. That a refusing
/// answer is a refusal on that very name is left unsaid: the trait's
/// default answers, which implementations inherit, are checked for every
/// implementation, so its methods cannot promise more of their answers.
pub fn analyze_with<S: Schema + ?Sized>(query: &Query, schema: &S) -> (r: AnalysisReport)
    ensures
        distinct_names(r.bindings@),
        exists|lv: Seq<bool>, rv: Seq<bool>|
            {
                &&& respects_labels(schema, lv, query_label_names(ast::clauses_model(query.clauses@)))
                &&& respects_types(schema, rv, query_type_names(ast::clauses_model(query.clauses@)))
                &&& r@ == spec_analysis(query@, lv, rv)
            },
        (forall|l: Seq<char>| #[trigger] schema.approves_label(l)) && (forall|t: Seq<char>|
            #[trigger] schema.approves_rel_type(t)) ==> r@ == spec_analysis(
            query@,
            Seq::empty(),
            Seq::empty(),
        ),
{
    let (lv, rv) = schema_verdicts(query, schema);
    let ghost m = ast::clauses_model(query.clauses@);
    proof {
        if (forall|l: Seq<char>| #[trigger] schema.approves_label(l)) && (forall|t: Seq<char>|
            #[trigger] schema.approves_rel_type(t)) {
            assert(approving(lv@)) by {
                assert forall|k: int| 0 <= k < lv@.len() implies #[trigger] lv@[k] by {
                    assert(schema.approves_label(query_label_names(m)[k]));
                }
            }
            assert(approving(rv@)) by {
                assert forall|k: int| 0 <= k < rv@.len() implies #[trigger] rv@[k] by {
                    assert(schema.approves_rel_type(query_type_names(m)[k]));
                }
            }
            lemma_approving_verdicts_change_nothing(query@, lv@, rv@);
        }
    }
    analyze_with_verdicts(query, &lv, &rv)
}

impl AnalysisReport {
    /// The issues of severity `Error`, in order.
    pub fn errors(&self) -> (r: Vec<SemIssue>)
        ensures
            issues_model(r@) == errors_of(issues_model(self.issues@)),
    {
        let ghost m = issues_model(self.issues@);
        let mut out: Vec<SemIssue> = Vec::new();
        let mut k: usize = 0;
        proof {
            assert(issues_model(out@) =~= errors_of(m.take(0)));
        }
        while k < self.issues.len()
            invariant
                k <= self.issues@.len(),
                m == issues_model(self.issues@),
                m.len() == self.issues@.len(),
                issues_model(out@) == errors_of(m.take(k as int)),
            decreases self.issues@.len() - k,
        {
            proof {
                assert(m.take(k + 1).drop_last() =~= m.take(k as int));
                assert(m.take(k + 1).last() == self.issues@[k as int]@);
            }
            if self.issues[k].severity == SemSeverity::Error {
                push_issue(&mut out, self.issues[k].clone());
            }
            k = k + 1;
        }
        proof {
            assert(m.take(self.issues@.len() as int) =~= m);
        }
        out
    }

    /// Whether some issue has severity `Error`.
    pub fn has_errors(&self) -> (r: bool)
        ensures
            r == (errors_of(issues_model(self.issues@)).len() > 0),
    {
        let ghost m = issues_model(self.issues@);
        let mut k: usize = 0;
        proof {
            assert(errors_of(m.take(0)).len() == 0);
        }
        while k < self.issues.len()
            invariant
                k <= self.issues@.len(),
                m == issues_model(self.issues@),
                m.len() == self.issues@.len(),
                errors_of(m.take(k as int)).len() == 0,
            decreases self.issues@.len() - k,
        {
            proof {
                assert(m.take(k + 1).drop_last() =~= m.take(k as int));
                assert(m.take(k + 1).last() == self.issues@[k as int]@);
            }
            if self.issues[k].severity == SemSeverity::Error {
                proof {
                    lemma_errors_prefix(m, k as int + 1);
                }
                return true;
            }
            k = k + 1;
        }
        proof {
            assert(m.take(self.issues@.len() as int) =~= m);
        }
        false
    }
}

/// Once a prefix of `s` holds an error, so does `s`.
proof fn lemma_errors_prefix(s: Seq<SIssue>, k: int)
    requires
        0 <= k <= s.len(),
        errors_of(s.take(k)).len() > 0,
    ensures
        errors_of(s).len() > 0,
    decreases s.len() - k,
{
    if k < s.len() {
        assert(s.take(k + 1).drop_last() =~= s.take(k));
        lemma_errors_prefix(s, k + 1);
    } else {
        assert(s.take(k) =~= s);
    }
}

} // verus!
