//! Abstract syntax tree of a parsed openCypher query, together with the
//! mathematical model (`S*` types) that the contracts of the library speak of.
use vstd::prelude::*;

verus! {

/// Direction of a relationship pattern.
#[derive(Debug, Clone, Copy, PartialEq, Eq, Structural)]
pub enum Direction {
    /// `(a)-[]->(b)`
    Outgoing,
    /// `(a)<-[]-(b)`
    Incoming,
    /// `(a)-[]-(b)`
    Undirected,
}

/// Binary operators.
#[derive(Debug, Clone, Copy, PartialEq, Eq, Structural)]
pub enum BinOp {
    Or,
    Xor,
    And,
    Eq,
    Neq,
    Lt,
    Lte,
    Gt,
    Gte,
    In,
    StartsWith,
    EndsWith,
    Contains,
    Add,
    Sub,
    Mul,
    Div,
    Mod,
}

/// Unary operators.
#[derive(Debug, Clone, Copy, PartialEq, Eq, Structural)]
pub enum UnOp {
    Not,
    Neg,
    IsNull,
    IsNotNull,
}

/// Literal values. A floating-point literal keeps its source text.
#[derive(Debug, PartialEq, Eq)]
pub enum Literal {
    Int(i64),
    Float(String),
    String(String),
    Bool(bool),
    Null,
}

/// Expressions.
#[allow(inconsistent_fields)]
#[derive(Debug, PartialEq, Eq)]
pub enum Expr {
    Literal(Literal),
    Variable(String),
    Param(String),
    Property { base: Box<Expr>, key: String },
    Binary { op: BinOp, lhs: Box<Expr>, rhs: Box<Expr> },
    Unary { op: UnOp, operand: Box<Expr> },
    List(Vec<Expr>),
    MapLit(Vec<(String, Expr)>),
}

/// `(var:Label1:Label2 {key: value})`
#[derive(Debug, PartialEq, Eq)]
pub struct NodePattern {
    pub var: Option<String>,
    pub labels: Vec<String>,
    pub properties: Vec<(String, Expr)>,
}

/// `-[var:TYPE1|TYPE2 {key: value}]->`
#[derive(Debug, PartialEq, Eq)]
pub struct RelPattern {
    pub var: Option<String>,
    pub direction: Direction,
    pub types: Vec<String>,
    pub properties: Vec<(String, Expr)>,
}

/// One hop of a pattern: a relationship followed by the node it reaches.
#[derive(Debug, PartialEq, Eq)]
pub struct RelChain {
    pub rel: RelPattern,
    pub node: NodePattern,
}

/// A path pattern: an anchor node followed by zero or more hops.
#[derive(Debug, PartialEq, Eq)]
pub struct Pattern {
    pub anchor: NodePattern,
    pub chain: Vec<RelChain>,
}

/// `MATCH` / `OPTIONAL MATCH`.
#[derive(Debug, PartialEq, Eq)]
pub struct MatchClause {
    pub optional: bool,
    pub patterns: Vec<Pattern>,
}

/// `expr [AS alias]`
#[derive(Debug, PartialEq, Eq)]
pub struct ReturnItem {
    pub expr: Expr,
    pub alias: Option<String>,
}

/// Item list of `RETURN` and `WITH`.
#[derive(Debug, PartialEq, Eq)]
pub struct ReturnClause {
    pub items: Vec<ReturnItem>,
    pub distinct: bool,
}

/// `expr [ASC|DESC]`
#[derive(Debug, PartialEq, Eq)]
pub struct OrderItem {
    pub expr: Expr,
    pub desc: bool,
}

/// Top-level clauses, in source order.
#[derive(Debug, PartialEq, Eq)]
pub enum Clause {
    Match(MatchClause),
    Where(Expr),
    With(ReturnClause),
    Return(ReturnClause),
    OrderBy(Vec<OrderItem>),
    Skip(Expr),
    Limit(Expr),
    Unwind { expr: Expr, var: String },
    Delete { detach: bool, exprs: Vec<Expr> },
}

/// A parsed query.
#[derive(Debug, PartialEq, Eq)]
pub struct Query {
    pub clauses: Vec<Clause>,
}

// ---- the model ---------------------------------------------------------

pub enum SLiteral {
    Int(i64),
    Float(Seq<char>),
    Str(Seq<char>),
    Bool(bool),
    Null,
}

pub enum SExpr {
    Lit(SLiteral),
    Var(Seq<char>),
    Param(Seq<char>),
    Prop(Box<SExpr>, Seq<char>),
    Bin(BinOp, Box<SExpr>, Box<SExpr>),
    Un(UnOp, Box<SExpr>),
    List(Seq<SExpr>),
    MapLit(Seq<(Seq<char>, SExpr)>),
}

pub struct SNode {
    pub var: Option<Seq<char>>,
    pub labels: Seq<Seq<char>>,
    pub props: Seq<(Seq<char>, SExpr)>,
}

pub struct SRel {
    pub var: Option<Seq<char>>,
    pub direction: Direction,
    pub types: Seq<Seq<char>>,
    pub props: Seq<(Seq<char>, SExpr)>,
}

pub struct SChain {
    pub rel: SRel,
    pub node: SNode,
}

pub struct SPattern {
    pub anchor: SNode,
    pub chain: Seq<SChain>,
}

pub struct SMatch {
    pub optional: bool,
    pub patterns: Seq<SPattern>,
}

pub struct SItem {
    pub expr: SExpr,
    pub alias: Option<Seq<char>>,
}

pub struct SProjection {
    pub items: Seq<SItem>,
    pub distinct: bool,
}

pub struct SOrderItem {
    pub expr: SExpr,
    pub desc: bool,
}

pub enum SClause {
    Match(SMatch),
    Where(SExpr),
    With(SProjection),
    Return(SProjection),
    OrderBy(Seq<SOrderItem>),
    Skip(SExpr),
    Limit(SExpr),
    Unwind(SExpr, Seq<char>),
    Delete(bool, Seq<SExpr>),
}

pub struct SQuery {
    pub clauses: Seq<SClause>,
}

pub open spec fn opt_str(o: Option<String>) -> Option<Seq<char>> {
    match o {
        Some(s) => Some(s@),
        None => None,
    }
}

pub open spec fn strs(s: Seq<String>) -> Seq<Seq<char>> {
    s.map_values(|x: String| x@)
}

pub open spec fn chains_model(s: Seq<RelChain>) -> Seq<SChain> {
    s.map_values(|c: RelChain| c@)
}

pub open spec fn patterns_model(s: Seq<Pattern>) -> Seq<SPattern> {
    s.map_values(|p: Pattern| p@)
}

pub open spec fn items_model(s: Seq<ReturnItem>) -> Seq<SItem> {
    s.map_values(|i: ReturnItem| i@)
}

pub open spec fn orders_model(s: Seq<OrderItem>) -> Seq<SOrderItem> {
    s.map_values(|i: OrderItem| i@)
}

pub open spec fn clauses_model(s: Seq<Clause>) -> Seq<SClause> {
    s.map_values(|c: Clause| c@)
}

pub proof fn lemma_strs_push(s: Seq<String>, x: String)
    ensures
        strs(s.push(x)) == strs(s).push(x@),
{
    assert(strs(s.push(x)) =~= strs(s).push(x@));
}

pub proof fn lemma_chains_push(s: Seq<RelChain>, x: RelChain)
    ensures
        chains_model(s.push(x)) == chains_model(s).push(x@),
{
    assert(chains_model(s.push(x)) =~= chains_model(s).push(x@));
}

pub proof fn lemma_patterns_push(s: Seq<Pattern>, x: Pattern)
    ensures
        patterns_model(s.push(x)) == patterns_model(s).push(x@),
{
    assert(patterns_model(s.push(x)) =~= patterns_model(s).push(x@));
}

pub proof fn lemma_items_push(s: Seq<ReturnItem>, x: ReturnItem)
    ensures
        items_model(s.push(x)) == items_model(s).push(x@),
{
    assert(items_model(s.push(x)) =~= items_model(s).push(x@));
}

pub proof fn lemma_orders_push(s: Seq<OrderItem>, x: OrderItem)
    ensures
        orders_model(s.push(x)) == orders_model(s).push(x@),
{
    assert(orders_model(s.push(x)) =~= orders_model(s).push(x@));
}

pub proof fn lemma_clauses_push(s: Seq<Clause>, x: Clause)
    ensures
        clauses_model(s.push(x)) == clauses_model(s).push(x@),
{
    assert(clauses_model(s.push(x)) =~= clauses_model(s).push(x@));
}

pub proof fn lemma_exprs_push(s: Seq<Expr>, x: Expr)
    ensures
        exprs_model(s.push(x)) == exprs_model(s).push(x@),
{
    assert(s.push(x).subrange(0, s.len() as int) =~= s);
}

pub proof fn lemma_entries_push(s: Seq<(String, Expr)>, x: (String, Expr))
    ensures
        entries_model(s.push(x)) == entries_model(s).push((x.0@, x.1@)),
{
    assert(s.push(x).subrange(0, s.len() as int) =~= s);
}

pub open spec fn literal_model(l: Literal) -> SLiteral {
    match l {
        Literal::Int(i) => SLiteral::Int(i),
        Literal::Float(s) => SLiteral::Float(s@),
        Literal::String(s) => SLiteral::Str(s@),
        Literal::Bool(b) => SLiteral::Bool(b),
        Literal::Null => SLiteral::Null,
    }
}

pub open spec fn expr_model(e: Expr) -> SExpr
    decreases e,
{
    match e {
        Expr::Literal(l) => SExpr::Lit(literal_model(l)),
        Expr::Variable(v) => SExpr::Var(v@),
        Expr::Param(p) => SExpr::Param(p@),
        Expr::Property { base, key } => SExpr::Prop(Box::new(expr_model(*base)), key@),
        Expr::Binary { op, lhs, rhs } => SExpr::Bin(
            op,
            Box::new(expr_model(*lhs)),
            Box::new(expr_model(*rhs)),
        ),
        Expr::Unary { op, operand } => SExpr::Un(op, Box::new(expr_model(*operand))),
        Expr::List(items) => SExpr::List(exprs_model(items@)),
        Expr::MapLit(entries) => SExpr::MapLit(entries_model(entries@)),
    }
}

pub open spec fn exprs_model(s: Seq<Expr>) -> Seq<SExpr>
    decreases s,
{
    if s.len() == 0 {
        Seq::empty()
    } else {
        exprs_model(s.subrange(0, s.len() - 1)).push(expr_model(s[s.len() - 1]))
    }
}

pub open spec fn entries_model(s: Seq<(String, Expr)>) -> Seq<(Seq<char>, SExpr)>
    decreases s,
{
    if s.len() == 0 {
        Seq::empty()
    } else {
        entries_model(s.subrange(0, s.len() - 1)).push(
            (s[s.len() - 1].0@, expr_model(s[s.len() - 1].1)),
        )
    }
}

pub proof fn lemma_exprs_model_len(s: Seq<Expr>)
    ensures
        exprs_model(s).len() == s.len(),
        forall|i: int| 0 <= i < s.len() ==> #[trigger] exprs_model(s)[i] == expr_model(s[i]),
    decreases s.len(),
{
    if s.len() > 0 {
        lemma_exprs_model_len(s.subrange(0, s.len() - 1));
    }
}

pub proof fn lemma_entries_model_len(s: Seq<(String, Expr)>)
    ensures
        entries_model(s).len() == s.len(),
        forall|i: int|
            0 <= i < s.len() ==> #[trigger] entries_model(s)[i] == (s[i].0@, expr_model(s[i].1)),
    decreases s.len(),
{
    if s.len() > 0 {
        lemma_entries_model_len(s.subrange(0, s.len() - 1));
    }
}

impl View for Literal {
    type V = SLiteral;

    open spec fn view(&self) -> SLiteral {
        literal_model(*self)
    }
}

impl View for Expr {
    type V = SExpr;

    open spec fn view(&self) -> SExpr {
        expr_model(*self)
    }
}

impl View for NodePattern {
    type V = SNode;

    open spec fn view(&self) -> SNode {
        SNode {
            var: opt_str(self.var),
            labels: strs(self.labels@),
            props: entries_model(self.properties@),
        }
    }
}

impl View for RelPattern {
    type V = SRel;

    open spec fn view(&self) -> SRel {
        SRel {
            var: opt_str(self.var),
            direction: self.direction,
            types: strs(self.types@),
            props: entries_model(self.properties@),
        }
    }
}

impl View for RelChain {
    type V = SChain;

    open spec fn view(&self) -> SChain {
        SChain { rel: self.rel@, node: self.node@ }
    }
}

impl View for Pattern {
    type V = SPattern;

    open spec fn view(&self) -> SPattern {
        SPattern { anchor: self.anchor@, chain: chains_model(self.chain@) }
    }
}

impl View for MatchClause {
    type V = SMatch;

    open spec fn view(&self) -> SMatch {
        SMatch {
            optional: self.optional,
            patterns: patterns_model(self.patterns@),
        }
    }
}

impl View for ReturnItem {
    type V = SItem;

    open spec fn view(&self) -> SItem {
        SItem { expr: self.expr@, alias: opt_str(self.alias) }
    }
}

impl View for ReturnClause {
    type V = SProjection;

    open spec fn view(&self) -> SProjection {
        SProjection { items: items_model(self.items@), distinct: self.distinct }
    }
}

impl View for OrderItem {
    type V = SOrderItem;

    open spec fn view(&self) -> SOrderItem {
        SOrderItem { expr: self.expr@, desc: self.desc }
    }
}

impl View for Clause {
    type V = SClause;

    open spec fn view(&self) -> SClause {
        match *self {
            Clause::Match(m) => SClause::Match(m@),
            Clause::Where(e) => SClause::Where(e@),
            Clause::With(r) => SClause::With(r@),
            Clause::Return(r) => SClause::Return(r@),
            Clause::OrderBy(items) => SClause::OrderBy(orders_model(items@)),
            Clause::Skip(e) => SClause::Skip(e@),
            Clause::Limit(e) => SClause::Limit(e@),
            Clause::Unwind { expr, var } => SClause::Unwind(expr@, var@),
            Clause::Delete { detach, exprs } => SClause::Delete(detach, exprs_model(exprs@)),
        }
    }
}

impl View for Query {
    type V = SQuery;

    open spec fn view(&self) -> SQuery {
        SQuery { clauses: clauses_model(self.clauses@) }
    }
}

// ---- copying -------------------------------------------------------------

/// Copy of an optional string.
pub fn copy_opt_str(s: &Option<String>) -> (r: Option<String>)
    ensures
        opt_str(r) == opt_str(*s),
{
    match s {
        Some(v) => Some(v.clone()),
        None => None,
    }
}

/// Copy of a list of strings.
pub fn copy_strs(v: &Vec<String>) -> (r: Vec<String>)
    ensures
        strs(r@) == strs(v@),
{
    let mut out: Vec<String> = Vec::new();
    let mut i: usize = 0;
    while i < v.len()
        invariant
            i <= v@.len(),
            out@.len() == i,
            strs(out@) == strs(v@.subrange(0, i as int)),
        decreases v@.len() - i,
    {
        let ghost old_out = out@;
        out.push(v[i].clone());
        proof {

        }
        i = i + 1;
        proof {
            assert forall|k: int| 0 <= k < i implies #[trigger] strs(out@)[k] == strs(
                v@.subrange(0, i as int),
            )[k] by {
                if k < i - 1 {
                    assert(strs(old_out)[k] == strs(v@.subrange(0, i - 1))[k]);
                }
            }
            assert(strs(out@) =~= strs(v@.subrange(0, i as int)));
        }
    }
    proof {
        assert(v@.subrange(0, v@.len() as int) =~= v@);
    }
    out
}

/// Copy of a list of expressions.
pub fn clone_exprs(v: &Vec<Expr>) -> (r: Vec<Expr>)
    ensures
        exprs_model(r@) == exprs_model(v@),
{
    let mut out: Vec<Expr> = Vec::new();
    let mut i: usize = 0;
    while i < v.len()
        invariant
            i <= v@.len(),
            exprs_model(out@) == exprs_model(v@.subrange(0, i as int)),
        decreases v@.len() - i,
    {
        let ghost old_out = out@;
        let e = v[i].clone();
        proof {
            lemma_exprs_push(old_out, e);
            assert(v@.subrange(0, i + 1).subrange(0, i as int) =~= v@.subrange(0, i as int));
        }
        out.push(e);
        i = i + 1;
    }
    proof {
        assert(v@.subrange(0, v@.len() as int) =~= v@);
    }
    out
}

impl Clone for Literal {
    fn clone(&self) -> (r: Self)
        ensures
            r@ == self@,
    {
        match self {
            Literal::Int(i) => Literal::Int(*i),
            Literal::Float(s) => Literal::Float(s.clone()),
            Literal::String(s) => Literal::String(s.clone()),
            Literal::Bool(b) => Literal::Bool(*b),
            Literal::Null => Literal::Null,
        }
    }
}

impl Clone for Expr {
    fn clone(&self) -> (r: Self)
        ensures
            r@ == self@,
        decreases self,
    {
        match self {
            Expr::Literal(l) => Expr::Literal(l.clone()),
            Expr::Variable(v) => Expr::Variable(v.clone()),
            Expr::Param(p) => Expr::Param(p.clone()),
            Expr::Property { base, key } => Expr::Property {
                base: Box::new((**base).clone()),
                key: key.clone(),
            },
            Expr::Binary { op, lhs, rhs } => Expr::Binary {
                op: *op,
                lhs: Box::new((**lhs).clone()),
                rhs: Box::new((**rhs).clone()),
            },
            Expr::Unary { op, operand } => Expr::Unary {
                op: *op,
                operand: Box::new((**operand).clone()),
            },
            Expr::List(items) => {
                let mut out: Vec<Expr> = Vec::new();
                let mut i: usize = 0;
                while i < items.len()
                    invariant
                        i <= items@.len(),
                        *self == Expr::List(*items),
                        exprs_model(out@) == exprs_model(items@.subrange(0, i as int)),
                    decreases items@.len() - i,
                {
                    let ghost old_out = out@;
                    proof {
                        assert(decreases_to!(*self => (*self)->List_0));
                    }
                    out.push(items[i].clone());
                    proof {
                        assert(items@.subrange(0, i + 1).subrange(0, i as int) =~= items@.subrange(
                            0,
                            i as int,
                        ));
                        assert(out@.subrange(0, out@.len() - 1) =~= old_out);
                    }
                    i = i + 1;
                }
                proof {
                    assert(items@.subrange(0, items@.len() as int) =~= items@);
                }
                Expr::List(out)
            },
            Expr::MapLit(entries) => {
                let mut out: Vec<(String, Expr)> = Vec::new();
                let mut i: usize = 0;
                while i < entries.len()
                    invariant
                        i <= entries@.len(),
                        *self == Expr::MapLit(*entries),
                        entries_model(out@) == entries_model(entries@.subrange(0, i as int)),
                    decreases entries@.len() - i,
                {
                    let ghost old_out = out@;
                    proof {
                        assert(decreases_to!(*self => (*self)->MapLit_0));
                    }
                    let k = entries[i].0.clone();
                    let v = entries[i].1.clone();
                    out.push((k, v));
                    proof {
                        assert(entries@.subrange(0, i + 1).subrange(0, i as int)
                            =~= entries@.subrange(0, i as int));
                        assert(out@.subrange(0, out@.len() - 1) =~= old_out);
                    }
                    i = i + 1;
                }
                proof {
                    assert(entries@.subrange(0, entries@.len() as int) =~= entries@);
                }
                Expr::MapLit(out)
            },
        }
    }
}

} // verus!
